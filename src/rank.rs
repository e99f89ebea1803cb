use vstd::prelude::*;

verus! {

/// Orders single-precision bit patterns as their values compare: positive
/// values by magnitude, negative values reversed below them, and `+0` equal
/// to `-0`. (A NaN pattern takes the place its magnitude bits give it.)
pub open spec fn spec_score_key(b: u32) -> int {
    if b >= 0x8000_0000 {
        -(b - 0x8000_0000)
    } else {
        b as int
    }
}

/// The order key of the bit pattern `b`.
pub fn score_key(b: u32) -> (r: i64)
    ensures
        r == spec_score_key(b),
{
    if b >= 0x8000_0000 {
        -((b - 0x8000_0000) as i64)
    } else {
        b as i64
    }
}

/// Index `a` comes before index `b`: a higher score, or an equal score and
/// a smaller index.
pub open spec fn ranks_before(scores: Seq<u32>, a: int, b: int) -> bool {
    spec_score_key(scores[a]) > spec_score_key(scores[b]) || (spec_score_key(scores[a])
        == spec_score_key(scores[b]) && a < b)
}

/// `p` lists every index of `scores` exactly once, best score first, equal
/// scores in index order.
pub open spec fn is_ranking(scores: Seq<u32>, p: Seq<usize>) -> bool {
    &&& p.len() == scores.len()
    &&& forall|i: int| 0 <= i < p.len() ==> p[i] < scores.len()
    &&& forall|c: usize| c < scores.len() ==> #[trigger] p.contains(c)
    &&& forall|i: int, j: int| 0 <= i < j < p.len() ==> ranks_before(scores, p[i] as int, p[j] as int)
}

/// The indices of `scores`, sorted by descending score; equal scores keep
/// their index order.
pub fn rank_indices(scores: &Vec<u32>) -> (p: Vec<usize>)
    ensures
        is_ranking(scores@, p@),
{
    let mut p: Vec<usize> = Vec::new();
    let mut k: usize = 0;
    while k < scores.len()
        invariant
            k <= scores@.len(),
            p@.len() == k,
            forall|i: int| 0 <= i < p@.len() ==> p@[i] < k,
            forall|c: usize| c < k ==> #[trigger] p@.contains(c),
            forall|i: int, j: int| 0 <= i < j < p@.len() ==> ranks_before(scores@, p@[i] as int, p@[j] as int),
        decreases scores@.len() - k,
    {
        let key = score_key(scores[k]);
        let mut pos: usize = 0;
        while pos < p.len() && score_key(scores[p[pos]]) >= key
            invariant
                k < scores@.len(),
                key == spec_score_key(scores@[k as int]),
                p@.len() == k,
                forall|i: int| 0 <= i < p@.len() ==> p@[i] < k,
                pos <= p@.len(),
                forall|i: int| 0 <= i < pos ==> spec_score_key(scores@[p@[i] as int]) >= key,
            decreases p@.len() - pos,
        {
            pos = pos + 1;
        }
        let ghost before = p@;
        proof {
            assert forall|i: int| pos <= i < before.len() implies spec_score_key(scores@[before[i] as int]) < key by {
                if i > pos {
                    assert(ranks_before(scores@, before[pos as int] as int, before[i] as int));
                }
            }
        }
        p.insert(pos, k);
        proof {
            assert(p@ =~= before.insert(pos as int, k));
            assert forall|c: usize| c <= k implies #[trigger] p@.contains(c) by {
                if c == k {
                    assert(p@[pos as int] == c);
                } else {
                    assert(before.contains(c));
                    let i0 = choose|i: int| 0 <= i < before.len() && before[i] == c;
                    if i0 < pos {
                        assert(p@[i0] == c);
                    } else {
                        assert(p@[i0 + 1] == c);
                    }
                }
            }
            assert forall|i: int, j: int| 0 <= i < j < p@.len() implies ranks_before(scores@, p@[i] as int, p@[j] as int) by {
                if j < pos {
                    assert(p@[i] == before[i] && p@[j] == before[j]);
                } else if j == pos {
                    assert(p@[i] == before[i]);
                } else if i == pos {
                    assert(p@[j] == before[j - 1]);
                } else if i < pos {
                    assert(p@[i] == before[i] && p@[j] == before[j - 1]);
                } else {
                    assert(p@[i] == before[i - 1] && p@[j] == before[j - 1]);
                }
            }
        }
        k = k + 1;
    }
    p
}

/// A ranking lists each index once: no index stands at two positions.
proof fn lemma_ranking_distinct(scores: Seq<u32>, p: Seq<usize>, i: int, j: int)
    requires
        is_ranking(scores, p),
        0 <= i < p.len(),
        0 <= j < p.len(),
        i != j,
    ensures
        p[i] != p[j],
{
    if i < j {
        assert(ranks_before(scores, p[i] as int, p[j] as int));
    } else {
        assert(ranks_before(scores, p[j] as int, p[i] as int));
    }
}

/// Two rankings of the same scores agree on their first `k` positions.
proof fn lemma_ranking_prefix_agrees(scores: Seq<u32>, p: Seq<usize>, q: Seq<usize>, k: int)
    requires
        is_ranking(scores, p),
        is_ranking(scores, q),
        0 <= k <= p.len(),
    ensures
        forall|i: int| 0 <= i < k ==> p[i] == q[i],
    decreases k,
{
    if k > 0 {
        lemma_ranking_prefix_agrees(scores, p, q, k - 1);
        let t = k - 1;
        let a = p[t];
        let b = q[t];
        if a != b {
            assert(q.contains(a));
            let m = choose|i: int| 0 <= i < q.len() && q[i] == a;
            assert(p.contains(b));
            let n = choose|i: int| 0 <= i < p.len() && p[i] == b;
            if m < t {
                lemma_ranking_distinct(scores, p, m, t);
            }
            if n < t {
                lemma_ranking_distinct(scores, q, n, t);
            }
            assert(ranks_before(scores, a as int, b as int));
            assert(ranks_before(scores, b as int, a as int));
        }
    }
}

/// The scores decide the ranking: two rankings of the same scores are equal.
pub proof fn lemma_ranking_unique(scores: Seq<u32>, p: Seq<usize>, q: Seq<usize>)
    requires
        is_ranking(scores, p),
        is_ranking(scores, q),
    ensures
        p == q,
{
    lemma_ranking_prefix_agrees(scores, p, q, p.len() as int);
    assert(p =~= q);
}

} // verus!
