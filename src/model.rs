use vstd::prelude::*;

use crate::dict::{has_word, Dict};
use crate::error::W2vError;
use crate::matrix::Matrix;
use crate::rank::{is_ranking, rank_indices, ranks_before, spec_score_key};
use crate::text::{freq_file_text, freq_lines, header, vector_file_text, vector_lines};

verus! {

/// Number of neighbours `most_similar` returns when the caller names none.
pub const DEFAULT_TOP_N: usize = 10;

/// A trained embedding model: input vectors `syn0` and output vectors
/// `syn1neg`, one row of `dim` values per word of `dict`.
pub struct Word2vec {
    syn0: Matrix,
    syn1neg: Matrix,
    dim: usize,
    dict: Dict,
}

/// How many results a query asks for.
pub open spec fn wanted(topn: Option<usize>) -> nat {
    match topn {
        Some(t) => t as nat,
        None => DEFAULT_TOP_N as nat,
    }
}

/// The smaller of `a` and `b`.
pub open spec fn min_nat(a: nat, b: nat) -> nat {
    if a <= b { a } else { b }
}

impl Word2vec {
    pub closed spec fn spec_syn0(&self) -> Matrix {
        self.syn0
    }

    pub closed spec fn spec_syn1neg(&self) -> Matrix {
        self.syn1neg
    }

    pub closed spec fn spec_dim(&self) -> nat {
        self.dim as nat
    }

    pub closed spec fn spec_dict(&self) -> Dict {
        self.dict
    }

    /// Both matrices have one row of `dim` values per dictionary word.
    pub open spec fn wf(&self) -> bool {
        &&& self.spec_dict().wf()
        &&& self.spec_syn0().wf()
        &&& self.spec_syn1neg().wf()
        &&& self.spec_syn0().spec_rows() == self.spec_dict().spec_size()
        &&& self.spec_syn1neg().spec_rows() == self.spec_dict().spec_size()
        &&& self.spec_syn0().spec_dim() == self.spec_dim()
        &&& self.spec_syn1neg().spec_dim() == self.spec_dim()
    }

    /// A model over the given matrices and dictionary.
    pub fn new(syn0: Matrix, syn1neg: Matrix, dim: usize, dict: Dict) -> (r: Word2vec)
        requires
            dict.wf(),
            syn0.wf(),
            syn1neg.wf(),
            syn0.spec_rows() == dict.spec_size(),
            syn1neg.spec_rows() == dict.spec_size(),
            syn0.spec_dim() == dim,
            syn1neg.spec_dim() == dim,
        ensures
            r.wf(),
            r.spec_syn0() == syn0,
            r.spec_syn1neg() == syn1neg,
            r.spec_dim() == dim,
            r.spec_dict() == dict,
    {
        Word2vec { syn0, syn1neg, dim, dict }
    }

    /// The input vectors.
    pub fn syn0(&self) -> (r: &Matrix)
        ensures
            *r == self.spec_syn0(),
    {
        &self.syn0
    }

    /// The output vectors.
    pub fn syn1neg(&self) -> (r: &Matrix)
        ensures
            *r == self.spec_syn1neg(),
    {
        &self.syn1neg
    }

    /// The vector dimension.
    pub fn dim(&self) -> (r: usize)
        ensures
            r == self.spec_dim(),
    {
        self.dim
    }

    /// The vocabulary.
    pub fn dict(&self) -> (r: &Dict)
        ensures
            *r == self.spec_dict(),
    {
        &self.dict
    }

    /// Replaces row `index` of `syn0`; `syn1neg` and the dictionary stay as
    /// they are. `IndexOutOfRange` (and no change) when `index` is past the
    /// last word.
    pub fn set_syn0_row(&mut self, index: usize, row: &Vec<u32>) -> (r: Result<(), W2vError>)
        requires
            old(self).wf(),
            row@.len() == old(self).spec_dim(),
        ensures
            final(self).wf(),
            final(self).spec_dim() == old(self).spec_dim(),
            final(self).spec_dict() == old(self).spec_dict(),
            final(self).spec_syn1neg() == old(self).spec_syn1neg(),
            r is Err <==> index >= old(self).spec_dict().spec_size(),
            r matches Err(e) ==> e == W2vError::IndexOutOfRange && *final(self) == *old(self),
            r is Ok ==> final(self).spec_syn0().values() == old(self).spec_syn0().values().update_subrange_with(
                index * old(self).spec_dim(),
                row@,
            ),
    {
        self.syn0.set_row(index, row)
    }

    /// Contents of the frequency file that `save_vectors` writes beside the
    /// vector file: `"<size> <dim>\n"`, then `"<word> <count>\n"` per word in
    /// index order.
    pub fn freq_text(&self) -> (r: String)
        requires
            self.wf(),
        ensures
            r@ == header(self.spec_dict().spec_size(), self.spec_dim()) + freq_lines(
                self.spec_dict().words(),
                self.spec_dict().counts(),
                self.spec_dict().spec_size(),
            ),
    {
        freq_file_text(&self.dict, self.dim)
    }

    /// Contents of the vector file that `save_vectors` writes:
    /// `"<size> <dim>\n"`, then per word in index order the word and each
    /// component's text, every one followed by a space, and a newline.
    /// `texts` holds the text of each `syn0` value, row after row.
    pub fn vector_text(&self, texts: &Vec<String>) -> (r: String)
        requires
            self.wf(),
            texts@.len() == self.spec_syn0().values().len(),
        ensures
            r@ == header(self.spec_dict().spec_size(), self.spec_dim()) + vector_lines(
                self.spec_dict().words(),
                texts@.map_values(|t: String| t@),
                self.spec_dim(),
                self.spec_dict().spec_size(),
            ),
    {
        vector_file_text(&self.dict, self.dim, texts)
    }

    /// The nearest neighbours of `word`, given `scores`, the dot product of
    /// each `syn0` row with `word`'s row (as single-precision bit patterns,
    /// in index order).
    ///
    /// Every word is ranked, `word` itself included: best score first, equal
    /// scores in index order. The first `topn` (default ten) pairs of score
    /// and word are returned. `UnknownWord` when `word` is not in the
    /// dictionary.
    pub fn most_similar(&self, word: &str, topn: Option<usize>, scores: &Vec<u32>) -> (r: Result<
        Vec<(u32, String)>,
        W2vError,
    >)
        requires
            self.wf(),
            scores@.len() == self.spec_dict().spec_size(),
        ensures
            r is Err <==> !has_word(self.spec_dict().words(), word@),
            r matches Err(e) ==> e == W2vError::UnknownWord,
            r matches Ok(v) ==> is_top_list(scores@, self.spec_dict().words(), wanted(topn), v@),
            r matches Ok(v) ==> descending(v@),
            r matches Ok(v) ==> (wanted(topn) >= scores@.len() ==> includes_word(
                scores@,
                self.spec_dict().words(),
                word@,
                v@,
            )),
    {
        let c = self.dict.index_of(word);
        if c.is_err() {
            return Err(W2vError::UnknownWord);
        }
        let p = rank_indices(scores);
        let limit = match topn {
            Some(t) => t,
            None => DEFAULT_TOP_N,
        };
        let n = if limit < p.len() { limit } else { p.len() };
        let mut out: Vec<(u32, String)> = Vec::new();
        let mut k: usize = 0;
        while k < n
            invariant
                self.wf(),
                is_ranking(scores@, p@),
                scores@.len() == self.spec_dict().spec_size(),
                n <= p@.len(),
                k <= n,
                out@.len() == k,
                forall|i: int|
                    0 <= i < k ==> out@[i].0 == scores@[p@[i] as int] && out@[i].1@
                        == self.spec_dict().words()[p@[i] as int],
            decreases n - k,
        {
            let i = p[k];
            out.push((scores[i], self.dict.get_word(i)));
            k = k + 1;
        }
        proof {
            lemma_ranked_prefix(scores@, p@, out@, self.spec_dict().words(), word@, wanted(topn));
        }
        Ok(out)
    }
}

/// `v` is the first `v.len()` entries of ranking `p`: each score with its word.
pub open spec fn ranked_prefix(
    scores: Seq<u32>,
    ws: Seq<Seq<char>>,
    p: Seq<usize>,
    v: Seq<(u32, String)>,
) -> bool {
    &&& v.len() <= p.len()
    &&& forall|k: int| 0 <= k < v.len() ==> v[k].0 == scores[p[k] as int] && v[k].1@ == ws[p[k] as int]
}

/// `v` is the best `min(want, scores.len())` pairs of score and word, in
/// ranking order.
pub open spec fn is_top_list(scores: Seq<u32>, ws: Seq<Seq<char>>, want: nat, v: Seq<(u32, String)>) -> bool {
    &&& v.len() == min_nat(want, scores.len())
    &&& exists|p: Seq<usize>| #[trigger] is_ranking(scores, p) && ranked_prefix(scores, ws, p, v)
}

/// No pair of `v` has a lower score than a pair after it.
pub open spec fn descending(v: Seq<(u32, String)>) -> bool {
    forall|a: int, b: int| 0 <= a < b < v.len() ==> spec_score_key(v[a].0) >= spec_score_key(v[b].0)
}

/// For each index of `word`, `v` holds `word` with that index's score.
pub open spec fn includes_word(scores: Seq<u32>, ws: Seq<Seq<char>>, word: Seq<char>, v: Seq<(u32, String)>) -> bool {
    forall|c: int|
        0 <= c < scores.len() && #[trigger] ws[c] == word ==> exists|k: int|
            0 <= k < v.len() && v[k].1@ == word && v[k].0 == scores[c]
}

/// What the loop of `most_similar` built, a prefix of the ranking, is in
/// descending score order, and holds every word when it is the whole ranking.
proof fn lemma_ranked_prefix(
    scores: Seq<u32>,
    p: Seq<usize>,
    v: Seq<(u32, String)>,
    ws: Seq<Seq<char>>,
    word: Seq<char>,
    want: nat,
)
    requires
        is_ranking(scores, p),
        scores.len() <= usize::MAX,
        ws.len() == scores.len(),
        v.len() <= p.len(),
        want >= scores.len() ==> v.len() == p.len(),
        forall|i: int|
            0 <= i < v.len() ==> v[i].0 == scores[p[i] as int] && v[i].1@ == ws[p[i] as int],
    ensures
        descending(v),
        want >= scores.len() ==> includes_word(scores, ws, word, v),
{
    assert forall|a: int, b: int| 0 <= a < b < v.len() implies spec_score_key(v[a].0)
        >= spec_score_key(v[b].0) by {
        assert(ranks_before(scores, p[a] as int, p[b] as int));
    }
    if want >= scores.len() {
        assert forall|c: int| 0 <= c < scores.len() && #[trigger] ws[c] == word implies exists|k: int|
            0 <= k < v.len() && v[k].1@ == word && v[k].0 == scores[c] by {
            assert(p.contains(c as usize));
            let k0 = choose|i: int| 0 <= i < p.len() && p[i] == c as usize;
            assert(v[k0].1@ == ws[c]);
        }
    }
}

} // verus!
