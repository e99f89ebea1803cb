use vstd::prelude::*;
use vstd::string::{StrSliceExecFns, StringExecFns};

use crate::dict::Dict;

verus! {

/// The decimal digit `d`.
pub open spec fn digit_char(d: int) -> char {
    seq!['0', '1', '2', '3', '4', '5', '6', '7', '8', '9'][d]
}

/// The decimal text of `n`, without sign or leading zeros.
pub open spec fn decimal(n: nat) -> Seq<char>
    decreases n,
{
    if n < 10 {
        seq![digit_char(n as int)]
    } else {
        decimal(n / 10).push(digit_char((n % 10) as int))
    }
}

/// First line of both files: `"<size> <dim>\n"`.
pub open spec fn header(size: nat, dim: nat) -> Seq<char> {
    decimal(size) + seq![' '] + decimal(dim) + seq!['\n']
}

/// The first `k` word lines of the frequency file: `"<word> <count>\n"`.
pub open spec fn freq_lines(ws: Seq<Seq<char>>, counts: Seq<u64>, k: nat) -> Seq<char>
    decreases k,
{
    if k == 0 {
        Seq::empty()
    } else {
        freq_lines(ws, counts, (k - 1) as nat) + ws[k - 1] + seq![' '] + decimal(counts[k - 1] as nat)
            + seq!['\n']
    }
}

/// The first `j` components of a vector line starting at `start`, each
/// followed by a space.
pub open spec fn components(texts: Seq<Seq<char>>, start: int, j: nat) -> Seq<char>
    decreases j,
{
    if j == 0 {
        Seq::empty()
    } else {
        components(texts, start, (j - 1) as nat) + texts[start + j - 1] + seq![' ']
    }
}

/// The first `k` word lines of the vector file:
/// `"<word> <v0> <v1> ... <v(dim-1)> \n"`.
pub open spec fn vector_lines(ws: Seq<Seq<char>>, texts: Seq<Seq<char>>, dim: nat, k: nat) -> Seq<char>
    decreases k,
{
    if k == 0 {
        Seq::empty()
    } else {
        vector_lines(ws, texts, dim, (k - 1) as nat) + ws[k - 1] + seq![' '] + components(
            texts,
            (k - 1) * dim,
            dim,
        ) + seq!['\n']
    }
}

/// Appends the decimal text of `n` to `out`.
pub fn append_decimal(out: &mut String, n: u64)
    ensures
        final(out)@ == old(out)@ + decimal(n as nat),
    decreases n,
{
    if n >= 10 {
        append_decimal(out, n / 10);
    }
    let digits = "0123456789";
    proof {
        reveal_strlit("0123456789");
        assert(digits@ =~= seq!['0', '1', '2', '3', '4', '5', '6', '7', '8', '9']);
    }
    let d = (n % 10) as usize;
    let one = digits.substring_char(d, d + 1);
    proof {
        assert(one@ =~= seq![digit_char(d as int)]);
    }
    out.append(one);
}

/// The decimal text of `n`.
pub fn decimal_string(n: u64) -> (r: String)
    ensures
        r@ == decimal(n as nat),
{
    let mut out = String::new();
    append_decimal(&mut out, n);
    proof {
        assert(out@ =~= decimal(n as nat));
    }
    out
}

/// Appends the header line to `out`.
fn append_header(out: &mut String, size: u64, dim: u64)
    ensures
        final(out)@ == old(out)@ + header(size as nat, dim as nat),
{
    let ghost start = out@;
    append_decimal(out, size);
    out.append(" ");
    append_decimal(out, dim);
    out.append("\n");
    proof {
        reveal_strlit(" ");
        reveal_strlit("\n");
        assert(out@ =~= start + header(size as nat, dim as nat));
    }
}

/// The frequency file: the header, then one `"<word> <count>\n"` line per
/// word, in index order.
pub fn freq_file_text(dict: &Dict, dim: usize) -> (r: String)
    requires
        dict.wf(),
    ensures
        r@ == header(dict.spec_size(), dim as nat) + freq_lines(dict.words(), dict.counts(), dict.spec_size()),
{
    let size = dict.size();
    let mut out = String::new();
    append_header(&mut out, size as u64, dim as u64);
    let ghost head = out@;
    let mut i: usize = 0;
    while i < size
        invariant
            dict.wf(),
            size == dict.spec_size(),
            i <= size,
            head == header(size as nat, dim as nat),
            out@ == head + freq_lines(dict.words(), dict.counts(), i as nat),
        decreases size - i,
    {
        let ghost before = out@;
        let word = dict.get_word(i);
        out.append(word.as_str());
        out.append(" ");
        append_decimal(&mut out, dict.get_count(i));
        out.append("\n");
        proof {
            reveal_strlit(" ");
            reveal_strlit("\n");
            assert(out@ =~= head + freq_lines(dict.words(), dict.counts(), (i + 1) as nat));
        }
        i = i + 1;
    }
    out
}

/// The vector file: the header, then for each word, in index order, the
/// word, a space, and each of its `dim` component texts followed by a space,
/// then a newline. `texts` holds the component texts row after row.
pub fn vector_file_text(dict: &Dict, dim: usize, texts: &Vec<String>) -> (r: String)
    requires
        dict.wf(),
        texts@.len() == dict.spec_size() * dim,
    ensures
        r@ == header(dict.spec_size(), dim as nat) + vector_lines(
            dict.words(),
            texts@.map_values(|t: String| t@),
            dim as nat,
            dict.spec_size(),
        ),
{
    let ghost tv = texts@.map_values(|t: String| t@);
    let nt = texts.len();
    let size = dict.size();
    let mut out = String::new();
    append_header(&mut out, size as u64, dim as u64);
    let ghost head = out@;
    let mut i: usize = 0;
    while i < size
        invariant
            dict.wf(),
            size == dict.spec_size(),
            texts@.len() == size * dim,
            nt == texts@.len(),
            tv == texts@.map_values(|t: String| t@),
            i <= size,
            head == header(size as nat, dim as nat),
            out@ == head + vector_lines(dict.words(), tv, dim as nat, i as nat),
        decreases size - i,
    {
        let ghost line_start = out@;
        let word = dict.get_word(i);
        out.append(word.as_str());
        out.append(" ");
        proof {
            reveal_strlit(" ");
            assert((i + 1) * dim <= size * dim) by (nonlinear_arith)
                requires
                    i + 1 <= size,
            ;
            assert((i + 1) * dim == i * dim + dim) by (nonlinear_arith);
        }
        let start = i * dim;
        let ghost after_word = out@;
        let mut j: usize = 0;
        while j < dim
            invariant
                texts@.len() == size * dim,
                nt == texts@.len(),
                tv == texts@.map_values(|t: String| t@),
                start == i * dim,
                start + dim <= texts@.len(),
                j <= dim,
                out@ == after_word + components(tv, start as int, j as nat),
            decreases dim - j,
        {
            out.append(texts[start + j].as_str());
            out.append(" ");
            proof {
                reveal_strlit(" ");
                assert(out@ =~= after_word + components(tv, start as int, (j + 1) as nat));
            }
            j = j + 1;
        }
        out.append("\n");
        proof {
            reveal_strlit("\n");
            assert(out@ =~= head + vector_lines(dict.words(), tv, dim as nat, (i + 1) as nat));
        }
        i = i + 1;
    }
    out
}

} // verus!
