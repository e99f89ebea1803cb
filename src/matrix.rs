use vstd::prelude::*;

use crate::error::W2vError;

verus! {

/// A dense row-major matrix of single-precision values, each held as its
/// IEEE-754 bit pattern. Row `i` occupies positions `[i * dim, (i + 1) * dim)`.
pub struct Matrix {
    mat: Vec<u32>,
    rows: usize,
    dim: usize,
}

/// `i * dim + dim <= rows * dim` whenever `i < rows`.
proof fn lemma_row_end(i: nat, rows: nat, dim: nat)
    requires
        i < rows,
    ensures
        i * dim + dim <= rows * dim,
{
    assert(i * dim + dim == (i + 1) * dim) by (nonlinear_arith);
    assert((i + 1) * dim <= rows * dim) by (nonlinear_arith)
        requires
            i + 1 <= rows,
    ;
}

impl Matrix {
    /// All values, row after row.
    pub closed spec fn values(&self) -> Seq<u32> {
        self.mat@
    }

    pub closed spec fn spec_rows(&self) -> nat {
        self.rows as nat
    }

    pub closed spec fn spec_dim(&self) -> nat {
        self.dim as nat
    }

    /// The store holds exactly `rows * dim` values.
    pub open spec fn wf(&self) -> bool {
        self.values().len() == self.spec_rows() * self.spec_dim()
    }

    /// Row `i` of the matrix.
    pub open spec fn row(&self, i: int) -> Seq<u32> {
        self.values().subrange(i * self.spec_dim(), i * self.spec_dim() + self.spec_dim())
    }

    /// A matrix of `rows` rows of `dim` values, taken from `values` in row-major order.
    pub fn new(rows: usize, dim: usize, values: Vec<u32>) -> (r: Matrix)
        requires
            values@.len() == rows * dim,
        ensures
            r.wf(),
            r.spec_rows() == rows,
            r.spec_dim() == dim,
            r.values() == values@,
    {
        Matrix { mat: values, rows, dim }
    }

    /// Number of rows.
    pub fn rows(&self) -> (r: usize)
        ensures
            r == self.spec_rows(),
    {
        self.rows
    }

    /// Number of values in each row.
    pub fn dim(&self) -> (r: usize)
        ensures
            r == self.spec_dim(),
    {
        self.dim
    }

    /// A copy of row `index`; `IndexOutOfRange` when `index >= rows`.
    pub fn get_row(&self, index: usize) -> (r: Result<Vec<u32>, W2vError>)
        requires
            self.wf(),
        ensures
            r is Err <==> index >= self.spec_rows(),
            r matches Err(e) ==> e == W2vError::IndexOutOfRange,
            r matches Ok(v) ==> v@ == self.row(index as int),
    {
        if index >= self.rows {
            return Err(W2vError::IndexOutOfRange);
        }
        let n = self.mat.len();
        proof {
            lemma_row_end(index as nat, self.rows as nat, self.dim as nat);
            assert(index * self.dim + self.dim <= n);
        }
        let start = index * self.dim;
        let mut out: Vec<u32> = Vec::new();
        let mut j: usize = 0;
        while j < self.dim
            invariant
                self.wf(),
                index < self.rows,
                start == index * self.dim,
                start + self.dim <= self.mat@.len(),
                start + self.dim <= n,
                j <= self.dim,
                out@ == self.mat@.subrange(start as int, start + j),
            decreases self.dim - j,
        {
            out.push(self.mat[start + j]);
            j = j + 1;
            proof {
                assert(out@ =~= self.mat@.subrange(start as int, start + j));
            }
        }
        Ok(out)
    }

    /// Replaces row `index` with `row`, leaving every other value as it was;
    /// `IndexOutOfRange` (and no change) when `index >= rows`.
    pub fn set_row(&mut self, index: usize, row: &Vec<u32>) -> (r: Result<(), W2vError>)
        requires
            old(self).wf(),
            row@.len() == old(self).spec_dim(),
        ensures
            final(self).wf(),
            final(self).spec_rows() == old(self).spec_rows(),
            final(self).spec_dim() == old(self).spec_dim(),
            r is Err <==> index >= old(self).spec_rows(),
            r matches Err(e) ==> e == W2vError::IndexOutOfRange && *final(self) == *old(self),
            r is Ok ==> final(self).values() == old(self).values().update_subrange_with(
                index * old(self).spec_dim(),
                row@,
            ),
    {
        if index >= self.rows {
            return Err(W2vError::IndexOutOfRange);
        }
        let n = self.mat.len();
        proof {
            lemma_row_end(index as nat, self.rows as nat, self.dim as nat);
            assert(index * self.dim + self.dim <= n);
        }
        let start = index * self.dim;
        let ghost before = self.mat@;
        let mut j: usize = 0;
        while j < self.dim
            invariant
                self.rows == old(self).rows,
                self.dim == old(self).dim,
                before == old(self).mat@,
                row@.len() == self.dim,
                start == index * self.dim,
                start + self.dim <= before.len(),
                start + self.dim <= n,
                j <= self.dim,
                self.mat@.len() == before.len(),
                forall|k: int| 0 <= k < before.len() ==> self.mat@[k] == (
                    if start <= k < start + j { row@[k - start] } else { before[k] }),
            decreases self.dim - j,
        {
            self.mat.set(start + j, row[j]);
            j = j + 1;
        }
        proof {
            assert(self.mat@ =~= before.update_subrange_with(start as int, row@));
        }
        Ok(())
    }
}

/// Every row that `get_row` serves holds exactly `dim` values.
pub proof fn lemma_row_shape(m: &Matrix, i: int)
    requires
        m.wf(),
        0 <= i < m.spec_rows(),
    ensures
        m.row(i).len() == m.spec_dim(),
{
    lemma_row_end(i as nat, m.spec_rows(), m.spec_dim());
}

} // verus!
