//! The constraint matrix, kept in a `nalgebra::DMatrix`.
//!
//! `nalgebra` stores and reshapes the matrix; the functions at the top of this
//! file state, without proof, what each of its operations does to the entries.

use vstd::prelude::*;
use nalgebra::DMatrix;
use crate::ratio_ext::{ext_div, ext_mul, ext_sub, ExtRat, RatioExt};

verus! {

/// A matrix of extended rationals with any number of rows and columns.
///
/// Its view is the sequence of its rows, each a sequence of values. The
/// matrix inside is `nalgebra`'s and stays hidden from the proofs, which know
/// it only by [`matrix_rows`] and [`matrix_ncols`].
#[verifier::external_body]
#[derive(Debug)]
pub struct RatioMatrix {
    inner: DMatrix<RatioExt>,
}

/// The entries of a matrix, row by row, each by its value.
pub uninterp spec fn matrix_rows(m: RatioMatrix) -> Seq<Seq<ExtRat>>;

/// The number of columns of a matrix, which it has even without any row.
pub uninterp spec fn matrix_ncols(m: RatioMatrix) -> nat;

/// Every row has as many entries as the matrix has columns.
pub open spec fn rectangular(m: RatioMatrix) -> bool {
    forall|i: int| 0 <= i < matrix_rows(m).len() ==> (#[trigger] matrix_rows(m)[i]).len()
        == matrix_ncols(m)
}

/// `DMatrix::from_element`: `nrows` rows of `ncols` entries, each a clone of
/// `value`.
#[verifier::external_body]
fn matrix_from_element(nrows: usize, ncols: usize, value: RatioExt) -> (m: RatioMatrix)
    requires
        nrows * ncols <= usize::MAX,
    ensures
        matrix_rows(m) == Seq::new(nrows as nat, |i: int| Seq::new(ncols as nat, |j: int| value@)),
        matrix_ncols(m) == ncols,
{
    RatioMatrix { inner: DMatrix::from_element(nrows, ncols, value) }
}

/// `Matrix::nrows`: the number of rows.
#[verifier::external_body]
fn matrix_nrows(m: &RatioMatrix) -> (n: usize)
    ensures
        n == matrix_rows(*m).len(),
{
    m.inner.nrows()
}

/// `Matrix::ncols`: the number of columns.
#[verifier::external_body]
fn matrix_ncols_of(m: &RatioMatrix) -> (n: usize)
    ensures
        n == matrix_ncols(*m),
{
    m.inner.ncols()
}

/// Indexing by `(row, column)`, which panics outside the matrix: the entry
/// there.
#[verifier::external_body]
fn matrix_get(m: &RatioMatrix, i: usize, j: usize) -> (x: &RatioExt)
    requires
        i < matrix_rows(*m).len(),
        j < matrix_ncols(*m),
    ensures
        x@ == matrix_rows(*m)[i as int][j as int],
{
    &m.inner[(i, j)]
}

/// Assignment through an index `(row, column)`, which panics outside the
/// matrix: that entry becomes `value`, the others stay.
#[verifier::external_body]
fn matrix_set(m: &mut RatioMatrix, i: usize, j: usize, value: RatioExt)
    requires
        i < matrix_rows(*old(m)).len(),
        j < matrix_ncols(*old(m)),
    ensures
        matrix_rows(*final(m)) == matrix_rows(*old(m)).update(
            i as int,
            matrix_rows(*old(m))[i as int].update(j as int, value@),
        ),
        matrix_ncols(*final(m)) == matrix_ncols(*old(m)),
{
    m.inner[(i, j)] = value;
}

/// `Matrix::insert_column`, which panics for a place behind the last column
/// plus one: every row gets a clone of `value` at place `j`.
#[verifier::external_body]
fn matrix_insert_column(m: RatioMatrix, j: usize, value: RatioExt) -> (r: RatioMatrix)
    requires
        j <= matrix_ncols(m),
        matrix_rows(m).len() * (matrix_ncols(m) + 1) <= usize::MAX,
    ensures
        matrix_rows(r) == Seq::new(
            matrix_rows(m).len(),
            |i: int| matrix_rows(m)[i].insert(j as int, value@),
        ),
        matrix_ncols(r) == matrix_ncols(m) + 1,
{
    RatioMatrix { inner: m.inner.insert_column(j, value) }
}

/// `Matrix::insert_row`, which panics for a place behind the last row plus
/// one: a row of clones of `value` comes in at place `i`.
#[verifier::external_body]
fn matrix_insert_row(m: RatioMatrix, i: usize, value: RatioExt) -> (r: RatioMatrix)
    requires
        i <= matrix_rows(m).len(),
        (matrix_rows(m).len() + 1) * matrix_ncols(m) <= usize::MAX,
    ensures
        matrix_rows(r) == matrix_rows(m).insert(
            i as int,
            Seq::new(matrix_ncols(m), |j: int| value@),
        ),
        matrix_ncols(r) == matrix_ncols(m),
{
    RatioMatrix { inner: m.inner.insert_row(i, value) }
}

/// `Clone::clone` of `DMatrix`: the same shape, each entry cloned.
#[verifier::external_body]
fn matrix_clone(m: &RatioMatrix) -> (r: RatioMatrix)
    ensures
        matrix_rows(r) == matrix_rows(*m),
        matrix_ncols(r) == matrix_ncols(*m),
{
    RatioMatrix { inner: m.inner.clone() }
}

impl View for RatioMatrix {
    type V = Seq<Seq<ExtRat>>;

    open spec fn view(&self) -> Seq<Seq<ExtRat>> {
        matrix_rows(*self)
    }
}

impl RatioMatrix {
    /// The number of columns.
    pub open spec fn spec_ncols(&self) -> nat {
        matrix_ncols(*self)
    }

    /// Every row has [`Self::spec_ncols`] entries.
    pub open spec fn wf(&self) -> bool {
        rectangular(*self)
    }

    /// The entry in row `i` and column `j`.
    pub open spec fn at(&self, i: int, j: int) -> ExtRat {
        self@[i][j]
    }

    /// A matrix of `nrows` rows and `ncols` columns with `value` everywhere.
    pub fn filled(nrows: usize, ncols: usize, value: RatioExt) -> (m: RatioMatrix)
        requires
            nrows * ncols <= usize::MAX,
        ensures
            m.wf(),
            m@.len() == nrows,
            m.spec_ncols() == ncols,
            forall|i: int, j: int| 0 <= i < nrows && 0 <= j < ncols ==> m.at(i, j) == value@,
    {
        matrix_from_element(nrows, ncols, value)
    }

    /// The number of rows.
    pub fn nrows(&self) -> (n: usize)
        ensures
            n == self@.len(),
    {
        matrix_nrows(self)
    }

    /// The number of columns.
    pub fn ncols(&self) -> (n: usize)
        ensures
            n == self.spec_ncols(),
    {
        matrix_ncols_of(self)
    }

    /// The entry in row `i` and column `j`.
    pub fn get(&self, i: usize, j: usize) -> (x: &RatioExt)
        requires
            i < self@.len(),
            j < self.spec_ncols(),
        ensures
            x@ == self.at(i as int, j as int),
    {
        matrix_get(self, i, j)
    }

    /// A copy of the entry in row `i` and column `j`, where there is one.
    pub fn entry(&self, i: usize, j: usize) -> (x: Option<RatioExt>)
        ensures
            match x {
                Some(v) => i < self@.len() && j < self.spec_ncols() && v@ == self.at(
                    i as int,
                    j as int,
                ),
                None => i >= self@.len() || j >= self.spec_ncols(),
            },
    {
        if i < self.nrows() && j < self.ncols() {
            Some(self.get(i, j).clone())
        } else {
            None
        }
    }

    /// Puts `value` in row `i` and column `j`.
    pub fn set(&mut self, i: usize, j: usize, value: RatioExt)
        requires
            old(self).wf(),
            i < old(self)@.len(),
            j < old(self).spec_ncols(),
        ensures
            final(self).wf(),
            final(self)@ == old(self)@.update(i as int, old(self)@[i as int].update(j as int, value@)),
            final(self).spec_ncols() == old(self).spec_ncols(),
    {
        matrix_set(self, i, j, value);
    }

    /// Divides every entry of row `row` by `by`.
    pub fn divide_row(&mut self, row: usize, by: &RatioExt)
        requires
            old(self).wf(),
            row < old(self)@.len(),
        ensures
            final(self).wf(),
            final(self).spec_ncols() == old(self).spec_ncols(),
            final(self)@ == old(self)@.update(
                row as int,
                Seq::new(old(self)@[row as int].len(), |j: int| ext_div(old(self)@[row as int][j], by@)),
            ),
    {
        let n = self.ncols();
        let ghost start = self@;
        let mut j: usize = 0;
        while j < n
            invariant
                j <= n,
                n == self.spec_ncols(),
                self.wf(),
                row < self@.len(),
                self@.len() == start.len(),
                start[row as int].len() == n,
                forall|r: int| 0 <= r < start.len() && r != row ==> #[trigger] self@[r] == start[r],
                forall|k: int| 0 <= k < j ==> #[trigger] self@[row as int][k] == ext_div(start[row as int][k], by@),
                forall|k: int| j <= k < n ==> #[trigger] self@[row as int][k] == start[row as int][k],
            decreases n - j,
        {
            let value = self.get(row, j).div(by);
            self.set(row, j, value);
            j += 1;
        }
        assert(self@[row as int] =~= Seq::new(
            start[row as int].len(),
            |j: int| ext_div(start[row as int][j], by@),
        ));
        assert(self@ =~= start.update(
            row as int,
            Seq::new(start[row as int].len(), |j: int| ext_div(start[row as int][j], by@)),
        ));
    }

    /// Takes from every entry of row `i` the entry of row `row` in the same
    /// column times `multiplier`.
    pub fn subtract_scaled_row(&mut self, i: usize, row: usize, multiplier: &RatioExt)
        requires
            old(self).wf(),
            row < old(self)@.len(),
            i < old(self)@.len(),
            i != row,
        ensures
            final(self).wf(),
            final(self).spec_ncols() == old(self).spec_ncols(),
            final(self)@ == old(self)@.update(
                i as int,
                Seq::new(
                    old(self)@[i as int].len(),
                    |j: int|
                        ext_sub(
                            old(self)@[i as int][j],
                            ext_mul(old(self)@[row as int][j], multiplier@),
                        ),
                ),
            ),
    {
        let n = self.ncols();
        let ghost start = self@;
        let mut j: usize = 0;
        while j < n
            invariant
                j <= n,
                n == self.spec_ncols(),
                self.wf(),
                row < self@.len(),
                i < self@.len(),
                i != row,
                self@.len() == start.len(),
                start[i as int].len() == n,
                start[row as int].len() == n,
                forall|r: int| 0 <= r < start.len() && r != i ==> #[trigger] self@[r] == start[r],
                forall|k: int|
                    0 <= k < j ==> #[trigger] self@[i as int][k] == ext_sub(
                        start[i as int][k],
                        ext_mul(start[row as int][k], multiplier@),
                    ),
                forall|k: int| j <= k < n ==> #[trigger] self@[i as int][k] == start[i as int][k],
            decreases n - j,
        {
            let value = self.get(i, j).sub(&self.get(row, j).mul(multiplier));
            self.set(i, j, value);
            j += 1;
        }
        assert(self@[i as int] =~= Seq::new(
            start[i as int].len(),
            |j: int| ext_sub(start[i as int][j], ext_mul(start[row as int][j], multiplier@)),
        ));
        assert(self@ =~= start.update(
            i as int,
            Seq::new(
                start[i as int].len(),
                |j: int| ext_sub(start[i as int][j], ext_mul(start[row as int][j], multiplier@)),
            ),
        ));
    }

    /// The matrix with a column of `value` put in at place `j`.
    pub fn insert_column(self, j: usize, value: RatioExt) -> (r: RatioMatrix)
        requires
            self.wf(),
            j <= self.spec_ncols(),
            self@.len() * (self.spec_ncols() + 1) <= usize::MAX,
        ensures
            r.wf(),
            r@.len() == self@.len(),
            r.spec_ncols() == self.spec_ncols() + 1,
            forall|i: int| 0 <= i < self@.len() ==> #[trigger] r@[i] == self@[i].insert(j as int, value@),
    {
        matrix_insert_column(self, j, value)
    }

    /// The matrix with a row of `value` put in at place `i`.
    pub fn insert_row(self, i: usize, value: RatioExt) -> (r: RatioMatrix)
        requires
            self.wf(),
            i <= self@.len(),
            (self@.len() + 1) * self.spec_ncols() <= usize::MAX,
        ensures
            r.wf(),
            r@ == self@.insert(i as int, Seq::new(self.spec_ncols(), |j: int| value@)),
            r.spec_ncols() == self.spec_ncols(),
    {
        matrix_insert_row(self, i, value)
    }
}

impl Clone for RatioMatrix {
    fn clone(&self) -> (r: Self)
        ensures
            r@ == self@,
            r.spec_ncols() == self.spec_ncols(),
            self.wf() ==> r.wf(),
    {
        matrix_clone(self)
    }
}

} // verus!
