//! The dense matrix engine.
//!
//! A matrix is a [`DataSet`] under another name. Every operation checks its
//! shapes by contract and says, cell by cell, which scalar operation produced
//! the cell from which operands.

use crate::dataset::{DataSet, Grid};
use crate::scalar::{is_product, is_same, is_sum, is_zero, Scalar};
use vstd::prelude::*;

verus! {

pub type Matrix<T> = DataSet<T>;

impl<T> Grid<T> {
    /// Rows and columns exchanged: cell `(j, i)` holds what cell `(i, j)` held.
    pub open spec fn transposed(self) -> Grid<T> {
        Grid {
            rows: self.cols,
            cols: self.rows,
            cells: Seq::new(self.cols, |j: int| Seq::new(self.rows, |i: int| self.cells[i][j])),
        }
    }

    /// Column `j`, read from the top.
    pub open spec fn column(self, j: int) -> Seq<T> {
        Seq::new(self.rows, |k: int| self.cells[k][j])
    }

    /// The same table but for cell `(i, j)`, which holds `val`.
    pub open spec fn with_cell(self, i: int, j: int, val: T) -> Grid<T> {
        Grid {
            rows: self.rows,
            cols: self.cols,
            cells: self.cells.update(i, self.cells[i].update(j, val)),
        }
    }
}

/// Transposing twice gives the table back, shape and cells.
pub proof fn lemma_transpose_involution<T>(g: Grid<T>)
    requires
        g.wf(),
    ensures
        g.transposed().wf(),
        g.transposed().transposed() == g,
{
    let back = g.transposed().transposed();
    assert(back.cells.len() == g.cells.len());
    assert forall|i: int| 0 <= i < g.rows implies #[trigger] back.cells[i] == g.cells[i] by {
        assert(back.cells[i] =~= g.cells[i]);
    }
    assert(back.cells =~= g.cells);
}

/// Every cell is a zero.
pub open spec fn all_zero<T: Scalar>(g: Grid<T>) -> bool {
    forall|i: int, j: int| 0 <= i < g.rows && 0 <= j < g.cols ==> is_zero(#[trigger] g.at(i, j))
}

/// `r` holds, cell by cell, what `f` made of the cell of `a`.
pub open spec fn cells_mapped<T, F: FnOnce(T) -> T>(f: F, a: Grid<T>, r: Grid<T>) -> bool {
    &&& r.wf()
    &&& r.same_shape(a)
    &&& forall|i: int, j: int|
        0 <= i < a.rows && 0 <= j < a.cols ==> call_ensures(f, (a.at(i, j),), #[trigger] r.at(i, j))
}

/// `r` is the cell-by-cell sum of `a` and `b`.
pub open spec fn cells_sum<T: Scalar>(a: Grid<T>, b: Grid<T>, r: Grid<T>) -> bool {
    &&& r.wf()
    &&& a.same_shape(b)
    &&& r.same_shape(a)
    &&& forall|i: int, j: int|
        0 <= i < a.rows && 0 <= j < a.cols ==> is_sum(a.at(i, j), b.at(i, j), #[trigger] r.at(i, j))
}

/// `r` is the cell-by-cell product of `a` and `b`.
pub open spec fn cells_product<T: Scalar>(a: Grid<T>, b: Grid<T>, r: Grid<T>) -> bool {
    &&& r.wf()
    &&& a.same_shape(b)
    &&& r.same_shape(a)
    &&& forall|i: int, j: int|
        0 <= i < a.rows && 0 <= j < a.cols ==> is_product(
            a.at(i, j),
            b.at(i, j),
            #[trigger] r.at(i, j),
        )
}

/// `r` is `a` with every cell multiplied by `k`.
pub open spec fn cells_scaled<T: Scalar>(a: Grid<T>, k: T, r: Grid<T>) -> bool {
    &&& r.wf()
    &&& r.same_shape(a)
    &&& forall|i: int, j: int|
        0 <= i < a.rows && 0 <= j < a.cols ==> is_product(a.at(i, j), k, #[trigger] r.at(i, j))
}

/// `r` is `a` with the single row `bias` added to each of its rows.
pub open spec fn rows_offset<T: Scalar>(a: Grid<T>, bias: Grid<T>, r: Grid<T>) -> bool {
    &&& r.wf()
    &&& r.same_shape(a)
    &&& bias.rows == 1
    &&& bias.cols == a.cols
    &&& forall|i: int, j: int|
        0 <= i < a.rows && 0 <= j < a.cols ==> is_sum(
            a.at(i, j),
            bias.at(0, j),
            #[trigger] r.at(i, j),
        )
}

/// `term` is the product of `a` and `b`, and `r` is `before` with `term` added.
pub open spec fn is_accumulated<T: Scalar>(before: T, a: T, b: T, term: T, r: T) -> bool {
    is_product(a, b, term) && is_sum(before, term, r)
}

/// `r` is what adding up the first `n` products `u[k] * v[k]` gives, when the
/// sum starts from a zero and takes the products in the order of `k`.
pub open spec fn dot_upto<T: Scalar>(u: Seq<T>, v: Seq<T>, n: nat, r: T) -> bool
    decreases n,
{
    if n == 0 {
        is_zero(r)
    } else {
        exists|before: T, term: T|
            {
                &&& #[trigger] is_accumulated(before, u[n - 1], v[n - 1], term, r)
                &&& dot_upto(u, v, (n - 1) as nat, before)
            }
    }
}

/// `r` is the matrix product of `a` and `b`: cell `(i, j)` is row `i` of `a`
/// times column `j` of `b`, added up from the left.
pub open spec fn matrix_product<T: Scalar>(a: Grid<T>, b: Grid<T>, r: Grid<T>) -> bool {
    &&& r.wf()
    &&& a.cols == b.rows
    &&& r.rows == a.rows
    &&& r.cols == b.cols
    &&& forall|i: int, j: int|
        0 <= i < r.rows && 0 <= j < r.cols ==> dot_upto(
            a.cells[i],
            b.column(j),
            a.cols,
            #[trigger] r.at(i, j),
        )
}

/// Adding does not depend on the order of the operands: whatever `a + b` can
/// give, `b + a` can give too.
pub open spec fn sum_commutes<T: Scalar>() -> bool {
    forall|a: T, b: T, r: T| #[trigger] is_sum(a, b, r) ==> is_sum(b, a, r)
}

/// Multiplying does not depend on the order of the operands.
pub open spec fn product_commutes<T: Scalar>() -> bool {
    forall|a: T, b: T, r: T| #[trigger] is_product(a, b, r) ==> is_product(b, a, r)
}

/// Matrix addition is commutative wherever the addition of cells is: a
/// matrix that is a sum of `a` and `b` is a sum of `b` and `a`.
pub proof fn lemma_add_commutes<T: Scalar>(a: Grid<T>, b: Grid<T>, r: Grid<T>)
    requires
        sum_commutes::<T>(),
        cells_sum(a, b, r),
    ensures
        cells_sum(b, a, r),
{
    assert forall|i: int, j: int| 0 <= i < b.rows && 0 <= j < b.cols implies is_sum(
        b.at(i, j),
        a.at(i, j),
        #[trigger] r.at(i, j),
    ) by {
        assert(is_sum(a.at(i, j), b.at(i, j), r.at(i, j)));
    }
}

/// The cell-by-cell product is commutative wherever the product of cells is.
pub proof fn lemma_hadamard_commutes<T: Scalar>(a: Grid<T>, b: Grid<T>, r: Grid<T>)
    requires
        product_commutes::<T>(),
        cells_product(a, b, r),
    ensures
        cells_product(b, a, r),
{
    assert forall|i: int, j: int| 0 <= i < b.rows && 0 <= j < b.cols implies is_product(
        b.at(i, j),
        a.at(i, j),
        #[trigger] r.at(i, j),
    ) by {
        assert(is_product(a.at(i, j), b.at(i, j), r.at(i, j)));
    }
}

/// Two numbers have one sum only.
pub open spec fn sum_is_single<T: Scalar>() -> bool {
    forall|a: T, b: T, r: T, s: T| #[trigger] is_sum(a, b, r) && #[trigger] is_sum(a, b, s) ==> r == s
}

/// Two numbers have one product only.
pub open spec fn product_is_single<T: Scalar>() -> bool {
    forall|a: T, b: T, r: T, s: T|
        #[trigger] is_product(a, b, r) && #[trigger] is_product(a, b, s) ==> r == s
}

/// Where the addition of cells is commutative and has one result only,
/// `a + b` and `b + a` are the same matrix.
pub proof fn lemma_add_order<T: Scalar>(a: Grid<T>, b: Grid<T>, ab: Grid<T>, ba: Grid<T>)
    requires
        sum_commutes::<T>(),
        sum_is_single::<T>(),
        cells_sum(a, b, ab),
        cells_sum(b, a, ba),
    ensures
        ab == ba,
{
    assert forall|i: int| 0 <= i < ab.rows implies #[trigger] ab.cells[i] == ba.cells[i] by {
        assert forall|j: int| 0 <= j < ab.cols implies ab.cells[i][j] == ba.cells[i][j] by {
            assert(is_sum(a.at(i, j), b.at(i, j), ab.at(i, j)));
            assert(is_sum(b.at(i, j), a.at(i, j), ba.at(i, j)));
            assert(is_sum(a.at(i, j), b.at(i, j), ba.at(i, j)));
        }
        assert(ab.cells[i] =~= ba.cells[i]);
    }
    assert(ab.cells =~= ba.cells);
}

/// Where the product of cells is commutative and has one result only, the
/// cell-by-cell products of `a` with `b` and of `b` with `a` are the same
/// matrix.
pub proof fn lemma_hadamard_order<T: Scalar>(a: Grid<T>, b: Grid<T>, ab: Grid<T>, ba: Grid<T>)
    requires
        product_commutes::<T>(),
        product_is_single::<T>(),
        cells_product(a, b, ab),
        cells_product(b, a, ba),
    ensures
        ab == ba,
{
    assert forall|i: int| 0 <= i < ab.rows implies #[trigger] ab.cells[i] == ba.cells[i] by {
        assert forall|j: int| 0 <= j < ab.cols implies ab.cells[i][j] == ba.cells[i][j] by {
            assert(is_product(a.at(i, j), b.at(i, j), ab.at(i, j)));
            assert(is_product(b.at(i, j), a.at(i, j), ba.at(i, j)));
            assert(is_product(a.at(i, j), b.at(i, j), ba.at(i, j)));
        }
        assert(ab.cells[i] =~= ba.cells[i]);
    }
    assert(ab.cells =~= ba.cells);
}

impl<T: Scalar> DataSet<T> {
    /// The matrix with the given shape and cells.
    pub fn create_matrix(rows: usize, cols: usize, data: Vec<Vec<T>>) -> (r: Matrix<T>)
        requires
            rows > 0 && cols > 0,
            data@.len() == rows,
            forall|i: int| 0 <= i < rows ==> (#[trigger] data@[i])@.len() == cols,
        ensures
            r.rows == rows,
            r.cols == cols,
            r.data == data,
            r.wf(),
    {
        DataSet { rows, cols, data }
    }

    /// A matrix of the given shape with `fill` in every cell.
    pub(crate) fn filled(rows: usize, cols: usize, fill: T) -> (r: Matrix<T>)
        ensures
            r.rows == rows,
            r.cols == cols,
            r.wf(),
            forall|i: int, j: int| 0 <= i < rows && 0 <= j < cols ==> #[trigger] r@.at(i, j) == fill,
    {
        let mut data: Vec<Vec<T>> = Vec::new();
        let mut i: usize = 0;
        while i < rows
            invariant
                i <= rows,
                data@.len() == i,
                forall|k: int| 0 <= k < i ==> (#[trigger] data@[k])@.len() == cols,
                forall|k: int, j: int| 0 <= k < i && 0 <= j < cols ==> #[trigger] data@[k]@[j] == fill,
            decreases rows - i,
        {
            let mut row: Vec<T> = Vec::new();
            let mut j: usize = 0;
            while j < cols
                invariant
                    j <= cols,
                    row@.len() == j,
                    forall|k: int| 0 <= k < j ==> #[trigger] row@[k] == fill,
                decreases cols - j,
            {
                row.push(fill);
                j = j + 1;
            }
            data.push(row);
            i = i + 1;
        }
        DataSet { rows, cols, data }
    }

    /// The matrix of the given shape with a zero in every cell.
    pub fn create_zero_matrix(rows: usize, cols: usize) -> (r: Matrix<T>)
        requires
            rows > 0 && cols > 0,
        ensures
            r.rows == rows,
            r.cols == cols,
            r.wf(),
            all_zero(r@),
    {
        let r = Self::filled(rows, cols, T::zero());
        assert forall|i: int, j: int| 0 <= i < r@.rows && 0 <= j < r@.cols implies is_zero(
            #[trigger] r@.at(i, j),
        ) by {}
        r
    }

    /// The cell in row `row`, column `col`.
    pub fn get(&self, row: usize, col: usize) -> (val: T)
        requires
            self.wf(),
            row < self.rows,
            col < self.cols,
        ensures
            val == self@.at(row as int, col as int),
    {
        self.data[row][col]
    }

    /// Puts `val` in row `row`, column `col`; no other cell changes.
    pub fn set(&mut self, row: usize, col: usize, val: T)
        requires
            old(self).wf(),
            row < old(self).rows,
            col < old(self).cols,
        ensures
            final(self).wf(),
            final(self)@ == old(self)@.with_cell(row as int, col as int, val),
            final(self)@.at(row as int, col as int) == val,
            forall|i: int, j: int|
                0 <= i < old(self).rows && 0 <= j < old(self).cols && !(i == row && j == col)
                    ==> #[trigger] final(self)@.at(i, j) == old(self)@.at(i, j),
    {
        self.data[row][col] = val;
        assert(self@.cells =~= old(self)@.with_cell(row as int, col as int, val).cells);
    }

    /// Replaces every cell by what `f` makes of its position and its value.
    pub(crate) fn update_cells<F: Fn(usize, usize, T) -> T>(&mut self, f: F)
        requires
            old(self).wf(),
            forall|i: usize, j: usize, x: T|
                i < old(self).rows && j < old(self).cols ==> call_requires(f, (i, j, x)),
        ensures
            final(self).wf(),
            final(self)@.same_shape(old(self)@),
            forall|i: int, j: int|
                0 <= i < old(self).rows && 0 <= j < old(self).cols ==> call_ensures(
                    f,
                    (i as usize, j as usize, old(self)@.at(i, j)),
                    #[trigger] final(self)@.at(i, j),
                ),
    {
        let rows = self.rows;
        let cols = self.cols;
        let mut i: usize = 0;
        while i < rows
            invariant
                self.wf(),
                self.rows == rows && self.cols == cols,
                rows == old(self).rows && cols == old(self).cols,
                i <= rows,
                forall|r: usize, c: usize, x: T| r < rows && c < cols ==> call_requires(f, (r, c, x)),
                forall|r: int, c: int|
                    0 <= r < i && 0 <= c < cols ==> call_ensures(
                        f,
                        (r as usize, c as usize, old(self)@.at(r, c)),
                        #[trigger] self@.at(r, c),
                    ),
                forall|r: int, c: int|
                    i <= r < rows && 0 <= c < cols ==> #[trigger] self@.at(r, c) == old(self)@.at(
                        r,
                        c,
                    ),
            decreases rows - i,
        {
            let mut j: usize = 0;
            while j < cols
                invariant
                    self.wf(),
                    self.rows == rows && self.cols == cols,
                    rows == old(self).rows && cols == old(self).cols,
                    i < rows,
                    j <= cols,
                    forall|r: usize, c: usize, x: T|
                        r < rows && c < cols ==> call_requires(f, (r, c, x)),
                    forall|r: int, c: int|
                        0 <= r < rows && 0 <= c < cols && (r < i || (r == i && c < j))
                            ==> call_ensures(
                            f,
                            (r as usize, c as usize, old(self)@.at(r, c)),
                            #[trigger] self@.at(r, c),
                        ),
                    forall|r: int, c: int|
                        0 <= r < rows && 0 <= c < cols && !(r < i || (r == i && c < j))
                            ==> #[trigger] self@.at(r, c) == old(self)@.at(r, c),
                decreases cols - j,
            {
                assert(self@.at(i as int, j as int) == old(self)@.at(i as int, j as int));
                let val = f(i, j, self.get(i, j));
                self.set(i, j, val);
                j = j + 1;
            }
            i = i + 1;
        }
    }

    /// Puts a zero in every cell.
    pub fn to_zero(&mut self)
        requires
            old(self).wf(),
        ensures
            final(self).wf(),
            final(self)@.same_shape(old(self)@),
            all_zero(final(self)@),
    {
        let zero = T::zero();
        let fill = |i: usize, j: usize, x: T| -> (v: T)
            ensures
                v == zero,
            {
                let v = zero;
                v
            };
        self.update_cells(fill);
    }

    /// Overwrites `to` with the cells of this matrix.
    pub fn copy_into(&self, to: &mut Matrix<T>)
        requires
            self.wf(),
            old(to).wf(),
            self.rows == old(to).rows && self.cols == old(to).cols,
        ensures
            final(to).wf(),
            final(to)@ == self@,
    {
        let fetch = |i: usize, j: usize, x: T| -> (v: T)
            requires
                i < self.rows && j < self.cols,
            ensures
                v == self@.at(i as int, j as int),
            {
                let v = self.data[i][j];
                v
            };
        to.update_cells(fetch);
        assert forall|i: int| 0 <= i < self.rows implies #[trigger] to@.cells[i] == self@.cells[i] by {
            assert forall|j: int| 0 <= j < self.cols implies to@.cells[i][j] == self@.cells[i][j] by {
                assert(to@.at(i, j) == self@.at(i, j));
            }
            assert(to@.cells[i] =~= self@.cells[i]);
        }
        assert(to@.cells =~= self@.cells);
    }

    /// Replaces every cell by what `func` makes of it.
    pub fn transform<F: Fn(T) -> T>(&mut self, func: F)
        requires
            old(self).wf(),
            forall|x: T| call_requires(func, (x,)),
        ensures
            final(self).wf(),
            cells_mapped(func, old(self)@, final(self)@),
    {
        let func = &func;
        let apply = |i: usize, j: usize, x: T| -> (v: T)
            ensures
                call_ensures(*func, (x,), v),
            {
                let v = func(x);
                v
            };
        self.update_cells(apply);
    }

    /// A new matrix with the same shape and cells.
    pub fn copy(&self) -> (r: Matrix<T>)
        requires
            self.wf(),
        ensures
            r.wf(),
            r@ == self@,
    {
        let mut r = Self::filled(self.rows, self.cols, T::zero());
        self.copy_into(&mut r);
        r
    }

    /// Overwrites `into` with the transpose of this matrix.
    pub fn transpose_into(&self, into: &mut Matrix<T>)
        requires
            self.wf(),
            old(into).wf(),
            self.rows == old(into).cols && self.cols == old(into).rows,
        ensures
            final(into).wf(),
            final(into)@ == self@.transposed(),
    {
        let fetch = |i: usize, j: usize, x: T| -> (v: T)
            requires
                i < self.cols && j < self.rows,
            ensures
                v == self@.at(j as int, i as int),
            {
                let v = self.data[j][i];
                v
            };
        into.update_cells(fetch);
        let ghost want = self@.transposed();
        assert forall|i: int| 0 <= i < self.cols implies #[trigger] into@.cells[i] == want.cells[i] by {
            assert forall|j: int| 0 <= j < self.rows implies into@.cells[i][j] == want.cells[i][j] by {
                assert(into@.at(i, j) == self@.at(j, i));
            }
            assert(into@.cells[i] =~= want.cells[i]);
        }
        assert(into@.cells =~= want.cells);
    }

    /// A new matrix that is the transpose of this one.
    pub fn transpose(&self) -> (r: Matrix<T>)
        requires
            self.wf(),
        ensures
            r.wf(),
            r@ == self@.transposed(),
    {
        let mut r = Self::filled(self.cols, self.rows, T::zero());
        self.transpose_into(&mut r);
        r
    }

    /// Adds this matrix to `to`, cell by cell, in place.
    pub fn add_to(&self, to: &mut Matrix<T>)
        requires
            self.wf(),
            old(to).wf(),
            self.rows == old(to).rows && self.cols == old(to).cols,
        ensures
            final(to).wf(),
            cells_sum(self@, old(to)@, final(to)@),
    {
        let sum = |i: usize, j: usize, x: T| -> (v: T)
            requires
                i < self.rows && j < self.cols,
            ensures
                is_sum(self@.at(i as int, j as int), x, v),
            {
                let v = self.data[i][j].plus(x);
                v
            };
        to.update_cells(sum);
    }

    /// The cell-by-cell sum of this matrix and `other`.
    pub fn add(&self, other: &Matrix<T>) -> (r: Matrix<T>)
        requires
            self.wf(),
            other.wf(),
            self.rows == other.rows && self.cols == other.cols,
        ensures
            r.wf(),
            cells_sum(self@, other@, r@),
    {
        let mut r = other.copy();
        self.add_to(&mut r);
        r
    }

    /// This matrix with the single row `other` added to each of its rows.
    pub fn add_to_each_row(&self, other: &Matrix<T>) -> (r: Matrix<T>)
        requires
            self.wf(),
            other.wf(),
            self.cols == other.cols && other.rows == 1,
        ensures
            r.wf(),
            rows_offset(self@, other@, r@),
    {
        let mut r = self.copy();
        let sum = |i: usize, j: usize, x: T| -> (v: T)
            requires
                j < other.cols,
            ensures
                is_sum(x, other@.at(0, j as int), v),
            {
                let v = x.plus(other.data[0][j]);
                v
            };
        r.update_cells(sum);
        r
    }

    /// Multiplies every cell by `k`, in place.
    pub fn scalar_multiply(&mut self, k: T)
        requires
            old(self).wf(),
        ensures
            final(self).wf(),
            cells_scaled(old(self)@, k, final(self)@),
    {
        let scale = |i: usize, j: usize, x: T| -> (v: T)
            ensures
                is_product(x, k, v),
            {
                let v = x.times(k);
                v
            };
        self.update_cells(scale);
    }

    /// Row `i` of this matrix times column `j` of `other`: the products of
    /// facing cells, added to a zero from left to right.
    fn dot(&self, other: &Matrix<T>, i: usize, j: usize) -> (r: T)
        requires
            self.wf(),
            other.wf(),
            self.cols == other.rows,
            i < self.rows,
            j < other.cols,
        ensures
            dot_upto(self@.cells[i as int], other@.column(j as int), self.cols as nat, r),
    {
        let ghost u = self@.cells[i as int];
        let ghost v = other@.column(j as int);
        let mut sum = T::zero();
        let mut k: usize = 0;
        while k < self.cols
            invariant
                self.wf(),
                other.wf(),
                self.cols == other.rows,
                i < self.rows,
                j < other.cols,
                k <= self.cols,
                u == self@.cells[i as int],
                v == other@.column(j as int),
                dot_upto(u, v, k as nat, sum),
            decreases self.cols - k,
        {
            let term = self.data[i][k].times(other.data[k][j]);
            let next = sum.plus(term);
            proof {
                assert(u[k as int] == self.data@[i as int]@[k as int]);
                assert(v[k as int] == other.data@[k as int]@[j as int]);
                let ghost n = (k + 1) as nat;
                assert((n - 1) as nat == k as nat);
                assert(is_accumulated(sum, u[n - 1], v[n - 1], term, next));
            }
            sum = next;
            k = k + 1;
        }
        sum
    }

    /// Overwrites `into` with the matrix product of this matrix and `other`.
    pub fn multiply_into(&self, other: &Matrix<T>, into: &mut Matrix<T>)
        requires
            self.wf(),
            other.wf(),
            old(into).wf(),
            self.cols == other.rows,
            self.rows == old(into).rows && other.cols == old(into).cols,
        ensures
            final(into).wf(),
            matrix_product(self@, other@, final(into)@),
    {
        let cell = |i: usize, j: usize, x: T| -> (v: T)
            requires
                i < self.rows && j < other.cols,
            ensures
                dot_upto(self@.cells[i as int], other@.column(j as int), self.cols as nat, v),
            {
                let v = self.dot(other, i, j);
                v
            };
        into.update_cells(cell);
    }

    /// The matrix product of this matrix and `other`.
    pub fn multiply(&self, other: &Matrix<T>) -> (r: Matrix<T>)
        requires
            self.wf(),
            other.wf(),
            self.cols == other.rows,
        ensures
            r.wf(),
            matrix_product(self@, other@, r@),
    {
        let mut r = Self::filled(self.rows, other.cols, T::zero());
        self.multiply_into(other, &mut r);
        r
    }

    /// Overwrites `into` with the cell-by-cell product of this matrix and `other`.
    pub fn hadamard_into(&self, other: &Matrix<T>, into: &mut Matrix<T>)
        requires
            self.wf(),
            other.wf(),
            old(into).wf(),
            self.rows == other.rows && self.cols == other.cols,
            self.rows == old(into).rows && self.cols == old(into).cols,
        ensures
            final(into).wf(),
            cells_product(self@, other@, final(into)@),
    {
        let cell = |i: usize, j: usize, x: T| -> (v: T)
            requires
                i < self.rows && j < self.cols,
            ensures
                is_product(self@.at(i as int, j as int), other@.at(i as int, j as int), v),
            {
                let v = self.data[i][j].times(other.data[i][j]);
                v
            };
        into.update_cells(cell);
    }

    /// The cell-by-cell product of this matrix and `other`.
    pub fn hadamard(&self, other: &Matrix<T>) -> (r: Matrix<T>)
        requires
            self.wf(),
            other.wf(),
            self.rows == other.rows && self.cols == other.cols,
        ensures
            r.wf(),
            cells_product(self@, other@, r@),
    {
        let mut r = Self::filled(self.rows, self.cols, T::zero());
        self.hadamard_into(other, &mut r);
        r
    }

    /// Whether `other` has the same shape and, cell for cell, the same numbers.
    /// The cells are compared in row order, and the first pair that is not
    /// the same settles the answer.
    pub fn equals(&self, other: &Matrix<T>) -> (r: bool)
        requires
            self.wf(),
            other.wf(),
        ensures
            r ==> self@.same_shape(other@) && forall|i: int, j: int|
                0 <= i < self.rows && 0 <= j < self.cols ==> is_same(
                    #[trigger] self@.at(i, j),
                    other@.at(i, j),
                    true,
                ),
            !r ==> !self@.same_shape(other@) || exists|i: int, j: int|
                0 <= i < self.rows && 0 <= j < self.cols && is_same(
                    #[trigger] self@.at(i, j),
                    other@.at(i, j),
                    false,
                ),
    {
        if self.rows != other.rows {
            return false;
        }
        if self.cols != other.cols {
            return false;
        }
        let mut i: usize = 0;
        while i < self.rows
            invariant
                self.wf(),
                other.wf(),
                self.rows == other.rows && self.cols == other.cols,
                i <= self.rows,
                forall|r: int, c: int|
                    0 <= r < i && 0 <= c < self.cols ==> is_same(
                        #[trigger] self@.at(r, c),
                        other@.at(r, c),
                        true,
                    ),
            decreases self.rows - i,
        {
            let mut j: usize = 0;
            while j < self.cols
                invariant
                    self.wf(),
                    other.wf(),
                    self.rows == other.rows && self.cols == other.cols,
                    i < self.rows,
                    j <= self.cols,
                    forall|r: int, c: int|
                        0 <= r < self.rows && 0 <= c < self.cols && (r < i || (r == i && c < j))
                            ==> is_same(#[trigger] self@.at(r, c), other@.at(r, c), true),
                decreases self.cols - j,
            {
                if !self.get(i, j).same(other.get(i, j)) {
                    assert(is_same(self@.at(i as int, j as int), other@.at(i as int, j as int), false));
                    return false;
                }
                j = j + 1;
            }
            i = i + 1;
        }
        true
    }
}

} // verus!
