//! Stacks of matrices, one matrix for each connection of a network: the
//! shape in which gradients, their sums and the updates are kept.

use crate::dataset::Grid;
use crate::matrix::{all_zero, cells_sum, Matrix};
use crate::scalar::{is_difference, Scalar};
use vstd::prelude::*;

verus! {

/// The tables of a stack of matrices, one for each connection.
pub open spec fn stack_view<T>(stack: Vec<Matrix<T>>) -> Seq<Grid<T>> {
    Seq::new(stack@.len(), |i: int| stack@[i]@)
}

/// Every matrix of the stack is well formed.
pub open spec fn stack_wf<T>(stack: Vec<Matrix<T>>) -> bool {
    forall|i: int| 0 <= i < stack@.len() ==> (#[trigger] stack@[i]).wf()
}

/// `stack` has a well-formed table of the same shape for each table of `like`.
pub open spec fn stack_shaped<T>(stack: Seq<Grid<T>>, like: Seq<Grid<T>>) -> bool {
    &&& stack.len() == like.len()
    &&& forall|i: int|
        0 <= i < like.len() ==> (#[trigger] stack[i]).wf() && stack[i].same_shape(like[i])
}

/// `stack` is shaped like `like` and holds zeros only.
pub open spec fn stack_zero<T: Scalar>(stack: Seq<Grid<T>>, like: Seq<Grid<T>>) -> bool {
    &&& stack_shaped(stack, like)
    &&& forall|i: int| 0 <= i < like.len() ==> all_zero(#[trigger] stack[i])
}

/// Table by table, `r` is the cell-by-cell sum of `a` and `b`.
pub open spec fn stack_sum<T: Scalar>(a: Seq<Grid<T>>, b: Seq<Grid<T>>, r: Seq<Grid<T>>) -> bool {
    &&& a.len() == b.len()
    &&& r.len() == a.len()
    &&& forall|i: int| 0 <= i < a.len() ==> cells_sum(a[i], b[i], #[trigger] r[i])
}

/// `r` is the cell-by-cell difference of `a` and `b`.
pub open spec fn cells_difference<T: Scalar>(a: Grid<T>, b: Grid<T>, r: Grid<T>) -> bool {
    &&& r.wf()
    &&& a.same_shape(b)
    &&& r.same_shape(a)
    &&& forall|i: int, j: int|
        0 <= i < a.rows && 0 <= j < a.cols ==> is_difference(
            a.at(i, j),
            b.at(i, j),
            #[trigger] r.at(i, j),
        )
}

/// Table by table, `r` is the cell-by-cell difference of `a` and `b`.
pub open spec fn stack_difference<T: Scalar>(
    a: Seq<Grid<T>>,
    b: Seq<Grid<T>>,
    r: Seq<Grid<T>>,
) -> bool {
    &&& a.len() == b.len()
    &&& r.len() == a.len()
    &&& forall|i: int| 0 <= i < a.len() ==> cells_difference(a[i], b[i], #[trigger] r[i])
}

/// The cell-by-cell difference `a - b`.
pub(crate) fn difference<T: Scalar>(a: &Matrix<T>, b: &Matrix<T>) -> (r: Matrix<T>)
    requires
        a.wf(),
        b.wf(),
        a.rows == b.rows && a.cols == b.cols,
    ensures
        r.wf(),
        cells_difference(a@, b@, r@),
{
    let mut r = a.copy();
    let cell = |i: usize, j: usize, x: T| -> (v: T)
        requires
            i < b.rows && j < b.cols,
        ensures
            is_difference(x, b@.at(i as int, j as int), v),
        {
            let v = x.minus(b.data[i][j]);
            v
        };
    r.update_cells(cell);
    r
}

/// Subtracts `b` from `a`, cell by cell, in place.
pub(crate) fn subtract_from<T: Scalar>(a: &mut Matrix<T>, b: &Matrix<T>)
    requires
        old(a).wf(),
        b.wf(),
        old(a).rows == b.rows && old(a).cols == b.cols,
    ensures
        final(a).wf(),
        cells_difference(old(a)@, b@, final(a)@),
{
    let cell = |i: usize, j: usize, x: T| -> (v: T)
        requires
            i < b.rows && j < b.cols,
        ensures
            is_difference(x, b@.at(i as int, j as int), v),
        {
            let v = x.minus(b.data[i][j]);
            v
        };
    a.update_cells(cell);
}

/// Two stacks hold matrices of the same shapes.
pub open spec fn stacks_match<T>(a: Vec<Matrix<T>>, b: Vec<Matrix<T>>) -> bool {
    &&& a@.len() == b@.len()
    &&& forall|i: int|
        0 <= i < a@.len() ==> (#[trigger] a@[i]).rows == b@[i].rows && a@[i].cols == b@[i].cols
}

/// Adds every matrix of `gradients` to its partner in `sums`.
pub(crate) fn add_stack<T: Scalar>(gradients: &Vec<Matrix<T>>, sums: &mut Vec<Matrix<T>>)
    requires
        stack_wf(*gradients),
        stack_wf(*old(sums)),
        stacks_match(*gradients, *old(sums)),
    ensures
        stack_wf(*final(sums)),
        stacks_match(*final(sums), *old(sums)),
        stack_sum(stack_view(*gradients), stack_view(*old(sums)), stack_view(*final(sums))),
{
    let n = sums.len();
    let mut i: usize = 0;
    while i < n
        invariant
            stack_wf(*gradients),
            stack_wf(*sums),
            stacks_match(*gradients, *sums),
            stacks_match(*sums, *old(sums)),
            n == sums@.len(),
            i <= n,
            forall|k: int|
                0 <= k < i ==> cells_sum(gradients@[k]@, old(sums)@[k]@, #[trigger] sums@[k]@),
            forall|k: int| i <= k < n ==> #[trigger] sums@[k] == old(sums)@[k],
        decreases n - i,
    {
        gradients[i].add_to(&mut sums[i]);
        i = i + 1;
    }
    proof {
        let r = stack_view(*sums);
        assert forall|k: int| 0 <= k < n implies cells_sum(
            stack_view(*gradients)[k],
            stack_view(*old(sums))[k],
            #[trigger] r[k],
        ) by {
            assert(cells_sum(gradients@[k]@, old(sums)@[k]@, sums@[k]@));
        }
    }
}

/// Puts a zero in every cell of every matrix of the stack.
pub(crate) fn clear_stack<T: Scalar>(stack: &mut Vec<Matrix<T>>)
    requires
        stack_wf(*old(stack)),
    ensures
        stack_wf(*final(stack)),
        stacks_match(*final(stack), *old(stack)),
        stack_zero(stack_view(*final(stack)), stack_view(*old(stack))),
{
    let n = stack.len();
    let mut i: usize = 0;
    while i < n
        invariant
            stack_wf(*stack),
            stacks_match(*stack, *old(stack)),
            n == stack@.len(),
            i <= n,
            forall|k: int| 0 <= k < i ==> all_zero(#[trigger] stack@[k]@),
        decreases n - i,
    {
        stack[i].to_zero();
        i = i + 1;
    }
    proof {
        let r = stack_view(*stack);
        let like = stack_view(*old(stack));
        assert forall|k: int| 0 <= k < like.len() implies (#[trigger] r[k]).wf() && r[k].same_shape(
            like[k],
        ) && all_zero(r[k]) by {
            assert(stack@[k].wf());
            assert(all_zero(stack@[k]@));
        }
    }
}

} // verus!
