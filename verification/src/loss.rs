//! The two losses. Each is a sum over the cells of the prediction, scaled by
//! the number of rows, plus half the regularization coefficient times the sum
//! of the squares of all weights. Biases are not penalized.

use crate::dataset::{DataSet, Grid};
use crate::matrix::Matrix;
use crate::network::{LossFunction, Network};
use crate::scalar::{
    is_count, is_difference, is_greater, is_ln, is_negation, is_one, is_product, is_quotient,
    is_sum, is_tiny, is_zero, Scalar,
};
use vstd::prelude::*;

verus! {

/// The steps of one term of the cross-entropy: the label times the logarithm
/// of the prediction, where a prediction that is not greater than the floor
/// is replaced by the floor.
pub open spec fn entropy_term_steps<T: Scalar>(
    label: T,
    p: T,
    floor: T,
    raised: T,
    log: T,
    t: T,
) -> bool {
    &&& is_tiny(floor)
    &&& (is_greater(p, floor, true) && raised == p) || (is_greater(p, floor, false) && raised
        == floor)
    &&& is_ln(raised, log)
    &&& is_product(label, log, t)
}

/// `t` is `label * ln(max(floor, p))`.
pub open spec fn is_entropy_term<T: Scalar>(label: T, p: T, t: T) -> bool {
    exists|floor: T, raised: T, log: T| #[trigger] entropy_term_steps(label, p, floor, raised, log, t)
}

pub open spec fn square_term_steps<T: Scalar>(label: T, p: T, d: T, t: T) -> bool {
    is_difference(label, p, d) && is_product(d, d, t)
}

/// `t` is `(label - p)^2`.
pub open spec fn is_square_term<T: Scalar>(label: T, p: T, t: T) -> bool {
    exists|d: T| #[trigger] square_term_steps(label, p, d, t)
}

/// `t` is what one cell contributes to the loss.
pub open spec fn is_loss_term<T: Scalar>(loss: LossFunction, label: T, p: T, t: T) -> bool {
    match loss {
        LossFunction::CrossEntropy => is_entropy_term(label, p, t),
        LossFunction::MeanSquaredError => is_square_term(label, p, t),
    }
}

/// `s` is `before` with the term of one cell added.
pub open spec fn term_added<T: Scalar>(
    loss: LossFunction,
    before: T,
    label: T,
    p: T,
    term: T,
    s: T,
) -> bool {
    is_loss_term(loss, label, p, term) && is_sum(before, term, s)
}

/// `s` is the terms of the first `n` cells of a row, added to a zero from
/// left to right.
pub open spec fn row_loss_upto<T: Scalar>(
    loss: LossFunction,
    labels: Seq<T>,
    preds: Seq<T>,
    n: nat,
    s: T,
) -> bool
    decreases n,
{
    if n == 0 {
        is_zero(s)
    } else {
        exists|before: T, term: T|
            {
                &&& #[trigger] term_added(loss, before, labels[n - 1], preds[n - 1], term, s)
                &&& row_loss_upto(loss, labels, preds, (n - 1) as nat, before)
            }
    }
}

/// `s` is `before` with the sum `row_sum` of a whole row added.
pub open spec fn row_added<T: Scalar>(
    loss: LossFunction,
    labels: Seq<T>,
    preds: Seq<T>,
    before: T,
    row_sum: T,
    s: T,
) -> bool {
    row_loss_upto(loss, labels, preds, labels.len(), row_sum) && is_sum(before, row_sum, s)
}

/// `s` is the sums of the first `n` rows, added to a zero from the top.
pub open spec fn data_loss_upto<T: Scalar>(
    loss: LossFunction,
    labels: Grid<T>,
    preds: Grid<T>,
    n: nat,
    s: T,
) -> bool
    decreases n,
{
    if n == 0 {
        is_zero(s)
    } else {
        exists|before: T, row_sum: T|
            {
                &&& #[trigger] row_added(
                    loss,
                    labels.cells[n - 1],
                    preds.cells[n - 1],
                    before,
                    row_sum,
                    s,
                )
                &&& data_loss_upto(loss, labels, preds, (n - 1) as nat, before)
            }
    }
}

/// `s` is `before` with the square `sq` of `w` added.
pub open spec fn square_added<T: Scalar>(before: T, w: T, sq: T, s: T) -> bool {
    is_product(w, w, sq) && is_sum(before, sq, s)
}

/// `s` is `start` with the squares of the first `n` cells of `row` added,
/// from left to right.
pub open spec fn row_squares_upto<T: Scalar>(row: Seq<T>, n: nat, start: T, s: T) -> bool
    decreases n,
{
    if n == 0 {
        s == start
    } else {
        exists|before: T, sq: T|
            {
                &&& #[trigger] square_added(before, row[n - 1], sq, s)
                &&& row_squares_upto(row, (n - 1) as nat, start, before)
            }
    }
}

/// `s` is `start` with the squares of all cells of `row` added.
pub open spec fn row_squares<T: Scalar>(row: Seq<T>, start: T, s: T) -> bool {
    row_squares_upto(row, row.len(), start, s)
}

/// `s` is `start` with the squares of the first `n` rows of `w` added, row
/// after row.
pub open spec fn grid_squares_upto<T: Scalar>(w: Grid<T>, n: nat, start: T, s: T) -> bool
    decreases n,
{
    if n == 0 {
        s == start
    } else {
        exists|mid: T|
            {
                &&& #[trigger] row_squares(w.cells[n - 1], mid, s)
                &&& grid_squares_upto(w, (n - 1) as nat, start, mid)
            }
    }
}

/// `s` is `start` with the squares of all cells of `w` added.
pub open spec fn grid_squares<T: Scalar>(w: Grid<T>, start: T, s: T) -> bool {
    grid_squares_upto(w, w.rows, start, s)
}

/// `s` is the squares of the weights of the first `n` connections, added to a
/// zero connection after connection.
pub open spec fn penalty_upto<T: Scalar>(weights: Seq<Grid<T>>, n: nat, s: T) -> bool
    decreases n,
{
    if n == 0 {
        is_zero(s)
    } else {
        exists|mid: T|
            {
                &&& #[trigger] grid_squares(weights[n - 1], mid, s)
                &&& penalty_upto(weights, (n - 1) as nat, mid)
            }
    }
}

/// The last steps of a loss. The sum over the cells is multiplied by `-1 / N`
/// for the cross-entropy and by `0.5 / N` for the squared error, where `N` is
/// the number of rows; the sum of the squared weights is multiplied by the
/// regularization coefficient times `0.5`; the two are added.
pub open spec fn loss_steps<T: Scalar>(
    loss: LossFunction,
    total: T,
    squares: T,
    rows: usize,
    regularization: T,
    one: T,
    two: T,
    half: T,
    lead: T,
    n: T,
    factor: T,
    data: T,
    weight: T,
    penalty: T,
    r: T,
) -> bool {
    &&& is_one(one)
    &&& is_count(2, two)
    &&& is_quotient(one, two, half)
    &&& match loss {
        LossFunction::CrossEntropy => is_negation(one, lead),
        LossFunction::MeanSquaredError => lead == half,
    }
    &&& is_count(rows, n)
    &&& is_quotient(lead, n, factor)
    &&& is_product(factor, total, data)
    &&& is_product(regularization, half, weight)
    &&& is_product(weight, squares, penalty)
    &&& is_sum(data, penalty, r)
}

/// `r` is made of the sum `total` over the cells and the sum `squares` of the
/// squared weights by the last steps of the loss.
pub open spec fn is_combined<T: Scalar>(
    loss: LossFunction,
    total: T,
    squares: T,
    rows: usize,
    regularization: T,
    r: T,
) -> bool {
    exists|one: T, two: T, half: T, lead: T, n: T, factor: T, data: T, weight: T, penalty: T| #[trigger]
        loss_steps(
            loss,
            total,
            squares,
            rows,
            regularization,
            one,
            two,
            half,
            lead,
            n,
            factor,
            data,
            weight,
            penalty,
            r,
        )
}

pub open spec fn loss_parts<T: Scalar>(
    loss: LossFunction,
    weights: Seq<Grid<T>>,
    labels: Grid<T>,
    preds: Grid<T>,
    regularization: T,
    total: T,
    squares: T,
    r: T,
) -> bool {
    &&& data_loss_upto(loss, labels, preds, labels.rows, total)
    &&& penalty_upto(weights, weights.len(), squares)
    &&& is_combined(loss, total, squares, labels.rows as usize, regularization, r)
}

/// `r` is the loss of the predictions `preds` against the labels `labels`
/// for a network with the given weights.
pub open spec fn is_loss<T: Scalar>(
    loss: LossFunction,
    weights: Seq<Grid<T>>,
    labels: Grid<T>,
    preds: Grid<T>,
    regularization: T,
    r: T,
) -> bool {
    exists|total: T, squares: T| #[trigger]
        loss_parts(loss, weights, labels, preds, regularization, total, squares, r)
}

/// What one cell contributes to the loss.
fn loss_term<T: Scalar>(loss: LossFunction, label: T, p: T) -> (t: T)
    ensures
        is_loss_term(loss, label, p, t),
{
    match loss {
        LossFunction::CrossEntropy => {
            let floor = T::tiny();
            let raised = if p.greater(floor) {
                p
            } else {
                floor
            };
            let log = raised.ln();
            let t = label.times(log);
            assert(entropy_term_steps(label, p, floor, raised, log, t));
            t
        },
        LossFunction::MeanSquaredError => {
            let d = label.minus(p);
            let t = d.times(d);
            assert(square_term_steps(label, p, d, t));
            t
        },
    }
}

/// The sum of the terms of row `i`.
fn row_loss<T: Scalar>(
    loss: LossFunction,
    actual: &DataSet<T>,
    prediction: &Matrix<T>,
    i: usize,
) -> (s: T)
    requires
        actual.wf(),
        prediction.wf(),
        actual.rows == prediction.rows && actual.cols == prediction.cols,
        i < actual.rows,
    ensures
        row_loss_upto(
            loss,
            actual@.cells[i as int],
            prediction@.cells[i as int],
            actual@.cells[i as int].len(),
            s,
        ),
{
    let ghost labels = actual@.cells[i as int];
    let ghost preds = prediction@.cells[i as int];
    let mut s = T::zero();
    let mut j: usize = 0;
    while j < actual.cols
        invariant
            actual.wf(),
            prediction.wf(),
            actual.rows == prediction.rows && actual.cols == prediction.cols,
            i < actual.rows,
            j <= actual.cols,
            labels == actual@.cells[i as int],
            preds == prediction@.cells[i as int],
            row_loss_upto(loss, labels, preds, j as nat, s),
        decreases actual.cols - j,
    {
        let term = loss_term(loss, actual.data[i][j], prediction.data[i][j]);
        let next = s.plus(term);
        proof {
            let n = (j + 1) as nat;
            assert((n - 1) as nat == j as nat);
            assert(labels[n - 1] == actual.data@[i as int]@[j as int]);
            assert(preds[n - 1] == prediction.data@[i as int]@[j as int]);
            assert(term_added(loss, s, labels[n - 1], preds[n - 1], term, next));
        }
        s = next;
        j = j + 1;
    }
    assert(labels.len() == actual.cols);
    s
}

/// The sum of the row sums.
fn data_loss<T: Scalar>(loss: LossFunction, actual: &DataSet<T>, prediction: &Matrix<T>) -> (s: T)
    requires
        actual.wf(),
        prediction.wf(),
        actual.rows == prediction.rows && actual.cols == prediction.cols,
    ensures
        data_loss_upto(loss, actual@, prediction@, actual.rows as nat, s),
{
    let mut s = T::zero();
    let mut i: usize = 0;
    while i < actual.rows
        invariant
            actual.wf(),
            prediction.wf(),
            actual.rows == prediction.rows && actual.cols == prediction.cols,
            i <= actual.rows,
            data_loss_upto(loss, actual@, prediction@, i as nat, s),
        decreases actual.rows - i,
    {
        let row_sum = row_loss(loss, actual, prediction, i);
        let next = s.plus(row_sum);
        proof {
            let n = (i + 1) as nat;
            assert((n - 1) as nat == i as nat);
            assert(row_added(
                loss,
                actual@.cells[n - 1],
                prediction@.cells[n - 1],
                s,
                row_sum,
                next,
            ));
        }
        s = next;
        i = i + 1;
    }
    s
}

/// `start` with the squares of the cells of row `i` added.
fn add_row_squares<T: Scalar>(w: &Matrix<T>, i: usize, start: T) -> (s: T)
    requires
        w.wf(),
        i < w.rows,
    ensures
        row_squares(w@.cells[i as int], start, s),
{
    let ghost row = w@.cells[i as int];
    let mut s = start;
    let mut j: usize = 0;
    while j < w.cols
        invariant
            w.wf(),
            i < w.rows,
            j <= w.cols,
            row == w@.cells[i as int],
            row_squares_upto(row, j as nat, start, s),
        decreases w.cols - j,
    {
        let sq = w.data[i][j].times(w.data[i][j]);
        let next = s.plus(sq);
        proof {
            let n = (j + 1) as nat;
            assert((n - 1) as nat == j as nat);
            assert(row[n - 1] == w.data@[i as int]@[j as int]);
            assert(square_added(s, row[n - 1], sq, next));
        }
        s = next;
        j = j + 1;
    }
    assert(row.len() == w.cols);
    s
}

/// `start` with the squares of all cells of `w` added.
fn add_grid_squares<T: Scalar>(w: &Matrix<T>, start: T) -> (s: T)
    requires
        w.wf(),
    ensures
        grid_squares(w@, start, s),
{
    let mut s = start;
    let mut i: usize = 0;
    while i < w.rows
        invariant
            w.wf(),
            i <= w.rows,
            grid_squares_upto(w@, i as nat, start, s),
        decreases w.rows - i,
    {
        let next = add_row_squares(w, i, s);
        proof {
            let n = (i + 1) as nat;
            assert((n - 1) as nat == i as nat);
            assert(row_squares(w@.cells[n - 1], s, next));
        }
        s = next;
        i = i + 1;
    }
    s
}

impl<T: Scalar> Network<T> {
    /// The sum of the squares of all weights.
    fn squared_weights(&self) -> (s: T)
        requires
            self.wf(),
        ensures
            penalty_upto(self.model().weights, self.model().weights.len(), s),
    {
        let ghost weights = self.model().weights;
        let mut s = T::zero();
        let mut i: usize = 0;
        while i < self.num_connections
            invariant
                self.wf(),
                weights == self.model().weights,
                i <= self.num_connections,
                penalty_upto(weights, i as nat, s),
            decreases self.num_connections - i,
        {
            let next = add_grid_squares(&self.connections[i].weights, s);
            proof {
                let n = (i + 1) as nat;
                assert((n - 1) as nat == i as nat);
                assert(weights[n - 1] == self.connections@[i as int].weights@);
                assert(grid_squares(weights[n - 1], s, next));
            }
            s = next;
            i = i + 1;
        }
        s
    }

    /// The loss of the kind `loss` of `prediction` against `actual`.
    pub fn loss(
        &self,
        loss: LossFunction,
        prediction: &Matrix<T>,
        actual: &DataSet<T>,
        regularization: T,
    ) -> (r: T)
        requires
            self.wf(),
            prediction.wf(),
            actual.wf(),
            prediction.rows == actual.rows,
            prediction.cols == actual.cols,
        ensures
            is_loss(loss, self.model().weights, actual@, prediction@, regularization, r),
    {
        let total = data_loss(loss, actual, prediction);
        let squares = self.squared_weights();
        let one = T::one();
        let two = T::from_count(2);
        let half = one.over(two);
        let lead = match loss {
            LossFunction::CrossEntropy => one.negate(),
            LossFunction::MeanSquaredError => half,
        };
        let n = T::from_count(actual.rows);
        let factor = lead.over(n);
        let data = factor.times(total);
        let weight = regularization.times(half);
        let penalty = weight.times(squares);
        let r = data.plus(penalty);
        assert(loss_steps(
            loss,
            total,
            squares,
            actual.rows,
            regularization,
            one,
            two,
            half,
            lead,
            n,
            factor,
            data,
            weight,
            penalty,
            r,
        ));
        assert(loss_parts(
            loss,
            self.model().weights,
            actual@,
            prediction@,
            regularization,
            total,
            squares,
            r,
        ));
        r
    }

    /// The cross-entropy of `prediction` against the one-hot `actual`,
    /// `-(1/N) sum label * ln(max(floor, prediction))`, plus the L2 penalty.
    pub fn cross_entropy_loss(
        &self,
        prediction: &Matrix<T>,
        actual: &DataSet<T>,
        regularization: T,
    ) -> (r: T)
        requires
            self.wf(),
            prediction.wf(),
            actual.wf(),
            prediction.rows == actual.rows,
            prediction.cols == actual.cols,
        ensures
            is_loss(
                LossFunction::CrossEntropy,
                self.model().weights,
                actual@,
                prediction@,
                regularization,
                r,
            ),
    {
        self.loss(LossFunction::CrossEntropy, prediction, actual, regularization)
    }

    /// The mean squared error of `prediction` against `actual`,
    /// `(0.5/N) sum (label - prediction)^2`, plus the L2 penalty.
    pub fn mean_squared_error(
        &self,
        prediction: &Matrix<T>,
        actual: &DataSet<T>,
        regularization: T,
    ) -> (r: T)
        requires
            self.wf(),
            prediction.wf(),
            actual.wf(),
            prediction.rows == actual.rows,
            prediction.cols == actual.cols,
        ensures
            is_loss(
                LossFunction::MeanSquaredError,
                self.model().weights,
                actual@,
                prediction@,
                regularization,
                r,
            ),
    {
        self.loss(LossFunction::MeanSquaredError, prediction, actual, regularization)
    }
}

} // verus!
