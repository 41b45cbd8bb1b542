//! Training: the gradients of the examples of a batch are added up, and after
//! each batch the weights and biases move against the sum, with momentum and
//! an annealed learning rate.

use crate::backprop::is_backpropagated;
use crate::dataset::{
    batch_offset, batch_size, create_batches, is_permutation, rows_rearranged, shuffle_together,
    DataSet, Grid,
};
use crate::matrix::{all_zero, cells_sum, Matrix};
use crate::network::{
    lemma_fed_shape, lemma_same_shape, link_fed, signals_follow, Model, Network, ParameterSet,
};
use crate::scalar::{is_count, is_one, is_product, is_quotient, is_same, is_sum, is_zero, Scalar};
use crate::stack::{
    add_stack, cells_difference, clear_stack, stack_difference, stack_shaped, stack_sum,
    stack_view, stack_wf, stack_zero, stacks_match, subtract_from,
};
use vstd::prelude::*;

verus! {

/// The signals of one pass on `example`, and the gradients that
/// backpropagation makes of them and of `target`.
pub open spec fn example_steps<T: Scalar>(
    model: Model<T>,
    example: Grid<T>,
    target: Grid<T>,
    signals: Seq<Grid<T>>,
    weight_gradients: Seq<Grid<T>>,
    bias_gradients: Seq<Grid<T>>,
) -> bool {
    &&& signals.len() > 0
    &&& signals[0] == example
    &&& signals_follow(model, signals)
    &&& is_backpropagated(model, signals, target, weight_gradients, bias_gradients)
}

/// The gradients are those of the single example `example` with the target
/// `target`.
pub open spec fn is_example_gradient<T: Scalar>(
    model: Model<T>,
    example: Grid<T>,
    target: Grid<T>,
    weight_gradients: Seq<Grid<T>>,
    bias_gradients: Seq<Grid<T>>,
) -> bool {
    exists|signals: Seq<Grid<T>>| #[trigger]
        example_steps(model, example, target, signals, weight_gradients, bias_gradients)
}

/// The sums `(sw, sb)` are the sums `(pw, pb)` with the gradients `(gw, gb)`
/// of one example added.
pub open spec fn example_added<T: Scalar>(
    model: Model<T>,
    example: Grid<T>,
    target: Grid<T>,
    gw: Seq<Grid<T>>,
    gb: Seq<Grid<T>>,
    pw: Seq<Grid<T>>,
    pb: Seq<Grid<T>>,
    sw: Seq<Grid<T>>,
    sb: Seq<Grid<T>>,
) -> bool {
    &&& is_example_gradient(model, example, target, gw, gb)
    &&& stack_sum(gw, pw, sw)
    &&& stack_sum(gb, pb, sb)
}

/// `(sw, sb)` are the gradients of the `n` examples from row `offset` on,
/// added to zeros one example after the other.
pub open spec fn sums_upto<T: Scalar>(
    model: Model<T>,
    data: Grid<T>,
    labels: Grid<T>,
    offset: int,
    n: nat,
    sw: Seq<Grid<T>>,
    sb: Seq<Grid<T>>,
) -> bool
    decreases n,
{
    if n == 0 {
        stack_zero(sw, model.weights) && stack_zero(sb, model.biases)
    } else {
        exists|gw: Seq<Grid<T>>, gb: Seq<Grid<T>>, pw: Seq<Grid<T>>, pb: Seq<Grid<T>>|
            {
                &&& #[trigger] example_added(
                    model,
                    data.row(offset + n - 1),
                    labels.row(offset + n - 1),
                    gw,
                    gb,
                    pw,
                    pb,
                    sw,
                    sb,
                )
                &&& sums_upto(model, data, labels, offset, (n - 1) as nat, pw, pb)
            }
    }
}

/// The steps of the annealed learning rate: the rate itself where the search
/// time is zero, and `rate / (1 + epoch / search_time)` elsewhere.
pub open spec fn rate_steps<T: Scalar>(
    rate: T,
    search_time: T,
    epoch: usize,
    zero: T,
    flat: bool,
    e: T,
    ratio: T,
    one: T,
    den: T,
    r: T,
) -> bool {
    &&& is_zero(zero)
    &&& is_same(search_time, zero, flat)
    &&& if flat {
        r == rate
    } else {
        &&& is_count(epoch, e)
        &&& is_quotient(e, search_time, ratio)
        &&& is_one(one)
        &&& is_sum(one, ratio, den)
        &&& is_quotient(rate, den, r)
    }
}

/// `r` is the learning rate in epoch `epoch`.
pub open spec fn is_rate<T: Scalar>(rate: T, search_time: T, epoch: usize, r: T) -> bool {
    exists|zero: T, flat: bool, e: T, ratio: T, one: T, den: T| #[trigger]
        rate_steps(rate, search_time, epoch, zero, flat, e, ratio, one, den, r)
}

pub open spec fn scale_steps<T: Scalar>(
    rate: T,
    search_time: T,
    epoch: usize,
    rows: usize,
    current: T,
    n: T,
    scale: T,
) -> bool {
    &&& is_rate(rate, search_time, epoch, current)
    &&& is_count(rows, n)
    &&& is_quotient(current, n, scale)
}

/// `scale` is the learning rate in epoch `epoch` divided by the number of
/// rows of the whole dataset.
pub open spec fn is_step_scale<T: Scalar>(
    rate: T,
    search_time: T,
    epoch: usize,
    rows: usize,
    scale: T,
) -> bool {
    exists|current: T, n: T| #[trigger]
        scale_steps(rate, search_time, epoch, rows, current, n, scale)
}

pub open spec fn blend_steps<T: Scalar>(
    last: T,
    sum: T,
    scale: T,
    momentum: T,
    gradient: T,
    carried: T,
    update: T,
) -> bool {
    &&& is_product(sum, scale, gradient)
    &&& is_product(last, momentum, carried)
    &&& is_sum(carried, gradient, update)
}

/// `update` is the momentum times the last update, plus the summed gradient
/// times the scale.
pub open spec fn is_blend<T: Scalar>(last: T, sum: T, scale: T, momentum: T, update: T) -> bool {
    exists|gradient: T, carried: T| #[trigger]
        blend_steps(last, sum, scale, momentum, gradient, carried, update)
}

/// Cell by cell, `update` blends the last update with the summed gradient.
pub open spec fn cells_blended<T: Scalar>(
    last: Grid<T>,
    sums: Grid<T>,
    scale: T,
    momentum: T,
    update: Grid<T>,
) -> bool {
    &&& update.wf()
    &&& last.same_shape(sums)
    &&& update.same_shape(last)
    &&& forall|i: int, j: int|
        0 <= i < last.rows && 0 <= j < last.cols ==> is_blend(
            last.at(i, j),
            sums.at(i, j),
            scale,
            momentum,
            #[trigger] update.at(i, j),
        )
}

/// Table by table, `update` blends the last update with the summed gradient.
pub open spec fn stack_blended<T: Scalar>(
    last: Seq<Grid<T>>,
    sums: Seq<Grid<T>>,
    scale: T,
    momentum: T,
    update: Seq<Grid<T>>,
) -> bool {
    &&& last.len() == sums.len()
    &&& update.len() == last.len()
    &&& forall|i: int|
        0 <= i < last.len() ==> cells_blended(last[i], sums[i], scale, momentum, #[trigger] update[i])
}

/// What training carries from batch to batch: the model, the signals that
/// the layers hold, and the last update of the weights and of the biases.
#[verifier::ext_equal]
pub struct Trainee<T> {
    pub model: Model<T>,
    pub signals: Seq<Grid<T>>,
    pub last_weights: Seq<Grid<T>>,
    pub last_biases: Seq<Grid<T>>,
}

/// What stays the same over a training run: the learning rate and its
/// annealing divisor, the momentum coefficient, the number of batches of an
/// epoch, and whether the rows are shuffled before each epoch.
pub struct Schedule<T> {
    pub learning_rate: T,
    pub search_time: T,
    pub momentum: T,
    pub batches: nat,
    pub shuffle: bool,
}

/// The steps of one batch: the gradients of its examples are added up, the
/// sums are blended with the last updates, and the new updates are taken off
/// the weights and the biases. The layers are left with the signals of the
/// pass on the last example of the batch, made with the model as it was
/// before the update.
pub open spec fn batch_steps<T: Scalar>(
    before: Trainee<T>,
    data: Grid<T>,
    labels: Grid<T>,
    offset: int,
    size: nat,
    scale: T,
    momentum: T,
    sw: Seq<Grid<T>>,
    sb: Seq<Grid<T>>,
    after: Trainee<T>,
) -> bool {
    &&& sums_upto(before.model, data, labels, offset, size, sw, sb)
    &&& stack_blended(before.last_weights, sw, scale, momentum, after.last_weights)
    &&& stack_blended(before.last_biases, sb, scale, momentum, after.last_biases)
    &&& stack_difference(before.model.weights, after.last_weights, after.model.weights)
    &&& stack_difference(before.model.biases, after.last_biases, after.model.biases)
    &&& after.model.activations == before.model.activations
    &&& if size > 0 {
        &&& after.signals.len() > 0
        &&& after.signals[0] == data.row(offset + size - 1)
        &&& signals_follow(before.model, after.signals)
    } else {
        after.signals == before.signals
    }
}

/// Batch `k` of the epoch, with its scale and its sums.
pub open spec fn batch_link<T: Scalar>(
    before: Trainee<T>,
    data: Grid<T>,
    labels: Grid<T>,
    schedule: Schedule<T>,
    epoch: usize,
    k: int,
    scale: T,
    sw: Seq<Grid<T>>,
    sb: Seq<Grid<T>>,
    after: Trainee<T>,
) -> bool {
    &&& is_step_scale(
        schedule.learning_rate,
        schedule.search_time,
        epoch,
        data.rows as usize,
        scale,
    )
    &&& batch_steps(
        before,
        data,
        labels,
        batch_offset(data.rows as int, schedule.batches as int, k),
        batch_size(data.rows as int, schedule.batches as int, k) as nat,
        scale,
        schedule.momentum,
        sw,
        sb,
        after,
    )
}

/// `after` is what batch `k` of epoch `epoch` makes of `before`.
pub open spec fn is_batch_trained<T: Scalar>(
    before: Trainee<T>,
    data: Grid<T>,
    labels: Grid<T>,
    schedule: Schedule<T>,
    epoch: usize,
    k: int,
    after: Trainee<T>,
) -> bool {
    exists|scale: T, sw: Seq<Grid<T>>, sb: Seq<Grid<T>>| #[trigger]
        batch_link(before, data, labels, schedule, epoch, k, scale, sw, sb, after)
}

/// `end` is what the first `n` batches of an epoch make of `start`.
pub open spec fn batches_upto<T: Scalar>(
    start: Trainee<T>,
    data: Grid<T>,
    labels: Grid<T>,
    schedule: Schedule<T>,
    epoch: usize,
    n: nat,
    end: Trainee<T>,
) -> bool
    decreases n,
{
    if n == 0 {
        end == start
    } else {
        exists|mid: Trainee<T>|
            {
                &&& #[trigger] is_batch_trained(mid, data, labels, schedule, epoch, n - 1, end)
                &&& batches_upto(start, data, labels, schedule, epoch, (n - 1) as nat, mid)
            }
    }
}

/// What training carries from epoch to epoch: the trainee, and the examples
/// and labels in their current order.
#[verifier::ext_equal]
pub struct Course<T> {
    pub trainee: Trainee<T>,
    pub data: Grid<T>,
    pub labels: Grid<T>,
}

/// With shuffling, the examples and the labels are put in the order `p`, the
/// same for both; without, they stay as they are.
pub open spec fn is_arranged<T>(
    shuffle: bool,
    data: Grid<T>,
    labels: Grid<T>,
    p: Seq<int>,
    new_data: Grid<T>,
    new_labels: Grid<T>,
) -> bool {
    if shuffle {
        &&& is_permutation(p, data.rows)
        &&& rows_rearranged(data, new_data, p)
        &&& rows_rearranged(labels, new_labels, p)
    } else {
        new_data == data && new_labels == labels
    }
}

/// The steps of one epoch: the rows are arranged, then the batches are
/// trained on in order.
pub open spec fn epoch_steps<T: Scalar>(
    before: Course<T>,
    schedule: Schedule<T>,
    epoch: usize,
    p: Seq<int>,
    after: Course<T>,
) -> bool {
    &&& is_arranged(schedule.shuffle, before.data, before.labels, p, after.data, after.labels)
    &&& batches_upto(
        before.trainee,
        after.data,
        after.labels,
        schedule,
        epoch,
        schedule.batches,
        after.trainee,
    )
}

/// `after` is what epoch `epoch` makes of `before`.
pub open spec fn is_epoch_trained<T: Scalar>(
    before: Course<T>,
    schedule: Schedule<T>,
    epoch: usize,
    after: Course<T>,
) -> bool {
    exists|p: Seq<int>| #[trigger] epoch_steps(before, schedule, epoch, p, after)
}

/// `end` is what epochs `1` to `n` make of `start`.
pub open spec fn epochs_upto<T: Scalar>(
    start: Course<T>,
    schedule: Schedule<T>,
    n: nat,
    end: Course<T>,
) -> bool
    decreases n,
{
    if n == 0 {
        end == start
    } else {
        exists|mid: Course<T>|
            {
                &&& #[trigger] is_epoch_trained(mid, schedule, n as usize, end)
                &&& epochs_upto(start, schedule, (n - 1) as nat, mid)
            }
    }
}

/// A training run: it starts with no update behind it and goes through
/// `epochs` epochs.
pub open spec fn training_steps<T: Scalar>(
    start: Course<T>,
    schedule: Schedule<T>,
    epochs: nat,
    end: Course<T>,
) -> bool {
    &&& stack_zero(start.trainee.last_weights, start.trainee.model.weights)
    &&& stack_zero(start.trainee.last_biases, start.trainee.model.biases)
    &&& epochs_upto(start, schedule, epochs, end)
}

/// Training for `epochs` epochs turns the model `model`, the signals
/// `signals` and the tables `data` and `labels` into `new_model`,
/// `new_signals`, `new_data` and `new_labels`.
pub open spec fn is_trained<T: Scalar>(
    model: Model<T>,
    signals: Seq<Grid<T>>,
    data: Grid<T>,
    labels: Grid<T>,
    schedule: Schedule<T>,
    epochs: nat,
    new_model: Model<T>,
    new_signals: Seq<Grid<T>>,
    new_data: Grid<T>,
    new_labels: Grid<T>,
) -> bool {
    exists|start: Course<T>, end: Course<T>|
        {
            &&& #[trigger] training_steps(start, schedule, epochs, end)
            &&& start.trainee.model == model
            &&& start.trainee.signals == signals
            &&& start.data == data
            &&& start.labels == labels
            &&& end.trainee.model == new_model
            &&& end.trainee.signals == new_signals
            &&& end.data == new_data
            &&& end.labels == new_labels
        }
}

/// A matrix that holds row `i` of `data` and nothing else.
pub fn row_table<T: Scalar>(data: &DataSet<T>, i: usize) -> (r: Matrix<T>)
    requires
        data.wf(),
        i < data.rows,
    ensures
        r.wf(),
        r@ == data@.row(i as int),
{
    let mut row: Vec<T> = Vec::new();
    let mut j: usize = 0;
    while j < data.cols
        invariant
            data.wf(),
            i < data.rows,
            j <= data.cols,
            row@.len() == j,
            forall|k: int| 0 <= k < j ==> #[trigger] row@[k] == data.data@[i as int]@[k],
        decreases data.cols - j,
    {
        row.push(data.data[i][j]);
        j = j + 1;
    }
    let mut rows: Vec<Vec<T>> = Vec::new();
    rows.push(row);
    let r = DataSet { rows: 1, cols: data.cols, data: rows };
    assert(r@.cells[0] =~= data@.cells[i as int]);
    assert(r@.cells =~= data@.row(i as int).cells);
    r
}

/// The learning rate in epoch `epoch`: the rate itself where the search time
/// is zero, and `rate / (1 + epoch / search_time)` elsewhere.
pub fn learning_rate_at<T: Scalar>(learning_rate: T, search_time: T, epoch: usize) -> (r: T)
    ensures
        is_rate(learning_rate, search_time, epoch, r),
{
    let zero = T::zero();
    let flat = search_time.same(zero);
    if flat {
        assert(rate_steps(
            learning_rate,
            search_time,
            epoch,
            zero,
            flat,
            zero,
            zero,
            zero,
            zero,
            learning_rate,
        ));
        learning_rate
    } else {
        let e = T::from_count(epoch);
        let ratio = e.over(search_time);
        let one = T::one();
        let den = one.plus(ratio);
        let r = learning_rate.over(den);
        assert(rate_steps(learning_rate, search_time, epoch, zero, flat, e, ratio, one, den, r));
        r
    }
}

/// The factor that the summed gradients of a batch are multiplied by: the
/// learning rate of the epoch divided by the number of rows of the dataset.
pub fn step_scale<T: Scalar>(learning_rate: T, search_time: T, epoch: usize, rows: usize) -> (scale:
    T)
    ensures
        is_step_scale(learning_rate, search_time, epoch, rows, scale),
{
    let current = learning_rate_at(learning_rate, search_time, epoch);
    let n = T::from_count(rows);
    let scale = current.over(n);
    assert(scale_steps(learning_rate, search_time, epoch, rows, current, n, scale));
    scale
}

/// Turns the last updates into the next ones: every cell becomes itself
/// times the momentum plus the summed gradient times the scale.
fn blend_stack<T: Scalar>(
    last: &mut Vec<Matrix<T>>,
    sums: &Vec<Matrix<T>>,
    scale: T,
    momentum: T,
)
    requires
        stack_wf(*old(last)),
        stack_wf(*sums),
        stacks_match(*old(last), *sums),
    ensures
        stack_wf(*final(last)),
        stacks_match(*final(last), *old(last)),
        stack_blended(
            stack_view(*old(last)),
            stack_view(*sums),
            scale,
            momentum,
            stack_view(*final(last)),
        ),
{
    let n = last.len();
    let mut i: usize = 0;
    while i < n
        invariant
            stack_wf(*last),
            stack_wf(*sums),
            stacks_match(*last, *sums),
            stacks_match(*last, *old(last)),
            n == last@.len(),
            i <= n,
            forall|k: int|
                0 <= k < i ==> cells_blended(
                    old(last)@[k]@,
                    sums@[k]@,
                    scale,
                    momentum,
                    #[trigger] last@[k]@,
                ),
            forall|k: int| i <= k < n ==> #[trigger] last@[k] == old(last)@[k],
        decreases n - i,
    {
        let summed = &sums[i];
        let cell = |r: usize, c: usize, x: T| -> (v: T)
            requires
                summed.wf(),
                r < summed.rows && c < summed.cols,
            ensures
                is_blend(x, summed@.at(r as int, c as int), scale, momentum, v),
            {
                let gradient = summed.data[r][c].times(scale);
                let carried = x.times(momentum);
                let v = carried.plus(gradient);
                assert(blend_steps(
                    x,
                    summed@.at(r as int, c as int),
                    scale,
                    momentum,
                    gradient,
                    carried,
                    v,
                ));
                v
            };
        last[i].update_cells(cell);
        i = i + 1;
    }
    proof {
        let r = stack_view(*last);
        assert forall|k: int| 0 <= k < n implies cells_blended(
            stack_view(*old(last))[k],
            stack_view(*sums)[k],
            scale,
            momentum,
            #[trigger] r[k],
        ) by {
            assert(cells_blended(old(last)@[k]@, sums@[k]@, scale, momentum, last@[k]@));
        }
    }
}

/// In a pass, every signal has as many rows as the first one.
pub proof fn lemma_signal_rows<T: Scalar>(model: Model<T>, signals: Seq<Grid<T>>, i: int)
    requires
        signals_follow(model, signals),
        model.activations.len() == model.weights.len() + 1,
        0 <= i < signals.len(),
    ensures
        signals[i].rows == signals[0].rows,
    decreases i,
{
    if i > 0 {
        lemma_signal_rows(model, signals, i - 1);
        assert(link_fed(model, signals, i - 1));
        lemma_fed_shape(
            signals[i - 1],
            model.weights[i - 1],
            model.biases[i - 1],
            model.activations[i],
            signals[i],
        );
    }
}

/// The number of batches of an epoch: as few as will do when none holds more
/// than `batch_size` rows.
pub open spec fn batch_count(rows: int, batch_size: int) -> int {
    rows / batch_size + if rows % batch_size != 0 { 1int } else { 0int }
}

impl<T: Scalar> Network<T> {
    /// What training carries along, for the current model and the given last
    /// updates.
    pub open spec fn trainee(&self, last_w: Vec<Matrix<T>>, last_b: Vec<Matrix<T>>) -> Trainee<T> {
        Trainee {
            model: self.model(),
            signals: self.signals(),
            last_weights: stack_view(last_w),
            last_biases: stack_view(last_b),
        }
    }

    /// What training carries from epoch to epoch, for the current model, the
    /// given last updates and the given tables.
    pub open spec fn course(
        &self,
        last_w: Vec<Matrix<T>>,
        last_b: Vec<Matrix<T>>,
        data: Grid<T>,
        labels: Grid<T>,
    ) -> Course<T> {
        Course { trainee: self.trainee(last_w, last_b), data, labels }
    }

    /// A stack of zero matrices, one of the shape of each connection's weights.
    fn zero_weights(&self) -> (r: Vec<Matrix<T>>)
        requires
            self.wf(),
        ensures
            stack_wf(r),
            stack_zero(stack_view(r), self.model().weights),
    {
        let zero = T::zero();
        let mut r: Vec<Matrix<T>> = Vec::new();
        let mut i: usize = 0;
        while i < self.num_connections
            invariant
                self.wf(),
                is_zero(zero),
                i <= self.num_connections,
                r@.len() == i,
                forall|k: int|
                    0 <= k < i ==> {
                        &&& (#[trigger] r@[k]).wf()
                        &&& r@[k].rows == self.connections@[k].weights.rows
                        &&& r@[k].cols == self.connections@[k].weights.cols
                        &&& all_zero(r@[k]@)
                    },
            decreases self.num_connections - i,
        {
            let like = &self.connections[i].weights;
            let m = Matrix::filled(like.rows, like.cols, zero);
            assert(all_zero(m@));
            r.push(m);
            i = i + 1;
        }
        proof {
            let v = stack_view(r);
            let like = self.model().weights;
            assert forall|k: int| 0 <= k < like.len() implies (#[trigger] v[k]).wf() && v[k].same_shape(
                like[k],
            ) && all_zero(v[k]) by {
                assert(r@[k].wf());
            }
        }
        r
    }

    /// A stack of zero matrices, one of the shape of each connection's bias.
    fn zero_biases(&self) -> (r: Vec<Matrix<T>>)
        requires
            self.wf(),
        ensures
            stack_wf(r),
            stack_zero(stack_view(r), self.model().biases),
    {
        let zero = T::zero();
        let mut r: Vec<Matrix<T>> = Vec::new();
        let mut i: usize = 0;
        while i < self.num_connections
            invariant
                self.wf(),
                is_zero(zero),
                i <= self.num_connections,
                r@.len() == i,
                forall|k: int|
                    0 <= k < i ==> {
                        &&& (#[trigger] r@[k]).wf()
                        &&& r@[k].rows == self.connections@[k].bias.rows
                        &&& r@[k].cols == self.connections@[k].bias.cols
                        &&& all_zero(r@[k]@)
                    },
            decreases self.num_connections - i,
        {
            let like = &self.connections[i].bias;
            let m = Matrix::filled(like.rows, like.cols, zero);
            assert(all_zero(m@));
            r.push(m);
            i = i + 1;
        }
        proof {
            let v = stack_view(r);
            let like = self.model().biases;
            assert forall|k: int| 0 <= k < like.len() implies (#[trigger] v[k]).wf() && v[k].same_shape(
                like[k],
            ) && all_zero(v[k]) by {
                assert(r@[k].wf());
            }
        }
        r
    }

    /// Takes the updates off the weights and the biases, cell by cell.
    fn descend(&mut self, updates_w: &Vec<Matrix<T>>, updates_b: &Vec<Matrix<T>>)
        requires
            old(self).wf(),
            stack_wf(*updates_w),
            stack_wf(*updates_b),
            stack_shaped(stack_view(*updates_w), old(self).model().weights),
            stack_shaped(stack_view(*updates_b), old(self).model().biases),
        ensures
            final(self).wf(),
            final(self).shape() == old(self).shape(),
            final(self).signals() == old(self).signals(),
            final(self).model().activations == old(self).model().activations,
            stack_difference(
                old(self).model().weights,
                stack_view(*updates_w),
                final(self).model().weights,
            ),
            stack_difference(
                old(self).model().biases,
                stack_view(*updates_b),
                final(self).model().biases,
            ),
    {
        let ghost before = old(self).model();
        let ghost uw = stack_view(*updates_w);
        let ghost ub = stack_view(*updates_b);
        let mut i: usize = 0;
        while i < self.num_connections
            invariant
                self.wf(),
                old(self).wf(),
                self.layers == old(self).layers,
                self.num_layers == old(self).num_layers,
                self.num_connections == old(self).num_connections,
                before == old(self).model(),
                uw == stack_view(*updates_w),
                ub == stack_view(*updates_b),
                stack_wf(*updates_w),
                stack_wf(*updates_b),
                stack_shaped(uw, before.weights),
                stack_shaped(ub, before.biases),
                i <= self.num_connections,
                forall|k: int|
                    0 <= k < i ==> cells_difference(
                        before.weights[k],
                        uw[k],
                        (#[trigger] self.connections@[k]).weights@,
                    ) && cells_difference(before.biases[k], ub[k], self.connections@[k].bias@),
                forall|k: int|
                    i <= k < self.num_connections ==> #[trigger] self.connections@[k] == old(
                        self,
                    ).connections@[k],
            decreases self.num_connections - i,
        {
            proof {
                assert(uw[i as int].wf() && uw[i as int].same_shape(before.weights[i as int]));
                assert(ub[i as int].wf() && ub[i as int].same_shape(before.biases[i as int]));
                assert(self.connections@[i as int] == old(self).connections@[i as int]);
            }
            subtract_from(&mut self.connections[i].weights, &updates_w[i]);
            subtract_from(&mut self.connections[i].bias, &updates_b[i]);
            i = i + 1;
        }
        proof {
            let after = self.model();
            assert(self.shape() =~= old(self).shape());
            assert(self.signals() =~= old(self).signals());
            assert(after.activations =~= before.activations);
            assert forall|k: int| 0 <= k < before.weights.len() implies cells_difference(
                before.weights[k],
                uw[k],
                #[trigger] after.weights[k],
            ) by {
                assert(cells_difference(before.weights[k], uw[k], self.connections@[k].weights@));
            }
            assert forall|k: int| 0 <= k < before.biases.len() implies cells_difference(
                before.biases[k],
                ub[k],
                #[trigger] after.biases[k],
            ) by {
                assert(cells_difference(before.biases[k], ub[k], self.connections@[k].bias@));
            }
        }
    }
}

impl<T: Scalar> Network<T> {
    /// Runs row `row` of `data` through the network, computes the gradients
    /// against row `row` of `labels`, and adds them to the running sums.
    fn accumulate_example(
        &mut self,
        data: &DataSet<T>,
        labels: &DataSet<T>,
        row: usize,
        sum_w: &mut Vec<Matrix<T>>,
        sum_b: &mut Vec<Matrix<T>>,
    )
        requires
            old(self).wf(),
            data.wf(),
            labels.wf(),
            row < data.rows,
            row < labels.rows,
            data.cols == old(self).input_size(),
            labels.cols == old(self).output_size(),
            stack_wf(*old(sum_w)),
            stack_wf(*old(sum_b)),
            stack_shaped(stack_view(*old(sum_w)), old(self).model().weights),
            stack_shaped(stack_view(*old(sum_b)), old(self).model().biases),
        ensures
            final(self).wf(),
            final(self).shape() == old(self).shape(),
            final(self).model() == old(self).model(),
            final(self).signals()[0] == data@.row(row as int),
            signals_follow(old(self).model(), final(self).signals()),
            stack_wf(*final(sum_w)),
            stack_wf(*final(sum_b)),
            stack_shaped(stack_view(*final(sum_w)), old(self).model().weights),
            stack_shaped(stack_view(*final(sum_b)), old(self).model().biases),
            exists|gw: Seq<Grid<T>>, gb: Seq<Grid<T>>| #[trigger]
                example_added(
                    old(self).model(),
                    data@.row(row as int),
                    labels@.row(row as int),
                    gw,
                    gb,
                    stack_view(*old(sum_w)),
                    stack_view(*old(sum_b)),
                    stack_view(*final(sum_w)),
                    stack_view(*final(sum_b)),
                ),
    {
        let ghost model = self.model();
        let example = row_table(data, row);
        let target = row_table(labels, row);
        self.forward_pass(example);
        proof {
            let signals = self.signals();
            assert forall|i: int| 0 <= i < self.num_layers implies (#[trigger] self.layers@[i]).input.rows
                == target.rows by {
                lemma_signal_rows(model, signals, i);
                assert(signals[i] == self.layers@[i].input@);
            }
        }
        let (gradients_w, gradients_b) = self.backpropagate(&target);
        proof {
            let gw = stack_view(gradients_w);
            let gb = stack_view(gradients_b);
            let pw = stack_view(*sum_w);
            let pb = stack_view(*sum_b);
            assert(example_steps(
                model,
                data@.row(row as int),
                labels@.row(row as int),
                self.signals(),
                gw,
                gb,
            ));
            assert forall|i: int| 0 <= i < gradients_w@.len() implies (#[trigger] gradients_w@[i]).rows
                == sum_w@[i].rows && gradients_w@[i].cols == sum_w@[i].cols by {
                assert(gw[i].same_shape(model.weights[i]));
                assert(pw[i].same_shape(model.weights[i]));
            }
            assert forall|i: int| 0 <= i < gradients_b@.len() implies (#[trigger] gradients_b@[i]).rows
                == sum_b@[i].rows && gradients_b@[i].cols == sum_b@[i].cols by {
                assert(pb[i].same_shape(model.biases[i]));
                assert(self.connections@[i].wf());
                assert(model.biases[i] == self.connections@[i].bias@);
            }
        }
        add_stack(&gradients_w, sum_w);
        add_stack(&gradients_b, sum_b);
        proof {
            let gw = stack_view(gradients_w);
            let gb = stack_view(gradients_b);
            let sw = stack_view(*sum_w);
            let sb = stack_view(*sum_b);
            let pw = stack_view(*old(sum_w));
            let pb = stack_view(*old(sum_b));
            assert forall|i: int| 0 <= i < model.weights.len() implies (#[trigger] sw[i]).wf()
                && sw[i].same_shape(model.weights[i]) by {
                assert(cells_sum(gw[i], pw[i], sw[i]));
                assert(gw[i].same_shape(model.weights[i]));
            }
            assert forall|i: int| 0 <= i < model.biases.len() implies (#[trigger] sb[i]).wf()
                && sb[i].same_shape(model.biases[i]) by {
                assert(cells_sum(gb[i], pb[i], sb[i]));
                assert(pb[i].same_shape(model.biases[i]));
            }
            assert(example_added(
                model,
                data@.row(row as int),
                labels@.row(row as int),
                gw,
                gb,
                pw,
                pb,
                sw,
                sb,
            ));
        }
    }

    /// Trains on one batch: the `size` rows from row `offset` on. The
    /// gradients of the rows are added up in `sum_w` and `sum_b`, blended
    /// into the last updates, and the new updates are taken off the weights
    /// and biases.
    pub fn train_batch(
        &mut self,
        data: &DataSet<T>,
        labels: &DataSet<T>,
        offset: usize,
        size: usize,
        scale: T,
        momentum: T,
        last_w: &mut Vec<Matrix<T>>,
        last_b: &mut Vec<Matrix<T>>,
        sum_w: &mut Vec<Matrix<T>>,
        sum_b: &mut Vec<Matrix<T>>,
    )
        requires
            old(self).wf(),
            data.wf(),
            labels.wf(),
            data.rows == labels.rows,
            offset + size <= data.rows,
            data.cols == old(self).input_size(),
            labels.cols == old(self).output_size(),
            stack_wf(*old(last_w)),
            stack_wf(*old(last_b)),
            stack_wf(*old(sum_w)),
            stack_wf(*old(sum_b)),
            stack_shaped(stack_view(*old(last_w)), old(self).model().weights),
            stack_shaped(stack_view(*old(last_b)), old(self).model().biases),
            stack_shaped(stack_view(*old(sum_w)), old(self).model().weights),
            stack_shaped(stack_view(*old(sum_b)), old(self).model().biases),
        ensures
            final(self).wf(),
            final(self).shape() == old(self).shape(),
            stack_wf(*final(last_w)),
            stack_wf(*final(last_b)),
            stack_wf(*final(sum_w)),
            stack_wf(*final(sum_b)),
            stack_shaped(stack_view(*final(last_w)), final(self).model().weights),
            stack_shaped(stack_view(*final(last_b)), final(self).model().biases),
            stack_shaped(stack_view(*final(sum_w)), final(self).model().weights),
            stack_shaped(stack_view(*final(sum_b)), final(self).model().biases),
            batch_steps(
                old(self).trainee(*old(last_w), *old(last_b)),
                data@,
                labels@,
                offset as int,
                size as nat,
                scale,
                momentum,
                stack_view(*final(sum_w)),
                stack_view(*final(sum_b)),
                final(self).trainee(*final(last_w), *final(last_b)),
            ),
    {
        let ghost model = self.model();
        clear_stack(sum_w);
        clear_stack(sum_b);
        proof {
            let zw = stack_view(*sum_w);
            let zb = stack_view(*sum_b);
            let ow = stack_view(*old(sum_w));
            let ob = stack_view(*old(sum_b));
            assert forall|i: int| 0 <= i < model.weights.len() implies (#[trigger] zw[i]).wf()
                && zw[i].same_shape(model.weights[i]) && all_zero(zw[i]) by {
                assert(ow[i].same_shape(model.weights[i]));
            }
            assert forall|i: int| 0 <= i < model.biases.len() implies (#[trigger] zb[i]).wf()
                && zb[i].same_shape(model.biases[i]) && all_zero(zb[i]) by {
                assert(ob[i].same_shape(model.biases[i]));
            }
        }
        let mut r: usize = 0;
        while r < size
            invariant
                self.wf(),
                self.shape() == old(self).shape(),
                self.model() == model,
                model == old(self).model(),
                data.wf(),
                labels.wf(),
                data.rows == labels.rows,
                offset + size <= data.rows,
                old(self).wf(),
                data.cols == old(self).input_size(),
                labels.cols == old(self).output_size(),
                stack_wf(*sum_w),
                stack_wf(*sum_b),
                stack_shaped(stack_view(*sum_w), model.weights),
                stack_shaped(stack_view(*sum_b), model.biases),
                r <= size,
                r == 0 ==> self.signals() == old(self).signals(),
                r > 0 ==> self.signals()[0] == data@.row(offset + r - 1) && signals_follow(
                    model,
                    self.signals(),
                ),
                sums_upto(
                    model,
                    data@,
                    labels@,
                    offset as int,
                    r as nat,
                    stack_view(*sum_w),
                    stack_view(*sum_b),
                ),
            decreases size - r,
        {
            let ghost pw = stack_view(*sum_w);
            let ghost pb = stack_view(*sum_b);
            let ghost shape = self.shape();
            proof {
                lemma_same_shape(self, old(self));
            }
            self.accumulate_example(data, labels, offset + r, sum_w, sum_b);
            proof {
                let n = (r + 1) as nat;
                assert((n - 1) as nat == r as nat);
                assert(offset + n - 1 == offset + r);
                let sw = stack_view(*sum_w);
                let sb = stack_view(*sum_b);
                let (gw, gb) = choose|gw: Seq<Grid<T>>, gb: Seq<Grid<T>>| #[trigger]
                    example_added(
                        model,
                        data@.row((offset + r) as int),
                        labels@.row((offset + r) as int),
                        gw,
                        gb,
                        pw,
                        pb,
                        sw,
                        sb,
                    );
                assert(example_added(
                    model,
                    data@.row(offset + n - 1),
                    labels@.row(offset + n - 1),
                    gw,
                    gb,
                    pw,
                    pb,
                    sw,
                    sb,
                ));
                assert(self.shape() == shape);
            }
            r = r + 1;
        }
        proof {
            let lw = stack_view(*last_w);
            let sw = stack_view(*sum_w);
            assert forall|i: int| 0 <= i < last_w@.len() implies (#[trigger] last_w@[i]).rows
                == sum_w@[i].rows && last_w@[i].cols == sum_w@[i].cols by {
                assert(lw[i].same_shape(model.weights[i]));
                assert(sw[i].same_shape(model.weights[i]));
            }
            let lb = stack_view(*last_b);
            let sb = stack_view(*sum_b);
            assert forall|i: int| 0 <= i < last_b@.len() implies (#[trigger] last_b@[i]).rows
                == sum_b@[i].rows && last_b@[i].cols == sum_b@[i].cols by {
                assert(lb[i].same_shape(model.biases[i]));
                assert(sb[i].same_shape(model.biases[i]));
            }
        }
        blend_stack(last_w, sum_w, scale, momentum);
        blend_stack(last_b, sum_b, scale, momentum);
        proof {
            let uw = stack_view(*last_w);
            let ow = stack_view(*old(last_w));
            assert forall|i: int| 0 <= i < model.weights.len() implies (#[trigger] uw[i]).wf()
                && uw[i].same_shape(model.weights[i]) by {
                assert(cells_blended(ow[i], stack_view(*sum_w)[i], scale, momentum, uw[i]));
                assert(ow[i].same_shape(model.weights[i]));
            }
            let ub = stack_view(*last_b);
            let ob = stack_view(*old(last_b));
            assert forall|i: int| 0 <= i < model.biases.len() implies (#[trigger] ub[i]).wf()
                && ub[i].same_shape(model.biases[i]) by {
                assert(cells_blended(ob[i], stack_view(*sum_b)[i], scale, momentum, ub[i]));
                assert(ob[i].same_shape(model.biases[i]));
            }
        }
        self.descend(last_w, last_b);
        proof {
            let after = self.model();
            let uw = stack_view(*last_w);
            let ub = stack_view(*last_b);
            let sw = stack_view(*sum_w);
            let sb = stack_view(*sum_b);
            assert forall|i: int| 0 <= i < after.weights.len() implies (#[trigger] uw[i]).wf()
                && uw[i].same_shape(after.weights[i]) by {
                assert(cells_difference(model.weights[i], uw[i], after.weights[i]));
                assert(uw[i].same_shape(model.weights[i]));
            }
            assert forall|i: int| 0 <= i < after.biases.len() implies (#[trigger] ub[i]).wf()
                && ub[i].same_shape(after.biases[i]) by {
                assert(cells_difference(model.biases[i], ub[i], after.biases[i]));
                assert(ub[i].same_shape(model.biases[i]));
            }
            assert forall|i: int| 0 <= i < after.weights.len() implies (#[trigger] sw[i]).wf()
                && sw[i].same_shape(after.weights[i]) by {
                assert(cells_difference(model.weights[i], uw[i], after.weights[i]));
                assert(sw[i].same_shape(model.weights[i]));
            }
            assert forall|i: int| 0 <= i < after.biases.len() implies (#[trigger] sb[i]).wf()
                && sb[i].same_shape(after.biases[i]) by {
                assert(cells_difference(model.biases[i], ub[i], after.biases[i]));
                assert(sb[i].same_shape(model.biases[i]));
            }
        }
    }
}

impl<T> ParameterSet<T> {
    /// What stays the same over the training run that these settings ask for.
    pub open spec fn schedule(&self) -> Schedule<T> {
        Schedule {
            learning_rate: self.learning_rate,
            search_time: self.search_time,
            momentum: self.momentum,
            batches: batch_count(self.dataset.rows as int, self.batch_size as int) as nat,
            shuffle: self.shuffle,
        }
    }

    /// The settings are those of `other`; the tables may be others.
    pub open spec fn same_settings(&self, other: &ParameterSet<T>) -> bool {
        &&& self.loss == other.loss
        &&& self.batch_size == other.batch_size
        &&& self.learning_rate == other.learning_rate
        &&& self.search_time == other.search_time
        &&& self.regularization == other.regularization
        &&& self.momentum == other.momentum
        &&& self.max_iters == other.max_iters
        &&& self.shuffle == other.shuffle
        &&& self.verbose == other.verbose
        &&& self.dataset.rows == other.dataset.rows
        &&& self.dataset.cols == other.dataset.cols
        &&& self.classes.rows == other.classes.rows
        &&& self.classes.cols == other.classes.cols
    }
}

/// The number of batches is at least one and at most the number of rows.
pub proof fn lemma_batch_count_bounds(rows: int, batch_size: int)
    requires
        0 < batch_size <= rows,
    ensures
        1 <= batch_count(rows, batch_size) <= rows,
{
    assert(1 <= rows / batch_size <= rows && 0 <= rows % batch_size < batch_size && rows
        == batch_size * (rows / batch_size) + rows % batch_size) by (nonlinear_arith)
        requires
            0 < batch_size <= rows,
    ;
    if rows % batch_size != 0 {
        assert(batch_size >= 2);
        assert(rows / batch_size + 1 <= rows) by (nonlinear_arith)
            requires
                2 <= batch_size <= rows,
                rows == batch_size * (rows / batch_size) + rows % batch_size,
                0 < rows % batch_size,
                1 <= rows / batch_size,
        ;
    }
}

impl<T: Scalar> Network<T> {
    /// Trains the network: `max_iters` epochs over the dataset. Before each
    /// epoch the rows are shuffled if the settings say so, examples and
    /// labels alike; then the rows are dealt to batches and every batch is
    /// trained on in turn.
    pub fn batch_gradient_descent(&mut self, params: &mut ParameterSet<T>)
        requires
            old(self).wf(),
            old(params).dataset.wf(),
            old(params).classes.wf(),
            old(self).input_size() == old(params).dataset.cols,
            old(params).dataset.rows == old(params).classes.rows,
            old(self).output_size() == old(params).classes.cols,
            0 < old(params).batch_size <= old(params).dataset.rows,
            old(params).max_iters >= 1,
        ensures
            final(self).wf(),
            final(self).shape() == old(self).shape(),
            final(params).dataset.wf(),
            final(params).classes.wf(),
            final(params).same_settings(old(params)),
            is_trained(
                old(self).model(),
                old(self).signals(),
                old(params).dataset@,
                old(params).classes@,
                old(params).schedule(),
                old(params).max_iters as nat,
                final(self).model(),
                final(self).signals(),
                final(params).dataset@,
                final(params).classes@,
            ),
    {
        let rows = params.dataset.rows;
        proof {
            lemma_batch_count_bounds(rows as int, params.batch_size as int);
        }
        let whole = rows / params.batch_size;
        let num_batches = if rows % params.batch_size != 0 {
            whole + 1
        } else {
            whole
        };
        let ghost schedule = params.schedule();
        let mut last_w = self.zero_weights();
        let mut last_b = self.zero_biases();
        let mut sum_w = self.zero_weights();
        let mut sum_b = self.zero_biases();
        let ghost start = self.course(last_w, last_b, params.dataset@, params.classes@);
        let mut done: usize = 0;
        while done < params.max_iters
            invariant
                self.wf(),
                old(self).wf(),
                self.shape() == old(self).shape(),
                params.dataset.wf(),
                params.classes.wf(),
                params.same_settings(old(params)),
                rows == params.dataset.rows,
                rows == params.classes.rows,
                old(self).input_size() == params.dataset.cols,
                old(self).output_size() == params.classes.cols,
                1 <= num_batches <= rows,
                num_batches == schedule.batches,
                schedule == old(params).schedule(),
                stack_wf(last_w),
                stack_wf(last_b),
                stack_wf(sum_w),
                stack_wf(sum_b),
                stack_shaped(stack_view(last_w), self.model().weights),
                stack_shaped(stack_view(last_b), self.model().biases),
                stack_shaped(stack_view(sum_w), self.model().weights),
                stack_shaped(stack_view(sum_b), self.model().biases),
                done <= params.max_iters,
                start.trainee.model == old(self).model(),
                start.trainee.signals == old(self).signals(),
                start.data == old(params).dataset@,
                start.labels == old(params).classes@,
                stack_zero(start.trainee.last_weights, start.trainee.model.weights),
                stack_zero(start.trainee.last_biases, start.trainee.model.biases),
                epochs_upto(
                    start,
                    schedule,
                    done as nat,
                    self.course(last_w, last_b, params.dataset@, params.classes@),
                ),
            decreases params.max_iters - done,
        {
            let epoch = done + 1;
            let ghost before = self.course(last_w, last_b, params.dataset@, params.classes@);
            let ghost mut p: Seq<int> = Seq::empty();
            if params.shuffle {
                shuffle_together(&mut params.dataset, &mut params.classes);
                proof {
                    p = choose|p: Seq<int>|
                        {
                            &&& is_permutation(p, before.data.rows)
                            &&& #[trigger] rows_rearranged(before.data, params.dataset@, p)
                            &&& rows_rearranged(before.labels, params.classes@, p)
                        };
                }
            }
            assert(is_arranged(
                schedule.shuffle,
                before.data,
                before.labels,
                p,
                params.dataset@,
                params.classes@,
            ));
            let batches = create_batches(&params.dataset, num_batches);
            let mut k: usize = 0;
            while k < num_batches
                invariant
                    self.wf(),
                    old(self).wf(),
                    self.shape() == old(self).shape(),
                    params.dataset.wf(),
                    params.classes.wf(),
                    rows == params.dataset.rows,
                    rows == params.classes.rows,
                    old(self).input_size() == params.dataset.cols,
                    old(self).output_size() == params.classes.cols,
                    num_batches == schedule.batches,
                    schedule.learning_rate == params.learning_rate,
                    schedule.search_time == params.search_time,
                    schedule.momentum == params.momentum,
                    epoch == done + 1,
                    batches@.len() == num_batches,
                    forall|i: int|
                        0 <= i < num_batches ==> {
                            &&& (#[trigger] batches@[i]).size == batch_size(
                                rows as int,
                                num_batches as int,
                                i,
                            )
                            &&& batches@[i].offset == batch_offset(rows as int, num_batches as int, i)
                            &&& batches@[i].offset + batches@[i].size <= rows
                        },
                    stack_wf(last_w),
                    stack_wf(last_b),
                    stack_wf(sum_w),
                    stack_wf(sum_b),
                    stack_shaped(stack_view(last_w), self.model().weights),
                    stack_shaped(stack_view(last_b), self.model().biases),
                    stack_shaped(stack_view(sum_w), self.model().weights),
                    stack_shaped(stack_view(sum_b), self.model().biases),
                    k <= num_batches,
                    batches_upto(
                        before.trainee,
                        params.dataset@,
                        params.classes@,
                        schedule,
                        epoch,
                        k as nat,
                        self.trainee(last_w, last_b),
                    ),
                decreases num_batches - k,
            {
                let ghost mid = self.trainee(last_w, last_b);
                proof {
                    lemma_same_shape(self, old(self));
                }
                let scale = step_scale(params.learning_rate, params.search_time, epoch, rows);
                let offset = batches[k].offset;
                let size = batches[k].size;
                self.train_batch(
                    &params.dataset,
                    &params.classes,
                    offset,
                    size,
                    scale,
                    params.momentum,
                    &mut last_w,
                    &mut last_b,
                    &mut sum_w,
                    &mut sum_b,
                );
                proof {
                    let n = (k + 1) as nat;
                    assert((n - 1) as nat == k as nat);
                    let after = self.trainee(last_w, last_b);
                    assert(params.dataset@.rows as usize == rows);
                    assert(batch_link(
                        mid,
                        params.dataset@,
                        params.classes@,
                        schedule,
                        epoch,
                        n - 1,
                        scale,
                        stack_view(sum_w),
                        stack_view(sum_b),
                        after,
                    ));
                    assert(is_batch_trained(
                        mid,
                        params.dataset@,
                        params.classes@,
                        schedule,
                        epoch,
                        n - 1,
                        after,
                    ));
                }
                k = k + 1;
            }
            proof {
                let n = (done + 1) as nat;
                assert((n - 1) as nat == done as nat);
                let after = self.course(last_w, last_b, params.dataset@, params.classes@);
                assert(epoch_steps(before, schedule, epoch, p, after));
                assert(n as usize == epoch);
                assert(is_epoch_trained(before, schedule, n as usize, after));
            }
            done = done + 1;
        }
        proof {
            let end = self.course(last_w, last_b, params.dataset@, params.classes@);
            assert(training_steps(start, schedule, params.max_iters as nat, end));
        }
    }
}

} // verus!
