//! Activations, their derivatives, their names, and the Gaussian sampler that
//! weights are drawn from.

use crate::dataset::Grid;
use crate::matrix::Matrix;
use crate::scalar::{
    is_cos, is_count, is_difference, is_exp, is_greater, is_ln, is_negation, is_one, is_pi,
    is_product, is_quotient, is_sin, is_sqrt, is_sum, is_tanh, is_zero, Scalar,
};
use vstd::prelude::*;

verus! {

/// The transform that a layer applies to its signal.
#[derive(Clone, Copy, Debug, PartialEq, Eq)]
pub enum Activation {
    Sigmoid,
    Relu,
    Tanh,
    Softmax,
    Linear,
}

/// The steps of the logistic function, `1 / (1 + e^-x)`.
pub open spec fn sigmoid_steps<T: Scalar>(x: T, neg: T, e: T, one: T, den: T, y: T) -> bool {
    &&& is_negation(x, neg)
    &&& is_exp(neg, e)
    &&& is_one(one)
    &&& is_sum(one, e, den)
    &&& is_quotient(one, den, y)
}

/// `y` is the logistic function of `x`.
pub open spec fn is_sigmoid<T: Scalar>(x: T, y: T) -> bool {
    exists|neg: T, e: T, one: T, den: T| #[trigger] sigmoid_steps(x, neg, e, one, den, y)
}

pub open spec fn sigmoid_slope_steps<T: Scalar>(y: T, one: T, rest: T, r: T) -> bool {
    &&& is_one(one)
    &&& is_difference(one, y, rest)
    &&& is_product(y, rest, r)
}

/// `r` is the slope of the logistic function where its value is `y`: `y (1 - y)`.
pub open spec fn is_sigmoid_slope<T: Scalar>(y: T, r: T) -> bool {
    exists|one: T, rest: T| #[trigger] sigmoid_slope_steps(y, one, rest, r)
}

pub open spec fn relu_steps<T: Scalar>(x: T, zero: T, y: T) -> bool {
    &&& is_zero(zero)
    &&& (is_greater(x, zero, true) && y == x) || (is_greater(x, zero, false) && y == zero)
}

/// `y` is `x` where `x` is greater than zero, and a zero elsewhere.
pub open spec fn is_relu<T: Scalar>(x: T, y: T) -> bool {
    exists|zero: T| #[trigger] relu_steps(x, zero, y)
}

pub open spec fn relu_slope_steps<T: Scalar>(y: T, zero: T, r: T) -> bool {
    &&& is_zero(zero)
    &&& (is_greater(y, zero, true) && is_one(r)) || (is_greater(y, zero, false) && r == zero)
}

/// `r` is the slope of the rectifier where its value is `y`: one above zero,
/// zero elsewhere.
pub open spec fn is_relu_slope<T: Scalar>(y: T, r: T) -> bool {
    exists|zero: T| #[trigger] relu_slope_steps(y, zero, r)
}

pub open spec fn tanh_slope_steps<T: Scalar>(y: T, square: T, one: T, r: T) -> bool {
    &&& is_product(y, y, square)
    &&& is_one(one)
    &&& is_difference(one, square, r)
}

/// `r` is the slope of the hyperbolic tangent where its value is `y`: `1 - y^2`.
pub open spec fn is_tanh_slope<T: Scalar>(y: T, r: T) -> bool {
    exists|square: T, one: T| #[trigger] tanh_slope_steps(y, square, one, r)
}

/// `1 / (1 + e^-x)`.
pub fn sigmoid_func<T: Scalar>(input: T) -> (r: T)
    ensures
        is_sigmoid(input, r),
{
    let one = T::one();
    let neg = input.negate();
    let e = neg.exp();
    let den = one.plus(e);
    let r = one.over(den);
    assert(sigmoid_steps(input, neg, e, one, den, r));
    r
}

/// The slope of the logistic function, from its value.
pub fn sigmoid_deriv<T: Scalar>(sigmoid_input: T) -> (r: T)
    ensures
        is_sigmoid_slope(sigmoid_input, r),
{
    let one = T::one();
    let rest = one.minus(sigmoid_input);
    let r = sigmoid_input.times(rest);
    assert(sigmoid_slope_steps(sigmoid_input, one, rest, r));
    r
}

/// The greater of `input` and zero.
pub fn relu_func<T: Scalar>(input: T) -> (r: T)
    ensures
        is_relu(input, r),
{
    let zero = T::zero();
    let r = if input.greater(zero) {
        input
    } else {
        zero
    };
    assert(relu_steps(input, zero, r));
    r
}

/// The slope of the rectifier, from its value.
pub fn relu_deriv<T: Scalar>(relu_input: T) -> (r: T)
    ensures
        is_relu_slope(relu_input, r),
{
    let zero = T::zero();
    let r = if relu_input.greater(zero) {
        T::one()
    } else {
        zero
    };
    assert(relu_slope_steps(relu_input, zero, r));
    r
}

/// The hyperbolic tangent.
pub fn tanh_func<T: Scalar>(input: T) -> (r: T)
    ensures
        is_tanh(input, r),
{
    input.tanh()
}

/// The slope of the hyperbolic tangent, from its value.
pub fn tanh_deriv<T: Scalar>(tanh_input: T) -> (r: T)
    ensures
        is_tanh_slope(tanh_input, r),
{
    let square = tanh_input.times(tanh_input);
    let one = T::one();
    let r = one.minus(square);
    assert(tanh_slope_steps(tanh_input, square, one, r));
    r
}

/// The slope of the identity: one, whatever the value.
pub fn linear_deriv<T: Scalar>(_linear_input: T) -> (r: T)
    ensures
        is_one(r),
{
    T::one()
}

/// `s` is `before` with the exponential `e` of `x` added.
pub open spec fn exp_added<T: Scalar>(before: T, x: T, e: T, s: T) -> bool {
    is_exp(x, e) && is_sum(before, e, s)
}

/// `s` is what adding the exponentials of the first `n` entries of `row` to a
/// zero gives, taken from left to right.
pub open spec fn exp_sum_upto<T: Scalar>(row: Seq<T>, n: nat, s: T) -> bool
    decreases n,
{
    if n == 0 {
        is_zero(s)
    } else {
        exists|before: T, e: T|
            {
                &&& #[trigger] exp_added(before, row[n - 1], e, s)
                &&& exp_sum_upto(row, (n - 1) as nat, before)
            }
    }
}

/// `y` is the exponential `e` of `x` divided by `total`.
pub open spec fn exp_share<T: Scalar>(x: T, total: T, e: T, y: T) -> bool {
    is_exp(x, e) && is_quotient(e, total, y)
}

/// `y` is the exponential of `x` divided by `total`.
pub open spec fn is_exp_share<T: Scalar>(x: T, total: T, y: T) -> bool {
    exists|e: T| #[trigger] exp_share(x, total, e, y)
}

/// `y` is what softmax makes of the row `x` when the exponentials add up to `total`.
pub open spec fn softmax_row_with<T: Scalar>(x: Seq<T>, y: Seq<T>, total: T) -> bool {
    &&& y.len() == x.len()
    &&& exp_sum_upto(x, x.len(), total)
    &&& forall|j: int| 0 <= j < x.len() ==> #[trigger] is_exp_share(x[j], total, y[j])
}

/// `y` is the softmax of the row `x`: every entry is its exponential divided
/// by the sum of the exponentials of the row.
pub open spec fn is_softmax_row<T: Scalar>(x: Seq<T>, y: Seq<T>) -> bool {
    exists|total: T| #[trigger] softmax_row_with(x, y, total)
}

/// `y` is what the activation makes of the signal `x`.
pub open spec fn is_activated<T: Scalar>(activation: Activation, x: Grid<T>, y: Grid<T>) -> bool {
    &&& y.wf()
    &&& y.same_shape(x)
    &&& match activation {
        Activation::Sigmoid => forall|i: int, j: int|
            0 <= i < x.rows && 0 <= j < x.cols ==> is_sigmoid(x.at(i, j), #[trigger] y.at(i, j)),
        Activation::Relu => forall|i: int, j: int|
            0 <= i < x.rows && 0 <= j < x.cols ==> is_relu(x.at(i, j), #[trigger] y.at(i, j)),
        Activation::Tanh => forall|i: int, j: int|
            0 <= i < x.rows && 0 <= j < x.cols ==> is_tanh(x.at(i, j), #[trigger] y.at(i, j)),
        Activation::Softmax => forall|i: int|
            0 <= i < x.rows ==> is_softmax_row(x.cells[i], #[trigger] y.cells[i]),
        Activation::Linear => y == x,
    }
}

/// `r` is the slope of the activation where its value is `y`. Softmax has no
/// slope of its own and is given that of the identity.
pub open spec fn is_slope<T: Scalar>(activation: Activation, y: T, r: T) -> bool {
    match activation {
        Activation::Sigmoid => is_sigmoid_slope(y, r),
        Activation::Relu => is_relu_slope(y, r),
        Activation::Tanh => is_tanh_slope(y, r),
        Activation::Softmax => is_one(r),
        Activation::Linear => is_one(r),
    }
}

/// Applies the logistic function to every cell.
pub fn sigmoid<T: Scalar>(input: &mut Matrix<T>)
    requires
        old(input).wf(),
    ensures
        final(input).wf(),
        is_activated(Activation::Sigmoid, old(input)@, final(input)@),
{
    let cell = |i: usize, j: usize, x: T| -> (v: T)
        ensures
            is_sigmoid(x, v),
        {
            let v = sigmoid_func(x);
            v
        };
    input.update_cells(cell);
}

/// Applies the rectifier to every cell.
pub fn relu<T: Scalar>(input: &mut Matrix<T>)
    requires
        old(input).wf(),
    ensures
        final(input).wf(),
        is_activated(Activation::Relu, old(input)@, final(input)@),
{
    let cell = |i: usize, j: usize, x: T| -> (v: T)
        ensures
            is_relu(x, v),
        {
            let v = relu_func(x);
            v
        };
    input.update_cells(cell);
}

/// Applies the hyperbolic tangent to every cell.
pub fn tanh<T: Scalar>(input: &mut Matrix<T>)
    requires
        old(input).wf(),
    ensures
        final(input).wf(),
        is_activated(Activation::Tanh, old(input)@, final(input)@),
{
    let cell = |i: usize, j: usize, x: T| -> (v: T)
        ensures
            is_tanh(x, v),
        {
            let v = tanh_func(x);
            v
        };
    input.update_cells(cell);
}

/// The sum of the exponentials of row `i`.
fn row_exp_sum<T: Scalar>(input: &Matrix<T>, i: usize) -> (total: T)
    requires
        input.wf(),
        i < input.rows,
    ensures
        exp_sum_upto(input@.cells[i as int], input.cols as nat, total),
{
    let ghost row = input@.cells[i as int];
    let mut total = T::zero();
    let mut j: usize = 0;
    while j < input.cols
        invariant
            input.wf(),
            i < input.rows,
            j <= input.cols,
            row == input@.cells[i as int],
            exp_sum_upto(row, j as nat, total),
        decreases input.cols - j,
    {
        let e = input.data[i][j].exp();
        let next = total.plus(e);
        proof {
            let ghost n = (j + 1) as nat;
            assert((n - 1) as nat == j as nat);
            assert(row[n - 1] == input.data@[i as int]@[j as int]);
            assert(exp_added(total, row[n - 1], e, next));
        }
        total = next;
        j = j + 1;
    }
    total
}

/// Turns every row into a distribution: each cell becomes its exponential
/// divided by the sum of the exponentials of its row.
pub fn softmax<T: Scalar>(input: &mut Matrix<T>)
    requires
        old(input).wf(),
    ensures
        final(input).wf(),
        is_activated(Activation::Softmax, old(input)@, final(input)@),
{
    let mut totals: Vec<T> = Vec::new();
    let mut i: usize = 0;
    while i < input.rows
        invariant
            input.wf(),
            *input == *old(input),
            i <= input.rows,
            totals@.len() == i,
            forall|k: int|
                0 <= k < i ==> exp_sum_upto(
                    input@.cells[k],
                    input.cols as nat,
                    #[trigger] totals@[k],
                ),
        decreases input.rows - i,
    {
        let total = row_exp_sum(input, i);
        totals.push(total);
        i = i + 1;
    }
    let cell = |i: usize, j: usize, x: T| -> (v: T)
        requires
            i < totals@.len(),
        ensures
            is_exp_share(x, totals@[i as int], v),
        {
            let e = x.exp();
            let v = e.over(totals[i]);
            assert(exp_share(x, totals@[i as int], e, v));
            v
        };
    input.update_cells(cell);
    assert forall|i: int| 0 <= i < input.rows implies is_softmax_row(
        old(input)@.cells[i],
        #[trigger] input@.cells[i],
    ) by {
        let x = old(input)@.cells[i];
        let y = input@.cells[i];
        assert forall|j: int| 0 <= j < x.len() implies #[trigger] is_exp_share(
            x[j],
            totals@[i],
            y[j],
        ) by {
            assert(y[j] == input@.at(i, j));
            assert(x[j] == old(input)@.at(i, j));
        }
        assert(softmax_row_with(x, y, totals@[i]));
    }
}

/// The identity: leaves the signal as it is.
pub fn linear<T: Scalar>(input: &mut Matrix<T>)
    requires
        old(input).wf(),
    ensures
        final(input).wf(),
        is_activated(Activation::Linear, old(input)@, final(input)@),
{
}

/// The name an activation goes by.
pub open spec fn name_of(activation: Activation) -> Seq<char> {
    match activation {
        Activation::Sigmoid => "sigmoid"@,
        Activation::Relu => "relu"@,
        Activation::Tanh => "tanh"@,
        Activation::Softmax => "softmax"@,
        Activation::Linear => "linear"@,
    }
}

/// The activation that a name selects. A name that is none of the four known
/// ones selects the identity.
pub open spec fn activation_named(name: Seq<char>) -> Activation {
    if name == "sigmoid"@ {
        Activation::Sigmoid
    } else if name == "relu"@ {
        Activation::Relu
    } else if name == "tanh"@ {
        Activation::Tanh
    } else if name == "softmax"@ {
        Activation::Softmax
    } else {
        Activation::Linear
    }
}

/// Looking an activation up by its own name gives it back.
pub proof fn lemma_name_selects_its_activation(activation: Activation)
    ensures
        activation_named(name_of(activation)) == activation,
{
    reveal_strlit("sigmoid");
    reveal_strlit("relu");
    reveal_strlit("tanh");
    reveal_strlit("softmax");
    reveal_strlit("linear");
    assert("sigmoid"@.len() == 7 && "relu"@.len() == 4 && "tanh"@.len() == 4 && "softmax"@.len()
        == 7 && "linear"@.len() == 6);
    assert("relu"@[0] == 'r' && "tanh"@[0] == 't');
    assert("sigmoid"@[1] == 'i' && "softmax"@[1] == 'o');
}

/// The name of an activation.
pub fn get_function_name(func: Activation) -> (name: String)
    ensures
        name@ == name_of(func),
{
    match func {
        Activation::Sigmoid => "sigmoid".to_owned(),
        Activation::Relu => "relu".to_owned(),
        Activation::Tanh => "tanh".to_owned(),
        Activation::Softmax => "softmax".to_owned(),
        Activation::Linear => "linear".to_owned(),
    }
}

/// The activation with the given name; the identity for an unknown name.
pub fn get_function_by_name(name: &str) -> (func: Activation)
    ensures
        func == activation_named(name@),
{
    let name = name.to_owned();
    if name == "sigmoid".to_owned() {
        Activation::Sigmoid
    } else if name == "relu".to_owned() {
        Activation::Relu
    } else if name == "tanh".to_owned() {
        Activation::Tanh
    } else if name == "softmax".to_owned() {
        Activation::Softmax
    } else {
        Activation::Linear
    }
}

/// The slope of an activation where its value is `output`.
pub fn activation_derivative<T: Scalar>(func: Option<Activation>, output: T) -> (r: T)
    requires
        func is Some,
    ensures
        is_slope(func->0, output, r),
{
    match func {
        Some(Activation::Sigmoid) => sigmoid_deriv(output),
        Some(Activation::Relu) => relu_deriv(output),
        Some(Activation::Tanh) => tanh_deriv(output),
        _ => linear_deriv(output),
    }
}

/// Applies an activation to a signal, in place.
pub fn apply_activation<T: Scalar>(activation: Activation, input: &mut Matrix<T>)
    requires
        old(input).wf(),
    ensures
        final(input).wf(),
        is_activated(activation, old(input)@, final(input)@),
{
    match activation {
        Activation::Sigmoid => sigmoid(input),
        Activation::Relu => relu(input),
        Activation::Tanh => tanh(input),
        Activation::Softmax => softmax(input),
        Activation::Linear => linear(input),
    }
}

/// A source of numbers spread evenly between zero and one. Nothing is asked
/// of the numbers it hands out.
pub trait Uniform<T> {
    fn draw(&mut self) -> T;
}

/// The memory of the Gaussian sampler: the second sample of the last pair,
/// until it has been handed out.
pub struct BoxMuller<T> {
    pub spare: Option<T>,
}

/// The steps of the Box-Muller transform of the pair `(u1, u2)`: the radius
/// is `sqrt(-2 ln u1)`, the angle `2 pi u2`, and the two samples are the
/// radius times the cosine and times the sine of the angle.
pub open spec fn gaussian_steps<T: Scalar>(
    u1: T,
    u2: T,
    two: T,
    neg_two: T,
    log: T,
    scaled: T,
    radius: T,
    pi: T,
    two_pi: T,
    angle: T,
    cos: T,
    sin: T,
    z0: T,
    z1: T,
) -> bool {
    &&& is_count(2, two)
    &&& is_negation(two, neg_two)
    &&& is_ln(u1, log)
    &&& is_product(neg_two, log, scaled)
    &&& is_sqrt(scaled, radius)
    &&& is_pi(pi)
    &&& is_product(two, pi, two_pi)
    &&& is_product(two_pi, u2, angle)
    &&& is_cos(angle, cos)
    &&& is_sin(angle, sin)
    &&& is_product(radius, cos, z0)
    &&& is_product(radius, sin, z1)
}

/// `(z0, z1)` is the Box-Muller transform of `(u1, u2)`.
pub open spec fn is_gaussian_pair<T: Scalar>(u1: T, u2: T, z0: T, z1: T) -> bool {
    exists|
        two: T,
        neg_two: T,
        log: T,
        scaled: T,
        radius: T,
        pi: T,
        two_pi: T,
        angle: T,
        cos: T,
        sin: T,
    | #[trigger]
        gaussian_steps(u1, u2, two, neg_two, log, scaled, radius, pi, two_pi, angle, cos, sin, z0, z1)
}

/// Turns two uniform numbers into two standard normal samples.
pub fn gaussian_pair<T: Scalar>(u1: T, u2: T) -> (pair: (T, T))
    ensures
        is_gaussian_pair(u1, u2, pair.0, pair.1),
{
    let two = T::from_count(2);
    let neg_two = two.negate();
    let log = u1.ln();
    let scaled = neg_two.times(log);
    let radius = scaled.sqrt();
    let pi = T::pi();
    let two_pi = two.times(pi);
    let angle = two_pi.times(u2);
    let cos = angle.cos();
    let sin = angle.sin();
    let z0 = radius.times(cos);
    let z1 = radius.times(sin);
    assert(gaussian_steps(
        u1,
        u2,
        two,
        neg_two,
        log,
        scaled,
        radius,
        pi,
        two_pi,
        angle,
        cos,
        sin,
        z0,
        z1,
    ));
    (z0, z1)
}

impl<T: Scalar> BoxMuller<T> {
    /// A sampler that holds no sample yet.
    pub fn new() -> (r: Self)
        ensures
            r.spare is None,
    {
        BoxMuller { spare: None }
    }
}

/// `sample` and `spare` are a pair that the Box-Muller transform makes of some
/// two numbers.
pub open spec fn is_fresh_pair<T: Scalar>(sample: T, spare: T) -> bool {
    exists|u1: T, u2: T| #[trigger] is_gaussian_pair(u1, u2, sample, spare)
}

/// One call of the sampler hands out `sample` and takes the sampler's memory
/// from `before` to `after`: a spare sample is handed out and forgotten;
/// without one, `sample` and the new spare are a fresh pair.
pub open spec fn is_sampled<T: Scalar>(before: Option<T>, sample: T, after: Option<T>) -> bool {
    match before {
        Some(kept) => sample == kept && after is None,
        None => after is Some && is_fresh_pair(sample, after->0),
    }
}

/// The first `n` entries of `samples` are what `n` calls of the sampler hand
/// out in turn, taking its memory from `start` to `end`.
pub open spec fn is_sample_run<T: Scalar>(
    start: Option<T>,
    samples: Seq<T>,
    n: nat,
    end: Option<T>,
) -> bool
    decreases n,
{
    if n == 0 {
        end == start
    } else {
        exists|mid: Option<T>|
            {
                &&& #[trigger] is_sampled(mid, samples[n - 1], end)
                &&& is_sample_run(start, samples, (n - 1) as nat, mid)
            }
    }
}

/// The next standard normal sample. Where the sampler holds a spare one, that
/// is handed out and nothing is drawn; otherwise two numbers are drawn from
/// `source`, the first sample of their transform is handed out and the second
/// is kept.
pub fn box_muller<T: Scalar, U: Uniform<T>>(sampler: &mut BoxMuller<T>, source: &mut U) -> (r: T)
    ensures
        is_sampled(old(sampler).spare, r, final(sampler).spare),
{
    match sampler.spare {
        Some(kept) => {
            sampler.spare = None;
            kept
        },
        None => {
            let u1 = source.draw();
            let u2 = source.draw();
            let (z0, z1) = gaussian_pair(u1, u2);
            sampler.spare = Some(z1);
            z0
        },
    }
}

} // verus!
