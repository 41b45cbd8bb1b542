//! Backpropagation: the gradients of the weights and biases of every
//! connection, computed backwards from the difference between the output of a
//! pass and its target.

use crate::dataset::{DataSet, Grid};
use crate::function::{activation_derivative, is_slope, linear_deriv, Activation};
use crate::matrix::{cells_product, matrix_product, Matrix};
use crate::network::{Model, Network};
use crate::scalar::{is_one, Scalar};
use crate::stack::{cells_difference, difference, stack_shaped, stack_view, stack_wf};
use vstd::prelude::*;

verus! {

/// `r` is the slope of a layer's activation where its value is `y`. A layer
/// without activation has the slope of the identity.
pub open spec fn is_layer_slope<T: Scalar>(activation: Option<Activation>, y: T, r: T) -> bool {
    match activation {
        None => is_one(r),
        Some(a) => is_slope(a, y, r),
    }
}

/// `r` holds, cell by cell, the slope of the activation at the signal `y`.
pub open spec fn cells_slope<T: Scalar>(
    activation: Option<Activation>,
    y: Grid<T>,
    r: Grid<T>,
) -> bool {
    &&& r.wf()
    &&& r.same_shape(y)
    &&& forall|i: int, j: int|
        0 <= i < y.rows && 0 <= j < y.cols ==> is_layer_slope(
            activation,
            y.at(i, j),
            #[trigger] r.at(i, j),
        )
}

/// The steps from the error of one layer to the error of the layer before:
/// the error times the transposed weights, times the slope of the activation
/// at the signal, cell by cell.
pub open spec fn hidden_error_steps<T: Scalar>(
    weights: Grid<T>,
    activation: Option<Activation>,
    signal: Grid<T>,
    next_error: Grid<T>,
    back: Grid<T>,
    slopes: Grid<T>,
    error: Grid<T>,
) -> bool {
    &&& matrix_product(next_error, weights.transposed(), back)
    &&& cells_slope(activation, signal, slopes)
    &&& cells_product(back, slopes, error)
}

/// `error` is the error of a hidden layer with the given signal, where
/// `weights` lead on to a layer whose error is `next_error`.
pub open spec fn is_hidden_error<T: Scalar>(
    weights: Grid<T>,
    activation: Option<Activation>,
    signal: Grid<T>,
    next_error: Grid<T>,
    error: Grid<T>,
) -> bool {
    exists|back: Grid<T>, slopes: Grid<T>| #[trigger]
        hidden_error_steps(weights, activation, signal, next_error, back, slopes, error)
}

/// The error at the end of connection `i` comes from the error at the end of
/// connection `i + 1`.
pub open spec fn hidden_link<T: Scalar>(
    model: Model<T>,
    signals: Seq<Grid<T>>,
    errors: Seq<Grid<T>>,
    i: int,
) -> bool {
    is_hidden_error(
        model.weights[i + 1],
        model.activations[i + 1],
        signals[i + 1],
        errors[i + 1],
        errors[i],
    )
}

/// The gradient of the weights of connection `i` is the transposed signal
/// that enters the connection times the error at its end.
pub open spec fn weight_link<T: Scalar>(
    signals: Seq<Grid<T>>,
    errors: Seq<Grid<T>>,
    gradients: Seq<Grid<T>>,
    i: int,
) -> bool {
    matrix_product(signals[i].transposed(), errors[i], gradients[i])
}

/// `weight_gradients` and `bias_gradients` are what backpropagation makes of
/// the signals and the target: the error of the output layer is the output
/// minus the target, the error of every layer before it comes from the error
/// of the next, the gradient of a bias is the error at the end of its
/// connection, and the gradient of the weights is the transposed signal at
/// the start of the connection times that error.
pub open spec fn is_backpropagated<T: Scalar>(
    model: Model<T>,
    signals: Seq<Grid<T>>,
    target: Grid<T>,
    weight_gradients: Seq<Grid<T>>,
    bias_gradients: Seq<Grid<T>>,
) -> bool {
    &&& model.links() >= 1
    &&& weight_gradients.len() == model.links()
    &&& bias_gradients.len() == model.links()
    &&& cells_difference(signals[model.links() as int], target, bias_gradients[model.links() - 1])
    &&& forall|i: int|
        0 <= i < model.links() - 1 ==> #[trigger] hidden_link(model, signals, bias_gradients, i)
    &&& forall|i: int|
        0 <= i < model.links() ==> #[trigger] weight_link(
            signals,
            bias_gradients,
            weight_gradients,
            i,
        )
}

/// The slope of a layer's activation where its value is `output`.
fn layer_slope<T: Scalar>(activation: Option<Activation>, output: T) -> (r: T)
    ensures
        is_layer_slope(activation, output, r),
{
    match activation {
        None => linear_deriv(output),
        Some(_) => activation_derivative(activation, output),
    }
}

/// The slopes of a layer's activation at its signal, cell by cell.
fn slopes<T: Scalar>(activation: Option<Activation>, signal: &Matrix<T>) -> (r: Matrix<T>)
    requires
        signal.wf(),
    ensures
        r.wf(),
        cells_slope(activation, signal@, r@),
{
    let mut r = signal.copy();
    let cell = |i: usize, j: usize, x: T| -> (v: T)
        ensures
            is_layer_slope(activation, x, v),
        {
            let v = layer_slope(activation, x);
            v
        };
    r.update_cells(cell);
    r
}

impl<T: Scalar> Network<T> {
    /// The error at the end of connection `link`, from the error at the end
    /// of the connection after it.
    fn hidden_error(&self, link: usize, next_error: &Matrix<T>) -> (r: Matrix<T>)
        requires
            self.wf(),
            link + 1 < self.num_connections,
            next_error.wf(),
            next_error.cols == self.layers@[link + 2].size,
            next_error.rows == self.layers@[link + 1].input.rows,
        ensures
            r.wf(),
            r.rows == next_error.rows,
            r.cols == self.layers@[link + 1].size,
            is_hidden_error(
                self.model().weights[link + 1],
                self.model().activations[link + 1],
                self.signals()[link + 1],
                next_error@,
                r@,
            ),
    {
        let transposed = self.connections[link + 1].weights.transpose();
        let back = next_error.multiply(&transposed);
        let slopes = slopes(self.layers[link + 1].activation, &self.layers[link + 1].input);
        let r = back.hadamard(&slopes);
        assert(hidden_error_steps(
            self.model().weights[link + 1],
            self.model().activations[link + 1],
            self.signals()[link + 1],
            next_error@,
            back@,
            slopes@,
            r@,
        ));
        r
    }

    /// The gradients of one pass: for every connection the gradient of its
    /// weights and the gradient of its bias, computed backwards from the
    /// difference between the output and `target`.
    pub fn backpropagate(&self, target: &Matrix<T>) -> (gradients: (
        Vec<Matrix<T>>,
        Vec<Matrix<T>>,
    ))
        requires
            self.wf(),
            target.wf(),
            target.cols == self.output_size(),
            forall|i: int|
                0 <= i < self.num_layers ==> (#[trigger] self.layers@[i]).input.rows == target.rows,
        ensures
            stack_wf(gradients.0),
            stack_wf(gradients.1),
            stack_shaped(stack_view(gradients.0), self.model().weights),
            forall|i: int|
                0 <= i < self.num_connections ==> (#[trigger] gradients.1@[i]).rows == target.rows
                    && gradients.1@[i].cols == self.model().biases[i].cols,
            is_backpropagated(
                self.model(),
                self.signals(),
                target@,
                stack_view(gradients.0),
                stack_view(gradients.1),
            ),
    {
        let links = self.num_connections;
        let ghost model = self.model();
        let ghost signals = self.signals();
        let mut errors: Vec<Matrix<T>> = Vec::new();
        let mut i: usize = 0;
        while i < links
            invariant
                i <= links,
                errors@.len() == i,
            decreases links - i,
        {
            errors.push(DataSet { rows: 0, cols: 0, data: Vec::new() });
            i = i + 1;
        }
        let output_error = difference(&self.layers[links].input, target);
        errors[links - 1] = output_error;
        let mut i: usize = links - 1;
        while i > 0
            invariant
                self.wf(),
                links == self.num_connections,
                model == self.model(),
                signals == self.signals(),
                target.wf(),
                forall|k: int|
                    0 <= k < self.num_layers ==> (#[trigger] self.layers@[k]).input.rows
                        == target.rows,
                i < links,
                errors@.len() == links,
                forall|k: int|
                    i <= k < links ==> {
                        &&& (#[trigger] errors@[k]).wf()
                        &&& errors@[k].rows == target.rows
                        &&& errors@[k].cols == self.layers@[k + 1].size
                    },
                cells_difference(signals[links as int], target@, errors@[links - 1]@),
                forall|k: int|
                    i <= k < links - 1 ==> #[trigger] hidden_link(
                        model,
                        signals,
                        stack_view(errors),
                        k,
                    ),
            decreases i,
        {
            let ghost before = stack_view(errors);
            let error = self.hidden_error(i - 1, &errors[i]);
            errors[i - 1] = error;
            proof {
                let after = stack_view(errors);
                assert(forall|k: int| i <= k < links ==> after[k] == before[k]);
                assert(hidden_link(model, signals, after, i - 1));
                assert forall|k: int| i <= k < links - 1 implies #[trigger] hidden_link(
                    model,
                    signals,
                    after,
                    k,
                ) by {
                    assert(hidden_link(model, signals, before, k));
                }
            }
            i = i - 1;
        }
        let mut weight_gradients: Vec<Matrix<T>> = Vec::new();
        let mut i: usize = 0;
        while i < links
            invariant
                self.wf(),
                links == self.num_connections,
                model == self.model(),
                signals == self.signals(),
                forall|k: int|
                    0 <= k < self.num_layers ==> (#[trigger] self.layers@[k]).input.rows
                        == target.rows,
                errors@.len() == links,
                forall|k: int|
                    0 <= k < links ==> {
                        &&& (#[trigger] errors@[k]).wf()
                        &&& errors@[k].rows == target.rows
                        &&& errors@[k].cols == self.layers@[k + 1].size
                    },
                i <= links,
                weight_gradients@.len() == i,
                forall|k: int|
                    0 <= k < i ==> {
                        &&& (#[trigger] weight_gradients@[k]).wf()
                        &&& weight_gradients@[k]@.same_shape(model.weights[k])
                        &&& matrix_product(
                            signals[k].transposed(),
                            errors@[k]@,
                            weight_gradients@[k]@,
                        )
                    },
            decreases links - i,
        {
            let entering = self.layers[i].input.transpose();
            let gradient = entering.multiply(&errors[i]);
            weight_gradients.push(gradient);
            i = i + 1;
        }
        proof {
            let wg = stack_view(weight_gradients);
            let bg = stack_view(errors);
            assert forall|k: int| 0 <= k < model.links() implies #[trigger] weight_link(
                signals,
                bg,
                wg,
                k,
            ) by {
                assert(weight_gradients@[k].wf());
            }
            assert forall|k: int| 0 <= k < model.weights.len() implies (#[trigger] wg[k]).wf()
                && wg[k].same_shape(model.weights[k]) by {
                assert(weight_gradients@[k].wf());
            }
            assert forall|k: int| 0 <= k < links implies (#[trigger] errors@[k]).cols
                == model.biases[k].cols by {
                assert(self.connections@[k].wf());
            }
        }
        (weight_gradients, errors)
    }
}

} // verus!
