//! The network: an ordered stack of layers and the connections between
//! neighbours, with the forward pass, prediction and scoring.

use crate::dataset::{DataSet, Grid};
use crate::function::{is_activated, Activation, BoxMuller, Uniform};
use crate::layer::{create_connection, create_layer, is_drawn, Connection, Layer, LayerType};
use crate::matrix::{all_zero, matrix_product, rows_offset, Matrix};
use crate::scalar::{is_count, is_greater, is_one, is_quotient, is_same, Scalar};
use vstd::prelude::*;

verus! {

/// Layers `0..num_layers` and connections `0..num_connections`, where
/// connection `i` leads from layer `i` to layer `i + 1`.
pub struct Network<T> {
    pub num_layers: usize,
    pub layers: Vec<Layer<T>>,
    pub num_connections: usize,
    pub connections: Vec<Connection<T>>,
}

/// The loss that training is meant to bring down.
#[derive(Clone, Copy, Debug, PartialEq, Eq)]
pub enum LossFunction {
    CrossEntropy,
    MeanSquaredError,
}

/// What a training run works on and how: the examples and their one-hot
/// labels, the loss, the number of rows between two updates, the learning
/// rate and the divisor by which it is annealed (zero for no annealing), the
/// regularization and momentum coefficients, the number of epochs, and whether
/// the rows are shuffled before each epoch.
pub struct ParameterSet<T> {
    pub dataset: DataSet<T>,
    pub classes: DataSet<T>,
    pub loss: LossFunction,
    pub batch_size: usize,
    pub learning_rate: T,
    pub search_time: T,
    pub regularization: T,
    pub momentum: T,
    pub max_iters: usize,
    pub shuffle: bool,
    pub verbose: bool,
}

/// What a network computes with: the activation of every layer, and the
/// weights and the bias of every connection.
#[verifier::ext_equal]
pub struct Model<T> {
    pub activations: Seq<Option<Activation>>,
    pub weights: Seq<Grid<T>>,
    pub biases: Seq<Grid<T>>,
}

impl<T> Model<T> {
    /// The number of connections.
    pub open spec fn links(self) -> nat {
        self.weights.len()
    }

    /// There is one connection less than there are layers; every bias is a
    /// single row as wide as its weights, and every connection starts with as
    /// many units as the one before it ends with.
    pub open spec fn wf(self) -> bool {
        &&& self.activations.len() == self.weights.len() + 1
        &&& self.biases.len() == self.weights.len()
        &&& forall|i: int|
            0 <= i < self.weights.len() ==> {
                &&& (#[trigger] self.weights[i]).wf()
                &&& self.biases[i].wf()
                &&& self.biases[i].rows == 1
                &&& self.biases[i].cols == self.weights[i].cols
            }
        &&& forall|i: int|
            0 <= i < self.weights.len() - 1 ==> (#[trigger] self.weights[i]).cols == self.weights[i
                + 1].rows
    }
}

/// The steps from one layer's signal to the next: the product with the
/// weights, the bias added to every row, then the activation if there is one.
pub open spec fn fed_steps<T: Scalar>(
    signal: Grid<T>,
    weights: Grid<T>,
    bias: Grid<T>,
    activation: Option<Activation>,
    pre: Grid<T>,
    biased: Grid<T>,
    out: Grid<T>,
) -> bool {
    &&& matrix_product(signal, weights, pre)
    &&& rows_offset(pre, bias, biased)
    &&& match activation {
        None => out == biased,
        Some(a) => is_activated(a, biased, out),
    }
}

/// `out` is the signal that `signal` gives through a connection.
pub open spec fn is_fed<T: Scalar>(
    signal: Grid<T>,
    weights: Grid<T>,
    bias: Grid<T>,
    activation: Option<Activation>,
    out: Grid<T>,
) -> bool {
    exists|pre: Grid<T>, biased: Grid<T>| #[trigger]
        fed_steps(signal, weights, bias, activation, pre, biased, out)
}

/// Signal `i + 1` is what signal `i` gives through connection `i`.
pub open spec fn link_fed<T: Scalar>(model: Model<T>, signals: Seq<Grid<T>>, i: int) -> bool {
    is_fed(signals[i], model.weights[i], model.biases[i], model.activations[i + 1], signals[i + 1])
}

/// Every signal but the first is what the one before it gives through the
/// connection between them.
pub open spec fn signals_follow<T: Scalar>(model: Model<T>, signals: Seq<Grid<T>>) -> bool {
    &&& signals.len() == model.activations.len()
    &&& forall|i: int| 0 <= i < model.links() ==> #[trigger] link_fed(model, signals, i)
}

/// A signal that was fed through a connection has as many rows as the signal
/// it came from and as many columns as the weights.
pub proof fn lemma_fed_shape<T: Scalar>(
    signal: Grid<T>,
    weights: Grid<T>,
    bias: Grid<T>,
    activation: Option<Activation>,
    out: Grid<T>,
)
    requires
        is_fed(signal, weights, bias, activation, out),
    ensures
        out.wf(),
        out.rows == signal.rows,
        out.cols == weights.cols,
{
    let (pre, biased) = choose|pre: Grid<T>, biased: Grid<T>| #[trigger]
        fed_steps(signal, weights, bias, activation, pre, biased, out);
    assert(fed_steps(signal, weights, bias, activation, pre, biased, out));
}

/// Column `n - 1` is compared with the best column so far, `prev`, and wins
/// only where it is strictly greater.
pub open spec fn argmax_step<T: Scalar>(row: Seq<T>, n: nat, prev: int, best: int) -> bool {
    &&& 0 <= prev < n - 1
    &&& (is_greater(row[n - 1], row[prev], true) && best == n - 1) || (is_greater(
        row[n - 1],
        row[prev],
        false,
    ) && best == prev)
}

/// `best` is the column of the greatest of the first `n` entries of `row`,
/// found by comparing from left to right; of equal entries the leftmost wins.
pub open spec fn is_argmax_upto<T: Scalar>(row: Seq<T>, n: nat, best: int) -> bool
    decreases n,
{
    if n <= 1 {
        best == 0
    } else {
        exists|prev: int|
            {
                &&& #[trigger] argmax_step(row, n, prev, best)
                &&& is_argmax_upto(row, (n - 1) as nat, prev)
            }
    }
}

/// `picks` names, for every row of `output`, the column of its greatest entry.
pub open spec fn is_predicted<T: Scalar>(output: Grid<T>, picks: Seq<i32>) -> bool {
    &&& picks.len() == output.rows
    &&& forall|i: int|
        0 <= i < output.rows ==> {
            &&& 0 <= #[trigger] picks[i]
            &&& output.cols > 0 ==> picks[i] < output.cols
            &&& is_argmax_upto(output.cells[i], output.cols, picks[i] as int)
        }
}

/// The label in the picked column is compared with one, and the count goes
/// up where they are the same.
pub open spec fn hit_step<T: Scalar>(
    row: Seq<T>,
    pick: int,
    one: T,
    hit: bool,
    before: nat,
    count: nat,
) -> bool {
    is_same(row[pick], one, hit) && count == before + if hit { 1nat } else { 0nat }
}

/// `count` of the first `n` rows of `labels` hold `one` in the column that
/// `picks` names for them.
pub open spec fn hits_upto<T: Scalar>(
    labels: Grid<T>,
    picks: Seq<i32>,
    one: T,
    n: nat,
    count: nat,
) -> bool
    decreases n,
{
    if n == 0 {
        count == 0
    } else {
        exists|hit: bool, before: nat|
            {
                &&& #[trigger] hit_step(
                    labels.cells[n - 1],
                    picks[n - 1] as int,
                    one,
                    hit,
                    before,
                    count,
                )
                &&& hits_upto(labels, picks, one, (n - 1) as nat, before)
            }
    }
}

pub open spec fn score_steps<T: Scalar>(
    labels: Grid<T>,
    picks: Seq<i32>,
    one: T,
    hits: usize,
    hits_number: T,
    rows_number: T,
    r: T,
) -> bool {
    &&& is_one(one)
    &&& hits_upto(labels, picks, one, labels.rows, hits as nat)
    &&& is_count(hits, hits_number)
    &&& is_count(labels.rows as usize, rows_number)
    &&& is_quotient(hits_number, rows_number, r)
}

/// `r` is the share of the rows of the one-hot `labels` whose picked column
/// holds the one.
pub open spec fn is_score<T: Scalar>(labels: Grid<T>, picks: Seq<i32>, r: T) -> bool {
    exists|one: T, hits: usize, hits_number: T, rows_number: T| #[trigger]
        score_steps(labels, picks, one, hits, hits_number, rows_number, r)
}

/// The share of the rows of `classes` that hold a one in the column that
/// `predictions` names for them.
pub fn score<T: Scalar>(predictions: &Vec<i32>, classes: &Matrix<T>) -> (r: T)
    requires
        classes.wf(),
        predictions@.len() == classes.rows,
        forall|i: int| 0 <= i < classes.rows ==> 0 <= #[trigger] predictions@[i] < classes.cols,
    ensures
        is_score(classes@, predictions@, r),
{
    let one = T::one();
    let mut hits: usize = 0;
    let mut i: usize = 0;
    while i < classes.rows
        invariant
            classes.wf(),
            predictions@.len() == classes.rows,
            forall|k: int| 0 <= k < classes.rows ==> 0 <= #[trigger] predictions@[k] < classes.cols,
            i <= classes.rows,
            hits <= i,
            hits_upto(classes@, predictions@, one, i as nat, hits as nat),
        decreases classes.rows - i,
    {
        let pick = predictions[i] as usize;
        let hit = classes.data[i][pick].same(one);
        let ghost before = hits as nat;
        if hit {
            hits = hits + 1;
        }
        proof {
            let n = (i + 1) as nat;
            assert((n - 1) as nat == i as nat);
            assert(classes@.cells[n - 1][predictions@[n - 1] as int] == classes.data@[i as int]@[pick as int]);
            assert(hit_step(
                classes@.cells[n - 1],
                predictions@[n - 1] as int,
                one,
                hit,
                before,
                hits as nat,
            ));
        }
        i = i + 1;
    }
    let hits_number = T::from_count(hits);
    let rows_number = T::from_count(classes.rows);
    let r = hits_number.over(rows_number);
    assert(score_steps(classes@, predictions@, one, hits, hits_number, rows_number, r));
    r
}

impl<T> Network<T> {
    /// The counts agree with the storage, the first layer is the input layer
    /// and the last the output layer, every signal is as wide as its layer,
    /// and every connection fits the two layers that it joins.
    pub open spec fn wf(&self) -> bool {
        &&& self.num_layers >= 2
        &&& self.layers@.len() == self.num_layers
        &&& self.num_connections == self.num_layers - 1
        &&& self.connections@.len() == self.num_connections
        &&& self.layers@[0].layer_type == LayerType::INPUT
        &&& self.layers@[self.num_layers - 1].layer_type == LayerType::OUTPUT
        &&& forall|i: int| 0 <= i < self.num_layers ==> (#[trigger] self.layers@[i]).wf()
        &&& forall|i: int|
            0 <= i < self.num_connections ==> {
                &&& (#[trigger] self.connections@[i]).wf()
                &&& self.connections@[i].from.size == self.layers@[i].size
                &&& self.connections@[i].to.size == self.layers@[i + 1].size
            }
    }

    /// The activations, weights and biases.
    pub open spec fn model(&self) -> Model<T> {
        Model {
            activations: Seq::new(self.layers@.len(), |i: int| self.layers@[i].activation),
            weights: Seq::new(self.connections@.len(), |i: int| self.connections@[i].weights@),
            biases: Seq::new(self.connections@.len(), |i: int| self.connections@[i].bias@),
        }
    }

    /// The current signal of every layer.
    pub open spec fn signals(&self) -> Seq<Grid<T>> {
        Seq::new(self.layers@.len(), |i: int| self.layers@[i].input@)
    }

    /// The current signal of the output layer.
    pub open spec fn output(&self) -> Grid<T> {
        self.layers@[self.num_layers - 1].input@
    }

    /// The width of the output layer.
    pub open spec fn output_size(&self) -> usize {
        self.layers@[self.num_layers - 1].size
    }

    /// The width of the input layer.
    pub open spec fn input_size(&self) -> usize {
        self.layers@[0].size
    }

    /// The place and the width of every layer.
    pub open spec fn shape(&self) -> Seq<(LayerType, usize)> {
        Seq::new(self.layers@.len(), |i: int| (self.layers@[i].layer_type, self.layers@[i].size))
    }
}

/// The weights of connection `n - 1` are drawn through a sampler whose
/// memory goes from `mid` to `end`.
pub open spec fn drawn_link<T: Scalar>(
    mid: Option<T>,
    weights: Seq<Grid<T>>,
    n: nat,
    end: Option<T>,
) -> bool {
    is_drawn(mid, weights[n - 1], end)
}

/// The weights of the first `n` connections are drawn through one sampler,
/// connection after connection, taking its memory from `start` to `end`.
pub open spec fn drawn_upto<T: Scalar>(
    start: Option<T>,
    weights: Seq<Grid<T>>,
    n: nat,
    end: Option<T>,
) -> bool
    decreases n,
{
    if n == 0 {
        end == start
    } else {
        exists|mid: Option<T>|
            {
                &&& #[trigger] drawn_link(mid, weights, n, end)
                &&& drawn_upto(start, weights, (n - 1) as nat, mid)
            }
    }
}

/// Being drawn in turn is a matter of the first `n` tables only.
pub proof fn lemma_drawn_extends<T: Scalar>(
    start: Option<T>,
    a: Seq<Grid<T>>,
    b: Seq<Grid<T>>,
    n: nat,
    end: Option<T>,
)
    requires
        drawn_upto(start, a, n, end),
        n <= a.len(),
        n <= b.len(),
        forall|k: int| 0 <= k < n ==> a[k] == b[k],
    ensures
        drawn_upto(start, b, n, end),
    decreases n,
{
    if n > 0 {
        let mid = choose|mid: Option<T>|
            #[trigger] drawn_link(mid, a, n, end) && drawn_upto(start, a, (n - 1) as nat, mid);
        lemma_drawn_extends(start, a, b, (n - 1) as nat, mid);
        assert(drawn_link(mid, b, n, end));
    }
}

/// A network of the given widths: an input layer without activation, the
/// hidden layers in the order given, and the output layer. Every signal is a
/// single row of zeros, every bias is zero, and the weights are drawn afresh.
pub fn create_network<T: Scalar, U: Uniform<T>>(
    num_features: usize,
    num_hidden_layers: usize,
    hidden_sizes: Vec<usize>,
    hidden_activations: Vec<Option<Activation>>,
    num_outputs: usize,
    output_activation: Option<Activation>,
    sampler: &mut BoxMuller<T>,
    source: &mut U,
) -> (r: Network<T>)
    requires
        num_features > 0 && num_outputs > 0,
        num_hidden_layers <= usize::MAX - 2,
        hidden_sizes@.len() >= num_hidden_layers,
        hidden_activations@.len() >= num_hidden_layers,
        forall|i: int| 0 <= i < num_hidden_layers ==> #[trigger] hidden_sizes@[i] > 0,
    ensures
        r.wf(),
        r.num_layers == num_hidden_layers + 2,
        r.layers@[0].size == num_features,
        r.layers@[0].activation is None,
        r.layers@[r.num_layers - 1].size == num_outputs,
        r.layers@[r.num_layers - 1].activation == output_activation,
        forall|i: int|
            1 <= i <= num_hidden_layers ==> {
                &&& (#[trigger] r.layers@[i]).layer_type == LayerType::HIDDEN
                &&& r.layers@[i].size == hidden_sizes@[i - 1]
                &&& r.layers@[i].activation == hidden_activations@[i - 1]
            },
        forall|i: int|
            0 <= i < r.num_layers ==> (#[trigger] r.layers@[i]).input.rows == 1 && all_zero(
                r.layers@[i].input@,
            ),
        forall|i: int| 0 <= i < r.num_connections ==> all_zero((#[trigger] r.connections@[i]).bias@),
        drawn_upto(
            old(sampler).spare,
            r.model().weights,
            r.num_connections as nat,
            final(sampler).spare,
        ),
{
    let num_layers = num_hidden_layers + 2;
    let mut layers: Vec<Layer<T>> = Vec::new();
    let mut i: usize = 0;
    while i < num_layers
        invariant
            num_features > 0 && num_outputs > 0,
            num_layers == num_hidden_layers + 2,
            hidden_sizes@.len() >= num_hidden_layers,
            hidden_activations@.len() >= num_hidden_layers,
            forall|k: int| 0 <= k < num_hidden_layers ==> #[trigger] hidden_sizes@[k] > 0,
            i <= num_layers,
            layers@.len() == i,
            forall|k: int|
                0 <= k < i ==> {
                    &&& (#[trigger] layers@[k]).wf()
                    &&& layers@[k].size > 0
                    &&& layers@[k].input.rows == 1
                    &&& all_zero(layers@[k].input@)
                    &&& k == 0 ==> layers@[k].layer_type == LayerType::INPUT && layers@[k].size
                        == num_features && layers@[k].activation is None
                    &&& k == num_layers - 1 ==> layers@[k].layer_type == LayerType::OUTPUT
                        && layers@[k].size == num_outputs && layers@[k].activation
                        == output_activation
                    &&& 0 < k < num_layers - 1 ==> layers@[k].layer_type == LayerType::HIDDEN
                        && layers@[k].size == hidden_sizes@[k - 1] && layers@[k].activation
                        == hidden_activations@[k - 1]
                },
        decreases num_layers - i,
    {
        if i == 0 {
            layers.push(create_layer(LayerType::INPUT, num_features, None));
        } else if i == num_layers - 1 {
            layers.push(create_layer(LayerType::OUTPUT, num_outputs, output_activation));
        } else {
            layers.push(
                create_layer(LayerType::HIDDEN, hidden_sizes[i - 1], hidden_activations[i - 1]),
            );
        }
        i = i + 1;
    }
    let num_connections = num_layers - 1;
    let mut connections: Vec<Connection<T>> = Vec::new();
    let ghost mut drawn: Seq<Grid<T>> = Seq::empty();
    let mut i: usize = 0;
    while i < num_connections
        invariant
            num_connections == num_layers - 1,
            layers@.len() == num_layers,
            forall|k: int| 0 <= k < num_layers ==> (#[trigger] layers@[k]).size > 0,
            i <= num_connections,
            connections@.len() == i,
            drawn.len() == i,
            forall|k: int| 0 <= k < i ==> #[trigger] drawn[k] == connections@[k].weights@,
            forall|k: int|
                0 <= k < i ==> {
                    &&& (#[trigger] connections@[k]).wf()
                    &&& connections@[k].from.size == layers@[k].size
                    &&& connections@[k].to.size == layers@[k + 1].size
                    &&& all_zero(connections@[k].bias@)
                },
            drawn_upto(old(sampler).spare, drawn, i as nat, sampler.spare),
        decreases num_connections - i,
    {
        let ghost before = sampler.spare;
        let ghost earlier = drawn;
        let mut connection = create_connection(&layers[i], &layers[i + 1]);
        connection.init(sampler, source);
        proof {
            drawn = drawn.push(connection.weights@);
            let n = (i + 1) as nat;
            assert((n - 1) as nat == i as nat);
            lemma_drawn_extends(old(sampler).spare, earlier, drawn, i as nat, before);
            assert(drawn_link(before, drawn, n, sampler.spare));
        }
        connections.push(connection);
        i = i + 1;
    }
    let r = Network { num_layers, layers, num_connections, connections };
    proof {
        assert(r.model().weights =~= drawn);
    }
    r
}

/// Two networks of the same shape have input layers of the same width and
/// output layers of the same width.
pub proof fn lemma_same_shape<T>(a: &Network<T>, b: &Network<T>)
    requires
        a.wf(),
        b.wf(),
        a.shape() == b.shape(),
    ensures
        a.num_layers == b.num_layers,
        a.input_size() == b.input_size(),
        a.output_size() == b.output_size(),
        forall|i: int| 0 <= i < a.num_layers ==> (#[trigger] a.layers@[i]).size == b.layers@[i].size,
{
    assert(a.shape().len() == a.layers@.len());
    assert(b.shape().len() == b.layers@.len());
    assert(a.layers@.len() == b.layers@.len());
    assert forall|i: int| 0 <= i < a.num_layers implies (#[trigger] a.layers@[i]).size
        == b.layers@[i].size by {
        assert(a.shape()[i] == (a.layers@[i].layer_type, a.layers@[i].size));
        assert(b.shape()[i] == (b.layers@[i].layer_type, b.layers@[i].size));
    }
}

impl<T: Scalar> Network<T> {
    /// Feeds `input` through the network: it becomes the signal of the input
    /// layer, and each further layer's signal is computed from the one before.
    pub fn forward_pass(&mut self, input: Matrix<T>)
        requires
            old(self).wf(),
            input.wf(),
            input.cols == old(self).input_size(),
        ensures
            final(self).wf(),
            final(self).shape() == old(self).shape(),
            final(self).model() == old(self).model(),
            final(self).signals()[0] == input@,
            signals_follow(final(self).model(), final(self).signals()),
            final(self).output().rows == input.rows,
            final(self).output().cols == old(self).output_size(),
    {
        let ghost model = self.model();
        let ghost rows = input.rows;
        let ghost first = input@;
        self.layers[0].input = input;
        assert(self.model().activations =~= model.activations);
        assert(self.model().weights =~= model.weights);
        assert(self.model().biases =~= model.biases);
        assert(self.shape() =~= old(self).shape());
        let mut i: usize = 0;
        while i < self.num_connections
            invariant
                self.wf(),
                self.shape() == old(self).shape(),
                self.model() == model,
                model == old(self).model(),
                self.signals()[0] == first,
                first.rows == rows,
                i <= self.num_connections,
                self.signals()[i as int].rows == rows,
                forall|k: int| 0 <= k < i ==> #[trigger] link_fed(model, self.signals(), k),
            decreases self.num_connections - i,
        {
            let ghost before = self.signals();
            let ghost shape = self.shape();
            let pre = self.layers[i].input.multiply(&self.connections[i].weights);
            let biased = pre.add_to_each_row(&self.connections[i].bias);
            let ghost biased_view = biased@;
            self.layers[i + 1].input = biased;
            self.layers[i + 1].activate();
            proof {
                let after = self.signals();
                assert(self.model().activations =~= model.activations);
                assert(self.model().weights =~= model.weights);
                assert(self.model().biases =~= model.biases);
                assert(self.shape() =~= shape);
                assert(forall|k: int| 0 <= k <= i ==> after[k] == before[k]);
                assert(fed_steps(
                    before[i as int],
                    model.weights[i as int],
                    model.biases[i as int],
                    model.activations[i + 1],
                    pre@,
                    biased_view,
                    after[i + 1],
                ));
                assert(link_fed(model, after, i as int));
                assert forall|k: int| 0 <= k < i implies #[trigger] link_fed(model, after, k) by {
                    assert(link_fed(model, before, k));
                }
            }
            i = i + 1;
        }
        proof {
            let last = self.num_layers - 1;
            assert(self.shape()[last] == old(self).shape()[last]);
            assert(self.signals()[last] == self.output());
        }
    }

    /// The signal of the output layer.
    pub fn get_output(&self) -> (r: &Matrix<T>)
        requires
            self.wf(),
        ensures
            *r == self.layers@[self.num_layers - 1].input,
    {
        &self.layers[self.num_layers - 1].input
    }

    /// The column of the greatest entry of row `i` of the output.
    fn best_column(&self, i: usize) -> (best: usize)
        requires
            self.wf(),
            i < self.output().rows,
        ensures
            self.output_size() > 0 ==> best < self.output_size(),
            self.output_size() == 0 ==> best == 0,
            is_argmax_upto(self.output().cells[i as int], self.output().cols, best as int),
    {
        let output = &self.layers[self.num_layers - 1].input;
        let size = output.cols;
        let ghost row = output@.cells[i as int];
        if size == 0 {
            return 0;
        }
        let mut best: usize = 0;
        let mut j: usize = 1;
        while j < size
            invariant
                output.wf(),
                i < output.rows,
                size == output.cols,
                row == output@.cells[i as int],
                1 <= j <= size,
                best < j,
                is_argmax_upto(row, j as nat, best as int),
            decreases size - j,
        {
            let wins = output.data[i][j].greater(output.data[i][best]);
            let ghost prev = best as int;
            if wins {
                best = j;
            }
            proof {
                let n = (j + 1) as nat;
                assert((n - 1) as nat == j as nat);
                assert(row[n - 1] == output.data@[i as int]@[j as int]);
                assert(row[prev] == output.data@[i as int]@[prev]);
                assert(argmax_step(row, n, prev, best as int));
            }
            j = j + 1;
        }
        best
    }

    /// For every row of the output, the column of its greatest entry; of
    /// equal entries the leftmost.
    pub fn predict(&mut self) -> (predictions: Vec<i32>)
        requires
            old(self).wf(),
            old(self).output_size() <= i32::MAX,
        ensures
            *final(self) == *old(self),
            is_predicted(old(self).output(), predictions@),
    {
        let rows = self.layers[self.num_layers - 1].input.rows;
        let mut predictions: Vec<i32> = Vec::new();
        let mut i: usize = 0;
        while i < rows
            invariant
                self.wf(),
                *self == *old(self),
                self.output_size() <= i32::MAX,
                rows == self.output().rows,
                i <= rows,
                predictions@.len() == i,
                forall|k: int|
                    0 <= k < i ==> {
                        &&& 0 <= #[trigger] predictions@[k]
                        &&& self.output().cols > 0 ==> predictions@[k] < self.output().cols
                        &&& is_argmax_upto(
                            self.output().cells[k],
                            self.output().cols,
                            predictions@[k] as int,
                        )
                    },
            decreases rows - i,
        {
            let best = self.best_column(i);
            predictions.push(best as i32);
            i = i + 1;
        }
        predictions
    }

    /// The share of the rows of `dataset` that the network, after a forward
    /// pass on them, assigns to the column that `classes` marks with a one.
    pub fn accuracy(&mut self, dataset: &Matrix<T>, classes: &Matrix<T>) -> (r: T)
        requires
            old(self).wf(),
            dataset.wf(),
            classes.wf(),
            dataset.rows == classes.rows,
            dataset.cols == old(self).input_size(),
            classes.cols == old(self).output_size(),
            0 < old(self).output_size() <= i32::MAX,
        ensures
            final(self).wf(),
            final(self).shape() == old(self).shape(),
            final(self).model() == old(self).model(),
            final(self).signals()[0] == dataset@,
            signals_follow(final(self).model(), final(self).signals()),
            exists|picks: Seq<i32>| #[trigger]
                is_predicted(final(self).output(), picks) && is_score(classes@, picks, r),
    {
        self.forward_pass(dataset.copy());
        let predictions = self.predict();
        let r = score(&predictions, classes);
        assert(is_predicted(self.output(), predictions@));
        r
    }
}

} // verus!
