use cranium_rs::dataset::{create_dataset, DataSet};
use cranium_rs::function::{Activation, BoxMuller, Uniform};
use cranium_rs::matrix::Matrix;
use cranium_rs::network::{create_network, LossFunction, Network, ParameterSet};
use cranium_rs::scalar::Scalar;
use cranium_rs::training::{learning_rate_at, row_table, step_scale};

#[derive(Clone, Copy, Debug, PartialEq)]
struct Real(f32);

impl Scalar for Real {
    fn zero() -> Real {
        Real(0.0)
    }
    fn one() -> Real {
        Real(1.0)
    }
    fn pi() -> Real {
        Real(std::f32::consts::PI)
    }
    fn tiny() -> Real {
        Real(f32::MIN_POSITIVE)
    }
    fn from_count(n: usize) -> Real {
        Real(n as f32)
    }
    fn negate(self) -> Real {
        Real(-self.0)
    }
    fn plus(self, rhs: Real) -> Real {
        Real(self.0 + rhs.0)
    }
    fn minus(self, rhs: Real) -> Real {
        Real(self.0 - rhs.0)
    }
    fn times(self, rhs: Real) -> Real {
        Real(self.0 * rhs.0)
    }
    fn over(self, rhs: Real) -> Real {
        Real(self.0 / rhs.0)
    }
    fn exp(self) -> Real {
        Real(self.0.exp())
    }
    fn ln(self) -> Real {
        Real(self.0.ln())
    }
    fn tanh(self) -> Real {
        Real(self.0.tanh())
    }
    fn sqrt(self) -> Real {
        Real(self.0.sqrt())
    }
    fn sin(self) -> Real {
        Real(self.0.sin())
    }
    fn cos(self) -> Real {
        Real(self.0.cos())
    }
    fn greater(self, rhs: Real) -> bool {
        self.0 > rhs.0
    }
    fn same(self, rhs: Real) -> bool {
        self.0 == rhs.0
    }
}

fn cells(rows: Vec<Vec<f32>>) -> Vec<Vec<Real>> {
    rows.into_iter().map(|row| row.into_iter().map(Real).collect()).collect()
}

fn plain(rows: &Vec<Vec<Real>>) -> Vec<Vec<f32>> {
    rows.iter().map(|row| row.iter().map(|x| x.0).collect()).collect()
}

struct Sequence {
    state: u32,
}

impl Sequence {
    fn next(&mut self) -> f32 {
        self.state = self.state.wrapping_mul(1664525).wrapping_add(1013904223);
        (((self.state >> 8) as f32) + 0.5) / 16777216.0
    }
}

impl Uniform<Real> for Sequence {
    fn draw(&mut self) -> Real {
        Real(self.next())
    }
}

fn network(
    features: usize,
    hidden: Vec<(usize, Option<Activation>)>,
    outputs: usize,
    output_activation: Option<Activation>,
) -> Network<Real> {
    let mut sampler: BoxMuller<Real> = BoxMuller::new();
    let mut source = Sequence { state: 2024 };
    create_network(
        features,
        hidden.len(),
        hidden.iter().map(|h| h.0).collect(),
        hidden.iter().map(|h| h.1).collect(),
        outputs,
        output_activation,
        &mut sampler,
        &mut source,
    )
}

fn set_weights(net: &mut Network<Real>, link: usize, weights: Vec<Vec<f32>>, bias: Vec<f32>) {
    let rows = weights.len();
    let cols = bias.len();
    net.connections[link].weights = Matrix::create_matrix(rows, cols, cells(weights));
    net.connections[link].bias = Matrix::create_matrix(1, cols, cells(vec![bias]));
}

fn settings(
    dataset: Vec<Vec<f32>>,
    classes: Vec<Vec<f32>>,
    batch_size: usize,
    learning_rate: f32,
    search_time: f32,
    momentum: f32,
    max_iters: usize,
    shuffle: bool,
) -> ParameterSet<Real> {
    let rows = dataset.len();
    let features = dataset[0].len();
    let outputs = classes[0].len();
    ParameterSet {
        dataset: create_dataset(rows, features, cells(dataset)),
        classes: create_dataset(rows, outputs, cells(classes)),
        loss: LossFunction::MeanSquaredError,
        batch_size,
        learning_rate: Real(learning_rate),
        search_time: Real(search_time),
        regularization: Real(0.0),
        momentum: Real(momentum),
        max_iters,
        shuffle,
        verbose: false,
    }
}

fn weights(net: &Network<Real>, link: usize) -> Vec<Vec<f32>> {
    plain(&net.connections[link].weights.data)
}

fn bias(net: &Network<Real>, link: usize) -> Vec<Vec<f32>> {
    plain(&net.connections[link].bias.data)
}

#[test]
fn learning_rate_without_annealing() {
    assert_eq!(learning_rate_at(Real(0.5), Real(0.0), 1).0, 0.5);
    assert_eq!(learning_rate_at(Real(0.5), Real(0.0), 1000).0, 0.5);
}

#[test]
fn learning_rate_decays_with_the_epoch() {
    assert_eq!(learning_rate_at(Real(0.5), Real(2.0), 2).0, 0.25);
    assert_eq!(learning_rate_at(Real(0.5), Real(2.0), 6).0, 0.125);
    assert_eq!(learning_rate_at(Real(1.0), Real(4.0), 1).0, 0.8);
    let mut last = f32::INFINITY;
    for epoch in 1..50 {
        let rate = learning_rate_at(Real(0.3), Real(7.0), epoch).0;
        assert!(rate < last);
        last = rate;
    }
}

#[test]
fn step_scale_divides_by_the_rows_of_the_dataset() {
    assert_eq!(step_scale(Real(0.5), Real(0.0), 3, 4).0, 0.125);
    assert_eq!(step_scale(Real(0.5), Real(2.0), 2, 5).0, 0.05);
}

#[test]
fn row_table_holds_one_row() {
    let data: DataSet<Real> =
        create_dataset(3, 2, cells(vec![vec![1.0, 2.0], vec![3.0, 4.0], vec![5.0, 6.0]]));
    let row = row_table(&data, 1);
    assert_eq!(row.rows, 1);
    assert_eq!(row.cols, 2);
    assert_eq!(plain(&row.data), vec![vec![3.0, 4.0]]);
}

#[test]
fn backpropagation_through_a_linear_hidden_layer() {
    let mut net = network(1, vec![(1, Some(Activation::Linear))], 1, None);
    set_weights(&mut net, 0, vec![vec![2.0]], vec![0.0]);
    set_weights(&mut net, 1, vec![vec![3.0]], vec![0.0]);
    net.forward_pass(Matrix::create_matrix(1, 1, cells(vec![vec![1.0]])));
    assert_eq!(plain(&net.get_output().data), vec![vec![6.0]]);
    let target = Matrix::create_matrix(1, 1, cells(vec![vec![5.0]]));
    let (dw, db) = net.backpropagate(&target);
    assert_eq!(dw.len(), 2);
    assert_eq!(db.len(), 2);
    // output error 6 - 5 = 1; hidden error 1 * 3 * 1 = 3
    assert_eq!(plain(&db[1].data), vec![vec![1.0]]);
    assert_eq!(plain(&db[0].data), vec![vec![3.0]]);
    // hidden signal 2 times 1; input 1 times 3
    assert_eq!(plain(&dw[1].data), vec![vec![2.0]]);
    assert_eq!(plain(&dw[0].data), vec![vec![3.0]]);
}

#[test]
fn backpropagation_uses_the_slope_at_the_activated_signal() {
    let mut net = network(2, vec![(2, Some(Activation::Sigmoid))], 2, Some(Activation::Softmax));
    set_weights(&mut net, 0, vec![vec![0.5, -1.0], vec![0.25, 2.0]], vec![0.1, -0.2]);
    set_weights(&mut net, 1, vec![vec![1.5, -0.5], vec![-2.0, 1.0]], vec![0.0, 0.3]);
    net.forward_pass(Matrix::create_matrix(1, 2, cells(vec![vec![1.0, -2.0]])));
    let hidden: Vec<f32> = plain(&net.layers[1].input.data)[0].clone();
    let output: Vec<f32> = plain(&net.get_output().data)[0].clone();
    let target = vec![0.0f32, 1.0];
    let (dw, db) = net.backpropagate(&Matrix::create_matrix(1, 2, cells(vec![target.clone()])));

    let out_error = vec![output[0] - target[0], output[1] - target[1]];
    assert_eq!(plain(&db[1].data), vec![out_error.clone()]);
    let w1 = vec![vec![1.5f32, -0.5], vec![-2.0, 1.0]];
    let mut hidden_error = Vec::new();
    for j in 0..2 {
        let mut back: f32 = 0.0;
        for k in 0..2 {
            back += out_error[k] * w1[j][k];
        }
        hidden_error.push(back * (hidden[j] * (1.0 - hidden[j])));
    }
    assert_eq!(plain(&db[0].data), vec![hidden_error.clone()]);
    let input = vec![1.0f32, -2.0];
    for i in 0..2 {
        for j in 0..2 {
            assert_eq!(dw[0].get(i, j).0, 0.0 + input[i] * hidden_error[j]);
            assert_eq!(dw[1].get(i, j).0, 0.0 + hidden[i] * out_error[j]);
        }
    }
}

#[test]
fn a_relu_unit_that_is_off_passes_no_error_back() {
    let mut net = network(1, vec![(1, Some(Activation::Relu))], 1, None);
    set_weights(&mut net, 0, vec![vec![-2.0]], vec![0.0]);
    set_weights(&mut net, 1, vec![vec![3.0]], vec![0.0]);
    net.forward_pass(Matrix::create_matrix(1, 1, cells(vec![vec![1.0]])));
    let (dw, db) = net.backpropagate(&Matrix::create_matrix(1, 1, cells(vec![vec![5.0]])));
    assert_eq!(plain(&db[1].data), vec![vec![-5.0]]);
    assert_eq!(db[0].get(0, 0).0, 0.0);
    assert_eq!(dw[0].get(0, 0).0, 0.0);
    assert_eq!(dw[1].get(0, 0).0, 0.0);
}

#[test]
fn one_epoch_of_one_example() {
    let mut net = network(1, vec![], 1, None);
    set_weights(&mut net, 0, vec![vec![0.5]], vec![0.0]);
    let mut params = settings(vec![vec![2.0]], vec![vec![3.0]], 1, 0.25, 0.0, 0.0, 1, false);
    net.batch_gradient_descent(&mut params);
    // output 1, error -2, gradients -4 and -2, scale 0.25
    assert_eq!(weights(&net, 0), vec![vec![1.5]]);
    assert_eq!(bias(&net, 0), vec![vec![0.5]]);
    assert_eq!(plain(&params.dataset.data), vec![vec![2.0]]);
    assert_eq!(plain(&params.classes.data), vec![vec![3.0]]);
}

#[test]
fn momentum_carries_the_last_update_into_the_next_epoch() {
    let mut net = network(1, vec![], 1, None);
    set_weights(&mut net, 0, vec![vec![0.5]], vec![0.0]);
    let mut params = settings(vec![vec![2.0]], vec![vec![3.0]], 1, 0.25, 0.0, 0.5, 2, false);
    net.batch_gradient_descent(&mut params);
    // second epoch: output 3.5, error 0.5, updates 0.5 * -1 + 0.25 and 0.5 * -0.5 + 0.125
    assert_eq!(weights(&net, 0), vec![vec![1.75]]);
    assert_eq!(bias(&net, 0), vec![vec![0.625]]);
}

#[test]
fn the_epoch_number_anneals_the_learning_rate() {
    let mut net = network(1, vec![], 1, None);
    set_weights(&mut net, 0, vec![vec![0.5]], vec![0.0]);
    let mut params = settings(vec![vec![2.0]], vec![vec![3.0]], 1, 0.25, 1.0, 0.0, 1, false);
    net.batch_gradient_descent(&mut params);
    // rate 0.25 / (1 + 1 / 1) = 0.125
    assert_eq!(weights(&net, 0), vec![vec![1.0]]);
    assert_eq!(bias(&net, 0), vec![vec![0.25]]);

    let mut net = network(1, vec![], 1, None);
    set_weights(&mut net, 0, vec![vec![0.5]], vec![0.0]);
    let mut params = settings(vec![vec![2.0]], vec![vec![3.0]], 1, 0.25, 1.0, 0.0, 2, false);
    net.batch_gradient_descent(&mut params);
    // second epoch: output 2.25, error -0.75, rate 0.25 / (1 + 2 / 1)
    let rate = 0.25f32 / (1.0 + 2.0 / 1.0);
    assert_eq!(weights(&net, 0), vec![vec![1.0 - (0.0 * 0.0 + (2.0 * -0.75) * (rate / 1.0))]]);
    assert_eq!(bias(&net, 0), vec![vec![0.25 - (0.0 * 0.0 + -0.75 * (rate / 1.0))]]);
}

#[test]
fn updates_follow_every_batch_and_are_scaled_by_the_whole_dataset() {
    let mut net = network(1, vec![], 1, None);
    set_weights(&mut net, 0, vec![vec![0.5]], vec![0.0]);
    let mut params =
        settings(vec![vec![2.0], vec![1.0]], vec![vec![3.0], vec![1.0]], 1, 0.5, 0.0, 0.0, 1, false);
    net.batch_gradient_descent(&mut params);
    // first batch: error -2, scale 0.5 / 2; second batch: output 2, error 1
    assert_eq!(weights(&net, 0), vec![vec![1.25]]);
    assert_eq!(bias(&net, 0), vec![vec![0.25]]);
}

#[test]
fn gradients_of_a_batch_are_added_up() {
    let mut net = network(1, vec![], 1, None);
    set_weights(&mut net, 0, vec![vec![0.5]], vec![0.0]);
    let mut params =
        settings(vec![vec![2.0], vec![1.0]], vec![vec![3.0], vec![1.0]], 2, 0.5, 0.0, 0.0, 1, false);
    net.batch_gradient_descent(&mut params);
    // errors -2 and -0.5; sums -4.5 and -2.5; scale 0.25
    assert_eq!(weights(&net, 0), vec![vec![1.625]]);
    assert_eq!(bias(&net, 0), vec![vec![0.625]]);
}

#[test]
fn batches_of_uneven_size() {
    let mut net = network(1, vec![], 1, None);
    set_weights(&mut net, 0, vec![vec![0.0]], vec![0.0]);
    let mut params = settings(
        vec![vec![1.0], vec![1.0], vec![1.0]],
        vec![vec![1.0], vec![1.0], vec![1.0]],
        2,
        1.5,
        0.0,
        0.0,
        1,
        false,
    );
    net.batch_gradient_descent(&mut params);
    // two batches of 2 and 1 rows; scale 0.5
    // first: errors -1, -1: update -1, weight 1, bias 1; second: output 2, error 1: update 0.5
    assert_eq!(weights(&net, 0), vec![vec![0.5]]);
    assert_eq!(bias(&net, 0), vec![vec![0.5]]);
}

#[test]
fn shuffling_keeps_examples_with_their_labels() {
    let rows = 40;
    let dataset: Vec<Vec<f32>> = (0..rows).map(|i| vec![i as f32, 1.0]).collect();
    let classes: Vec<Vec<f32>> = (0..rows).map(|i| vec![i as f32 * 2.0]).collect();
    let mut net = network(2, vec![], 1, None);
    set_weights(&mut net, 0, vec![vec![0.0], vec![0.0]], vec![0.0]);
    let mut params = settings(dataset, classes, 7, 0.0, 0.0, 0.0, 3, true);
    net.batch_gradient_descent(&mut params);
    assert_eq!(params.dataset.rows, rows);
    assert_eq!(params.classes.rows, rows);
    let mut seen = vec![false; rows];
    for i in 0..rows {
        let id = params.dataset.data[i][0].0;
        assert_eq!(params.classes.data[i][0].0, id * 2.0);
        assert!(!seen[id as usize]);
        seen[id as usize] = true;
    }
    assert_eq!(params.batch_size, 7);
    assert_eq!(params.max_iters, 3);
    assert!(params.shuffle);
}

#[test]
fn training_separates_two_classes() {
    let rows = 200;
    let mut numbers = Sequence { state: 77 };
    let mut dataset = Vec::new();
    let mut classes = Vec::new();
    for _ in 0..rows {
        let x = numbers.next() * 2.0 - 1.0;
        let y = numbers.next() * 2.0 - 1.0;
        dataset.push(vec![x, y]);
        classes.push(if x > 0.0 { vec![1.0, 0.0] } else { vec![0.0, 1.0] });
    }
    let mut net = network(2, vec![(4, Some(Activation::Tanh))], 2, Some(Activation::Softmax));
    let mut params = settings(dataset.clone(), classes.clone(), 20, 2.0, 0.0, 0.9, 60, false);
    params.loss = LossFunction::CrossEntropy;
    let examples = Matrix::create_matrix(rows, 2, cells(dataset));
    let labels = Matrix::create_matrix(rows, 2, cells(classes));
    net.forward_pass(examples.copy());
    let first_output = net.get_output().copy();
    let before = net.cross_entropy_loss(&first_output, &labels, Real(0.0));
    net.batch_gradient_descent(&mut params);
    let accuracy = net.accuracy(&examples, &labels).0;
    assert!(accuracy > 0.9);
    let last_output = net.get_output().copy();
    let after = net.cross_entropy_loss(&last_output, &labels, Real(0.0));
    assert!(after.0 < before.0);
}
