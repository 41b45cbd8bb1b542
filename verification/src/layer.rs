//! Layers and the weighted connections between them.

use crate::dataset::{DataSet, Grid};
use crate::function::{
    apply_activation, box_muller, is_activated, is_sample_run, is_sampled, Activation, BoxMuller,
    Uniform,
};
use crate::matrix::{all_zero, Matrix};
use crate::scalar::{is_count, is_quotient, is_sqrt, Scalar};
use vstd::prelude::*;

verus! {

/// The place of a layer in the network.
#[derive(Clone, Copy, Debug, PartialEq, Eq)]
pub enum LayerType {
    INPUT,
    HIDDEN,
    OUTPUT,
}

/// A layer: its place, its width, its activation if it has one, and its
/// current signal, one row for each example.
#[derive(Clone)]
pub struct Layer<T> {
    pub layer_type: LayerType,
    pub size: usize,
    pub activation: Option<Activation>,
    pub input: Matrix<T>,
}

/// The link from one layer to the next: a weight for every pair of units and
/// a bias for every unit of the layer it leads to. `from` and `to` describe
/// the two layers; the live signals are those of the network's own layers.
pub struct Connection<T> {
    pub from: Layer<T>,
    pub to: Layer<T>,
    pub weights: Matrix<T>,
    pub bias: Matrix<T>,
}

impl<T> Layer<T> {
    /// The signal is a well-formed table as wide as the layer.
    pub open spec fn wf(&self) -> bool {
        self.input.wf() && self.input.cols == self.size
    }
}

impl<T> Connection<T> {
    /// The weights are `from.size` by `to.size`, and the bias is one row of
    /// `to.size` cells.
    pub open spec fn wf(&self) -> bool {
        &&& self.from.wf()
        &&& self.to.wf()
        &&& self.weights.wf()
        &&& self.bias.wf()
        &&& self.weights.rows == self.from.size
        &&& self.weights.cols == self.to.size
        &&& self.bias.rows == 1
        &&& self.bias.cols == self.to.size
    }
}

/// A layer of the given width whose signal is a single row of zeros.
pub fn create_layer<T: Scalar>(
    layer_type: LayerType,
    size: usize,
    activation: Option<Activation>,
) -> (r: Layer<T>)
    requires
        size > 0,
    ensures
        r.layer_type == layer_type,
        r.size == size,
        r.activation == activation,
        r.wf(),
        r.input.rows == 1,
        all_zero(r.input@),
{
    let input: Matrix<T> = Matrix::create_zero_matrix(1, size);
    Layer { layer_type, size, activation, input }
}

/// A connection between two layers, with every weight and every bias at zero.
pub fn create_connection<T: Scalar>(from: &Layer<T>, to: &Layer<T>) -> (r: Connection<T>)
    requires
        from.size > 0,
        to.size > 0,
    ensures
        r.wf(),
        r.from.layer_type == from.layer_type && r.from.size == from.size && r.from.activation
            == from.activation,
        r.to.layer_type == to.layer_type && r.to.size == to.size && r.to.activation
            == to.activation,
        all_zero(r.weights@),
        all_zero(r.bias@),
{
    let weights: Matrix<T> = Matrix::create_zero_matrix(from.size, to.size);
    let bias: Matrix<T> = Matrix::create_zero_matrix(1, to.size);
    Connection {
        from: create_layer(from.layer_type, from.size, from.activation),
        to: create_layer(to.layer_type, to.size, to.activation),
        weights,
        bias,
    }
}

impl<T: Scalar> Layer<T> {
    /// Applies the layer's activation to its signal. A layer without one
    /// keeps its signal.
    pub fn activate(&mut self)
        requires
            old(self).wf(),
        ensures
            final(self).wf(),
            final(self).layer_type == old(self).layer_type,
            final(self).size == old(self).size,
            final(self).activation == old(self).activation,
            match old(self).activation {
                None => final(self).input@ == old(self).input@,
                Some(activation) => is_activated(activation, old(self).input@, final(self).input@),
            },
    {
        match self.activation {
            None => {},
            Some(activation) => apply_activation(activation, &mut self.input),
        }
    }

    /// Replaces the layer's signal.
    pub fn set_input(&mut self, input: Matrix<T>)
        ensures
            final(self).input == input,
            final(self).layer_type == old(self).layer_type,
            final(self).size == old(self).size,
            final(self).activation == old(self).activation,
    {
        self.input = input;
    }
}

pub open spec fn fan_in_steps<T: Scalar>(rows: usize, count: T, scale: T) -> bool {
    is_count(rows, count) && is_sqrt(count, scale)
}

/// `scale` is the square root of the number of units that feed a connection.
pub open spec fn is_fan_in_scale<T: Scalar>(rows: usize, scale: T) -> bool {
    exists|count: T| #[trigger] fan_in_steps(rows, count, scale)
}

/// `weights` holds the cells of `samples`, each divided by `scale`.
pub open spec fn samples_scaled<T: Scalar>(samples: Grid<T>, scale: T, weights: Grid<T>) -> bool {
    &&& weights.wf()
    &&& weights.same_shape(samples)
    &&& forall|i: int, j: int|
        0 <= i < samples.rows && 0 <= j < samples.cols ==> is_quotient(
            samples.at(i, j),
            scale,
            #[trigger] weights.at(i, j),
        )
}

/// `weights` holds the cells of `samples`, each divided by the square root of
/// the number of rows.
pub open spec fn is_fan_in_scaled<T: Scalar>(samples: Grid<T>, weights: Grid<T>) -> bool {
    exists|scale: T|
        is_fan_in_scale(samples.rows as usize, scale) && #[trigger] samples_scaled(
            samples,
            scale,
            weights,
        )
}

/// The cells of `row` are what the sampler hands out in turn, taking its
/// memory from `start` to `end`.
pub open spec fn is_row_run<T: Scalar>(start: Option<T>, row: Seq<T>, end: Option<T>) -> bool {
    is_sample_run(start, row, row.len(), end)
}

/// The first `n` rows of `samples` are what the sampler hands out in turn,
/// row after row.
pub open spec fn grid_run_upto<T: Scalar>(
    start: Option<T>,
    samples: Grid<T>,
    n: nat,
    end: Option<T>,
) -> bool
    decreases n,
{
    if n == 0 {
        end == start
    } else {
        exists|mid: Option<T>|
            {
                &&& #[trigger] is_row_run(mid, samples.cells[n - 1], end)
                &&& grid_run_upto(start, samples, (n - 1) as nat, mid)
            }
    }
}

/// `samples` is a well-formed table of what the sampler hands out in turn,
/// in row order, and `weights` holds these samples divided by the square root
/// of the number of rows.
pub open spec fn drawn_steps<T: Scalar>(
    start: Option<T>,
    samples: Grid<T>,
    weights: Grid<T>,
    end: Option<T>,
) -> bool {
    &&& samples.wf()
    &&& samples.same_shape(weights)
    &&& grid_run_upto(start, samples, samples.rows, end)
    &&& is_fan_in_scaled(samples, weights)
}

/// `weights` is drawn through a sampler whose memory goes from `start` to
/// `end`: one sample for each weight, in row order, each divided by the
/// square root of the number of rows.
pub open spec fn is_drawn<T: Scalar>(start: Option<T>, weights: Grid<T>, end: Option<T>) -> bool {
    exists|samples: Grid<T>| #[trigger] drawn_steps(start, samples, weights, end)
}

/// The table of the given shape and cells.
pub open spec fn table_of<T>(rows: usize, cols: usize, cells: Seq<Seq<T>>) -> Grid<T> {
    Grid { rows: rows as nat, cols: cols as nat, cells }
}

/// A table of the given shape, filled in row order with what the sampler
/// hands out.
pub fn draw_samples<T: Scalar, U: Uniform<T>>(
    rows: usize,
    cols: usize,
    sampler: &mut BoxMuller<T>,
    source: &mut U,
) -> (samples: Matrix<T>)
    ensures
        samples.wf(),
        samples.rows == rows,
        samples.cols == cols,
        grid_run_upto(old(sampler).spare, samples@, rows as nat, final(sampler).spare),
{
    let mut data: Vec<Vec<T>> = Vec::new();
    let ghost mut grid: Seq<Seq<T>> = Seq::empty();
    let mut i: usize = 0;
    while i < rows
        invariant
            i <= rows,
            data@.len() == i,
            grid.len() == i,
            forall|k: int| 0 <= k < i ==> (#[trigger] data@[k])@.len() == cols,
            forall|k: int| 0 <= k < i ==> #[trigger] grid[k] == data@[k]@,
            grid_run_upto(old(sampler).spare, table_of(rows, cols, grid), i as nat, sampler.spare),
        decreases rows - i,
    {
        let ghost row_start = sampler.spare;
        let mut row: Vec<T> = Vec::new();
        let mut j: usize = 0;
        while j < cols
            invariant
                j <= cols,
                row@.len() == j,
                is_sample_run(row_start, row@, j as nat, sampler.spare),
            decreases cols - j,
        {
            let ghost before = sampler.spare;
            let ghost so_far = row@;
            let sample = box_muller(sampler, source);
            row.push(sample);
            proof {
                let n = (j + 1) as nat;
                assert((n - 1) as nat == j as nat);
                lemma_run_extends(row_start, so_far, row@, j as nat, before);
                assert(is_sampled(before, row@[n - 1], sampler.spare));
            }
            j = j + 1;
        }
        let ghost earlier = table_of(rows, cols, grid);
        let ghost row_view = row@;
        data.push(row);
        proof {
            grid = grid.push(row_view);
            let now = table_of(rows, cols, grid);
            let n = (i + 1) as nat;
            assert((n - 1) as nat == i as nat);
            lemma_grid_run_extends(old(sampler).spare, earlier, now, i as nat, row_start);
            assert(is_row_run(row_start, now.cells[n - 1], sampler.spare));
        }
        i = i + 1;
    }
    let samples = DataSet { rows, cols, data };
    proof {
        assert(samples@.cells =~= grid);
        assert(samples@ == table_of(rows, cols, grid));
    }
    samples
}

/// A run over the first `n` entries depends on those entries only.
pub proof fn lemma_run_extends<T: Scalar>(
    start: Option<T>,
    a: Seq<T>,
    b: Seq<T>,
    n: nat,
    end: Option<T>,
)
    requires
        is_sample_run(start, a, n, end),
        n <= a.len(),
        n <= b.len(),
        forall|k: int| 0 <= k < n ==> a[k] == b[k],
    ensures
        is_sample_run(start, b, n, end),
    decreases n,
{
    if n > 0 {
        let mid = choose|mid: Option<T>|
            #[trigger] is_sampled(mid, a[n - 1], end) && is_sample_run(
                start,
                a,
                (n - 1) as nat,
                mid,
            );
        lemma_run_extends(start, a, b, (n - 1) as nat, mid);
        assert(is_sampled(mid, b[n - 1], end));
    }
}

/// A run over the first `n` rows depends on those rows only.
pub proof fn lemma_grid_run_extends<T: Scalar>(
    start: Option<T>,
    a: Grid<T>,
    b: Grid<T>,
    n: nat,
    end: Option<T>,
)
    requires
        grid_run_upto(start, a, n, end),
        n <= a.cells.len(),
        n <= b.cells.len(),
        forall|k: int| 0 <= k < n ==> a.cells[k] == b.cells[k],
    ensures
        grid_run_upto(start, b, n, end),
    decreases n,
{
    if n > 0 {
        let mid = choose|mid: Option<T>|
            #[trigger] is_row_run(mid, a.cells[n - 1], end) && grid_run_upto(
                start,
                a,
                (n - 1) as nat,
                mid,
            );
        lemma_grid_run_extends(start, a, b, (n - 1) as nat, mid);
        assert(is_row_run(mid, b.cells[n - 1], end));
    }
}

impl<T: Scalar> Connection<T> {
    /// Sets the bias to zero and each weight to the sample in its place
    /// divided by the square root of the fan-in.
    pub fn init_with(&mut self, samples: &Matrix<T>)
        requires
            old(self).wf(),
            samples.wf(),
            samples.rows == old(self).weights.rows,
            samples.cols == old(self).weights.cols,
        ensures
            final(self).wf(),
            final(self).from == old(self).from,
            final(self).to == old(self).to,
            all_zero(final(self).bias@),
            is_fan_in_scaled(samples@, final(self).weights@),
    {
        self.bias.to_zero();
        let count = T::from_count(self.weights.rows);
        let scale = count.sqrt();
        assert(fan_in_steps(self.weights.rows, count, scale));
        let cell = |i: usize, j: usize, x: T| -> (v: T)
            requires
                i < samples.rows && j < samples.cols,
            ensures
                is_quotient(samples@.at(i as int, j as int), scale, v),
            {
                let v = samples.data[i][j].over(scale);
                v
            };
        self.weights.update_cells(cell);
        assert(samples_scaled(samples@, scale, self.weights@));
    }

    /// Sets the bias to zero and draws the weights: one Gaussian sample for
    /// each weight, in row order, divided by the square root of the fan-in.
    pub fn init<U: Uniform<T>>(&mut self, sampler: &mut BoxMuller<T>, source: &mut U)
        requires
            old(self).wf(),
        ensures
            final(self).wf(),
            final(self).from == old(self).from,
            final(self).to == old(self).to,
            all_zero(final(self).bias@),
            is_drawn(old(sampler).spare, final(self).weights@, final(sampler).spare),
    {
        let samples = draw_samples(self.weights.rows, self.weights.cols, sampler, source);
        self.init_with(&samples);
        assert(drawn_steps(old(sampler).spare, samples@, self.weights@, sampler.spare));
    }
}

} // verus!
