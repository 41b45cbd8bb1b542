//! Row-oriented tables, their partition into batches, and the synchronized
//! shuffle of two tables.

use vstd::prelude::*;

verus! {

/// The mathematical table behind a [`DataSet`]: a shape and the cells row by row.
pub struct Grid<T> {
    pub rows: nat,
    pub cols: nat,
    pub cells: Seq<Seq<T>>,
}

impl<T> Grid<T> {
    /// There are `rows` rows, and every row has `cols` cells.
    pub open spec fn wf(self) -> bool {
        &&& self.cells.len() == self.rows
        &&& forall|i: int| 0 <= i < self.rows ==> (#[trigger] self.cells[i]).len() == self.cols
    }

    pub open spec fn at(self, i: int, j: int) -> T {
        self.cells[i][j]
    }

    pub open spec fn same_shape(self, other: Grid<T>) -> bool {
        self.rows == other.rows && self.cols == other.cols
    }

    /// The one-row table that holds row `i` of this one.
    pub open spec fn row(self, i: int) -> Grid<T> {
        Grid { rows: 1, cols: self.cols, cells: seq![self.cells[i]] }
    }
}

/// A table of `rows` rows and `cols` columns, stored row by row.
#[derive(Debug, Clone)]
pub struct DataSet<T> {
    pub rows: usize,
    pub cols: usize,
    pub data: Vec<Vec<T>>,
}

impl<T> View for DataSet<T> {
    type V = Grid<T>;

    open spec fn view(&self) -> Grid<T> {
        Grid {
            rows: self.rows as nat,
            cols: self.cols as nat,
            cells: Seq::new(self.data@.len(), |i: int| self.data@[i]@),
        }
    }
}

impl<T> DataSet<T> {
    /// The storage has the shape that `rows` and `cols` announce.
    pub open spec fn wf(&self) -> bool {
        &&& self.data@.len() == self.rows
        &&& forall|i: int| 0 <= i < self.rows ==> (#[trigger] self.data@[i])@.len() == self.cols
    }
}

/// A contiguous range of rows of a table: `size` rows from row `offset` on.
#[derive(Debug, Clone)]
pub struct Batch<'a, T> {
    pub offset: usize,
    pub size: usize,
    pub dataset: &'a DataSet<T>,
}

/// One row of a batch, by its index within the batch.
#[derive(Debug, Clone)]
pub struct Row<'a, T> {
    pub row_idx: usize,
    pub batch: &'a Batch<'a, T>,
}

/// The table with the given shape and cells.
pub fn create_dataset<T>(rows: usize, cols: usize, data: Vec<Vec<T>>) -> (r: DataSet<T>)
    requires
        data@.len() == rows,
        forall|i: int| 0 <= i < rows ==> (#[trigger] data@[i])@.len() == cols,
    ensures
        r.rows == rows,
        r.cols == cols,
        r.data == data,
        r.wf(),
{
    DataSet { rows, cols, data }
}

/// The number of rows of batch `k` when `rows` rows are dealt to `n` batches:
/// the first `rows % n` batches hold one row more than the others.
pub open spec fn batch_size(rows: int, n: int, k: int) -> int {
    rows / n + if k < rows % n { 1int } else { 0int }
}

/// The first row of batch `k`: the sizes of the batches before it, added up.
pub open spec fn batch_offset(rows: int, n: int, k: int) -> int
    decreases k,
{
    if k <= 0 {
        0
    } else {
        batch_offset(rows, n, k - 1) + batch_size(rows, n, k - 1)
    }
}

/// The first `k` batches hold `k` times the common share, and one more row for
/// each of them that gets a row of the remainder.
pub proof fn lemma_batch_offset_closed_form(rows: int, n: int, k: int)
    requires
        0 <= rows,
        0 < n,
        0 <= k,
    ensures
        batch_offset(rows, n, k) == k * (rows / n) + if k < rows % n { k } else { rows % n },
    decreases k,
{
    if k > 0 {
        lemma_batch_offset_closed_form(rows, n, k - 1);
        assert(k * (rows / n) == (k - 1) * (rows / n) + rows / n) by (nonlinear_arith);
    } else {
        assert(0 * (rows / n) == 0) by (nonlinear_arith);
        assert(0 <= rows % n) by (nonlinear_arith)
            requires
                0 <= rows,
                0 < n,
        ;
    }
}

/// The batch sizes add up to the number of rows.
pub proof fn lemma_batch_sizes_sum_to_rows(rows: int, n: int)
    requires
        0 <= rows,
        0 < n,
    ensures
        batch_offset(rows, n, n) == rows,
{
    lemma_batch_offset_closed_form(rows, n, n);
    assert(rows % n < n && rows == n * (rows / n) + rows % n) by (nonlinear_arith)
        requires
            0 <= rows,
            0 < n,
    ;
}

/// Any two batch sizes differ by at most one row.
pub proof fn lemma_batch_sizes_within_one(rows: int, n: int, j: int, k: int)
    ensures
        batch_size(rows, n, j) - batch_size(rows, n, k) <= 1,
{
}

/// A batch ends where the next one starts, and no batch reaches past the table.
pub proof fn lemma_batch_offset_bounds(rows: int, n: int, k: int)
    requires
        0 <= rows,
        0 < n,
        0 <= k <= n,
    ensures
        0 <= batch_offset(rows, n, k) <= rows,
        k < n ==> 0 <= batch_size(rows, n, k) && batch_offset(rows, n, k) + batch_size(rows, n, k)
            <= rows,
    decreases n - k,
{
    assert(0 <= rows / n && 0 <= rows % n < n) by (nonlinear_arith)
        requires
            0 <= rows,
            0 < n,
    ;
    if k == n {
        lemma_batch_sizes_sum_to_rows(rows, n);
    } else {
        lemma_batch_offset_bounds(rows, n, k + 1);
        lemma_batch_offset_closed_form(rows, n, k);
        assert(0 <= k * (rows / n)) by (nonlinear_arith)
            requires
                0 <= k,
                0 <= rows / n,
        ;
    }
}

/// Deals the rows of `dataset` to `num_batches` batches of nearly equal size,
/// in row order.
pub fn create_batches<'a, T>(dataset: &'a DataSet<T>, num_batches: usize) -> (batches: Vec<
    Batch<'a, T>,
>)
    requires
        num_batches > 0,
    ensures
        batches@.len() == num_batches,
        forall|k: int|
            0 <= k < num_batches ==> {
                &&& (#[trigger] batches@[k]).size == batch_size(
                    dataset.rows as int,
                    num_batches as int,
                    k,
                )
                &&& batches@[k].offset == batch_offset(dataset.rows as int, num_batches as int, k)
                &&& batches@[k].offset + batches@[k].size <= dataset.rows
                &&& batches@[k].dataset == dataset
            },
        batch_offset(dataset.rows as int, num_batches as int, num_batches as int) == dataset.rows,
        forall|j: int, k: int|
            0 <= j < num_batches && 0 <= k < num_batches ==> (#[trigger] batches@[j]).size - (
            #[trigger] batches@[k]).size <= 1,
{
    let rows = dataset.rows;
    let base = rows / num_batches;
    let extra = rows % num_batches;
    let mut offset: usize = 0;
    let mut batches: Vec<Batch<'a, T>> = Vec::new();
    let mut k: usize = 0;
    while k < num_batches
        invariant
            0 < num_batches,
            rows == dataset.rows,
            base == rows / num_batches,
            extra == rows % num_batches,
            k <= num_batches,
            batches@.len() == k,
            offset == batch_offset(rows as int, num_batches as int, k as int),
            forall|i: int|
                0 <= i < k ==> {
                    &&& (#[trigger] batches@[i]).size == batch_size(
                        rows as int,
                        num_batches as int,
                        i,
                    )
                    &&& batches@[i].offset == batch_offset(rows as int, num_batches as int, i)
                    &&& batches@[i].offset + batches@[i].size <= rows
                    &&& batches@[i].dataset == dataset
                },
        decreases num_batches - k,
    {
        proof {
            lemma_batch_offset_bounds(rows as int, num_batches as int, k as int);
        }
        let size: usize = if k < extra {
            base + 1
        } else {
            base
        };
        batches.push(Batch { offset, size, dataset });
        offset = offset + size;
        k = k + 1;
    }
    proof {
        lemma_batch_sizes_sum_to_rows(rows as int, num_batches as int);
    }
    batches
}

/// The rows of a batch, one entry for each, in order.
pub fn split_rows<'a, T>(batch: &'a Batch<'a, T>) -> (rows: Vec<Row<'a, T>>)
    ensures
        rows@.len() == batch.size,
        forall|i: int|
            0 <= i < batch.size ==> (#[trigger] rows@[i]).row_idx == i && rows@[i].batch == batch,
{
    let mut rows: Vec<Row<'a, T>> = Vec::new();
    let mut i: usize = 0;
    while i < batch.size
        invariant
            i <= batch.size,
            rows@.len() == i,
            forall|k: int| 0 <= k < i ==> (#[trigger] rows@[k]).row_idx == k && rows@[k].batch == batch,
        decreases batch.size - i,
    {
        rows.push(Row { row_idx: i, batch });
        i = i + 1;
    }
    rows
}

/// `p` lists each of `0..n` exactly once.
pub open spec fn is_permutation(p: Seq<int>, n: nat) -> bool {
    &&& p.len() == n
    &&& forall|i: int| 0 <= i < n ==> 0 <= #[trigger] p[i] < n
    &&& forall|i: int, j: int| 0 <= i < j < n ==> p[i] != p[j]
}

/// `after` holds the rows of `before` in the order that `p` gives: row `i` of
/// `after` is row `p[i]` of `before`.
pub open spec fn rows_rearranged<T>(before: Grid<T>, after: Grid<T>, p: Seq<int>) -> bool {
    &&& after.rows == before.rows
    &&& after.cols == before.cols
    &&& after.cells.len() == before.cells.len()
    &&& after.cells.len() == p.len()
    &&& forall|i: int| 0 <= i < p.len() ==> #[trigger] after.cells[i] == before.cells[p[i]]
}

#[verifier::external_type_specification]
#[verifier::external_body]
pub struct ExThreadRng(rand::rngs::ThreadRng);

/// `rand::thread_rng`: the calling thread's generator. Nothing is claimed of
/// it. The call fails where the operating system hands out no entropy.
#[verifier::external_body]
fn thread_generator() -> rand::rngs::ThreadRng {
    rand::thread_rng()
}

/// `rand::Rng::gen_range` on an inclusive range of indices: some index from
/// `low` to `high`, both included. Which one is not said.
#[verifier::external_body]
fn random_between(rng: &mut rand::rngs::ThreadRng, low: usize, high: usize) -> (r: usize)
    requires
        low <= high,
    ensures
        low <= r <= high,
{
    rand::Rng::gen_range(rng, low..=high)
}

/// `rand::seq::SliceRandom::shuffle`: the entries are put in some order. None
/// is added, dropped or changed; which order comes out is not said.
#[verifier::external_body]
fn shuffle_indices(indices: &mut Vec<usize>, rng: &mut rand::rngs::ThreadRng)
    ensures
        final(indices)@.to_multiset() == old(indices)@.to_multiset(),
{
    rand::seq::SliceRandom::shuffle(indices.as_mut_slice(), rng)
}

/// Exchanges rows `i` and `j` of a table's storage.
fn swap_rows<T>(data: &mut Vec<Vec<T>>, i: usize, j: usize)
    requires
        i < old(data)@.len(),
        j < old(data)@.len(),
    ensures
        final(data)@ == old(data)@.update(i as int, old(data)@[j as int]).update(
            j as int,
            old(data)@[i as int],
        ),
{
    if i != j {
        let mut held: Vec<T> = Vec::new();
        core::mem::swap(&mut held, &mut data[i]);
        core::mem::swap(&mut held, &mut data[j]);
        core::mem::swap(&mut held, &mut data[i]);
    }
    assert(data@ =~= old(data)@.update(i as int, old(data)@[j as int]).update(
        j as int,
        old(data)@[i as int],
    ));
}

/// Exchanging two entries of a permutation leaves a permutation.
proof fn lemma_swap_keeps_permutation(p: Seq<int>, n: nat, i: int, j: int)
    requires
        is_permutation(p, n),
        0 <= i < n,
        0 <= j < n,
    ensures
        is_permutation(p.update(i, p[j]).update(j, p[i]), n),
{
    let q = p.update(i, p[j]).update(j, p[i]);
    assert forall|a: int, b: int| 0 <= a < b < n implies q[a] != q[b] by {
        let pa = if a == j { i } else if a == i { j } else { a };
        let pb = if b == j { i } else if b == i { j } else { b };
        assert(q[a] == p[pa]);
        assert(q[b] == p[pb]);
        assert(pa != pb);
        if pa < pb {
            assert(p[pa] != p[pb]);
        } else {
            assert(p[pb] != p[pa]);
        }
    }
}

/// Every target names a row.
pub open spec fn targets_fit(targets: Seq<usize>, rows: nat) -> bool {
    targets.len() == rows && forall|k: int| 0 <= k < rows ==> #[trigger] targets[k] < rows
}

/// The rows after the first `n` exchanges, where exchange `k` swaps row `k`
/// with row `targets[k]`.
pub open spec fn swaps_applied<R>(rows: Seq<R>, targets: Seq<usize>, n: nat) -> Seq<R>
    decreases n,
{
    if n == 0 {
        rows
    } else {
        let before = swaps_applied(rows, targets, (n - 1) as nat);
        before.update(n - 1, before[targets[n - 1] as int]).update(
            targets[n - 1] as int,
            before[n - 1],
        )
    }
}

/// The order that the first `n` exchanges put the rows in: entry `i` is the
/// row that ends up in place `i`.
pub open spec fn swap_order(targets: Seq<usize>, n: nat) -> Seq<int> {
    swaps_applied(Seq::new(targets.len(), |k: int| k), targets, n)
}

/// The exchanges put the rows in an order that depends on the targets alone,
/// and that order is a permutation.
pub proof fn lemma_swaps_rearrange<R>(rows: Seq<R>, targets: Seq<usize>, n: nat)
    requires
        targets_fit(targets, rows.len()),
        n <= rows.len(),
    ensures
        is_permutation(swap_order(targets, n), rows.len()),
        swaps_applied(rows, targets, n).len() == rows.len(),
        forall|i: int|
            0 <= i < rows.len() ==> #[trigger] swaps_applied(rows, targets, n)[i] == rows[swap_order(
                targets,
                n,
            )[i]],
    decreases n,
{
    let identity = Seq::new(targets.len(), |k: int| k);
    if n > 0 {
        lemma_swaps_rearrange(rows, targets, (n - 1) as nat);
        let p = swap_order(targets, (n - 1) as nat);
        assert(p == swaps_applied(identity, targets, (n - 1) as nat));
        lemma_swap_keeps_permutation(p, rows.len(), n - 1, targets[n - 1] as int);
    }
}

/// Exchanges row `k` with row `targets[k]`, for every `k` in turn, in both
/// tables alike.
pub fn swap_together<T>(data_a: &mut DataSet<T>, data_b: &mut DataSet<T>, targets: &Vec<usize>)
    requires
        old(data_a).rows == old(data_b).rows,
        old(data_a).wf(),
        old(data_b).wf(),
        targets_fit(targets@, old(data_a).rows as nat),
    ensures
        final(data_a).wf(),
        final(data_b).wf(),
        final(data_a)@.same_shape(old(data_a)@),
        final(data_b)@.same_shape(old(data_b)@),
        final(data_a)@.cells == swaps_applied(
            old(data_a)@.cells,
            targets@,
            old(data_a).rows as nat,
        ),
        final(data_b)@.cells == swaps_applied(
            old(data_b)@.cells,
            targets@,
            old(data_a).rows as nat,
        ),
        rows_rearranged(
            old(data_a)@,
            final(data_a)@,
            swap_order(targets@, old(data_a).rows as nat),
        ),
        rows_rearranged(
            old(data_b)@,
            final(data_b)@,
            swap_order(targets@, old(data_a).rows as nat),
        ),
        is_permutation(swap_order(targets@, old(data_a).rows as nat), old(data_a).rows as nat),
{
    let n = data_a.rows;
    let mut i: usize = 0;
    while i < n
        invariant
            i <= n,
            n == old(data_a).rows,
            targets_fit(targets@, n as nat),
            data_a.rows == old(data_a).rows,
            data_a.cols == old(data_a).cols,
            data_b.rows == old(data_b).rows,
            data_b.cols == old(data_b).cols,
            data_a.wf(),
            data_b.wf(),
            old(data_a).wf(),
            old(data_b).wf(),
            old(data_b).rows == n,
            data_a@.cells == swaps_applied(old(data_a)@.cells, targets@, i as nat),
            data_b@.cells == swaps_applied(old(data_b)@.cells, targets@, i as nat),
        decreases n - i,
    {
        let j = targets[i];
        let ghost before_a = data_a@.cells;
        let ghost before_b = data_b@.cells;
        swap_rows(&mut data_a.data, i, j);
        swap_rows(&mut data_b.data, i, j);
        proof {
            let m = (i + 1) as nat;
            assert((m - 1) as nat == i as nat);
            assert(data_a@.cells =~= before_a.update(i as int, before_a[j as int]).update(
                j as int,
                before_a[i as int],
            ));
            assert(data_b@.cells =~= before_b.update(i as int, before_b[j as int]).update(
                j as int,
                before_b[i as int],
            ));
        }
        i = i + 1;
    }
    proof {
        lemma_swaps_rearrange(old(data_a)@.cells, targets@, n as nat);
        lemma_swaps_rearrange(old(data_b)@.cells, targets@, n as nat);
    }
}

/// Puts the rows of two tables of equal height in a random order, the same
/// order for both: rows that faced each other before still do afterwards.
pub fn shuffle_together<T>(data_a: &mut DataSet<T>, data_b: &mut DataSet<T>)
    requires
        old(data_a).rows == old(data_b).rows,
        old(data_a).wf(),
        old(data_b).wf(),
    ensures
        final(data_a).wf(),
        final(data_b).wf(),
        exists|p: Seq<int>|
            {
                &&& is_permutation(p, old(data_a).rows as nat)
                &&& #[trigger] rows_rearranged(old(data_a)@, final(data_a)@, p)
                &&& rows_rearranged(old(data_b)@, final(data_b)@, p)
            },
{
    let n = data_a.rows;
    let mut rng = thread_generator();
    let mut targets: Vec<usize> = Vec::new();
    let mut i: usize = 0;
    while i < n
        invariant
            i <= n,
            targets@.len() == i,
            forall|k: int| 0 <= k < i ==> #[trigger] targets@[k] < n,
        decreases n - i,
    {
        let t = random_between(&mut rng, 0, n - 1);
        targets.push(t);
        i = i + 1;
    }
    let ghost drawn = targets@;
    shuffle_indices(&mut targets, &mut rng);
    proof {
        drawn.to_multiset_ensures();
        targets@.to_multiset_ensures();
        assert(targets@.len() == targets@.to_multiset().len());
        assert(drawn.len() == drawn.to_multiset().len());
        assert forall|k: int| 0 <= k < targets@.len() implies #[trigger] targets@[k] < n by {
            assert(targets@.to_multiset().count(targets@[k]) > 0);
            assert(drawn.contains(targets@[k]));
        }
    }
    swap_together(data_a, data_b, &targets);
    assert(rows_rearranged(old(data_a)@, data_a@, swap_order(targets@, n as nat)));
}

} // verus!
