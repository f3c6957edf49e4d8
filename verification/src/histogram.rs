use vstd::prelude::*;
use crate::matrix::Matrix;

verus! {

/// How many cells of `row` hold `value`.
pub open spec fn row_count(row: Seq<u16>, value: int) -> nat
    decreases row.len(),
{
    if row.len() == 0 {
        0
    } else {
        row_count(row.drop_last(), value) + if row.last() == value {
            1nat
        } else {
            0nat
        }
    }
}

/// How many cells of `grid` hold `value`.
pub open spec fn grid_count(grid: Seq<Seq<u16>>, value: int) -> nat
    decreases grid.len(),
{
    if grid.len() == 0 {
        0
    } else {
        grid_count(grid.drop_last(), value) + row_count(grid.last(), value)
    }
}

/// No cell of `grid` holds more than `max_val`.
pub open spec fn grid_within(grid: Seq<Seq<u16>>, max_val: int) -> bool {
    forall|y: int, x: int|
        0 <= y < grid.len() && 0 <= x < grid[y].len() ==> (#[trigger] grid[y][x]) <= max_val
}

/// The sum of `counts[from]`, ..., `counts[to - 1]`.
pub open spec fn sum_range(counts: Seq<usize>, from: int, to: int) -> int
    decreases to - from,
{
    if from >= to {
        0
    } else {
        sum_range(counts, from, to - 1) + counts[to - 1]
    }
}

/// A sum of counts is not negative, and a range splits at any point inside it.
pub proof fn lemma_sum_split(counts: Seq<usize>, from: int, mid: int, to: int)
    requires
        from <= mid <= to,
    ensures
        sum_range(counts, from, to) == sum_range(counts, from, mid) + sum_range(counts, mid, to),
        sum_range(counts, from, to) >= 0,
        sum_range(counts, from, mid) >= 0,
        sum_range(counts, mid, to) >= 0,
    decreases to - from,
{
    if mid < to {
        lemma_sum_split(counts, from, mid, to - 1);
    } else if from < mid {
        lemma_sum_split(counts, from, mid - 1, mid - 1);
    }
}

/// The sum over a range depends only on the counts inside it.
pub proof fn lemma_sum_same(a: Seq<usize>, b: Seq<usize>, from: int, to: int)
    requires
        forall|i: int| from <= i < to ==> a[i] == b[i],
    ensures
        sum_range(a, from, to) == sum_range(b, from, to),
    decreases to - from,
{
    if from < to {
        lemma_sum_same(a, b, from, to - 1);
    }
}

/// Where every count of a range is 0, so is the sum.
pub proof fn lemma_sum_zero(counts: Seq<usize>, from: int, to: int)
    requires
        forall|i: int| from <= i < to ==> counts[i] == 0,
    ensures
        sum_range(counts, from, to) == 0,
    decreases to - from,
{
    if from < to {
        lemma_sum_zero(counts, from, to - 1);
    }
}

/// Changing one count of a range changes the sum by as much.
pub proof fn lemma_sum_update(counts: Seq<usize>, at: int, count: usize, from: int, to: int)
    requires
        0 <= from <= at < to <= counts.len(),
    ensures
        sum_range(counts.update(at, count), from, to) == sum_range(counts, from, to) + count
            - counts[at],
{
    let changed = counts.update(at, count);
    lemma_sum_split(counts, from, at, to);
    lemma_sum_split(counts, at, at + 1, to);
    lemma_sum_split(changed, from, at, to);
    lemma_sum_split(changed, at, at + 1, to);
    lemma_sum_same(counts, changed, from, at);
    lemma_sum_same(counts, changed, at + 1, to);
    assert(sum_range(counts, at, at + 1) == sum_range(counts, at, at) + counts[at]);
    assert(sum_range(changed, at, at + 1) == sum_range(changed, at, at) + changed[at]);
}

/// A row holds at most as many cells of one value as it has cells.
pub proof fn lemma_row_count_bound(row: Seq<u16>, value: int)
    ensures
        row_count(row, value) <= row.len(),
    decreases row.len(),
{
    if row.len() > 0 {
        lemma_row_count_bound(row.drop_last(), value);
    }
}

/// A rectangular grid holds at most as many cells of one value as it has
/// cells.
pub proof fn lemma_grid_count_bound(grid: Seq<Seq<u16>>, width: nat, value: int)
    requires
        forall|y: int| 0 <= y < grid.len() ==> (#[trigger] grid[y]).len() == width,
    ensures
        grid_count(grid, value) <= grid.len() * width,
    decreases grid.len(),
{
    if grid.len() > 0 {
        let rest = grid.drop_last();
        assert forall|y: int| 0 <= y < rest.len() implies (#[trigger] rest[y]).len() == width by {
            assert(rest[y] == grid[y]);
        }
        lemma_grid_count_bound(rest, width, value);
        lemma_row_count_bound(grid.last(), value);
        assert(rest.len() * width + width == grid.len() * width) by (nonlinear_arith)
            requires
                rest.len() + 1 == grid.len(),
        ;
    } else {
        assert(grid.len() * width == 0) by (nonlinear_arith)
            requires
                grid.len() == 0,
        ;
    }
}

/// Whether no cell of `matrix` holds more than `max_val`.
pub fn within(matrix: &Matrix<u16>, max_val: u16) -> (b: bool)
    requires
        matrix.wf(),
    ensures
        b == grid_within(matrix@, max_val as int),
{
    let width = matrix.width();
    let height = matrix.height();
    let mut y: usize = 0;
    while y < height
        invariant
            y <= height,
            matrix.wf(),
            width == matrix.spec_width(),
            height == matrix.spec_height(),
            forall|j: int, i: int|
                0 <= j < y && 0 <= i < matrix@[j].len() ==> (#[trigger] matrix@[j][i]) <= max_val,
        decreases height - y,
    {
        let mut x: usize = 0;
        while x < width
            invariant
                x <= width,
                y < height,
                matrix.wf(),
                width == matrix.spec_width(),
                height == matrix.spec_height(),
                forall|j: int, i: int|
                    0 <= j < y && 0 <= i < matrix@[j].len() ==> (#[trigger] matrix@[j][i])
                        <= max_val,
                forall|i: int| 0 <= i < x ==> (#[trigger] matrix@[y as int][i]) <= max_val,
            decreases width - x,
        {
            if matrix.get(x, y) > max_val {
                assert(matrix@[y as int][x as int] > max_val);
                assert(matrix@[y as int].len() == width);
                return false;
            }
            x = x + 1;
        }
        assert(matrix@[y as int].len() == width);
        y = y + 1;
    }
    true
}

/// One bin for each value from 0 to a largest value, each holding how many
/// cells of a grid have that value.
pub struct Histogram {
    counts: Vec<usize>,
}

impl View for Histogram {
    type V = Seq<usize>;

    closed spec fn view(&self) -> Seq<usize> {
        self.counts@
    }
}

impl Histogram {
    /// The largest value that has a bin.
    pub open spec fn spec_max_val(&self) -> int {
        self@.len() - 1
    }

    /// The sum of all bins.
    pub open spec fn spec_total(&self) -> int {
        sum_range(self@, 0, self@.len() as int)
    }

    /// There is at least the bin for 0, and the bins together count no more
    /// than a machine word holds.
    pub open spec fn wf(&self) -> bool {
        &&& 0 < self@.len() <= usize::MAX
        &&& self.spec_total() <= usize::MAX
    }

    /// The bins hold the counts of `grid`.
    pub open spec fn counts_of(&self, grid: Seq<Seq<u16>>) -> bool {
        forall|v: int| 0 <= v < self@.len() ==> (#[trigger] self@[v]) == grid_count(grid, v)
    }

    /// Empty bins for the values 0 to `max_val`.
    pub fn new(max_val: usize) -> (h: Histogram)
        requires
            max_val < usize::MAX,
        ensures
            h.wf(),
            h.spec_max_val() == max_val,
            forall|v: int| 0 <= v <= max_val ==> (#[trigger] h@[v]) == 0,
    {
        let mut counts: Vec<usize> = Vec::new();
        let mut v: usize = 0;
        while v <= max_val
            invariant
                v <= max_val + 1,
                max_val < usize::MAX,
                counts@.len() == v,
                forall|i: int| 0 <= i < v ==> (#[trigger] counts@[i]) == 0,
            decreases max_val + 1 - v,
        {
            counts.push(0);
            v = v + 1;
        }
        proof {
            lemma_sum_zero(counts@, 0, counts@.len() as int);
        }
        Histogram { counts }
    }

    pub fn max_val(&self) -> (m: usize)
        requires
            self.wf(),
        ensures
            m == self.spec_max_val(),
    {
        self.counts.len() - 1
    }

    /// The number of bins.
    pub fn len(&self) -> (n: usize)
        ensures
            n == self@.len(),
    {
        self.counts.len()
    }

    /// The count in the bin for `value`.
    pub fn get(&self, value: usize) -> (n: usize)
        requires
            value < self@.len(),
        ensures
            n == self@[value as int],
    {
        self.counts[value]
    }

    /// Counts the cells of `matrix` anew, one bin per value.
    pub fn count(&mut self, matrix: &Matrix<u16>)
        requires
            old(self).wf(),
            matrix.wf(),
            grid_within(matrix@, old(self).spec_max_val()),
        ensures
            final(self).wf(),
            final(self).spec_max_val() == old(self).spec_max_val(),
            final(self).counts_of(matrix@),
            final(self).spec_total() == matrix.spec_width() * matrix.spec_height(),
    {
        let bins = self.counts.len();
        let mut i: usize = 0;
        while i < bins
            invariant
                i <= bins,
                self.counts@.len() == bins,
                forall|v: int| 0 <= v < i ==> (#[trigger] self.counts@[v]) == 0,
            decreases bins - i,
        {
            self.counts[i] = 0;
            i = i + 1;
        }
        let height = matrix.height();
        let width = matrix.width();
        let mut y: usize = 0;
        proof {
            assert(matrix@.take(0) =~= Seq::<Seq<u16>>::empty());
            lemma_sum_zero(self.counts@, 0, bins as int);
            assert(height * width == width * height) by (nonlinear_arith);
        }
        while y < height
            invariant
                y <= height,
                matrix.wf(),
                height == matrix.spec_height(),
                width == matrix.spec_width(),
                self.counts@.len() == bins,
                bins > 0,
                grid_within(matrix@, bins - 1),
                height * width <= usize::MAX,
                sum_range(self.counts@, 0, bins as int) == y * width,
                forall|v: int|
                    0 <= v < bins ==> (#[trigger] self.counts@[v]) == grid_count(
                        matrix@.take(y as int),
                        v,
                    ),
            decreases height - y,
        {
            let mut x: usize = 0;
            let ghost row = matrix@[y as int];
            assert(row.take(0) =~= Seq::<u16>::empty());
            while x < width
                invariant
                    x <= width,
                    y < height,
                    matrix.wf(),
                    height == matrix.spec_height(),
                    width == matrix.spec_width(),
                    row == matrix@[y as int],
                    row.len() == width,
                    self.counts@.len() == bins,
                    bins > 0,
                    grid_within(matrix@, bins - 1),
                    height * width <= usize::MAX,
                    sum_range(self.counts@, 0, bins as int) == y * width + x,
                    forall|v: int|
                        0 <= v < bins ==> (#[trigger] self.counts@[v]) == grid_count(
                            matrix@.take(y as int),
                            v,
                        ) + row_count(row.take(x as int), v),
                decreases width - x,
            {
                let value = matrix.get(x, y) as usize;
                proof {
                    let done = matrix@.take(y as int);
                    let next = row.take(x as int + 1);
                    assert(next.drop_last() =~= row.take(x as int));
                    assert(next.last() == row[x as int]);
                    assert(row[x as int] == matrix@[y as int][x as int]);
                    let whole = matrix@.take(y as int + 1);
                    assert(whole.drop_last() =~= done);
                    assert(whole.last() == row);
                    assert forall|r: int| 0 <= r < whole.len() implies (#[trigger] whole[r]).len()
                        == width by {
                        assert(whole[r] == matrix@[r]);
                    }
                    lemma_grid_count_bound(done, width as nat, value as int);
                    lemma_row_count_bound(row.take(x as int), value as int);
                    assert(y * width + x < height * width) by (nonlinear_arith)
                        requires
                            y < height,
                            x < width,
                    ;
                    assert(done.len() * width == y * width);
                    lemma_sum_update(
                        self.counts@,
                        value as int,
                        (self.counts@[value as int] + 1) as usize,
                        0,
                        bins as int,
                    );
                }
                self.counts[value] = self.counts[value] + 1;
                x = x + 1;
            }
            proof {
                assert(row.take(width as int) =~= row);
                let whole = matrix@.take(y as int + 1);
                assert(whole.drop_last() =~= matrix@.take(y as int));
                assert(whole.last() == row);
                assert(y * width + width == (y + 1) * width) by (nonlinear_arith);
            }
            y = y + 1;
        }
        assert(matrix@.take(height as int) =~= matrix@);
    }
}

} // verus!
