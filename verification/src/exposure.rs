use vstd::prelude::*;
use crate::histogram::{grid_count, grid_within, lemma_sum_split, row_count, sum_range, Histogram};
use crate::matrix::{rectangular, Matrix};

verus! {

/// A share `numer / denom` of a whole, not negative.
#[derive(Clone, Copy, Debug, PartialEq, Eq)]
pub struct Ratio {
    pub numer: u32,
    pub denom: u32,
}

impl Ratio {
    pub open spec fn wf(&self) -> bool {
        self.denom > 0
    }

    /// `sum` is more than this share of `total`.
    pub open spec fn exceeded_by(&self, sum: int, total: int) -> bool {
        sum * self.denom > total * self.numer
    }

    /// Whether `sum` is more than this share of `total`.
    pub fn is_exceeded_by(&self, sum: usize, total: usize) -> (b: bool)
        ensures
            b == self.exceeded_by(sum as int, total as int),
    {
        let denom = self.denom as u128;
        let numer = self.numer as u128;
        proof {
            assert(sum * denom <= 0xFFFF_FFFF_FFFF_FFFF * 0xFFFF_FFFF) by (nonlinear_arith)
                requires
                    0 <= sum <= 0xFFFF_FFFF_FFFF_FFFF,
                    0 <= denom <= 0xFFFF_FFFF,
            ;
            assert(total * numer <= 0xFFFF_FFFF_FFFF_FFFF * 0xFFFF_FFFF) by (nonlinear_arith)
                requires
                    0 <= total <= 0xFFFF_FFFF_FFFF_FFFF,
                    0 <= numer <= 0xFFFF_FFFF,
            ;
        }
        (sum as u128) * denom > (total as u128) * numer
    }
}

/// The two shares together are less than the whole.
pub open spec fn shares_leave_room(lower: Ratio, upper: Ratio) -> bool {
    lower.numer * upper.denom + upper.numer * lower.denom < lower.denom * upper.denom
}

/// Whether `lower` and `upper` are shares that together are less than the
/// whole, as a window asks of the shares that it is cut by.
pub fn leave_room(lower: Ratio, upper: Ratio) -> (b: bool)
    ensures
        b == (lower.wf() && upper.wf() && shares_leave_room(lower, upper)),
{
    if lower.denom == 0 || upper.denom == 0 {
        return false;
    }
    let ln = lower.numer as u128;
    let ld = lower.denom as u128;
    let un = upper.numer as u128;
    let ud = upper.denom as u128;
    proof {
        assert(ln * ud <= 0xFFFF_FFFF * 0xFFFF_FFFF && un * ld <= 0xFFFF_FFFF * 0xFFFF_FFFF && ld
            * ud <= 0xFFFF_FFFF * 0xFFFF_FFFF) by (nonlinear_arith)
            requires
                0 <= ln <= 0xFFFF_FFFF,
                0 <= ld <= 0xFFFF_FFFF,
                0 <= un <= 0xFFFF_FFFF,
                0 <= ud <= 0xFFFF_FFFF,
        ;
    }
    ln * ud + un * ld < ld * ud
}

/// A skew estimate `numer / denom`, with `denom` positive.
#[derive(Clone, Copy, Debug, PartialEq, Eq)]
pub struct Bias {
    pub numer: i128,
    pub denom: i128,
}

impl Bias {
    pub open spec fn wf(&self) -> bool {
        self.denom > 0
    }

    /// The estimate lies between -1 and 1.
    pub open spec fn in_unit_range(&self) -> bool {
        -self.denom <= self.numer <= self.denom
    }
}

/// The display window that an analysis derives from a grid: the range of
/// values worth showing and the skew of the values inside it.
#[derive(Clone, Copy, Debug, PartialEq, Eq)]
pub struct ExposureInfo {
    pub floor: usize,
    pub ceil: usize,
    pub bias: Bias,
}

impl ExposureInfo {
    /// The window is not inverted and its skew lies between -1 and 1.
    pub open spec fn wf(&self) -> bool {
        &&& self.floor <= self.ceil
        &&& self.bias.wf()
        &&& self.bias.in_unit_range()
    }
}

/// One bin down, but never below 0; bin 1 goes down to 0 as well.
pub open spec fn rewind(i: int) -> int {
    if i <= 1 {
        0
    } else {
        i - 1
    }
}

/// The bins from 0 to `i` together exceed the share `r` of `total`.
pub open spec fn low_crossed(counts: Seq<usize>, total: int, r: Ratio, i: int) -> bool {
    r.exceeded_by(sum_range(counts, 0, i + 1), total)
}

/// `i` is the first bin, counting up from 0, at which the running sum
/// exceeds the share `r` of `total`.
pub open spec fn is_low_crossing(counts: Seq<usize>, total: int, r: Ratio, i: int) -> bool {
    &&& 0 <= i < counts.len()
    &&& low_crossed(counts, total, r, i)
    &&& forall|j: int| 0 <= j < i ==> !low_crossed(counts, total, r, j)
}

/// The bin at which the sweep from the low end crosses, if it does.
pub open spec fn low_crossing_of(counts: Seq<usize>, total: int, r: Ratio) -> Option<int> {
    if exists|i: int| is_low_crossing(counts, total, r, i) {
        Some(choose|i: int| is_low_crossing(counts, total, r, i))
    } else {
        None
    }
}

/// The bins from `i` to the last together exceed the share `r` of `total`.
pub open spec fn high_crossed(counts: Seq<usize>, total: int, r: Ratio, i: int) -> bool {
    r.exceeded_by(sum_range(counts, i, counts.len() as int), total)
}

/// `i` is the first bin, counting down from the last, at which the running
/// sum exceeds the share `r` of `total`.
pub open spec fn is_high_crossing(counts: Seq<usize>, total: int, r: Ratio, i: int) -> bool {
    &&& 0 <= i < counts.len()
    &&& high_crossed(counts, total, r, i)
    &&& forall|j: int| i < j < counts.len() ==> !high_crossed(counts, total, r, j)
}

/// The bin at which the sweep from the high end crosses, if it does.
pub open spec fn high_crossing_of(counts: Seq<usize>, total: int, r: Ratio) -> Option<int> {
    if exists|i: int| is_high_crossing(counts, total, r, i) {
        Some(choose|i: int| is_high_crossing(counts, total, r, i))
    } else {
        None
    }
}

/// The floor of the window: one bin below the low crossing, 0 without one.
pub open spec fn floor_of(counts: Seq<usize>, total: int, r: Ratio) -> int {
    match low_crossing_of(counts, total, r) {
        Some(i) => rewind(i),
        None => 0,
    }
}

/// The ceiling of the window: one bin below the high crossing, 0 without
/// one.
pub open spec fn ceil_of(counts: Seq<usize>, total: int, r: Ratio) -> int {
    match high_crossing_of(counts, total, r) {
        Some(i) => rewind(i),
        None => 0,
    }
}

/// The bins from `lower` to `i` together hold more than `percent` hundredths
/// of what the bins from `lower` to `upper` hold.
pub open spec fn percentile_passed(
    counts: Seq<usize>,
    lower: int,
    upper: int,
    percent: int,
    i: int,
) -> bool {
    sum_range(counts, lower, i + 1) * 100 > sum_range(counts, lower, upper + 1) * percent
}

/// `i` is the first bin of `lower..=upper` at which the running sum passes
/// the percentile.
pub open spec fn is_percentile_bin(
    counts: Seq<usize>,
    lower: int,
    upper: int,
    percent: int,
    i: int,
) -> bool {
    &&& lower <= i <= upper
    &&& percentile_passed(counts, lower, upper, percent, i)
    &&& forall|j: int| lower <= j < i ==> !percentile_passed(counts, lower, upper, percent, j)
}

/// The bin of the percentile inside `lower..=upper`; bin 0 where the range
/// has none.
pub open spec fn percentile_bin_of(counts: Seq<usize>, lower: int, upper: int, percent: int) -> int {
    if exists|i: int| is_percentile_bin(counts, lower, upper, percent, i) {
        choose|i: int| is_percentile_bin(counts, lower, upper, percent, i)
    } else {
        0
    }
}

/// The skew of the bins `lower..=upper`.
///
/// A range of one bin has none. A range of two bins leans to the fuller one,
/// to the lower one on a tie. Any other range maps the bins of its 16th, 50th
/// and 84th percentile from `lower..=upper` onto -1..=1 and takes their mean:
/// with `p` the sum of the three bins, `(2p - 3(lower + upper)) / (3(upper -
/// lower))`, written with a positive denominator.
pub open spec fn bias_of(counts: Seq<usize>, lower: int, upper: int) -> Bias {
    if lower == upper {
        Bias { numer: 0, denom: 1 }
    } else if upper == lower + 1 {
        if counts[lower] < counts[upper] {
            Bias { numer: -1i128, denom: 1 }
        } else {
            Bias { numer: 1, denom: 1 }
        }
    } else {
        let p = percentile_bin_of(counts, lower, upper, 16) + percentile_bin_of(
            counts,
            lower,
            upper,
            50,
        ) + percentile_bin_of(counts, lower, upper, 84);
        if lower < upper {
            Bias { numer: (2 * p - 3 * (lower + upper)) as i128, denom: (3 * (upper - lower)) as i128 }
        } else {
            Bias { numer: (3 * (lower + upper) - 2 * p) as i128, denom: (3 * (lower - upper)) as i128 }
        }
    }
}

/// The window that the bins `counts` of a grid of `total` cells give for the
/// shares `lower` and `upper`.
pub open spec fn exposure_of(counts: Seq<usize>, total: int, lower: Ratio, upper: Ratio) -> ExposureInfo {
    let floor = floor_of(counts, total, lower);
    let ceil = ceil_of(counts, total, upper);
    ExposureInfo { floor: floor as usize, ceil: ceil as usize, bias: bias_of(counts, floor, ceil) }
}

/// Finds the range of values that a grid makes use of, and how the values
/// lean inside that range. It keeps its bins between calls.
pub struct ExposureUtil {
    histogram: Histogram,
}

impl ExposureUtil {
    /// The bins, as last counted.
    pub closed spec fn bins(&self) -> Seq<usize> {
        self.histogram@
    }

    pub closed spec fn wf(&self) -> bool {
        self.histogram.wf()
    }

    /// The largest value that has a bin.
    pub open spec fn spec_max_val(&self) -> int {
        self.bins().len() - 1
    }

    /// The sum of all bins.
    pub open spec fn spec_total(&self) -> int {
        sum_range(self.bins(), 0, self.bins().len() as int)
    }

    /// An analyzer for grids whose cells go up to `max_val`.
    pub fn new(max_val: usize) -> (util: ExposureUtil)
        requires
            max_val < usize::MAX,
        ensures
            util.wf(),
            util.spec_max_val() == max_val,
            forall|v: int| 0 <= v <= max_val ==> (#[trigger] util.bins()[v]) == 0,
    {
        ExposureUtil { histogram: Histogram::new(max_val) }
    }

    /// Makes room for cells up to `max_val`; the counts start over.
    pub fn set_max_val(&mut self, max_val: usize)
        requires
            max_val < usize::MAX,
        ensures
            final(self).wf(),
            final(self).spec_max_val() == max_val,
            forall|v: int| 0 <= v <= max_val ==> (#[trigger] final(self).bins()[v]) == 0,
    {
        self.histogram = Histogram::new(max_val);
    }

    /// Counts the cells of `matrix` anew, one bin per value.
    pub fn count(&mut self, matrix: &Matrix<u16>)
        requires
            old(self).wf(),
            matrix.wf(),
            grid_within(matrix@, old(self).spec_max_val()),
        ensures
            final(self).wf(),
            final(self).spec_max_val() == old(self).spec_max_val(),
            forall|v: int|
                0 <= v <= final(self).spec_max_val() ==> (#[trigger] final(self).bins()[v])
                    == grid_count(matrix@, v),
            final(self).spec_total() == matrix.spec_width() * matrix.spec_height(),
    {
        self.histogram.count(matrix);
    }

    /// The bin at which the running sum, swept up from bin 0, first exceeds
    /// the share `ratio` of `total`.
    pub fn low_crossing(&self, total: usize, ratio: Ratio) -> (found: Option<usize>)
        requires
            self.wf(),
        ensures
            found matches Some(i) ==> low_crossing_of(self.bins(), total as int, ratio) == Some(
                i as int,
            ),
            found is None ==> low_crossing_of(self.bins(), total as int, ratio) is None,
    {
        let bins = self.histogram.len();
        let mut sum: usize = 0;
        let mut i: usize = 0;
        while i < bins
            invariant
                i <= bins,
                bins == self.bins().len(),
                self.wf(),
                sum == sum_range(self.bins(), 0, i as int),
                forall|j: int| 0 <= j < i ==> !low_crossed(self.bins(), total as int, ratio, j),
            decreases bins - i,
        {
            proof {
                lemma_sum_split(self.bins(), 0, i as int + 1, bins as int);
            }
            sum = sum + self.histogram.get(i);
            if ratio.is_exceeded_by(sum, total) {
                proof {
                    lemma_low_crossing_unique(self.bins(), total as int, ratio, i as int);
                }
                return Some(i);
            }
            i = i + 1;
        }
        proof {
            assert forall|k: int| !is_low_crossing(self.bins(), total as int, ratio, k) by {}
        }
        None
    }

    /// The bin at which the running sum, swept down from the last bin, first
    /// exceeds the share `ratio` of `total`.
    pub fn high_crossing(&self, total: usize, ratio: Ratio) -> (found: Option<usize>)
        requires
            self.wf(),
        ensures
            found matches Some(i) ==> high_crossing_of(self.bins(), total as int, ratio) == Some(
                i as int,
            ),
            found is None ==> high_crossing_of(self.bins(), total as int, ratio) is None,
    {
        let bins = self.histogram.len();
        let mut sum: usize = 0;
        let mut i: usize = bins;
        while i > 0
            invariant
                i <= bins,
                bins == self.bins().len(),
                self.wf(),
                sum == sum_range(self.bins(), i as int, bins as int),
                forall|j: int| i <= j < bins ==> !high_crossed(self.bins(), total as int, ratio, j),
            decreases i,
        {
            i = i - 1;
            proof {
                lemma_sum_split(self.bins(), 0, i as int, bins as int);
                lemma_sum_split(self.bins(), i as int, i as int + 1, bins as int);
                assert(sum_range(self.bins(), i as int, i as int + 1) == sum_range(
                    self.bins(),
                    i as int,
                    i as int,
                ) + self.bins()[i as int]);
            }
            sum = sum + self.histogram.get(i);
            if ratio.is_exceeded_by(sum, total) {
                proof {
                    lemma_high_crossing_unique(self.bins(), total as int, ratio, i as int);
                }
                return Some(i);
            }
        }
        proof {
            assert forall|k: int| !is_high_crossing(self.bins(), total as int, ratio, k) by {}
        }
        None
    }

    /// The range of values in use: the floor from the sweep up, which leaves
    /// out the share `lower` of the `total` cells, the ceiling from the sweep
    /// down, which leaves out the share `upper`.
    pub fn get_range(&self, total: usize, lower: Ratio, upper: Ratio) -> (range: (usize, usize))
        requires
            self.wf(),
        ensures
            range.0 == floor_of(self.bins(), total as int, lower),
            range.1 == ceil_of(self.bins(), total as int, upper),
            range.0 <= self.spec_max_val(),
            range.1 <= self.spec_max_val(),
    {
        let lower_index = match self.low_crossing(total, lower) {
            Some(i) => if i <= 1 {
                0
            } else {
                i - 1
            },
            None => 0,
        };
        let upper_index = match self.high_crossing(total, upper) {
            Some(i) => if i <= 1 {
                0
            } else {
                i - 1
            },
            None => 0,
        };
        (lower_index, upper_index)
    }

    /// What the bins from `lower` to `upper` hold together.
    pub fn range_total(&self, lower: usize, upper: usize) -> (sum: usize)
        requires
            self.wf(),
            upper < self.bins().len(),
        ensures
            sum == sum_range(self.bins(), lower as int, upper + 1),
    {
        let bins = self.histogram.len();
        let mut sum: usize = 0;
        let mut i: usize = lower;
        while i <= upper
            invariant
                lower <= i,
                i <= upper + 1 || i == lower,
                upper < bins,
                bins == self.bins().len(),
                self.wf(),
                sum == sum_range(self.bins(), lower as int, i as int),
            decreases upper + 1 - i,
        {
            proof {
                lemma_sum_split(self.bins(), 0, lower as int, self.bins().len() as int);
                lemma_sum_split(self.bins(), lower as int, i + 1, self.bins().len() as int);
            }
            sum = sum + self.histogram.get(i);
            i = i + 1;
        }
        sum
    }

    /// The first bin of `lower..=upper` at which the running sum passes
    /// `percent` hundredths of what the range holds.
    pub fn percentile_bin(&self, lower: usize, upper: usize, percent: u8) -> (found: Option<usize>)
        requires
            self.wf(),
            upper < self.bins().len(),
        ensures
            found matches Some(i) ==> is_percentile_bin(
                self.bins(),
                lower as int,
                upper as int,
                percent as int,
                i as int,
            ),
            found is None ==> forall|k: int|
                !is_percentile_bin(self.bins(), lower as int, upper as int, percent as int, k),
    {
        let whole = self.range_total(lower, upper);
        let bins = self.histogram.len();
        let mut sum: usize = 0;
        let mut i: usize = lower;
        while i <= upper
            invariant
                lower <= i,
                i <= upper + 1 || i == lower,
                upper < bins,
                bins == self.bins().len(),
                self.wf(),
                whole == sum_range(self.bins(), lower as int, upper + 1),
                sum == sum_range(self.bins(), lower as int, i as int),
                forall|j: int|
                    lower <= j < i ==> !percentile_passed(
                        self.bins(),
                        lower as int,
                        upper as int,
                        percent as int,
                        j,
                    ),
            decreases upper + 1 - i,
        {
            proof {
                lemma_sum_split(self.bins(), 0, lower as int, self.bins().len() as int);
                lemma_sum_split(self.bins(), lower as int, i + 1, self.bins().len() as int);
            }
            sum = sum + self.histogram.get(i);
            proof {
                assert(sum * 100 <= 0xFFFF_FFFF_FFFF_FFFF * 100) by (nonlinear_arith)
                    requires
                        0 <= sum <= 0xFFFF_FFFF_FFFF_FFFF,
                ;
                assert(whole * percent <= 0xFFFF_FFFF_FFFF_FFFF * 255) by (nonlinear_arith)
                    requires
                        0 <= whole <= 0xFFFF_FFFF_FFFF_FFFF,
                        0 <= percent <= 255,
                ;
            }
            if (sum as u128) * 100 > (whole as u128) * (percent as u128) {
                return Some(i);
            }
            i = i + 1;
        }
        None
    }

    /// The skew of the bins from `lower` to `upper`: see [`bias_of`].
    pub fn calc_bias(&self, lower: usize, upper: usize) -> (bias: Bias)
        requires
            self.wf(),
            lower < self.bins().len(),
            upper < self.bins().len(),
        ensures
            bias == bias_of(self.bins(), lower as int, upper as int),
    {
        if lower == upper {
            return Bias { numer: 0, denom: 1 };
        }
        if lower < upper && upper - lower == 1 {
            return if self.histogram.get(lower) < self.histogram.get(upper) {
                Bias { numer: -1, denom: 1 }
            } else {
                Bias { numer: 1, denom: 1 }
            };
        }
        let i_a = self.percentile_bin_or_zero(lower, upper, 16);
        let i_b = self.percentile_bin_or_zero(lower, upper, 50);
        let i_c = self.percentile_bin_or_zero(lower, upper, 84);
        let p: i128 = i_a as i128 + i_b as i128 + i_c as i128;
        let ends: i128 = lower as i128 + upper as i128;
        if lower < upper {
            Bias { numer: 2 * p - 3 * ends, denom: 3 * (upper as i128 - lower as i128) }
        } else {
            Bias { numer: 3 * ends - 2 * p, denom: 3 * (lower as i128 - upper as i128) }
        }
    }

    /// The bin of a percentile inside `lower..=upper`, bin 0 where the range
    /// has none.
    fn percentile_bin_or_zero(&self, lower: usize, upper: usize, percent: u8) -> (bin: usize)
        requires
            self.wf(),
            upper < self.bins().len(),
        ensures
            bin == percentile_bin_of(self.bins(), lower as int, upper as int, percent as int),
            bin < self.bins().len(),
    {
        match self.percentile_bin(lower, upper, percent) {
            Some(i) => {
                proof {
                    lemma_percentile_bin_unique(
                        self.bins(),
                        lower as int,
                        upper as int,
                        percent as int,
                        i as int,
                    );
                }
                i
            },
            None => 0,
        }
    }

    /// Counts the cells of `matrix` and derives its display window: the
    /// range that is left when the share `lower` of the cells is cut from
    /// the low end and the share `upper` from the high end, and the skew of
    /// the cells inside that range. The two shares together must leave some
    /// of the cells: the window is then never inverted.
    pub fn calc(&mut self, matrix: &Matrix<u16>, lower: Ratio, upper: Ratio) -> (info: ExposureInfo)
        requires
            old(self).wf(),
            matrix.wf(),
            grid_within(matrix@, old(self).spec_max_val()),
            lower.wf(),
            upper.wf(),
            shares_leave_room(lower, upper),
        ensures
            final(self).wf(),
            final(self).spec_max_val() == old(self).spec_max_val(),
            forall|v: int|
                0 <= v <= final(self).spec_max_val() ==> (#[trigger] final(self).bins()[v])
                    == grid_count(matrix@, v),
            info == exposure_of(
                final(self).bins(),
                (matrix.spec_width() * matrix.spec_height()) as int,
                lower,
                upper,
            ),
            info.wf(),
            info.ceil <= final(self).spec_max_val(),
    {
        self.count(matrix);
        let total = matrix.width() * matrix.height();
        let range = self.get_range(total, lower, upper);
        let bias = self.calc_bias(range.0, range.1);
        proof {
            assert(total > 0) by (nonlinear_arith)
                requires
                    total == matrix.spec_width() * matrix.spec_height(),
                    matrix.spec_width() > 0,
                    matrix.spec_height() > 0,
            ;
            lemma_window_valid(self.bins(), total as int, lower, upper);
        }
        ExposureInfo { floor: range.0, ceil: range.1, bias }
    }
}

/// A percentile falls into one bin only.
pub proof fn lemma_percentile_bin_unique(
    counts: Seq<usize>,
    lower: int,
    upper: int,
    percent: int,
    i: int,
)
    requires
        is_percentile_bin(counts, lower, upper, percent, i),
    ensures
        percentile_bin_of(counts, lower, upper, percent) == i,
{
    let k = choose|k: int| is_percentile_bin(counts, lower, upper, percent, k);
    assert(is_percentile_bin(counts, lower, upper, percent, k));
    if k < i {
        assert(!percentile_passed(counts, lower, upper, percent, k));
    } else if i < k {
        assert(!percentile_passed(counts, lower, upper, percent, i));
    }
}

/// A sweep up crosses at one bin only.
pub proof fn lemma_low_crossing_unique(counts: Seq<usize>, total: int, r: Ratio, i: int)
    requires
        is_low_crossing(counts, total, r, i),
    ensures
        low_crossing_of(counts, total, r) == Some(i),
{
    let k = choose|k: int| is_low_crossing(counts, total, r, k);
    assert(is_low_crossing(counts, total, r, k));
    if k < i {
        assert(!low_crossed(counts, total, r, k));
    } else if i < k {
        assert(!low_crossed(counts, total, r, i));
    }
}

/// A sweep down crosses at one bin only.
pub proof fn lemma_high_crossing_unique(counts: Seq<usize>, total: int, r: Ratio, i: int)
    requires
        is_high_crossing(counts, total, r, i),
    ensures
        high_crossing_of(counts, total, r) == Some(i),
{
    let k = choose|k: int| is_high_crossing(counts, total, r, k);
    assert(is_high_crossing(counts, total, r, k));
    if k < i {
        assert(!high_crossed(counts, total, r, i));
    } else if i < k {
        assert(!high_crossed(counts, total, r, k));
    }
}

/// Where the sweep up has crossed by bin `k`, there is a bin at which it
/// crosses first.
pub proof fn lemma_low_crossing_exists(counts: Seq<usize>, total: int, r: Ratio, k: int)
    requires
        0 <= k < counts.len(),
        low_crossed(counts, total, r, k),
    ensures
        exists|i: int| 0 <= i <= k && is_low_crossing(counts, total, r, i),
    decreases k,
{
    if exists|j: int| 0 <= j < k && low_crossed(counts, total, r, j) {
        let j = choose|j: int| 0 <= j < k && low_crossed(counts, total, r, j);
        lemma_low_crossing_exists(counts, total, r, j);
        let i = choose|i: int| 0 <= i <= j && is_low_crossing(counts, total, r, i);
        assert(0 <= i <= k && is_low_crossing(counts, total, r, i));
    } else {
        assert(is_low_crossing(counts, total, r, k));
    }
}

/// Where the sweep down has crossed by bin `k`, there is a bin at which it
/// crosses first.
pub proof fn lemma_high_crossing_exists(counts: Seq<usize>, total: int, r: Ratio, k: int)
    requires
        0 <= k < counts.len(),
        high_crossed(counts, total, r, k),
    ensures
        exists|i: int| k <= i < counts.len() && is_high_crossing(counts, total, r, i),
    decreases counts.len() - k,
{
    if exists|j: int| k < j < counts.len() && high_crossed(counts, total, r, j) {
        let j = choose|j: int| k < j < counts.len() && high_crossed(counts, total, r, j);
        lemma_high_crossing_exists(counts, total, r, j);
        let i = choose|i: int| j <= i < counts.len() && is_high_crossing(counts, total, r, i);
        assert(k <= i < counts.len() && is_high_crossing(counts, total, r, i));
    } else {
        assert(is_high_crossing(counts, total, r, k));
    }
}

/// Where the running sum of a range has passed a percentile by bin `k`,
/// there is a bin at which it passes it first.
pub proof fn lemma_percentile_bin_exists(
    counts: Seq<usize>,
    lower: int,
    upper: int,
    percent: int,
    k: int,
)
    requires
        lower <= k <= upper,
        percentile_passed(counts, lower, upper, percent, k),
    ensures
        exists|i: int| lower <= i <= k && is_percentile_bin(counts, lower, upper, percent, i),
    decreases k - lower,
{
    if exists|j: int| lower <= j < k && percentile_passed(counts, lower, upper, percent, j) {
        let j = choose|j: int| lower <= j < k && percentile_passed(counts, lower, upper, percent, j);
        lemma_percentile_bin_exists(counts, lower, upper, percent, j);
        let i = choose|i: int|
            lower <= i <= j && is_percentile_bin(counts, lower, upper, percent, i);
        assert(lower <= i <= k && is_percentile_bin(counts, lower, upper, percent, i));
    } else {
        assert(is_percentile_bin(counts, lower, upper, percent, k));
    }
}

/// The bin of a percentile lies inside its range, where the range starts at
/// bin 0 or holds anything at all.
pub proof fn lemma_percentile_bin_inside(counts: Seq<usize>, lower: int, upper: int, percent: int)
    requires
        0 <= lower <= upper,
        0 <= percent < 100,
        lower == 0 || sum_range(counts, lower, upper + 1) > 0,
    ensures
        lower <= percentile_bin_of(counts, lower, upper, percent) <= upper,
{
    if exists|i: int| is_percentile_bin(counts, lower, upper, percent, i) {
    } else {
        if sum_range(counts, lower, upper + 1) > 0 {
            let whole = sum_range(counts, lower, upper + 1);
            assert(whole * 100 > whole * percent) by (nonlinear_arith)
                requires
                    whole > 0,
                    0 <= percent < 100,
            ;
            assert(percentile_passed(counts, lower, upper, percent, upper));
            lemma_percentile_bin_exists(counts, lower, upper, percent, upper);
        }
    }
}

/// The skew of a range that is not inverted lies between -1 and 1, where the
/// range starts at bin 0 or holds anything at all.
pub proof fn lemma_bias_in_unit_range(counts: Seq<usize>, lower: int, upper: int)
    requires
        0 <= lower <= upper <= usize::MAX,
        lower == 0 || sum_range(counts, lower, upper + 1) > 0,
    ensures
        bias_of(counts, lower, upper).wf(),
        bias_of(counts, lower, upper).in_unit_range(),
{
    if lower != upper && upper != lower + 1 {
        lemma_percentile_bin_inside(counts, lower, upper, 16);
        lemma_percentile_bin_inside(counts, lower, upper, 50);
        lemma_percentile_bin_inside(counts, lower, upper, 84);
    }
}

/// Shares that together are less than the whole are each less than the
/// whole.
pub proof fn lemma_shares_below_whole(lower: Ratio, upper: Ratio)
    requires
        lower.wf(),
        upper.wf(),
        shares_leave_room(lower, upper),
    ensures
        lower.numer < lower.denom,
        upper.numer < upper.denom,
{
    let ln = lower.numer as int;
    let ld = lower.denom as int;
    let un = upper.numer as int;
    let ud = upper.denom as int;
    assert(ln < ld && un < ud) by (nonlinear_arith)
        requires
            ln * ud + un * ld < ld * ud,
            ln >= 0,
            un >= 0,
            ld > 0,
            ud > 0,
    ;
}

/// Where the two shares together are less than the whole, the sweeps of a
/// grid that has cells meet in order: the floor is not above the ceiling.
pub proof fn lemma_floor_not_above_ceil(counts: Seq<usize>, total: int, lower: Ratio, upper: Ratio)
    requires
        counts.len() > 0,
        total > 0,
        sum_range(counts, 0, counts.len() as int) == total,
        lower.wf(),
        upper.wf(),
        shares_leave_room(lower, upper),
    ensures
        low_crossing_of(counts, total, lower) is Some,
        high_crossing_of(counts, total, upper) is Some,
        low_crossing_of(counts, total, lower)->0 <= high_crossing_of(counts, total, upper)->0,
        0 <= floor_of(counts, total, lower) <= ceil_of(counts, total, upper) < counts.len(),
{
    let len = counts.len() as int;
    let ln = lower.numer as int;
    let ld = lower.denom as int;
    let un = upper.numer as int;
    let ud = upper.denom as int;
    lemma_shares_below_whole(lower, upper);
    assert(total * ld > total * ln && total * ud > total * un) by (nonlinear_arith)
        requires
            total > 0,
            ln < ld,
            un < ud,
    ;
    assert(low_crossed(counts, total, lower, len - 1));
    assert(high_crossed(counts, total, upper, 0));
    lemma_low_crossing_exists(counts, total, lower, len - 1);
    lemma_high_crossing_exists(counts, total, upper, 0);
    let i = choose|i: int| 0 <= i <= len - 1 && is_low_crossing(counts, total, lower, i);
    let j = choose|j: int| 0 <= j < len && is_high_crossing(counts, total, upper, j);
    lemma_low_crossing_unique(counts, total, lower, i);
    lemma_high_crossing_unique(counts, total, upper, j);
    if i > j {
        let a = sum_range(counts, 0, i);
        let b = sum_range(counts, i, len);
        lemma_sum_split(counts, 0, i, len);
        assert(!low_crossed(counts, total, lower, i - 1));
        assert(!high_crossed(counts, total, upper, i));
        assert(a * ld <= total * ln);
        assert(b * ud <= total * un);
        assert(a * ld * ud <= total * ln * ud) by (nonlinear_arith)
            requires
                a * ld <= total * ln,
                ud > 0,
        ;
        assert(b * ud * ld <= total * un * ld) by (nonlinear_arith)
            requires
                b * ud <= total * un,
                ld > 0,
        ;
        assert(total * (ld * ud) == a * ld * ud + b * ud * ld) by (nonlinear_arith)
            requires
                a + b == total,
        ;
        assert(total * ln * ud + total * un * ld == total * (ln * ud + un * ld))
            by (nonlinear_arith);
        assert(total * (ln * ud + un * ld) < total * (ld * ud)) by (nonlinear_arith)
            requires
                total > 0,
                ln * ud + un * ld < ld * ud,
        ;
        assert(false);
    }
}

/// What the floor found by a sweep up says of the bins: where it lies above
/// bin 0, the bin above it holds a cell.
pub proof fn lemma_floor_bin_holds(counts: Seq<usize>, total: int, lower: Ratio)
    requires
        lower.wf(),
        total >= 0,
        floor_of(counts, total, lower) > 0,
    ensures
        floor_of(counts, total, lower) + 1 < counts.len(),
        counts[floor_of(counts, total, lower) + 1] > 0,
{
    let i = low_crossing_of(counts, total, lower)->0;
    assert(is_low_crossing(counts, total, lower, i));
    assert(!low_crossed(counts, total, lower, i - 1));
    let a = sum_range(counts, 0, i);
    let b = sum_range(counts, 0, i + 1);
    let ld = lower.denom as int;
    assert(b == a + counts[i]);
    assert(b > a) by (nonlinear_arith)
        requires
            b * ld > total * lower.numer,
            a * ld <= total * lower.numer,
            ld > 0,
    ;
}

/// The window of a grid is well formed whenever its floor is not above its
/// ceiling: its skew then lies between -1 and 1.
pub proof fn lemma_window_skew(counts: Seq<usize>, total: int, lower: Ratio, upper: Ratio)
    requires
        counts.len() <= usize::MAX,
        total >= 0,
        lower.wf(),
        0 <= floor_of(counts, total, lower) <= ceil_of(counts, total, upper) < counts.len(),
    ensures
        exposure_of(counts, total, lower, upper).wf(),
{
    let floor = floor_of(counts, total, lower);
    let ceil = ceil_of(counts, total, upper);
    if floor > 0 && ceil > floor + 1 {
        lemma_floor_bin_holds(counts, total, lower);
        lemma_sum_split(counts, floor, floor + 1, ceil + 1);
        lemma_sum_split(counts, floor + 1, floor + 2, ceil + 1);
        assert(sum_range(counts, floor + 1, floor + 2) == sum_range(counts, floor + 1, floor + 1)
            + counts[floor + 1]);
    }
    if floor == ceil || ceil == floor + 1 {
    } else {
        lemma_bias_in_unit_range(counts, floor, ceil);
    }
}

/// Every grid with cells, cut by shares that together are less than the
/// whole, has a window whose floor is not above its ceiling and whose skew
/// lies between -1 and 1.
pub proof fn lemma_window_valid(counts: Seq<usize>, total: int, lower: Ratio, upper: Ratio)
    requires
        0 < counts.len() <= usize::MAX,
        total > 0,
        sum_range(counts, 0, counts.len() as int) == total,
        lower.wf(),
        upper.wf(),
        shares_leave_room(lower, upper),
    ensures
        exposure_of(counts, total, lower, upper).wf(),
{
    lemma_floor_not_above_ceil(counts, total, lower, upper);
    lemma_window_skew(counts, total, lower, upper);
}

/// In a row whose cells all hold `value`, every cell counts for `value` and
/// none for anything else.
pub proof fn lemma_row_count_uniform(row: Seq<u16>, value: u16, k: int)
    requires
        forall|x: int| 0 <= x < row.len() ==> row[x] == value,
    ensures
        row_count(row, k) == if k == value {
            row.len()
        } else {
            0
        },
    decreases row.len(),
{
    if row.len() > 0 {
        lemma_row_count_uniform(row.drop_last(), value, k);
    }
}

/// In a grid whose cells all hold `value`, every cell counts for `value` and
/// none for anything else.
pub proof fn lemma_grid_count_uniform(grid: Seq<Seq<u16>>, width: nat, value: u16, k: int)
    requires
        forall|y: int| 0 <= y < grid.len() ==> (#[trigger] grid[y]).len() == width,
        forall|y: int, x: int|
            0 <= y < grid.len() && 0 <= x < grid[y].len() ==> (#[trigger] grid[y][x]) == value,
    ensures
        grid_count(grid, k) == if k == value {
            grid.len() * width
        } else {
            0
        },
    decreases grid.len(),
{
    if grid.len() > 0 {
        let rest = grid.drop_last();
        assert forall|y: int| 0 <= y < rest.len() implies (#[trigger] rest[y]).len() == width by {
            assert(rest[y] == grid[y]);
        }
        assert forall|y: int, x: int|
            0 <= y < rest.len() && 0 <= x < rest[y].len() implies (#[trigger] rest[y][x])
            == value by {
            assert(rest[y] == grid[y]);
        }
        lemma_grid_count_uniform(rest, width, value, k);
        lemma_row_count_uniform(grid.last(), value, k);
        assert(rest.len() * width + width == grid.len() * width) by (nonlinear_arith)
            requires
                rest.len() + 1 == grid.len(),
        ;
    } else {
        assert(grid.len() * width == 0) by (nonlinear_arith)
            requires
                grid.len() == 0,
        ;
    }
}

/// Where one bin alone holds anything, a range sums to that bin's count if
/// the bin lies in it, and to 0 if not.
pub proof fn lemma_sum_single_bin(counts: Seq<usize>, bin: int, from: int, to: int)
    requires
        0 <= from <= to <= counts.len(),
        forall|k: int| 0 <= k < counts.len() && k != bin ==> counts[k] == 0,
    ensures
        sum_range(counts, from, to) == if from <= bin < to {
            counts[bin] as int
        } else {
            0
        },
    decreases to - from,
{
    if from < to {
        lemma_sum_single_bin(counts, bin, from, to - 1);
    }
}

/// Where every cell falls into one bin and each share is less than the
/// whole, both sweeps cross at that bin: floor and ceiling coincide one bin
/// below it, and there is no skew.
pub proof fn lemma_single_bin_window(
    counts: Seq<usize>,
    total: int,
    lower: Ratio,
    upper: Ratio,
    bin: int,
)
    requires
        0 <= bin < counts.len(),
        total > 0,
        counts[bin] == total,
        forall|k: int| 0 <= k < counts.len() && k != bin ==> counts[k] == 0,
        lower.numer < lower.denom,
        upper.numer < upper.denom,
    ensures
        floor_of(counts, total, lower) == rewind(bin),
        ceil_of(counts, total, upper) == rewind(bin),
        exposure_of(counts, total, lower, upper).floor == exposure_of(
            counts,
            total,
            lower,
            upper,
        ).ceil,
        exposure_of(counts, total, lower, upper).bias == (Bias { numer: 0, denom: 1 }),
{
    let len = counts.len() as int;
    let ln = lower.numer as int;
    let ld = lower.denom as int;
    let un = upper.numer as int;
    let ud = upper.denom as int;
    assert(total * ld > total * ln && total * ud > total * un && total * ln >= 0 && total * un >= 0)
        by (nonlinear_arith)
        requires
            total > 0,
            0 <= ln < ld,
            0 <= un < ud,
    ;
    assert forall|k: int| 0 <= k < len implies (low_crossed(counts, total, lower, k) <==> bin
        <= k) by {
        lemma_sum_single_bin(counts, bin, 0, k + 1);
    }
    assert forall|k: int| 0 <= k < len implies (high_crossed(counts, total, upper, k) <==> k
        <= bin) by {
        lemma_sum_single_bin(counts, bin, k, len);
    }
    assert(is_low_crossing(counts, total, lower, bin));
    assert(is_high_crossing(counts, total, upper, bin));
    lemma_low_crossing_unique(counts, total, lower, bin);
    lemma_high_crossing_unique(counts, total, upper, bin);
}

/// A grid whose cells all hold one value has a window of one value and no
/// skew, for shares that are each less than the whole.
pub proof fn lemma_uniform_grid_window(
    grid: Seq<Seq<u16>>,
    value: u16,
    counts: Seq<usize>,
    lower: Ratio,
    upper: Ratio,
)
    requires
        rectangular(grid),
        forall|y: int, x: int|
            0 <= y < grid.len() && 0 <= x < grid[y].len() ==> (#[trigger] grid[y][x]) == value,
        value < counts.len(),
        forall|k: int| 0 <= k < counts.len() ==> (#[trigger] counts[k]) == grid_count(grid, k),
        lower.numer < lower.denom,
        upper.numer < upper.denom,
    ensures
        ({
            let info = exposure_of(counts, (grid.len() * grid[0].len()) as int, lower, upper);
            info.floor == info.ceil && info.bias.numer == 0 && info.bias.denom == 1
        }),
{
    let width = grid[0].len();
    let total = (grid.len() * width) as int;
    assert(total > 0) by (nonlinear_arith)
        requires
            total == grid.len() * width,
            grid.len() > 0,
            width > 0,
    ;
    assert forall|k: int| 0 <= k < counts.len() && k != value implies counts[k] == 0 by {
        lemma_grid_count_uniform(grid, width, value, k);
    }
    lemma_grid_count_uniform(grid, width, value, value as int);
    lemma_single_bin_window(counts, total, lower, upper, value as int);
}

} // verus!
