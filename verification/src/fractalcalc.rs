use vstd::prelude::*;
use crate::error::FractError;
use crate::matrix::Matrix;

verus! {

/// The family of an escape-time fractal. `C` is the caller's complex number.
#[derive(Clone, Copy, Debug)]
pub enum FractalType<C> {
    /// Each point is its own parameter; the orbit starts at 0.
    Mandelbrot,
    /// The parameter is this fixed seed; the orbit starts at the point.
    Julia(C),
}

/// What a fill needs to know of a view, apart from its geometry.
#[derive(Clone, Copy, Debug)]
pub struct FractalSpecs<C> {
    pub fractal_type: FractalType<C>,
    /// The escape count at which an orbit is given up: a cell that holds it
    /// stands for a point that did not escape.
    pub max_val: u16,
    /// How many bands a banded fill cuts the grid into.
    pub num_threads: usize,
    /// Whether the grid is filled in bands or in one pass.
    pub use_multi_threads: bool,
}

/// The number of logical processors, from `num_cpus::get`. Its documentation
/// promises a count of at least 1; which count comes back depends on the
/// machine and on the moment.
#[verifier::external_body]
fn cpu_count() -> (n: usize)
    ensures
        n >= 1,
{
    num_cpus::get()
}

impl<C> FractalSpecs<C> {
    /// The settings of a Mandelbrot view: orbits are followed for 500 steps,
    /// and the grid is filled in one band per processor.
    pub fn new_mandelbrot_with_defaults() -> (specs: Self)
        ensures
            specs.fractal_type is Mandelbrot,
            specs.max_val == 500,
            specs.num_threads >= 1,
            specs.use_multi_threads,
    {
        FractalSpecs {
            fractal_type: FractalType::Mandelbrot,
            max_val: 500,
            num_threads: cpu_count(),
            use_multi_threads: true,
        }
    }

    /// The settings of a Julia view with the seed `c`: orbits are followed
    /// for 500 steps, and the grid is filled in one band per processor.
    pub fn new_julia(c: C) -> (specs: Self)
        ensures
            specs.fractal_type == FractalType::Julia(c),
            specs.max_val == 500,
            specs.num_threads >= 1,
            specs.use_multi_threads,
    {
        FractalSpecs {
            fractal_type: FractalType::Julia(c),
            max_val: 500,
            num_threads: cpu_count(),
            use_multi_threads: true,
        }
    }
}

/// The rows of a band: from `start` up to, not including, `end`.
#[derive(Clone, Copy, Debug, PartialEq, Eq)]
pub struct Band {
    pub start: usize,
    pub end: usize,
}

/// The first row of band `i` when `height` rows are cut into `bands` bands:
/// every band but the last has `height / bands` rows.
pub open spec fn band_start(height: int, bands: int, i: int) -> int {
    i * (height / bands)
}

/// The row after the last row of band `i`: the last band takes what is left.
pub open spec fn band_end(height: int, bands: int, i: int) -> int {
    if i < bands - 1 {
        (i + 1) * (height / bands)
    } else {
        height
    }
}

/// The bands lie one after the other, start at row 0 and end at the last
/// row: they cover every row once.
pub proof fn lemma_bands_partition(height: int, bands: int, i: int)
    requires
        height >= 0,
        bands >= 1,
        0 <= i < bands,
    ensures
        band_start(height, bands, 0) == 0,
        band_end(height, bands, bands - 1) == height,
        0 <= band_start(height, bands, i) <= band_end(height, bands, i) <= height,
        i + 1 < bands ==> band_end(height, bands, i) == band_start(height, bands, i + 1),
        i + 1 < bands ==> band_end(height, bands, i) - band_start(height, bands, i) == height
            / bands,
{
    let step = height / bands;
    assert(0 <= step && bands * step <= height) by (nonlinear_arith)
        requires
            height >= 0,
            bands >= 1,
            step == height / bands,
    ;
    assert(i * step <= (i + 1) * step && (i + 1) * step <= bands * step && 0 <= i * step
        && (i + 1) * step - i * step == step) by (nonlinear_arith)
        requires
            0 <= i < bands,
            0 <= step,
    ;
}

/// The cells of `section` are what `cell_value` gives for their places in
/// the whole grid, in which the section starts at row `offset`.
pub open spec fn cells_from<F: Fn(usize, usize) -> u16>(
    section: Matrix<u16>,
    cell_value: F,
    offset: int,
) -> bool {
    forall|x: int, y: int|
        0 <= x < section.spec_width() && 0 <= y < section.spec_height() ==> call_ensures(
            cell_value,
            (x as usize, (offset + y) as usize),
            #[trigger] section.at(x, y),
        )
}

/// The rows that the first `k` of `sections` have together; a missing
/// section has none.
pub open spec fn sections_height(sections: Seq<Option<Matrix<u16>>>, k: int) -> int
    decreases k,
{
    if k <= 0 {
        0
    } else {
        sections_height(sections, k - 1) + match sections[k - 1] {
            Some(m) => m.spec_height() as int,
            None => 0,
        }
    }
}

/// Every section is there and as wide as the grid, and together they have
/// as many rows as the grid.
pub open spec fn sections_fit(sections: Seq<Option<Matrix<u16>>>, width: int, height: int) -> bool {
    &&& forall|k: int|
        0 <= k < sections.len() ==> (#[trigger] sections[k]) is Some && sections[k]->0.spec_width()
            == width
    &&& sections_height(sections, sections.len() as int) == height
}

/// `grid` holds the sections one below the other, in their order.
pub open spec fn is_stack_of(grid: Matrix<u16>, sections: Seq<Option<Matrix<u16>>>) -> bool {
    forall|k: int, x: int, y: int|
        0 <= k < sections.len() && 0 <= x < sections[k]->0.spec_width() && 0 <= y
            < sections[k]->0.spec_height() ==> grid.at(x, sections_height(sections, k) + y)
            == #[trigger] sections[k]->0.at(x, y)
}

/// The rows of the first sections grow with their number.
pub proof fn lemma_sections_height_grows(sections: Seq<Option<Matrix<u16>>>, i: int, k: int)
    requires
        0 <= i <= k,
    ensures
        0 <= sections_height(sections, i) <= sections_height(sections, k),
    decreases k,
{
    if i < k {
        lemma_sections_height_grows(sections, i, k - 1);
    } else if k > 0 {
        lemma_sections_height_grows(sections, i - 1, k - 1);
    }
}

/// Every row of a grid that is made up of sections lies in one of them.
pub proof fn lemma_row_in_section(sections: Seq<Option<Matrix<u16>>>, n: int, y: int) -> (k: int)
    requires
        0 <= n <= sections.len(),
        0 <= y < sections_height(sections, n),
        forall|j: int| 0 <= j < sections.len() ==> (#[trigger] sections[j]) is Some,
    ensures
        0 <= k < n,
        sections_height(sections, k) <= y < sections_height(sections, k)
            + sections[k]->0.spec_height(),
    decreases n,
{
    if y >= sections_height(sections, n - 1) {
        assert(sections[n - 1] is Some);
        n - 1
    } else {
        lemma_row_in_section(sections, n - 1, y)
    }
}

/// No cell of any section that is there holds more than `max_val`.
pub open spec fn sections_within(sections: Seq<Option<Matrix<u16>>>, max_val: int) -> bool {
    forall|k: int|
        0 <= k < sections.len() ==> ((#[trigger] sections[k]) matches Some(m)
            ==> crate::histogram::grid_within(m@, max_val))
}

/// A grid that is made up of sections holds no more than `max_val` in any
/// cell where no section does.
pub proof fn lemma_stack_within(grid: Matrix<u16>, sections: Seq<Option<Matrix<u16>>>, max_val: int)
    requires
        grid.wf(),
        sections_fit(sections, grid.spec_width() as int, grid.spec_height() as int),
        forall|k: int| 0 <= k < sections.len() ==> ((#[trigger] sections[k]) matches Some(m) ==> m.wf()),
        is_stack_of(grid, sections),
        sections_within(sections, max_val),
    ensures
        crate::histogram::grid_within(grid@, max_val),
{
    assert forall|y: int, x: int| 0 <= y < grid@.len() && 0 <= x < grid@[y].len() implies (
    #[trigger] grid@[y][x]) <= max_val by {
        assert(grid@[y].len() == grid.spec_width());
        let k = lemma_row_in_section(sections, sections.len() as int, y);
        let m = sections[k]->0;
        let r = y - sections_height(sections, k);
        assert(sections[k] is Some);
        assert(m@[r].len() == m.spec_width());
        assert(grid.at(x, sections_height(sections, k) + r) == m.at(x, r));
        assert(m@[r][x] <= max_val);
    }
}

/// Every row of a grid lies in one of its bands, where no band is empty.
pub proof fn lemma_row_in_band(height: int, bands: int, y: int) -> (k: int)
    requires
        1 <= bands <= height,
        0 <= y < height,
    ensures
        0 <= k < bands,
        band_start(height, bands, k) <= y < band_end(height, bands, k),
{
    let step = height / bands;
    assert(step >= 1 && bands * step <= height) by (nonlinear_arith)
        requires
            1 <= bands <= height,
            step == height / bands,
    ;
    let q = y / step;
    assert(q * step <= y < (q + 1) * step && q >= 0) by (nonlinear_arith)
        requires
            step >= 1,
            y >= 0,
            q == y / step,
    ;
    if q < bands - 1 {
        q
    } else {
        assert((bands - 1) * step <= q * step) by (nonlinear_arith)
            requires
                bands - 1 <= q,
                step >= 1,
        ;
        bands - 1
    }
}

/// `section` is band `k` of `bands` bands of a grid of `width` by `height`
/// cells, filled by `cell_value` for its place in that grid.
pub open spec fn band_filled<F: Fn(usize, usize) -> u16>(
    section: Option<Matrix<u16>>,
    cell_value: F,
    width: int,
    height: int,
    bands: int,
    k: int,
) -> bool {
    &&& section matches Some(m)
    &&& m.wf()
    &&& m.spec_width() == width
    &&& m.spec_height() == band_end(height, bands, k) - band_start(height, bands, k)
    &&& cells_from(m, cell_value, band_start(height, bands, k))
}

/// `sections` are the bands of a grid of `width` by `height` cells, one for
/// each, in their order, and each was filled by `cell_value` for its place in
/// that grid: what a fill leaves that hands the bands out to workers.
pub open spec fn bands_filled<F: Fn(usize, usize) -> u16>(
    sections: Seq<Option<Matrix<u16>>>,
    cell_value: F,
    width: int,
    height: int,
) -> bool {
    forall|k: int|
        0 <= k < sections.len() ==> band_filled(
            #[trigger] sections[k],
            cell_value,
            width,
            height,
            sections.len() as int,
            k,
        )
}

/// `after` has the shape of `before`, and each of its cells is what
/// `cell_value` gives for its place.
pub open spec fn filled<F: Fn(usize, usize) -> u16>(
    before: Matrix<u16>,
    after: Matrix<u16>,
    cell_value: F,
) -> bool {
    &&& after.wf()
    &&& after.spec_width() == before.spec_width()
    &&& after.spec_height() == before.spec_height()
    &&& cells_from(after, cell_value, 0)
}

/// `cell_value` gives one value for each place.
pub open spec fn single_valued<F: Fn(usize, usize) -> u16>(cell_value: F) -> bool {
    forall|x: usize, y: usize, v: u16, w: u16|
        call_ensures(cell_value, (x, y), v) && call_ensures(cell_value, (x, y), w) ==> v == w
}

/// Fills a grid of escape counts, in one pass or band by band.
pub struct FractalCalc;

impl FractalCalc {
    /// The rows of band `i` of `num_threads` bands over `height` rows.
    pub fn band(height: usize, num_threads: usize, i: usize) -> (band: Band)
        requires
            i < num_threads,
        ensures
            band.start == band_start(height as int, num_threads as int, i as int),
            band.end == band_end(height as int, num_threads as int, i as int),
            band.start <= band.end <= height,
    {
        proof {
            lemma_bands_partition(height as int, num_threads as int, i as int);
            assert((i + 1) * (height / num_threads) <= height) by (nonlinear_arith)
                requires
                    i < num_threads,
                    num_threads >= 1,
                    height >= 0,
            ;
        }
        let step = height / num_threads;
        let start = i * step;
        let end = if i < num_threads - 1 {
            (i + 1) * step
        } else {
            height
        };
        Band { start, end }
    }

    /// Fills `section`, a band of a grid of `full_matrix_height` rows that
    /// starts at row `full_matrix_offset` of that grid: the cell in column
    /// `x` of its row `y` gets `cell_value(x, full_matrix_offset + y)`. The
    /// rows of the band are counted from 0; only the value depends on where
    /// the band lies.
    pub fn write_matrix_section<F: Fn(usize, usize) -> u16>(
        section: &mut Matrix<u16>,
        full_matrix_offset: usize,
        full_matrix_height: usize,
        cell_value: &F,
    )
        requires
            old(section).wf(),
            full_matrix_offset + old(section).spec_height() <= full_matrix_height,
            forall|x: usize, y: usize| call_requires(*cell_value, (x, y)),
        ensures
            final(section).wf(),
            final(section).spec_width() == old(section).spec_width(),
            final(section).spec_height() == old(section).spec_height(),
            cells_from(*final(section), *cell_value, full_matrix_offset as int),
    {
        let width = section.width();
        let height = section.height();
        let mut index_y: usize = 0;
        while index_y < height
            invariant
                index_y <= height,
                section.wf(),
                width == section.spec_width(),
                height == section.spec_height(),
                full_matrix_offset + height <= usize::MAX,
                forall|x: usize, y: usize| call_requires(*cell_value, (x, y)),
                forall|x: int, y: int|
                    0 <= x < width && 0 <= y < index_y ==> call_ensures(
                        *cell_value,
                        (x as usize, (full_matrix_offset + y) as usize),
                        #[trigger] section.at(x, y),
                    ),
            decreases height - index_y,
        {
            let mut index_x: usize = 0;
            while index_x < width
                invariant
                    index_x <= width,
                    index_y < height,
                    section.wf(),
                    width == section.spec_width(),
                    height == section.spec_height(),
                    full_matrix_offset + height <= usize::MAX,
                    forall|x: usize, y: usize| call_requires(*cell_value, (x, y)),
                    forall|x: int, y: int|
                        0 <= x < width && (0 <= y < index_y || (y == index_y && x < index_x))
                            ==> call_ensures(
                            *cell_value,
                            (x as usize, (full_matrix_offset + y) as usize),
                            #[trigger] section.at(x, y),
                        ),
                decreases width - index_x,
            {
                let value = cell_value(index_x, full_matrix_offset + index_y);
                let ghost before = *section;
                section.set(index_x, index_y, value);
                proof {
                    assert forall|x: int, y: int|
                        0 <= x < width && (0 <= y < index_y || (y == index_y && x < index_x + 1))
                        implies call_ensures(
                        *cell_value,
                        (x as usize, (full_matrix_offset + y) as usize),
                        #[trigger] section.at(x, y),
                    ) by {
                        assert(before@[y].len() == width);
                        if y != index_y || x != index_x {
                            assert(section.at(x, y) == before.at(x, y));
                        }
                    }
                }
                index_x = index_x + 1;
            }
            index_y = index_y + 1;
        }
    }

    /// Puts the bands that were filled apart back into `matrix`, one below
    /// the other in their order. Where a band is missing, or the bands do
    /// not make up the grid, nothing is written.
    pub fn merge_sections(matrix: &mut Matrix<u16>, sections: &Vec<Option<Matrix<u16>>>) -> (r:
        Result<(), FractError>)
        requires
            old(matrix).wf(),
            forall|k: int|
                0 <= k < sections@.len() ==> ((#[trigger] sections@[k]) matches Some(m) ==> m.wf()),
        ensures
            r is Ok <==> sections_fit(
                sections@,
                old(matrix).spec_width() as int,
                old(matrix).spec_height() as int,
            ),
            r matches Err(e) ==> e == FractError::ComputeWorkerFailure && *final(matrix) == *old(matrix),
            r is Ok ==> {
                &&& final(matrix).wf()
                &&& final(matrix).spec_width() == old(matrix).spec_width()
                &&& final(matrix).spec_height() == old(matrix).spec_height()
                &&& is_stack_of(*final(matrix), sections@)
            },
    {
        let width = matrix.width();
        let height = matrix.height();
        let count = sections.len();
        let mut yoff: usize = 0;
        let mut k: usize = 0;
        while k < count
            invariant
                k <= count,
                count == sections@.len(),
                *matrix == *old(matrix),
                width == old(matrix).spec_width(),
                height == old(matrix).spec_height(),
                yoff == sections_height(sections@, k as int),
                yoff <= height,
                forall|j: int|
                    0 <= j < sections@.len() ==> ((#[trigger] sections@[j]) matches Some(m)
                        ==> m.wf()),
                forall|j: int|
                    0 <= j < k ==> (#[trigger] sections@[j]) is Some && sections@[j]->0.spec_width()
                        == width,
            decreases count - k,
        {
            proof {
                lemma_sections_height_grows(sections@, k as int + 1, count as int);
            }
            match &sections[k] {
                None => {
                    return Err(FractError::ComputeWorkerFailure);
                },
                Some(section) => {
                    assert(sections_height(sections@, k as int + 1) == yoff
                        + section.spec_height());
                    if section.width() != width || section.height() > height - yoff {
                        assert(sections@[k as int]->0.spec_width() != width || sections_height(
                            sections@,
                            count as int,
                        ) > height);
                        return Err(FractError::ComputeWorkerFailure);
                    }
                    yoff = yoff + section.height();
                },
            }
            k = k + 1;
        }
        if yoff != height {
            return Err(FractError::ComputeWorkerFailure);
        }
        let mut yoff: usize = 0;
        let mut k: usize = 0;
        while k < count
            invariant
                k <= count,
                count == sections@.len(),
                matrix.wf(),
                width == matrix.spec_width(),
                height == matrix.spec_height(),
                width == old(matrix).spec_width(),
                height == old(matrix).spec_height(),
                sections_fit(sections@, width as int, height as int),
                forall|j: int|
                    0 <= j < sections@.len() ==> ((#[trigger] sections@[j]) matches Some(m)
                        ==> m.wf()),
                yoff == sections_height(sections@, k as int),
                yoff <= height,
                forall|j: int, x: int, y: int|
                    0 <= j < k && 0 <= x < width && 0 <= y < sections@[j]->0.spec_height()
                        ==> matrix.at(x, sections_height(sections@, j) + y)
                        == #[trigger] sections@[j]->0.at(x, y),
            decreases count - k,
        {
            proof {
                lemma_sections_height_grows(sections@, k as int + 1, count as int);
            }
            match &sections[k] {
                None => {},
                Some(section) => {
                    let ghost before = *matrix;
                    matrix.copy_from(section, yoff);
                    proof {
                        assert forall|j: int, x: int, y: int|
                            0 <= j < k + 1 && 0 <= x < width && 0 <= y
                                < sections@[j]->0.spec_height() implies matrix.at(
                            x,
                            sections_height(sections@, j) + y,
                        ) == #[trigger] sections@[j]->0.at(x, y) by {
                            let row = sections_height(sections@, j) + y;
                            lemma_sections_height_grows(sections@, j, j + 1);
                            if j < k {
                                lemma_sections_height_grows(sections@, j + 1, k as int);
                                assert(row < yoff);
                                assert(matrix.at(x, row) == before.at(x, row));
                            } else {
                                assert(matrix.at(x, row) == section.at(x, row - yoff));
                            }
                        }
                    }
                    yoff = yoff + section.height();
                },
            }
            k = k + 1;
        }
        Ok(())
    }

    /// Fills `matrix` in `num_threads` bands, one after the other: each band
    /// in a grid of its own, with its rows counted from 0, and the bands then
    /// merged in their order. With more bands than rows some band is empty
    /// and cannot be made: the fill is then refused and nothing is written.
    pub fn write_matrix_mt<F: Fn(usize, usize) -> u16>(
        num_threads: usize,
        matrix: &mut Matrix<u16>,
        cell_value: &F,
    ) -> (r: Result<(), FractError>)
        requires
            old(matrix).wf(),
            num_threads >= 1,
            forall|x: usize, y: usize| call_requires(*cell_value, (x, y)),
        ensures
            r is Err <==> num_threads > old(matrix).spec_height(),
            r matches Err(e) ==> e == FractError::ComputeWorkerFailure && *final(matrix) == *old(matrix),
            r is Ok ==> filled(*old(matrix), *final(matrix), *cell_value),
    {
        let width = matrix.width();
        let height = matrix.height();
        let mut sections: Vec<Option<Matrix<u16>>> = Vec::new();
        let mut i: usize = 0;
        while i < num_threads
            invariant
                i <= num_threads,
                num_threads >= 1,
                *matrix == *old(matrix),
                matrix.wf(),
                width == matrix.spec_width(),
                height == matrix.spec_height(),
                forall|x: usize, y: usize| call_requires(*cell_value, (x, y)),
                sections@.len() == i,
                i > 0 ==> num_threads <= height,
                forall|k: int|
                    0 <= k < i ==> band_filled(
                        #[trigger] sections@[k],
                        *cell_value,
                        width as int,
                        height as int,
                        num_threads as int,
                        k,
                    ),
            decreases num_threads - i,
        {
            let band = Self::band(height, num_threads, i);
            let section_ht = band.end - band.start;
            proof {
                lemma_bands_partition(height as int, num_threads as int, i as int);
                assert(width * section_ht <= width * height) by (nonlinear_arith)
                    requires
                        section_ht <= height,
                        width >= 0,
                ;
                if num_threads <= height {
                    let step = height as int / num_threads as int;
                    assert(step >= 1 && num_threads * step <= height && (num_threads - 1) * step
                        == num_threads * step - step) by (nonlinear_arith)
                        requires
                            1 <= num_threads <= height,
                            step == height as int / num_threads as int,
                    ;
                } else if i == 0 {
                    let step = height as int / num_threads as int;
                    assert(step == 0) by (nonlinear_arith)
                        requires
                            0 <= height < num_threads,
                            step == height as int / num_threads as int,
                    ;
                    assert(1 * step == 0);
                }
            }
            match Matrix::<u16>::new(width, section_ht) {
                Err(_) => {
                    return Err(FractError::ComputeWorkerFailure);
                },
                Ok(section) => {
                    let mut section = section;
                    Self::write_matrix_section(&mut section, band.start, height, cell_value);
                    let ghost before = sections@;
                    sections.push(Some(section));
                    proof {
                        assert forall|k: int| 0 <= k < i + 1 implies band_filled(
                            #[trigger] sections@[k],
                            *cell_value,
                            width as int,
                            height as int,
                            num_threads as int,
                            k,
                        ) by {
                            if k < i {
                                assert(sections@[k] == before[k]);
                            }
                        }
                    }
                },
            }
            i = i + 1;
        }
        proof {
            lemma_band_offsets(
                sections@,
                *cell_value,
                width as int,
                height as int,
                num_threads as int,
            );
        }
        let r = Self::merge_sections(matrix, &sections);
        proof {
            lemma_merged_bands_are_filled(*cell_value, *old(matrix), *matrix, sections@);
        }
        r
    }

    /// Fills `matrix`: the cell in column `x` of row `y` gets
    /// `cell_value(x, y)`. The grid is filled in bands where the settings ask
    /// for it, else in one pass; the cells come out the same either way.
    pub fn write_matrix<C, F: Fn(usize, usize) -> u16>(
        specs: &FractalSpecs<C>,
        matrix: &mut Matrix<u16>,
        cell_value: &F,
    ) -> (r: Result<(), FractError>)
        requires
            old(matrix).wf(),
            specs.num_threads >= 1,
            forall|x: usize, y: usize| call_requires(*cell_value, (x, y)),
        ensures
            r is Err <==> specs.use_multi_threads && specs.num_threads > old(matrix).spec_height(),
            r matches Err(e) ==> e == FractError::ComputeWorkerFailure && *final(matrix) == *old(matrix),
            r is Ok ==> filled(*old(matrix), *final(matrix), *cell_value),
    {
        if specs.use_multi_threads {
            Self::write_matrix_mt(specs.num_threads, matrix, cell_value)
        } else {
            let h = matrix.height();
            Self::write_matrix_section(matrix, 0, h, cell_value);
            Ok(())
        }
    }
}

/// Two fills of grids of one shape by one single-valued function leave the
/// same cells, in however many bands each was made.
pub proof fn lemma_fill_ignores_banding<F: Fn(usize, usize) -> u16>(
    cell_value: F,
    before: Matrix<u16>,
    one: Matrix<u16>,
    other: Matrix<u16>,
)
    requires
        single_valued(cell_value),
        filled(before, one, cell_value),
        filled(before, other, cell_value),
    ensures
        one@ == other@,
{
    assert forall|y: int| 0 <= y < one@.len() implies one@[y] == other@[y] by {
        assert(one@[y].len() == one.spec_width());
        assert(other@[y].len() == other.spec_width());
        assert forall|x: int| 0 <= x < one@[y].len() implies one@[y][x] == other@[y][x] by {
            assert(call_ensures(cell_value, (x as usize, (0 + y) as usize), one.at(x, y)));
            assert(call_ensures(cell_value, (x as usize, (0 + y) as usize), other.at(x, y)));
        }
        assert(one@[y] =~= other@[y]);
    }
    assert(one@ =~= other@);
}

/// Where `cell_value` never gives more than `max_val`, no cell of a grid
/// that it filled holds more.
pub proof fn lemma_filled_within<F: Fn(usize, usize) -> u16>(
    cell_value: F,
    before: Matrix<u16>,
    after: Matrix<u16>,
    max_val: int,
)
    requires
        filled(before, after, cell_value),
        forall|x: usize, y: usize, v: u16| call_ensures(cell_value, (x, y), v) ==> v <= max_val,
    ensures
        crate::histogram::grid_within(after@, max_val),
{
    assert forall|y: int, x: int| 0 <= y < after@.len() && 0 <= x < after@[y].len() implies (
    #[trigger] after@[y][x]) <= max_val by {
        assert(after@[y].len() == after.spec_width());
        assert(call_ensures(cell_value, (x as usize, (0 + y) as usize), after.at(x, y)));
    }
}

/// Bands that were filled apart lie one below the other as the bands of the
/// grid do: each starts at the row where its band starts, and together they
/// have the rows of the grid.
pub proof fn lemma_band_offsets<F: Fn(usize, usize) -> u16>(
    sections: Seq<Option<Matrix<u16>>>,
    cell_value: F,
    width: int,
    height: int,
    k: int,
)
    requires
        height >= 0,
        0 <= k <= sections.len(),
        sections.len() >= 1,
        bands_filled(sections, cell_value, width, height),
    ensures
        sections_height(sections, k) == if k < sections.len() {
            band_start(height, sections.len() as int, k)
        } else {
            height
        },
        k == sections.len() ==> sections_fit(sections, width, height),
    decreases k,
{
    let bands = sections.len() as int;
    if k == 0 {
        lemma_bands_partition(height, bands, 0);
    } else {
        lemma_band_offsets(sections, cell_value, width, height, k - 1);
        lemma_bands_partition(height, bands, k - 1);
        assert(band_filled(sections[k - 1], cell_value, width, height, bands, k - 1));
    }
    if k == sections.len() {
        assert forall|j: int| 0 <= j < sections.len() implies (#[trigger] sections[j]) is Some
            && sections[j]->0.spec_width() == width by {
            assert(band_filled(sections[j], cell_value, width, height, bands, j));
        }
    }
}

/// A grid that holds, one below the other, bands that were filled apart is
/// the grid that one fill of the whole leaves: each cell is what
/// `cell_value` gives for its place. So a fill that hands its bands out and
/// merges them is a fill, in however many bands, with no more than one band
/// for each row.
pub proof fn lemma_merged_bands_are_filled<F: Fn(usize, usize) -> u16>(
    cell_value: F,
    before: Matrix<u16>,
    grid: Matrix<u16>,
    sections: Seq<Option<Matrix<u16>>>,
)
    requires
        grid.wf(),
        grid.spec_width() == before.spec_width(),
        grid.spec_height() == before.spec_height(),
        1 <= sections.len() <= grid.spec_height(),
        bands_filled(sections, cell_value, grid.spec_width() as int, grid.spec_height() as int),
        is_stack_of(grid, sections),
    ensures
        sections_fit(sections, grid.spec_width() as int, grid.spec_height() as int),
        filled(before, grid, cell_value),
{
    let width = grid.spec_width() as int;
    let height = grid.spec_height() as int;
    let bands = sections.len() as int;
    lemma_band_offsets(sections, cell_value, width, height, bands);
    assert forall|x: int, y: int| 0 <= x < width && 0 <= y < height implies call_ensures(
        cell_value,
        (x as usize, (0 + y) as usize),
        #[trigger] grid.at(x, y),
    ) by {
        let k = lemma_row_in_band(height, bands, y);
        let start = band_start(height, bands, k);
        let m = sections[k]->0;
        lemma_band_offsets(sections, cell_value, width, height, k);
        assert(band_filled(sections[k], cell_value, width, height, bands, k));
        assert(grid.at(x, sections_height(sections, k) + (y - start)) == m.at(x, y - start));
    }
}

/// A fill whose bands were filled apart, by workers of any number up to the
/// number of rows, and then merged leaves the same cells as a fill in one
/// pass, where `cell_value` gives one value for each place.
pub proof fn lemma_merged_fill_equals_one_pass<F: Fn(usize, usize) -> u16>(
    cell_value: F,
    before: Matrix<u16>,
    one_pass: Matrix<u16>,
    merged: Matrix<u16>,
    sections: Seq<Option<Matrix<u16>>>,
)
    requires
        single_valued(cell_value),
        filled(before, one_pass, cell_value),
        merged.wf(),
        merged.spec_width() == before.spec_width(),
        merged.spec_height() == before.spec_height(),
        1 <= sections.len() <= merged.spec_height(),
        bands_filled(sections, cell_value, merged.spec_width() as int, merged.spec_height() as int),
        is_stack_of(merged, sections),
    ensures
        one_pass@ == merged@,
{
    lemma_merged_bands_are_filled(cell_value, before, merged, sections);
    lemma_fill_ignores_banding(cell_value, before, one_pass, merged);
}

} // verus!
