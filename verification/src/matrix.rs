use vstd::prelude::*;
use crate::error::FractError;

verus! {

/// A dense grid of cells, stored row by row: the first index is the row `y`,
/// the second the column `x`. A grid never changes its size; a resize makes
/// a new one.
#[derive(Clone, Debug)]
pub struct Matrix<T> {
    vec: Vec<Vec<T>>,
}

/// The rows of a vector of vectors, each as a sequence.
pub open spec fn rows_of<T>(v: Seq<Vec<T>>) -> Seq<Seq<T>> {
    Seq::new(v.len(), |y: int| v[y]@)
}

/// `grid` is rectangular, has at least one cell, and no more cells than a
/// machine word counts.
pub open spec fn rectangular<T>(grid: Seq<Seq<T>>) -> bool {
    &&& grid.len() > 0
    &&& grid[0].len() > 0
    &&& forall|y: int| 0 <= y < grid.len() ==> (#[trigger] grid[y]).len() == grid[0].len()
    &&& grid.len() * grid[0].len() <= usize::MAX
}

impl<T> View for Matrix<T> {
    type V = Seq<Seq<T>>;

    closed spec fn view(&self) -> Seq<Seq<T>> {
        rows_of(self.vec@)
    }
}

impl<T: Copy + Default> Matrix<T> {
    /// The invariant of a grid: see [`rectangular`].
    pub open spec fn wf(&self) -> bool {
        rectangular(self@)
    }

    /// Number of columns.
    pub open spec fn spec_width(&self) -> nat {
        self@[0].len()
    }

    /// Number of rows.
    pub open spec fn spec_height(&self) -> nat {
        self@.len()
    }

    /// The cell in column `x` of row `y`.
    pub open spec fn at(&self, x: int, y: int) -> T {
        self@[y][x]
    }

    /// What the view says of the stored rows.
    proof fn lemma_rows(&self)
        ensures
            self.vec@.len() == self@.len(),
            forall|y: int| 0 <= y < self@.len() ==> (#[trigger] self.vec@[y])@ == self@[y],
    {
    }

    /// A grid of `width` columns and `height` rows, every cell the default
    /// value of `T`. A grid without columns or without rows is refused.
    pub fn new(width: usize, height: usize) -> (r: Result<Matrix<T>, FractError>)
        requires
            width * height <= usize::MAX,
        ensures
            r is Err <==> width == 0 || height == 0,
            r matches Err(e) ==> e == FractError::InvalidDimensions,
            r matches Ok(m) ==> {
                &&& m.wf()
                &&& m.spec_width() == width
                &&& m.spec_height() == height
                &&& forall|x: int, y: int|
                    0 <= x < width && 0 <= y < height ==> call_ensures(
                        T::default,
                        (),
                        #[trigger] m.at(x, y),
                    )
            },
    {
        if width == 0 || height == 0 {
            return Err(FractError::InvalidDimensions);
        }
        let fill = T::default();
        let mut vec: Vec<Vec<T>> = Vec::new();
        let mut y: usize = 0;
        while y < height
            invariant
                y <= height,
                vec@.len() == y,
                call_ensures(T::default, (), fill),
                forall|j: int| 0 <= j < y ==> (#[trigger] vec@[j])@.len() == width,
                forall|j: int, i: int| 0 <= j < y && 0 <= i < width ==> (#[trigger] vec@[j]@[i]) == fill,
            decreases height - y,
        {
            let mut row: Vec<T> = Vec::new();
            let mut x: usize = 0;
            while x < width
                invariant
                    x <= width,
                    row@.len() == x,
                    forall|i: int| 0 <= i < x ==> (#[trigger] row@[i]) == fill,
                decreases width - x,
            {
                row.push(fill);
                x = x + 1;
            }
            vec.push(row);
            y = y + 1;
        }
        let m = Matrix { vec };
        proof {
            m.lemma_rows();
            assert(forall|j: int| 0 <= j < height ==> (#[trigger] m@[j]) == m.vec@[j]@);
            assert(m@[0].len() == width);
            assert(height * width == width * height) by (nonlinear_arith);
            assert forall|x: int, y: int| 0 <= x < width && 0 <= y < height implies call_ensures(
                T::default,
                (),
                #[trigger] m.at(x, y),
            ) by {
                assert(m@[y] == m.vec@[y]@);
                assert(m.vec@[y]@[x] == fill);
            }
        }
        Ok(m)
    }

    /// The rows themselves, to be changed in place. The grid then holds
    /// whatever the caller leaves there, well formed or not.
    pub fn vec(&mut self) -> (rows: &mut Vec<Vec<T>>)
        ensures
            rows_of(rows@) == old(self)@,
            final(self)@ == rows_of(final(rows)@),
    {
        &mut self.vec
    }

    pub fn width(&self) -> (w: usize)
        requires
            self.wf(),
        ensures
            w == self.spec_width(),
            w > 0,
    {
        proof {
            self.lemma_rows();
        }
        self.vec[0].len()
    }

    pub fn height(&self) -> (h: usize)
        requires
            self.wf(),
        ensures
            h == self.spec_height(),
            h > 0,
    {
        self.vec.len()
    }

    pub fn get(&self, x: usize, y: usize) -> (value: T)
        requires
            self.wf(),
            x < self.spec_width(),
            y < self.spec_height(),
        ensures
            value == self.at(x as int, y as int),
    {
        proof {
            self.lemma_rows();
        }
        self.vec[y][x]
    }

    /// The cell at (`x`, `y`), to be changed in place; every other cell stays.
    pub fn get_ref(&mut self, x: usize, y: usize) -> (cell: &mut T)
        requires
            old(self).wf(),
            x < old(self).spec_width(),
            y < old(self).spec_height(),
        ensures
            *cell == old(self).at(x as int, y as int),
            final(self)@ == old(self)@.update(
                y as int,
                old(self)@[y as int].update(x as int, *final(cell)),
            ),
    {
        proof {
            self.lemma_rows();
        }
        &mut self.vec[y][x]
    }

    pub fn set(&mut self, x: usize, y: usize, value: T)
        requires
            old(self).wf(),
            x < old(self).spec_width(),
            y < old(self).spec_height(),
        ensures
            final(self).wf(),
            final(self).spec_width() == old(self).spec_width(),
            final(self).spec_height() == old(self).spec_height(),
            final(self)@ == old(self)@.update(y as int, old(self)@[y as int].update(x as int, value)),
    {
        proof {
            self.lemma_rows();
        }
        self.vec[y][x] = value;
        proof {
            self.lemma_rows();
            assert(self@ =~= old(self)@.update(
                y as int,
                old(self)@[y as int].update(x as int, value),
            ));
        }
    }

    /// The grid that `copy_from` leaves: `src` laid over `base` with its top
    /// row on row `start_y`, the cells of `base` elsewhere.
    pub open spec fn overlaid(base: Self, src: Self, start_y: int, result: Self) -> bool {
        &&& result.wf()
        &&& result.spec_width() == base.spec_width()
        &&& result.spec_height() == base.spec_height()
        &&& forall|x: int, y: int|
            0 <= x < base.spec_width() && 0 <= y < base.spec_height() ==> #[trigger] result.at(
                x,
                y,
            ) == if start_y <= y < start_y + src.spec_height() && x < src.spec_width() {
                src.at(x, y - start_y)
            } else {
                base.at(x, y)
            }
    }

    /// Writes the whole of `src` into this grid, its top row on row `start_y`.
    pub fn copy_from(&mut self, src: &Matrix<T>, start_y: usize)
        requires
            old(self).wf(),
            src.wf(),
            src.spec_width() <= old(self).spec_width(),
            start_y + src.spec_height() <= old(self).spec_height(),
        ensures
            Self::overlaid(*old(self), *src, start_y as int, *final(self)),
    {
        let src_h = src.height();
        let src_w = src.width();
        let self_h = self.height();
        let mut src_y: usize = 0;
        while src_y < src_h
            invariant
                src_y <= src_h,
                self_h == self.spec_height(),
                src.wf(),
                self.wf(),
                src_h == src.spec_height(),
                src_w == src.spec_width(),
                src_w <= self.spec_width(),
                start_y + src_h <= self.spec_height(),
                self.spec_width() == old(self).spec_width(),
                self.spec_height() == old(self).spec_height(),
                forall|x: int, y: int|
                    0 <= x < self.spec_width() && 0 <= y < self.spec_height() ==> #[trigger] self.at(
                        x,
                        y,
                    ) == if start_y <= y < start_y + src_y && x < src_w {
                        src.at(x, y - start_y)
                    } else {
                        old(self).at(x, y)
                    },
            decreases src_h - src_y,
        {
            let self_y = start_y + src_y;
            let mut x: usize = 0;
            while x < src_w
                invariant
                    x <= src_w,
                    src_y < src_h,
                    self_h == self.spec_height(),
                    self_y == start_y + src_y,
                    src.wf(),
                    self.wf(),
                    src_h == src.spec_height(),
                    src_w == src.spec_width(),
                    src_w <= self.spec_width(),
                    start_y + src_h <= self.spec_height(),
                    self.spec_width() == old(self).spec_width(),
                    self.spec_height() == old(self).spec_height(),
                    forall|i: int, y: int|
                        0 <= i < self.spec_width() && 0 <= y < self.spec_height()
                            ==> #[trigger] self.at(i, y) == if (start_y <= y < self_y && i < src_w)
                            || (y == self_y && i < x) {
                            src.at(i, y - start_y)
                        } else {
                            old(self).at(i, y)
                        },
                decreases src_w - x,
            {
                let value = src.get(x, src_y);
                let ghost before = *self;
                self.set(x, self_y, value);
                proof {
                    assert forall|i: int, y: int|
                        0 <= i < self.spec_width() && 0 <= y < self.spec_height() implies #[trigger] self.at(
                        i,
                        y,
                    ) == if (start_y <= y < self_y && i < src_w) || (y == self_y && i < x + 1) {
                        src.at(i, y - start_y)
                    } else {
                        old(self).at(i, y)
                    } by {
                        assert(before@[y].len() == before.spec_width());
                        if y != self_y || i != x {
                            assert(self.at(i, y) == before.at(i, y));
                        }
                    }
                }
                x = x + 1;
            }
            src_y = src_y + 1;
        }
    }

    pub fn get_row(&self, y: usize) -> (row: &Vec<T>)
        requires
            self.wf(),
            y < self.spec_height(),
        ensures
            row@ == self@[y as int],
    {
        proof {
            self.lemma_rows();
        }
        &self.vec[y]
    }
}

/// A walk over the cells of a grid, row by row from the top, each row from
/// the left.
pub struct MatrixIntoIterator<'a, T> {
    matrix: &'a Matrix<T>,
    index: usize,
}

impl<'a, T: Copy + Default> MatrixIntoIterator<'a, T> {
    /// The grid that is walked.
    pub closed spec fn grid(&self) -> Matrix<T> {
        *self.matrix
    }

    /// How many cells have been handed out.
    pub closed spec fn position(&self) -> nat {
        self.index as nat
    }

    /// The walk stands on a well-formed grid and has not run past its end.
    pub open spec fn wf(&self) -> bool {
        &&& self.grid().wf()
        &&& self.position() <= self.grid().spec_width() * self.grid().spec_height()
    }

    /// A walk that stands before the first cell of `matrix`.
    pub fn new(matrix: &'a Matrix<T>) -> (it: Self)
        requires
            matrix.wf(),
        ensures
            it.wf(),
            it.grid() == *matrix,
            it.position() == 0,
    {
        proof {
            assert(0 <= matrix.spec_width() * matrix.spec_height()) by (nonlinear_arith);
        }
        MatrixIntoIterator { matrix, index: 0 }
    }

    /// The next cell in row-major order, or `None` once every cell has been
    /// handed out.
    pub fn next(&mut self) -> (cell: Option<T>)
        requires
            old(self).wf(),
        ensures
            final(self).wf(),
            final(self).grid() == old(self).grid(),
            cell is Some <==> old(self).position() < old(self).grid().spec_width() * old(self).grid().spec_height(),
            cell matches Some(value) ==> {
                &&& final(self).position() == old(self).position() + 1
                &&& value == old(self).grid().at(
                    old(self).position() as int % old(self).grid().spec_width() as int,
                    old(self).position() as int / old(self).grid().spec_width() as int,
                )
            },
            cell is None ==> final(self).position() == old(self).position(),
    {
        let width = self.matrix.width();
        let height = self.matrix.height();
        let y = self.index / width;
        let x = self.index % width;
        proof {
            let w = width as int;
            let h = height as int;
            let i = self.index as int;
            assert(h * w == w * h) by (nonlinear_arith);
            assert(i == w * (i / w) + i % w && 0 <= i % w < w) by (nonlinear_arith)
                requires
                    w > 0,
                    i >= 0,
            ;
            assert((i / w >= h) <==> (i >= w * h)) by (nonlinear_arith)
                requires
                    w > 0,
                    h > 0,
                    i >= 0,
                    i == w * (i / w) + i % w,
                    0 <= i % w < w,
            ;
        }
        if y >= height {
            None
        } else {
            self.index = self.index + 1;
            Some(self.matrix.get(x, y))
        }
    }
}

impl<T: Copy + Default> Matrix<T> {
    /// A walk over the cells of this grid in row-major order.
    pub fn cells(&self) -> (it: MatrixIntoIterator<'_, T>)
        requires
            self.wf(),
        ensures
            it.wf(),
            it.grid() == *self,
            it.position() == 0,
    {
        MatrixIntoIterator::new(self)
    }
}

} // verus!
