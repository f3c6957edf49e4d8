use vstd::prelude::*;
use vstd::string::StrSliceExecFns;
use crate::error::FractError;
use crate::matrix::Matrix;

verus! {

/// A screenful of characters that is drawn into piece by piece and then
/// printed in one go.
pub struct TextBuffer {
    pub buffer: Matrix<char>,
}

/// The buffer `after` is `before` with `text` written into row `y` from
/// column `x` on: what falls outside the buffer is cut off, and every cell
/// that the text does not reach stays.
pub open spec fn drawn(
    before: Matrix<char>,
    after: Matrix<char>,
    text: Seq<char>,
    x: int,
    y: int,
) -> bool {
    &&& after.wf()
    &&& after.spec_width() == before.spec_width()
    &&& after.spec_height() == before.spec_height()
    &&& forall|cx: int, cy: int|
        0 <= cx < before.spec_width() && 0 <= cy < before.spec_height() ==> #[trigger] after.at(
            cx,
            cy,
        ) == if cy == y && 0 <= cx - x < text.len() {
            text[cx - x]
        } else {
            before.at(cx, cy)
        }
}

impl TextBuffer {
    pub open spec fn wf(&self) -> bool {
        self.buffer.wf()
    }

    /// A buffer of `width` by `height` characters, each the null character.
    pub fn new(width: usize, height: usize) -> (r: Result<TextBuffer, FractError>)
        requires
            width * height <= usize::MAX,
        ensures
            r is Err <==> width == 0 || height == 0,
            r matches Err(e) ==> e == FractError::InvalidDimensions,
            r matches Ok(t) ==> {
                &&& t.wf()
                &&& t.buffer.spec_width() == width
                &&& t.buffer.spec_height() == height
                &&& forall|x: int, y: int|
                    0 <= x < width && 0 <= y < height ==> #[trigger] t.buffer.at(x, y) == '\0'
            },
    {
        match Matrix::<char>::new(width, height) {
            Ok(buffer) => {
                proof {
                    assert forall|x: int, y: int|
                        0 <= x < width && 0 <= y < height implies #[trigger] buffer.at(x, y)
                        == '\0' by {
                        assert(call_ensures(char::default, (), buffer.at(x, y)));
                    }
                }
                Ok(TextBuffer { buffer })
            },
            Err(e) => Err(e),
        }
    }

    /// Replaces the buffer by an empty one of `w` by `h` characters. A size
    /// without columns or rows is refused, and the buffer stays.
    pub fn set_size(&mut self, w: usize, h: usize) -> (r: Result<(), FractError>)
        requires
            old(self).wf(),
            w * h <= usize::MAX,
        ensures
            final(self).wf(),
            r is Err <==> w == 0 || h == 0,
            r matches Err(e) ==> e == FractError::InvalidDimensions && *final(self) == *old(self),
            r is Ok ==> {
                &&& final(self).buffer.spec_width() == w
                &&& final(self).buffer.spec_height() == h
                &&& forall|x: int, y: int|
                    0 <= x < w && 0 <= y < h ==> #[trigger] final(self).buffer.at(x, y) == '\0'
            },
    {
        match Self::new(w, h) {
            Ok(fresh) => {
                self.buffer = fresh.buffer;
                Ok(())
            },
            Err(e) => Err(e),
        }
    }

    /// Writes `string` into row `y`, its first character in column `x`. The
    /// place may lie outside the buffer, to either side: what does not fall
    /// into the buffer is left out.
    pub fn draw_string(&mut self, string: &String, x: i32, y: i32)
        requires
            old(self).wf(),
        ensures
            drawn(old(self).buffer, final(self).buffer, string@, x as int, y as int),
    {
        let width = self.buffer.width();
        let height = self.buffer.height();
        if y < 0 || y as usize >= height {
            return ;
        }
        let row = y as usize;
        let text = string.as_str();
        let len = text.unicode_len();
        let mut k: usize = 0;
        while k < len
            invariant
                k <= len,
                len == string@.len(),
                text@ == string@,
                0 <= y,
                row == y,
                row < height,
                self.wf(),
                width == self.buffer.spec_width(),
                height == self.buffer.spec_height(),
                width == old(self).buffer.spec_width(),
                height == old(self).buffer.spec_height(),
                forall|cx: int, cy: int|
                    0 <= cx < width && 0 <= cy < height ==> #[trigger] self.buffer.at(cx, cy)
                        == if cy == y && 0 <= cx - x < k {
                        string@[cx - x]
                    } else {
                        old(self).buffer.at(cx, cy)
                    },
            decreases len - k,
        {
            let col: i128 = x as i128 + k as i128;
            if col >= 0 && col < width as i128 {
                let c = text.get_char(k);
                let ghost before = self.buffer;
                self.buffer.set(col as usize, row, c);
                proof {
                    assert forall|cx: int, cy: int|
                        0 <= cx < width && 0 <= cy < height implies #[trigger] self.buffer.at(
                        cx,
                        cy,
                    ) == if cy == y && 0 <= cx - x < k + 1 {
                        string@[cx - x]
                    } else {
                        old(self).buffer.at(cx, cy)
                    } by {
                        assert(before@[cy].len() == width);
                        if cy != row || cx != col {
                            assert(self.buffer.at(cx, cy) == before.at(cx, cy));
                        }
                    }
                }
            }
            k = k + 1;
        }
    }

    /// Writes the glyph of each index of `index_matrix` into the cell in its
    /// place, as far as both grids reach. `chars` holds the glyphs.
    pub fn draw_indices(&mut self, index_matrix: &Matrix<u8>, chars: &Vec<char>)
        requires
            old(self).wf(),
            index_matrix.wf(),
            forall|x: int, y: int|
                0 <= x < index_matrix.spec_width() && 0 <= y < index_matrix.spec_height()
                    ==> #[trigger] index_matrix.at(x, y) < chars@.len(),
        ensures
            final(self).wf(),
            final(self).buffer.spec_width() == old(self).buffer.spec_width(),
            final(self).buffer.spec_height() == old(self).buffer.spec_height(),
            forall|x: int, y: int|
                0 <= x < old(self).buffer.spec_width() && 0 <= y < old(self).buffer.spec_height()
                    ==> #[trigger] final(self).buffer.at(x, y) == if x
                    < index_matrix.spec_width() && y < index_matrix.spec_height() {
                    chars@[index_matrix.at(x, y) as int]
                } else {
                    old(self).buffer.at(x, y)
                },
    {
        let w = if self.buffer.width() < index_matrix.width() {
            self.buffer.width()
        } else {
            index_matrix.width()
        };
        let h = if self.buffer.height() < index_matrix.height() {
            self.buffer.height()
        } else {
            index_matrix.height()
        };
        let mut y: usize = 0;
        while y < h
            invariant
                y <= h,
                self.wf(),
                index_matrix.wf(),
                w <= self.buffer.spec_width(),
                w <= index_matrix.spec_width(),
                h <= self.buffer.spec_height(),
                h <= index_matrix.spec_height(),
                w == self.buffer.spec_width() || w == index_matrix.spec_width(),
                self.buffer.spec_width() == old(self).buffer.spec_width(),
                self.buffer.spec_height() == old(self).buffer.spec_height(),
                forall|x: int, y: int|
                    0 <= x < index_matrix.spec_width() && 0 <= y < index_matrix.spec_height()
                        ==> #[trigger] index_matrix.at(x, y) < chars@.len(),
                forall|cx: int, cy: int|
                    0 <= cx < self.buffer.spec_width() && 0 <= cy < self.buffer.spec_height()
                        ==> #[trigger] self.buffer.at(cx, cy) == if cx < w && cy < y {
                        chars@[index_matrix.at(cx, cy) as int]
                    } else {
                        old(self).buffer.at(cx, cy)
                    },
            decreases h - y,
        {
            let mut x: usize = 0;
            while x < w
                invariant
                    x <= w,
                    y < h,
                    self.wf(),
                    index_matrix.wf(),
                    w <= self.buffer.spec_width(),
                    w <= index_matrix.spec_width(),
                    h <= self.buffer.spec_height(),
                    h <= index_matrix.spec_height(),
                    self.buffer.spec_width() == old(self).buffer.spec_width(),
                    self.buffer.spec_height() == old(self).buffer.spec_height(),
                    forall|x: int, y: int|
                        0 <= x < index_matrix.spec_width() && 0 <= y < index_matrix.spec_height()
                            ==> #[trigger] index_matrix.at(x, y) < chars@.len(),
                    forall|cx: int, cy: int|
                        0 <= cx < self.buffer.spec_width() && 0 <= cy < self.buffer.spec_height()
                            ==> #[trigger] self.buffer.at(cx, cy) == if cx < w && (cy < y || (cy
                            == y && cx < x)) {
                            chars@[index_matrix.at(cx, cy) as int]
                        } else {
                            old(self).buffer.at(cx, cy)
                        },
                decreases w - x,
            {
                let i = index_matrix.get(x, y);
                let c = chars[i as usize];
                let ghost before = self.buffer;
                self.buffer.set(x, y, c);
                proof {
                    assert forall|cx: int, cy: int|
                        0 <= cx < self.buffer.spec_width() && 0 <= cy
                            < self.buffer.spec_height() implies #[trigger] self.buffer.at(cx, cy)
                        == if cx < w && (cy < y || (cy == y && cx < x + 1)) {
                        chars@[index_matrix.at(cx, cy) as int]
                    } else {
                        old(self).buffer.at(cx, cy)
                    } by {
                        assert(before@[cy].len() == before.spec_width());
                        if cy != y || cx != x {
                            assert(self.buffer.at(cx, cy) == before.at(cx, cy));
                        }
                    }
                }
                x = x + 1;
            }
            y = y + 1;
        }
    }

    /// Writes the glyph that `to_char` makes of each cell of `values` into
    /// the cell in its place, as far as both grids reach.
    pub fn draw_ascii_rect<G: Fn(u16) -> char>(&mut self, values: &Matrix<u16>, to_char: &G)
        requires
            old(self).wf(),
            values.wf(),
            forall|v: u16| call_requires(*to_char, (v,)),
        ensures
            final(self).wf(),
            final(self).buffer.spec_width() == old(self).buffer.spec_width(),
            final(self).buffer.spec_height() == old(self).buffer.spec_height(),
            forall|x: int, y: int|
                0 <= x < old(self).buffer.spec_width() && 0 <= y < old(self).buffer.spec_height()
                    ==> if x < values.spec_width() && y < values.spec_height() {
                    call_ensures(*to_char, (values.at(x, y),), #[trigger] final(self).buffer.at(x, y))
                } else {
                    final(self).buffer.at(x, y) == old(self).buffer.at(x, y)
                },
    {
        let w = if self.buffer.width() < values.width() {
            self.buffer.width()
        } else {
            values.width()
        };
        let h = if self.buffer.height() < values.height() {
            self.buffer.height()
        } else {
            values.height()
        };
        let mut y: usize = 0;
        while y < h
            invariant
                y <= h,
                self.wf(),
                values.wf(),
                w <= self.buffer.spec_width(),
                w <= values.spec_width(),
                h <= self.buffer.spec_height(),
                h <= values.spec_height(),
                w == self.buffer.spec_width() || w == values.spec_width(),
                self.buffer.spec_width() == old(self).buffer.spec_width(),
                self.buffer.spec_height() == old(self).buffer.spec_height(),
                forall|v: u16| call_requires(*to_char, (v,)),
                forall|cx: int, cy: int|
                    0 <= cx < self.buffer.spec_width() && 0 <= cy < self.buffer.spec_height()
                        ==> if cx < w && cy < y {
                        call_ensures(
                            *to_char,
                            (values.at(cx, cy),),
                            #[trigger] self.buffer.at(cx, cy),
                        )
                    } else {
                        self.buffer.at(cx, cy) == old(self).buffer.at(cx, cy)
                    },
            decreases h - y,
        {
            let mut x: usize = 0;
            while x < w
                invariant
                    x <= w,
                    y < h,
                    self.wf(),
                    values.wf(),
                    w <= self.buffer.spec_width(),
                    w <= values.spec_width(),
                    h <= self.buffer.spec_height(),
                    h <= values.spec_height(),
                    self.buffer.spec_width() == old(self).buffer.spec_width(),
                    self.buffer.spec_height() == old(self).buffer.spec_height(),
                    forall|v: u16| call_requires(*to_char, (v,)),
                    forall|cx: int, cy: int|
                        0 <= cx < self.buffer.spec_width() && 0 <= cy < self.buffer.spec_height()
                            ==> if cx < w && (cy < y || (cy == y && cx < x)) {
                            call_ensures(
                                *to_char,
                                (values.at(cx, cy),),
                                #[trigger] self.buffer.at(cx, cy),
                            )
                        } else {
                            self.buffer.at(cx, cy) == old(self).buffer.at(cx, cy)
                        },
                decreases w - x,
            {
                let c = to_char(values.get(x, y));
                let ghost before = self.buffer;
                self.buffer.set(x, y, c);
                proof {
                    assert forall|cx: int, cy: int|
                        0 <= cx < self.buffer.spec_width() && 0 <= cy
                            < self.buffer.spec_height() implies if cx < w && (cy < y || (cy == y
                        && cx < x + 1)) {
                        call_ensures(
                            *to_char,
                            (values.at(cx, cy),),
                            #[trigger] self.buffer.at(cx, cy),
                        )
                    } else {
                        self.buffer.at(cx, cy) == old(self).buffer.at(cx, cy)
                    } by {
                        assert(before@[cy].len() == before.spec_width());
                        if cy != y || cx != x {
                            assert(self.buffer.at(cx, cy) == before.at(cx, cy));
                        }
                    }
                }
                x = x + 1;
            }
            y = y + 1;
        }
    }
}

} // verus!
