//! A grey-scale pixel buffer with the drawing primitives of a class box.

use vstd::prelude::*;
use crate::decimal::{decimal, decimal_text};

verus! {

/// A rectangle of grey values, one byte each, stored row by row.
pub struct Image {
    data: Vec<u8>,
    width: usize,
    height: usize,
}

impl Image {
    /// The buffer holds one byte for each pixel.
    pub closed spec fn well_formed(self) -> bool {
        self.data@.len() == self.width * self.height
    }

    /// The number of pixels in a row.
    pub closed spec fn columns(self) -> nat {
        self.width as nat
    }

    /// The number of rows.
    pub closed spec fn rows(self) -> nat {
        self.height as nat
    }

    /// The grey value at column `x` of row `y`, and 0 outside the image.
    pub closed spec fn pixel(self, x: int, y: int) -> u8 {
        if 0 <= x < self.width && 0 <= y < self.height {
            self.data@[x + y * self.width]
        } else {
            0
        }
    }

    /// Outside the image every grey value is 0.
    pub proof fn lemma_outside_is_zero(self, x: int, y: int)
        requires
            !(0 <= x < self.columns() && 0 <= y < self.rows()),
        ensures
            self.pixel(x, y) == 0,
    {
    }

    /// Whether `other` has the size of this image.
    pub open spec fn same_size(self, other: Image) -> bool {
        self.columns() == other.columns() && self.rows() == other.rows()
    }

    /// A white image of `width` by `height` pixels.
    pub fn new(width: usize, height: usize) -> (image: Image)
        requires
            width * height <= usize::MAX,
        ensures
            image.well_formed(),
            image.columns() == width,
            image.rows() == height,
            forall|x: int, y: int|
                0 <= x < width && 0 <= y < height ==> #[trigger] image.pixel(x, y) == 255,
    {
        let size = width * height;
        let mut data: Vec<u8> = Vec::new();
        let mut i: usize = 0;
        while i < size
            invariant
                i <= size,
                data@.len() == i,
                forall|j: int| 0 <= j < i ==> data@[j] == 255,
            decreases size - i,
        {
            data.push(255);
            i += 1;
        }
        let image = Image { data, width, height };
        assert forall|x: int, y: int| 0 <= x < width && 0 <= y < height implies #[trigger] image.pixel(
            x,
            y,
        ) == 255 by {
            lemma_index_in_range(x, y, width as int, height as int);
        }
        image
    }

    /// The grey value at column `x` of row `y`, and 0 outside the image.
    pub fn get(&self, x: u32, y: u32) -> (value: u8)
        requires
            self.well_formed(),
        ensures
            value == self.pixel(x as int, y as int),
            x >= self.columns() || y >= self.rows() ==> value == 0,
    {
        let y = y as usize;
        let x = x as usize;
        let size = self.data.len();
        if x < self.width && y < self.height {
            proof {
                lemma_index_in_range(x as int, y as int, self.width as int, self.height as int);
            }
            self.data[x + y * self.width]
        } else {
            0
        }
    }

    /// Sets the grey value at column `x` of row `y`. Outside the image
    /// nothing is drawn.
    pub fn set(&mut self, x: u32, y: u32, val: u8)
        requires
            old(self).well_formed(),
        ensures
            final(self).well_formed(),
            final(self).same_size(*old(self)),
            forall|px: int, py: int|
                #[trigger] final(self).pixel(px, py) == if px == x && py == y && px < old(
                    self,
                ).columns() && py < old(self).rows() {
                    val
                } else {
                    old(self).pixel(px, py)
                },
    {
        let y = y as usize;
        let x = x as usize;
        let size = self.data.len();
        if x < self.width && y < self.height {
            proof {
                lemma_index_in_range(x as int, y as int, self.width as int, self.height as int);
            }
            let index = x + y * self.width;
            self.data.set(index, val);
            assert forall|px: int, py: int| #[trigger]
                self.pixel(px, py) == if px == x && py == y {
                    val
                } else {
                    old(self).pixel(px, py)
                } by {
                if 0 <= px < self.width && 0 <= py < self.height {
                    lemma_index_in_range(px, py, self.width as int, self.height as int);
                    if px + py * self.width == x + y * self.width {
                        lemma_index_injective(px, py, x as int, y as int, self.width as int);
                    }
                }
            }
        }
    }

    /// Draws the pixels of row `y` from column `x1` to column `x2`, both
    /// included. With `x2` before `x1` nothing is drawn.
    pub fn render_horizontal_line(&mut self, y: u32, x1: u32, x2: u32, grey_val: u8)
        requires
            old(self).well_formed(),
        ensures
            final(self).well_formed(),
            final(self).same_size(*old(self)),
            forall|px: int, py: int|
                #[trigger] final(self).pixel(px, py) == if py == y && x1 <= px <= x2 && px < old(
                    self,
                ).columns() && py < old(self).rows() {
                    grey_val
                } else {
                    old(self).pixel(px, py)
                },
    {
        if x1 > x2 {
            return ;
        }
        let mut x = x1;
        while x < x2
            invariant
                x1 <= x <= x2,
                self.well_formed(),
                self.same_size(*old(self)),
                forall|px: int, py: int|
                    #[trigger] self.pixel(px, py) == if py == y && x1 <= px < x && px < old(
                        self,
                    ).columns() && py < old(self).rows() {
                        grey_val
                    } else {
                        old(self).pixel(px, py)
                    },
            decreases x2 - x,
        {
            self.set(x, y, grey_val);
            x += 1;
        }
        self.set(x2, y, grey_val);
    }

    /// Draws the pixels of column `x` from row `y1` to row `y2`, both
    /// included. With `y2` before `y1` nothing is drawn.
    pub fn render_vertical_line(&mut self, x: u32, y1: u32, y2: u32, grey_val: u8)
        requires
            old(self).well_formed(),
        ensures
            final(self).well_formed(),
            final(self).same_size(*old(self)),
            forall|px: int, py: int|
                #[trigger] final(self).pixel(px, py) == if px == x && y1 <= py <= y2 && px < old(
                    self,
                ).columns() && py < old(self).rows() {
                    grey_val
                } else {
                    old(self).pixel(px, py)
                },
    {
        if y1 > y2 {
            return ;
        }
        let mut y = y1;
        while y < y2
            invariant
                y1 <= y <= y2,
                self.well_formed(),
                self.same_size(*old(self)),
                forall|px: int, py: int|
                    #[trigger] self.pixel(px, py) == if px == x && y1 <= py < y && px < old(
                        self,
                    ).columns() && py < old(self).rows() {
                        grey_val
                    } else {
                        old(self).pixel(px, py)
                    },
            decreases y2 - y,
        {
            self.set(x, y, grey_val);
            y += 1;
        }
        self.set(x, y2, grey_val);
    }

    /// Draws the outline of the rectangle with the corners `(x, y)` and
    /// `(x + w, y + h)`.
    pub fn render_rect(&mut self, x: u32, y: u32, w: u32, h: u32, grey_val: u8)
        requires
            old(self).well_formed(),
            x + w <= u32::MAX,
            y + h <= u32::MAX,
        ensures
            final(self).well_formed(),
            final(self).same_size(*old(self)),
            forall|px: int, py: int|
                #[trigger] final(self).pixel(px, py) == if on_outline(
                    px,
                    py,
                    x as int,
                    y as int,
                    w as int,
                    h as int,
                ) && px < old(self).columns() && py < old(self).rows() {
                    grey_val
                } else {
                    old(self).pixel(px, py)
                },
    {
        self.render_horizontal_line(y, x, x + w, grey_val);
        self.render_horizontal_line(y + h, x, x + w, grey_val);
        self.render_vertical_line(x, y, y + h, grey_val);
        self.render_vertical_line(x + w, y, y + h, grey_val);
    }

    /// The image as a plain PGM text: the magic number of the format, the
    /// width and the height, the maximal grey value 255, and then the grey
    /// values row by row, each followed by a blank, each row followed by a
    /// line feed.
    pub fn to_ppm(&self) -> (text: String)
        requires
            self.well_formed(),
        ensures
            text@ == ppm_text(*self),
    {
        let size = self.data.len();
        let mut out = String::from_str("P2\n");
        out.append(decimal_text(self.width).as_str());
        out.append(" ");
        out.append(decimal_text(self.height).as_str());
        out.append("\n");
        out.append("255\n");
        let ghost head = out@;
        let mut y: usize = 0;
        while y < self.height
            invariant
                y <= self.height,
                self.well_formed(),
                size == self.data@.len(),
                out@ == head + rows_text(*self, y as nat),
            decreases self.height - y,
        {
            let ghost before = out@;
            let mut x: usize = 0;
            while x < self.width
                invariant
                    x <= self.width,
                    y < self.height,
                    self.well_formed(),
                    size == self.data@.len(),
                    out@ == before + row_text(*self, y as int, x as nat),
                decreases self.width - x,
            {
                proof {
                    lemma_index_in_range(x as int, y as int, self.width as int, self.height as int);
                }
                let ghost so_far = out@;
                out.append(decimal_text(self.data[x + y * self.width] as usize).as_str());
                out.append(" ");
                x += 1;
                assert(out@ =~= before + row_text(*self, y as int, x as nat));
            }
            out.append("\n");
            y += 1;
            assert(out@ =~= head + rows_text(*self, y as nat));
        }
        out
    }
}

/// Whether the pixel `(px, py)` lies on the outline of the rectangle with
/// the corners `(x, y)` and `(x + w, y + h)`.
pub open spec fn on_outline(px: int, py: int, x: int, y: int, w: int, h: int) -> bool {
    ||| (py == y || py == y + h) && x <= px <= x + w
    ||| (px == x || px == x + w) && y <= py <= y + h
}

/// The first `upto` grey values of row `y`, each followed by a blank.
pub open spec fn row_text(image: Image, y: int, upto: nat) -> Seq<char>
    decreases upto,
{
    if upto == 0 {
        Seq::empty()
    } else {
        row_text(image, y, (upto - 1) as nat) + decimal(image.pixel(upto - 1, y) as nat) + " "@
    }
}

/// The first `upto` rows, each followed by a line feed.
pub open spec fn rows_text(image: Image, upto: nat) -> Seq<char>
    decreases upto,
{
    if upto == 0 {
        Seq::empty()
    } else {
        rows_text(image, (upto - 1) as nat) + row_text(image, upto - 1, image.columns()) + "\n"@
    }
}

/// The plain PGM text of an image.
pub open spec fn ppm_text(image: Image) -> Seq<char> {
    "P2\n"@ + decimal(image.columns()) + " "@ + decimal(image.rows()) + "\n"@ + "255\n"@
        + rows_text(image, image.rows())
}

/// The index of a pixel lies in the buffer.
proof fn lemma_index_in_range(x: int, y: int, width: int, height: int)
    requires
        0 <= x < width,
        0 <= y < height,
    ensures
        0 <= y * width,
        0 <= x + y * width < width * height,
{
    assert(y * width >= 0) by (nonlinear_arith)
        requires
            y >= 0,
            width >= 0,
    ;
    assert((y + 1) * width <= height * width) by (nonlinear_arith)
        requires
            y + 1 <= height,
            width >= 0,
    ;
    assert((y + 1) * width == y * width + width) by (nonlinear_arith);
    assert(height * width == width * height) by (nonlinear_arith);
}

/// Two pixels with the same index are the same pixel.
proof fn lemma_index_injective(x1: int, y1: int, x2: int, y2: int, width: int)
    requires
        0 <= x1 < width,
        0 <= x2 < width,
        0 <= y1,
        0 <= y2,
        x1 + y1 * width == x2 + y2 * width,
    ensures
        x1 == x2,
        y1 == y2,
{
    if y1 < y2 {
        assert((y1 + 1) * width <= y2 * width) by (nonlinear_arith)
            requires
                y1 + 1 <= y2,
                width >= 0,
        ;
        assert((y1 + 1) * width == y1 * width + width) by (nonlinear_arith);
    } else if y2 < y1 {
        assert((y2 + 1) * width <= y1 * width) by (nonlinear_arith)
            requires
                y2 + 1 <= y1,
                width >= 0,
        ;
        assert((y2 + 1) * width == y2 * width + width) by (nonlinear_arith);
    }
}

} // verus!
