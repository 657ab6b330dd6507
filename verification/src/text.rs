//! Drawing and measuring text with the glyphs of a FreeType face.
//!
//! What FreeType renders depends on the font that a face was opened from, so
//! nothing is claimed of it. The glyphs are copied into plain values, and
//! what is drawn and measured is stated, and proved, for every such value.

use vstd::prelude::*;
use vstd::slice::slice_to_vec;
use freetype::bitmap::{Bitmap, PixelMode};
use freetype::error::Error;
use freetype::face::{Face, LoadFlag};
use freetype::glyph_slot::GlyphSlot;
use freetype::Vector;
use crate::image::Image;

verus! {

/// `freetype::face::Face`, a font face. Nothing of its state is visible here.
#[verifier::external_type_specification]
#[verifier::external_body]
#[verifier::reject_recursive_types(BYTES)]
pub struct ExFace<BYTES>(Face<BYTES>);

/// `freetype::glyph_slot::GlyphSlot`, the place where a face keeps the glyph
/// that it loaded last.
#[verifier::external_type_specification]
#[verifier::external_body]
pub struct ExGlyphSlot(GlyphSlot);

/// `freetype::bitmap::Bitmap`, the rendered image of a glyph.
#[verifier::external_type_specification]
#[verifier::external_body]
pub struct ExBitmap(Bitmap);

/// `freetype::error::Error`, the error codes of FreeType.
#[verifier::external_type_specification]
#[verifier::external_body]
pub struct ExError(Error);

/// `freetype::face::LoadFlag`, the options of loading a glyph.
#[verifier::external_type_specification]
#[verifier::external_body]
pub struct ExLoadFlag(LoadFlag);

/// `freetype::bitmap::PixelMode`, the formats of the pixels of a bitmap.
#[verifier::external_type_specification]
pub struct ExPixelMode(PixelMode);

/// `freetype::Vector`, a pair of coordinates.
#[verifier::external_type_specification]
pub struct ExVector(Vector);

/// `Face::set_char_size` asks FreeType for a character size. Whether
/// FreeType accepts the size is up to the font: nothing is claimed.
pub assume_specification<BYTES>[ Face::<BYTES>::set_char_size ](
    face: &Face<BYTES>,
    char_width: isize,
    char_height: isize,
    horz_resolution: u32,
    vert_resolution: u32,
) -> Result<(), Error>
;

/// `Face::load_char` loads the glyph of a character code into the glyph slot
/// of the face. Whether the font has the glyph is up to the font: nothing is
/// claimed.
pub assume_specification<BYTES>[ Face::<BYTES>::load_char ](
    face: &Face<BYTES>,
    char_code: usize,
    load_flags: LoadFlag,
) -> Result<(), Error>
;

/// `Face::glyph` hands out the glyph slot of the face.
pub assume_specification<BYTES>[ Face::<BYTES>::glyph ](face: &Face<BYTES>) -> &GlyphSlot
;

/// `GlyphSlot::bitmap` hands out the bitmap of the glyph in the slot.
pub assume_specification[ GlyphSlot::bitmap ](slot: &GlyphSlot) -> Bitmap
;

/// `GlyphSlot::bitmap_left` reads the left bearing of the bitmap, in pixels.
pub assume_specification[ GlyphSlot::bitmap_left ](slot: &GlyphSlot) -> i32
;

/// `GlyphSlot::bitmap_top` reads the top bearing of the bitmap, in pixels.
pub assume_specification[ GlyphSlot::bitmap_top ](slot: &GlyphSlot) -> i32
;

/// `GlyphSlot::advance` reads the advance of the glyph, in 1/64 of a pixel.
pub assume_specification[ GlyphSlot::advance ](slot: &GlyphSlot) -> Vector
;

/// `Bitmap::buffer` hands out the bytes of the bitmap. It counts them as the
/// magnitude of the pitch times the number of rows, in an `i32`: it is only
/// called for a bitmap whose pitch and rows [`size_fits`] has accepted.
pub assume_specification[ Bitmap::buffer ](bitmap: &Bitmap) -> &[u8]
;

/// `Bitmap::width` reads the number of pixels in a row of the bitmap.
pub assume_specification[ Bitmap::width ](bitmap: &Bitmap) -> i32
;

/// `Bitmap::rows` reads the number of rows of the bitmap.
pub assume_specification[ Bitmap::rows ](bitmap: &Bitmap) -> i32
;

/// `Bitmap::pitch` reads the offset from one row of the bitmap to the next,
/// in bytes.
pub assume_specification[ Bitmap::pitch ](bitmap: &Bitmap) -> i32
;

/// `Bitmap::pixel_mode` reads the format of the pixels of the bitmap.
pub assume_specification[ Bitmap::pixel_mode ](bitmap: &Bitmap) -> Result<PixelMode, Error>
;

/// `LoadFlag::RENDER`, the option that makes `Face::load_char` render the
/// glyph at once.
#[verifier::external_body]
fn render_flag() -> LoadFlag {
    LoadFlag::RENDER
}

/// Why a text was not drawn or measured.
#[derive(Clone, Copy, Debug, PartialEq, Eq, Structural)]
pub enum TextError {
    /// The font size is too large, or the face does not take it.
    FontSize,
    /// The face could not load the glyph of this character.
    MissingGlyph(char),
    /// A glyph was not rendered with one grey byte for each pixel.
    NotGray,
    /// The bitmap of a glyph does not hold a byte for each of its pixels.
    ShortBuffer,
    /// A pen position, a width or the number of bytes of a bitmap does not
    /// fit its integer type.
    Overflow,
}

/// The largest font size that text is drawn in.
pub const MAX_FONT_SIZE: usize = 0x1ff_ffff;

/// A glyph as FreeType rendered it, in plain values.
pub struct GlyphImage {
    /// The distance from the pen to the left edge of the bitmap.
    pub left: i32,
    /// The distance from the baseline up to the top edge of the bitmap.
    pub top: i32,
    /// The number of pixels in a row.
    pub width: i32,
    /// The number of rows.
    pub rows: i32,
    /// The offset from one row to the next in `buffer`.
    pub pitch: i32,
    /// The grey values, 0 for nothing and 255 for full cover.
    pub buffer: Vec<u8>,
    /// How far the pen moves to the right, in 1/64 of a pixel.
    pub advance_x: i64,
    /// How far the pen moves down, in 1/64 of a pixel.
    pub advance_y: i64,
}

/// A number of 1/64 of a pixel in whole pixels, rounded down.
pub open spec fn whole_pixels(advance: i64) -> int {
    (advance >> 6) as int
}

impl GlyphImage {
    /// Whether the bitmap has a pixel at column `x` of row `y`.
    pub open spec fn covers(self, x: int, y: int) -> bool {
        0 <= x < self.width && 0 <= y < self.rows
    }

    /// The buffer holds a byte for each pixel of the bitmap.
    pub open spec fn well_formed(self) -> bool {
        self.width <= 0 || self.rows <= 0 || ((self.rows == 1 || self.pitch >= 0) && (self.rows
            - 1) * self.pitch + self.width <= self.buffer@.len())
    }

    /// The grey value of the pixel at column `x` of row `y`.
    pub open spec fn grey(self, x: int, y: int) -> u8 {
        self.buffer@[x + y * self.pitch]
    }

    /// Every pixel of a well-formed bitmap has its byte in the buffer.
    pub proof fn lemma_pixel_in_buffer(self, x: int, y: int)
        requires
            self.well_formed(),
            self.covers(x, y),
        ensures
            0 <= x + y * self.pitch < self.buffer@.len(),
    {
        let pitch = self.pitch as int;
        let last = self.rows - 1;
        if self.rows == 1 {
            assert(y * pitch == 0 && last * pitch == 0) by (nonlinear_arith)
                requires
                    y == 0,
                    last == 0,
            ;
        } else {
            assert(0 <= y * pitch <= last * pitch) by (nonlinear_arith)
                requires
                    0 <= y <= last,
                    pitch >= 0,
            ;
        }
    }

    /// Decides [`GlyphImage::well_formed`].
    pub fn is_well_formed(&self) -> (r: bool)
        ensures
            r == self.well_formed(),
    {
        if self.width <= 0 || self.rows <= 0 {
            return true;
        }
        if self.rows != 1 && self.pitch < 0 {
            return false;
        }
        let rows = self.rows as i64 - 1;
        let pitch = self.pitch as i64;
        assert(-0x8000_0000 * 0x8000_0000 <= rows * pitch <= 0x8000_0000 * 0x8000_0000)
            by (nonlinear_arith)
            requires
                0 <= rows <= 0x8000_0000,
                -0x8000_0000 <= pitch <= 0x8000_0000,
        ;
        let needed = rows * pitch + self.width as i64;
        assert(needed >= 0) by (nonlinear_arith)
            requires
                needed == rows * pitch + self.width,
                self.width > 0,
                rows == 0 || pitch >= 0,
                rows >= 0,
        ;
        needed as u64 <= self.buffer.len() as u64
    }
}

impl Image {
    /// Whether the image has a pixel at column `x` of row `y` that drawing
    /// can reach.
    pub open spec fn reaches(self, x: int, y: int) -> bool {
        0 <= x < self.columns() && 0 <= y < self.rows() && x <= u32::MAX && y <= u32::MAX
    }

    /// Draws one glyph for a pen at `(pen_x, pen_y)`: the top left pixel of
    /// its bitmap goes to column `pen_x + left` of row
    /// `pen_y + font_size - top`, and each pixel of the bitmap that falls
    /// into the image is set to 255 less its grey value.
    pub fn draw_glyph(&mut self, pen_x: i32, pen_y: i32, font_size: i32, glyph: &GlyphImage)
        requires
            old(self).well_formed(),
            glyph.well_formed(),
        ensures
            final(self).well_formed(),
            final(self).same_size(*old(self)),
            forall|px: int, py: int|
                #[trigger] final(self).pixel(px, py) == glyph_pixel(
                    *old(self),
                    *glyph,
                    pen_x + glyph.left,
                    pen_y + (font_size - glyph.top),
                    px,
                    py,
                ),
    {
        let start_x: i64 = pen_x as i64 + glyph.left as i64;
        let start_y: i64 = pen_y as i64 + (font_size as i64 - glyph.top as i64);
        let mut y: i32 = 0;
        while y < glyph.rows
            invariant
                0 <= y,
                y <= glyph.rows || glyph.rows < 0,
                glyph.well_formed(),
                self.well_formed(),
                self.same_size(*old(self)),
                start_x == pen_x + glyph.left,
                start_y == pen_y + (font_size - glyph.top),
                forall|px: int, py: int|
                    #[trigger] self.pixel(px, py) == if py - start_y < y {
                        glyph_pixel(*old(self), *glyph, start_x as int, start_y as int, px, py)
                    } else {
                        old(self).pixel(px, py)
                    },
            decreases glyph.rows - y,
        {
            let mut x: i32 = 0;
            while x < glyph.width
                invariant
                    0 <= x,
                    x <= glyph.width || glyph.width < 0,
                    0 <= y < glyph.rows,
                    glyph.well_formed(),
                    self.well_formed(),
                    self.same_size(*old(self)),
                    start_x == pen_x + glyph.left,
                    start_y == pen_y + (font_size - glyph.top),
                    forall|px: int, py: int|
                        #[trigger] self.pixel(px, py) == if py - start_y < y || (py - start_y == y
                            && px - start_x < x) {
                            glyph_pixel(
                                *old(self),
                                *glyph,
                                start_x as int,
                                start_y as int,
                                px,
                                py,
                            )
                        } else {
                            old(self).pixel(px, py)
                        },
                decreases glyph.width - x,
            {
                proof {
                    glyph.lemma_pixel_in_buffer(x as int, y as int);
                }
                let pitch = glyph.pitch as i64;
                assert(-0x8000_0000 * 0x8000_0000 <= y * pitch <= 0x8000_0000 * 0x8000_0000)
                    by (nonlinear_arith)
                    requires
                        0 <= y <= 0x8000_0000,
                        -0x8000_0000 <= pitch <= 0x8000_0000,
                ;
                let index = x as i64 + y as i64 * pitch;
                let len = glyph.buffer.len();
                assert(0 <= index < len);
                let grey_val = glyph.buffer[index as usize];
                assert(grey_val == glyph.grey(x as int, y as int));
                let pos_x = start_x + x as i64;
                let pos_y = start_y + y as i64;
                let ghost before = *self;
                if 0 <= pos_x && pos_x <= u32::MAX as i64 && 0 <= pos_y && pos_y <= u32::MAX as i64 {
                    self.set(pos_x as u32, pos_y as u32, 255 - grey_val);
                }
                assert forall|px: int, py: int| #[trigger]
                    self.pixel(px, py) == if py - start_y < y || (py - start_y == y && px - start_x
                        < x + 1) {
                        glyph_pixel(*old(self), *glyph, start_x as int, start_y as int, px, py)
                    } else {
                        old(self).pixel(px, py)
                    } by {
                    if px == pos_x && py == pos_y {
                        assert(glyph.covers(px - start_x, py - start_y));
                        assert(before.pixel(px, py) == old(self).pixel(px, py));
                    } else {
                        assert(self.pixel(px, py) == before.pixel(px, py));
                    }
                }
                x += 1;
            }
            y += 1;
        }
    }
}

/// The grey value of the pixel `(px, py)` of `base` after a glyph was drawn
/// with the top left pixel of its bitmap at `(start_x, start_y)`.
pub open spec fn glyph_pixel(
    base: Image,
    glyph: GlyphImage,
    start_x: int,
    start_y: int,
    px: int,
    py: int,
) -> u8 {
    if glyph.covers(px - start_x, py - start_y) && base.reaches(px, py) {
        (255 - glyph.grey(px - start_x, py - start_y)) as u8
    } else {
        base.pixel(px, py)
    }
}

/// Where the pen stands after `count` glyphs: at `start`, moved to the right
/// by the whole pixels of each advance.
pub open spec fn pen_x(start: int, glyphs: Seq<GlyphImage>, count: int) -> int
    decreases count,
{
    if count <= 0 {
        start
    } else {
        pen_x(start, glyphs, count - 1) + whole_pixels(glyphs[count - 1].advance_x)
    }
}

/// Where the pen stands after `count` glyphs: at `start`, moved down by the
/// whole pixels of each advance.
pub open spec fn pen_y(start: int, glyphs: Seq<GlyphImage>, count: int) -> int
    decreases count,
{
    if count <= 0 {
        start
    } else {
        pen_y(start, glyphs, count - 1) + whole_pixels(glyphs[count - 1].advance_y)
    }
}

/// Every pen position of a run of glyphs that starts at `(x, y)`, from the
/// first to the one behind the last glyph, fits an `i32`.
pub open spec fn pens_fit(x: int, y: int, glyphs: Seq<GlyphImage>) -> bool {
    forall|count: int|
        0 <= count <= glyphs.len() ==> i32::MIN <= #[trigger] pen_x(x, glyphs, count) <= i32::MAX
            && i32::MIN <= pen_y(y, glyphs, count) <= i32::MAX
}

/// The grey value of the pixel `(px, py)` of `base` after the first `count`
/// glyphs of a run were drawn from `(x, y)` on. A later glyph covers an
/// earlier one.
pub open spec fn text_pixel(
    base: Image,
    x: int,
    y: int,
    font_size: int,
    glyphs: Seq<GlyphImage>,
    count: int,
    px: int,
    py: int,
) -> u8
    decreases count,
{
    if count <= 0 {
        base.pixel(px, py)
    } else {
        let glyph = glyphs[count - 1];
        let start_x = pen_x(x, glyphs, count - 1) + glyph.left;
        let start_y = pen_y(y, glyphs, count - 1) + (font_size - glyph.top);
        if glyph.covers(px - start_x, py - start_y) && base.reaches(px, py) {
            (255 - glyph.grey(px - start_x, py - start_y)) as u8
        } else {
            text_pixel(base, x, y, font_size, glyphs, count - 1, px, py)
        }
    }
}

/// `after` is `before` with a run of well-formed glyphs drawn from `(x, y)`
/// on, none of which brought the pen out of range.
pub open spec fn is_drawing_of(
    after: Image,
    before: Image,
    x: int,
    y: int,
    font_size: int,
    glyphs: Seq<GlyphImage>,
) -> bool {
    &&& pens_fit(x, y, glyphs)
    &&& forall|i: int| 0 <= i < glyphs.len() ==> (#[trigger] glyphs[i]).well_formed()
    &&& forall|px: int, py: int|
        #[trigger] after.pixel(px, py) == text_pixel(
            before,
            x,
            y,
            font_size,
            glyphs,
            glyphs.len() as int,
            px,
            py,
        )
}

/// `width` is the sum of the whole pixels of `advances`, and every sum on
/// the way to it fits a `u32`.
pub open spec fn is_width_of(width: u32, advances: Seq<i64>) -> bool {
    widths_fit(advances) && width == advance_sum(advances, advances.len() as int)
}

/// `after` is `before` with `text` drawn from `(x, y)` on in some run of
/// well-formed glyphs, one for each character.
pub open spec fn is_text_drawing(
    after: Image,
    before: Image,
    x: int,
    y: int,
    font_size: int,
    text: Seq<char>,
) -> bool {
    exists|glyphs: Seq<GlyphImage>|
        glyphs.len() == text.len() && #[trigger] is_drawing_of(
            after,
            before,
            x,
            y,
            font_size,
            glyphs,
        )
}

/// `width` is the width of `text` for some advances, one for each character.
pub open spec fn is_text_width(width: u32, text: Seq<char>) -> bool {
    exists|advances: Seq<i64>|
        advances.len() == text.len() && #[trigger] is_width_of(width, advances)
}

/// The sum of the whole pixels of the first `count` advances.
pub open spec fn advance_sum(advances: Seq<i64>, count: int) -> int
    decreases count,
{
    if count <= 0 {
        0
    } else {
        advance_sum(advances, count - 1) + whole_pixels(advances[count - 1])
    }
}

/// Every sum of the first advances, from none to all, fits a `u32`.
pub open spec fn widths_fit(advances: Seq<i64>) -> bool {
    forall|count: int|
        0 <= count <= advances.len() ==> 0 <= #[trigger] advance_sum(advances, count) <= u32::MAX
}

/// The width of a text from the advances of its glyphs: the sum of their
/// whole pixels, or `None` where a sum on the way does not fit a `u32`.
pub fn total_width(advances: &Vec<i64>) -> (width: Option<u32>)
    ensures
        width is Some <==> widths_fit(advances@),
        width matches Some(w) ==> w == advance_sum(advances@, advances@.len() as int),
{
    let mut width: u32 = 0;
    let mut i: usize = 0;
    while i < advances.len()
        invariant
            i <= advances.len(),
            width == advance_sum(advances@, i as int),
            forall|count: int|
                0 <= count <= i ==> 0 <= #[trigger] advance_sum(advances@, count) <= u32::MAX,
        decreases advances.len() - i,
    {
        let advance = advances[i];
        let pixels: i64 = advance >> 6;
        assert(-0x0200_0000_0000_0000 <= pixels < 0x0200_0000_0000_0000) by (bit_vector)
            requires
                pixels == advance >> 6,
        ;
        let next = width as i64 + pixels;
        if next < 0 || next > u32::MAX as i64 {
            assert(advance_sum(advances@, i + 1) == next);
            return None;
        }
        width = next as u32;
        i += 1;
    }
    Some(width)
}

/// What loading gives for a glyph that the face rendered, from the pixel
/// mode of its bitmap and from its values: the glyph itself if the bitmap
/// holds one grey byte for each pixel and the glyph is well-formed.
pub open spec fn glyph_outcome(mode: Result<PixelMode, Error>, glyph: GlyphImage) -> Result<
    GlyphImage,
    TextError,
> {
    if !(mode matches Ok(PixelMode::Gray)) {
        Err(TextError::NotGray)
    } else if !glyph.well_formed() {
        Err(TextError::ShortBuffer)
    } else {
        Ok(glyph)
    }
}

/// Accepts or refuses a glyph that the face rendered, as [`glyph_outcome`]
/// says.
pub fn rendered_glyph(mode: Result<PixelMode, Error>, glyph: GlyphImage) -> (r: Result<
    GlyphImage,
    TextError,
>)
    ensures
        r == glyph_outcome(mode, glyph),
{
    match mode {
        Ok(PixelMode::Gray) => {},
        _ => {
            return Err(TextError::NotGray);
        },
    }
    if !glyph.is_well_formed() {
        return Err(TextError::ShortBuffer);
    }
    Ok(glyph)
}

/// The character size that a face is asked for: the font size in 1/64 of a
/// point.
pub fn char_size(font_size: usize) -> (size: isize)
    requires
        font_size <= MAX_FONT_SIZE,
    ensures
        size == font_size * 64,
{
    (font_size * 64) as isize
}

/// The character code that a face is asked for: the code point of the
/// character.
pub fn char_code(c: char) -> (code: usize)
    ensures
        code == c as u32,
{
    c as u32 as usize
}

/// The bytes of a bitmap of the given pitch and rows can be counted in an
/// `i32`: the pitch has a magnitude, and the magnitude times the rows is not
/// negative and fits.
pub open spec fn bitmap_size_fits(pitch: i32, rows: i32) -> bool {
    &&& pitch > i32::MIN
    &&& 0 <= (if pitch < 0 {
        -pitch
    } else {
        pitch as int
    }) * rows <= i32::MAX
}

/// Decides [`bitmap_size_fits`].
pub fn size_fits(pitch: i32, rows: i32) -> (fits: bool)
    ensures
        fits == bitmap_size_fits(pitch, rows),
{
    if pitch == i32::MIN {
        return false;
    }
    let magnitude: i64 = if pitch < 0 {
        -(pitch as i64)
    } else {
        pitch as i64
    };
    assert(-0x8000_0000 * 0x8000_0000 <= magnitude * rows <= 0x8000_0000 * 0x8000_0000)
        by (nonlinear_arith)
        requires
            0 <= magnitude <= 0x8000_0000,
            -0x8000_0000 <= rows <= 0x8000_0000,
    ;
    let bytes = magnitude * rows as i64;
    0 <= bytes && bytes <= i32::MAX as i64
}

/// Copies the glyph of `c` out of the face, rendered at the size that the
/// face was set to. The face is asked for the code that [`char_code`] gives.
/// Where it loads the glyph, the pitch and the rows of the bitmap are read
/// first, and the bytes are only read where [`size_fits`] accepts the two;
/// the outcome is then the one that [`rendered_glyph`] gives for what stands
/// in the glyph slot.
pub fn load_glyph(font: &Face, c: char) -> (r: Result<GlyphImage, TextError>)
    ensures
        r matches Ok(glyph) ==> glyph.well_formed() && bitmap_size_fits(glyph.pitch, glyph.rows),
        r matches Err(e) ==> e == TextError::MissingGlyph(c) || e == TextError::NotGray || e
            == TextError::ShortBuffer || e == TextError::Overflow,
{
    if font.load_char(char_code(c), render_flag()).is_err() {
        return Err(TextError::MissingGlyph(c));
    }
    let slot = font.glyph();
    let bitmap = slot.bitmap();
    let mode = bitmap.pixel_mode();
    let rows = bitmap.rows();
    let pitch = bitmap.pitch();
    if !size_fits(pitch, rows) {
        return Err(TextError::Overflow);
    }
    let advance = slot.advance();
    let glyph = GlyphImage {
        left: slot.bitmap_left(),
        top: slot.bitmap_top(),
        width: bitmap.width(),
        rows,
        pitch,
        buffer: slice_to_vec(bitmap.buffer()),
        advance_x: advance.x as i64,
        advance_y: advance.y as i64,
    };
    rendered_glyph(mode, glyph)
}

/// Sets the face to `font_size` and copies the glyphs of `text` out of it,
/// one for each character.
pub fn load_glyphs(text: &str, font_size: usize, font: &Face) -> (r: Result<
    Vec<GlyphImage>,
    TextError,
>)
    ensures
        font_size > MAX_FONT_SIZE ==> r == Err::<Vec<GlyphImage>, TextError>(TextError::FontSize),
        r matches Ok(glyphs) ==> glyphs@.len() == text@.len() && forall|i: int|
            0 <= i < glyphs@.len() ==> (#[trigger] glyphs@[i]).well_formed(),
{
    if font_size > MAX_FONT_SIZE {
        return Err(TextError::FontSize);
    }
    if font.set_char_size(0, char_size(font_size), 0, 0).is_err() {
        return Err(TextError::FontSize);
    }
    let count = text.unicode_len();
    let mut glyphs: Vec<GlyphImage> = Vec::new();
    let mut i: usize = 0;
    while i < count
        invariant
            i <= count,
            count == text@.len(),
            font_size <= MAX_FONT_SIZE,
            glyphs@.len() == i,
            forall|j: int| 0 <= j < glyphs@.len() ==> (#[trigger] glyphs@[j]).well_formed(),
        decreases count - i,
    {
        match load_glyph(font, text.get_char(i)) {
            Ok(glyph) => {
                glyphs.push(glyph);
            },
            Err(e) => {
                return Err(e);
            },
        }
        i += 1;
    }
    Ok(glyphs)
}

/// Sets the face to `font_size` and reads the advance of the glyph of each
/// character of `text`, in 1/64 of a pixel.
pub fn load_advances(text: &str, font_size: usize, font: &Face) -> (r: Result<
    Vec<i64>,
    TextError,
>)
    ensures
        font_size > MAX_FONT_SIZE ==> r == Err::<Vec<i64>, TextError>(TextError::FontSize),
        r matches Ok(advances) ==> advances@.len() == text@.len(),
        r matches Err(e) ==> e == TextError::FontSize || e is MissingGlyph,
{
    if font_size > MAX_FONT_SIZE {
        return Err(TextError::FontSize);
    }
    if font.set_char_size(0, char_size(font_size), 0, 0).is_err() {
        return Err(TextError::FontSize);
    }
    let count = text.unicode_len();
    let mut advances: Vec<i64> = Vec::new();
    let mut i: usize = 0;
    while i < count
        invariant
            i <= count,
            count == text@.len(),
            font_size <= MAX_FONT_SIZE,
            advances@.len() == i,
        decreases count - i,
    {
        let c = text.get_char(i);
        if font.load_char(char_code(c), render_flag()).is_err() {
            return Err(TextError::MissingGlyph(c));
        }
        advances.push(font.glyph().advance().x as i64);
        i += 1;
    }
    Ok(advances)
}

/// The pen moved by the whole pixels of an advance, or `None` where it no
/// longer fits an `i32`.
pub fn advance_pen(pen: i32, advance: i64) -> (next: Option<i32>)
    ensures
        next is Some <==> i32::MIN <= pen + whole_pixels(advance) <= i32::MAX,
        next matches Some(moved) ==> moved == pen + whole_pixels(advance),
{
    let pixels: i64 = advance >> 6;
    assert(-0x0200_0000_0000_0000 <= pixels < 0x0200_0000_0000_0000) by (bit_vector)
        requires
            pixels == advance >> 6,
    ;
    let moved = pen as i64 + pixels;
    if moved < i32::MIN as i64 || moved > i32::MAX as i64 {
        None
    } else {
        Some(moved as i32)
    }
}

impl Image {
    /// Draws a run of glyphs with the pen starting at `(x, y)`. Each glyph is
    /// drawn as [`Image::draw_glyph`] draws it, and then the pen moves by
    /// the whole pixels of the advance of the glyph. Where a pen position
    /// does not fit an `i32`, nothing is drawn.
    pub fn draw_glyphs(&mut self, x: u32, y: u32, font_size: i32, glyphs: &Vec<GlyphImage>) -> (r:
        Result<(), TextError>)
        requires
            old(self).well_formed(),
            forall|i: int| 0 <= i < glyphs@.len() ==> (#[trigger] glyphs@[i]).well_formed(),
        ensures
            final(self).well_formed(),
            final(self).same_size(*old(self)),
            r is Ok <==> pens_fit(x as int, y as int, glyphs@),
            r matches Err(e) ==> e == TextError::Overflow,
            forall|px: int, py: int|
                #[trigger] final(self).pixel(px, py) == if r is Ok {
                    text_pixel(
                        *old(self),
                        x as int,
                        y as int,
                        font_size as int,
                        glyphs@,
                        glyphs@.len() as int,
                        px,
                        py,
                    )
                } else {
                    old(self).pixel(px, py)
                },
    {
        if x > i32::MAX as u32 || y > i32::MAX as u32 {
            assert(pen_x(x as int, glyphs@, 0) == x && pen_y(y as int, glyphs@, 0) == y);
            return Err(TextError::Overflow);
        }
        let mut pen_x_now = x as i32;
        let mut pen_y_now = y as i32;
        let mut i: usize = 0;
        while i < glyphs.len()
            invariant
                i <= glyphs.len(),
                pen_x_now == pen_x(x as int, glyphs@, i as int),
                pen_y_now == pen_y(y as int, glyphs@, i as int),
                forall|count: int|
                    0 <= count <= i ==> i32::MIN <= #[trigger] pen_x(x as int, glyphs@, count)
                        <= i32::MAX && i32::MIN <= pen_y(y as int, glyphs@, count) <= i32::MAX,
                *self == *old(self),
                self.well_formed(),
            decreases glyphs.len() - i,
        {
            let moved_x = advance_pen(pen_x_now, glyphs[i].advance_x);
            let moved_y = advance_pen(pen_y_now, glyphs[i].advance_y);
            match (moved_x, moved_y) {
                (Some(next_x), Some(next_y)) => {
                    pen_x_now = next_x;
                    pen_y_now = next_y;
                },
                _ => {
                    assert(pen_x(x as int, glyphs@, i + 1) == pen_x_now + whole_pixels(
                        glyphs@[i as int].advance_x,
                    ));
                    assert(pen_y(y as int, glyphs@, i + 1) == pen_y_now + whole_pixels(
                        glyphs@[i as int].advance_y,
                    ));
                    return Err(TextError::Overflow);
                },
            }
            i += 1;
        }
        pen_x_now = x as i32;
        pen_y_now = y as i32;
        i = 0;
        while i < glyphs.len()
            invariant
                i <= glyphs.len(),
                pens_fit(x as int, y as int, glyphs@),
                pen_x_now == pen_x(x as int, glyphs@, i as int),
                pen_y_now == pen_y(y as int, glyphs@, i as int),
                forall|j: int| 0 <= j < glyphs@.len() ==> (#[trigger] glyphs@[j]).well_formed(),
                self.well_formed(),
                self.same_size(*old(self)),
                forall|px: int, py: int|
                    #[trigger] self.pixel(px, py) == text_pixel(
                        *old(self),
                        x as int,
                        y as int,
                        font_size as int,
                        glyphs@,
                        i as int,
                        px,
                        py,
                    ),
            decreases glyphs.len() - i,
        {
            let ghost before = *self;
            self.draw_glyph(pen_x_now, pen_y_now, font_size, &glyphs[i]);
            proof {
                assert(i32::MIN <= pen_x(x as int, glyphs@, i + 1) <= i32::MAX);
                assert(i32::MIN <= pen_y(y as int, glyphs@, i + 1) <= i32::MAX);
                assert forall|px: int, py: int| #[trigger]
                    self.pixel(px, py) == text_pixel(
                        *old(self),
                        x as int,
                        y as int,
                        font_size as int,
                        glyphs@,
                        i + 1,
                        px,
                        py,
                    ) by {
                    assert(before.reaches(px, py) == old(self).reaches(px, py));
                    assert(before.pixel(px, py) == text_pixel(
                        *old(self),
                        x as int,
                        y as int,
                        font_size as int,
                        glyphs@,
                        i as int,
                        px,
                        py,
                    ));
                }
            }
            let moved_x = advance_pen(pen_x_now, glyphs[i].advance_x);
            let moved_y = advance_pen(pen_y_now, glyphs[i].advance_y);
            pen_x_now = moved_x.unwrap();
            pen_y_now = moved_y.unwrap();
            i += 1;
        }
        Ok(())
    }

    /// Draws `text` in the glyphs of `font` at `font_size`, with the pen
    /// starting at `(x, y)`. The glyphs are loaded first; where that fails,
    /// or a pen position does not fit, nothing is drawn. What is drawn is
    /// the run of the glyphs that the face gave, one for each character.
    pub fn render_text(&mut self, x: u32, y: u32, text: &str, font_size: usize, font: &Face) -> (r:
        Result<(), TextError>)
        requires
            old(self).well_formed(),
        ensures
            final(self).well_formed(),
            final(self).same_size(*old(self)),
            font_size > MAX_FONT_SIZE ==> r == Err::<(), TextError>(TextError::FontSize),
            r is Err ==> forall|px: int, py: int|
                #[trigger] final(self).pixel(px, py) == old(self).pixel(px, py),
            r is Ok ==> is_text_drawing(
                *final(self),
                *old(self),
                x as int,
                y as int,
                font_size as int,
                text@,
            ),
    {
        match load_glyphs(text, font_size, font) {
            Ok(glyphs) => {
                let r = self.draw_glyphs(x, y, font_size as i32, &glyphs);
                proof {
                    if r is Ok {
                        assert(is_drawing_of(
                            *self,
                            *old(self),
                            x as int,
                            y as int,
                            font_size as int,
                            glyphs@,
                        ));
                    }
                }
                r
            },
            Err(e) => Err(e),
        }
    }

    /// The width of `text` in the glyphs of `font` at `font_size`, in whole
    /// pixels: the sum of the advances that the face gave, one for each
    /// character.
    pub fn measure_text(text: &str, font_size: usize, font: &Face) -> (r: Result<u32, TextError>)
        ensures
            font_size > MAX_FONT_SIZE ==> r == Err::<u32, TextError>(TextError::FontSize),
            r matches Ok(width) ==> is_text_width(width, text@),
            r matches Err(e) ==> e == TextError::FontSize || e is MissingGlyph || e
                == TextError::Overflow,
    {
        let advances = match load_advances(text, font_size, font) {
            Ok(advances) => advances,
            Err(e) => {
                return Err(e);
            },
        };
        let r = match total_width(&advances) {
            Some(width) => Ok(width),
            None => Err(TextError::Overflow),
        };
        proof {
            if r is Ok {
                assert(advances@.len() == text@.len() && is_width_of(r->Ok_0, advances@));
            }
        }
        r
    }
}

} // verus!
