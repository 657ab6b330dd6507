//! Where the texts of a class box go, and the drawing of the box.

use vstd::prelude::*;
use freetype::face::Face;
use crate::image::Image;
use crate::java::{Class, ClassView};
use crate::text::{
    is_drawing_of, is_text_drawing, is_text_width, text_pixel, GlyphImage, TextError,
};

verus! {

/// The font size of every text of a class box.
pub const FONT_SIZE: u32 = 40;

/// The space between a text and the edge of its cell.
pub const UML_PADDING: u32 = 20;

/// The height of a cell: a line of text with the padding above and below it.
pub const UML_ITEM_HEIGHT: u32 = 80;

/// Where the pen starts for a text.
#[derive(Clone, Copy, Debug, PartialEq, Eq, Structural)]
pub struct Placement {
    pub x: u32,
    pub y: u32,
}

/// The size of a class box, and the placement of each of its texts.
#[derive(Debug)]
pub struct ClassLayout {
    pub width: u32,
    pub height: u32,
    pub name: Placement,
    pub fields: Vec<Placement>,
    pub methods: Vec<Placement>,
}

/// The largest of the first `count` widths, and 0 for none.
pub open spec fn widest(widths: Seq<u32>, count: int) -> int
    decreases count,
{
    if count <= 0 {
        0
    } else if widths[count - 1] > widest(widths, count - 1) {
        widths[count - 1] as int
    } else {
        widest(widths, count - 1)
    }
}

/// The width of the box: the widest text, with the padding on both sides.
pub open spec fn box_width(name_width: u32, field_widths: Seq<u32>, method_widths: Seq<u32>) -> int {
    let members = if widest(field_widths, field_widths.len() as int) > widest(
        method_widths,
        method_widths.len() as int,
    ) {
        widest(field_widths, field_widths.len() as int)
    } else {
        widest(method_widths, method_widths.len() as int)
    };
    (if name_width > members {
        name_width as int
    } else {
        members
    }) + 2 * UML_PADDING
}

/// The height of the box: a cell for the name and one for each member.
pub open spec fn box_height(fields: nat, methods: nat) -> int {
    (fields + methods + 1) * UML_ITEM_HEIGHT
}

/// The name stands in the first cell, centred.
pub open spec fn name_placement(start_x: int, start_y: int, width: int, name_width: int) -> (
    int,
    int,
) {
    (start_x + width / 2 - name_width / 2, start_y + UML_PADDING)
}

/// Field `i` stands in cell `i + 1`, at the left.
pub open spec fn field_placement(start_x: int, start_y: int, i: int) -> (int, int) {
    (start_x + UML_PADDING, start_y + (i + 1) * UML_ITEM_HEIGHT + UML_PADDING)
}

/// Method `i` stands in the cell `i + 1` behind the fields, at the left.
pub open spec fn method_placement(start_x: int, start_y: int, fields: int, i: int) -> (int, int) {
    (start_x + UML_PADDING, start_y + (fields + 1 + i) * UML_ITEM_HEIGHT + UML_PADDING)
}

/// The box with its top left corner at `(start_x, start_y)` lies within the
/// coordinates that a `u32` holds.
pub open spec fn box_fits(
    name_width: u32,
    field_widths: Seq<u32>,
    method_widths: Seq<u32>,
    start_x: u32,
    start_y: u32,
) -> bool {
    &&& start_x + box_width(name_width, field_widths, method_widths) <= u32::MAX
    &&& start_y + box_height(field_widths.len(), method_widths.len()) <= u32::MAX
}

impl ClassLayout {
    /// The layout is that of a box at `(start_x, start_y)` for texts of the
    /// given widths.
    pub open spec fn is_layout_of(
        self,
        name_width: u32,
        field_widths: Seq<u32>,
        method_widths: Seq<u32>,
        start_x: u32,
        start_y: u32,
    ) -> bool {
        &&& self.width == box_width(name_width, field_widths, method_widths)
        &&& self.height == box_height(field_widths.len(), method_widths.len())
        &&& (self.name.x as int, self.name.y as int) == name_placement(
            start_x as int,
            start_y as int,
            self.width as int,
            name_width as int,
        )
        &&& self.fields@.len() == field_widths.len()
        &&& forall|i: int|
            0 <= i < self.fields@.len() ==> ((#[trigger] self.fields@[i]).x as int, self.fields@[i].y as int)
                == field_placement(start_x as int, start_y as int, i)
        &&& self.methods@.len() == method_widths.len()
        &&& forall|i: int|
            0 <= i < self.methods@.len() ==> ((#[trigger] self.methods@[i]).x as int, self.methods@[i].y as int)
                == method_placement(start_x as int, start_y as int, field_widths.len() as int, i)
    }
}

/// The largest of `widths`, and 0 for none.
pub fn widest_of(widths: &Vec<u32>) -> (w: u32)
    ensures
        w == widest(widths@, widths@.len() as int),
{
    let mut w: u32 = 0;
    let mut i: usize = 0;
    while i < widths.len()
        invariant
            i <= widths.len(),
            w == widest(widths@, i as int),
        decreases widths.len() - i,
    {
        if widths[i] > w {
            w = widths[i];
        }
        i += 1;
    }
    w
}

/// The placements of `count` texts, one cell below the other, the first in
/// cell `first_cell`.
fn place_column(start_x: u32, start_y: u32, first_cell: usize, count: usize) -> (column: Vec<
    Placement,
>)
    requires
        start_x + UML_PADDING <= u32::MAX,
        start_y + (first_cell + count) * UML_ITEM_HEIGHT <= u32::MAX,
    ensures
        column@.len() == count,
        forall|i: int|
            0 <= i < count ==> (#[trigger] column@[i]).x == start_x + UML_PADDING && column@[i].y
                == start_y + (first_cell + i) * UML_ITEM_HEIGHT + UML_PADDING,
{
    let mut column: Vec<Placement> = Vec::new();
    let mut i: usize = 0;
    while i < count
        invariant
            i <= count,
            start_x + UML_PADDING <= u32::MAX,
            start_y + (first_cell + count) * UML_ITEM_HEIGHT <= u32::MAX,
            column@.len() == i,
            forall|j: int|
                0 <= j < i ==> (#[trigger] column@[j]).x == start_x + UML_PADDING && column@[j].y
                    == start_y + (first_cell + j) * UML_ITEM_HEIGHT + UML_PADDING,
        decreases count - i,
    {
        assert((first_cell + i) * UML_ITEM_HEIGHT + UML_ITEM_HEIGHT <= (first_cell + count)
            * UML_ITEM_HEIGHT) by (nonlinear_arith)
            requires
                i < count,
        ;
        let cell = (first_cell + i) as u32;
        column.push(
            Placement { x: start_x + UML_PADDING, y: start_y + cell * UML_ITEM_HEIGHT + UML_PADDING },
        );
        i += 1;
    }
    column
}

/// Lays out the box of a class at `(start_x, start_y)` from the widths of
/// its texts. There is no layout where the box does not fit the
/// coordinates.
pub fn layout_class(
    name_width: u32,
    field_widths: &Vec<u32>,
    method_widths: &Vec<u32>,
    start_x: u32,
    start_y: u32,
) -> (r: Option<ClassLayout>)
    ensures
        r is Some <==> box_fits(name_width, field_widths@, method_widths@, start_x, start_y),
        r matches Some(layout) ==> layout.is_layout_of(
            name_width,
            field_widths@,
            method_widths@,
            start_x,
            start_y,
        ),
{
    let fields = widest_of(field_widths);
    let methods = widest_of(method_widths);
    let members = if fields > methods {
        fields
    } else {
        methods
    };
    let text = if name_width > members {
        name_width
    } else {
        members
    };
    let width = match text.checked_add(2 * UML_PADDING) {
        Some(width) => width,
        None => {
            return None;
        },
    };
    let end_x = match start_x.checked_add(width) {
        Some(end_x) => end_x,
        None => {
            return None;
        },
    };
    if field_widths.len() > u32::MAX as usize || method_widths.len() > u32::MAX as usize {
        assert((field_widths@.len() + method_widths@.len() + 1) * UML_ITEM_HEIGHT > u32::MAX)
            by (nonlinear_arith)
            requires
                field_widths@.len() + method_widths@.len() + 1 >= 53687092,
                UML_ITEM_HEIGHT == 80,
        ;
        return None;
    }
    let cells = field_widths.len() as u64 + method_widths.len() as u64 + 1;
    if cells > (u32::MAX / UML_ITEM_HEIGHT) as u64 {
        assert(cells * UML_ITEM_HEIGHT > u32::MAX) by (nonlinear_arith)
            requires
                cells >= 53687092,
                UML_ITEM_HEIGHT == 80,
        ;
        return None;
    }
    assert(cells * UML_ITEM_HEIGHT <= u32::MAX) by (nonlinear_arith)
        requires
            cells <= 53687091,
            UML_ITEM_HEIGHT == 80,
    ;
    let height = cells as u32 * UML_ITEM_HEIGHT;
    let end_y = match start_y.checked_add(height) {
        Some(end_y) => end_y,
        None => {
            return None;
        },
    };
    assert((field_widths@.len() + method_widths@.len()) * UML_ITEM_HEIGHT + UML_ITEM_HEIGHT
        == cells * UML_ITEM_HEIGHT) by (nonlinear_arith)
        requires
            cells == field_widths@.len() + method_widths@.len() + 1,
    ;
    assert((1 + field_widths@.len()) * UML_ITEM_HEIGHT <= cells * UML_ITEM_HEIGHT)
        by (nonlinear_arith)
        requires
            cells == field_widths@.len() + method_widths@.len() + 1,
    ;
    assert((field_widths@.len() + 1 + method_widths@.len()) * UML_ITEM_HEIGHT == cells
        * UML_ITEM_HEIGHT) by (nonlinear_arith)
        requires
            cells == field_widths@.len() + method_widths@.len() + 1,
    ;
    let name = Placement { x: start_x + width / 2 - name_width / 2, y: start_y + UML_PADDING };
    let field_column = place_column(start_x, start_y, 1, field_widths.len());
    let method_column = place_column(
        start_x,
        start_y,
        field_widths.len() + 1,
        method_widths.len(),
    );
    let layout = ClassLayout {
        width,
        height,
        name,
        fields: field_column,
        methods: method_column,
    };
    assert forall|i: int| 0 <= i < layout.fields@.len() implies ((#[trigger] layout.fields@[i]).x as int, layout.fields@[i].y as int)
        == field_placement(start_x as int, start_y as int, i) by {
        assert((1 + i) * UML_ITEM_HEIGHT == (i + 1) * UML_ITEM_HEIGHT) by (nonlinear_arith);
    }
    assert forall|i: int| 0 <= i < layout.methods@.len() implies ((#[trigger] layout.methods@[i]).x as int, layout.methods@[i].y as int)
        == method_placement(start_x as int, start_y as int, field_widths@.len() as int, i) by {
        assert((field_widths@.len() + 1 + i) * UML_ITEM_HEIGHT == (field_widths@.len() as int
            + 1 + i) * UML_ITEM_HEIGHT);
    }
    Some(layout)
}

/// The texts of a list of strings.
pub open spec fn texts_of(strings: Seq<String>) -> Seq<Seq<char>> {
    Seq::new(strings.len(), |i: int| strings[i]@)
}

/// The UML texts of the fields of a class, in order.
pub open spec fn field_texts(class: ClassView) -> Seq<Seq<char>> {
    Seq::new(class.fields.len(), |i: int| class.fields[i].render())
}

/// The UML texts of the methods of a class, in order.
pub open spec fn method_texts(class: ClassView) -> Seq<Seq<char>> {
    Seq::new(class.methods.len(), |i: int| class.methods[i].render())
}

/// Each width is the width of the text at its place in `texts`.
pub open spec fn are_text_widths(widths: Seq<u32>, texts: Seq<Seq<char>>) -> bool {
    &&& widths.len() == texts.len()
    &&& forall|i: int| 0 <= i < widths.len() ==> is_text_width(#[trigger] widths[i], texts[i])
}

/// Two images of one size with the same grey values.
pub open spec fn same_pixels(a: Image, b: Image) -> bool {
    &&& a.same_size(b)
    &&& forall|px: int, py: int| #[trigger] a.pixel(px, py) == b.pixel(px, py)
}

/// `after` is `before` with the first `count` of `texts` drawn one after the
/// other, each with the pen starting at its place.
pub open spec fn is_column_drawing(
    after: Image,
    before: Image,
    places: Seq<Placement>,
    texts: Seq<Seq<char>>,
    count: int,
) -> bool
    decreases count,
{
    if count <= 0 {
        same_pixels(after, before)
    } else {
        exists|mid: Image|
            {
                &&& #[trigger] mid.well_formed()
                &&& is_column_drawing(mid, before, places, texts, count - 1)
                &&& is_text_drawing(
                    after,
                    mid,
                    places[count - 1].x as int,
                    places[count - 1].y as int,
                    FONT_SIZE as int,
                    texts[count - 1],
                )
            }
    }
}

/// `after` is `before` with the box of `class` drawn at `(start_x, start_y)`:
/// the texts are measured, the box is laid out for their widths, and then
/// the name, the fields and the methods are drawn, each at its placement.
pub open spec fn is_box_drawing(
    after: Image,
    before: Image,
    class: ClassView,
    start_x: u32,
    start_y: u32,
) -> bool {
    exists|
        layout: ClassLayout,
        name_width: u32,
        field_widths: Seq<u32>,
        method_widths: Seq<u32>,
        named: Image,
        fielded: Image,
    |
        {
            &&& is_text_width(name_width, class.name)
            &&& are_text_widths(field_widths, field_texts(class))
            &&& are_text_widths(method_widths, method_texts(class))
            &&& #[trigger] layout.is_layout_of(
                name_width,
                field_widths,
                method_widths,
                start_x,
                start_y,
            )
            &&& #[trigger] named.well_formed()
            &&& #[trigger] fielded.well_formed()
            &&& is_text_drawing(
                named,
                before,
                layout.name.x as int,
                layout.name.y as int,
                FONT_SIZE as int,
                class.name,
            )
            &&& is_column_drawing(
                fielded,
                named,
                layout.fields@,
                field_texts(class),
                class.fields.len() as int,
            )
            &&& is_column_drawing(
                after,
                fielded,
                layout.methods@,
                method_texts(class),
                class.methods.len() as int,
            )
        }
}

/// `after` is `before` with the first texts drawn, but not all of them: the
/// first `count`, for some `count` below the number of texts.
pub open spec fn is_column_begun(
    after: Image,
    before: Image,
    places: Seq<Placement>,
    texts: Seq<Seq<char>>,
) -> bool {
    exists|count: int|
        0 <= count < texts.len() && #[trigger] is_column_drawing(
            after,
            before,
            places,
            texts,
            count,
        )
}

/// `named` is `before` with the name of `class` drawn where `layout` places
/// it, and `layout` is the layout of the box at `(start_x, start_y)` for some
/// widths of its texts.
pub open spec fn is_name_drawing(
    named: Image,
    before: Image,
    class: ClassView,
    start_x: u32,
    start_y: u32,
    layout: ClassLayout,
) -> bool {
    exists|name_width: u32, field_widths: Seq<u32>, method_widths: Seq<u32>|
        {
            &&& is_text_width(name_width, class.name)
            &&& are_text_widths(field_widths, field_texts(class))
            &&& are_text_widths(method_widths, method_texts(class))
            &&& #[trigger] layout.is_layout_of(
                name_width,
                field_widths,
                method_widths,
                start_x,
                start_y,
            )
            &&& is_text_drawing(
                named,
                before,
                layout.name.x as int,
                layout.name.y as int,
                FONT_SIZE as int,
                class.name,
            )
        }
}

/// `after` is `before` with the box of `class` begun at `(start_x, start_y)`
/// and given up at the first text that could not be measured, placed or
/// drawn: nothing is drawn, or the name and some of the fields, or the name,
/// the fields and some of the methods. The text that failed left no trace.
pub open spec fn is_box_begun(
    after: Image,
    before: Image,
    class: ClassView,
    start_x: u32,
    start_y: u32,
) -> bool {
    ||| same_pixels(after, before)
    ||| exists|layout: ClassLayout, named: Image|
        {
            &&& named.well_formed()
            &&& #[trigger] is_name_drawing(named, before, class, start_x, start_y, layout)
            &&& is_column_begun(after, named, layout.fields@, field_texts(class))
        }
    ||| exists|layout: ClassLayout, named: Image, fielded: Image|
        {
            &&& named.well_formed()
            &&& #[trigger] fielded.well_formed()
            &&& #[trigger] is_name_drawing(named, before, class, start_x, start_y, layout)
            &&& is_column_drawing(
                fielded,
                named,
                layout.fields@,
                field_texts(class),
                class.fields.len() as int,
            )
            &&& is_column_begun(after, fielded, layout.methods@, method_texts(class))
        }
}

/// An image with the grey values of a text drawing is that drawing.
proof fn lemma_text_drawing_by_pixels(
    again: Image,
    after: Image,
    before: Image,
    x: int,
    y: int,
    font_size: int,
    text: Seq<char>,
)
    requires
        is_text_drawing(after, before, x, y, font_size, text),
        same_pixels(again, after),
    ensures
        is_text_drawing(again, before, x, y, font_size, text),
{
    let glyphs = choose|glyphs: Seq<GlyphImage>|
        glyphs.len() == text.len() && #[trigger] is_drawing_of(
            after,
            before,
            x,
            y,
            font_size,
            glyphs,
        );
    assert forall|px: int, py: int| #[trigger]
        again.pixel(px, py) == text_pixel(
            before,
            x,
            y,
            font_size,
            glyphs,
            glyphs.len() as int,
            px,
            py,
        ) by {
        assert(again.pixel(px, py) == after.pixel(px, py));
    }
    assert(is_drawing_of(again, before, x, y, font_size, glyphs));
}

/// An image with the grey values of a column drawing is that drawing.
proof fn lemma_column_drawing_by_pixels(
    again: Image,
    after: Image,
    before: Image,
    places: Seq<Placement>,
    texts: Seq<Seq<char>>,
    count: int,
)
    requires
        is_column_drawing(after, before, places, texts, count),
        same_pixels(again, after),
    ensures
        is_column_drawing(again, before, places, texts, count),
{
    if count > 0 {
        let mid = choose|mid: Image|
            {
                &&& #[trigger] mid.well_formed()
                &&& is_column_drawing(mid, before, places, texts, count - 1)
                &&& is_text_drawing(
                    after,
                    mid,
                    places[count - 1].x as int,
                    places[count - 1].y as int,
                    FONT_SIZE as int,
                    texts[count - 1],
                )
            };
        lemma_text_drawing_by_pixels(
            again,
            after,
            mid,
            places[count - 1].x as int,
            places[count - 1].y as int,
            FONT_SIZE as int,
            texts[count - 1],
        );
        assert(mid.well_formed());
    }
}

/// The widths of `texts` in the glyphs of `font`, in order. The texts are
/// measured one after the other, and the first that cannot be measured ends
/// the measuring with its error; so no texts are always measured.
fn measure_all(texts: &Vec<String>, font: &Face) -> (r: Result<Vec<u32>, TextError>)
    ensures
        texts@.len() == 0 ==> r is Ok,
        r matches Ok(widths) ==> are_text_widths(widths@, texts_of(texts@)),
        r matches Err(e) ==> e == TextError::FontSize || e is MissingGlyph || e
            == TextError::Overflow,
{
    let mut widths: Vec<u32> = Vec::new();
    let mut i: usize = 0;
    while i < texts.len()
        invariant
            i <= texts.len(),
            widths@.len() == i,
            forall|j: int|
                0 <= j < i ==> is_text_width(#[trigger] widths@[j], texts_of(texts@)[j]),
        decreases texts.len() - i,
    {
        match Image::measure_text(texts[i].as_str(), FONT_SIZE as usize, font) {
            Ok(width) => {
                widths.push(width);
            },
            Err(e) => {
                return Err(e);
            },
        }
        i += 1;
    }
    Ok(widths)
}

/// Draws `texts` one after the other, each at its placement. The first text
/// that cannot be drawn ends the drawing with its error and leaves no trace
/// of itself: the texts before it stay drawn. So no texts are always drawn.
fn render_all(img: &mut Image, texts: &Vec<String>, places: &Vec<Placement>, font: &Face) -> (r:
    Result<(), TextError>)
    requires
        old(img).well_formed(),
        texts@.len() == places@.len(),
    ensures
        final(img).well_formed(),
        final(img).same_size(*old(img)),
        texts@.len() == 0 ==> r is Ok,
        r is Ok ==> is_column_drawing(
            *final(img),
            *old(img),
            places@,
            texts_of(texts@),
            texts@.len() as int,
        ),
        r is Err ==> is_column_begun(*final(img), *old(img), places@, texts_of(texts@)),
{
    let mut i: usize = 0;
    while i < texts.len()
        invariant
            i <= texts.len(),
            texts@.len() == places@.len(),
            img.well_formed(),
            img.same_size(*old(img)),
            is_column_drawing(*img, *old(img), places@, texts_of(texts@), i as int),
        decreases texts.len() - i,
    {
        let at = places[i];
        let ghost mid = *img;
        match img.render_text(at.x, at.y, texts[i].as_str(), FONT_SIZE as usize, font) {
            Ok(()) => {},
            Err(e) => {
                proof {
                    assert(same_pixels(*img, mid));
                    lemma_column_drawing_by_pixels(
                        *img,
                        mid,
                        *old(img),
                        places@,
                        texts_of(texts@),
                        i as int,
                    );
                    assert(texts_of(texts@).len() == texts@.len());
                }
                return Err(e);
            },
        }
        assert(texts_of(texts@)[i as int] == texts@[i as int]@);
        assert(is_text_drawing(
            *img,
            mid,
            places@[i + 1 - 1].x as int,
            places@[i + 1 - 1].y as int,
            FONT_SIZE as int,
            texts_of(texts@)[i + 1 - 1],
        ));
        assert(mid.well_formed());
        assert(is_column_drawing(mid, *old(img), places@, texts_of(texts@), i + 1 - 1));
        assert(is_column_drawing(*img, *old(img), places@, texts_of(texts@), i + 1));
        i += 1;
    }
    Ok(())
}

/// Draws the texts of the box of `class` with the top left corner of the
/// box at `(start_x, start_y)`: the name centred in the first cell, then the
/// fields, then the methods, each in a cell of its own. The texts are
/// measured with `font` and laid out as [`layout_class`] says. The first
/// text that cannot be measured, placed or drawn ends the drawing with its
/// error; what was drawn before it stays.
pub fn render_class_new(
    img: &mut Image,
    class: &Class,
    start_x: u32,
    start_y: u32,
    font: &Face,
) -> (r: Result<(), TextError>)
    requires
        old(img).well_formed(),
    ensures
        final(img).well_formed(),
        final(img).same_size(*old(img)),
        r is Ok ==> is_box_drawing(*final(img), *old(img), class@, start_x, start_y),
        r is Err ==> is_box_begun(*final(img), *old(img), class@, start_x, start_y),
{
    let mut field_strs: Vec<String> = Vec::new();
    let mut i: usize = 0;
    while i < class.fields.len()
        invariant
            i <= class.fields.len(),
            field_strs@.len() == i,
            forall|j: int| 0 <= j < i ==> (#[trigger] field_strs@[j])@ == class@.fields[j].render(),
        decreases class.fields.len() - i,
    {
        field_strs.push(class.fields[i].to_string());
        i += 1;
    }
    let mut method_strs: Vec<String> = Vec::new();
    i = 0;
    while i < class.methods.len()
        invariant
            i <= class.methods.len(),
            method_strs@.len() == i,
            forall|j: int|
                0 <= j < i ==> (#[trigger] method_strs@[j])@ == class@.methods[j].render(),
        decreases class.methods.len() - i,
    {
        method_strs.push(class.methods[i].to_string());
        i += 1;
    }
    assert(texts_of(field_strs@) =~= field_texts(class@));
    assert(texts_of(method_strs@) =~= method_texts(class@));
    assert(same_pixels(*img, *old(img)));
    let field_widths = match measure_all(&field_strs, font) {
        Ok(widths) => widths,
        Err(e) => {
            return Err(e);
        },
    };
    let method_widths = match measure_all(&method_strs, font) {
        Ok(widths) => widths,
        Err(e) => {
            return Err(e);
        },
    };
    let name_width = match Image::measure_text(class.name.as_str(), FONT_SIZE as usize, font) {
        Ok(width) => width,
        Err(e) => {
            return Err(e);
        },
    };
    let layout = match layout_class(name_width, &field_widths, &method_widths, start_x, start_y) {
        Some(layout) => layout,
        None => {
            return Err(TextError::Overflow);
        },
    };
    match img.render_text(
        layout.name.x,
        layout.name.y,
        class.name.as_str(),
        FONT_SIZE as usize,
        font,
    ) {
        Ok(()) => {},
        Err(e) => {
            assert(same_pixels(*img, *old(img)));
            return Err(e);
        },
    }
    let ghost named = *img;
    assert(is_name_drawing(named, *old(img), class@, start_x, start_y, layout)) by {
        assert(layout.is_layout_of(
            name_width,
            field_widths@,
            method_widths@,
            start_x,
            start_y,
        ));
    }
    match render_all(img, &field_strs, &layout.fields, font) {
        Ok(()) => {},
        Err(e) => {
            assert(is_column_begun(*img, named, layout.fields@, field_texts(class@)));
            return Err(e);
        },
    }
    let ghost fielded = *img;
    let r = render_all(img, &method_strs, &layout.methods, font);
    proof {
        if r is Err {
            assert(fielded.well_formed());
            assert(is_column_drawing(
                fielded,
                named,
                layout.fields@,
                field_texts(class@),
                class@.fields.len() as int,
            ));
            assert(is_column_begun(*img, fielded, layout.methods@, method_texts(class@)));
        }
        if r is Ok {
            assert(layout.is_layout_of(
                name_width,
                field_widths@,
                method_widths@,
                start_x,
                start_y,
            ));
            assert(named.well_formed() && fielded.well_formed());
            assert(is_column_drawing(
                fielded,
                named,
                layout.fields@,
                field_texts(class@),
                class@.fields.len() as int,
            ));
            assert(is_column_drawing(
                *img,
                fielded,
                layout.methods@,
                method_texts(class@),
                class@.methods.len() as int,
            ));
        }
    }
    r
}

} // verus!
