use freetype::bitmap::PixelMode;
use freetype::error::Error;
use freetype::Library;
use java_uml::image::Image;
use java_uml::java::{Capsulation, Class, Field, Method, Type};
use java_uml::layout::render_class_new;
use java_uml::text::{
    advance_pen, char_code, char_size, load_glyph, load_glyphs, rendered_glyph, size_fits,
    total_width, GlyphImage, TextError, MAX_FONT_SIZE,
};

fn glyph(left: i32, top: i32, width: i32, rows: i32, pitch: i32, buffer: Vec<u8>) -> GlyphImage {
    GlyphImage { left, top, width, rows, pitch, buffer, advance_x: 0, advance_y: 0 }
}

fn advancing(by: i64, grey: u8) -> GlyphImage {
    GlyphImage {
        left: 0,
        top: 0,
        width: 1,
        rows: 1,
        pitch: 1,
        buffer: vec![grey],
        advance_x: by,
        advance_y: 0,
    }
}

fn pixels(image: &Image, width: u32, height: u32) -> Vec<Vec<u8>> {
    (0..height).map(|y| (0..width).map(|x| image.get(x, y)).collect()).collect()
}

#[test]
fn well_formed_glyphs() {
    assert!(glyph(0, 0, 2, 2, 2, vec![0; 4]).is_well_formed());
    assert!(glyph(0, 0, 2, 2, 3, vec![0; 5]).is_well_formed());
    assert!(!glyph(0, 0, 2, 2, 3, vec![0; 4]).is_well_formed());
    assert!(!glyph(0, 0, 2, 2, 2, vec![0; 3]).is_well_formed());
    assert!(!glyph(0, 0, 2, 2, -2, vec![0; 4]).is_well_formed());
    assert!(glyph(0, 0, 2, 1, -2, vec![0; 2]).is_well_formed());
    assert!(!glyph(0, 0, 2, 2, 1, vec![0; 2]).is_well_formed());
    assert!(glyph(0, 0, 0, 5, 0, vec![]).is_well_formed());
    assert!(glyph(0, 0, 5, 0, 5, vec![]).is_well_formed());
    assert!(glyph(0, 0, -1, -1, -1, vec![]).is_well_formed());
}

#[test]
fn character_size_is_in_64ths() {
    assert_eq!(char_size(0), 0);
    assert_eq!(char_size(1), 64);
    assert_eq!(char_size(40), 2560);
    assert_eq!(char_size(MAX_FONT_SIZE), 2147483584);
}

#[test]
fn character_code_is_the_code_point() {
    assert_eq!(char_code('\0'), 0);
    assert_eq!(char_code('A'), 65);
    assert_eq!(char_code('ß'), 0xdf);
    assert_eq!(char_code('京'), 0x4eac);
    assert_eq!(char_code('\u{10ffff}'), 0x10ffff);
}

#[test]
fn bitmap_sizes_that_fit() {
    assert!(size_fits(0, 0));
    assert!(size_fits(40, 30));
    assert!(size_fits(-40, 30));
    assert!(size_fits(46340, 46340));
    assert!(size_fits(-46340, 46340));
    assert!(size_fits(i32::MAX, 1));
    assert!(size_fits(1, i32::MAX));
    assert!(size_fits(0xffff, 0x8000));
}

#[test]
fn bitmap_sizes_that_do_not_fit() {
    assert!(!size_fits(46341, 46341));
    assert!(!size_fits(-46341, 46341));
    assert!(!size_fits(0xffff, 0xffff));
    assert!(!size_fits(0xffff, 0x8001));
    assert!(!size_fits(i32::MAX, 2));
    assert!(!size_fits(i32::MIN, 0));
    assert!(!size_fits(i32::MIN, 1));
    assert!(!size_fits(1, -1));
    assert!(!size_fits(-1, -1));
    assert!(!size_fits(i32::MAX, i32::MIN));
}

#[test]
fn grey_and_well_formed_glyph_is_accepted() {
    let accepted = rendered_glyph(Ok(PixelMode::Gray), glyph(1, 2, 2, 2, 3, vec![7; 5]));
    match accepted {
        Ok(kept) => {
            assert_eq!((kept.left, kept.top, kept.width, kept.rows, kept.pitch), (1, 2, 2, 2, 3));
            assert_eq!(kept.buffer, vec![7; 5]);
        }
        Err(error) => panic!("refused with {:?}", error),
    }
}

#[test]
fn glyph_in_another_pixel_mode_is_refused() {
    for mode in [
        PixelMode::None,
        PixelMode::Mono,
        PixelMode::Gray2,
        PixelMode::Gray4,
        PixelMode::Lcd,
        PixelMode::LcdV,
        PixelMode::Bgra,
    ] {
        let refused = rendered_glyph(Ok(mode), glyph(0, 0, 2, 2, 2, vec![0; 4]));
        assert!(matches!(refused, Err(TextError::NotGray)));
    }
    let unknown = rendered_glyph(Err(Error::UnexpectedPixelMode), glyph(0, 0, 2, 2, 2, vec![0; 4]));
    assert!(matches!(unknown, Err(TextError::NotGray)));
    let both = rendered_glyph(Ok(PixelMode::Mono), glyph(0, 0, 2, 2, 2, vec![0; 3]));
    assert!(matches!(both, Err(TextError::NotGray)));
}

#[test]
fn glyph_with_a_short_buffer_is_refused() {
    let refused = rendered_glyph(Ok(PixelMode::Gray), glyph(0, 0, 2, 2, 2, vec![0; 3]));
    assert!(matches!(refused, Err(TextError::ShortBuffer)));
    let upwards = rendered_glyph(Ok(PixelMode::Gray), glyph(0, 0, 2, 2, -2, vec![0; 4]));
    assert!(matches!(upwards, Err(TextError::ShortBuffer)));
}

#[test]
fn glyph_is_drawn_inverted_at_its_bearing() {
    let mut image = Image::new(5, 4);
    let bitmap = glyph(1, 3, 2, 2, 3, vec![255, 100, 9, 0, 55, 9]);
    image.draw_glyph(1, 0, 4, &bitmap);
    assert_eq!(
        pixels(&image, 5, 4),
        vec![
            vec![255, 255, 255, 255, 255],
            vec![255, 255, 0, 155, 255],
            vec![255, 255, 255, 200, 255],
            vec![255, 255, 255, 255, 255],
        ]
    );
}

#[test]
fn glyph_is_clipped_at_the_edges() {
    let mut image = Image::new(2, 2);
    let bitmap = glyph(-1, 1, 3, 3, 3, vec![1, 2, 3, 4, 5, 6, 7, 8, 9]);
    image.draw_glyph(0, 0, 0, &bitmap);
    assert_eq!(pixels(&image, 2, 2), vec![vec![250, 249], vec![247, 246]]);
}

#[test]
fn glyph_far_outside_draws_nothing() {
    let mut image = Image::new(2, 2);
    let bitmap = glyph(i32::MAX, i32::MIN, 1, 1, 1, vec![0]);
    image.draw_glyph(i32::MAX, i32::MAX, i32::MAX, &bitmap);
    image.draw_glyph(i32::MIN, i32::MIN, i32::MIN, &glyph(i32::MIN, i32::MAX, 1, 1, 1, vec![0]));
    assert_eq!(pixels(&image, 2, 2), vec![vec![255, 255], vec![255, 255]]);
}

#[test]
fn pen_moves_by_whole_pixels() {
    assert_eq!(advance_pen(10, 64), Some(11));
    assert_eq!(advance_pen(10, 127), Some(11));
    assert_eq!(advance_pen(10, 128), Some(12));
    assert_eq!(advance_pen(10, 63), Some(10));
    assert_eq!(advance_pen(10, 0), Some(10));
    assert_eq!(advance_pen(10, -1), Some(9));
    assert_eq!(advance_pen(10, -64), Some(9));
    assert_eq!(advance_pen(10, -65), Some(8));
    assert_eq!(advance_pen(i32::MAX, 63), Some(i32::MAX));
    assert_eq!(advance_pen(i32::MAX, 64), None);
    assert_eq!(advance_pen(i32::MIN, -1), None);
    assert_eq!(advance_pen(0, i64::MAX), None);
    assert_eq!(advance_pen(0, i64::MIN), None);
}

#[test]
fn run_of_glyphs_moves_the_pen() {
    let mut image = Image::new(6, 1);
    let glyphs = vec![advancing(2 * 64, 1), advancing(64 + 63, 2), advancing(3 * 64, 3)];
    assert_eq!(image.draw_glyphs(1, 0, 0, &glyphs), Ok(()));
    assert_eq!(pixels(&image, 6, 1), vec![vec![255, 254, 255, 253, 252, 255]]);
}

#[test]
fn later_glyph_covers_an_earlier_one() {
    let mut image = Image::new(3, 1);
    let glyphs = vec![advancing(0, 10), advancing(64, 20), advancing(-64, 30), advancing(0, 40)];
    assert_eq!(image.draw_glyphs(1, 0, 0, &glyphs), Ok(()));
    assert_eq!(pixels(&image, 3, 1), vec![vec![255, 215, 225]]);
}

#[test]
fn run_of_no_glyphs_draws_nothing() {
    let mut image = Image::new(2, 1);
    assert_eq!(image.draw_glyphs(0, 0, 10, &vec![]), Ok(()));
    assert_eq!(pixels(&image, 2, 1), vec![vec![255, 255]]);
}

#[test]
fn run_with_a_pen_out_of_range_draws_nothing() {
    let mut image = Image::new(3, 1);
    let glyphs = vec![advancing(64, 1), advancing(i64::MAX, 2), advancing(0, 3)];
    assert_eq!(image.draw_glyphs(0, 0, 0, &glyphs), Err(TextError::Overflow));
    assert_eq!(pixels(&image, 3, 1), vec![vec![255, 255, 255]]);
    assert_eq!(image.draw_glyphs(u32::MAX, 0, 0, &vec![]), Err(TextError::Overflow));
    assert_eq!(image.draw_glyphs(0, i32::MAX as u32 + 1, 0, &vec![]), Err(TextError::Overflow));
    assert_eq!(image.draw_glyphs(i32::MAX as u32, i32::MAX as u32, 0, &vec![]), Ok(()));
}

#[test]
fn width_is_the_sum_of_whole_pixels() {
    assert_eq!(total_width(&vec![]), Some(0));
    assert_eq!(total_width(&vec![64]), Some(1));
    assert_eq!(total_width(&vec![640, 65, 127, 63]), Some(12));
    assert_eq!(total_width(&vec![128, -64]), Some(1));
    assert_eq!(total_width(&vec![-64, 128]), None);
    assert_eq!(total_width(&vec![u32::MAX as i64 * 64]), Some(u32::MAX));
    assert_eq!(total_width(&vec![u32::MAX as i64 * 64, 64]), None);
    assert_eq!(total_width(&vec![u32::MAX as i64 * 64, 63]), Some(u32::MAX));
}

fn face() -> Option<freetype::Face> {
    let library = Library::init().ok()?;
    for path in [
        "/usr/share/fonts/truetype/dejavu/DejaVuSans.ttf",
        "/usr/share/fonts/TTF/DejaVuSans.ttf",
        "/usr/share/fonts/dejavu/DejaVuSans.ttf",
        "font.ttf",
    ] {
        if let Ok(face) = library.new_face(path, 0) {
            return Some(face);
        }
    }
    None
}

#[test]
fn font_size_above_the_limit_is_refused() {
    let Some(font) = face() else { return };
    let mut image = Image::new(4, 4);
    assert_eq!(
        image.render_text(0, 0, "a", MAX_FONT_SIZE + 1, &font),
        Err(TextError::FontSize)
    );
    assert_eq!(Image::measure_text("a", usize::MAX, &font), Err(TextError::FontSize));
    assert!(matches!(load_glyphs("a", MAX_FONT_SIZE + 1, &font), Err(TextError::FontSize)));
}

#[test]
fn glyphs_of_a_font_are_well_formed() {
    let Some(font) = face() else { return };
    let glyphs = load_glyphs("Hello, World: +-#()[]", 40, &font).expect("the glyphs load");
    assert_eq!(glyphs.len(), 21);
    for glyph in &glyphs {
        assert!(glyph.is_well_formed());
        assert!(glyph.advance_x > 0);
        assert_eq!(glyph.advance_y, 0);
        assert!(glyph.width >= 0 && glyph.rows >= 0);
    }
    assert!(glyphs[0].width > 0 && glyphs[0].rows > 0);
    assert!(glyphs[0].buffer.iter().any(|grey| *grey == 255));
    let one = load_glyph(&font, 'W').expect("the glyph loads");
    assert!(one.width > glyphs[2].width);
}

#[test]
fn text_of_a_font_is_measured() {
    let Some(font) = face() else { return };
    assert_eq!(Image::measure_text("", 40, &font), Ok(0));
    let one = Image::measure_text("m", 40, &font).expect("measured");
    let two = Image::measure_text("mm", 40, &font).expect("measured");
    let narrow = Image::measure_text("i", 40, &font).expect("measured");
    assert!(one > 0);
    assert_eq!(two, 2 * one);
    assert!(narrow < one);
    let small = Image::measure_text("m", 20, &font).expect("measured");
    assert!(small < one);
    let glyphs = load_glyphs("Hello", 40, &font).expect("the glyphs load");
    let advances: Vec<i64> = glyphs.iter().map(|glyph| glyph.advance_x).collect();
    assert_eq!(Image::measure_text("Hello", 40, &font).ok(), total_width(&advances));
}

#[test]
fn text_of_a_font_is_drawn() {
    let Some(font) = face() else { return };
    let mut image = Image::new(200, 80);
    assert_eq!(image.render_text(10, 10, "Hi", 40, &font), Ok(()));
    let drawn = pixels(&image, 200, 80);
    let dark = drawn.iter().flatten().filter(|grey| **grey < 128).count();
    assert!(dark > 50);
    for row in &drawn {
        for x in 0..10 {
            assert_eq!(row[x], 255);
        }
    }
    let width = Image::measure_text("Hi", 40, &font).expect("measured") as usize;
    for row in &drawn {
        for x in (10 + width + 2)..200 {
            assert_eq!(row[x], 255);
        }
    }
    let mut again = Image::new(200, 80);
    let glyphs = load_glyphs("Hi", 40, &font).expect("the glyphs load");
    assert_eq!(again.draw_glyphs(10, 10, 40, &glyphs), Ok(()));
    assert_eq!(pixels(&again, 200, 80), drawn);
}

#[test]
fn class_box_is_drawn() {
    let Some(font) = face() else { return };
    let class = Class::new(
        "Foo".to_string(),
        vec![Field::new(Type("int".to_string()), "x".to_string(), Capsulation::Private)],
        vec![Method::new_constructor("Foo".to_string(), Vec::new(), Capsulation::Public)],
    );
    let mut image = Image::new(400, 320);
    assert_eq!(render_class_new(&mut image, &class, 2, 2, &font), Ok(()));
    let drawn = pixels(&image, 400, 320);
    for cell in 0..3 {
        let rows = &drawn[2 + cell * 80..2 + (cell + 1) * 80];
        assert!(rows.iter().flatten().any(|grey| *grey < 128));
    }
    assert!(drawn[262..].iter().flatten().all(|grey| *grey == 255));
    let mut outside = Image::new(10, 10);
    assert_eq!(
        render_class_new(&mut outside, &class, u32::MAX - 10, 0, &font),
        Err(TextError::Overflow)
    );
    assert!(pixels(&outside, 10, 10).iter().flatten().all(|grey| *grey == 255));
}
