use java_uml::decimal::decimal_text;
use java_uml::image::Image;

#[test]
fn new_image_is_white() {
    let image = Image::new(4, 3);
    for y in 0..3 {
        for x in 0..4 {
            assert_eq!(image.get(x, y), 255);
        }
    }
}

#[test]
fn outside_the_image_is_zero() {
    let image = Image::new(4, 3);
    assert_eq!(image.get(4, 0), 0);
    assert_eq!(image.get(0, 3), 0);
    assert_eq!(image.get(4, 3), 0);
    assert_eq!(image.get(u32::MAX, u32::MAX), 0);
    let empty = Image::new(0, 0);
    assert_eq!(empty.get(0, 0), 0);
}

#[test]
fn set_changes_one_pixel() {
    let mut image = Image::new(4, 3);
    image.set(2, 1, 7);
    for y in 0..3 {
        for x in 0..4 {
            assert_eq!(image.get(x, y), if x == 2 && y == 1 { 7 } else { 255 });
        }
    }
}

#[test]
fn set_outside_changes_nothing() {
    let mut image = Image::new(4, 3);
    image.set(4, 1, 7);
    image.set(1, 3, 7);
    image.set(u32::MAX, 0, 7);
    for y in 0..3 {
        for x in 0..4 {
            assert_eq!(image.get(x, y), 255);
        }
    }
}

#[test]
fn horizontal_line_includes_both_ends() {
    let mut image = Image::new(6, 3);
    image.render_horizontal_line(1, 2, 4, 9);
    for y in 0..3 {
        for x in 0..6 {
            assert_eq!(image.get(x, y), if y == 1 && (2..=4).contains(&x) { 9 } else { 255 });
        }
    }
}

#[test]
fn horizontal_line_is_clipped() {
    let mut image = Image::new(4, 2);
    image.render_horizontal_line(0, 2, 100, 1);
    image.render_horizontal_line(5, 0, 3, 1);
    for x in 0..4 {
        assert_eq!(image.get(x, 0), if x >= 2 { 1 } else { 255 });
        assert_eq!(image.get(x, 1), 255);
    }
}

#[test]
fn line_with_ends_in_the_wrong_order_draws_nothing() {
    let mut image = Image::new(4, 4);
    image.render_horizontal_line(1, 3, 1, 0);
    image.render_vertical_line(1, 3, 1, 0);
    for y in 0..4 {
        for x in 0..4 {
            assert_eq!(image.get(x, y), 255);
        }
    }
}

#[test]
fn line_of_one_pixel() {
    let mut image = Image::new(3, 3);
    image.render_horizontal_line(1, 1, 1, 5);
    image.render_vertical_line(2, 0, 0, 6);
    assert_eq!(image.get(1, 1), 5);
    assert_eq!(image.get(2, 0), 6);
    assert_eq!(image.get(0, 1), 255);
    assert_eq!(image.get(2, 1), 255);
}

#[test]
fn vertical_line_includes_both_ends() {
    let mut image = Image::new(3, 6);
    image.render_vertical_line(1, 2, 4, 9);
    for y in 0..6 {
        for x in 0..3 {
            assert_eq!(image.get(x, y), if x == 1 && (2..=4).contains(&y) { 9 } else { 255 });
        }
    }
}

#[test]
fn rectangle_outline() {
    let mut image = Image::new(7, 6);
    image.render_rect(1, 1, 4, 3, 0);
    for y in 0..6u32 {
        for x in 0..7u32 {
            let on_row = (y == 1 || y == 4) && (1..=5).contains(&x);
            let on_column = (x == 1 || x == 5) && (1..=4).contains(&y);
            assert_eq!(image.get(x, y), if on_row || on_column { 0 } else { 255 });
        }
    }
}

#[test]
fn rectangle_of_one_pixel() {
    let mut image = Image::new(3, 3);
    image.render_rect(1, 1, 0, 0, 4);
    for y in 0..3 {
        for x in 0..3 {
            assert_eq!(image.get(x, y), if x == 1 && y == 1 { 4 } else { 255 });
        }
    }
}

#[test]
fn decimal_notation() {
    assert_eq!(decimal_text(0), "0");
    assert_eq!(decimal_text(7), "7");
    assert_eq!(decimal_text(10), "10");
    assert_eq!(decimal_text(255), "255");
    assert_eq!(decimal_text(1280), "1280");
    assert_eq!(decimal_text(9876543210), "9876543210");
    assert_eq!(decimal_text(usize::MAX), usize::MAX.to_string());
}

#[test]
fn plain_text_of_an_image() {
    let mut image = Image::new(3, 2);
    image.set(1, 0, 0);
    image.set(2, 1, 17);
    assert_eq!(image.to_ppm(), "P2\n3 2\n255\n255 0 255 \n255 255 17 \n");
}

#[test]
fn plain_text_of_an_empty_image() {
    assert_eq!(Image::new(0, 0).to_ppm(), "P2\n0 0\n255\n");
    assert_eq!(Image::new(2, 0).to_ppm(), "P2\n2 0\n255\n");
    assert_eq!(Image::new(0, 2).to_ppm(), "P2\n0 2\n255\n\n\n");
}
