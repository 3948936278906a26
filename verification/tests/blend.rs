use raster::blend::{blend_pixel, clamp_opacity, composite, mix, overlap, BlendMode, OPAQUE};
use raster::color::Color;
use raster::editor;
use raster::error::{Argument, Error};
use raster::image::Image;

const RED: Color = Color { r: 255, g: 0, b: 0, a: 255 };
const BLUE: Color = Color { r: 0, g: 0, b: 255, a: 255 };

fn solid(w: i32, h: i32, color: Color) -> Image {
    editor::fill(&Image::blank(w, h), color).unwrap()
}

fn gradient(w: i32, h: i32) -> Image {
    let mut image = Image::blank(w, h);
    for y in 0..h {
        for x in 0..w {
            let c = Color::rgba((10 * x) as u8, (10 * y) as u8, (x + y) as u8, (100 + x) as u8);
            image.set_pixel(x, y, c).unwrap();
        }
    }
    image
}

#[test]
fn blue_square_on_the_centre_of_a_red_canvas() {
    let base = solid(4, 4, RED);
    let overlay = solid(2, 2, BLUE);
    let out = editor::blend(&base, &overlay, "normal", OPAQUE, "center", 0, 0).unwrap();
    assert_eq!((out.width(), out.height()), (4, 4));
    for y in 0..4 {
        for x in 0..4 {
            let inside = (1..3).contains(&x) && (1..3).contains(&y);
            let expected = if inside { BLUE } else { RED };
            assert_eq!(out.get_pixel(x, y), Ok(expected), "at ({}, {})", x, y);
        }
    }
}

#[test]
fn blend_leaves_its_inputs_alone() {
    let base = solid(4, 4, RED);
    let overlay = solid(2, 2, BLUE);
    let _ = editor::blend(&base, &overlay, "normal", OPAQUE, "center", 0, 0).unwrap();
    assert_eq!(base.bytes(), solid(4, 4, RED).bytes());
    assert_eq!(overlay.bytes(), solid(2, 2, BLUE).bytes());
}

#[test]
fn transparent_blend_is_a_copy_of_the_canvas() {
    let base = gradient(5, 4);
    let overlay = solid(3, 3, BLUE);
    for mode in ["normal", "difference", "multiply", "overlay", "screen"] {
        let out = editor::blend(&base, &overlay, mode, 0, "center", 0, 0).unwrap();
        assert_eq!(out.bytes(), editor::copy(&base).bytes(), "mode {}", mode);
    }
}

#[test]
fn opaque_normal_blend_takes_the_overlay_colours_and_keeps_the_canvas_alpha() {
    let base = gradient(5, 4);
    let mut overlay = Image::blank(2, 2);
    overlay.set_pixel(0, 0, Color::rgba(1, 2, 3, 0)).unwrap();
    overlay.set_pixel(1, 0, Color::rgba(4, 5, 6, 50)).unwrap();
    overlay.set_pixel(0, 1, Color::rgba(7, 8, 9, 100)).unwrap();
    overlay.set_pixel(1, 1, Color::rgba(10, 11, 12, 255)).unwrap();
    let out = editor::blend(&base, &overlay, "normal", OPAQUE, "top-left", 2, 1).unwrap();
    for y in 0..4 {
        for x in 0..5 {
            let below = base.get_pixel(x, y).unwrap();
            let expected = match overlay.get_pixel(x - 2, y - 1) {
                Ok(above) => Color::rgba(above.r, above.g, above.b, below.a),
                Err(_) => below,
            };
            assert_eq!(out.get_pixel(x, y), Ok(expected), "at ({}, {})", x, y);
        }
    }
}

#[test]
fn overlay_outside_the_canvas_is_out_of_bounds() {
    let base = Image::blank(10, 10);
    let overlay = Image::blank(5, 5);
    let r = editor::blend(&base, &overlay, "normal", OPAQUE, "top-left", 20, 20);
    assert_eq!(r.err(), Some(Error::OutOfBounds));
    assert!(Error::OutOfBounds.message().contains("outside the canvas"));
    for (dx, dy) in [(10, 0), (0, 10), (-5, 0), (0, -5)] {
        let r = editor::blend(&base, &overlay, "normal", OPAQUE, "top-left", dx, dy);
        assert_eq!(r.err(), Some(Error::OutOfBounds), "offset ({}, {})", dx, dy);
    }
    for (dx, dy) in [(9, 9), (-4, -4), (9, -4)] {
        let r = editor::blend(&base, &overlay, "normal", OPAQUE, "top-left", dx, dy);
        assert!(r.is_ok(), "offset ({}, {})", dx, dy);
    }
}

#[test]
fn an_image_without_pixels_overlaps_nothing() {
    let base = Image::blank(4, 4);
    let nothing = Image::blank(0, 3);
    let r = editor::blend(&base, &nothing, "normal", OPAQUE, "center", 0, 0);
    assert_eq!(r.err(), Some(Error::OutOfBounds));
    let r = editor::blend(&nothing, &base, "normal", OPAQUE, "center", 0, 0);
    assert_eq!(r.err(), Some(Error::OutOfBounds));
    assert!(!overlap(&nothing, &base, 0, 0));
    assert!(overlap(&base, &base, 3, -3));
}

#[test]
fn overlay_is_clipped_at_the_canvas_edges() {
    let base = solid(3, 3, RED);
    let overlay = gradient(3, 3);
    let out = editor::blend(&base, &overlay, "normal", OPAQUE, "top-left", -1, 2).unwrap();
    for y in 0..3 {
        for x in 0..3 {
            let expected = match overlay.get_pixel(x + 1, y - 2) {
                Ok(above) => Color::rgba(above.r, above.g, above.b, 255),
                Err(_) => RED,
            };
            assert_eq!(out.get_pixel(x, y), Ok(expected), "at ({}, {})", x, y);
        }
    }
}

#[test]
fn blend_mode_is_read_in_any_letter_case() {
    let base = solid(2, 2, RED);
    let overlay = solid(2, 2, BLUE);
    let lower = editor::blend(&base, &overlay, "multiply", OPAQUE, "center", 0, 0).unwrap();
    let upper = editor::blend(&base, &overlay, "MULTIPLY", OPAQUE, "center", 0, 0).unwrap();
    let mixed = editor::blend(&base, &overlay, "MultiPly", OPAQUE, "center", 0, 0).unwrap();
    assert_eq!(lower.bytes(), upper.bytes());
    assert_eq!(lower.bytes(), mixed.bytes());
    assert_eq!(lower.get_pixel(0, 0), Ok(Color::rgba(0, 0, 0, 255)));
}

#[test]
fn blend_named_reads_the_mode_as_written() {
    let base = solid(2, 2, RED);
    let overlay = solid(2, 2, BLUE);
    assert!(editor::blend_named(&base, &overlay, "screen", OPAQUE, "center", 0, 0).is_ok());
    let r = editor::blend_named(&base, &overlay, "SCREEN", OPAQUE, "center", 0, 0);
    assert_eq!(r.err(), Some(Error::InvalidArgument(Argument::BlendMode)));
}

#[test]
fn unknown_blend_mode_is_an_invalid_argument() {
    let base = solid(2, 2, RED);
    let overlay = solid(2, 2, BLUE);
    let r = editor::blend(&base, &overlay, "dissolve", OPAQUE, "center", 0, 0);
    assert_eq!(r.err(), Some(Error::InvalidArgument(Argument::BlendMode)));
    assert_eq!(Error::InvalidArgument(Argument::BlendMode).message(), "Invalid blend type");
}

#[test]
fn unknown_anchor_is_an_invalid_argument() {
    let base = solid(2, 2, RED);
    let overlay = solid(2, 2, BLUE);
    let r = editor::blend(&base, &overlay, "normal", OPAQUE, "middle", 0, 0);
    assert_eq!(r.err(), Some(Error::InvalidArgument(Argument::Anchor)));
}

#[test]
fn errors_come_in_order_anchor_then_place_then_mode() {
    let base = solid(2, 2, RED);
    let overlay = solid(2, 2, BLUE);
    let r = editor::blend(&base, &overlay, "dissolve", OPAQUE, "middle", 50, 50);
    assert_eq!(r.err(), Some(Error::InvalidArgument(Argument::Anchor)));
    let r = editor::blend(&base, &overlay, "dissolve", OPAQUE, "center", 50, 50);
    assert_eq!(r.err(), Some(Error::OutOfBounds));
}

#[test]
fn opacity_is_clamped() {
    assert_eq!(clamp_opacity(-1), 0);
    assert_eq!(clamp_opacity(0), 0);
    assert_eq!(clamp_opacity(123), 123);
    assert_eq!(clamp_opacity(OPAQUE), OPAQUE);
    assert_eq!(clamp_opacity(OPAQUE + 1), OPAQUE);
    assert_eq!(clamp_opacity(i32::MAX), OPAQUE);
    assert_eq!(clamp_opacity(i32::MIN), 0);
    let base = solid(2, 2, RED);
    let overlay = solid(2, 2, BLUE);
    let over = editor::blend(&base, &overlay, "normal", 5 * OPAQUE, "center", 0, 0).unwrap();
    let full = editor::blend(&base, &overlay, "normal", OPAQUE, "center", 0, 0).unwrap();
    assert_eq!(over.bytes(), full.bytes());
    let under = editor::blend(&base, &overlay, "normal", -7, "center", 0, 0).unwrap();
    assert_eq!(under.bytes(), base.bytes());
}

#[test]
fn blend_functions_at_full_opacity() {
    let at = |mode: BlendMode, b: u8, o: u8| mix(b, mode.blend_sample(b, o), OPAQUE);
    assert_eq!(at(BlendMode::Normal, 200, 100), 100);
    assert_eq!(at(BlendMode::Difference, 200, 100), 100);
    assert_eq!(at(BlendMode::Difference, 100, 200), 100);
    assert_eq!(at(BlendMode::Multiply, 200, 100), 78); // 20000 / 255 = 78.43
    assert_eq!(at(BlendMode::Screen, 200, 100), 221); // 255 - 8525 / 255 = 221.57
    assert_eq!(at(BlendMode::Overlay, 100, 200), 156); // 40000 / 255 = 156.86
    assert_eq!(at(BlendMode::Overlay, 200, 100), 188); // 255 - 17050 / 255 = 188.14
    assert_eq!(at(BlendMode::Overlay, 127, 255), 254);
    assert_eq!(at(BlendMode::Overlay, 128, 0), 1); // 255 - 2 * 127 * 255 / 255
    assert_eq!(at(BlendMode::Multiply, 255, 255), 255);
    assert_eq!(at(BlendMode::Multiply, 0, 255), 0);
    assert_eq!(at(BlendMode::Screen, 0, 0), 0);
    assert_eq!(at(BlendMode::Screen, 255, 0), 255);
    assert_eq!(at(BlendMode::Screen, 0, 255), 255);
}

#[test]
fn blend_samples_are_scaled_by_255() {
    assert_eq!(BlendMode::Normal.blend_sample(7, 9), 255 * 9);
    assert_eq!(BlendMode::Difference.blend_sample(7, 9), 255 * 2);
    assert_eq!(BlendMode::Multiply.blend_sample(7, 9), 63);
    assert_eq!(BlendMode::Screen.blend_sample(7, 9), 65_025 - 248 * 246);
    assert_eq!(BlendMode::Overlay.blend_sample(7, 9), 126);
    assert_eq!(BlendMode::Overlay.blend_sample(250, 9), 65_025 - 2 * 5 * 246);
}

#[test]
fn opacity_mixes_the_canvas_and_the_blend() {
    // Half of 255 and 0 is 127.5, rounded down.
    assert_eq!(mix(255, 0, 500_000), 127);
    // A quarter of the way from 0 to 255 is 63.75.
    assert_eq!(mix(0, 65_025, 250_000), 63);
    // Half of 200 and 78.43 is 139.2.
    assert_eq!(mix(200, 20_000, 500_000), 139);
    assert_eq!(mix(200, 20_000, 0), 200);
    assert_eq!(mix(200, 20_000, OPAQUE), 78);
    assert_eq!(mix(255, 65_025, 999_999), 255);
    assert_eq!(mix(0, 0, 1), 0);
}

#[test]
fn blend_pixel_keeps_the_alpha_of_the_canvas() {
    let below = Color::rgba(200, 100, 0, 17);
    let above = Color::rgba(100, 100, 255, 200);
    let c = blend_pixel(BlendMode::Multiply, 500_000, below, above);
    // red 139.2; green (100 + 39.2) / 2 = 69.6; blue 0.
    assert_eq!(c, Color::rgba(139, 69, 0, 17));
}

#[test]
fn blend_modes_by_name() {
    assert_eq!(BlendMode::from_name("normal"), Some(BlendMode::Normal));
    assert_eq!(BlendMode::from_name("difference"), Some(BlendMode::Difference));
    assert_eq!(BlendMode::from_name("multiply"), Some(BlendMode::Multiply));
    assert_eq!(BlendMode::from_name("overlay"), Some(BlendMode::Overlay));
    assert_eq!(BlendMode::from_name("screen"), Some(BlendMode::Screen));
    assert_eq!(BlendMode::from_name("Normal"), None);
    assert_eq!(BlendMode::from_name(""), None);
}

#[test]
fn composite_at_an_offset() {
    let base = solid(3, 1, Color::rgba(200, 200, 200, 9));
    let overlay = solid(1, 1, Color::rgba(100, 50, 0, 255));
    let out = composite(&base, &overlay, BlendMode::Difference, OPAQUE / 2, 2, 0).unwrap();
    assert_eq!(out.get_pixel(0, 0), Ok(Color::rgba(200, 200, 200, 9)));
    assert_eq!(out.get_pixel(1, 0), Ok(Color::rgba(200, 200, 200, 9)));
    // difference: 100, 150, 200; half way from 200: 150, 175, 200.
    assert_eq!(out.get_pixel(2, 0), Ok(Color::rgba(150, 175, 200, 9)));
    assert_eq!(
        composite(&base, &overlay, BlendMode::Difference, OPAQUE, 3, 0).err(),
        Some(Error::OutOfBounds)
    );
}

#[test]
fn copy_is_the_same_image() {
    let image = gradient(4, 3);
    let copy = editor::copy(&image);
    assert_eq!((copy.width(), copy.height()), (4, 3));
    assert_eq!(copy.bytes(), image.bytes());
}
