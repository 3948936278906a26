use raster::color::Color;
use raster::editor;
use raster::error::{Argument, Error};
use raster::image::Image;
use raster::position::Anchor;

fn numbered(w: i32, h: i32) -> Image {
    let mut image = Image::blank(w, h);
    for y in 0..h {
        for x in 0..w {
            image.set_pixel(x, y, Color::rgba(x as u8, y as u8, (x * y) as u8, 255)).unwrap();
        }
    }
    image
}

fn assert_is_part(out: &Image, src: &Image, x0: i32, y0: i32, w: i32, h: i32) {
    assert_eq!((out.width(), out.height()), (w, h));
    assert_eq!(out.bytes().len() as i32, w * h * 4);
    for y in 0..h {
        for x in 0..w {
            assert_eq!(out.get_pixel(x, y), src.get_pixel(x0 + x, y0 + y), "at ({}, {})", x, y);
        }
    }
}

#[test]
fn crop_top_left_is_the_top_left_part() {
    let src = numbered(5, 5);
    let out = editor::crop(&src, 3, 2, "top-left", 0, 0).unwrap();
    assert_is_part(&out, &src, 0, 0, 3, 2);
    let whole = editor::crop(&src, 5, 5, "top-left", 0, 0).unwrap();
    assert_eq!(whole.bytes(), src.bytes());
}

#[test]
fn crop_at_each_anchor() {
    let src = numbered(6, 5);
    let cases = [
        ("top-left", 0, 0),
        ("top-center", 2, 0),
        ("top-right", 3, 0),
        ("center-left", 0, 1),
        ("center", 2, 1),
        ("center-right", 3, 1),
        ("bottom-left", 0, 3),
        ("bottom-center", 2, 3),
        ("bottom-right", 3, 3),
    ];
    for (name, x0, y0) in cases {
        let out = editor::crop(&src, 3, 2, name, 0, 0).unwrap();
        assert_is_part(&out, &src, x0, y0, 3, 2);
    }
}

#[test]
fn crop_is_cut_off_at_the_far_edges() {
    let src = numbered(5, 5);
    let out = editor::crop(&src, 3, 3, "top-left", 4, 3).unwrap();
    assert_is_part(&out, &src, 4, 3, 1, 2);
    let out = editor::crop(&src, 10, 10, "top-left", 1, 1).unwrap();
    assert_is_part(&out, &src, 1, 1, 4, 4);
}

#[test]
fn crop_starts_inside_the_source() {
    let src = numbered(5, 5);
    let out = editor::crop(&src, 3, 3, "top-left", -2, -1).unwrap();
    assert_is_part(&out, &src, 0, 0, 3, 3);
    // Centred, a larger rectangle starts left of the source; the start moves to the edge.
    let out = editor::crop(&src, 10, 10, "center", 0, 0).unwrap();
    assert_is_part(&out, &src, 0, 0, 5, 5);
    let out = editor::crop(&src, 7, 3, "bottom-right", 0, 0).unwrap();
    assert_is_part(&out, &src, 0, 2, 5, 3);
}

#[test]
fn crop_beyond_the_source_has_no_pixels() {
    let src = numbered(5, 5);
    let out = editor::crop(&src, 3, 3, "top-left", 7, 0).unwrap();
    assert_eq!((out.width(), out.height()), (0, 3));
    assert_eq!(out.bytes().len(), 0);
    let out = editor::crop(&src, 3, 3, "top-left", 5, 5).unwrap();
    assert_eq!((out.width(), out.height()), (0, 0));
}

#[test]
fn crop_to_a_negative_size_has_no_pixels() {
    let src = numbered(5, 5);
    let out = editor::crop(&src, -3, 2, "top-left", 0, 0).unwrap();
    assert_eq!((out.width(), out.height()), (0, 2));
    let out = editor::crop(&src, 0, 0, "center", 0, 0).unwrap();
    assert_eq!((out.width(), out.height()), (0, 0));
}

#[test]
fn crop_never_exceeds_the_request_or_the_source() {
    let src = numbered(4, 3);
    for name in ["top-left", "center", "bottom-right", "top-center", "center-left"] {
        for w in 0..7 {
            for h in 0..6 {
                for dx in -3..4 {
                    for dy in -3..4 {
                        let out = editor::crop(&src, w, h, name, dx, dy).unwrap();
                        assert!(out.width() <= w && out.width() <= 4);
                        assert!(out.height() <= h && out.height() <= 3);
                        assert!(out.is_well_formed());
                    }
                }
            }
        }
    }
}

#[test]
fn crop_with_the_largest_arguments() {
    let src = numbered(4, 3);
    let out = editor::crop(&src, i32::MAX, i32::MAX, "bottom-right", 0, 0).unwrap();
    assert_eq!((out.width(), out.height()), (4, 3));
    // 4 - MAX + MAX = 4 and 3 - MAX + MAX = 3: the rectangle starts where the source ends.
    let out = editor::crop(&src, i32::MAX, i32::MAX, "bottom-right", i32::MAX, i32::MAX).unwrap();
    assert_eq!((out.width(), out.height()), (0, 0));
    let out = editor::crop(&src, i32::MAX, i32::MAX, "top-left", i32::MAX, i32::MAX).unwrap();
    assert_eq!((out.width(), out.height()), (0, 0));
    let out = editor::crop(&src, i32::MIN, i32::MIN, "bottom-right", i32::MAX, i32::MAX).unwrap();
    assert_eq!((out.width(), out.height()), (0, 0));
    let out = editor::crop(&src, i32::MAX, i32::MAX, "center", i32::MIN, i32::MIN).unwrap();
    assert_eq!((out.width(), out.height()), (4, 3));
}

#[test]
fn crop_with_an_unknown_anchor_is_an_invalid_argument() {
    let src = numbered(5, 5);
    let r = editor::crop(&src, 3, 3, "left", 0, 0);
    assert_eq!(r.err(), Some(Error::InvalidArgument(Argument::Anchor)));
}

#[test]
fn crop_anchored_takes_the_anchor_itself() {
    let src = numbered(5, 5);
    let out = editor::crop_anchored(&src, 2, 2, Anchor::Center, 1, -1);
    // 5 / 2 - 2 / 2 = 1, moved by (1, -1).
    assert_is_part(&out, &src, 2, 0, 2, 2);
}

#[test]
fn crop_leaves_the_source_alone() {
    let src = numbered(5, 5);
    let _ = editor::crop(&src, 3, 3, "center", 0, 0).unwrap();
    assert_eq!(src.bytes(), numbered(5, 5).bytes());
}
