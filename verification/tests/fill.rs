use raster::color::Color;
use raster::editor;
use raster::image::Image;

#[test]
fn fill_sets_every_pixel() {
    let image = Image::blank(3, 2);
    let red = Color::rgb(255, 0, 0);
    let filled = editor::fill(&image, red).unwrap();
    assert_eq!(filled.width(), 3);
    assert_eq!(filled.height(), 2);
    assert_eq!(filled.bytes().len(), 3 * 2 * 4);
    for y in 0..2 {
        for x in 0..3 {
            assert_eq!(filled.get_pixel(x, y).unwrap(), red);
        }
    }
}

#[test]
fn blank_then_fill_has_four_bytes_per_pixel() {
    for w in 0..6 {
        for h in 0..6 {
            let filled = editor::fill(&Image::blank(w, h), Color::rgba(1, 2, 3, 4)).unwrap();
            assert_eq!(filled.bytes().len() as i32, w * h * 4);
            assert_eq!((filled.width(), filled.height()), (w, h));
        }
    }
}

#[test]
fn fill_does_not_depend_on_what_was_there() {
    let mut busy = Image::blank(4, 4);
    for y in 0..4 {
        for x in 0..4 {
            busy.set_pixel(x, y, Color::rgba(x as u8, y as u8, 77, 200)).unwrap();
        }
    }
    let part = editor::crop(&busy, 3, 2, "center", 0, 0).unwrap();
    let color = Color::rgba(9, 8, 7, 6);
    let filled = editor::fill(&part, color).unwrap();
    assert_eq!(filled.bytes(), editor::fill(&Image::blank(3, 2), color).unwrap().bytes());
    assert_eq!(filled.bytes(), &[9, 8, 7, 6].repeat(6));
}

#[test]
fn fill_leaves_the_source_alone() {
    let src = Image::blank(2, 2);
    let _ = editor::fill(&src, Color::rgb(1, 1, 1)).unwrap();
    assert!(src.bytes().iter().all(|b| *b == 0));
}

#[test]
fn fill_of_an_image_without_pixels() {
    let filled = editor::fill(&Image::blank(0, 3), Color::rgb(1, 1, 1)).unwrap();
    assert_eq!((filled.width(), filled.height()), (0, 3));
    assert_eq!(filled.bytes().len(), 0);
}
