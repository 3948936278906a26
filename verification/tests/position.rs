use raster::error::{Argument, Error};
use raster::position::{place, Anchor, Placement, Position};
use raster::text::same_text;

#[test]
fn anchors_by_name() {
    assert_eq!(Anchor::from_name("top-left"), Some(Anchor::TopLeft));
    assert_eq!(Anchor::from_name("top-center"), Some(Anchor::TopCenter));
    assert_eq!(Anchor::from_name("top-right"), Some(Anchor::TopRight));
    assert_eq!(Anchor::from_name("center-left"), Some(Anchor::CenterLeft));
    assert_eq!(Anchor::from_name("center"), Some(Anchor::Center));
    assert_eq!(Anchor::from_name("center-right"), Some(Anchor::CenterRight));
    assert_eq!(Anchor::from_name("bottom-left"), Some(Anchor::BottomLeft));
    assert_eq!(Anchor::from_name("bottom-center"), Some(Anchor::BottomCenter));
    assert_eq!(Anchor::from_name("bottom-right"), Some(Anchor::BottomRight));
    assert_eq!(Anchor::from_name("Center"), None);
    assert_eq!(Anchor::from_name("middle"), None);
    assert_eq!(Anchor::from_name(""), None);
}

#[test]
fn anchors_resolve_on_a_canvas() {
    // A 3 by 5 image on a 10 by 20 canvas.
    let at = |a: Anchor| a.resolve(10, 20, 3, 5, 0, 0);
    assert_eq!(at(Anchor::TopLeft), (0, 0));
    assert_eq!(at(Anchor::TopCenter), (4, 0));
    assert_eq!(at(Anchor::TopRight), (7, 0));
    assert_eq!(at(Anchor::CenterLeft), (0, 8));
    assert_eq!(at(Anchor::Center), (4, 8));
    assert_eq!(at(Anchor::CenterRight), (7, 8));
    assert_eq!(at(Anchor::BottomLeft), (0, 15));
    assert_eq!(at(Anchor::BottomCenter), (4, 15));
    assert_eq!(at(Anchor::BottomRight), (7, 15));
}

#[test]
fn offsets_are_added() {
    assert_eq!(Anchor::Center.resolve(4, 4, 2, 2, 0, 0), (1, 1));
    assert_eq!(Anchor::Center.resolve(4, 4, 2, 2, 3, -5), (4, -4));
    assert_eq!(Anchor::BottomRight.resolve(4, 4, 2, 2, -1, 1), (1, 3));
    assert_eq!(Anchor::TopLeft.resolve(4, 4, 2, 2, 20, 20), (20, 20));
}

#[test]
fn halves_round_toward_zero() {
    assert_eq!(place(Placement::Middle, 5, 3, 0), 1);
    assert_eq!(place(Placement::Middle, 5, -3, 0), 3);
    assert_eq!(place(Placement::Middle, 4, 7, 0), -1);
}

#[test]
fn the_largest_inputs_do_not_wrap() {
    assert_eq!(
        place(Placement::End, i32::MAX, i32::MIN, i32::MAX),
        i32::MAX as i64 - i32::MIN as i64 + i32::MAX as i64
    );
    assert_eq!(
        place(Placement::End, i32::MIN, i32::MAX, i32::MIN),
        i32::MIN as i64 - i32::MAX as i64 + i32::MIN as i64
    );
}

#[test]
fn position_get_x_y() {
    let p = Position::new("center", 1, 2);
    assert_eq!(p.get_x_y(10, 10, 4, 4), Ok((4, 5)));
    let p = Position::new("nowhere", 0, 0);
    assert_eq!(p.get_x_y(10, 10, 4, 4), Err(Error::InvalidArgument(Argument::Anchor)));
}

#[test]
fn same_text_compares_characters() {
    assert!(same_text("normal", "normal"));
    assert!(!same_text("normal", "Normal"));
    assert!(!same_text("normal", "norma"));
    assert!(!same_text("norma", "normal"));
    assert!(same_text("", ""));
    assert!(same_text("é", "é"));
    assert!(!same_text("é", "e"));
}
