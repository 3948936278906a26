//! Placing one rectangle inside another by a named anchor and an offset.

use vstd::prelude::*;

use crate::error::{Argument, Error};
use crate::text::same_text;

verus! {

/// Where along one axis the inner rectangle is put.
#[derive(Clone, Copy, Debug, PartialEq, Eq, Structural)]
pub enum Placement {
    /// Flush with the left or top edge.
    Start,
    /// Centred.
    Middle,
    /// Flush with the right or bottom edge.
    End,
}

/// The nine reference points of a rectangle.
#[derive(Clone, Copy, Debug, PartialEq, Eq, Structural)]
pub enum Anchor {
    TopLeft,
    TopCenter,
    TopRight,
    CenterLeft,
    Center,
    CenterRight,
    BottomLeft,
    BottomCenter,
    BottomRight,
}

/// Half of `v`, rounded toward zero.
pub open spec fn half(v: int) -> int {
    if v >= 0 {
        v / 2
    } else {
        -((-v) / 2)
    }
}

/// The coordinate of the inner rectangle's first edge inside an outer one of
/// length `outer`, moved by `shift`.
pub open spec fn placed(placement: Placement, outer: int, inner: int, shift: int) -> int {
    match placement {
        Placement::Start => shift,
        Placement::Middle => half(outer) - half(inner) + shift,
        Placement::End => outer - inner + shift,
    }
}

/// Computes [`placed`].  The result is wide enough for every `i32` input.
pub fn place(placement: Placement, outer: i32, inner: i32, shift: i32) -> (at: i64)
    ensures
        at == placed(placement, outer as int, inner as int, shift as int),
{
    match placement {
        Placement::Start => shift as i64,
        Placement::Middle => (outer / 2) as i64 - (inner / 2) as i64 + shift as i64,
        Placement::End => outer as i64 - inner as i64 + shift as i64,
    }
}

impl Anchor {
    /// The anchor that a keyword names, if any.
    pub open spec fn named(name: Seq<char>) -> Option<Anchor> {
        if name == "top-left"@ {
            Some(Anchor::TopLeft)
        } else if name == "top-center"@ {
            Some(Anchor::TopCenter)
        } else if name == "top-right"@ {
            Some(Anchor::TopRight)
        } else if name == "center-left"@ {
            Some(Anchor::CenterLeft)
        } else if name == "center"@ {
            Some(Anchor::Center)
        } else if name == "center-right"@ {
            Some(Anchor::CenterRight)
        } else if name == "bottom-left"@ {
            Some(Anchor::BottomLeft)
        } else if name == "bottom-center"@ {
            Some(Anchor::BottomCenter)
        } else if name == "bottom-right"@ {
            Some(Anchor::BottomRight)
        } else {
            None
        }
    }

    /// Each of the nine keywords names its own anchor.
    pub proof fn lemma_keywords()
        ensures
            Anchor::named("top-left"@) == Some(Anchor::TopLeft),
            Anchor::named("top-center"@) == Some(Anchor::TopCenter),
            Anchor::named("top-right"@) == Some(Anchor::TopRight),
            Anchor::named("center-left"@) == Some(Anchor::CenterLeft),
            Anchor::named("center"@) == Some(Anchor::Center),
            Anchor::named("center-right"@) == Some(Anchor::CenterRight),
            Anchor::named("bottom-left"@) == Some(Anchor::BottomLeft),
            Anchor::named("bottom-center"@) == Some(Anchor::BottomCenter),
            Anchor::named("bottom-right"@) == Some(Anchor::BottomRight),
    {
        reveal_strlit("top-left");
        reveal_strlit("top-center");
        reveal_strlit("top-right");
        reveal_strlit("center-left");
        reveal_strlit("center");
        reveal_strlit("center-right");
        reveal_strlit("bottom-left");
        reveal_strlit("bottom-center");
        reveal_strlit("bottom-right");
        assert("top-left"@.len() == 8);
        assert("top-center"@.len() == 10);
        assert("top-right"@.len() == 9);
        assert("center-left"@.len() == 11 && "center-left"@[0] == 'c');
        assert("center"@.len() == 6);
        assert("center-right"@.len() == 12 && "center-right"@[0] == 'c');
        assert("bottom-left"@.len() == 11 && "bottom-left"@[0] == 'b');
        assert("bottom-center"@.len() == 13);
        assert("bottom-right"@.len() == 12 && "bottom-right"@[0] == 'b');
    }

    /// Reads an anchor keyword.
    pub fn from_name(name: &str) -> (anchor: Option<Anchor>)
        ensures
            anchor == Anchor::named(name@),
    {
        if same_text(name, "top-left") {
            Some(Anchor::TopLeft)
        } else if same_text(name, "top-center") {
            Some(Anchor::TopCenter)
        } else if same_text(name, "top-right") {
            Some(Anchor::TopRight)
        } else if same_text(name, "center-left") {
            Some(Anchor::CenterLeft)
        } else if same_text(name, "center") {
            Some(Anchor::Center)
        } else if same_text(name, "center-right") {
            Some(Anchor::CenterRight)
        } else if same_text(name, "bottom-left") {
            Some(Anchor::BottomLeft)
        } else if same_text(name, "bottom-center") {
            Some(Anchor::BottomCenter)
        } else if same_text(name, "bottom-right") {
            Some(Anchor::BottomRight)
        } else {
            None
        }
    }

    /// Where the anchor puts a rectangle from left to right.
    pub open spec fn horizontal(self) -> Placement {
        match self {
            Anchor::TopLeft | Anchor::CenterLeft | Anchor::BottomLeft => Placement::Start,
            Anchor::TopCenter | Anchor::Center | Anchor::BottomCenter => Placement::Middle,
            Anchor::TopRight | Anchor::CenterRight | Anchor::BottomRight => Placement::End,
        }
    }

    /// Where the anchor puts a rectangle from top to bottom.
    pub open spec fn vertical(self) -> Placement {
        match self {
            Anchor::TopLeft | Anchor::TopCenter | Anchor::TopRight => Placement::Start,
            Anchor::CenterLeft | Anchor::Center | Anchor::CenterRight => Placement::Middle,
            Anchor::BottomLeft | Anchor::BottomCenter | Anchor::BottomRight => Placement::End,
        }
    }

    /// Computes [`Anchor::horizontal`].
    pub fn column(self) -> (placement: Placement)
        ensures
            placement == self.horizontal(),
    {
        match self {
            Anchor::TopLeft | Anchor::CenterLeft | Anchor::BottomLeft => Placement::Start,
            Anchor::TopCenter | Anchor::Center | Anchor::BottomCenter => Placement::Middle,
            Anchor::TopRight | Anchor::CenterRight | Anchor::BottomRight => Placement::End,
        }
    }

    /// Computes [`Anchor::vertical`].
    pub fn row(self) -> (placement: Placement)
        ensures
            placement == self.vertical(),
    {
        match self {
            Anchor::TopLeft | Anchor::TopCenter | Anchor::TopRight => Placement::Start,
            Anchor::CenterLeft | Anchor::Center | Anchor::CenterRight => Placement::Middle,
            Anchor::BottomLeft | Anchor::BottomCenter | Anchor::BottomRight => Placement::End,
        }
    }

    /// The top-left corner of an `inner_w` by `inner_h` rectangle anchored
    /// inside an `outer_w` by `outer_h` canvas and moved by `(dx, dy)`.
    pub open spec fn top_left(
        self,
        outer_w: int,
        outer_h: int,
        inner_w: int,
        inner_h: int,
        dx: int,
        dy: int,
    ) -> (int, int) {
        (
            placed(self.horizontal(), outer_w, inner_w, dx),
            placed(self.vertical(), outer_h, inner_h, dy),
        )
    }

    /// Computes [`Anchor::top_left`].
    pub fn resolve(
        self,
        outer_w: i32,
        outer_h: i32,
        inner_w: i32,
        inner_h: i32,
        dx: i32,
        dy: i32,
    ) -> (at: (i64, i64))
        ensures
            at.0 == self.top_left(
                outer_w as int,
                outer_h as int,
                inner_w as int,
                inner_h as int,
                dx as int,
                dy as int,
            ).0,
            at.1 == self.top_left(
                outer_w as int,
                outer_h as int,
                inner_w as int,
                inner_h as int,
                dx as int,
                dy as int,
            ).1,
    {
        (place(self.column(), outer_w, inner_w, dx), place(self.row(), outer_h, inner_h, dy))
    }
}

/// An anchor keyword with an offset, not yet checked.
pub struct Position<'a> {
    pub position: &'a str,
    pub offset_x: i32,
    pub offset_y: i32,
}

impl<'a> Position<'a> {
    /// Keeps the keyword and the offset as given.
    pub fn new(position: &'a str, offset_x: i32, offset_y: i32) -> (p: Position<'a>)
        ensures
            p.position@ == position@,
            p.offset_x == offset_x,
            p.offset_y == offset_y,
    {
        Position { position, offset_x, offset_y }
    }

    /// The top-left corner of an image placed on a canvas, or
    /// `InvalidArgument` where the keyword names no anchor.
    pub fn get_x_y(&self, canvas_width: i32, canvas_height: i32, image_width: i32, image_height: i32) -> (r: Result<(i64, i64), Error>)
        ensures
            match Anchor::named(self.position@) {
                Some(anchor) => r == Ok::<(i64, i64), Error>(
                    (
                        anchor.top_left(
                            canvas_width as int,
                            canvas_height as int,
                            image_width as int,
                            image_height as int,
                            self.offset_x as int,
                            self.offset_y as int,
                        ).0 as i64,
                        anchor.top_left(
                            canvas_width as int,
                            canvas_height as int,
                            image_width as int,
                            image_height as int,
                            self.offset_x as int,
                            self.offset_y as int,
                        ).1 as i64,
                    ),
                ),
                None => r == Err::<(i64, i64), Error>(Error::InvalidArgument(Argument::Anchor)),
            },
    {
        match Anchor::from_name(self.position) {
            Some(anchor) => Ok(
                anchor.resolve(
                    canvas_width,
                    canvas_height,
                    image_width,
                    image_height,
                    self.offset_x,
                    self.offset_y,
                ),
            ),
            None => Err(Error::InvalidArgument(Argument::Anchor)),
        }
    }
}

} // verus!
