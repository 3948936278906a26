//! The errors that the transforms return.

use vstd::prelude::*;
use vstd::string::*;

verus! {

/// The argument that an operation did not accept.
#[derive(Clone, Copy, Debug, PartialEq, Eq, Structural)]
pub enum Argument {
    /// The name of a blend mode.
    BlendMode,
    /// The name of an anchor.
    Anchor,
    /// The name of a resize mode.
    ResizeMode,
    /// The name of an interpolation method.
    Interpolation,
    /// Dimensions whose pixel buffer this machine cannot address.
    Size,
}

/// Why an operation produced no image.
#[derive(Clone, Copy, Debug, PartialEq, Eq, Structural)]
pub enum Error {
    /// An argument was not one of the accepted values.
    InvalidArgument(Argument),
    /// A pixel outside an image was addressed, or an overlay lies entirely
    /// outside its canvas.
    OutOfBounds,
}

impl Error {
    /// The text of [`Error::message`].
    pub open spec fn text(self) -> Seq<char> {
        match self {
            Error::InvalidArgument(Argument::BlendMode) => "Invalid blend type"@,
            Error::InvalidArgument(Argument::Anchor) => "Invalid position"@,
            Error::InvalidArgument(Argument::ResizeMode) => "Invalid resize mode"@,
            Error::InvalidArgument(Argument::Interpolation) => "Invalid interpolation"@,
            Error::InvalidArgument(Argument::Size) => "Invalid size"@,
            Error::OutOfBounds => "Out of bounds: outside the canvas"@,
        }
    }

    /// A short description for people.
    pub fn message(&self) -> (s: String)
        ensures
            s@ == self.text(),
    {
        match self {
            Error::InvalidArgument(Argument::BlendMode) => String::from_str("Invalid blend type"),
            Error::InvalidArgument(Argument::Anchor) => String::from_str("Invalid position"),
            Error::InvalidArgument(Argument::ResizeMode) => String::from_str("Invalid resize mode"),
            Error::InvalidArgument(Argument::Interpolation) => String::from_str(
                "Invalid interpolation",
            ),
            Error::InvalidArgument(Argument::Size) => String::from_str("Invalid size"),
            Error::OutOfBounds => String::from_str("Out of bounds: outside the canvas"),
        }
    }
}

} // verus!
