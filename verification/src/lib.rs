//! In-memory raster image transforms: blending, cropping, filling and resizing.
//!
//! Every operation reads its inputs and returns a fresh [`image::Image`]; none
//! changes an image it was given.

pub mod blend;
pub mod color;
pub mod editor;
pub mod error;
pub mod image;
pub mod position;
pub mod scale;
pub mod text;
