//! The pixel buffer: width, height and row-major RGBA bytes.

use vstd::prelude::*;

use crate::color::Color;
use crate::error::{Argument, Error};

verus! {

/// What an [`Image`] is, mathematically: its dimensions and its bytes, four
/// per pixel (red, green, blue, alpha), row after row.
pub struct ImageView {
    pub width: int,
    pub height: int,
    pub bytes: Seq<u8>,
}

/// The number of bytes of a `w` by `h` buffer; a negative dimension counts as zero.
pub open spec fn byte_count(w: int, h: int) -> int {
    if w <= 0 || h <= 0 {
        0
    } else {
        w * h * 4
    }
}

impl ImageView {
    /// The dimensions are those of an `i32` image and the bytes match them.
    pub open spec fn wf(self) -> bool {
        &&& 0 <= self.width <= i32::MAX
        &&& 0 <= self.height <= i32::MAX
        &&& self.bytes.len() == self.width * self.height * 4
    }

    /// `(x, y)` is a pixel of the image.
    pub open spec fn contains(self, x: int, y: int) -> bool {
        0 <= x < self.width && 0 <= y < self.height
    }

    /// The image has no pixel.
    pub open spec fn is_empty(self) -> bool {
        self.width <= 0 || self.height <= 0
    }

    /// Where the four bytes of pixel `(x, y)` start.
    pub open spec fn offset(self, x: int, y: int) -> int {
        (y * self.width + x) * 4
    }

    /// The colour at `(x, y)`.
    pub open spec fn pixel(self, x: int, y: int) -> Color
        recommends
            self.wf(),
            self.contains(x, y),
    {
        let at = self.offset(x, y);
        Color {
            r: self.bytes[at],
            g: self.bytes[at + 1],
            b: self.bytes[at + 2],
            a: self.bytes[at + 3],
        }
    }

    /// The image with the colour at `(x, y)` replaced.
    pub open spec fn with_pixel(self, x: int, y: int, color: Color) -> ImageView
        recommends
            self.wf(),
            self.contains(x, y),
    {
        let at = self.offset(x, y);
        ImageView {
            width: self.width,
            height: self.height,
            bytes: self.bytes.update(at, color.r).update(at + 1, color.g).update(
                at + 2,
                color.b,
            ).update(at + 3, color.a),
        }
    }

    /// The zero-filled image of `w` by `h` pixels; a negative dimension counts as zero.
    pub open spec fn blank(w: int, h: int) -> ImageView {
        ImageView {
            width: if w < 0 { 0 } else { w },
            height: if h < 0 { 0 } else { h },
            bytes: Seq::new(byte_count(w, h) as nat, |i: int| 0u8),
        }
    }

    /// Every pixel has the colour `color`.
    pub open spec fn is_uniform(self, color: Color) -> bool {
        forall|x: int, y: int| self.contains(x, y) ==> #[trigger] self.pixel(x, y) == color
    }

    /// Both images have the same dimensions and the same colour at every pixel.
    pub open spec fn same_pixels(self, other: ImageView) -> bool {
        &&& self.width == other.width
        &&& self.height == other.height
        &&& forall|x: int, y: int|
            self.contains(x, y) ==> #[trigger] self.pixel(x, y) == other.pixel(x, y)
    }
}

/// The four bytes of a pixel lie inside the buffer.
pub proof fn lemma_offset_bounds(v: ImageView, x: int, y: int)
    requires
        v.wf(),
        v.contains(x, y),
    ensures
        0 <= y * v.width + x < v.width * v.height,
        0 <= v.offset(x, y),
        v.offset(x, y) + 4 <= v.bytes.len(),
{
    let w = v.width;
    let h = v.height;
    assert(0 <= y * w && y * w + w <= h * w && h * w == w * h) by (nonlinear_arith)
        requires
            0 <= y < h,
            0 <= w,
    ;
}

/// Two different pixels start at different places, four bytes or more apart.
pub proof fn lemma_offset_distinct(v: ImageView, x1: int, y1: int, x2: int, y2: int)
    requires
        v.contains(x1, y1),
        v.contains(x2, y2),
        x1 != x2 || y1 != y2,
    ensures
        v.offset(x1, y1) + 4 <= v.offset(x2, y2) || v.offset(x2, y2) + 4 <= v.offset(x1, y1),
{
    let w = v.width;
    if y1 < y2 {
        assert(y1 * w + w <= y2 * w) by (nonlinear_arith)
            requires
                y1 < y2,
                0 <= w,
        ;
    } else if y2 < y1 {
        assert(y2 * w + w <= y1 * w) by (nonlinear_arith)
            requires
                y2 < y1,
                0 <= w,
        ;
    }
}

/// A buffer no wider and no higher than another has no more bytes.
pub proof fn lemma_byte_count_monotonic(w1: int, h1: int, w2: int, h2: int)
    requires
        w1 <= w2,
        h1 <= h2,
    ensures
        byte_count(w1, h1) <= byte_count(w2, h2),
{
    if w1 > 0 && h1 > 0 {
        assert(w1 * h1 * 4 <= w2 * h2 * 4) by (nonlinear_arith)
            requires
                0 < w1 <= w2,
                0 < h1 <= h2,
        ;
    } else if w2 > 0 && h2 > 0 {
        assert(0 <= w2 * h2 * 4) by (nonlinear_arith)
            requires
                0 < w2,
                0 < h2,
        ;
    }
}

/// Replacing one pixel changes that pixel and no other.
pub proof fn lemma_with_pixel(v: ImageView, x: int, y: int, color: Color)
    requires
        v.wf(),
        v.contains(x, y),
    ensures
        v.with_pixel(x, y, color).wf(),
        v.with_pixel(x, y, color).pixel(x, y) == color,
        forall|x2: int, y2: int|
            v.contains(x2, y2) && (x2 != x || y2 != y) ==> #[trigger] v.with_pixel(
                x,
                y,
                color,
            ).pixel(x2, y2) == v.pixel(x2, y2),
{
    lemma_offset_bounds(v, x, y);
    let after = v.with_pixel(x, y, color);
    assert forall|x2: int, y2: int| v.contains(x2, y2) && (x2 != x || y2 != y) implies (
    #[trigger] after.pixel(x2, y2)) == v.pixel(x2, y2) by {
        lemma_offset_bounds(v, x2, y2);
        lemma_offset_distinct(v, x, y, x2, y2);
    }
}

/// Two well-formed images with the same dimensions and the same pixels are the same image.
pub proof fn lemma_same_pixels_same_image(a: ImageView, b: ImageView)
    requires
        a.wf(),
        b.wf(),
        a.same_pixels(b),
    ensures
        a == b,
{
    let w = a.width;
    assert forall|i: int| 0 <= i < a.bytes.len() implies a.bytes[i] == b.bytes[i] by {
        let p = i / 4;
        let c = i % 4;
        let x = if w > 0 { p % w } else { 0 };
        let y = if w > 0 { p / w } else { 0 };
        assert(w > 0 && 0 <= x < w && 0 <= y < a.height && y * w + x == p) by (nonlinear_arith)
            requires
                0 <= p,
                p * 4 < w * a.height * 4,
                0 <= w,
                0 <= a.height,
                x == (if w > 0 { p % w } else { 0 }),
                y == (if w > 0 { p / w } else { 0 }),
        ;
        assert(a.contains(x, y));
        assert(a.pixel(x, y) == b.pixel(x, y));
        assert(a.offset(x, y) == i - c);
    }
    assert(a.bytes =~= b.bytes);
}

/// An RGBA image held in memory.
pub struct Image {
    width: i32,
    height: i32,
    bytes: Vec<u8>,
}

impl View for Image {
    type V = ImageView;

    closed spec fn view(&self) -> ImageView {
        ImageView { width: self.width as int, height: self.height as int, bytes: self.bytes@ }
    }
}

impl Image {
    /// A buffer of `w` by `h` pixels can be addressed on this machine.
    pub open spec fn fits(w: int, h: int) -> bool {
        byte_count(w, h) <= usize::MAX
    }

    /// The buffer of an image that exists can be addressed.
    pub proof fn lemma_fits(&self)
        requires
            self@.wf(),
        ensures
            Image::fits(self@.width, self@.height),
    {
        assert(self.bytes.len() <= usize::MAX);
        if self@.width <= 0 || self@.height <= 0 {
        } else {
            assert(byte_count(self@.width, self@.height) == self@.bytes.len());
        }
    }

    /// The number of bytes of a `w` by `h` buffer, or `None` where this
    /// machine cannot address that many.
    pub fn buffer_len(w: i32, h: i32) -> (n: Option<usize>)
        ensures
            Image::fits(w as int, h as int) ==> n == Some(byte_count(w as int, h as int) as usize),
            !Image::fits(w as int, h as int) ==> n.is_none(),
    {
        if w <= 0 || h <= 0 {
            return Some(0);
        }
        assert(0 < w * h * 4 <= 0x3fff_ffff_0000_0001 * 4) by (nonlinear_arith)
            requires
                0 < w <= 0x7fff_ffff,
                0 < h <= 0x7fff_ffff,
        ;
        let n: u64 = (w as u64) * (h as u64) * 4;
        if n > usize::MAX as u64 {
            None
        } else {
            Some(n as usize)
        }
    }

    /// A zero-filled image.  A negative dimension counts as zero.
    pub fn blank(w: i32, h: i32) -> (img: Image)
        requires
            Image::fits(w as int, h as int),
        ensures
            img@.wf(),
            img@ == ImageView::blank(w as int, h as int),
    {
        let n = Image::buffer_len(w, h);
        let len: usize = match n {
            Some(len) => len,
            None => 0,
        };
        let bytes: Vec<u8> = vec![0u8; len];
        let img = Image {
            width: if w < 0 { 0 } else { w },
            height: if h < 0 { 0 } else { h },
            bytes,
        };
        proof {
            assert(img@.bytes =~= ImageView::blank(w as int, h as int).bytes);
            if w <= 0 || h <= 0 {
                assert(img@.width * img@.height * 4 == 0) by (nonlinear_arith)
                    requires
                        img@.width == 0 || img@.height == 0,
                ;
            }
        }
        img
    }

    /// A zero-filled image, or `InvalidArgument` where this machine cannot
    /// address a buffer of that size.
    pub fn try_blank(w: i32, h: i32) -> (r: Result<Image, Error>)
        ensures
            Image::fits(w as int, h as int) ==> r.is_ok() && r.unwrap()@.wf() && r.unwrap()@
                == ImageView::blank(w as int, h as int),
            !Image::fits(w as int, h as int) ==> r == Err::<Image, Error>(
                Error::InvalidArgument(Argument::Size),
            ),
    {
        match Image::buffer_len(w, h) {
            Some(_) => Ok(Image::blank(w, h)),
            None => Err(Error::InvalidArgument(Argument::Size)),
        }
    }

    /// An image over bytes that are already there, or `InvalidArgument`
    /// where a dimension is negative or the bytes are not four per pixel.
    pub fn from_bytes(width: i32, height: i32, bytes: Vec<u8>) -> (r: Result<Image, Error>)
        ensures
            match r {
                Ok(img) => img@.wf() && img@ == (ImageView {
                    width: width as int,
                    height: height as int,
                    bytes: bytes@,
                }),
                Err(e) => e == Error::InvalidArgument(Argument::Size) && !(ImageView {
                    width: width as int,
                    height: height as int,
                    bytes: bytes@,
                }).wf(),
            },
    {
        if width < 0 || height < 0 {
            return Err(Error::InvalidArgument(Argument::Size));
        }
        proof {
            if width == 0 || height == 0 {
                assert(width * height * 4 == 0) by (nonlinear_arith)
                    requires
                        width == 0 || height == 0,
                ;
            }
        }
        let have: usize = bytes.len();
        match Image::buffer_len(width, height) {
            Some(n) => {
                if have == n {
                    Ok(Image { width, height, bytes })
                } else {
                    Err(Error::InvalidArgument(Argument::Size))
                }
            },
            None => Err(Error::InvalidArgument(Argument::Size)),
        }
    }

    /// Whether the dimensions are not negative and the bytes are four per pixel.
    pub fn is_well_formed(&self) -> (ok: bool)
        ensures
            ok == self@.wf(),
    {
        if self.width < 0 || self.height < 0 {
            return false;
        }
        proof {
            if self.width == 0 || self.height == 0 {
                assert(self.width * self.height * 4 == 0) by (nonlinear_arith)
                    requires
                        self.width == 0 || self.height == 0,
                ;
            }
        }
        let have: usize = self.bytes.len();
        match Image::buffer_len(self.width, self.height) {
            Some(n) => have == n,
            None => false,
        }
    }

    /// The width in pixels.
    pub fn width(&self) -> (w: i32)
        ensures
            w == self@.width,
    {
        self.width
    }

    /// The height in pixels.
    pub fn height(&self) -> (h: i32)
        ensures
            h == self@.height,
    {
        self.height
    }

    /// The bytes, four per pixel, row after row.
    pub fn bytes(&self) -> (b: &Vec<u8>)
        ensures
            b@ == self@.bytes,
    {
        &self.bytes
    }

    /// A copy of the image.
    pub fn duplicate(&self) -> (img: Image)
        ensures
            img@ == self@,
    {
        let bytes = self.bytes.clone();
        assert(bytes@ =~= self.bytes@);
        Image { width: self.width, height: self.height, bytes }
    }

    /// Where in the buffer the four bytes of a pixel start.
    fn offset_of(&self, x: i32, y: i32) -> (at: usize)
        requires
            self@.wf(),
            self@.contains(x as int, y as int),
        ensures
            at == self@.offset(x as int, y as int),
            at + 4 <= self.bytes@.len(),
    {
        let w: usize = self.width as usize;
        let row: usize = y as usize;
        let column: usize = x as usize;
        proof {
            lemma_offset_bounds(self@, x as int, y as int);
            assert(self.bytes.len() <= usize::MAX);
            assert(row * w == y * self@.width);
        }
        (row * w + column) * 4
    }

    /// The colour at a pixel of the image.
    pub fn pixel_at(&self, x: i32, y: i32) -> (color: Color)
        requires
            self@.wf(),
            self@.contains(x as int, y as int),
        ensures
            color == self@.pixel(x as int, y as int),
    {
        let at: usize = self.offset_of(x, y);
        Color { r: self.bytes[at], g: self.bytes[at + 1], b: self.bytes[at + 2], a: self.bytes[at + 3] }
    }

    /// Replaces the colour at a pixel of the image.
    pub fn put_pixel(&mut self, x: i32, y: i32, color: Color)
        requires
            old(self)@.wf(),
            old(self)@.contains(x as int, y as int),
        ensures
            final(self)@ == old(self)@.with_pixel(x as int, y as int, color),
            final(self)@.wf(),
            final(self)@.width == old(self)@.width,
            final(self)@.height == old(self)@.height,
            final(self)@.pixel(x as int, y as int) == color,
            forall|x2: int, y2: int|
                old(self)@.contains(x2, y2) && (x2 != x || y2 != y)
                    ==> #[trigger] final(self)@.pixel(x2, y2) == old(self)@.pixel(x2, y2),
    {
        proof {
            lemma_with_pixel(self@, x as int, y as int, color);
        }
        let at: usize = self.offset_of(x, y);
        self.bytes.set(at, color.r);
        self.bytes.set(at + 1, color.g);
        self.bytes.set(at + 2, color.b);
        self.bytes.set(at + 3, color.a);
    }

    /// The colour at `(x, y)`, or `OutOfBounds` where the image has no such pixel.
    pub fn get_pixel(&self, x: i32, y: i32) -> (r: Result<Color, Error>)
        requires
            self@.wf(),
        ensures
            self@.contains(x as int, y as int) ==> r == Ok::<Color, Error>(
                self@.pixel(x as int, y as int),
            ),
            !self@.contains(x as int, y as int) ==> r == Err::<Color, Error>(Error::OutOfBounds),
    {
        if x < 0 || x >= self.width || y < 0 || y >= self.height {
            Err(Error::OutOfBounds)
        } else {
            Ok(self.pixel_at(x, y))
        }
    }

    /// Replaces the colour at `(x, y)`, or returns `OutOfBounds` and leaves
    /// the image as it was where it has no such pixel.
    pub fn set_pixel(&mut self, x: i32, y: i32, color: Color) -> (r: Result<(), Error>)
        requires
            old(self)@.wf(),
        ensures
            final(self)@.wf(),
            old(self)@.contains(x as int, y as int) ==> r.is_ok()
                && final(self)@ == old(self)@.with_pixel(x as int, y as int, color),
            !old(self)@.contains(x as int, y as int) ==> r == Err::<(), Error>(Error::OutOfBounds)
                && final(self)@ == old(self)@,
    {
        if x < 0 || x >= self.width || y < 0 || y >= self.height {
            Err(Error::OutOfBounds)
        } else {
            self.put_pixel(x, y, color);
            Ok(())
        }
    }
}

} // verus!
