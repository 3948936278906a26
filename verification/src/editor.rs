//! Editing images: blending two into one, cropping, filling and resizing.

use vstd::prelude::*;

use crate::blend::{composite, is_blend_of, overlap, overlaps, BlendMode};
use crate::color::Color;
use crate::error::{Argument, Error};
use crate::image::{lemma_byte_count_monotonic, Image, ImageView};
use crate::position::Anchor;
use crate::scale::{
    lemma_ratio_round_is_near, lemma_ratio_round_zero, lemma_round_other_way_fits, ratio_round,
    scale_round, scale_trunc, scaled_round, scaled_trunc,
};
use crate::text::{lowercase_of, same_text, to_lowercase};

verus! {

/// What [`blend_named`] returns for a canvas, an overlay and its arguments:
/// an unknown anchor is refused first, then an overlay that lies outside the
/// canvas, then an unknown mode; otherwise the result is the blend.
pub open spec fn is_blend_result(
    r: Result<Image, Error>,
    base: ImageView,
    over: ImageView,
    mode_name: Seq<char>,
    opacity: int,
    anchor_name: Seq<char>,
    offset_x: int,
    offset_y: int,
) -> bool {
    match Anchor::named(anchor_name) {
        None => r == Err::<Image, Error>(Error::InvalidArgument(Argument::Anchor)),
        Some(anchor) => {
            let at = anchor.top_left(
                base.width,
                base.height,
                over.width,
                over.height,
                offset_x,
                offset_y,
            );
            if !overlaps(base, over, at.0, at.1) {
                r == Err::<Image, Error>(Error::OutOfBounds)
            } else {
                match BlendMode::named(mode_name) {
                    None => r == Err::<Image, Error>(Error::InvalidArgument(Argument::BlendMode)),
                    Some(mode) => match r {
                        Ok(out) => out@.wf() && is_blend_of(
                            out@,
                            base,
                            over,
                            mode,
                            opacity,
                            at.0,
                            at.1,
                        ),
                        Err(_) => false,
                    },
                }
            }
        },
    }
}

/// Blends `image2` onto `image1`, the canvas, with the mode keyword matched
/// as it is written: one of `normal`, `difference`, `multiply`, `overlay`,
/// `screen`.  See [`blend`] for the other arguments.
pub fn blend_named(
    image1: &Image,
    image2: &Image,
    blend_mode: &str,
    opacity: i32,
    position: &str,
    offset_x: i32,
    offset_y: i32,
) -> (r: Result<Image, Error>)
    requires
        image1@.wf(),
        image2@.wf(),
    ensures
        is_blend_result(
            r,
            image1@,
            image2@,
            blend_mode@,
            opacity as int,
            position@,
            offset_x as int,
            offset_y as int,
        ),
{
    let anchor = match Anchor::from_name(position) {
        Some(anchor) => anchor,
        None => { return Err(Error::InvalidArgument(Argument::Anchor)); },
    };
    let at = anchor.resolve(
        image1.width(),
        image1.height(),
        image2.width(),
        image2.height(),
        offset_x,
        offset_y,
    );
    if !overlap(image1, image2, at.0, at.1) {
        return Err(Error::OutOfBounds);
    }
    match BlendMode::from_name(blend_mode) {
        Some(mode) => composite(image1, image2, mode, opacity, at.0, at.1),
        None => Err(Error::InvalidArgument(Argument::BlendMode)),
    }
}

/// Blends two images into one: `image1` is the canvas and `image2` lies on top.
///
/// `blend_mode` is one of `normal`, `difference`, `multiply`, `overlay`,
/// `screen`, in any letter case.  `opacity` is counted in millionths and
/// brought into `0 ..= OPAQUE`.  `position` is an anchor keyword, and
/// `offset_x`, `offset_y` move the overlay from there.
pub fn blend(
    image1: &Image,
    image2: &Image,
    blend_mode: &str,
    opacity: i32,
    position: &str,
    offset_x: i32,
    offset_y: i32,
) -> (r: Result<Image, Error>)
    requires
        image1@.wf(),
        image2@.wf(),
    ensures
        is_blend_result(
            r,
            image1@,
            image2@,
            lowercase_of(blend_mode@),
            opacity as int,
            position@,
            offset_x as int,
            offset_y as int,
        ),
{
    let lowered = to_lowercase(blend_mode);
    blend_named(image1, image2, lowered.as_str(), opacity, position, offset_x, offset_y)
}

/// A copy of an image.
pub fn copy(src: &Image) -> (out: Image)
    ensures
        out@ == src@,
{
    src.duplicate()
}

/// Where a crop starts: the resolved coordinate, or zero where that is negative.
pub open spec fn crop_origin(resolved: int) -> int {
    if resolved < 0 {
        0
    } else {
        resolved
    }
}

/// How long a crop is along one axis: from `origin` for `requested` pixels,
/// cut off where the source ends, and never less than nothing.
pub open spec fn crop_extent(origin: int, requested: int, available: int) -> int {
    let end = if origin + requested > available {
        available
    } else {
        origin + requested
    };
    if end > origin {
        end - origin
    } else {
        0
    }
}

/// `out` is the `w` by `h` part of `src` whose top-left corner is `(x0, y0)`.
pub open spec fn is_crop_of(out: ImageView, src: ImageView, x0: int, y0: int, w: int, h: int) -> bool {
    &&& out.width == w
    &&& out.height == h
    &&& forall|x: int, y: int|
        out.contains(x, y) ==> #[trigger] out.pixel(x, y) == src.pixel(x0 + x, y0 + y)
}

/// `out` is what cropping `src` to `crop_width` by `crop_height` at an anchor gives.
pub open spec fn is_anchored_crop(
    out: ImageView,
    src: ImageView,
    crop_width: int,
    crop_height: int,
    anchor: Anchor,
    offset_x: int,
    offset_y: int,
) -> bool {
    let at = anchor.top_left(src.width, src.height, crop_width, crop_height, offset_x, offset_y);
    let x0 = crop_origin(at.0);
    let y0 = crop_origin(at.1);
    is_crop_of(
        out,
        src,
        x0,
        y0,
        crop_extent(x0, crop_width, src.width),
        crop_extent(y0, crop_height, src.height),
    )
}

/// Crops an image to the given dimensions at an anchor.  The rectangle
/// starts inside the source and is cut off where the source ends, so the
/// result may be smaller than asked for, down to no pixels at all.
pub fn crop_anchored(
    src: &Image,
    crop_width: i32,
    crop_height: i32,
    anchor: Anchor,
    offset_x: i32,
    offset_y: i32,
) -> (out: Image)
    requires
        src@.wf(),
    ensures
        out@.wf(),
        is_anchored_crop(
            out@,
            src@,
            crop_width as int,
            crop_height as int,
            anchor,
            offset_x as int,
            offset_y as int,
        ),
{
    let at = anchor.resolve(src.width(), src.height(), crop_width, crop_height, offset_x, offset_y);
    let x0: i64 = if at.0 < 0 { 0 } else { at.0 };
    let y0: i64 = if at.1 < 0 { 0 } else { at.1 };
    let mut x_end: i64 = x0 + crop_width as i64;
    if x_end > src.width() as i64 {
        x_end = src.width() as i64;
    }
    let mut y_end: i64 = y0 + crop_height as i64;
    if y_end > src.height() as i64 {
        y_end = src.height() as i64;
    }
    let w: i32 = if x_end > x0 { (x_end - x0) as i32 } else { 0 };
    let h: i32 = if y_end > y0 { (y_end - y0) as i32 } else { 0 };
    proof {
        src.lemma_fits();
        lemma_byte_count_monotonic(w as int, h as int, src@.width, src@.height);
    }
    let mut dest = Image::blank(w, h);
    let mut y: i32 = 0;
    while y < h
        invariant
            src@.wf(),
            dest@.wf(),
            dest@.width == w,
            dest@.height == h,
            0 <= y <= h,
            0 <= w,
            0 <= x0,
            0 <= y0,
            w > 0 ==> x0 + w <= src@.width,
            h > 0 ==> y0 + h <= src@.height,
            forall|cx: int, cy: int|
                dest@.contains(cx, cy) && cy < y ==> #[trigger] dest@.pixel(cx, cy) == src@.pixel(
                    x0 + cx,
                    y0 + cy,
                ),
        decreases h - y,
    {
        let mut x: i32 = 0;
        while x < w
            invariant
                src@.wf(),
                dest@.wf(),
                dest@.width == w,
                dest@.height == h,
                0 <= y < h,
                0 <= x <= w,
                0 <= x0,
                0 <= y0,
                w > 0 ==> x0 + w <= src@.width,
                h > 0 ==> y0 + h <= src@.height,
                forall|cx: int, cy: int|
                    dest@.contains(cx, cy) && (cy < y || (cy == y && cx < x))
                        ==> #[trigger] dest@.pixel(cx, cy) == src@.pixel(x0 + cx, y0 + cy),
            decreases w - x,
        {
            let pixel = src.pixel_at((x0 + x as i64) as i32, (y0 + y as i64) as i32);
            dest.put_pixel(x, y, pixel);
            x += 1;
        }
        y += 1;
    }
    dest
}

/// Crops an image to the given dimensions at the anchor that `position`
/// names, moved by the offsets.  Fails with `InvalidArgument` where the
/// keyword names no anchor, and in no other case.
pub fn crop(
    src: &Image,
    crop_width: i32,
    crop_height: i32,
    position: &str,
    offset_x: i32,
    offset_y: i32,
) -> (r: Result<Image, Error>)
    requires
        src@.wf(),
    ensures
        match Anchor::named(position@) {
            Some(anchor) => match r {
                Ok(out) => out@.wf() && is_anchored_crop(
                    out@,
                    src@,
                    crop_width as int,
                    crop_height as int,
                    anchor,
                    offset_x as int,
                    offset_y as int,
                ),
                Err(_) => false,
            },
            None => r == Err::<Image, Error>(Error::InvalidArgument(Argument::Anchor)),
        },
{
    match Anchor::from_name(position) {
        Some(anchor) => Ok(crop_anchored(src, crop_width, crop_height, anchor, offset_x, offset_y)),
        None => Err(Error::InvalidArgument(Argument::Anchor)),
    }
}

/// `out` has the dimensions of `src` and the colour `color` at every pixel.
pub open spec fn is_fill_of(out: ImageView, src: ImageView, color: Color) -> bool {
    &&& out.width == src.width
    &&& out.height == src.height
    &&& out.is_uniform(color)
}

/// An image of the dimensions of `src` with every pixel set to `color`.
/// What `src` holds does not matter.  Always succeeds.
pub fn fill(src: &Image, color: Color) -> (r: Result<Image, Error>)
    requires
        src@.wf(),
    ensures
        match r {
            Ok(out) => {
                &&& out@.wf()
                &&& is_fill_of(out@, src@, color)
                &&& out@.bytes.len() == src@.width * src@.height * 4
            },
            Err(_) => false,
        },
{
    let w = src.width();
    let h = src.height();
    proof {
        src.lemma_fits();
    }
    let mut dest = Image::blank(w, h);
    let mut y: i32 = 0;
    while y < h
        invariant
            dest@.wf(),
            dest@.width == w,
            dest@.height == h,
            0 <= y <= h,
            0 <= w,
            forall|cx: int, cy: int|
                dest@.contains(cx, cy) && cy < y ==> #[trigger] dest@.pixel(cx, cy) == color,
        decreases h - y,
    {
        let mut x: i32 = 0;
        while x < w
            invariant
                dest@.wf(),
                dest@.width == w,
                dest@.height == h,
                0 <= y < h,
                0 <= x <= w,
                forall|cx: int, cy: int|
                    dest@.contains(cx, cy) && (cy < y || (cy == y && cx < x))
                        ==> #[trigger] dest@.pixel(cx, cy) == color,
            decreases w - x,
        {
            dest.put_pixel(x, y, color);
            x += 1;
        }
        y += 1;
    }
    Ok(dest)
}

/// The sampling methods by name.  All three take the nearest source pixel.
#[derive(Clone, Copy, Debug, PartialEq, Eq, Structural)]
pub enum Interpolation {
    Bilinear,
    Bicubic,
    Nearest,
}

impl Interpolation {
    /// The method that a keyword names, if any.
    pub open spec fn named(name: Seq<char>) -> Option<Interpolation> {
        if name == "bilinear"@ {
            Some(Interpolation::Bilinear)
        } else if name == "bicubic"@ {
            Some(Interpolation::Bicubic)
        } else if name == "nearest"@ {
            Some(Interpolation::Nearest)
        } else {
            None
        }
    }

    /// Each of the three keywords names its own method.
    pub proof fn lemma_keywords()
        ensures
            Interpolation::named("bilinear"@) == Some(Interpolation::Bilinear),
            Interpolation::named("bicubic"@) == Some(Interpolation::Bicubic),
            Interpolation::named("nearest"@) == Some(Interpolation::Nearest),
    {
        reveal_strlit("bilinear");
        reveal_strlit("bicubic");
        reveal_strlit("nearest");
        assert("bilinear"@.len() == 8);
        assert("bicubic"@.len() == 7 && "bicubic"@[0] == 'b');
        assert("nearest"@.len() == 7 && "nearest"@[0] == 'n');
    }

    /// Reads an interpolation keyword.
    pub fn from_name(name: &str) -> (method: Option<Interpolation>)
        ensures
            method == Interpolation::named(name@),
    {
        if same_text(name, "bilinear") {
            Some(Interpolation::Bilinear)
        } else if same_text(name, "bicubic") {
            Some(Interpolation::Bicubic)
        } else if same_text(name, "nearest") {
            Some(Interpolation::Nearest)
        } else {
            None
        }
    }
}

/// The source coordinate that a destination coordinate takes its pixel from,
/// where a source of length `from` is resampled to length `to`.
pub open spec fn nearest(at: int, from: int, to: int) -> int {
    at * from / to
}

/// The nearest source coordinate lies inside the source.
pub proof fn lemma_nearest_in_range(at: int, from: int, to: int)
    requires
        0 <= at < to,
        0 < from,
    ensures
        0 <= at * from,
        at * from < to * from,
        0 <= nearest(at, from, to) < from,
{
    assert(0 <= at * from && at * from < to * from) by (nonlinear_arith)
        requires
            0 <= at < to,
            0 < from,
    ;
    assert(0 <= at * from / to < from) by (nonlinear_arith)
        requires
            0 <= at * from < to * from,
            0 < to,
    ;
}

/// Computes [`nearest`] for a coordinate inside the destination.
pub fn nearest_index(at: i32, from: i32, to: i32) -> (index: i32)
    requires
        0 <= at < to,
        0 < from,
    ensures
        index == nearest(at as int, from as int, to as int),
        0 <= index < from,
{
    proof {
        lemma_nearest_in_range(at as int, from as int, to as int);
        assert(at * from <= 0x7fff_ffff * 0x7fff_ffff) by (nonlinear_arith)
            requires
                0 <= at <= 0x7fff_ffff,
                0 <= from <= 0x7fff_ffff,
        ;
    }
    (at as i64 * from as i64 / to as i64) as i32
}

/// Why resampling `src` to `w` by `h` fails, if it does: the buffer cannot
/// be addressed, or there are pixels to produce and none to take them from.
pub open spec fn resample_error(src: ImageView, w: int, h: int) -> Option<Error> {
    if w <= 0 || h <= 0 {
        None
    } else if !Image::fits(w, h) {
        Some(Error::InvalidArgument(Argument::Size))
    } else if src.is_empty() {
        Some(Error::OutOfBounds)
    } else {
        None
    }
}

/// `out` is `src` resampled to `w` by `h`: each pixel is the source pixel
/// nearest to it.  A dimension that is negative counts as zero.
pub open spec fn is_resample_of(out: ImageView, src: ImageView, w: int, h: int) -> bool {
    &&& out.width == (if w < 0 { 0 } else { w })
    &&& out.height == (if h < 0 { 0 } else { h })
    &&& forall|x: int, y: int|
        out.contains(x, y) ==> #[trigger] out.pixel(x, y) == src.pixel(
            nearest(x, src.width, w),
            nearest(y, src.height, h),
        )
}

/// What resampling `src` to `w` by `h` returns.
pub open spec fn is_resample_result(r: Result<Image, Error>, src: ImageView, w: int, h: int) -> bool {
    match r {
        Ok(out) => resample_error(src, w, h).is_none() && out@.wf() && is_resample_of(
            out@,
            src,
            w,
            h,
        ),
        Err(e) => resample_error(src, w, h) == Some(e),
    }
}

/// Resamples an image to `w` by `h` pixels by nearest neighbour.  Where `w`
/// or `h` is zero or less the result has no pixels and is no error.
pub fn interpolate_nearest(src: &Image, w: i32, h: i32) -> (r: Result<Image, Error>)
    requires
        src@.wf(),
    ensures
        is_resample_result(r, src@, w as int, h as int),
{
    let mut dest = match Image::try_blank(w, h) {
        Ok(dest) => dest,
        Err(e) => { return Err(e); },
    };
    if w <= 0 || h <= 0 {
        return Ok(dest);
    }
    let from_w = src.width();
    let from_h = src.height();
    if from_w <= 0 || from_h <= 0 {
        return Err(Error::OutOfBounds);
    }
    let mut y: i32 = 0;
    while y < h
        invariant
            src@.wf(),
            dest@.wf(),
            dest@.width == w,
            dest@.height == h,
            from_w == src@.width,
            from_h == src@.height,
            0 < from_w,
            0 < from_h,
            0 <= y <= h,
            0 < w,
            forall|cx: int, cy: int|
                dest@.contains(cx, cy) && cy < y ==> #[trigger] dest@.pixel(cx, cy) == src@.pixel(
                    nearest(cx, src@.width, w as int),
                    nearest(cy, src@.height, h as int),
                ),
        decreases h - y,
    {
        let py: i32 = nearest_index(y, from_h, h);
        let mut x: i32 = 0;
        while x < w
            invariant
                src@.wf(),
                dest@.wf(),
                dest@.width == w,
                dest@.height == h,
                from_w == src@.width,
                from_h == src@.height,
                0 < from_w,
                0 <= py < from_h,
                py == nearest(y as int, src@.height, h as int),
                0 <= y < h,
                0 <= x <= w,
                forall|cx: int, cy: int|
                    dest@.contains(cx, cy) && (cy < y || (cy == y && cx < x))
                        ==> #[trigger] dest@.pixel(cx, cy) == src@.pixel(
                        nearest(cx, src@.width, w as int),
                        nearest(cy, src@.height, h as int),
                    ),
            decreases w - x,
        {
            let px: i32 = nearest_index(x, from_w, w);
            let pixel = src.pixel_at(px, py);
            dest.put_pixel(x, y, pixel);
            x += 1;
        }
        y += 1;
    }
    Ok(dest)
}

/// Resamples an image to `w` by `h` pixels by the method that
/// `interpolation` names: `nearest`, `bilinear` or `bicubic`.  Fails with
/// `InvalidArgument` for any other keyword.
pub fn resample(src: &Image, w: i32, h: i32, interpolation: &str) -> (r: Result<Image, Error>)
    requires
        src@.wf(),
    ensures
        match Interpolation::named(interpolation@) {
            Some(_) => is_resample_result(r, src@, w as int, h as int),
            None => r == Err::<Image, Error>(Error::InvalidArgument(Argument::Interpolation)),
        },
{
    match Interpolation::from_name(interpolation) {
        Some(Interpolation::Bilinear) => interpolate_nearest(src, w, h),
        Some(Interpolation::Bicubic) => interpolate_nearest(src, w, h),
        Some(Interpolation::Nearest) => interpolate_nearest(src, w, h),
        None => Err(Error::InvalidArgument(Argument::Interpolation)),
    }
}

/// Resizes an image to exactly `w` by `h`, whatever its aspect ratio.
pub fn resize_exact(src: &Image, w: i32, h: i32) -> (r: Result<Image, Error>)
    requires
        src@.wf(),
    ensures
        is_resample_result(r, src@, w as int, h as int),
{
    resample(src, w, h, "bicubic")
}

/// The dimensions for height `h` that keep the aspect ratio of a
/// `src_w` by `src_h` source; the width is rounded toward zero.
pub open spec fn exact_height_size(src_w: int, src_h: int, h: int) -> (int, int) {
    (scaled_trunc(h, src_w, src_h), h)
}

/// Resizes an image to the height `h`; the width follows from the aspect ratio.
pub fn resize_exact_height(src: &Image, h: i32) -> (r: Result<Image, Error>)
    requires
        src@.wf(),
    ensures
        is_resample_result(
            r,
            src@,
            exact_height_size(src@.width, src@.height, h as int).0,
            exact_height_size(src@.width, src@.height, h as int).1,
        ),
{
    let resize_width = scale_trunc(h, src.width(), src.height());
    resample(src, resize_width, h, "bicubic")
}

/// The dimensions for width `w` that keep the aspect ratio of a
/// `src_w` by `src_h` source; the height is rounded to the nearest pixel.
pub open spec fn exact_width_size(src_w: int, src_h: int, w: int) -> (int, int) {
    (w, scaled_round(w, src_h, src_w))
}

/// Resizes an image to the width `w`; the height follows from the aspect ratio.
pub fn resize_exact_width(src: &Image, w: i32) -> (r: Result<Image, Error>)
    requires
        src@.wf(),
    ensures
        is_resample_result(
            r,
            src@,
            exact_width_size(src@.width, src@.height, w as int).0,
            exact_width_size(src@.width, src@.height, w as int).1,
        ),
{
    let resize_height = scale_round(w, src.height(), src.width());
    resample(src, w, resize_height, "bicubic")
}

/// The dimensions to which a `src_w` by `src_h` source is scaled so that it
/// covers `w` by `h`: by the width, or by the height where that leaves the
/// height short.
pub open spec fn fill_size(src_w: int, src_h: int, w: int, h: int) -> (int, int) {
    let by_width = scaled_round(w, src_h, src_w);
    if by_width < h {
        (scaled_trunc(h, src_w, src_h), h)
    } else {
        (w, by_width)
    }
}

/// `out` is `src` scaled to `scaled_w` by `scaled_h` and then cut to at most
/// `w` by `h` from the top-left corner.
pub open spec fn is_fill_resize_of(
    out: ImageView,
    src: ImageView,
    scaled_w: int,
    scaled_h: int,
    w: int,
    h: int,
) -> bool {
    &&& out.width == crop_extent(0, w, if scaled_w < 0 { 0 } else { scaled_w })
    &&& out.height == crop_extent(0, h, if scaled_h < 0 { 0 } else { scaled_h })
    &&& forall|x: int, y: int|
        out.contains(x, y) ==> #[trigger] out.pixel(x, y) == src.pixel(
            nearest(x, src.width, scaled_w),
            nearest(y, src.height, scaled_h),
        )
}

/// What [`resize_fill`] returns.
pub open spec fn is_fill_resize_result(r: Result<Image, Error>, src: ImageView, w: int, h: int) -> bool {
    let size = fill_size(src.width, src.height, w, h);
    match r {
        Ok(out) => resample_error(src, size.0, size.1).is_none() && out@.wf()
            && is_fill_resize_of(out@, src, size.0, size.1, w, h),
        Err(e) => resample_error(src, size.0, size.1) == Some(e),
    }
}

/// Resizes an image so that it fills `w` by `h`, keeping its aspect ratio;
/// what reaches beyond the right and bottom edges is cut away.
pub fn resize_fill(src: &Image, w: i32, h: i32) -> (r: Result<Image, Error>)
    requires
        src@.wf(),
    ensures
        is_fill_resize_result(r, src@, w as int, h as int),
{
    let mut optimum_width = w;
    let mut optimum_height = scale_round(w, src.height(), src.width());
    if optimum_height < h {
        optimum_width = scale_trunc(h, src.width(), src.height());
        optimum_height = h;
    }
    let resized = match resample(src, optimum_width, optimum_height, "bicubic") {
        Ok(resized) => resized,
        Err(e) => { return Err(e); },
    };
    let out = crop_anchored(&resized, w, h, Anchor::TopLeft, 0, 0);
    assert forall|x: int, y: int| out@.contains(x, y) implies #[trigger] out@.pixel(x, y)
        == src@.pixel(
        nearest(x, src@.width, optimum_width as int),
        nearest(y, src@.height, optimum_height as int),
    ) by {
        assert(resized@.contains(x, y));
        assert(out@.pixel(x, y) == resized@.pixel(0 + x, 0 + y));
    }
    Ok(out)
}

/// The dimensions to which a `src_w` by `src_h` source is scaled so that it
/// fits inside `w` by `h`: by the width, or by the height where the height
/// would not fit.
pub open spec fn fit_size(src_w: int, src_h: int, w: int, h: int) -> (int, int) {
    let by_width = scaled_round(w, src_h, src_w);
    if by_width > h {
        (scaled_round(h, src_w, src_h), h)
    } else {
        (w, by_width)
    }
}

/// Resizes an image so that it fits inside `w` by `h`, keeping its aspect ratio.
pub fn resize_fit(src: &Image, w: i32, h: i32) -> (r: Result<Image, Error>)
    requires
        src@.wf(),
    ensures
        is_resample_result(
            r,
            src@,
            fit_size(src@.width, src@.height, w as int, h as int).0,
            fit_size(src@.width, src@.height, w as int, h as int).1,
        ),
{
    let mut resize_width = w;
    let mut resize_height = scale_round(w, src.height(), src.width());
    if resize_height > h {
        resize_height = h;
        resize_width = scale_round(h, src.width(), src.height());
    }
    resample(src, resize_width, resize_height, "bicubic")
}

/// The ways of resizing by name.
#[derive(Clone, Copy, Debug, PartialEq, Eq, Structural)]
pub enum ResizeMode {
    Exact,
    ExactWidth,
    ExactHeight,
    Fit,
    Fill,
}

impl ResizeMode {
    /// The mode that a keyword names, if any.
    pub open spec fn named(name: Seq<char>) -> Option<ResizeMode> {
        if name == "exact"@ {
            Some(ResizeMode::Exact)
        } else if name == "exact_width"@ {
            Some(ResizeMode::ExactWidth)
        } else if name == "exact_height"@ {
            Some(ResizeMode::ExactHeight)
        } else if name == "fit"@ {
            Some(ResizeMode::Fit)
        } else if name == "fill"@ {
            Some(ResizeMode::Fill)
        } else {
            None
        }
    }

    /// Each of the five keywords names its own mode.
    pub proof fn lemma_keywords()
        ensures
            ResizeMode::named("exact"@) == Some(ResizeMode::Exact),
            ResizeMode::named("exact_width"@) == Some(ResizeMode::ExactWidth),
            ResizeMode::named("exact_height"@) == Some(ResizeMode::ExactHeight),
            ResizeMode::named("fit"@) == Some(ResizeMode::Fit),
            ResizeMode::named("fill"@) == Some(ResizeMode::Fill),
    {
        reveal_strlit("exact");
        reveal_strlit("exact_width");
        reveal_strlit("exact_height");
        reveal_strlit("fit");
        reveal_strlit("fill");
        assert("exact"@.len() == 5);
        assert("exact_width"@.len() == 11);
        assert("exact_height"@.len() == 12);
        assert("fit"@.len() == 3);
        assert("fill"@.len() == 4);
    }

    /// Reads a resize mode keyword.
    pub fn from_name(name: &str) -> (mode: Option<ResizeMode>)
        ensures
            mode == ResizeMode::named(name@),
    {
        if same_text(name, "exact") {
            Some(ResizeMode::Exact)
        } else if same_text(name, "exact_width") {
            Some(ResizeMode::ExactWidth)
        } else if same_text(name, "exact_height") {
            Some(ResizeMode::ExactHeight)
        } else if same_text(name, "fit") {
            Some(ResizeMode::Fit)
        } else if same_text(name, "fill") {
            Some(ResizeMode::Fill)
        } else {
            None
        }
    }

    /// The dimensions that the source is resampled to in this mode.
    pub open spec fn target(self, src_w: int, src_h: int, w: int, h: int) -> (int, int) {
        match self {
            ResizeMode::Exact => (w, h),
            ResizeMode::ExactWidth => exact_width_size(src_w, src_h, w),
            ResizeMode::ExactHeight => exact_height_size(src_w, src_h, h),
            ResizeMode::Fit => fit_size(src_w, src_h, w, h),
            ResizeMode::Fill => fill_size(src_w, src_h, w, h),
        }
    }
}

/// Resizes an image to `w` by `h` in the mode that `mode` names: `exact`,
/// `exact_width`, `exact_height`, `fit` or `fill`.  Fails with
/// `InvalidArgument` for any other keyword.
pub fn resize(src: &Image, w: i32, h: i32, mode: &str) -> (r: Result<Image, Error>)
    requires
        src@.wf(),
    ensures
        match ResizeMode::named(mode@) {
            Some(ResizeMode::Fill) => is_fill_resize_result(r, src@, w as int, h as int),
            Some(by) => is_resample_result(
                r,
                src@,
                by.target(src@.width, src@.height, w as int, h as int).0,
                by.target(src@.width, src@.height, w as int, h as int).1,
            ),
            None => r == Err::<Image, Error>(Error::InvalidArgument(Argument::ResizeMode)),
        },
{
    match ResizeMode::from_name(mode) {
        Some(ResizeMode::Exact) => resize_exact(src, w, h),
        Some(ResizeMode::ExactWidth) => resize_exact_width(src, w),
        Some(ResizeMode::ExactHeight) => resize_exact_height(src, h),
        Some(ResizeMode::Fit) => resize_fit(src, w, h),
        Some(ResizeMode::Fill) => resize_fill(src, w, h),
        None => Err(Error::InvalidArgument(Argument::ResizeMode)),
    }
}

/// Filling a blank image of `w` by `h` pixels, with any colour, gives a
/// buffer of exactly `w * h * 4` bytes.
pub proof fn lemma_blank_then_fill_len(w: int, h: int, color: Color, filled: ImageView)
    requires
        0 <= w,
        0 <= h,
        filled.wf(),
        is_fill_of(filled, ImageView::blank(w, h), color),
    ensures
        filled.bytes.len() == w * h * 4,
{
}

/// A crop is no larger than what was asked for, where that is not negative,
/// and no larger than its source.
pub proof fn lemma_crop_within_bounds(
    out: ImageView,
    src: ImageView,
    crop_width: int,
    crop_height: int,
    anchor: Anchor,
    offset_x: int,
    offset_y: int,
)
    requires
        src.wf(),
        0 <= crop_width,
        0 <= crop_height,
        is_anchored_crop(out, src, crop_width, crop_height, anchor, offset_x, offset_y),
    ensures
        0 <= out.width <= crop_width,
        0 <= out.height <= crop_height,
        out.width <= src.width,
        out.height <= src.height,
{
}

/// A crop at the top-left anchor without an offset, no larger than the
/// source, is exactly the source's top-left `w` by `h` pixels.
pub proof fn lemma_crop_top_left(out: ImageView, src: ImageView, w: int, h: int)
    requires
        0 <= w <= src.width,
        0 <= h <= src.height,
        is_anchored_crop(out, src, w, h, Anchor::TopLeft, 0, 0),
    ensures
        out.width == w,
        out.height == h,
        forall|x: int, y: int|
            0 <= x < w && 0 <= y < h ==> #[trigger] out.pixel(x, y) == src.pixel(x, y),
{
    assert forall|x: int, y: int| 0 <= x < w && 0 <= y < h implies #[trigger] out.pixel(x, y)
        == src.pixel(x, y) by {
        assert(out.contains(x, y));
        assert(out.pixel(x, y) == src.pixel(0 + x, 0 + y));
    }
}

/// Resizing to exact dimensions that are not negative gives an image of
/// exactly those dimensions, whatever the dimensions of the source, wherever
/// it gives an image; and it gives one unless there are pixels to produce
/// and the source has none or the buffer cannot be addressed.
pub proof fn lemma_exact_resize_size(r: Result<Image, Error>, src: ImageView, w: int, h: int)
    requires
        0 <= w,
        0 <= h,
        is_resample_result(r, src, w, h),
    ensures
        r.is_ok() <==> resample_error(src, w, h).is_none(),
        r.is_ok() ==> r.unwrap()@.width == w && r.unwrap()@.height == h,
        (w == 0 || h == 0 || (!src.is_empty() && Image::fits(w, h))) ==> r.is_ok(),
{
}

/// The dimensions that fitting into `w` by `h` gives never exceed `w` or `h`.
pub proof fn lemma_fit_within_box(src_w: int, src_h: int, w: int, h: int)
    requires
        0 <= src_w,
        0 <= src_h,
        0 <= w <= i32::MAX,
        0 <= h <= i32::MAX,
    ensures
        0 <= fit_size(src_w, src_h, w, h).0 <= w,
        0 <= fit_size(src_w, src_h, w, h).1 <= h,
{
    assert(0 <= w * src_h && 0 <= h * src_w && (src_w == 0 ==> h * src_w == 0) && (src_h == 0
        ==> w * src_h == 0)) by (nonlinear_arith)
        requires
            0 <= src_w,
            0 <= src_h,
            0 <= w,
            0 <= h,
    ;
    if src_w > 0 {
        lemma_ratio_round_is_near(w * src_h, src_w);
        lemma_ratio_round_zero(src_w);
    }
    if src_h > 0 {
        lemma_ratio_round_is_near(h * src_w, src_h);
        lemma_ratio_round_zero(src_h);
    }
    if src_w > 0 && src_h > 0 && ratio_round(w * src_h, src_w) > h {
        lemma_round_other_way_fits(w, h, src_w, src_h);
    }
}

/// Fitting keeps the aspect ratio to within half a pixel: one dimension is
/// the bound itself and the other is the ideal length rounded.  This holds
/// of a source with pixels unless the height that the width calls for is
/// beyond the largest `i32` while `h` is that largest `i32`.
pub proof fn lemma_fit_keeps_aspect(src_w: int, src_h: int, w: int, h: int)
    requires
        0 < src_w,
        0 < src_h,
        0 <= w <= i32::MAX,
        0 <= h <= i32::MAX,
        h < i32::MAX || ratio_round(w * src_h, src_w) <= i32::MAX,
    ensures
        ({
            let size = fit_size(src_w, src_h, w, h);
            ||| size.0 == w && -src_w < 2 * size.1 * src_w - 2 * (w * src_h) <= src_w
            ||| size.1 == h && -src_h < 2 * size.0 * src_h - 2 * (h * src_w) <= src_h
        }),
{
    assert(0 <= w * src_h && 0 <= h * src_w) by (nonlinear_arith)
        requires
            0 < src_w,
            0 < src_h,
            0 <= w,
            0 <= h,
    ;
    lemma_ratio_round_is_near(w * src_h, src_w);
    lemma_ratio_round_is_near(h * src_w, src_h);
    if ratio_round(w * src_h, src_w) > h {
        lemma_round_other_way_fits(w, h, src_w, src_h);
    }
}

/// Filling covers the box: for a source with pixels, the dimensions that
/// the source is scaled to are at least `w` by `h`, so what is left after
/// the cut is exactly `w` by `h`.
pub proof fn lemma_fill_covers_box(src_w: int, src_h: int, w: int, h: int)
    requires
        0 < src_w,
        0 < src_h,
        0 <= w <= i32::MAX,
        0 <= h <= i32::MAX,
    ensures
        fill_size(src_w, src_h, w, h).0 >= w,
        fill_size(src_w, src_h, w, h).1 >= h,
        crop_extent(0, w, fill_size(src_w, src_h, w, h).0) == w,
        crop_extent(0, h, fill_size(src_w, src_h, w, h).1) == h,
{
    let a = w * src_h;
    let b = h * src_w;
    assert(0 <= a && 0 <= b) by (nonlinear_arith)
        requires
            a == w * src_h,
            b == h * src_w,
            0 < src_w,
            0 < src_h,
            0 <= w,
            0 <= h,
    ;
    lemma_ratio_round_is_near(a, src_w);
    let by_width = ratio_round(a, src_w);
    if by_width < h {
        // The rounded height is short of h, so a / src_w < h, that is a < b.
        assert(2 * by_width * src_w <= 2 * (h - 1) * src_w && 2 * (h - 1) * src_w == 2 * b - 2
            * src_w) by (nonlinear_arith)
            requires
                by_width <= h - 1,
                0 < src_w,
                b == h * src_w,
        ;
        assert(a < b);
        assert(b / src_h >= w) by (nonlinear_arith)
            requires
                b > w * src_h,
                0 < src_h,
                0 <= w,
        ;
    }
}

} // verus!
