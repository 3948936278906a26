//! The blend engine: per-channel blend functions, the opacity mix, and the
//! loop that lays an overlay over a canvas.

use vstd::prelude::*;

use crate::color::Color;
use crate::error::Error;
use crate::image::{Image, ImageView};
use crate::text::same_text;

verus! {

/// Full opacity.  Opacity is counted in millionths: `0` leaves the canvas as
/// it is, `OPAQUE` replaces it by the blended colour.
pub const OPAQUE: i32 = 1_000_000;

/// The square of the largest sample, the scale of [`BlendMode::blended`].
pub const SAMPLE_SQUARED: u32 = 65_025;

/// How an overlay's sample is combined with the canvas's sample beneath it.
#[derive(Clone, Copy, Debug, PartialEq, Eq, Structural)]
pub enum BlendMode {
    Normal,
    Difference,
    Multiply,
    Overlay,
    Screen,
}

/// An opacity brought into `0 ..= OPAQUE`.
pub open spec fn clamped_opacity(opacity: int) -> int {
    if opacity < 0 {
        0
    } else if opacity > OPAQUE {
        OPAQUE as int
    } else {
        opacity
    }
}

/// Computes [`clamped_opacity`].
pub fn clamp_opacity(opacity: i32) -> (clamped: i32)
    ensures
        clamped == clamped_opacity(opacity as int),
        0 <= clamped <= OPAQUE,
{
    if opacity < 0 {
        0
    } else if opacity > OPAQUE {
        OPAQUE
    } else {
        opacity
    }
}

impl BlendMode {
    /// The mode that a keyword names, if any.
    pub open spec fn named(name: Seq<char>) -> Option<BlendMode> {
        if name == "normal"@ {
            Some(BlendMode::Normal)
        } else if name == "difference"@ {
            Some(BlendMode::Difference)
        } else if name == "multiply"@ {
            Some(BlendMode::Multiply)
        } else if name == "overlay"@ {
            Some(BlendMode::Overlay)
        } else if name == "screen"@ {
            Some(BlendMode::Screen)
        } else {
            None
        }
    }

    /// Each of the five keywords names its own mode.
    pub proof fn lemma_keywords()
        ensures
            BlendMode::named("normal"@) == Some(BlendMode::Normal),
            BlendMode::named("difference"@) == Some(BlendMode::Difference),
            BlendMode::named("multiply"@) == Some(BlendMode::Multiply),
            BlendMode::named("overlay"@) == Some(BlendMode::Overlay),
            BlendMode::named("screen"@) == Some(BlendMode::Screen),
    {
        reveal_strlit("normal");
        reveal_strlit("difference");
        reveal_strlit("multiply");
        reveal_strlit("overlay");
        reveal_strlit("screen");
        assert("normal"@.len() == 6 && "normal"@[0] == 'n');
        assert("difference"@.len() == 10);
        assert("multiply"@.len() == 8);
        assert("overlay"@.len() == 7);
        assert("screen"@.len() == 6 && "screen"@[0] == 's');
    }

    /// Reads a blend mode keyword, matched as it is written.
    pub fn from_name(name: &str) -> (mode: Option<BlendMode>)
        ensures
            mode == BlendMode::named(name@),
    {
        if same_text(name, "normal") {
            Some(BlendMode::Normal)
        } else if same_text(name, "difference") {
            Some(BlendMode::Difference)
        } else if same_text(name, "multiply") {
            Some(BlendMode::Multiply)
        } else if same_text(name, "overlay") {
            Some(BlendMode::Overlay)
        } else if same_text(name, "screen") {
            Some(BlendMode::Screen)
        } else {
            None
        }
    }

    /// The blended sample times 255, for samples `base` and `over` in
    /// `0 ..= 255`.  With both samples read as fractions of 255, the blended
    /// fraction is the overlay (normal), `|base - over|` (difference),
    /// `base * over` (multiply), `1 - (1 - base)(1 - over)` (screen), and for
    /// overlay `2 * base * over` where `base` is at most a half, else
    /// `1 - 2(1 - base)(1 - over)`.
    pub open spec fn blended(self, base: int, over: int) -> int {
        match self {
            BlendMode::Normal => 255 * over,
            BlendMode::Difference => if base >= over {
                255 * (base - over)
            } else {
                255 * (over - base)
            },
            BlendMode::Multiply => base * over,
            BlendMode::Screen => 65_025 - (255 - base) * (255 - over),
            BlendMode::Overlay => if base < 128 {
                2 * base * over
            } else {
                65_025 - 2 * (255 - base) * (255 - over)
            },
        }
    }

    /// Computes [`BlendMode::blended`].
    pub fn blend_sample(self, base: u8, over: u8) -> (scaled: u32)
        ensures
            scaled == self.blended(base as int, over as int),
            scaled <= SAMPLE_SQUARED,
    {
        let b: u32 = base as u32;
        let o: u32 = over as u32;
        proof {
            lemma_blended_bounds(self, base as int, over as int);
            assert(0 <= b * o <= 65_025 && 0 <= (255 - b) * (255 - o) <= 65_025)
                by (nonlinear_arith)
                requires
                    0 <= b <= 255,
                    0 <= o <= 255,
            ;
            if b < 128 {
                assert(2 * b * o == 2 * (b * o) && b * o <= 127 * 255) by (nonlinear_arith)
                    requires
                        0 <= b <= 127,
                        0 <= o <= 255,
                ;
            } else {
                assert(2 * (255 - b) * (255 - o) == 2 * ((255 - b) * (255 - o)) && (255 - b) * (
                255 - o) <= 127 * 255) by (nonlinear_arith)
                    requires
                        128 <= b <= 255,
                        0 <= o <= 255,
                ;
            }
        }
        match self {
            BlendMode::Normal => 255 * o,
            BlendMode::Difference => if b >= o {
                255 * (b - o)
            } else {
                255 * (o - b)
            },
            BlendMode::Multiply => b * o,
            BlendMode::Screen => 65_025 - (255 - b) * (255 - o),
            BlendMode::Overlay => if b < 128 {
                2 * (b * o)
            } else {
                65_025 - 2 * ((255 - b) * (255 - o))
            },
        }
    }
}

/// A blended sample, scaled by 255, lies in `0 ..= 255 * 255`.
pub proof fn lemma_blended_bounds(mode: BlendMode, base: int, over: int)
    requires
        0 <= base <= 255,
        0 <= over <= 255,
    ensures
        0 <= mode.blended(base, over) <= 65_025,
{
    assert(0 <= base * over <= 65_025 && 0 <= (255 - base) * (255 - over) <= 65_025)
        by (nonlinear_arith)
        requires
            0 <= base <= 255,
            0 <= over <= 255,
    ;
    if base < 128 {
        assert(0 <= 2 * base * over <= 2 * 127 * 255) by (nonlinear_arith)
            requires
                0 <= base <= 127,
                0 <= over <= 255,
        ;
    } else {
        assert(0 <= 2 * (255 - base) * (255 - over) <= 2 * 127 * 255) by (nonlinear_arith)
            requires
                128 <= base <= 255,
                0 <= over <= 255,
        ;
    }
}

/// The opacity mix of one channel, rounded down: `base * (1 - opacity) +
/// blended * opacity`, where `blended` is scaled by 255 and `opacity` is
/// counted in millionths.
pub open spec fn mixed(base: int, blended: int, opacity: int) -> int {
    (base * 255 * (OPAQUE - opacity) + blended * opacity) / (255 * OPAQUE)
}

/// The mix of two samples is a sample.
pub proof fn lemma_mixed_bounds(base: int, blended: int, opacity: int)
    requires
        0 <= base <= 255,
        0 <= blended <= 65_025,
        0 <= opacity <= OPAQUE,
    ensures
        0 <= base * 255 * (OPAQUE - opacity) + blended * opacity <= 65_025 * OPAQUE,
        0 <= mixed(base, blended, opacity) <= 255,
{
    let rest = OPAQUE - opacity;
    assert(255 * OPAQUE == 255_000_000);
    assert(0 <= base * 255 * rest <= 65_025 * rest) by (nonlinear_arith)
        requires
            0 <= base <= 255,
            0 <= rest,
    ;
    assert(0 <= blended * opacity <= 65_025 * opacity) by (nonlinear_arith)
        requires
            0 <= blended <= 65_025,
            0 <= opacity,
    ;
}

/// Computes [`mixed`].
pub fn mix(base: u8, blended: u32, opacity: i32) -> (sample: u8)
    requires
        blended <= SAMPLE_SQUARED,
        0 <= opacity <= OPAQUE,
    ensures
        sample == mixed(base as int, blended as int, opacity as int),
{
    proof {
        lemma_mixed_bounds(base as int, blended as int, opacity as int);
    }
    let rest: u64 = (OPAQUE - opacity) as u64;
    let kept: u64 = base as u64 * 255 * rest;
    let added: u64 = blended as u64 * opacity as u64;
    ((kept + added) / 255_000_000) as u8
}

/// The colour that blending `over` onto `base` gives: each of red, green and
/// blue is blended and mixed by the opacity; alpha is that of `base`.
pub open spec fn blend_color(mode: BlendMode, opacity: int, base: Color, over: Color) -> Color {
    Color {
        r: mixed(base.r as int, mode.blended(base.r as int, over.r as int), opacity) as u8,
        g: mixed(base.g as int, mode.blended(base.g as int, over.g as int), opacity) as u8,
        b: mixed(base.b as int, mode.blended(base.b as int, over.b as int), opacity) as u8,
        a: base.a,
    }
}

/// Computes [`blend_color`].
pub fn blend_pixel(mode: BlendMode, opacity: i32, base: Color, over: Color) -> (color: Color)
    requires
        0 <= opacity <= OPAQUE,
    ensures
        color == blend_color(mode, opacity as int, base, over),
{
    Color {
        r: mix(base.r, mode.blend_sample(base.r, over.r), opacity),
        g: mix(base.g, mode.blend_sample(base.g, over.g), opacity),
        b: mix(base.b, mode.blend_sample(base.b, over.b), opacity),
        a: base.a,
    }
}

/// At opacity zero the canvas colour is kept, whatever the mode and the overlay.
pub proof fn lemma_transparent_keeps_base(mode: BlendMode, base: Color, over: Color)
    ensures
        blend_color(mode, 0, base, over) == base,
{
    lemma_blended_bounds(mode, base.r as int, over.r as int);
    lemma_blended_bounds(mode, base.g as int, over.g as int);
    lemma_blended_bounds(mode, base.b as int, over.b as int);
    lemma_mixed_zero(base.r as int, mode.blended(base.r as int, over.r as int));
    lemma_mixed_zero(base.g as int, mode.blended(base.g as int, over.g as int));
    lemma_mixed_zero(base.b as int, mode.blended(base.b as int, over.b as int));
}

/// At opacity zero the mix is the canvas sample.
pub proof fn lemma_mixed_zero(base: int, blended: int)
    ensures
        mixed(base, blended, 0) == base,
{
    assert(255 * OPAQUE == 255_000_000);
    assert(blended * 0 == 0) by (nonlinear_arith);
    assert(base * 255 * (OPAQUE - 0) == base * 255_000_000) by (nonlinear_arith);
}

/// At full opacity the mix is the blended sample, rounded down.
pub proof fn lemma_mixed_full(base: int, blended: int)
    requires
        0 <= blended,
    ensures
        mixed(base, blended, OPAQUE as int) == blended / 255,
{
    assert(255 * OPAQUE == 255_000_000);
    assert(base * 255 * (OPAQUE - OPAQUE) == 0) by (nonlinear_arith);
    assert(blended * OPAQUE == blended * 1_000_000);
    assert((blended * 1_000_000) / 255_000_000 == blended / 255) by {
        vstd::arithmetic::div_mod::lemma_div_denominator(blended * 1_000_000, 1_000_000, 255);
        vstd::arithmetic::div_mod::lemma_div_multiples_vanish(blended, 1_000_000);
    }
}

/// In normal mode at full opacity the overlay's red, green and blue replace
/// the canvas's; the canvas keeps its alpha.
pub proof fn lemma_opaque_normal_takes_overlay(base: Color, over: Color)
    ensures
        blend_color(BlendMode::Normal, OPAQUE as int, base, over) == (Color {
            r: over.r,
            g: over.g,
            b: over.b,
            a: base.a,
        }),
{
    lemma_mixed_full(base.r as int, 255 * over.r);
    lemma_mixed_full(base.g as int, 255 * over.g);
    lemma_mixed_full(base.b as int, 255 * over.b);
}

/// The overlay, with its top-left corner at `(offset_x, offset_y)` of the
/// canvas, shares at least one pixel with the canvas.
pub open spec fn overlaps(base: ImageView, over: ImageView, offset_x: int, offset_y: int) -> bool {
    &&& 0 < base.width && 0 < over.width
    &&& 0 < base.height && 0 < over.height
    &&& -over.width < offset_x < base.width
    &&& -over.height < offset_y < base.height
}

/// `out` is the canvas `base` with `over` blended onto it at
/// `(offset_x, offset_y)`: where the overlay covers a pixel of the canvas,
/// the pixel is the blend of the two colours there; elsewhere it is the
/// canvas's.
pub open spec fn is_blend_of(
    out: ImageView,
    base: ImageView,
    over: ImageView,
    mode: BlendMode,
    opacity: int,
    offset_x: int,
    offset_y: int,
) -> bool {
    &&& out.width == base.width
    &&& out.height == base.height
    &&& forall|x: int, y: int|
        base.contains(x, y) ==> #[trigger] out.pixel(x, y) == (if over.contains(
            x - offset_x,
            y - offset_y,
        ) {
            blend_color(
                mode,
                clamped_opacity(opacity),
                base.pixel(x, y),
                over.pixel(x - offset_x, y - offset_y),
            )
        } else {
            base.pixel(x, y)
        })
}

/// The overlay and the canvas share a pixel exactly when [`overlaps`] holds.
pub proof fn lemma_overlaps_iff_shared_pixel(
    base: ImageView,
    over: ImageView,
    offset_x: int,
    offset_y: int,
)
    ensures
        overlaps(base, over, offset_x, offset_y) <==> exists|x: int, y: int|
            #![trigger base.contains(x, y)]
            base.contains(x, y) && over.contains(x - offset_x, y - offset_y),
{
    if overlaps(base, over, offset_x, offset_y) {
        let x = if offset_x > 0 { offset_x } else { 0 };
        let y = if offset_y > 0 { offset_y } else { 0 };
        assert(base.contains(x, y) && over.contains(x - offset_x, y - offset_y));
    }
}

/// Blending at an opacity of zero or less, in whatever mode, gives the
/// canvas back unchanged.
pub proof fn lemma_blend_transparent(
    out: ImageView,
    base: ImageView,
    over: ImageView,
    mode: BlendMode,
    opacity: int,
    offset_x: int,
    offset_y: int,
)
    requires
        out.wf(),
        base.wf(),
        opacity <= 0,
        is_blend_of(out, base, over, mode, opacity, offset_x, offset_y),
    ensures
        out == base,
{
    assert forall|x: int, y: int| out.contains(x, y) implies #[trigger] out.pixel(x, y)
        == base.pixel(x, y) by {
        assert(base.contains(x, y));
        lemma_transparent_keeps_base(
            mode,
            base.pixel(x, y),
            over.pixel(x - offset_x, y - offset_y),
        );
    }
    crate::image::lemma_same_pixels_same_image(out, base);
}

/// Blending in normal mode at full opacity or more, with the overlay wholly
/// on the canvas, puts the overlay's red, green and blue where the overlay
/// lies, keeps the canvas's alpha there, and leaves every other pixel of the
/// canvas as it was.
pub proof fn lemma_blend_opaque_normal(
    out: ImageView,
    base: ImageView,
    over: ImageView,
    opacity: int,
    offset_x: int,
    offset_y: int,
)
    requires
        opacity >= OPAQUE,
        0 <= offset_x,
        0 <= offset_y,
        offset_x + over.width <= base.width,
        offset_y + over.height <= base.height,
        is_blend_of(out, base, over, BlendMode::Normal, opacity, offset_x, offset_y),
    ensures
        out.width == base.width,
        out.height == base.height,
        forall|x: int, y: int|
            over.contains(x, y) ==> #[trigger] out.pixel(offset_x + x, offset_y + y) == (Color {
                r: over.pixel(x, y).r,
                g: over.pixel(x, y).g,
                b: over.pixel(x, y).b,
                a: base.pixel(offset_x + x, offset_y + y).a,
            }),
        forall|x: int, y: int|
            base.contains(x, y) && !over.contains(x - offset_x, y - offset_y)
                ==> #[trigger] out.pixel(x, y) == base.pixel(x, y),
{
    assert forall|x: int, y: int| over.contains(x, y) implies #[trigger] out.pixel(
        offset_x + x,
        offset_y + y,
    ) == (Color {
        r: over.pixel(x, y).r,
        g: over.pixel(x, y).g,
        b: over.pixel(x, y).b,
        a: base.pixel(offset_x + x, offset_y + y).a,
    }) by {
        let cx = offset_x + x;
        let cy = offset_y + y;
        assert(base.contains(cx, cy));
        assert(over.contains(cx - offset_x, cy - offset_y));
        lemma_opaque_normal_takes_overlay(base.pixel(cx, cy), over.pixel(x, y));
    }
}

/// Computes [`overlaps`].
pub fn overlap(base: &Image, over: &Image, offset_x: i64, offset_y: i64) -> (shared: bool)
    ensures
        shared == overlaps(base@, over@, offset_x as int, offset_y as int),
{
    let w1: i64 = base.width() as i64;
    let h1: i64 = base.height() as i64;
    let w2: i64 = over.width() as i64;
    let h2: i64 = over.height() as i64;
    0 < w1 && 0 < w2 && 0 < h1 && 0 < h2 && -w2 < offset_x && offset_x < w1 && -h2 < offset_y
        && offset_y < h1
}

/// Blends `over` onto a copy of `base`, with the overlay's top-left corner
/// at `(offset_x, offset_y)` of the canvas.  Fails with `OutOfBounds` where
/// the two share no pixel.
pub fn composite(
    base: &Image,
    over: &Image,
    mode: BlendMode,
    opacity: i32,
    offset_x: i64,
    offset_y: i64,
) -> (r: Result<Image, Error>)
    requires
        base@.wf(),
        over@.wf(),
    ensures
        match r {
            Ok(out) => {
                &&& overlaps(base@, over@, offset_x as int, offset_y as int)
                &&& out@.wf()
                &&& is_blend_of(
                    out@,
                    base@,
                    over@,
                    mode,
                    opacity as int,
                    offset_x as int,
                    offset_y as int,
                )
            },
            Err(e) => e == Error::OutOfBounds && !overlaps(
                base@,
                over@,
                offset_x as int,
                offset_y as int,
            ),
        },
{
    let w1: i64 = base.width() as i64;
    let h1: i64 = base.height() as i64;
    let w2: i64 = over.width() as i64;
    let h2: i64 = over.height() as i64;
    if !overlap(base, over, offset_x, offset_y) {
        return Err(Error::OutOfBounds);
    }
    // The part of the overlay that lies on the canvas, in the overlay's own coordinates.

    let start_x: i32 = if offset_x < 0 { (-offset_x) as i32 } else { 0 };
    let end_x: i32 = if offset_x + w2 > w1 { (w1 - offset_x) as i32 } else { w2 as i32 };
    let start_y: i32 = if offset_y < 0 { (-offset_y) as i32 } else { 0 };
    let end_y: i32 = if offset_y + h2 > h1 { (h1 - offset_y) as i32 } else { h2 as i32 };
    let alpha: i32 = clamp_opacity(opacity);
    let mut out = base.duplicate();
    let mut y: i32 = start_y;
    while y < end_y
        invariant
            base@.wf(),
            over@.wf(),
            out@.wf(),
            out@.width == base@.width,
            out@.height == base@.height,
            0 <= start_x <= end_x <= over@.width,
            0 <= start_y <= y <= end_y <= over@.height,
            start_x == (if offset_x < 0 { -offset_x } else { 0 }),
            start_y == (if offset_y < 0 { -offset_y } else { 0 }),
            end_x == (if offset_x + over@.width > base@.width { base@.width - offset_x } else { over@.width }),
            end_y == (if offset_y + over@.height > base@.height { base@.height - offset_y } else { over@.height }),
            alpha == clamped_opacity(opacity as int),
            forall|cx: int, cy: int|
                base@.contains(cx, cy) ==> #[trigger] out@.pixel(cx, cy) == (if over@.contains(
                    cx - offset_x,
                    cy - offset_y,
                ) && cy - offset_y < y {
                    blend_color(
                        mode,
                        alpha as int,
                        base@.pixel(cx, cy),
                        over@.pixel(cx - offset_x, cy - offset_y),
                    )
                } else {
                    base@.pixel(cx, cy)
                }),
        decreases end_y - y,
    {
        let mut x: i32 = start_x;
        while x < end_x
            invariant
                base@.wf(),
                over@.wf(),
                out@.wf(),
                out@.width == base@.width,
                out@.height == base@.height,
                0 <= start_x <= x <= end_x <= over@.width,
                0 <= start_y <= y < end_y <= over@.height,
                start_x == (if offset_x < 0 { -offset_x } else { 0 }),
                start_y == (if offset_y < 0 { -offset_y } else { 0 }),
                end_x == (if offset_x + over@.width > base@.width { base@.width - offset_x } else { over@.width }),
                end_y == (if offset_y + over@.height > base@.height { base@.height - offset_y } else { over@.height }),
                alpha == clamped_opacity(opacity as int),
                forall|cx: int, cy: int|
                    base@.contains(cx, cy) ==> #[trigger] out@.pixel(cx, cy) == (if over@.contains(
                        cx - offset_x,
                        cy - offset_y,
                    ) && (cy - offset_y < y || (cy - offset_y == y && cx - offset_x < x)) {
                        blend_color(
                            mode,
                            alpha as int,
                            base@.pixel(cx, cy),
                            over@.pixel(cx - offset_x, cy - offset_y),
                        )
                    } else {
                        base@.pixel(cx, cy)
                    }),
            decreases end_x - x,
        {
            let canvas_x: i32 = (x as i64 + offset_x) as i32;
            let canvas_y: i32 = (y as i64 + offset_y) as i32;
            let below = base.pixel_at(canvas_x, canvas_y);
            let above = over.pixel_at(x, y);
            out.put_pixel(canvas_x, canvas_y, blend_pixel(mode, alpha, below, above));
            x += 1;
        }
        y += 1;
    }
    Ok(out)
}

} // verus!
