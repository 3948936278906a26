//! Scaling a length by the ratio of two image dimensions, in whole pixels.

use vstd::prelude::*;

verus! {

/// `v` brought into the range of `i32`.
pub open spec fn saturated(v: int) -> int {
    if v > i32::MAX {
        i32::MAX as int
    } else if v < i32::MIN {
        i32::MIN as int
    } else {
        v
    }
}

/// `num / den` rounded toward zero, for a positive `den`.
pub open spec fn ratio_trunc(num: int, den: int) -> int
    recommends
        den > 0,
{
    if num >= 0 {
        num / den
    } else {
        -((-num) / den)
    }
}

/// `num / den` rounded to the nearest whole number, halves away from zero,
/// for a positive `den`.
pub open spec fn ratio_round(num: int, den: int) -> int
    recommends
        den > 0,
{
    if num >= 0 {
        (2 * num + den) / (2 * den)
    } else {
        -((2 * (-num) + den) / (2 * den))
    }
}

/// What a division by zero stands for: the largest or smallest `i32` by the
/// sign of the numerator, and zero for zero by zero.
pub open spec fn unbounded(num: int) -> int {
    if num > 0 {
        i32::MAX as int
    } else if num < 0 {
        i32::MIN as int
    } else {
        0
    }
}

/// `length * num / den` rounded toward zero and brought into the range of `i32`.
pub open spec fn scaled_trunc(length: int, num: int, den: int) -> int
    recommends
        0 <= num,
        0 <= den,
{
    if den == 0 {
        unbounded(length * num)
    } else {
        saturated(ratio_trunc(length * num, den))
    }
}

/// `length * num / den` rounded to the nearest whole number, halves away from
/// zero, and brought into the range of `i32`.
pub open spec fn scaled_round(length: int, num: int, den: int) -> int
    recommends
        0 <= num,
        0 <= den,
{
    if den == 0 {
        unbounded(length * num)
    } else {
        saturated(ratio_round(length * num, den))
    }
}

/// The size of `length * num`, and that it fits well inside a `u64`.
fn magnitude(length: i32, num: i32) -> (m: u64)
    requires
        0 <= num,
    ensures
        length >= 0 ==> m == length * num,
        length < 0 ==> m == -(length * num),
        m <= 0x4000_0000_0000_0000,
        (m == 0) == (length * num == 0),
{
    let size: u64 = if length >= 0 { length as u64 } else { (-(length as i64)) as u64 };
    assert(size * num <= 0x8000_0000 * 0x7fff_ffff && (-size) * num == -(size * num) && ((size
        * num == 0) == (size == 0 || num == 0))) by (nonlinear_arith)
        requires
            0 <= size <= 0x8000_0000,
            0 <= num <= 0x7fff_ffff,
    ;
    size * (num as u64)
}

/// A quotient of magnitudes given its sign again and brought into `i32`.
fn signed(negative: bool, q: u64) -> (v: i32)
    ensures
        v == saturated(if negative { -(q as int) } else { q as int }),
{
    if negative {
        if q > 0x8000_0000 {
            i32::MIN
        } else {
            (-(q as i64)) as i32
        }
    } else {
        if q > 0x7fff_ffff {
            i32::MAX
        } else {
            q as i32
        }
    }
}

/// What [`unbounded`] is for a numerator of the given sign and magnitude.
fn unbounded_of(negative: bool, m: u64) -> (v: i32)
    ensures
        v == unbounded(if negative { -(m as int) } else { m as int }),
{
    if m == 0 {
        0
    } else if negative {
        i32::MIN
    } else {
        i32::MAX
    }
}

/// Computes [`scaled_trunc`].
pub fn scale_trunc(length: i32, num: i32, den: i32) -> (v: i32)
    requires
        0 <= num,
        0 <= den,
    ensures
        v == scaled_trunc(length as int, num as int, den as int),
{
    let m = magnitude(length, num);
    if den == 0 {
        unbounded_of(length < 0, m)
    } else {
        signed(length < 0, m / (den as u64))
    }
}

/// Computes [`scaled_round`].
pub fn scale_round(length: i32, num: i32, den: i32) -> (v: i32)
    requires
        0 <= num,
        0 <= den,
    ensures
        v == scaled_round(length as int, num as int, den as int),
{
    let m = magnitude(length, num);
    if den == 0 {
        unbounded_of(length < 0, m)
    } else {
        let twice: u64 = 2 * m + den as u64;
        let q: u64 = twice / (2 * (den as u64));
        proof {
            let product = length as int * num as int;
            if length < 0 {
                assert(twice as int == 2 * (-product) + den);
                if product == 0 {
                    assert((0 + den as int) / (2 * den as int) == 0) by (nonlinear_arith)
                        requires
                            den > 0,
                    ;
                }
            } else {
                assert(twice as int == 2 * product + den);
            }
        }
        signed(length < 0, q)
    }
}

/// Nothing, scaled, is nothing.
pub proof fn lemma_ratio_round_zero(den: int)
    requires
        0 < den,
    ensures
        ratio_round(0, den) == 0,
{
    assert((2 * 0 + den) / (2 * den) == 0) by (nonlinear_arith)
        requires
            0 < den,
    ;
}

/// A rounded quotient is within half a unit of the true one.
pub proof fn lemma_ratio_round_is_near(num: int, den: int)
    requires
        0 <= num,
        0 < den,
    ensures
        0 <= ratio_round(num, den),
        -den < 2 * ratio_round(num, den) * den - 2 * num <= den,
{
    let q = (2 * num + den) / (2 * den);
    assert(0 <= q && 2 * num + den - 2 * den < q * (2 * den) <= 2 * num + den
        && q * (2 * den) == 2 * q * den) by (nonlinear_arith)
        requires
            q == (2 * num + den) / (2 * den),
            0 <= num,
            0 < den,
    ;
}

/// Where scaling by the width overshoots a bound on the height, scaling by
/// the height stays within the bound on the width: with `a = w * src_h` and
/// `b = h * src_w`, if `a / src_w` rounds to more than `h`, then `b / src_h`
/// rounds to at most `w`.
pub proof fn lemma_round_other_way_fits(w: int, h: int, src_w: int, src_h: int)
    requires
        0 <= w,
        0 <= h,
        0 < src_w,
        0 < src_h,
        ratio_round(w * src_h, src_w) > h,
    ensures
        0 <= ratio_round(h * src_w, src_h) <= w,
{
    let a = w * src_h;
    let b = h * src_w;
    assert(0 <= a && 0 <= b) by (nonlinear_arith)
        requires
            a == w * src_h,
            b == h * src_w,
            0 <= w,
            0 <= h,
            0 < src_w,
            0 < src_h,
    ;
    lemma_ratio_round_is_near(a, src_w);
    lemma_ratio_round_is_near(b, src_h);
    let q1 = ratio_round(a, src_w);
    let q2 = ratio_round(b, src_h);
    // q1 >= h + 1 gives 2a >= 2b + src_w, so a > b.
    assert(2 * q1 * src_w >= 2 * (h + 1) * src_w && 2 * (h + 1) * src_w == 2 * b + 2 * src_w)
        by (nonlinear_arith)
        requires
            q1 >= h + 1,
            0 < src_w,
            b == h * src_w,
    ;
    assert(a > b);
    // q2 <= w: otherwise 2 * q2 * src_h >= 2a + 2 * src_h > 2b + src_h.
    if q2 > w {
        assert(2 * q2 * src_h >= 2 * (w + 1) * src_h && 2 * (w + 1) * src_h == 2 * a + 2 * src_h)
            by (nonlinear_arith)
            requires
                q2 >= w + 1,
                0 < src_h,
                a == w * src_h,
        ;
        assert(false);
    }
}

} // verus!
