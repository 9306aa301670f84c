//! Display-size computation: maps an intrinsic image size and a configured
//! layout width to the size at which the image is shown, and classifies
//! images with aspect ratio at least 2:1 as "wide".
//!
//! Sizes are exact rationals (numerator, denominator); rounding is to the
//! nearest integer, halves up, floored at one, saturated at `u32::MAX`.

use vstd::prelude::*;

verus! {

/// `p / q` rounded to the nearest integer, halves rounded up.
pub open spec fn rat_round(p: int, q: int) -> int {
    (2 * p + q) / (2 * q)
}

/// Clamps into `1 ..= u32::MAX`.
pub open spec fn clamp_dim(x: int) -> int {
    if x < 1 {
        1
    } else if x > u32::MAX {
        u32::MAX as int
    } else {
        x
    }
}

/// The display size for an image of exact rational size
/// `(wn/wd) x (hn/hd)` under layout width `l`: (width, height, wide).
///
/// Portrait images are capped by height at the layout width; landscape
/// images are capped by width at the layout width; images at least twice
/// as wide as tall are "wide" and are allowed up to twice the layout width.
pub open spec fn spec_display_q(wn: int, wd: int, hn: int, hd: int, l: int) -> (int, int, bool) {
    if wn * hd < hn * wd {
        // Portrait: cap the height at min(layout, height).
        let mp = if hn <= l * hd { hn } else { l };
        let mq = if hn <= l * hd { hd } else { 1 };
        let height = clamp_dim(rat_round(mp, mq));
        let width = clamp_dim(rat_round(mp * wn * hd, mq * wd * hn));
        (width, height, false)
    } else if wn * hd >= 2 * hn * wd {
        // Wide: cap the width at min(width, 2 * layout).
        let mp = if wn <= 2 * l * wd { wn } else { 2 * l };
        let mq = if wn <= 2 * l * wd { wd } else { 1 };
        let width = clamp_dim(rat_round(mp, mq));
        let height = clamp_dim(rat_round(mp * hn * wd, mq * hd * wn));
        (width, height, true)
    } else {
        // Landscape: cap the width at min(layout, width).
        let mp = if wn <= l * wd { wn } else { l };
        let mq = if wn <= l * wd { wd } else { 1 };
        let width = clamp_dim(rat_round(mp, mq));
        let height = clamp_dim(rat_round(mp * hn * wd, mq * hd * wn));
        (width, height, false)
    }
}

/// The display size for integer pixel dimensions, degenerate inputs
/// replaced by the layout width, the layout width itself floored at one.
pub open spec fn spec_display_dimensions(w: int, h: int, l: int) -> (int, int, bool) {
    let layout = if l < 1 { 1 } else { l };
    let w0 = if w > 0 { w } else { layout };
    let h0 = if h > 0 { h } else { layout };
    spec_display_q(w0, 1, h0, 1, layout)
}

/// Bound on numerators accepted by the exec computation.
pub open spec fn num_bound() -> int {
    0x1000_0000_0000
}

/// Bound on denominators accepted by the exec computation.
pub open spec fn den_bound() -> int {
    0x10_0000
}

/// Rounds `p / q` to the nearest integer (halves up), clamped into
/// `1 ..= u32::MAX`.
fn round_clamped(p: u128, q: u128) -> (r: u32)
    requires
        1 <= q,
        p <= 0x1_0000_0000_0000_0000_0000_0000_0000,  // 2^112
        q <= 0x1_0000_0000_0000_0000_0000_0000_0000,
    ensures
        r == clamp_dim(rat_round(p as int, q as int)),
{
    let v: u128 = (2 * p + q) / (2 * q);
    if v < 1 {
        1
    } else if v > 0xffff_ffff {
        0xffff_ffff
    } else {
        v as u32
    }
}

/// Display size for an exact rational intrinsic size; see `spec_display_q`.
pub fn display_dimensions_q(wn: u64, wd: u64, hn: u64, hd: u64, layout: u32) -> (r: (
    u32,
    u32,
    bool,
))
    requires
        1 <= wn < num_bound(),
        1 <= hn < num_bound(),
        1 <= wd < den_bound(),
        1 <= hd < den_bound(),
        1 <= layout,
    ensures
        (r.0 as int, r.1 as int, r.2) == spec_display_q(
            wn as int,
            wd as int,
            hn as int,
            hd as int,
            layout as int,
        ),
        r.0 >= 1,
        r.1 >= 1,
{
    let wn = wn as u128;
    let wd = wd as u128;
    let hn = hn as u128;
    let hd = hd as u128;
    let l = layout as u128;
    assert(wn * hd < 0x1000_0000_0000 * 0x10_0000 && hn * wd < 0x1000_0000_0000 * 0x10_0000
        && l * hd <= 0x1_0000_0000 * 0x10_0000 && l * wd <= 0x1_0000_0000 * 0x10_0000 && 2 * hn * wd
        < 0x2000_0000_0000 * 0x10_0000 && 2 * l * wd <= 0x2_0000_0000 * 0x10_0000)
        by (nonlinear_arith)
        requires
            1 <= wn < 0x1000_0000_0000,
            1 <= hn < 0x1000_0000_0000,
            1 <= wd < 0x10_0000,
            1 <= hd < 0x10_0000,
            1 <= l <= 0x1_0000_0000,
    ;
    if wn * hd < hn * wd {
        let (mp, mq): (u128, u128) = if hn <= l * hd { (hn, hd) } else { (l, 1) };
        assert(mp <= 0x1_0000_0000_0000 && mq <= 0x10_0000);
        let height = round_clamped(mp, mq);
        let p1: u128 = prod3(mp, wn, hd);
        let q1: u128 = prod3(mq, hn, wd);
        assert(q1 >= 1 && q1 == mq * wd * hn) by (nonlinear_arith)
            requires
                mq >= 1 && wd >= 1 && hn >= 1 && q1 == mq * hn * wd,
        ;
        let width = round_clamped(p1, q1);
        (width, height, false)
    } else if wn * hd >= 2 * hn * wd {
        let cap: u128 = 2 * l;
        let (mp, mq): (u128, u128) = if wn <= cap * wd { (wn, wd) } else { (cap, 1) };
        assert(mp <= 0x1_0000_0000_0000 && mq <= 0x10_0000);
        let width = round_clamped(mp, mq);
        let p1: u128 = prod3(mp, hn, wd);
        let q1: u128 = prod3(mq, wn, hd);
        assert(q1 >= 1 && q1 == mq * hd * wn) by (nonlinear_arith)
            requires
                mq >= 1 && hd >= 1 && wn >= 1 && q1 == mq * wn * hd,
        ;
        let height = round_clamped(p1, q1);
        (width, height, true)
    } else {
        let (mp, mq): (u128, u128) = if wn <= l * wd { (wn, wd) } else { (l, 1) };
        assert(mp <= 0x1_0000_0000_0000 && mq <= 0x10_0000);
        let width = round_clamped(mp, mq);
        let p1: u128 = prod3(mp, hn, wd);
        let q1: u128 = prod3(mq, wn, hd);
        assert(q1 >= 1 && q1 == mq * hd * wn) by (nonlinear_arith)
            requires
                mq >= 1 && hd >= 1 && wn >= 1 && q1 == mq * wn * hd,
        ;
        let height = round_clamped(p1, q1);
        (width, height, false)
    }
}

/// The product of three bounded factors.
fn prod3(a: u128, b: u128, c: u128) -> (r: u128)
    requires
        a <= 0x1_0000_0000_0000,
        b <= 0x1000_0000_0000,
        c <= 0x10_0000,
    ensures
        r == a * b * c,
        r <= 0x1_0000_0000_0000_0000_0000_0000_0000,
{
    assert(a * b <= 0x1_0000_0000_0000 * 0x1000_0000_0000) by (nonlinear_arith)
        requires
            a <= 0x1_0000_0000_0000 && b <= 0x1000_0000_0000,
    ;
    let ab = a * b;
    assert(ab * c <= 0x1000_0000_0000_0000_0000_0000 * 0x10_0000) by (nonlinear_arith)
        requires
            ab <= 0x1000_0000_0000_0000_0000_0000 && c <= 0x10_0000,
    ;
    ab * c
}

/// The display size and "wide" flag for integer pixel dimensions.
///
/// For positive inputs the result width and height are at least one, and
/// the image is classified wide exactly when its width is at least twice
/// its height.
pub fn compute_display_dimensions(width: u32, height: u32, layout_width: u32) -> (r: (
    u32,
    u32,
    bool,
))
    ensures
        (r.0 as int, r.1 as int, r.2) == spec_display_dimensions(
            width as int,
            height as int,
            layout_width as int,
        ),
        r.0 >= 1,
        r.1 >= 1,
        width > 0 && height > 0 && layout_width > 0 ==> (r.2 <==> (width as int) >= 2 * (
        height as int)),
{
    let layout: u32 = if layout_width < 1 {
        1
    } else {
        layout_width
    };
    let w0: u32 = if width > 0 {
        width
    } else {
        layout
    };
    let h0: u32 = if height > 0 {
        height
    } else {
        layout
    };
    display_dimensions_q(w0 as u64, 1, h0 as u64, 1, layout)
}

} // verus!
