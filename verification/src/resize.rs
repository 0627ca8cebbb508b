//! Downscale-only fit to a box.
//!
//! The device downscales with nearest-neighbor and never upscales, so every
//! image is fitted to the reading area beforehand with a good filter
//! (Lanczos3), keeping its aspect ratio; an image that already fits is
//! left as it is.

use vstd::prelude::*;

use crate::canvas::{area, lanczos3, Canvas, GrayImage};

verus! {

/// `a / b` rounded to the nearest integer, halves up.
pub open spec fn round_div(a: int, b: int) -> int {
    (2 * a + b) / (2 * b)
}

/// `x` clamped to `1..=hi`.
pub open spec fn clamp_to(x: int, hi: int) -> int {
    if x < 1 {
        1
    } else if x > hi {
        hi
    } else {
        x
    }
}

/// The dimensions `fit` produces: unchanged when the image is empty or
/// already fits; otherwise scaled by the smaller of the two box ratios
/// (the binding side lands exactly on the box), rounded to the nearest
/// pixel and kept within `1..=max`.
pub open spec fn fit_dims(w: u32, h: u32, max_w: u32, max_h: u32) -> (int, int) {
    if w == 0 || h == 0 || (w <= max_w && h <= max_h) {
        (w as int, h as int)
    } else if max_w * h <= max_h * w {
        (max_w as int, clamp_to(round_div(h * max_w, w as int), max_h as int))
    } else {
        (clamp_to(round_div(w * max_h, h as int), max_w as int), max_h as int)
    }
}

/// `a * b / c` rounded, halves up.
pub fn scaled(a: u32, b: u32, c: u32) -> (r: u64)
    requires
        c > 0,
    ensures
        r == round_div(a * b, c as int),
{
    proof {
        vstd::arithmetic::mul::lemma_mul_upper_bound(a as int, u32::MAX as int, b as int, u32::MAX as int);
    }
    let p: u128 = area(a, b) as u128;
    let num: u128 = 2 * p + (c as u128);
    let den: u128 = 2 * (c as u128);
    proof {
        assert(num / den <= num) by (nonlinear_arith)
            requires
                den >= 2,
                num >= 0,
        ;
        assert(num / den <= u64::MAX) by (nonlinear_arith)
            requires
                den == 2 * c,
                c >= 1,
                num == 2 * (a * b) + c,
                a * b <= u32::MAX * u32::MAX,
                c <= u32::MAX,
        ;
    }
    (num / den) as u64
}

/// `x` clamped to `1..=hi`.
fn clamp_u32(x: u64, hi: u32) -> (r: u32)
    requires
        hi >= 1,
    ensures
        r == clamp_to(x as int, hi as int),
{
    if x < 1 {
        1
    } else if x > hi as u64 {
        hi
    } else {
        x as u32
    }
}

/// Fit `gray` inside `max_w` x `max_h`, keeping its aspect ratio and
/// downscaling with Lanczos3; a copy when it already fits (never
/// upscales).
pub fn fit(gray: &GrayImage, max_w: u32, max_h: u32) -> (r: GrayImage)
    requires
        (gray@.0 == 0 || gray@.1 == 0 || (gray@.0 <= max_w && gray@.1 <= max_h)) || (max_w >= 1
            && max_h >= 1),
        4 * (gray@.0 * max_h) <= usize::MAX,
        4 * (max_w * max_h) <= usize::MAX,
    ensures
        (r@.0 as int, r@.1 as int) == fit_dims(gray@.0, gray@.1, max_w, max_h),
        (gray@.0 == 0 || gray@.1 == 0 || (gray@.0 <= max_w && gray@.1 <= max_h)) ==> r@ == gray@,
        !(gray@.0 == 0 || gray@.1 == 0 || (gray@.0 <= max_w && gray@.1 <= max_h)) ==> r@.2
            == lanczos3(gray@.0, gray@.1, gray@.2, 1, r@.0, r@.1),
{
    let (w, h) = gray.dimensions();
    if w == 0 || h == 0 || (w <= max_w && h <= max_h) {
        return gray.copy();
    }
    let (nw, nh) = shrunk_dims(w, h, max_w, max_h);
    gray.resize(nw, nh)
}

/// The dimensions an image that overflows the box is resampled to.
fn shrunk_dims(w: u32, h: u32, max_w: u32, max_h: u32) -> (r: (u32, u32))
    requires
        w >= 1,
        h >= 1,
        max_w >= 1,
        max_h >= 1,
        !(w <= max_w && h <= max_h),
    ensures
        (r.0 as int, r.1 as int) == fit_dims(w, h, max_w, max_h),
        1 <= r.0 <= max_w,
        1 <= r.1 <= max_h,
        w * r.1 <= w * max_h,
        r.0 * r.1 <= max_w * max_h,
{
    let (nw, nh) = if area(max_w, h) <= area(max_h, w) {
        (max_w, clamp_u32(scaled(h, max_w, w), max_h))
    } else {
        (clamp_u32(scaled(w, max_h, h), max_w), max_h)
    };
    assert(w * nh <= w * max_h) by (nonlinear_arith)
        requires
            nh <= max_h,
    ;
    assert(nw * nh <= max_w * max_h) by (nonlinear_arith)
        requires
            nw <= max_w,
            nh <= max_h,
    ;
    (nw, nh)
}

/// The dimensions `fit` gives a `w` x `h` image for a `max_w` x `max_h`
/// box, without resampling anything.
pub fn fitted_size(w: u32, h: u32, max_w: u32, max_h: u32) -> (r: (u32, u32))
    requires
        (w == 0 || h == 0 || (w <= max_w && h <= max_h)) || (max_w >= 1 && max_h >= 1),
    ensures
        (r.0 as int, r.1 as int) == fit_dims(w, h, max_w, max_h),
{
    if w == 0 || h == 0 || (w <= max_w && h <= max_h) {
        (w, h)
    } else {
        shrunk_dims(w, h, max_w, max_h)
    }
}

/// Fit an image inside `max_w` x `max_h` in its own color space, as `fit`
/// does for grayscale.
pub fn fit_canvas(canvas: &Canvas, max_w: u32, max_h: u32) -> (r: Canvas)
    requires
        ({
            let (w, h, _, _) = canvas.raster();
            (w == 0 || h == 0 || (w <= max_w && h <= max_h)) || (max_w >= 1 && max_h >= 1)
        }),
        4 * (canvas.raster().0 * max_h) <= usize::MAX,
        4 * (max_w * max_h) <= usize::MAX,
    ensures
        ({
            let (w, h, px, ch) = canvas.raster();
            &&& (r.raster().0 as int, r.raster().1 as int) == fit_dims(w, h, max_w, max_h)
            &&& r.raster().3 == ch
            &&& (w == 0 || h == 0 || (w <= max_w && h <= max_h)) ==> r.raster() == canvas.raster()
            &&& !(w == 0 || h == 0 || (w <= max_w && h <= max_h)) ==> r.raster().2 == lanczos3(
                w,
                h,
                px,
                ch,
                r.raster().0,
                r.raster().1,
            )
        }),
{
    let (w, h) = canvas.dimensions();
    if w == 0 || h == 0 || (w <= max_w && h <= max_h) {
        return canvas.copy();
    }
    let (nw, nh) = shrunk_dims(w, h, max_w, max_h);
    canvas.resize(nw, nh)
}


/// Fitting never upscales, and a non-empty image lands inside the box.
pub proof fn law_fit_never_upscales(w: u32, h: u32, max_w: u32, max_h: u32)
    requires
        max_w >= 1,
        max_h >= 1,
    ensures
        fit_dims(w, h, max_w, max_h).0 <= w,
        fit_dims(w, h, max_w, max_h).1 <= h,
        w > 0 && h > 0 ==> {
            &&& 1 <= fit_dims(w, h, max_w, max_h).0 <= max_w
            &&& 1 <= fit_dims(w, h, max_w, max_h).1 <= max_h
        },
{
    if w == 0 || h == 0 || (w <= max_w && h <= max_h) {
    } else if max_w * h <= max_h * w {
        // The width binds, so it is the side that overflows the box.
        if w <= max_w {
            assert(max_w * h > max_h * w) by (nonlinear_arith)
                requires
                    w <= max_w,
                    h > max_h,
                    w >= 1,
            ;
        }
        assert(w > max_w);
        let x = round_div(h * max_w, w as int);
        assert(x <= h) by (nonlinear_arith)
            requires
                x == (2 * (h * max_w) + w) / (2 * w),
                max_w < w,
                h >= 1,
        ;
    } else {
        if h <= max_h {
            assert(max_w * h <= max_h * w) by (nonlinear_arith)
                requires
                    h <= max_h,
                    w > max_w,
                    h >= 1,
            ;
        }
        assert(h > max_h);
        let x = round_div(w * max_h, h as int);
        assert(x <= w) by (nonlinear_arith)
            requires
                x == (2 * (w * max_h) + h) / (2 * h),
                max_h < h,
                w >= 1,
        ;
    }
}

} // verus!
