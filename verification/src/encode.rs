//! Encoding a grayscale image the device can decode: a baseline JPEG
//! (photos) or an 8-bit grayscale PNG (line art), and the byte-budget loop
//! that steps quality and then dimensions down until an image fits.
//!
//! The device only decodes baseline JPEG (progressive JPEG degrades to a
//! blur) and 8-bit PNG, so JPEGs go through `jpeg-encoder`, which only ever
//! writes baseline (SOF0) data.

use image::codecs::png::{CompressionType, FilterType, PngEncoder};
use image::{ExtendedColorType, ImageEncoder};
use jpeg_encoder::{ColorType, Encoder};
use vstd::prelude::*;

use crate::canvas::{lanczos3, Canvas, GrayImage, Rgb};
use crate::report::{warning_view, Warning};
use crate::text::{chars_of, decimal, push_all, push_decimal, push_str, string_of};

verus! {

/// Lowest JPEG quality the budget loop drops to.
pub const QUALITY_FLOOR: u8 = 40;

/// Step by which the budget loop lowers JPEG quality.
pub const QUALITY_STEP: u8 = 6;

/// The baseline JPEG `jpeg-encoder` writes at `quality` for `width` x
/// `height` pixels of `channels` bytes each: one (luma) or three (RGB).
pub uninterp spec fn baseline_jpeg(
    pixels: Seq<u8>,
    width: u32,
    height: u32,
    channels: u8,
    quality: u8,
) -> Seq<u8>;

/// The 8-bit PNG `image` writes at its best compression with adaptive
/// filtering for `width` x `height` pixels of `channels` bytes each: one
/// (luma) or three (RGB).
pub uninterp spec fn best_png(pixels: Seq<u8>, width: u32, height: u32, channels: u8) -> Seq<u8>;

/// Wraps `jpeg_encoder::Encoder::encode` (single luma component): the
/// baseline JPEG of the raster at `quality`.
#[verifier::external_body]
fn jpeg_bytes(gray: &GrayImage, quality: u8) -> (r: Vec<u8>)
    requires
        1 <= gray@.0 <= 65535,
        1 <= gray@.1 <= 65535,
    ensures
        r@ == baseline_jpeg(gray@.2, gray@.0, gray@.1, 1, quality),
{
    let (w, h) = gray.dimensions();
    let mut out = Vec::new();
    Encoder::new(&mut out, quality)
        .encode(gray.as_raw(), w as u16, h as u16, ColorType::Luma)
        .expect("baseline grayscale JPEG encode of an in-memory buffer");
    out
}

/// Wraps `jpeg_encoder::Encoder::encode` (RGB): the baseline JPEG of the
/// raster at `quality`.
#[verifier::external_body]
fn jpeg_rgb_bytes(rgb: &Rgb, quality: u8) -> (r: Vec<u8>)
    requires
        1 <= rgb@.0 <= 65535,
        1 <= rgb@.1 <= 65535,
    ensures
        r@ == baseline_jpeg(rgb@.2, rgb@.0, rgb@.1, 3, quality),
{
    let (w, h) = rgb.dimensions();
    let mut out = Vec::new();
    Encoder::new(&mut out, quality)
        .encode(rgb.as_raw(), w as u16, h as u16, ColorType::Rgb)
        .expect("baseline RGB JPEG encode of an in-memory buffer");
    out
}

/// Wraps `PngEncoder::write_image` (best compression, adaptive filter,
/// 8-bit luma): the PNG of the raster.
#[verifier::external_body]
fn png_bytes(gray: &GrayImage) -> (r: Vec<u8>)
    requires
        gray@.0 >= 1,
        gray@.1 >= 1,
    ensures
        r@ == best_png(gray@.2, gray@.0, gray@.1, 1),
{
    let (w, h) = gray.dimensions();
    let mut out = Vec::new();
    PngEncoder::new_with_quality(&mut out, CompressionType::Best, FilterType::Adaptive)
        .write_image(gray.as_raw(), w, h, ExtendedColorType::L8)
        .expect("grayscale PNG encode of an in-memory buffer");
    out
}

/// Wraps `PngEncoder::write_image` (best compression, adaptive filter,
/// 8-bit RGB): the PNG of the raster.
#[verifier::external_body]
fn png_rgb_bytes(rgb: &Rgb) -> (r: Vec<u8>)
    requires
        rgb@.0 >= 1,
        rgb@.1 >= 1,
    ensures
        r@ == best_png(rgb@.2, rgb@.0, rgb@.1, 3),
{
    let (w, h) = rgb.dimensions();
    let mut out = Vec::new();
    PngEncoder::new_with_quality(&mut out, CompressionType::Best, FilterType::Adaptive)
        .write_image(rgb.as_raw(), w, h, ExtendedColorType::Rgb8)
        .expect("RGB PNG encode of an in-memory buffer");
    out
}

/// Encode a grayscale image as a baseline JPEG with a single luma
/// component at `quality`.
pub fn encode_jpeg(gray: &GrayImage, quality: u8) -> (r: Vec<u8>)
    requires
        1 <= gray@.0 <= 65535,
        1 <= gray@.1 <= 65535,
    ensures
        r@ == baseline_jpeg(gray@.2, gray@.0, gray@.1, 1, quality),
{
    jpeg_bytes(gray, quality)
}

/// Encode a grayscale image as an 8-bit grayscale PNG at the smallest
/// setting, for line art the device renders crisply.
pub fn encode_png(gray: &GrayImage) -> (r: Vec<u8>)
    requires
        gray@.0 >= 1,
        gray@.1 >= 1,
    ensures
        r@ == best_png(gray@.2, gray@.0, gray@.1, 1),
{
    png_bytes(gray)
}

/// Encode an image as a baseline JPEG at `quality`, in its own color
/// space.
pub fn encode_canvas_jpeg(canvas: &Canvas, quality: u8) -> (r: Vec<u8>)
    requires
        1 <= canvas.raster().0 <= 65535,
        1 <= canvas.raster().1 <= 65535,
    ensures
        ({
            let (w, h, px, ch) = canvas.raster();
            r@ == baseline_jpeg(px, w, h, ch, quality)
        }),
{
    match canvas {
        Canvas::Gray(g) => jpeg_bytes(g, quality),
        Canvas::Rgb(c) => jpeg_rgb_bytes(c, quality),
    }
}

/// Encode an image as an 8-bit PNG at the smallest setting, in its own
/// color space.
pub fn encode_canvas_png(canvas: &Canvas) -> (r: Vec<u8>)
    requires
        canvas.raster().0 >= 1,
        canvas.raster().1 >= 1,
    ensures
        ({
            let (w, h, px, ch) = canvas.raster();
            r@ == best_png(px, w, h, ch)
        }),
{
    match canvas {
        Canvas::Gray(g) => png_bytes(g),
        Canvas::Rgb(c) => png_rgb_bytes(c),
    }
}

/// The outcome of the budget loop: the chosen JPEG bytes, the dimensions
/// they were encoded at, the final quality, and whether the budget was
/// still exceeded (then this is the smallest attempt).
pub struct BudgetFit {
    pub data: Vec<u8>,
    pub width: u32,
    pub height: u32,
    pub quality: u8,
    pub over_budget: bool,
}

/// The quality after `q` in the first phase: one step down, never below
/// the floor.
pub open spec fn next_quality(q: u8) -> u8 {
    if q < QUALITY_STEP + QUALITY_FLOOR {
        QUALITY_FLOOR
    } else {
        (q - QUALITY_STEP) as u8
    }
}

/// The qualities the first phase tries from `q` on, down to the floor.
pub open spec fn planned_qualities(q: u8) -> Seq<u8>
    decreases q,
{
    if q <= QUALITY_FLOOR {
        seq![q]
    } else {
        seq![q] + planned_qualities(next_quality(q))
    }
}

/// The dimensions the second phase tries at `percent` of `w0` x `h0`,
/// never below half of either (nor below 1).
pub open spec fn shrunk(w0: u32, h0: u32, percent: int) -> (int, int) {
    let min_w = if w0 / 2 > 1 {
        w0 / 2
    } else {
        1
    };
    let min_h = if h0 / 2 > 1 {
        h0 / 2
    } else {
        1
    };
    let nw = w0 * percent / 100;
    let nh = h0 * percent / 100;
    (if nw > min_w { nw } else { min_w as int }, if nh > min_h { nh } else { min_h as int })
}

/// The JPEG the second phase makes at `percent`: the image resampled
/// with Lanczos3 to `shrunk` dimensions, at the quality floor.
pub open spec fn second_phase_bytes(px: Seq<u8>, w0: u32, h0: u32, ch: u8, percent: int) -> Seq<u8> {
    let (nw, nh) = shrunk(w0, h0, percent);
    baseline_jpeg(
        lanczos3(w0, h0, px, ch, nw as u32, nh as u32),
        nw as u32,
        nh as u32,
        ch,
        QUALITY_FLOOR,
    )
}

/// Whether `w` x `h` are dimensions the budget loop encodes at: the
/// image's own, or one of the second phase's shrinks.
pub open spec fn attempt_dims(w0: u32, h0: u32, w: u32, h: u32) -> bool {
    (w == w0 && h == h0) || exists|p: int|
        planned_percent(p) && (w as int, h as int) == #[trigger] shrunk(w0, h0, p)
}

/// Whether `percent` is one the second phase tries.
pub open spec fn planned_percent(p: int) -> bool {
    p == 90 || p == 80 || p == 70 || p == 60 || p == 50
}

/// The size of the JPEG the first phase makes at its `k`th quality.
pub open spec fn first_phase_len(px: Seq<u8>, w0: u32, h0: u32, ch: u8, qs: Seq<u8>, k: int) -> nat {
    baseline_jpeg(px, w0, h0, ch, qs[k]).len()
}

/// Whether the `k`th first-phase attempt is the first that fits.
pub open spec fn first_fit(
    px: Seq<u8>,
    w0: u32,
    h0: u32,
    ch: u8,
    qs: Seq<u8>,
    budget: int,
    k: int,
) -> bool {
    &&& 0 <= k < qs.len()
    &&& first_phase_len(px, w0, h0, ch, qs, k) <= budget
    &&& forall|j: int| 0 <= j < k ==> first_phase_len(px, w0, h0, ch, qs, j) > budget
}

/// Whether no first-phase attempt fits.
pub open spec fn none_fit(px: Seq<u8>, w0: u32, h0: u32, ch: u8, qs: Seq<u8>, budget: int) -> bool {
    forall|k: int| 0 <= k < qs.len() ==> first_phase_len(px, w0, h0, ch, qs, k) > budget
}

/// Replace `slot` with a new attempt when it is strictly smaller (or
/// `slot` is empty), so the fallback always holds the smallest attempt.
fn keep_smallest(slot: &mut Option<BudgetFit>, data: Vec<u8>, width: u32, height: u32, quality: u8)
    ensures
        match *old(slot) {
            None => *final(slot) == Some(
                BudgetFit { data, width, height, quality, over_budget: true },
            ),
            Some(b) => if data@.len() < b.data@.len() {
                *final(slot) == Some(BudgetFit { data, width, height, quality, over_budget: true })
            } else {
                *final(slot) == *old(slot)
            },
        },
{
    let replace = match slot {
        None => true,
        Some(b) => data.len() < b.data.len(),
    };
    if replace {
        *slot = Some(BudgetFit { data, width, height, quality, over_budget: true });
    }
}

/// The `k`th first-phase attempt is the first that fits.
proof fn lemma_first_fit(px: Seq<u8>, w0: u32, h0: u32, ch: u8, qs: Seq<u8>, k: int, budget: int)
    requires
        0 <= k < qs.len(),
        first_phase_len(px, w0, h0, ch, qs, k) <= budget,
        forall|j: int| 0 <= j < k ==> first_phase_len(px, w0, h0, ch, qs, j) > budget,
    ensures
        forall|k2: int| #[trigger] first_fit(px, w0, h0, ch, qs, budget, k2) ==> k2 == k,
        !none_fit(px, w0, h0, ch, qs, budget),
{
    assert forall|k2: int| #[trigger] first_fit(px, w0, h0, ch, qs, budget, k2) implies k2 == k by {
        if k2 < k {
            assert(first_phase_len(px, w0, h0, ch, qs, k2) > budget);
        } else if k2 > k {
            assert(first_phase_len(px, w0, h0, ch, qs, k) > budget);
        }
    }
}

/// A budget-loop outcome as plain values: bytes, width, height, quality
/// and whether it is over budget.
pub open spec fn budget_fit_view(b: BudgetFit) -> (Seq<u8>, u32, u32, u8, bool) {
    (b.data@, b.width, b.height, b.quality, b.over_budget)
}

/// The qualities the budget loop tries from `start_quality` on (at least
/// the floor), down to the floor.
pub open spec fn budget_qualities(start_quality: u8) -> Seq<u8> {
    planned_qualities(
        if start_quality > QUALITY_FLOOR {
            start_quality
        } else {
            QUALITY_FLOOR
        },
    )
}

/// What the budget loop owes for a `w0` x `h0` image of `ch` bytes per
/// pixel `px`: the first quality, from `start_quality` (at least the floor)
/// down, whose JPEG fits; failing that, at the floor, the first shrink that
/// fits; failing that, the smallest attempt, flagged as over budget.
pub open spec fn budget_outcome(
    r: (Seq<u8>, u32, u32, u8, bool),
    px: Seq<u8>,
    w0: u32,
    h0: u32,
    ch: u8,
    start_quality: u8,
    budget: usize,
) -> bool {
    &&& r.4 <==> r.0.len() > budget
    &&& forall|k: int| #[trigger]
        first_fit(px, w0, h0, ch, budget_qualities(start_quality), budget as int, k) ==> {
            &&& r.0 == baseline_jpeg(px, w0, h0, ch, budget_qualities(start_quality)[k])
            &&& r.1 == w0
            &&& r.2 == h0
            &&& r.3 == budget_qualities(start_quality)[k]
        }
    &&& none_fit(px, w0, h0, ch, budget_qualities(start_quality), budget as int) ==> {
        &&& !r.4 ==> (r.3 == QUALITY_FLOOR && exists|p: int|
            {
                &&& planned_percent(p)
                &&& (r.1 as int, r.2 as int) == shrunk(w0, h0, p)
                &&& r.0 == second_phase_bytes(px, w0, h0, ch, p)
                &&& forall|q: int|
                    planned_percent(q) && q > p ==> (#[trigger] second_phase_bytes(
                        px,
                        w0,
                        h0,
                        ch,
                        q,
                    )).len() > budget
            })
        &&& r.4 ==> attempt_dims(w0, h0, r.1, r.2)
        &&& r.4 ==> QUALITY_FLOOR <= r.3 <= budget_qualities(start_quality)[0]
        &&& r.4 ==> forall|k: int|
            0 <= k < budget_qualities(start_quality).len() ==> r.0.len() <= first_phase_len(px, w0, h0, ch, budget_qualities(start_quality), k)
        &&& r.4 ==> forall|p: int|
            planned_percent(p) ==> r.0.len() <= (#[trigger] second_phase_bytes(
                px,
                w0,
                h0,
                ch,
                p,
            )).len()
    }
}

/// Encode `gray` as a baseline grayscale JPEG within `budget` bytes.
///
/// Steps quality down by `QUALITY_STEP` to the floor `QUALITY_FLOOR` at
/// full size, then, at the floor, steps the dimensions down 10% at a time
/// to half the input size. Returns the first attempt that fits; when none
/// does, the smallest attempt, flagged as over budget.
pub fn fit_to_budget(gray: GrayImage, start_quality: u8, budget: usize) -> (r: BudgetFit)
    requires
        1 <= gray@.0 <= 65535,
        1 <= gray@.1 <= 65535,
        4 * (gray@.0 * gray@.1) <= usize::MAX,
    ensures
        budget_outcome(budget_fit_view(r), gray@.2, gray@.0, gray@.1, 1, start_quality, budget),
{
    fit_canvas_to_budget(Canvas::Gray(gray), start_quality, budget)
}

/// Encode an image as a baseline JPEG in its own color space within
/// `budget` bytes, as `fit_to_budget` does for grayscale.
#[verifier::spinoff_prover]
#[verifier::rlimit(30)]
pub fn fit_canvas_to_budget(canvas: Canvas, start_quality: u8, budget: usize) -> (r: BudgetFit)
    requires
        1 <= canvas.raster().0 <= 65535,
        1 <= canvas.raster().1 <= 65535,
        4 * (canvas.raster().0 * canvas.raster().1) <= usize::MAX,
    ensures
        budget_outcome(
            budget_fit_view(r),
            canvas.raster().2,
            canvas.raster().0,
            canvas.raster().1,
            canvas.raster().3,
            start_quality,
            budget,
        ),
{
    let (w0, h0) = canvas.dimensions();
    let ghost px = canvas.raster().2;
    let ghost ch = canvas.raster().3;
    let mut smallest: Option<BudgetFit> = None;
    let mut quality: u8 = if start_quality > QUALITY_FLOOR {
        start_quality
    } else {
        QUALITY_FLOOR
    };
    let ghost qs = planned_qualities(quality);
    let ghost mut k: int = 0;
    loop
        invariant_except_break
            0 <= k < qs.len(),
            quality >= QUALITY_FLOOR,
            qs.skip(k) == planned_qualities(quality),
            forall|j: int| 0 <= j < k ==> first_phase_len(px, w0, h0, ch, qs, j) > budget,
            k == 0 ==> smallest is None,
            smallest matches Some(b) ==> b.width == w0 && b.height == h0,
            smallest matches Some(b) ==> QUALITY_FLOOR <= b.quality <= qs[0],
            quality <= qs[0],
            k > 0 ==> (smallest matches Some(b) && b.over_budget && b.data@.len() > budget && (
            forall|j: int| 0 <= j < k ==> b.data@.len() <= first_phase_len(px, w0, h0, ch, qs, j))),
        invariant
            canvas.raster() == (w0, h0, px, ch),
            1 <= w0 <= 65535,
            1 <= h0 <= 65535,
            qs == planned_qualities(
                if start_quality > QUALITY_FLOOR {
                    start_quality
                } else {
                    QUALITY_FLOOR
                },
            ),
        ensures
            forall|j: int| 0 <= j < qs.len() ==> first_phase_len(px, w0, h0, ch, qs, j) > budget,
            smallest matches Some(b) ==> b.width == w0 && b.height == h0,
            smallest matches Some(b) ==> QUALITY_FLOOR <= b.quality <= qs[0],
            smallest matches Some(b) && b.over_budget && b.data@.len() > budget && (forall|j: int|
                0 <= j < qs.len() ==> b.data@.len() <= first_phase_len(px, w0, h0, ch, qs, j)),
        decreases quality,
    {
        assert(qs[k] == quality) by {
            assert(qs.skip(k)[0] == qs[k]);
        }
        let data = encode_canvas_jpeg(&canvas, quality);
        if data.len() <= budget {
            proof {
                lemma_first_fit(px, w0, h0, ch, qs, k, budget as int);
            }
            return BudgetFit { data, width: w0, height: h0, quality, over_budget: false };
        }
        assert(first_phase_len(px, w0, h0, ch, qs, k) > budget);
        keep_smallest(&mut smallest, data, w0, h0, quality);
        if quality <= QUALITY_FLOOR {
            proof {
                assert(planned_qualities(quality) == seq![quality]);
                assert(qs.skip(k).len() == 1);
            }
            break;
        }
        proof {
            assert(planned_qualities(quality) == seq![quality] + planned_qualities(
                next_quality(quality),
            ));
            assert(qs.skip(k + 1) =~= qs.skip(k).skip(1));
            assert(qs.skip(k).skip(1) =~= planned_qualities(next_quality(quality)));
            k = k + 1;
        }
        quality = if quality < QUALITY_STEP + QUALITY_FLOOR {
            QUALITY_FLOOR
        } else {
            quality - QUALITY_STEP
        };
    }
    // Second phase: shrink at the quality floor, down to half the input.
    let min_w: u32 = if w0 / 2 > 1 {
        w0 / 2
    } else {
        1
    };
    let min_h: u32 = if h0 / 2 > 1 {
        h0 / 2
    } else {
        1
    };
    let mut percent: u32 = 90;
    while percent >= 50
        invariant
            canvas.raster() == (w0, h0, px, ch),
            1 <= w0 <= 65535,
            1 <= h0 <= 65535,
            4 * (w0 * h0) <= usize::MAX,
            qs == planned_qualities(
                if start_quality > QUALITY_FLOOR {
                    start_quality
                } else {
                    QUALITY_FLOOR
                },
            ),
            min_w == (if w0 / 2 > 1 { w0 / 2 } else { 1 }),
            min_h == (if h0 / 2 > 1 { h0 / 2 } else { 1 }),
            percent <= 90,
            percent % 10 == 0,
            forall|j: int| 0 <= j < qs.len() ==> first_phase_len(px, w0, h0, ch, qs, j) > budget,
            smallest matches Some(b) && b.over_budget && b.data@.len() > budget && (forall|j: int|
                0 <= j < qs.len() ==> b.data@.len() <= first_phase_len(px, w0, h0, ch, qs, j)),
            forall|q: int|
                planned_percent(q) && q > percent ==> (#[trigger] second_phase_bytes(
                    px,
                    w0,
                    h0,
                    ch,
                    q,
                )).len() > budget,
            smallest matches Some(b) && (forall|q: int|
                planned_percent(q) && q > percent ==> b.data@.len() <= (
                #[trigger] second_phase_bytes(px, w0, h0, ch, q)).len()),
            smallest matches Some(b) ==> attempt_dims(w0, h0, b.width, b.height),
            smallest matches Some(b) ==> QUALITY_FLOOR <= b.quality <= qs[0],
            QUALITY_FLOOR <= qs[0],
        decreases percent,
    {
        assert(w0 * percent <= w0 * 90 && h0 * percent <= h0 * 90) by (nonlinear_arith)
            requires
                percent <= 90,
        ;
        assert((w0 * percent) / 100 <= w0 && (h0 * percent) / 100 <= h0) by (nonlinear_arith)
            requires
                percent <= 90,
                w0 >= 1,
                h0 >= 1,
        ;
        let sw = w0 * percent / 100;
        let sh = h0 * percent / 100;
        let nw = if sw > min_w {
            sw
        } else {
            min_w
        };
        let nh = if sh > min_h {
            sh
        } else {
            min_h
        };
        assert(nw <= w0 && nh <= h0);
        assert(w0 * nh <= w0 * h0) by (nonlinear_arith)
            requires
                nh <= h0,
        ;
        assert(nw * nh <= w0 * h0) by (nonlinear_arith)
            requires
                nw <= w0,
                nh <= h0,
        ;
        let small = canvas.resize(nw, nh);
        let data = encode_canvas_jpeg(&small, QUALITY_FLOOR);
        assert(planned_percent(percent as int));
        assert((nw as int, nh as int) == shrunk(w0, h0, percent as int));
        assert(attempt_dims(w0, h0, nw, nh));
        assert(data@ == second_phase_bytes(px, w0, h0, ch, percent as int));
        if data.len() <= budget {
            assert({
                let p = percent as int;
                &&& planned_percent(p)
                &&& (nw as int, nh as int) == shrunk(w0, h0, p)
                &&& data@ == second_phase_bytes(px, w0, h0, ch, p)
                &&& forall|q: int|
                    planned_percent(q) && q > p ==> (#[trigger] second_phase_bytes(
                        px,
                        w0,
                        h0,
                        ch,
                        q,
                    )).len() > budget
            });
            return BudgetFit {
                data,
                width: nw,
                height: nh,
                quality: QUALITY_FLOOR,
                over_budget: false,
            };
        }
        keep_smallest(&mut smallest, data, nw, nh, QUALITY_FLOOR);
        percent -= 10;
    }
    match smallest {
        Some(mut fit) => {
            fit.over_budget = true;
            fit
        },
        None => {
            assert(false);
            BudgetFit { data: Vec::new(), width: 0, height: 0, quality: 0, over_budget: true }
        },
    }
}


/// The warning for an image the budget loop could not fit.
pub open spec fn over_budget_warning(path: Seq<char>, budget: nat, width: nat, height: nat) -> (
    Seq<char>,
    Option<Seq<char>>,
) {
    (
        "could not fit "@ + path + " within its "@ + decimal(budget)
            + "-byte budget; kept the smallest version ("@ + decimal(width) + "x"@ + decimal(height)
            + ")"@,
        Some(path),
    )
}

/// Warn when the budget loop kept an attempt over budget.
pub fn warn_if_over_budget(fit: &BudgetFit, budget: usize, warnings: &mut Vec<Warning>, path: &str)
    ensures
        fit.over_budget ==> final(warnings)@.map_values(|w: Warning| warning_view(w)) == old(
            warnings,
        )@.map_values(|w: Warning| warning_view(w)).push(
            over_budget_warning(path@, budget as nat, fit.width as nat, fit.height as nat),
        ),
        !fit.over_budget ==> final(warnings)@ == old(warnings)@,
{
    if fit.over_budget {
        let ghost before = warnings@;
        let mut message: Vec<char> = Vec::new();
        push_str(&mut message, "could not fit ");
        push_all(&mut message, &chars_of(path));
        push_str(&mut message, " within its ");
        push_decimal(&mut message, budget as u128);
        push_str(&mut message, "-byte budget; kept the smallest version (");
        push_decimal(&mut message, fit.width as u128);
        push_str(&mut message, "x");
        push_decimal(&mut message, fit.height as u128);
        push_str(&mut message, ")");
        let w = Warning { message: string_of(&message), file: Some(path.to_owned()) };
        assert(warning_view(w) == over_budget_warning(
            path@,
            budget as nat,
            fit.width as nat,
            fit.height as nat,
        ));
        warnings.push(w);
        assert(warnings@.map_values(|w: Warning| warning_view(w)) =~= before.map_values(
            |w: Warning| warning_view(w),
        ).push(over_budget_warning(path@, budget as nat, fit.width as nat, fit.height as nat)));
    }
}

} // verus!
