//! Percentile-clip contrast stretch for photos.
//!
//! On a 4-level grayscale panel, flat mid-tone photos turn to mush, so the
//! tonal range is stretched before quantization: the darkest and lightest
//! 1% of pixels are clipped (stray highlights and deep shadows), and what
//! remains is rescaled linearly to the full 0-255 range. Line art skips
//! this: stretching its handful of tones would fringe the edges.

use vstd::prelude::*;

use crate::canvas::{area, GrayImage};
use crate::classify::{darker, histogram, lemma_tones, tone_count};

verus! {

/// Percent of pixels clipped from each tail before the stretch.
pub const CLIP_PERCENT: u64 = 1;

/// The first tone at or above `v` whose cumulative count from black
/// exceeds `clip`; 0 when there is none.
pub open spec fn low_from(px: Seq<u8>, clip: int, v: int) -> int
    decreases 256 - v,
{
    if v >= 256 {
        0
    } else if darker(px, v + 1) > clip {
        v
    } else {
        low_from(px, clip, v + 1)
    }
}

/// The last tone at or below `v` whose cumulative count from white exceeds
/// `clip`; 255 when there is none.
pub open spec fn high_from(px: Seq<u8>, clip: int, v: int) -> int
    decreases v + 1,
{
    if v < 0 {
        255
    } else if px.len() - darker(px, v) > clip {
        v
    } else {
        high_from(px, clip, v - 1)
    }
}

/// Tone `v` after a stretch that maps `low` to 0 and `high` to 255.
pub open spec fn stretched(v: int, low: int, high: int) -> u8 {
    let span = high - low;
    let shifted = if v < low {
        0
    } else if v - low > span {
        span
    } else {
        v - low
    };
    (shifted * 255 / span) as u8
}

/// The lowest tone whose cumulative count from black exceeds `clip`.
fn low_percentile(hist: &Vec<u64>, clip: u64, Ghost(px): Ghost<Seq<u8>>) -> (r: u8)
    requires
        hist@.len() == 256,
        forall|v: int| 0 <= v < 256 ==> #[trigger] hist@[v] == tone_count(px, v),
        px.len() <= u64::MAX,
    ensures
        r == low_from(px, clip as int, 0),
{
    proof {
        lemma_tones(px, 0);
    }
    let mut cum: u64 = 0;
    let mut value: usize = 0;
    while value < 256
        invariant
            value <= 256,
            hist@.len() == 256,
            forall|v: int| 0 <= v < 256 ==> #[trigger] hist@[v] == tone_count(px, v),
            px.len() <= u64::MAX,
            cum == darker(px, value as int),
            low_from(px, clip as int, 0) == low_from(px, clip as int, value as int),
        decreases 256 - value,
    {
        proof {
            lemma_tones(px, value as int);
            lemma_tones(px, value + 1);
        }
        cum += hist[value];
        if cum > clip {
            return value as u8;
        }
        value += 1;
    }
    0
}

/// The highest tone whose cumulative count from white exceeds `clip`.
fn high_percentile(hist: &Vec<u64>, clip: u64, Ghost(px): Ghost<Seq<u8>>) -> (r: u8)
    requires
        hist@.len() == 256,
        forall|v: int| 0 <= v < 256 ==> #[trigger] hist@[v] == tone_count(px, v),
        px.len() <= u64::MAX,
    ensures
        r == high_from(px, clip as int, 255),
{
    proof {
        lemma_tones(px, 255);
    }
    let mut cum: u64 = 0;
    let mut value: usize = 256;
    while value > 0
        invariant
            value <= 256,
            hist@.len() == 256,
            forall|v: int| 0 <= v < 256 ==> #[trigger] hist@[v] == tone_count(px, v),
            px.len() <= u64::MAX,
            cum == px.len() - darker(px, value as int),
            high_from(px, clip as int, 255) == high_from(px, clip as int, value - 1),
        decreases value,
    {
        value -= 1;
        proof {
            lemma_tones(px, value as int);
        }
        cum += hist[value];
        if cum > clip {
            return value as u8;
        }
    }
    255
}

/// The tones a `w` x `h` image `px` has after the stretch: unchanged when
/// it is empty or its clipped range is a single tone.
pub open spec fn autocontrasted(w: u32, h: u32, px: Seq<u8>) -> Seq<u8> {
    let clip = (w * h) * CLIP_PERCENT / 100;
    let low = low_from(px, clip, 0);
    let high = high_from(px, clip, 255);
    if w * h == 0 || high <= low {
        px
    } else {
        px.map_values(|p: u8| stretched(p as int, low, high))
    }
}

/// Stretch `gray` in place so its 1st and 99th luminance percentiles map
/// to 0 and 255. Nothing changes when the image is empty, flat, or its
/// clipped range is a single tone.
pub fn autocontrast(gray: &mut GrayImage)
    ensures
        final(gray)@ == (old(gray)@.0, old(gray)@.1, autocontrasted(
            old(gray)@.0,
            old(gray)@.1,
            old(gray)@.2,
        )),
{
    let (w, h) = gray.dimensions();
    let total = area(w, h);
    if total == 0 {
        return;
    }
    let ghost px = gray@.2;
    proof {
        use_type_invariant(&*gray);
        gray.lemma_sized();
    }
    let hist = histogram(gray);
    let clip = total * CLIP_PERCENT / 100;
    let low = low_percentile(&hist, clip, Ghost(px));
    let high = high_percentile(&hist, clip, Ghost(px));
    if high <= low {
        return;
    }
    let span = (high - low) as u32;
    let mut lut: Vec<u8> = Vec::new();
    let mut value: u32 = 0;
    while value < 256
        invariant
            value <= 256,
            low < high,
            span == high - low,
            lut@.len() == value,
            forall|v: int| 0 <= v < value ==> #[trigger] lut@[v] == stretched(v, low as int, high as int),
        decreases 256 - value,
    {
        let shifted: u32 = if value < low as u32 {
            0
        } else if value - (low as u32) > span {
            span
        } else {
            value - (low as u32)
        };
        assert((shifted as int) * 255 <= (span as int) * 255) by (nonlinear_arith)
            requires
                shifted <= span,
        ;
        assert(((shifted as int) * 255) / (span as int) <= 255) by (nonlinear_arith)
            requires
                shifted <= span,
                span > 0,
        ;
        lut.push((shifted * 255 / span) as u8);
        value += 1;
    }
    let ghost (lw, lh) = (w, h);
    gray.map_tones(&lut);
    assert(gray@.2 =~= px.map_values(|p: u8| stretched(p as int, low as int, high as int)));
}


/// The stretch sends the low clip point to black and the high one to
/// white, and keeps the order of tones.
pub proof fn law_stretch_spans_the_full_range(low: int, high: int, a: int, b: int)
    requires
        0 <= low < high <= 255,
        a <= b,
    ensures
        stretched(low, low, high) == 0,
        stretched(high, low, high) == 255,
        stretched(a, low, high) <= stretched(b, low, high),
{
    let span = high - low;
    let sa = if a < low {
        0
    } else if a - low > span {
        span
    } else {
        a - low
    };
    let sb = if b < low {
        0
    } else if b - low > span {
        span
    } else {
        b - low
    };
    assert(sa <= sb);
    assert(sa * 255 <= sb * 255) by (nonlinear_arith)
        requires
            sa <= sb,
    ;
    vstd::arithmetic::div_mod::lemma_div_is_ordered(sa * 255, sb * 255, span);
    assert(sb * 255 / span <= 255) by (nonlinear_arith)
        requires
            0 <= sb <= span,
            span > 0,
    ;
    assert(0 <= sa * 255 / span) by (nonlinear_arith)
        requires
            0 <= sa,
            span > 0,
    ;
    assert(span * 255 / span == 255) by (nonlinear_arith)
        requires
            span > 0,
    ;
}

} // verus!
