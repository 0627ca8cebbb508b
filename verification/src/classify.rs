//! Line-art vs photo classification from a grayscale luminance histogram.
//!
//! Line art (diagrams, scanned text, screenshots) survives best as a
//! lossless grayscale PNG and must skip the contrast stretch that would
//! fringe its edges; photographs survive best as a JPEG after a contrast
//! stretch. The two are told apart with two cheap histogram signals: very
//! few distinct tones, or two tones that dominate the whole image.

use vstd::prelude::*;

use crate::canvas::{area, GrayImage};

verus! {

/// What a grayscale image is treated as, for encode-format and contrast
/// decisions.
#[derive(Debug, Clone, Copy, PartialEq, Eq)]
pub enum Kind {
    /// Few tones or two dominant tones: kept crisp (PNG, no stretch).
    LineArt,
    /// Continuous tone: contrast stretch and JPEG.
    Photo,
}

/// The most distinct tones an image may have to count as line art on that
/// signal alone.
pub const MAX_DISTINCT_TONES: u64 = 16;

/// The share, in percent, of pixels the two most common tones must cover
/// for an image to count as line art on that signal.
pub const DOMINANT_TWO_PERCENT: u64 = 85;

/// The number of pixels of tone `v`.
pub open spec fn tone_count(px: Seq<u8>, v: int) -> nat
    decreases px.len(),
{
    if px.len() == 0 {
        0
    } else {
        tone_count(px.drop_last(), v) + if px.last() == v {
            1nat
        } else {
            0nat
        }
    }
}

/// The number of pixels darker than tone `v`.
pub open spec fn darker(px: Seq<u8>, v: int) -> nat
    decreases px.len(),
{
    if px.len() == 0 {
        0
    } else {
        darker(px.drop_last(), v) + if px.last() < v {
            1nat
        } else {
            0nat
        }
    }
}

/// Tone counts: `tone_count` is at most the pixel count, `darker` grows by
/// one tone's count per tone and covers every pixel below 256.
pub proof fn lemma_tones(px: Seq<u8>, v: int)
    ensures
        tone_count(px, v) <= px.len(),
        darker(px, v) <= px.len(),
        darker(px, v + 1) == darker(px, v) + tone_count(px, v),
        darker(px, 256) == px.len(),
        darker(px, 0) == 0,
    decreases px.len(),
{
    if px.len() > 0 {
        lemma_tones(px.drop_last(), v);
    }
}

/// The number of tones below `n` that occur.
pub open spec fn distinct_tones(px: Seq<u8>, n: int) -> nat
    decreases n,
{
    if n <= 0 {
        0
    } else {
        distinct_tones(px, n - 1) + if tone_count(px, n - 1) > 0 {
            1nat
        } else {
            0nat
        }
    }
}

/// Whether two different tones together cover at least
/// `DOMINANT_TWO_PERCENT` percent of `total` pixels.
pub open spec fn two_tones_dominate(px: Seq<u8>, total: int) -> bool {
    exists|i: int, j: int|
        0 <= i < j < 256 && (tone_count(px, i) + tone_count(px, j)) * 100 >= total
            * DOMINANT_TWO_PERCENT
}

/// What `classify` decides: line art when the image is empty, has at most
/// `MAX_DISTINCT_TONES` distinct tones, or has two dominant tones.
pub open spec fn classified(w: u32, h: u32, px: Seq<u8>) -> Kind {
    if w * h == 0 || distinct_tones(px, 256) <= MAX_DISTINCT_TONES || two_tones_dominate(
        px,
        w * h,
    ) {
        Kind::LineArt
    } else {
        Kind::Photo
    }
}

/// The 256-bin luminance histogram of a grayscale image.
pub fn histogram(gray: &GrayImage) -> (hist: Vec<u64>)
    ensures
        hist@.len() == 256,
        forall|v: int| 0 <= v < 256 ==> #[trigger] hist@[v] == tone_count(gray@.2, v),
{
    let px = gray.as_raw();
    let mut hist: Vec<u64> = Vec::new();
    let mut k: usize = 0;
    while k < 256
        invariant
            k <= 256,
            hist@.len() == k,
            forall|v: int| 0 <= v < k ==> #[trigger] hist@[v] == 0,
        decreases 256 - k,
    {
        hist.push(0);
        k += 1;
    }
    let mut i: usize = 0;
    while i < px.len()
        invariant
            i <= px@.len(),
            px@ == gray@.2,
            hist@.len() == 256,
            forall|v: int| 0 <= v < 256 ==> #[trigger] hist@[v] == tone_count(px@.take(i as int), v),
        decreases px.len() - i,
    {
        let p = px[i] as usize;
        proof {
            lemma_tones(px@.take(i as int), p as int);
            assert(px@.take(i + 1).drop_last() =~= px@.take(i as int));
            assert(px@.take(i + 1).last() == px@[i as int]);
        }
        let c = hist[p];
        hist.set(p, c + 1);
        assert forall|v: int| 0 <= v < 256 implies #[trigger] hist@[v] == tone_count(
            px@.take(i + 1),
            v,
        ) by {
            assert(px@.take(i + 1).drop_last() =~= px@.take(i as int));
        }
        i += 1;
    }
    assert(px@.take(px@.len() as int) =~= px@);
    hist
}

/// Classify `gray` as line art or photo from its luminance histogram.
pub fn classify(gray: &GrayImage) -> (k: Kind)
    ensures
        k == classified(gray@.0, gray@.1, gray@.2),
{
    let (w, h) = gray.dimensions();
    let total = area(w, h);
    if total == 0 {
        return Kind::LineArt;
    }
    let hist = histogram(gray);
    let ghost px = gray@.2;
    proof {
        use_type_invariant(gray);
        gray.lemma_sized();
    }
    let mut distinct: u64 = 0;
    let mut v: usize = 0;
    while v < 256
        invariant
            v <= 256,
            hist@.len() == 256,
            forall|u: int| 0 <= u < 256 ==> #[trigger] hist@[u] == tone_count(px, u),
            distinct == distinct_tones(px, v as int),
            distinct <= v,
        decreases 256 - v,
    {
        if hist[v] > 0 {
            distinct += 1;
        }
        v += 1;
    }
    if distinct <= MAX_DISTINCT_TONES {
        return Kind::LineArt;
    }
    let mut top1: u64 = 0;
    let mut top2: u64 = 0;
    let mut k: usize = 0;
    while k < 256
        invariant
            k <= 256,
            hist@.len() == 256,
            forall|u: int| 0 <= u < 256 ==> #[trigger] hist@[u] == tone_count(px, u),
            top2 <= top1,
            forall|i: int| 0 <= i < k ==> hist@[i] <= top1,
            forall|i: int, j: int| 0 <= i < j < k ==> hist@[i] + hist@[j] <= top1 + top2,
            k >= 1 ==> exists|m: int| 0 <= m < k && hist@[m] == top1,
            k >= 2 ==> exists|i: int, j: int|
                0 <= i < j < k && hist@[i] + hist@[j] == top1 + top2,
            k == 1 ==> top2 == 0,
            k == 0 ==> top1 == 0,
        decreases 256 - k,
    {
        let count = hist[k];
        let ghost (o1, o2) = (top1, top2);
        if count >= top1 {
            top2 = top1;
            top1 = count;
        } else if count > top2 {
            top2 = count;
        }
        proof {
            if k >= 1 {
                let m = choose|m: int| 0 <= m < k && hist@[m] == o1;
                if count >= o1 {
                    assert(hist@[m] + hist@[k as int] == top1 + top2);
                } else if count > o2 {
                    assert(hist@[m] + hist@[k as int] == top1 + top2);
                    assert(exists|m: int| 0 <= m < k + 1 && hist@[m] == top1);
                } else {
                    assert(exists|m: int| 0 <= m < k + 1 && hist@[m] == top1);
                    if k == 1 {
                        assert(hist@[0] + hist@[1] == top1 + top2);
                    }
                }
            } else {
                assert(hist@[0] == top1);
            }
        }
        k += 1;
    }
    proof {
        lemma_tones(px, 0);
    }
    assert(hist@[0] <= px.len());
    let top = top1 as u128 + top2 as u128;
    if top * 100 >= (total as u128) * (DOMINANT_TWO_PERCENT as u128) {
        proof {
            let (i, j) = choose|i: int, j: int|
                0 <= i < j < 256 && hist@[i] + hist@[j] == top1 + top2;
            assert((tone_count(px, i) + tone_count(px, j)) * 100 >= total * DOMINANT_TWO_PERCENT);
        }
        return Kind::LineArt;
    }
    proof {
        assert forall|i: int, j: int|
            0 <= i < j < 256 implies !((tone_count(px, i) + tone_count(px, j)) * 100 >= total
            * DOMINANT_TWO_PERCENT) by {
            assert(hist@[i] + hist@[j] <= top1 + top2);
        }
    }
    Kind::Photo
}

} // verus!
