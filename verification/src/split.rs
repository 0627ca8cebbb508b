//! Splitting a tall image into page tiles.
//!
//! Comics and full-page scans arrive as one very tall strip. Fitted to the
//! screen width it is taller than the device can show at a usable size, so
//! it is sliced into screen-height tiles that overlap by a tenth of a tile
//! (a line cut at a boundary is readable on both pages). Each tile is
//! encoded as its own baseline JPEG, in the panel's own color space.

use vstd::prelude::*;

use crate::canvas::{area, clamped_window, lanczos3, window_bytes};
use crate::encode::{budget_fit_view, budget_outcome, fit_canvas_to_budget};
use crate::image_plan::Tile;
use crate::images::Prepared;
use crate::pipeline::DeviceCaps;
use crate::report::{warning_view, Warning};
use crate::resize::{round_div, scaled};
use crate::text::{chars_of, decimal, push_all, push_decimal, push_str, string_of};

verus! {

/// What an attempt to split gave.
pub enum Outcome {
    /// The image was tall enough and was sliced into these ordered tiles.
    Tiles(Vec<Tile>),
    /// The image was not tall enough to split; it is handed back as it was.
    NotTall(Prepared),
}

/// Consecutive tiles overlap by the tile height divided by this.
pub const OVERLAP_DIVISOR: u32 = 10;

/// The height a `w0` x `h0` image has once fitted to `max_w` columns
/// (downscale only, rounded, at least one row).
pub open spec fn split_height(w0: u32, h0: u32, max_w: u32) -> int {
    if w0 > max_w {
        let x = round_div(h0 * max_w, w0 as int);
        if x > 1 {
            x
        } else {
            1
        }
    } else {
        h0 as int
    }
}

/// Twice `t`, saturating at `u32::MAX`.
pub open spec fn doubled(t: u32) -> int {
    if 2 * t > u32::MAX {
        u32::MAX as int
    } else {
        2 * t
    }
}

/// Whether the fitted image is more than two screens tall.
pub open spec fn is_tall(w0: u32, h0: u32, max_w: u32, tile_h: u32) -> bool {
    split_height(w0, h0, max_w) > doubled(tile_h)
}

/// The raster `rs` fitted to `max_w` columns, as the split slices it.
pub open spec fn split_fitted(rs: (u32, u32, Seq<u8>, u8), max_w: u32) -> (u32, u32, Seq<u8>, u8) {
    let (w0, h0, px, ch) = rs;
    if w0 > max_w {
        let fh = split_height(w0, h0, max_w) as u32;
        (max_w, fh, lanczos3(w0, h0, px, ch, max_w, fh), ch)
    } else {
        rs
    }
}

/// How far one tile's top is below the previous one's.
pub open spec fn tile_step(tile_h: u32) -> int {
    tile_h - tile_h / OVERLAP_DIVISOR
}

/// The top row of the `k`th tile.
pub open spec fn tile_top(tile_h: u32, k: int) -> int {
    k * tile_step(tile_h)
}

/// The rows of the `k`th tile of an image `fh` rows tall.
pub open spec fn tile_rows(tile_h: u32, fh: int, k: int) -> int {
    let t = tile_top(tile_h, k);
    (if t + tile_h < fh {
        t + tile_h
    } else {
        fh
    }) - t
}

/// The `k`th tile of the fitted raster `f`: its bytes, width, height and
/// bytes per pixel.
pub open spec fn tile_raster(f: (u32, u32, Seq<u8>, u8), tile_h: u32, k: int) -> (
    Seq<u8>,
    u32,
    u32,
    u8,
) {
    let rows = tile_rows(tile_h, f.1 as int, k);
    (
        window_bytes(f.2, f.0 as int, f.3 as int, 0, tile_top(tile_h, k), f.0 as int, rows),
        f.0,
        rows as u32,
        f.3,
    )
}

/// Whether `n` tiles cover an image `fh` rows tall: each but the last ends
/// above the bottom, and the last reaches it.
pub open spec fn tiles_end(tile_h: u32, fh: int, n: int) -> bool {
    &&& n >= 1
    &&& forall|k: int| 0 <= k < n - 1 ==> #[trigger] tile_top(tile_h, k) + tile_h < fh
    &&& tile_top(tile_h, n - 1) + tile_h >= fh
}

/// The warning for a tile the budget loop could not fit.
pub open spec fn tile_warning(path: Seq<char>, budget: nat, width: nat, height: nat) -> (
    Seq<char>,
    Option<Seq<char>>,
) {
    (
        "could not fit a tile of "@ + path + " within its "@ + decimal(budget)
            + "-byte budget; kept the smallest version ("@ + decimal(width) + "x"@ + decimal(height)
            + ")"@,
        Some(path),
    )
}

/// The warnings for the tiles whose budget loop ended over budget, in
/// order.
pub open spec fn tile_warnings(
    bs: Seq<(Seq<u8>, u32, u32, u8, bool)>,
    budget: usize,
    path: Seq<char>,
) -> Seq<(Seq<char>, Option<Seq<char>>)>
    decreases bs.len(),
{
    if bs.len() == 0 {
        Seq::empty()
    } else {
        let prev = tile_warnings(bs.drop_last(), budget, path);
        if bs.last().4 {
            prev.push(tile_warning(path, budget as nat, bs.last().1 as nat, bs.last().2 as nat))
        } else {
            prev
        }
    }
}

/// Whether `ts` are the tiles of the fitted raster `f`, each the outcome
/// of the budget loop on its slice, and the warnings went from `before` to
/// `after` by one for each tile left over budget.
pub open spec fn tiled(
    f: (u32, u32, Seq<u8>, u8),
    tile_h: u32,
    quality: u8,
    budget: usize,
    path: Seq<char>,
    ts: Seq<Tile>,
    before: Seq<(Seq<char>, Option<Seq<char>>)>,
    after: Seq<(Seq<char>, Option<Seq<char>>)>,
) -> bool {
    exists|bs: Seq<(Seq<u8>, u32, u32, u8, bool)>|
        #![trigger tile_warnings(bs, budget, path)]
        {
            &&& bs.len() == ts.len()
            &&& tiles_end(tile_h, f.1 as int, ts.len() as int)
            &&& forall|k: int|
                0 <= k < bs.len() ==> {
                    let (tpx, tw, th, tch) = #[trigger] tile_raster(f, tile_h, k);
                    &&& budget_outcome(bs[k], tpx, tw, th, tch, quality, budget)
                    &&& ts[k].data@ == bs[k].0
                }
            &&& after == before + tile_warnings(bs, budget, path)
        }
}

/// Whether a tall `w0` x `h0` image can be fitted and its tiles encoded:
/// non-empty, tiles no larger than a JPEG header holds, and the buffers
/// addressable.
pub open spec fn splittable(w0: u32, h0: u32, max_w: u32, tile_h: u32) -> bool {
    is_tall(w0, h0, max_w, tile_h) ==> {
        let fh = split_height(w0, h0, max_w);
        let fw: int = if w0 > max_w {
            max_w as int
        } else {
            w0 as int
        };
        let rows: int = if tile_h < fh {
            tile_h as int
        } else {
            fh
        };
        &&& 1 <= fw <= 65535
        &&& tile_h >= 1
        &&& rows <= 65535
        &&& 4 * (fw * rows) <= usize::MAX
        &&& 4 * (w0 * fh) <= usize::MAX
        &&& 4 * (max_w * fh) <= usize::MAX
    }
}

/// The height a `w0` x `h0` image has once fitted to `max_w` columns.
pub fn fitted_height(w0: u32, h0: u32, max_w: u32) -> (r: u32)
    ensures
        r == split_height(w0, h0, max_w),
{
    if w0 > max_w {
        let x = scaled(h0, max_w, w0);
        assert(x <= h0) by (nonlinear_arith)
            requires
                x == (2 * (h0 * max_w) + w0) / (2 * w0),
                max_w < w0,
        ;
        if x > 1 {
            x as u32
        } else {
            1
        }
    } else {
        h0
    }
}

/// Twice `t`, saturating.
fn twice(t: u32) -> (r: u32)
    ensures
        r == doubled(t),
{
    if t > u32::MAX / 2 {
        u32::MAX
    } else {
        t * 2
    }
}

/// Whether a `w0` x `h0` image can go through `run` (`splittable`).
pub fn can_split(w0: u32, h0: u32, max_w: u32, tile_h: u32) -> (r: bool)
    ensures
        r == splittable(w0, h0, max_w, tile_h),
{
    let fh = fitted_height(w0, h0, max_w);
    if fh <= twice(tile_h) {
        return true;
    }
    let fw = if w0 > max_w {
        max_w
    } else {
        w0
    };
    let rows = if tile_h < fh {
        tile_h
    } else {
        fh
    };
    let limit = usize::MAX as u128;
    1 <= fw && fw <= 65535 && tile_h >= 1 && rows <= 65535 && 4 * (area(fw, rows) as u128)
        <= limit && 4 * (area(w0, fh) as u128) <= limit && 4 * (area(max_w, fh) as u128) <= limit
}

/// Split `prepared` into page tiles when, fitted to the inline width, it
/// is more than twice the screen height; otherwise hand it back.
pub fn run(
    prepared: Prepared,
    profile: &DeviceCaps,
    quality: u8,
    warnings: &mut Vec<Warning>,
    path: &str,
) -> (r: Outcome)
    requires
        splittable(
            prepared.canvas.raster().0,
            prepared.canvas.raster().1,
            profile.inline_max.0,
            profile.screen_h,
        ),
    ensures
        ({
            let (w0, h0, _, _) = prepared.canvas.raster();
            let max_w = profile.inline_max.0;
            let tile_h = profile.screen_h;
            let budget = profile.inline_budget_bytes;
            let f = split_fitted(prepared.canvas.raster(), max_w);
            match r {
                Outcome::NotTall(p) => !is_tall(w0, h0, max_w, tile_h) && p == prepared
                    && final(warnings)@ == old(warnings)@,
                Outcome::Tiles(ts) => is_tall(w0, h0, max_w, tile_h) && tiled(
                    f,
                    tile_h,
                    quality,
                    budget,
                    path@,
                    ts@,
                    old(warnings)@.map_values(|w: Warning| warning_view(w)),
                    final(warnings)@.map_values(|w: Warning| warning_view(w)),
                ),
            }
        }),
{
    let ghost rs = prepared.canvas.raster();
    let (w0, h0) = prepared.canvas.dimensions();
    let max_w = profile.inline_max.0;
    let tile_h = profile.screen_h;
    let fitted_h = fitted_height(w0, h0, max_w);
    if fitted_h <= twice(tile_h) {
        return Outcome::NotTall(prepared);
    }
    let fitted = if w0 > max_w {
        prepared.canvas.resize(max_w, fitted_h)
    } else {
        prepared.canvas
    };
    let ghost f = split_fitted(rs, max_w);
    assert(fitted.raster() == f);
    let (fw, fh) = fitted.dimensions();
    let overlap = tile_h / OVERLAP_DIVISOR;
    let step = tile_h - overlap;
    let budget = profile.inline_budget_bytes;
    let rows_max: u32 = if tile_h < fh {
        tile_h
    } else {
        fh
    };
    let ghost before = warnings@.map_values(|w: Warning| warning_view(w));
    let mut tiles: Vec<Tile> = Vec::new();
    let mut top: u32 = 0;
    let ghost mut k: int = 0;
    let ghost mut bs: Seq<(Seq<u8>, u32, u32, u8, bool)> = Seq::empty();
    loop
        invariant_except_break
            top < fh,
            bs.len() == k,
            top as int == tile_top(tile_h, k),
        invariant
            fitted.raster() == f,
            (fw, fh) == (f.0, f.1),
            1 <= fw <= 65535,
            tile_h >= 1,
            step as int == tile_step(tile_h),
            1 <= step <= tile_h,
            rows_max as int == (if tile_h < fh { tile_h as int } else { fh as int }),
            rows_max <= 65535,
            4 * (fw * rows_max) <= usize::MAX,
            budget == profile.inline_budget_bytes,
            0 <= k,
            bs.len() == tiles@.len(),
            forall|j: int| 0 <= j < k ==> #[trigger] tile_top(tile_h, j) + tile_h < fh,
            forall|j: int|
                0 <= j < bs.len() ==> {
                    let (tpx, tw, th, tch) = #[trigger] tile_raster(f, tile_h, j);
                    &&& budget_outcome(bs[j], tpx, tw, th, tch, quality, budget)
                    &&& tiles@[j].data@ == bs[j].0
                },
            warnings@.map_values(|w: Warning| warning_view(w)) == before + tile_warnings(
                bs,
                budget,
                path@,
            ),
        ensures
            bs.len() == tiles@.len(),
            bs.len() == k + 1,
            tiles_end(tile_h, fh as int, k + 1),
        decreases fh - top,
    {
        let bottom: u32 = if (top as u64) + (tile_h as u64) < (fh as u64) {
            top + tile_h
        } else {
            fh
        };
        let rows = bottom - top;
        assert(rows as int == tile_rows(tile_h, fh as int, k));
        assert(1 <= rows <= rows_max);
        assert(fw * rows <= fw * rows_max) by (nonlinear_arith)
            requires
                rows <= rows_max,
        ;
        let tile = fitted.crop(0, top, fw, rows);
        assert(clamped_window(fw, fh, 0, top, fw, rows) == (0u32, top, fw, rows));
        assert(tile.raster() == (fw, rows, tile_raster(f, tile_h, k).0, f.3));
        let fit = fit_canvas_to_budget(tile, quality, budget);
        let ghost view = budget_fit_view(fit);
        assert({
            let (tpx, tw, th, tch) = tile_raster(f, tile_h, k);
            budget_outcome(view, tpx, tw, th, tch, quality, budget)
        });
        let ghost wb = warnings@.map_values(|w: Warning| warning_view(w));
        if fit.over_budget {
            let mut m: Vec<char> = Vec::new();
            push_str(&mut m, "could not fit a tile of ");
            push_all(&mut m, &chars_of(path));
            push_str(&mut m, " within its ");
            push_decimal(&mut m, budget as u128);
            push_str(&mut m, "-byte budget; kept the smallest version (");
            push_decimal(&mut m, fit.width as u128);
            push_str(&mut m, "x");
            push_decimal(&mut m, fit.height as u128);
            push_str(&mut m, ")");
            let w = Warning { message: string_of(&m), file: Some(path.to_owned()) };
            assert(warning_view(w) == tile_warning(
                path@,
                budget as nat,
                fit.width as nat,
                fit.height as nat,
            ));
            warnings.push(w);
            assert(warnings@.map_values(|w: Warning| warning_view(w)) =~= wb.push(
                tile_warning(path@, budget as nat, fit.width as nat, fit.height as nat),
            ));
        }
        proof {
            let nb = bs.push(view);
            assert(nb.drop_last() =~= bs);
            assert(warnings@.map_values(|w: Warning| warning_view(w)) == before + tile_warnings(
                nb,
                budget,
                path@,
            )) by {
                if !fit.over_budget {
                    assert(warnings@.map_values(|w: Warning| warning_view(w)) == wb);
                }
                assert(before + tile_warnings(bs, budget, path@).push(
                    tile_warning(path@, budget as nat, fit.width as nat, fit.height as nat),
                ) =~= (before + tile_warnings(bs, budget, path@)).push(
                    tile_warning(path@, budget as nat, fit.width as nat, fit.height as nat),
                ));
            }
            bs = nb;
        }
        let ghost old_tiles = tiles@;
        tiles.push(Tile { data: fit.data });
        assert forall|j: int| 0 <= j < bs.len() implies {
            let (tpx, tw, th, tch) = #[trigger] tile_raster(f, tile_h, j);
            &&& budget_outcome(bs[j], tpx, tw, th, tch, quality, budget)
            &&& tiles@[j].data@ == bs[j].0
        } by {
            if j < k {
                assert(tiles@[j] == old_tiles[j]);
            }
        }
        if bottom >= fh {
            assert(tile_top(tile_h, k) + tile_h >= fh);
            break;
        }
        assert(tile_top(tile_h, k) + tile_h < fh);
        assert(tile_top(tile_h, k + 1) == tile_top(tile_h, k) + step) by (nonlinear_arith)
            requires
                tile_top(tile_h, k + 1) == (k + 1) * tile_step(tile_h),
                tile_top(tile_h, k) == k * tile_step(tile_h),
                step == tile_step(tile_h),
        ;
        top = top + step;
        proof {
            k = k + 1;
        }
    }
    // The budget-loop outcomes gathered above are the witness `tiled` asks for.
    assert(tile_warnings(bs, budget, path@) == tile_warnings(bs, budget, path@));
    Outcome::Tiles(tiles)
}

} // verus!
