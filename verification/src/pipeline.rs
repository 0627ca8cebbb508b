//! One raster, end to end: sniff, decode and normalize it for the device,
//! fit it to its role's box, and encode it within the role's byte budget.
//! Input that cannot be identified or decoded is left as it is, with a
//! warning: one bad image never fails a whole conversion.

use vstd::prelude::*;

use image::DynamicImage;

use crate::canvas::{image_size, lanczos3, Canvas};
use crate::image_plan::PipelineResult;
use crate::split::{
    can_split, is_tall, run, split_fitted, splittable, tiled, Outcome,
};
use crate::encode::{
    best_png, budget_outcome, encode_canvas_png, fit_canvas_to_budget,
    over_budget_warning, warn_if_over_budget,
};
use crate::images::{
    flatten_alpha_onto_white, rgba8_contents, to_device_canvas, decodable, in_label, intake_warnings, out_label, sniff_and_prepare, ImageOutcome, ImageRole,
    InFormat, OutFormat, Prepared,
};
use crate::resize::{fit_canvas, fit_dims, fitted_size, law_fit_never_upscales};
use crate::report::{warning_view, Warning};
use crate::text::{chars_of, decimal, push_all, push_decimal, push_str, string_of};

verus! {

/// The kind of panel a device has.
#[derive(Debug, Clone, Copy, PartialEq, Eq)]
pub enum Panel {
    /// A grayscale e-ink panel.
    Gray,
    /// A color panel.
    Color,
}

impl Panel {
    /// Whether the panel shows color.
    pub fn is_color(self) -> (r: bool)
        ensures
            r == (self is Color),
    {
        match self {
            Panel::Gray => false,
            Panel::Color => true,
        }
    }
}

/// What the image pipeline needs to know of a device: its panel, the box
/// and byte budget of a cover and of an inline image, and the screen's
/// height.
#[derive(Debug, Clone, Copy, PartialEq, Eq)]
pub struct DeviceCaps {
    pub panel: Panel,
    pub cover_max: (u32, u32),
    pub cover_budget_bytes: usize,
    pub inline_max: (u32, u32),
    pub inline_budget_bytes: usize,
    pub screen_h: u32,
}

/// The box (width, height) and byte budget of an image in `role`.
pub open spec fn role_target(role: ImageRole, caps: DeviceCaps) -> (u32, u32, usize) {
    match role {
        ImageRole::Cover => (caps.cover_max.0, caps.cover_max.1, caps.cover_budget_bytes),
        ImageRole::Inline => (caps.inline_max.0, caps.inline_max.1, caps.inline_budget_bytes),
    }
}

/// The JPEG quality a photo starts from: at least 85 for a cover.
pub open spec fn photo_quality(role: ImageRole, q: u8) -> u8 {
    match role {
        ImageRole::Cover => if q > 85 {
            q
        } else {
            85
        },
        ImageRole::Inline => q,
    }
}

/// The JPEG quality line art falls back to when its PNG is over budget:
/// six steps above the photo quality, at most 95.
pub open spec fn line_art_quality(q: u8) -> u8 {
    let s: int = if q > 249 {
        255
    } else {
        q + 6
    };
    if s < 95 {
        s as u8
    } else {
        95
    }
}

/// The raster `fit_canvas` makes of `rs` (width, height, bytes, bytes per
/// pixel) for a `tw` x `th` box.
pub open spec fn fitted_raster(rs: (u32, u32, Seq<u8>, u8), tw: u32, th: u32) -> (
    u32,
    u32,
    Seq<u8>,
    u8,
) {
    let (w, h, px, ch) = rs;
    if w == 0 || h == 0 || (w <= tw && h <= th) {
        rs
    } else {
        let (fw, fh) = fit_dims(w, h, tw, th);
        (fw as u32, fh as u32, lanczos3(w, h, px, ch, fw as u32, fh as u32), ch)
    }
}

/// Whether a `w` x `h` image can be fitted to a `tw` x `th` box and
/// encoded: both non-empty, the fitted size within what a JPEG header
/// holds, and the resampling buffers addressable.
pub open spec fn encodable(w: u32, h: u32, tw: u32, th: u32) -> bool {
    &&& w >= 1
    &&& h >= 1
    &&& tw >= 1
    &&& th >= 1
    &&& fit_dims(w, h, tw, th).0 <= 65535
    &&& fit_dims(w, h, tw, th).1 <= 65535
    &&& 4 * (w * th) <= usize::MAX
    &&& 4 * (tw * th) <= usize::MAX
}

/// An encoded raster: bytes, format, width, height and, for a JPEG, its
/// quality.
pub struct Encoded {
    pub data: Vec<u8>,
    pub format: OutFormat,
    pub width: u32,
    pub height: u32,
    pub quality: Option<u8>,
}

/// An encoded raster as plain values.
pub open spec fn encoded_view(e: Encoded) -> (Seq<u8>, OutFormat, u32, u32, Option<u8>) {
    (e.data@, e.format, e.width, e.height, e.quality)
}

/// Whether `e` is what encoding the raster `rs` gives: fitted to the
/// role's box, then a PNG for line art if that fits the budget, else a
/// JPEG from the budget loop (line art starting a little higher in
/// quality than a photo).
pub open spec fn encoding_of(
    rs: (u32, u32, Seq<u8>, u8),
    line_art: bool,
    role: ImageRole,
    caps: DeviceCaps,
    quality: u8,
    e: (Seq<u8>, OutFormat, u32, u32, Option<u8>),
) -> bool {
    let (tw, th, budget) = role_target(role, caps);
    let (fw, fh, fpx, ch) = fitted_raster(rs, tw, th);
    let png = best_png(fpx, fw, fh, ch);
    if line_art && png.len() <= budget {
        e == (png, OutFormat::Png, fw, fh, None::<u8>)
    } else {
        let start = if line_art {
            line_art_quality(quality)
        } else {
            photo_quality(role, quality)
        };
        &&& e.1 == OutFormat::Jpeg
        &&& e.4 is Some
        &&& budget_outcome((e.0, e.2, e.3, e.4->0, e.0.len() > budget), fpx, fw, fh, ch, start, budget)
    }
}

/// The warnings encoding `e` records: one when a JPEG stayed over budget.
pub open spec fn encode_warnings(
    e: (Seq<u8>, OutFormat, u32, u32, Option<u8>),
    budget: usize,
    path: Seq<char>,
) -> Seq<(Seq<char>, Option<Seq<char>>)> {
    if e.1 == OutFormat::Jpeg && e.0.len() > budget {
        seq![over_budget_warning(path, budget as nat, e.2 as nat, e.3 as nat)]
    } else {
        Seq::empty()
    }
}

/// Fit an image to its role's box, then encode it within the role's byte
/// budget: a PNG for line art unless it is over budget, a baseline JPEG
/// otherwise, in the image's own color space.
pub fn encode_prepared(
    canvas: &Canvas,
    line_art: bool,
    role: ImageRole,
    profile: &DeviceCaps,
    quality: u8,
    warnings: &mut Vec<Warning>,
    path: &str,
) -> (r: Encoded)
    requires
        ({
            let (tw, th, _) = role_target(role, *profile);
            encodable(canvas.raster().0, canvas.raster().1, tw, th)
        }),
    ensures
        encoding_of(canvas.raster(), line_art, role, *profile, quality, encoded_view(r)),
        final(warnings)@.map_values(|w: Warning| warning_view(w)) == old(warnings)@.map_values(
            |w: Warning| warning_view(w),
        ) + encode_warnings(encoded_view(r), role_target(role, *profile).2, path@),
{
    let ghost before = warnings@.map_values(|w: Warning| warning_view(w));
    let (tw, th, budget, photo_q) = match role {
        ImageRole::Cover => (
            profile.cover_max.0,
            profile.cover_max.1,
            profile.cover_budget_bytes,
            if quality > 85 {
                quality
            } else {
                85
            },
        ),
        ImageRole::Inline => (
            profile.inline_max.0,
            profile.inline_max.1,
            profile.inline_budget_bytes,
            quality,
        ),
    };
    let ghost rs = canvas.raster();
    let fitted = fit_canvas(canvas, tw, th);
    let (fw, fh) = fitted.dimensions();
    proof {
        law_fit_never_upscales(rs.0, rs.1, tw, th);
        assert(fitted.raster() == fitted_raster(rs, tw, th));
        assert(fw * fh <= tw * th) by (nonlinear_arith)
            requires
                fw <= tw,
                fh <= th,
        ;
    }
    if line_art {
        let png = encode_canvas_png(&fitted);
        if png.len() <= budget {
            let r = Encoded { data: png, format: OutFormat::Png, width: fw, height: fh, quality: None };
            assert(encoded_view(r) == (best_png(fitted.raster().2, fw, fh, fitted.raster().3), OutFormat::Png, fw, fh, None::<u8>));
            assert(encode_warnings(encoded_view(r), budget, path@) =~= Seq::empty());
            assert(warnings@.map_values(|w: Warning| warning_view(w)) =~= before + Seq::empty());
            return r;
        }
        let s: u8 = if quality > 249 {
            255
        } else {
            quality + 6
        };
        let line_q: u8 = if s < 95 {
            s
        } else {
            95
        };
        let fit = fit_canvas_to_budget(fitted, line_q, budget);
        warn_if_over_budget(&fit, budget, warnings, path);
        let r = Encoded {
            data: fit.data,
            format: OutFormat::Jpeg,
            width: fit.width,
            height: fit.height,
            quality: Some(fit.quality),
        };
        assert(warnings@.map_values(|w: Warning| warning_view(w)) =~= before + encode_warnings(
            encoded_view(r),
            budget,
            path@,
        ));
        return r;
    }
    let fit = fit_canvas_to_budget(fitted, photo_q, budget);
    warn_if_over_budget(&fit, budget, warnings, path);
    let r = Encoded {
        data: fit.data,
        format: OutFormat::Jpeg,
        width: fit.width,
        height: fit.height,
        quality: Some(fit.quality),
    };
    assert(warnings@.map_values(|w: Warning| warning_view(w)) =~= before + encode_warnings(
        encoded_view(r),
        budget,
        path@,
    ));
    r
}

/// Bytes rounded to the nearest kibibyte.
pub open spec fn kb_of(bytes: nat) -> nat {
    (bytes + 512) / 1024
}

/// Bytes rounded to the nearest kibibyte, for display.
pub fn kb(bytes: usize) -> (r: u128)
    ensures
        r == kb_of(bytes as nat),
{
    ((bytes as u128) + 512) / 1024
}

/// The quality part of a report note: ` q<quality>` for a JPEG.
pub open spec fn quality_note(q: Option<u8>) -> Seq<char> {
    match q {
        Some(q) => " q"@ + decimal(q as nat),
        None => Seq::empty(),
    }
}

/// The report note of a processed image, in the shape
/// `1600x2400 png -> 480x730 jpeg q82 312KB -> 64KB`.
pub open spec fn note_text(
    in_w: u32,
    in_h: u32,
    in_fmt: InFormat,
    out_w: u32,
    out_h: u32,
    out_fmt: OutFormat,
    q: Option<u8>,
    in_len: nat,
    out_len: nat,
) -> Seq<char> {
    decimal(in_w as nat) + "x"@ + decimal(in_h as nat) + " "@ + in_label(in_fmt) + " -> "@
        + decimal(out_w as nat) + "x"@ + decimal(out_h as nat) + " "@ + out_label(out_fmt)
        + quality_note(q) + " "@ + decimal(kb_of(in_len)) + "KB -> "@ + decimal(kb_of(out_len))
        + "KB"@
}

/// Build the report note of a processed image.
pub fn note_str(
    prepared: &Prepared,
    out_w: u32,
    out_h: u32,
    out_fmt: OutFormat,
    quality: Option<u8>,
    in_len: usize,
    out_len: usize,
) -> (r: String)
    ensures
        r@ == note_text(
            prepared.in_w,
            prepared.in_h,
            prepared.in_fmt,
            out_w,
            out_h,
            out_fmt,
            quality,
            in_len as nat,
            out_len as nat,
        ),
{
    let mut m: Vec<char> = Vec::new();
    push_decimal(&mut m, prepared.in_w as u128);
    push_str(&mut m, "x");
    push_decimal(&mut m, prepared.in_h as u128);
    push_str(&mut m, " ");
    push_str(&mut m, prepared.in_fmt.label());
    push_str(&mut m, " -> ");
    push_decimal(&mut m, out_w as u128);
    push_str(&mut m, "x");
    push_decimal(&mut m, out_h as u128);
    push_str(&mut m, " ");
    push_str(&mut m, out_fmt.label());
    match quality {
        Some(q) => {
            push_str(&mut m, " q");
            push_decimal(&mut m, q as u128);
        },
        None => {},
    }
    push_str(&mut m, " ");
    push_decimal(&mut m, kb(in_len));
    push_str(&mut m, "KB -> ");
    push_decimal(&mut m, kb(out_len));
    push_str(&mut m, "KB");
    let r = string_of(&m);
    assert(r@ =~= note_text(
        prepared.in_w,
        prepared.in_h,
        prepared.in_fmt,
        out_w,
        out_h,
        out_fmt,
        quality,
        in_len as nat,
        out_len as nat,
    ));
    r
}

/// Whether `r` is what finishing the prepared image `p` gives, and the
/// warnings went from `before` to `after`: the encoding of its canvas for
/// `role`, with its report note.
pub open spec fn finished(
    p: Prepared,
    role: ImageRole,
    caps: DeviceCaps,
    quality: u8,
    in_len: nat,
    path: Seq<char>,
    r: ImageOutcome,
    before: Seq<(Seq<char>, Option<Seq<char>>)>,
    after: Seq<(Seq<char>, Option<Seq<char>>)>,
) -> bool {
    match r {
        ImageOutcome::Processed { data, format, width, height, note } => exists|q: Option<u8>|
            #![trigger quality_note(q)]
            {
                &&& encoding_of(
                    p.canvas.raster(),
                    p.line_art,
                    role,
                    caps,
                    quality,
                    (data@, format, width, height, q),
                )
                &&& note@ == note_text(
                    p.in_w,
                    p.in_h,
                    p.in_fmt,
                    width,
                    height,
                    format,
                    q,
                    in_len,
                    data@.len(),
                )
                &&& after == before + encode_warnings(
                    (data@, format, width, height, q),
                    role_target(role, caps).2,
                    path,
                )
            },
        ImageOutcome::Unchanged { .. } => false,
    }
}

/// Fit, encode and budget-check a prepared image for its role, with the
/// note for its report line.
pub fn finish(
    prepared: Prepared,
    role: ImageRole,
    profile: &DeviceCaps,
    quality: u8,
    in_len: usize,
    warnings: &mut Vec<Warning>,
    path: &str,
) -> (r: ImageOutcome)
    requires
        ({
            let (tw, th, _) = role_target(role, *profile);
            encodable(prepared.canvas.raster().0, prepared.canvas.raster().1, tw, th)
        }),
    ensures
        finished(
            prepared,
            role,
            *profile,
            quality,
            in_len as nat,
            path@,
            r,
            old(warnings)@.map_values(|w: Warning| warning_view(w)),
            final(warnings)@.map_values(|w: Warning| warning_view(w)),
        ),
{
    let enc = encode_prepared(
        &prepared.canvas,
        prepared.line_art,
        role,
        profile,
        quality,
        warnings,
        path,
    );
    let note = note_str(
        &prepared,
        enc.width,
        enc.height,
        enc.format,
        enc.quality,
        in_len,
        enc.data.len(),
    );
    let ghost q = enc.quality;
    let r = ImageOutcome::Processed {
        data: enc.data,
        format: enc.format,
        width: enc.width,
        height: enc.height,
        note,
    };
    // The encoding's quality is the witness `finished` asks for.
    assert(quality_note(q) == quality_note(q));
    r
}

/// The warning for an image too large, or empty, to fit and encode.
pub open spec fn unencodable_warning(path: Seq<char>, w: u32, h: u32) -> (
    Seq<char>,
    Option<Seq<char>>,
) {
    (
        "could not encode "@ + path + " at "@ + decimal(w as nat) + "x"@ + decimal(h as nat)
            + "; left it unchanged"@,
        Some(path),
    )
}

/// Whether the prepared image `p` is what `sniff_and_prepare` gives for
/// `data` on a panel that is color or not.
pub open spec fn prepared_from(p: Prepared, data: Seq<u8>, color: bool) -> bool {
    let (w, h) = crate::images::decoded_size(data);
    &&& crate::images::sniff_spec(data) == Some(p.in_fmt)
    &&& (p.in_w, p.in_h) == (w, h)
    &&& p.canvas.dims() == (w, h)
    &&& crate::images::device_canvas(
        w,
        h,
        crate::images::decoded_rgba(data),
        color,
        p.canvas,
        p.line_art,
    )
}

/// Whether a `w` x `h` image can be fitted to a `tw` x `th` box and
/// encoded (`encodable`).
pub(crate) fn can_encode(w: u32, h: u32, tw: u32, th: u32) -> (r: bool)
    ensures
        r == encodable(w, h, tw, th),
{
    if w < 1 || h < 1 || tw < 1 || th < 1 {
        return false;
    }
    let (fw, fh) = fitted_size(w, h, tw, th);
    if fw > 65535 || fh > 65535 {
        return false;
    }
    let a = crate::canvas::area(w, th) as u128;
    let b = crate::canvas::area(tw, th) as u128;
    4 * a <= usize::MAX as u128 && 4 * b <= usize::MAX as u128
}

/// The reason recorded for an image left as it is.
pub open spec fn unsupported_reason() -> Seq<char> {
    "unsupported or undecodable image"@
}

/// Whether `r` is what finishing the prepared image `p` gives once its
/// size is checked, the warnings going from `before` to `after`: the
/// finished encoding when it is `encodable`, else left unchanged with a
/// warning.
pub open spec fn checked_finish(
    p: Prepared,
    role: ImageRole,
    caps: DeviceCaps,
    quality: u8,
    in_len: nat,
    path: Seq<char>,
    r: ImageOutcome,
    before: Seq<(Seq<char>, Option<Seq<char>>)>,
    after: Seq<(Seq<char>, Option<Seq<char>>)>,
) -> bool {
    let (tw, th, _) = role_target(role, caps);
    let (w, h) = (p.canvas.raster().0, p.canvas.raster().1);
    &&& encodable(w, h, tw, th) ==> finished(p, role, caps, quality, in_len, path, r, before, after)
    &&& !encodable(w, h, tw, th) ==> (r matches ImageOutcome::Unchanged { reason } && reason@
        == unsupported_reason() && after == before.push(unencodable_warning(path, w, h)))
}

/// The warning for an image too large, or empty, to fit and encode.
pub(crate) fn warn_unencodable(warnings: &mut Vec<Warning>, path: &str, w: u32, h: u32)
    ensures
        final(warnings)@.map_values(|x: Warning| warning_view(x)) == old(warnings)@.map_values(
            |x: Warning| warning_view(x),
        ).push(unencodable_warning(path@, w, h)),
{
    let ghost before = warnings@.map_values(|x: Warning| warning_view(x));
    let mut m: Vec<char> = Vec::new();
    push_str(&mut m, "could not encode ");
    push_all(&mut m, &chars_of(path));
    push_str(&mut m, " at ");
    push_decimal(&mut m, w as u128);
    push_str(&mut m, "x");
    push_decimal(&mut m, h as u128);
    push_str(&mut m, "; left it unchanged");
    let warning = Warning { message: string_of(&m), file: Some(path.to_owned()) };
    warnings.push(warning);
    assert(warnings@.map_values(|x: Warning| warning_view(x)) =~= before.push(
        unencodable_warning(path@, w, h),
    ));
}

/// `finish`, once the image's size is checked: an image too large, or
/// empty, to fit and encode is left unchanged with a warning.
pub fn finish_checked(
    prepared: Prepared,
    role: ImageRole,
    profile: &DeviceCaps,
    quality: u8,
    in_len: usize,
    warnings: &mut Vec<Warning>,
    path: &str,
) -> (r: ImageOutcome)
    ensures
        checked_finish(
            prepared,
            role,
            *profile,
            quality,
            in_len as nat,
            path@,
            r,
            old(warnings)@.map_values(|w: Warning| warning_view(w)),
            final(warnings)@.map_values(|w: Warning| warning_view(w)),
        ),
{
    let (tw, th) = match role {
        ImageRole::Cover => profile.cover_max,
        ImageRole::Inline => profile.inline_max,
    };
    let (w, h) = prepared.canvas.dimensions();
    if !can_encode(w, h, tw, th) {
        warn_unencodable(warnings, path, w, h);
        return ImageOutcome::Unchanged { reason: "unsupported or undecodable image".to_owned() };
    }
    finish(prepared, role, profile, quality, in_len, warnings, path)
}

/// Process one raster for the device: sniff its format from its magic
/// bytes (never its name), decode and normalize it, and re-encode it
/// within the byte budget for its role. Input that cannot be identified
/// or decoded, and an image too large (or empty) to encode, is left
/// unchanged with a warning.
pub fn process_image(
    data: &[u8],
    role: ImageRole,
    profile: &DeviceCaps,
    quality: u8,
    warnings: &mut Vec<Warning>,
    path: &str,
) -> (r: ImageOutcome)
    ensures
        ({
            let before = old(warnings)@.map_values(|w: Warning| warning_view(w));
            let after = final(warnings)@.map_values(|w: Warning| warning_view(w));
            let mid = before + intake_warnings(data@, path@);
            &&& !decodable(data@) ==> (r matches ImageOutcome::Unchanged { reason } && reason@
                == unsupported_reason() && after == mid)
            &&& decodable(data@) ==> exists|p: Prepared|
                #![trigger prepared_from(p, data@, profile.panel is Color)]
                {
                    &&& prepared_from(p, data@, profile.panel is Color)
                    &&& checked_finish(p, role, *profile, quality, data@.len(), path@, r, mid, after)
                }
        }),
{
    let prepared = match sniff_and_prepare(data, profile.panel.is_color(), warnings, path) {
        Some(p) => p,
        None => {
            return ImageOutcome::Unchanged { reason: "unsupported or undecodable image".to_owned() };
        },
    };
    assert(prepared_from(prepared, data@, profile.panel is Color));
    finish_checked(prepared, role, profile, quality, data.len(), warnings, path)
}

/// Whether `r` is what the pipeline gives for the prepared image `p` on
/// its way to a book, the warnings going from `before` to `after`: for an
/// inline image with splitting asked for, its page tiles when it is tall
/// (and, when tall, left unchanged with a warning if its tiles cannot be
/// encoded); otherwise the checked finish.
pub open spec fn converted(
    p: Prepared,
    role: ImageRole,
    caps: DeviceCaps,
    quality: u8,
    split_tall: bool,
    in_len: nat,
    path: Seq<char>,
    r: PipelineResult,
    before: Seq<(Seq<char>, Option<Seq<char>>)>,
    after: Seq<(Seq<char>, Option<Seq<char>>)>,
) -> bool {
    let (w, h) = (p.canvas.raster().0, p.canvas.raster().1);
    let max_w = caps.inline_max.0;
    let tile_h = caps.screen_h;
    let budget = caps.inline_budget_bytes;
    let f = split_fitted(p.canvas.raster(), max_w);
    if split_tall && role == ImageRole::Inline && is_tall(w, h, max_w, tile_h) {
        if splittable(w, h, max_w, tile_h) {
            r matches PipelineResult::Split(ts) && tiled(
                f,
                tile_h,
                quality,
                budget,
                path,
                ts@,
                before,
                after,
            )
        } else {
            r matches PipelineResult::Single(ImageOutcome::Unchanged { reason }) && reason@
                == unsupported_reason() && after == before.push(unencodable_warning(path, w, h))
        }
    } else {
        r matches PipelineResult::Single(o) && checked_finish(
            p,
            role,
            caps,
            quality,
            in_len,
            path,
            o,
            before,
            after,
        )
    }
}

/// What the pipeline gives for the bytes `data` on their way to a book,
/// the warnings going from `before` to `after`: unchanged when they do not
/// sniff and decode, else `converted` from what they prepare to.
pub open spec fn pipeline_result(
    data: Seq<u8>,
    role: ImageRole,
    caps: DeviceCaps,
    quality: u8,
    split_tall: bool,
    path: Seq<char>,
    r: PipelineResult,
    before: Seq<(Seq<char>, Option<Seq<char>>)>,
    after: Seq<(Seq<char>, Option<Seq<char>>)>,
) -> bool {
    let mid = before + intake_warnings(data, path);
    &&& !decodable(data) ==> (r matches PipelineResult::Single(ImageOutcome::Unchanged { reason })
        && reason@ == unsupported_reason() && after == mid)
    &&& decodable(data) ==> exists|p: Prepared|
        #![trigger prepared_from(p, data, caps.panel is Color)]
        {
            &&& prepared_from(p, data, caps.panel is Color)
            &&& converted(p, role, caps, quality, split_tall, data.len(), path, r, mid, after)
        }
}

/// `process_image` for the book pass: an inline image can also be split
/// into page tiles, when asked for and tall enough.
pub fn process_for_convert(
    data: &[u8],
    role: ImageRole,
    profile: &DeviceCaps,
    quality: u8,
    split_tall: bool,
    warnings: &mut Vec<Warning>,
    path: &str,
) -> (r: PipelineResult)
    ensures
        pipeline_result(
            data@,
            role,
            *profile,
            quality,
            split_tall,
            path@,
            r,
            old(warnings)@.map_values(|w: Warning| warning_view(w)),
            final(warnings)@.map_values(|w: Warning| warning_view(w)),
        ),
{
    let prepared = match sniff_and_prepare(data, profile.panel.is_color(), warnings, path) {
        Some(p) => p,
        None => {
            return PipelineResult::Single(
                ImageOutcome::Unchanged { reason: "unsupported or undecodable image".to_owned() },
            );
        },
    };
    assert(prepared_from(prepared, data@, profile.panel is Color));
    let inline = match role {
        ImageRole::Inline => true,
        ImageRole::Cover => false,
    };
    if split_tall && inline {
        let (w, h) = prepared.canvas.dimensions();
        if !can_split(w, h, profile.inline_max.0, profile.screen_h) {
            warn_unencodable(warnings, path, w, h);
            return PipelineResult::Single(
                ImageOutcome::Unchanged { reason: "unsupported or undecodable image".to_owned() },
            );
        }
        match run(prepared, profile, quality, warnings, path) {
            Outcome::Tiles(tiles) => {
                return PipelineResult::Split(tiles);
            },
            Outcome::NotTall(back) => {
                return PipelineResult::Single(
                    finish_checked(back, role, profile, quality, data.len(), warnings, path),
                );
            },
        }
    }
    PipelineResult::Single(finish_checked(prepared, role, profile, quality, data.len(), warnings, path))
}

// ---------------------------------------------------------------------
// Rendered images
// ---------------------------------------------------------------------

/// How a rendered image is prepared for encoding.
#[derive(Debug, Clone, Copy, PartialEq, Eq)]
pub enum RenderHint {
    /// Classify it from its histogram, like a decoded file.
    Auto,
    /// It is line art by construction: no classification, no stretch.
    LineArt,
}

/// Whether `c` and `line_art` are what preparing a rendered `w` x `h`
/// image of RGBA bytes `rgba` gives under `hint`: as a decoded file would
/// be, or, for line art, its alpha composited onto white and its pixels
/// reduced to the panel's color space, untouched otherwise.
pub open spec fn rendered_canvas(
    w: u32,
    h: u32,
    rgba: Seq<u8>,
    color: bool,
    hint: RenderHint,
    c: Canvas,
    line_art: bool,
) -> bool {
    match hint {
        RenderHint::Auto => crate::images::device_canvas(w, h, rgba, color, c, line_art),
        RenderHint::LineArt => {
            let flat = crate::images::composited(rgba);
            &&& line_art
            &&& if color {
                c matches Canvas::Rgb(x) && x@ == (w, h, crate::canvas::rgb_of_rgba(flat))
            } else {
                c matches Canvas::Gray(g) && g@ == (w, h, crate::canvas::luma_of_rgba(flat))
            }
        },
    }
}

/// Whether `r` is what encoding a rendered image gives: the encoding of
/// its prepared canvas when the image is `encodable` for the role's box,
/// else nothing.
pub open spec fn rendered_encoding(
    img: DynamicImage,
    hint: RenderHint,
    role: ImageRole,
    caps: DeviceCaps,
    quality: u8,
    r: Option<(Seq<u8>, OutFormat, u32, u32, Option<u8>)>,
) -> bool {
    let (w, h) = image_size(img);
    let (tw, th, _) = role_target(role, caps);
    if encodable(w, h, tw, th) {
        &&& r is Some
        &&& exists|c: Canvas, la: bool|
            #![trigger rendered_canvas(w, h, rgba8_contents(img), caps.panel is Color, hint, c, la)]
            {
                &&& rendered_canvas(w, h, rgba8_contents(img), caps.panel is Color, hint, c, la)
                &&& encoding_of(c.raster(), la, role, caps, quality, r->0)
            }
    } else {
        r is None
    }
}

/// The warnings encoding a rendered image records, given its outcome `r`.
pub open spec fn rendered_warnings(
    img: DynamicImage,
    role: ImageRole,
    caps: DeviceCaps,
    path: Seq<char>,
    r: Option<(Seq<u8>, OutFormat, u32, u32, Option<u8>)>,
) -> Seq<(Seq<char>, Option<Seq<char>>)> {
    match r {
        Some(e) => encode_warnings(e, role_target(role, caps).2, path),
        None => seq![unencodable_warning(path, image_size(img).0, image_size(img).1)],
    }
}

/// Normalize and encode an image rendered from vector art, through the
/// same fit and budget as a decoded file; `hint` says whether to classify
/// it or take it as line art. An image too large (or empty) to encode
/// gives nothing, with a warning.
pub fn encode_rendered(
    img: DynamicImage,
    hint: RenderHint,
    role: ImageRole,
    profile: &DeviceCaps,
    quality: u8,
    warnings: &mut Vec<Warning>,
    path: &str,
) -> (r: Option<Encoded>)
    ensures
        rendered_encoding(
            img,
            hint,
            role,
            *profile,
            quality,
            match r {
                Some(e) => Some(encoded_view(e)),
                None => None,
            },
        ),
        final(warnings)@.map_values(|w: Warning| warning_view(w)) == old(warnings)@.map_values(
            |w: Warning| warning_view(w),
        ) + rendered_warnings(
            img,
            role,
            *profile,
            path@,
            match r {
                Some(e) => Some(encoded_view(e)),
                None => None,
            },
        ),
{
    let ghost rgba = rgba8_contents(img);
    let ghost size = image_size(img);
    let color = profile.panel.is_color();
    let (canvas, line_art) = match hint {
        RenderHint::Auto => to_device_canvas(img, color),
        RenderHint::LineArt => (Canvas::from_flattened(flatten_alpha_onto_white(img), color), true),
    };
    assert(rendered_canvas(size.0, size.1, rgba, color, hint, canvas, line_art));
    let (tw, th) = match role {
        ImageRole::Cover => profile.cover_max,
        ImageRole::Inline => profile.inline_max,
    };
    let (w, h) = canvas.dimensions();
    if !can_encode(w, h, tw, th) {
        warn_unencodable(warnings, path, w, h);
        return None;
    }
    let e = encode_prepared(&canvas, line_art, role, profile, quality, warnings, path);
    assert(encoding_of(canvas.raster(), line_art, role, *profile, quality, encoded_view(e)));
    Some(e)
}

/// Some first-phase attempt fits exactly when a first one does.
proof fn lemma_some_first_fit(
    px: Seq<u8>,
    w0: u32,
    h0: u32,
    ch: u8,
    qs: Seq<u8>,
    budget: int,
    k: int,
)
    requires
        0 <= k <= qs.len(),
        forall|j: int| 0 <= j < k ==> crate::encode::first_phase_len(px, w0, h0, ch, qs, j) > budget,
        !crate::encode::none_fit(px, w0, h0, ch, qs, budget),
    ensures
        exists|i: int| #[trigger] crate::encode::first_fit(px, w0, h0, ch, qs, budget, i),
    decreases qs.len() - k,
{
    if k < qs.len() {
        if crate::encode::first_phase_len(px, w0, h0, ch, qs, k) <= budget {
            assert(crate::encode::first_fit(px, w0, h0, ch, qs, budget, k));
        } else {
            lemma_some_first_fit(px, w0, h0, ch, qs, budget, k + 1);
        }
    } else {
        let i = choose|i: int|
            0 <= i < qs.len() && !(crate::encode::first_phase_len(px, w0, h0, ch, qs, i) > budget);
    }
}

/// Each second-phase shrink of a `w` x `h` image is no larger than it.
proof fn lemma_shrunk_smaller(w: u32, h: u32, p: int)
    requires
        w >= 1,
        h >= 1,
        crate::encode::planned_percent(p),
    ensures
        1 <= crate::encode::shrunk(w, h, p).0 <= w,
        1 <= crate::encode::shrunk(w, h, p).1 <= h,
{
    assert(w * p / 100 <= w && h * p / 100 <= h) by (nonlinear_arith)
        requires
            p <= 90,
            p >= 50,
            w >= 1,
            h >= 1,
    ;
}

/// An encoded image has the size of the image fitted to the box of its
/// role - the device's cover box for a cover, its inline box otherwise -
/// or, where the byte budget forced it, one of that size's shrinks; either
/// way it lies within the box, and an image larger than the box fills it
/// along one side unless it was shrunk.
pub proof fn law_images_fit_the_box_of_their_role(
    rs: (u32, u32, Seq<u8>, u8),
    line_art: bool,
    role: ImageRole,
    caps: DeviceCaps,
    quality: u8,
    e: (Seq<u8>, OutFormat, u32, u32, Option<u8>),
)
    requires
        encoding_of(rs, line_art, role, caps, quality, e),
        rs.0 >= 1,
        rs.1 >= 1,
        match role {
            ImageRole::Cover => caps.cover_max.0 >= 1 && caps.cover_max.1 >= 1,
            ImageRole::Inline => caps.inline_max.0 >= 1 && caps.inline_max.1 >= 1,
        },
    ensures
        role == ImageRole::Cover ==> ((e.2 as int, e.3 as int) == fit_dims(rs.0, rs.1, caps.cover_max.0, caps.cover_max.1) || exists|p: int|
            crate::encode::planned_percent(p) && (e.2 as int, e.3 as int)
                == #[trigger] crate::encode::shrunk(fit_dims(rs.0, rs.1, caps.cover_max.0, caps.cover_max.1).0 as u32, fit_dims(rs.0, rs.1, caps.cover_max.0, caps.cover_max.1).1 as u32, p)),
        role == ImageRole::Cover ==> 1 <= e.2 <= caps.cover_max.0 && 1 <= e.3 <= caps.cover_max.1,
        role == ImageRole::Cover && e.1 == OutFormat::Png ==> e.0.len() <= caps.cover_budget_bytes
            && line_art && e.4 is None,
        role == ImageRole::Cover && (rs.0 > caps.cover_max.0 || rs.1 > caps.cover_max.1) ==> (fit_dims(rs.0, rs.1, caps.cover_max.0, caps.cover_max.1).0
            == caps.cover_max.0 || fit_dims(rs.0, rs.1, caps.cover_max.0, caps.cover_max.1).1 == caps.cover_max.1),
        role == ImageRole::Inline ==> ((e.2 as int, e.3 as int) == fit_dims(rs.0, rs.1, caps.inline_max.0, caps.inline_max.1) || exists|p: int|
            crate::encode::planned_percent(p) && (e.2 as int, e.3 as int)
                == #[trigger] crate::encode::shrunk(fit_dims(rs.0, rs.1, caps.inline_max.0, caps.inline_max.1).0 as u32, fit_dims(rs.0, rs.1, caps.inline_max.0, caps.inline_max.1).1 as u32, p)),
        role == ImageRole::Inline ==> 1 <= e.2 <= caps.inline_max.0 && 1 <= e.3 <= caps.inline_max.1,
        role == ImageRole::Inline && e.1 == OutFormat::Png ==> e.0.len() <= caps.inline_budget_bytes
            && line_art && e.4 is None,
        role == ImageRole::Inline && (rs.0 > caps.inline_max.0 || rs.1 > caps.inline_max.1) ==> (fit_dims(rs.0, rs.1, caps.inline_max.0, caps.inline_max.1).0
            == caps.inline_max.0 || fit_dims(rs.0, rs.1, caps.inline_max.0, caps.inline_max.1).1 == caps.inline_max.1),
{
    let bw = if role == ImageRole::Cover { caps.cover_max.0 } else { caps.inline_max.0 };
    let bh = if role == ImageRole::Cover { caps.cover_max.1 } else { caps.inline_max.1 };
    let (tw, th, budget) = role_target(role, caps);
    assert(tw == bw && th == bh);
    let fd = fit_dims(rs.0, rs.1, bw, bh);
    crate::resize::law_fit_never_upscales(rs.0, rs.1, bw, bh);
    let f = fitted_raster(rs, tw, th);
    assert(f.0 as int == fd.0 && f.1 as int == fd.1);
    let (fw, fh, fpx, ch) = f;
    let png = best_png(fpx, fw, fh, ch);
    if !(line_art && png.len() <= budget) {
        let start = if line_art {
            line_art_quality(quality)
        } else {
            photo_quality(role, quality)
        };
        let qs = crate::encode::planned_qualities(
            if start > crate::encode::QUALITY_FLOOR {
                start
            } else {
                crate::encode::QUALITY_FLOOR
            },
        );
        let r = (e.0, e.2, e.3, e.4->0, e.0.len() > budget);
        assert(budget_outcome(r, fpx, fw, fh, ch, start, budget));
        if crate::encode::none_fit(fpx, fw, fh, ch, qs, budget as int) {
            if r.4 {
                assert(crate::encode::attempt_dims(fw, fh, e.2, e.3));
            }
            if e.2 != fw || e.3 != fh {
                let p = choose|p: int|
                    crate::encode::planned_percent(p) && (e.2 as int, e.3 as int)
                        == #[trigger] crate::encode::shrunk(fw, fh, p);
                lemma_shrunk_smaller(fw, fh, p);
            }
        } else {
            lemma_some_first_fit(fpx, fw, fh, ch, qs, budget as int, 0);
            let k = choose|k: int| #[trigger] crate::encode::first_fit(fpx, fw, fh, ch, qs, budget as int, k);
            assert(crate::encode::first_fit(fpx, fw, fh, ch, qs, budget as int, k));
            assert(r.1 == fw && r.2 == fh);
        }
    }
    assert((e.2 as int, e.3 as int) == fd || exists|p: int|
        crate::encode::planned_percent(p) && (e.2 as int, e.3 as int)
            == #[trigger] crate::encode::shrunk(fd.0 as u32, fd.1 as u32, p));
    assert(1 <= e.2 <= bw);
    assert(1 <= e.3 <= bh);
    assert((rs.0 > bw || rs.1 > bh) ==> (fd.0 == bw || fd.1 == bh));
}

/// A JPEG starts at its role's quality: a photo at the requested quality,
/// raised to at least 85 for a cover; line art (whose PNG was over budget)
/// six steps higher, at most 95; never below the floor of 40. When the
/// fitted image encoded at that quality fits the role's byte budget, that
/// is the JPEG.
pub proof fn law_jpeg_starts_at_the_roles_quality(
    rs: (u32, u32, Seq<u8>, u8),
    line_art: bool,
    role: ImageRole,
    caps: DeviceCaps,
    quality: u8,
    e: (Seq<u8>, OutFormat, u32, u32, Option<u8>),
)
    requires
        encoding_of(rs, line_art, role, caps, quality, e),
        e.1 == OutFormat::Jpeg,
    ensures
        ({
            let s0: int = if line_art {
                if quality as int + 6 > 95 {
                    95
                } else {
                    quality as int + 6
                }
            } else if role == ImageRole::Cover && quality < 85 {
                85
            } else {
                quality as int
            };
            let s1: int = if s0 > 40 {
                s0
            } else {
                40
            };
            let bw = if role == ImageRole::Cover {
                caps.cover_max.0
            } else {
                caps.inline_max.0
            };
            let bh = if role == ImageRole::Cover {
                caps.cover_max.1
            } else {
                caps.inline_max.1
            };
            let budget = if role == ImageRole::Cover {
                caps.cover_budget_bytes
            } else {
                caps.inline_budget_bytes
            };
            let f = fitted_raster(rs, bw, bh);
            &&& e.4 is Some
            &&& 40 <= e.4->0 <= s1
            &&& crate::encode::baseline_jpeg(f.2, f.0, f.1, f.3, s1 as u8).len() <= budget ==> {
                &&& e.4 == Some(s1 as u8)
                &&& e.0 == crate::encode::baseline_jpeg(f.2, f.0, f.1, f.3, s1 as u8)
                &&& (e.2, e.3) == (f.0, f.1)
            }
        }),
{
    let (tw, th, budget) = role_target(role, caps);
    let f = fitted_raster(rs, tw, th);
    let (fw, fh, fpx, ch) = f;
    let start = if line_art {
        line_art_quality(quality)
    } else {
        photo_quality(role, quality)
    };
    let qs = crate::encode::budget_qualities(start);
    let r = (e.0, e.2, e.3, e.4->0, e.0.len() > budget);
    assert(budget_outcome(r, fpx, fw, fh, ch, start, budget));
    let s1 = if start > crate::encode::QUALITY_FLOOR {
        start
    } else {
        crate::encode::QUALITY_FLOOR
    };
    lemma_planned_qualities(s1);
    if crate::encode::first_phase_len(fpx, fw, fh, ch, qs, 0) <= budget {
        assert(crate::encode::first_fit(fpx, fw, fh, ch, qs, budget as int, 0));
    }
    if crate::encode::none_fit(fpx, fw, fh, ch, qs, budget as int) {
    } else {
        lemma_some_first_fit(fpx, fw, fh, ch, qs, budget as int, 0);
        let k = choose|k: int| #[trigger] crate::encode::first_fit(fpx, fw, fh, ch, qs, budget as int, k);
        assert(crate::encode::first_fit(fpx, fw, fh, ch, qs, budget as int, k));
    }
}

/// The qualities the budget loop tries from `q` (at least the floor) start
/// at `q` and stay between the floor and `q`.
proof fn lemma_planned_qualities(q: u8)
    requires
        q >= crate::encode::QUALITY_FLOOR,
    ensures
        crate::encode::planned_qualities(q).len() >= 1,
        crate::encode::planned_qualities(q)[0] == q,
        forall|k: int|
            0 <= k < crate::encode::planned_qualities(q).len() ==> crate::encode::QUALITY_FLOOR
                <= #[trigger] crate::encode::planned_qualities(q)[k] <= q,
    decreases q,
{
    if q > crate::encode::QUALITY_FLOOR {
        let n = crate::encode::next_quality(q);
        lemma_planned_qualities(n);
        let rest = crate::encode::planned_qualities(n);
        assert forall|k: int| 0 <= k < crate::encode::planned_qualities(q).len() implies crate::encode::QUALITY_FLOOR
            <= #[trigger] crate::encode::planned_qualities(q)[k] <= q by {
            if k > 0 {
                assert(crate::encode::planned_qualities(q)[k] == rest[k - 1]);
            }
        }
    }
}

} // verus!
