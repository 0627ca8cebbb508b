//! The image pipeline's vocabulary and its byte-level decisions: which
//! resources are rasters (sniffed from their magic bytes, never trusted from
//! an extension), what formats go in and come out, and how an image
//! reference splits into path and suffix.

use std::io::Cursor;

use image::codecs::gif::GifDecoder;
use image::codecs::webp::WebPDecoder;
use image::metadata::Orientation;
use image::{AnimationDecoder, DynamicImage, ImageDecoder, ImageFormat, ImageReader};
use vstd::prelude::*;

use crate::autocontrast::{autocontrast, autocontrasted};
use crate::canvas::{image_size, luma_bytes, luma_of_rgba, rgb_of_rgba, Canvas};
use crate::classify::{classified, classify, Kind};
use crate::report::{warning_view, Warning};
use crate::text::{chars_of, copy_range, push_all, push_str, string_of};

verus! {

/// Whether an image is laid out inline (in the reading flow) or is the
/// cover. The two get different fit targets and byte budgets.
#[derive(Debug, Clone, Copy, PartialEq, Eq)]
pub enum ImageRole {
    /// An image in the reading flow.
    Inline,
    /// The book cover.
    Cover,
}

/// The output encoding chosen for a processed image.
#[derive(Debug, Clone, Copy, PartialEq, Eq)]
pub enum OutFormat {
    /// Baseline JPEG (photos).
    Jpeg,
    /// 8-bit PNG (line art).
    Png,
}

/// A format's file extension.
pub open spec fn out_ext(f: OutFormat) -> Seq<char> {
    match f {
        OutFormat::Jpeg => "jpg"@,
        OutFormat::Png => "png"@,
    }
}

/// A format's name in report lines.
pub open spec fn out_label(f: OutFormat) -> Seq<char> {
    match f {
        OutFormat::Jpeg => "jpeg"@,
        OutFormat::Png => "png"@,
    }
}

/// A format's media type.
pub open spec fn out_media_type(f: OutFormat) -> Seq<char> {
    match f {
        OutFormat::Jpeg => "image/jpeg"@,
        OutFormat::Png => "image/png"@,
    }
}

impl OutFormat {
    /// The lowercase file extension (no dot) for this format.
    pub fn ext(self) -> (r: &'static str)
        ensures
            r@ == out_ext(self),
    {
        match self {
            OutFormat::Jpeg => "jpg",
            OutFormat::Png => "png",
        }
    }

    /// The media (MIME) type for this format.
    pub fn media_type(self) -> (r: &'static str)
        ensures
            r@ == out_media_type(self),
    {
        match self {
            OutFormat::Jpeg => "image/jpeg",
            OutFormat::Png => "image/png",
        }
    }

    /// The format's name in report lines.
    pub fn label(self) -> (r: &'static str)
        ensures
            r@ == out_label(self),
    {
        match self {
            OutFormat::Jpeg => "jpeg",
            OutFormat::Png => "png",
        }
    }
}

/// The result of processing a single raster.
pub enum ImageOutcome {
    /// The image was decoded and re-encoded for the device.
    Processed {
        /// The encoded output bytes.
        data: Vec<u8>,
        /// The chosen output format.
        format: OutFormat,
        /// Output width in pixels.
        width: u32,
        /// Output height in pixels.
        height: u32,
        /// A human-readable summary of the transformation.
        note: String,
    },
    /// The image could not be processed and was left byte-for-byte
    /// unchanged; a warning saying why has been recorded.
    Unchanged {
        /// Why the image was left untouched.
        reason: String,
    },
}

/// Raster formats recognized from their magic bytes.
#[derive(Debug, Clone, Copy, PartialEq, Eq)]
pub enum InFormat {
    Jpeg,
    Png,
    Gif,
    Webp,
    Tiff,
    Bmp,
}

impl InFormat {
    /// The format's name in report lines.
    pub fn label(self) -> (r: &'static str)
        ensures
            r@ == in_label(self),
    {
        match self {
            InFormat::Jpeg => "jpeg",
            InFormat::Png => "png",
            InFormat::Gif => "gif",
            InFormat::Webp => "webp",
            InFormat::Tiff => "tiff",
            InFormat::Bmp => "bmp",
        }
    }

    /// The lowercase file extension (no dot) and media type for this format.
    pub fn ext_and_media_type(self) -> (r: (&'static str, &'static str))
        ensures
            (r.0@, r.1@) == in_format_names(self),
    {
        match self {
            InFormat::Jpeg => ("jpg", "image/jpeg"),
            InFormat::Png => ("png", "image/png"),
            InFormat::Gif => ("gif", "image/gif"),
            InFormat::Webp => ("webp", "image/webp"),
            InFormat::Tiff => ("tiff", "image/tiff"),
            InFormat::Bmp => ("bmp", "image/bmp"),
        }
    }
}

/// The name of an input format in report lines.
pub open spec fn in_label(f: InFormat) -> Seq<char> {
    match f {
        InFormat::Jpeg => "jpeg"@,
        InFormat::Png => "png"@,
        InFormat::Gif => "gif"@,
        InFormat::Webp => "webp"@,
        InFormat::Tiff => "tiff"@,
        InFormat::Bmp => "bmp"@,
    }
}

/// A number for each input format, by which the decoder's results are
/// named.
pub open spec fn format_code(f: InFormat) -> u8 {
    match f {
        InFormat::Jpeg => 0,
        InFormat::Png => 1,
        InFormat::Gif => 2,
        InFormat::Webp => 3,
        InFormat::Tiff => 4,
        InFormat::Bmp => 5,
    }
}

/// The extension and media type of an input format.
pub open spec fn in_format_names(f: InFormat) -> (Seq<char>, Seq<char>) {
    match f {
        InFormat::Jpeg => ("jpg"@, "image/jpeg"@),
        InFormat::Png => ("png"@, "image/png"@),
        InFormat::Gif => ("gif"@, "image/gif"@),
        InFormat::Webp => ("webp"@, "image/webp"@),
        InFormat::Tiff => ("tiff"@, "image/tiff"@),
        InFormat::Bmp => ("bmp"@, "image/bmp"@),
    }
}

/// Whether `data` starts with the bytes `magic`.
pub open spec fn starts_with_bytes(data: Seq<u8>, magic: Seq<u8>) -> bool {
    magic.len() <= data.len() && data.take(magic.len() as int) == magic
}

/// The raster format `data`'s leading magic bytes announce, if any.
pub open spec fn sniff_spec(data: Seq<u8>) -> Option<InFormat> {
    if starts_with_bytes(data, seq![0xFFu8, 0xD8, 0xFF]) {
        Some(InFormat::Jpeg)
    } else if starts_with_bytes(data, seq![0x89u8, 0x50, 0x4E, 0x47, 0x0D, 0x0A, 0x1A, 0x0A]) {
        Some(InFormat::Png)
    } else if starts_with_bytes(data, seq![0x47u8, 0x49, 0x46, 0x38, 0x37, 0x61])
        || starts_with_bytes(data, seq![0x47u8, 0x49, 0x46, 0x38, 0x39, 0x61]) {
        Some(InFormat::Gif)
    } else if data.len() >= 12 && data.subrange(0, 4) == seq![0x52u8, 0x49, 0x46, 0x46]
        && data.subrange(8, 12) == seq![0x57u8, 0x45, 0x42, 0x50] {
        Some(InFormat::Webp)
    } else if starts_with_bytes(data, seq![0x49u8, 0x49, 0x2A, 0x00]) || starts_with_bytes(
        data,
        seq![0x4Du8, 0x4D, 0x00, 0x2A],
    ) {
        Some(InFormat::Tiff)
    } else if starts_with_bytes(data, seq![0x42u8, 0x4D]) {
        Some(InFormat::Bmp)
    } else {
        None
    }
}

/// What each format's leading magic bytes are read as: `FF D8 FF` JPEG,
/// the eight-byte PNG signature, `GIF87a`/`GIF89a` GIF, `RIFF` with `WEBP`
/// at offset 8 WebP, `II*\0`/`MM\0*` TIFF and `BM` BMP; data whose first
/// byte opens none of these is no supported raster.
pub proof fn law_sniffing_reads_magic_bytes(d: Seq<u8>)
    ensures
        d.len() >= 3 && d[0] == 0xFF && d[1] == 0xD8 && d[2] == 0xFF ==> sniff_spec(d) == Some(
            InFormat::Jpeg,
        ),
        d.len() >= 8 && d[0] == 0x89 && d[1] == 0x50 && d[2] == 0x4E && d[3] == 0x47 && d[4] == 0x0D
            && d[5] == 0x0A && d[6] == 0x1A && d[7] == 0x0A ==> sniff_spec(d) == Some(InFormat::Png),
        d.len() >= 6 && d[0] == 0x47 && d[1] == 0x49 && d[2] == 0x46 && d[3] == 0x38 && (d[4] == 0x37
            || d[4] == 0x39) && d[5] == 0x61 ==> sniff_spec(d) == Some(InFormat::Gif),
        d.len() >= 12 && d[0] == 0x52 && d[1] == 0x49 && d[2] == 0x46 && d[3] == 0x46 && d[8] == 0x57
            && d[9] == 0x45 && d[10] == 0x42 && d[11] == 0x50 ==> sniff_spec(d) == Some(
            InFormat::Webp,
        ),
        d.len() >= 4 && ((d[0] == 0x49 && d[1] == 0x49 && d[2] == 0x2A && d[3] == 0x00) || (d[0]
            == 0x4D && d[1] == 0x4D && d[2] == 0x00 && d[3] == 0x2A)) ==> sniff_spec(d) == Some(
            InFormat::Tiff,
        ),
        d.len() >= 2 && d[0] == 0x42 && d[1] == 0x4D ==> sniff_spec(d) == Some(InFormat::Bmp),
        d.len() == 0 || (d[0] != 0xFF && d[0] != 0x89 && d[0] != 0x47 && d[0] != 0x52 && d[0] != 0x49
            && d[0] != 0x4D && d[0] != 0x42) ==> sniff_spec(d) is None,
{
    if d.len() >= 3 && d[0] == 0xFF && d[1] == 0xD8 && d[2] == 0xFF {
        assert(d.take(3) =~= seq![0xFFu8, 0xD8, 0xFF]);
    }
    if d.len() >= 8 && d[0] == 0x89 && d[1] == 0x50 && d[2] == 0x4E && d[3] == 0x47 && d[4] == 0x0D
        && d[5] == 0x0A && d[6] == 0x1A && d[7] == 0x0A {
        assert(d.take(8) =~= seq![0x89u8, 0x50, 0x4E, 0x47, 0x0D, 0x0A, 0x1A, 0x0A]);
    }
    if d.len() >= 6 && d[0] == 0x47 && d[1] == 0x49 && d[2] == 0x46 && d[3] == 0x38 && d[5] == 0x61 {
        if d[4] == 0x37 {
            assert(d.take(6) =~= seq![0x47u8, 0x49, 0x46, 0x38, 0x37, 0x61]);
        }
        if d[4] == 0x39 {
            assert(d.take(6) =~= seq![0x47u8, 0x49, 0x46, 0x38, 0x39, 0x61]);
        }
    }
    if d.len() >= 12 && d[0] == 0x52 && d[1] == 0x49 && d[2] == 0x46 && d[3] == 0x46 && d[8] == 0x57
        && d[9] == 0x45 && d[10] == 0x42 && d[11] == 0x50 {
        assert(d.subrange(0, 4) =~= seq![0x52u8, 0x49, 0x46, 0x46]);
        assert(d.subrange(8, 12) =~= seq![0x57u8, 0x45, 0x42, 0x50]);
    }
    if d.len() >= 4 && d[0] == 0x49 && d[1] == 0x49 && d[2] == 0x2A && d[3] == 0x00 {
        assert(d.take(4) =~= seq![0x49u8, 0x49, 0x2A, 0x00]);
    }
    if d.len() >= 4 && d[0] == 0x4D && d[1] == 0x4D && d[2] == 0x00 && d[3] == 0x2A {
        assert(d.take(4) =~= seq![0x4Du8, 0x4D, 0x00, 0x2A]);
    }
    if d.len() >= 2 && d[0] == 0x42 && d[1] == 0x4D {
        assert(d.take(2) =~= seq![0x42u8, 0x4D]);
    }
    if d.len() > 0 {
        assert(d.len() >= 2 ==> d.take(2)[0] == d[0]);
        assert(d.len() >= 3 ==> d.take(3)[0] == d[0]);
        assert(d.len() >= 4 ==> d.take(4)[0] == d[0]);
        assert(d.len() >= 6 ==> d.take(6)[0] == d[0]);
        assert(d.len() >= 8 ==> d.take(8)[0] == d[0]);
        assert(d.len() >= 12 ==> d.subrange(0, 4)[0] == d[0]);
    }
}

/// Compositing onto white makes every pixel opaque, turns a fully
/// transparent pixel white, keeps a fully opaque one as it is, and only
/// ever lightens a color channel.
pub proof fn law_compositing_onto_white(px: Seq<u8>, i: int)
    requires
        px.len() % 4 == 0,
        0 <= i < px.len(),
    ensures
        composited(px).len() == px.len(),
        i % 4 == 3 ==> composited(px)[i] == 255,
        i % 4 != 3 && px[i - i % 4 + 3] == 0 ==> composited(px)[i] == 255,
        i % 4 != 3 && px[i - i % 4 + 3] == 255 ==> composited(px)[i] == px[i],
        composited(px)[i] >= px[i],
{
    if i % 4 != 3 {
        let c = px[i] as int;
        let a = px[i - i % 4 + 3] as int;
        assert(0 <= c <= 255 && 0 <= a <= 255);
        assert((c * a + 255 * (255 - a)) / 255 >= c) by (nonlinear_arith)
            requires
                0 <= c <= 255,
                0 <= a <= 255,
        ;
        assert((c * a + 255 * (255 - a)) / 255 <= 255) by (nonlinear_arith)
            requires
                0 <= c <= 255,
                0 <= a <= 255,
        ;
        assert(a == 0 ==> (c * a + 255 * (255 - a)) / 255 == 255);
        assert(a == 255 ==> (c * a + 255 * (255 - a)) / 255 == c) by (nonlinear_arith)
            requires
                0 <= c <= 255,
        ;
    }
}

/// Whether `data[at..]` starts with `magic`.
fn has_bytes_at(data: &[u8], at: usize, magic: &[u8]) -> (r: bool)
    requires
        at <= data@.len(),
    ensures
        r == (at + magic@.len() <= data@.len() && data@.subrange(
            at as int,
            at + magic@.len(),
        ) == magic@),
{
    if magic.len() > data.len() - at {
        return false;
    }
    let mut i: usize = 0;
    while i < magic.len()
        invariant
            i <= magic@.len(),
            at + magic.len() <= data.len(),
            forall|k: int| 0 <= k < i ==> data@[at + k] == magic@[k],
        decreases magic.len() - i,
    {
        if data[at + i] != magic[i] {
            assert(data@.subrange(at as int, at + magic@.len())[i as int] != magic@[i as int]);
            return false;
        }
        i += 1;
    }
    assert(data@.subrange(at as int, at + magic@.len()) == magic@);
    true
}

/// Identify a raster format from its leading magic bytes. SVG has no magic
/// number and is never recognized here.
pub fn sniff(data: &[u8]) -> (r: Option<InFormat>)
    ensures
        r == sniff_spec(data@),
{
    assert(forall|m: Seq<u8>| m.len() <= data@.len() ==> data@.subrange(0, m.len() as int)
        == data@.take(m.len() as int));
    if has_bytes_at(data, 0, &[0xFF, 0xD8, 0xFF]) {
        return Some(InFormat::Jpeg);
    }
    if has_bytes_at(data, 0, &[0x89, 0x50, 0x4E, 0x47, 0x0D, 0x0A, 0x1A, 0x0A]) {
        return Some(InFormat::Png);
    }
    if has_bytes_at(data, 0, &[0x47, 0x49, 0x46, 0x38, 0x37, 0x61]) || has_bytes_at(
        data,
        0,
        &[0x47, 0x49, 0x46, 0x38, 0x39, 0x61],
    ) {
        return Some(InFormat::Gif);
    }
    if data.len() >= 12 && has_bytes_at(data, 0, &[0x52, 0x49, 0x46, 0x46]) && has_bytes_at(
        data,
        8,
        &[0x57, 0x45, 0x42, 0x50],
    ) {
        return Some(InFormat::Webp);
    }
    if has_bytes_at(data, 0, &[0x49, 0x49, 0x2A, 0x00]) || has_bytes_at(
        data,
        0,
        &[0x4D, 0x4D, 0x00, 0x2A],
    ) {
        return Some(InFormat::Tiff);
    }
    if has_bytes_at(data, 0, &[0x42, 0x4D]) {
        return Some(InFormat::Bmp);
    }
    None
}

/// Sniff a raster payload's format, returning a suitable
/// `(extension, media_type)` for it.
pub fn sniff_raster_kind(data: &[u8]) -> (r: Option<(&'static str, &'static str)>)
    ensures
        match sniff_spec(data@) {
            Some(f) => r matches Some(p) && (p.0@, p.1@) == in_format_names(f),
            None => r is None,
        },
{
    match sniff(data) {
        Some(f) => Some(f.ext_and_media_type()),
        None => None,
    }
}

/// The declared media types that mark a resource as a raster to process.
pub open spec fn raster_media_type(mt: Seq<char>) -> bool {
    mt == "image/jpeg"@ || mt == "image/png"@ || mt == "image/gif"@ || mt == "image/webp"@ || mt
        == "image/tiff"@ || mt == "image/bmp"@
}

/// Whether `s` equals the literal `lit`.
fn is_exactly(s: &str, lit: &str) -> (r: bool)
    ensures
        r == (s@ == lit@),
{
    crate::text::same_chars(&chars_of(s), &chars_of(lit))
}

/// Whether a resource should be fed through the image pipeline: any
/// resource whose declared media type is a raster image, or whose bytes
/// sniff as one. SVG is never a candidate.
pub fn is_image_candidate(media_type: &str, data: &[u8]) -> (r: bool)
    ensures
        r == (media_type@ != "image/svg+xml"@ && (raster_media_type(media_type@) || sniff_spec(
            data@,
        ) is Some)),
{
    if is_exactly(media_type, "image/svg+xml") {
        return false;
    }
    let declared = is_exactly(media_type, "image/jpeg") || is_exactly(media_type, "image/png")
        || is_exactly(media_type, "image/gif") || is_exactly(media_type, "image/webp")
        || is_exactly(media_type, "image/tiff") || is_exactly(media_type, "image/bmp");
    declared || sniff(data).is_some()
}

/// Split `href` into its path portion and the suffix starting at the first
/// `#` or `?` (empty if there is neither).
pub fn split_href_suffix(href: &str) -> (r: (String, String))
    ensures
        r.0@ == href@.take(crate::paths::path_end(href@)),
        r.1@ == href@.skip(crate::paths::path_end(href@)),
{
    let v = chars_of(href);
    let mut i: usize = 0;
    while i < v.len() && v[i] != '#' && v[i] != '?'
        invariant
            i <= v@.len(),
            v@ == href@,
            forall|k: int| 0 <= k < i ==> #[trigger] v@[k] != '#' && v@[k] != '?',
        decreases v.len() - i,
    {
        i += 1;
    }
    proof {
        crate::paths::lemma_path_end_first(v@, i as int);
    }
    (string_of(&copy_range(&v, 0, i)), string_of(&copy_range(&v, i, v.len())))
}


// ---------------------------------------------------------------------
// Normalizing a decoded image for the device
// ---------------------------------------------------------------------

/// One color channel of a pixel with alpha `a`, composited onto white.
pub open spec fn over_white(c: u8, a: u8) -> u8 {
    ((c * a + 255 * (255 - a)) / 255) as u8
}

/// RGBA bytes composited onto white: each color channel blended with white
/// by its pixel's alpha, and every pixel made opaque.
pub open spec fn composited(px: Seq<u8>) -> Seq<u8> {
    Seq::new(
        px.len(),
        |i: int|
            if i % 4 == 3 {
                255u8
            } else {
                over_white(px[i], px[i - i % 4 + 3])
            },
    )
}

/// Composite RGBA bytes onto white.
fn composite_onto_white(px: &Vec<u8>) -> (r: Vec<u8>)
    requires
        px@.len() % 4 == 0,
    ensures
        r@ == composited(px@),
{
    let n = px.len();
    let mut out: Vec<u8> = Vec::new();
    let mut i: usize = 0;
    while i < n
        invariant
            i <= n,
            n == px@.len(),
            n % 4 == 0,
            out@ =~= composited(px@).take(i as int),
        decreases n - i,
    {
        if i % 4 == 3 {
            out.push(255);
        } else {
            let base = i - i % 4;
            assert(base + 3 < n) by {
                assert(base % 4 == 0);
            }
            let c = px[i] as u32;
            let a = px[base + 3] as u32;
            assert(c * a + 255 * (255 - a) <= 255 * 255) by (nonlinear_arith)
                requires
                    c <= 255,
                    a <= 255,
            ;
            let v = (c * a + 255 * (255 - a)) / 255;
            out.push(v as u8);
        }
        assert(out@ =~= composited(px@).take(i + 1));
        i += 1;
    }
    assert(composited(px@).take(n as int) =~= composited(px@));
    out
}

/// The bytes `DynamicImage::into_rgba8` makes of an image: four per pixel
/// (red, green, blue, alpha), row by row.
pub uninterp spec fn rgba8_contents(img: DynamicImage) -> Seq<u8>;

/// Wraps `DynamicImage::color` and `ColorType::has_alpha`: whether the
/// image's pixel format carries an alpha channel. A format without one
/// converts to RGBA with every alpha byte at its maximum.
#[verifier::external_body]
fn has_alpha(img: &DynamicImage) -> (r: bool)
    ensures
        !r ==> (rgba8_contents(*img).len() % 4 == 0 && forall|i: int|
            0 <= i < rgba8_contents(*img).len() && i % 4 == 3 ==> #[trigger] rgba8_contents(
                *img,
            )[i] == 255),
{
    img.color().has_alpha()
}

/// Wraps `DynamicImage::into_rgba8`: the image as 8-bit RGBA, four bytes
/// per pixel, row by row, with its width and height.
#[verifier::external_body]
pub(crate) fn rgba_bytes(img: DynamicImage) -> (r: (u32, u32, Vec<u8>))
    ensures
        (r.0, r.1) == image_size(img),
        r.2@.len() == 4 * (r.0 * r.1),
        r.2@ == rgba8_contents(img),
{
    let out = img.into_rgba8();
    let (w, h) = out.dimensions();
    (w, h, out.into_raw())
}

/// Wraps `ImageBuffer::from_raw` into `DynamicImage::ImageRgba8`: an RGBA
/// image of these bytes, which `into_rgba8` hands back as they are.
#[verifier::external_body]
fn rgba_image(w: u32, h: u32, data: Vec<u8>) -> (r: DynamicImage)
    requires
        data@.len() == 4 * (w * h),
    ensures
        rgba8_contents(r) == data@,
        image_size(r) == (w, h),
{
    DynamicImage::ImageRgba8(image::RgbaImage::from_raw(w, h, data).expect("four bytes per pixel"))
}

/// Wraps `DynamicImage::width` and `DynamicImage::height`.
#[verifier::external_body]
fn image_dimensions(img: &DynamicImage) -> (r: (u32, u32))
    ensures
        r == image_size(*img),
{
    (img.width(), img.height())
}

/// The RGBA bytes `flatten_alpha_onto_white` leaves: composited onto white.
pub fn flattened_bytes(w: u32, h: u32, rgba: &Vec<u8>) -> (r: Vec<u8>)
    requires
        rgba@.len() == 4 * (w * h),
    ensures
        r@ == composited(rgba@),
{
    composite_onto_white(rgba)
}

/// A composited pixel of full alpha keeps its color: RGBA bytes whose
/// alpha bytes are all at the maximum are their own composite.
proof fn lemma_opaque_composited(px: Seq<u8>)
    requires
        px.len() % 4 == 0,
        forall|i: int| 0 <= i < px.len() && i % 4 == 3 ==> #[trigger] px[i] == 255,
    ensures
        composited(px) == px,
{
    assert forall|i: int| 0 <= i < px.len() implies #[trigger] composited(px)[i] == px[i] by {
        if i % 4 != 3 {
            let j = i - i % 4 + 3;
            assert(j % 4 == 3 && 0 <= j < px.len());
            assert(px[j] == 255);
            let c = px[i];
            assert((c * 255 + 255 * (255 - 255)) / 255 == c) by (nonlinear_arith);
        }
    }
    assert(composited(px) =~= px);
}

/// Composite any alpha channel onto a white background, as every target
/// device flattens transparency; an image without alpha is kept as it is
/// (compositing would not change its pixels).
pub fn flatten_alpha_onto_white(img: DynamicImage) -> (r: DynamicImage)
    ensures
        rgba8_contents(r) == composited(rgba8_contents(img)),
        image_size(r) == image_size(img),
{
    if !has_alpha(&img) {
        proof {
            lemma_opaque_composited(rgba8_contents(img));
        }
        return img;
    }
    let (w, h, rgba) = rgba_bytes(img);
    let flat = flattened_bytes(w, h, &rgba);
    rgba_image(w, h, flat)
}

/// Whether `c` and `line_art` are what normalizing a `w` x `h` image of
/// RGBA bytes `rgba` gives for a panel (color or not): alpha composited
/// onto white; RGB for a color panel, luma otherwise; classified from its
/// luma; and, on a gray panel, contrast-stretched unless it is line art.
pub open spec fn device_canvas(
    w: u32,
    h: u32,
    rgba: Seq<u8>,
    color: bool,
    c: Canvas,
    line_art: bool,
) -> bool {
    let flat = composited(rgba);
    if color {
        &&& c matches Canvas::Rgb(x)
        &&& c->Rgb_0@ == (w, h, rgb_of_rgba(flat))
        &&& line_art == (classified(w, h, luma_bytes(rgb_of_rgba(flat))) == Kind::LineArt)
    } else {
        let p0 = luma_of_rgba(flat);
        &&& c matches Canvas::Gray(g)
        &&& line_art == (classified(w, h, p0) == Kind::LineArt)
        &&& c->Gray_0@ == (w, h, if line_art {
            p0
        } else {
            autocontrasted(w, h, p0)
        })
    }
}

/// Composite alpha onto white, reduce to the panel's color space (RGB for a
/// color panel, luma otherwise), classify line art vs photo from the luma,
/// and stretch the contrast of a grayscale photo.
pub fn to_device_canvas(img: DynamicImage, color: bool) -> (r: (Canvas, bool))
    ensures
        r.0 is Rgb <==> color,
        r.0.dims() == image_size(img),
        device_canvas(image_size(img).0, image_size(img).1, rgba8_contents(img), color, r.0, r.1),
{
    let flattened = flatten_alpha_onto_white(img);
    let canvas = Canvas::from_flattened(flattened, color);
    let luma = canvas.to_luma();
    let kind = classify(&luma);
    let line_art = match kind {
        Kind::LineArt => true,
        Kind::Photo => false,
    };
    assert(line_art == (classified(luma@.0, luma@.1, luma@.2) == Kind::LineArt));
    match canvas {
        Canvas::Gray(mut g) => {
            let ghost p0 = g@.2;
            assert(luma@ == g@);
            if !line_art {
                autocontrast(&mut g);
            }
            assert(line_art == (classified(g@.0, g@.1, p0) == Kind::LineArt));
            assert(g@.2 == if line_art {
                p0
            } else {
                autocontrasted(g@.0, g@.1, p0)
            });
            (Canvas::Gray(g), line_art)
        },
        Canvas::Rgb(c) => {
            assert(luma@ == (c@.0, c@.1, luma_bytes(c@.2)));
            (Canvas::Rgb(c), line_art)
        },
    }
}

/// A decoded image normalized for the device, with what the report line
/// needs of its source.
pub struct Prepared {
    pub canvas: Canvas,
    pub line_art: bool,
    pub in_w: u32,
    pub in_h: u32,
    pub in_fmt: InFormat,
}

/// Normalize a decoded image for a panel (color or not), noting its source
/// dimensions and format.
pub fn prepare(img: DynamicImage, format: InFormat, color: bool) -> (r: Prepared)
    ensures
        r.in_fmt == format,
        (r.in_w, r.in_h) == image_size(img),
        r.canvas.dims() == image_size(img),
        r.canvas is Rgb <==> color,
        device_canvas(
            image_size(img).0,
            image_size(img).1,
            rgba8_contents(img),
            color,
            r.canvas,
            r.line_art,
        ),
{
    let (in_w, in_h) = image_dimensions(&img);
    let (canvas, line_art) = to_device_canvas(img, color);
    Prepared { canvas, line_art, in_w, in_h, in_fmt: format }
}

// ---------------------------------------------------------------------
// Decoding
// ---------------------------------------------------------------------

/// What `image` makes of `data` read as the format numbered `format`
/// (see `format_code`) and turned upright by its EXIF orientation: the
/// image's width and height and its RGBA bytes, or the decoder's error
/// message.
pub uninterp spec fn upright_decode(format: u8, data: Seq<u8>) -> Result<
    ((u32, u32), Seq<u8>),
    Seq<char>,
>;

/// Wraps `ImageReader::with_format`, `ImageReader::into_decoder`,
/// `ImageDecoder::orientation`, `DynamicImage::from_decoder` and
/// `DynamicImage::apply_orientation`: the decoded image, upright (no
/// rotation when the orientation cannot be read), or the error's message.
/// Which inputs decode, and to what, is left to the decoder (`upright_decode`).
#[verifier::external_body]
fn decode_upright(format: InFormat, data: &[u8]) -> (r: Result<DynamicImage, String>)
    ensures
        match r {
            Ok(img) => upright_decode(format_code(format), data@) == Ok::<
                ((u32, u32), Seq<u8>),
                Seq<char>,
            >((image_size(img), rgba8_contents(img))),
            Err(e) => upright_decode(format_code(format), data@) == Err::<
                ((u32, u32), Seq<u8>),
                Seq<char>,
            >(e@),
        },
{
    let f = match format {
        InFormat::Jpeg => ImageFormat::Jpeg, InFormat::Png => ImageFormat::Png,
        InFormat::Gif => ImageFormat::Gif, InFormat::Webp => ImageFormat::WebP,
        InFormat::Tiff => ImageFormat::Tiff, InFormat::Bmp => ImageFormat::Bmp,
    };
    let reader = ImageReader::with_format(Cursor::new(data), f);
    let mut decoder = reader.into_decoder().map_err(|e| e.to_string())?;
    let orientation = decoder.orientation().unwrap_or(Orientation::NoTransforms);
    let mut img = DynamicImage::from_decoder(decoder).map_err(|e| e.to_string())?;
    img.apply_orientation(orientation);
    Ok(img)
}

/// How many frames, at most two, `image`'s GIF decoder yields for `data`;
/// `None` when it refuses the data.
pub uninterp spec fn gif_leading_frames(data: Seq<u8>) -> Option<usize>;

/// Wraps `GifDecoder::new` and `AnimationDecoder::into_frames`, counting
/// the first two frames at most.
#[verifier::external_body]
fn gif_frames(data: &[u8]) -> (r: Option<usize>)
    ensures
        r == gif_leading_frames(data@),
        r matches Some(n) ==> n <= 2,
{
    GifDecoder::new(Cursor::new(data)).ok().map(|d| d.into_frames().take(2).count())
}

/// Whether `image`'s WebP decoder reports `data` as animated; `None` when
/// it refuses the data.
pub uninterp spec fn webp_animated(data: Seq<u8>) -> Option<bool>;

/// Wraps `WebPDecoder::new` and `WebPDecoder::has_animation`.
#[verifier::external_body]
fn webp_animation(data: &[u8]) -> (r: Option<bool>)
    ensures
        r == webp_animated(data@),
{
    WebPDecoder::new(Cursor::new(data)).ok().map(|d| d.has_animation())
}

/// Whether a GIF or WebP holds more than one frame; other formats, and
/// data the decoder refuses, never count as animated.
pub open spec fn animated(format: InFormat, data: Seq<u8>) -> bool {
    match format {
        InFormat::Gif => match gif_leading_frames(data) {
            Some(n) => n > 1,
            None => false,
        },
        InFormat::Webp => webp_animated(data) == Some(true),
        _ => false,
    }
}

/// Whether a GIF or WebP holds more than one frame (only its first is
/// used).
pub fn is_animated(format: InFormat, data: &[u8]) -> (r: bool)
    ensures
        r == animated(format, data@),
{
    match format {
        InFormat::Gif => match gif_frames(data) {
            Some(n) => n > 1,
            None => false,
        },
        InFormat::Webp => match webp_animation(data) {
            Some(b) => b,
            None => false,
        },
        _ => false,
    }
}

/// Decode `data` as `format`, upright per its EXIF orientation; an
/// animation decodes to its first frame.
pub fn decode(format: InFormat, data: &[u8]) -> (r: Result<DynamicImage, String>)
    ensures
        match r {
            Ok(img) => upright_decode(format_code(format), data@) == Ok::<
                ((u32, u32), Seq<u8>),
                Seq<char>,
            >((image_size(img), rgba8_contents(img))),
            Err(e) => upright_decode(format_code(format), data@) == Err::<
                ((u32, u32), Seq<u8>),
                Seq<char>,
            >(e@),
        },
{
    decode_upright(format, data)
}

/// The warning for bytes that sniff as no supported raster.
pub open spec fn unidentified_warning(path: Seq<char>) -> (Seq<char>, Option<Seq<char>>) {
    ("could not identify "@ + path + " as a supported image; left it unchanged"@, Some(path))
}

/// The warning for an animation of which only the first frame is used.
pub open spec fn animated_warning(path: Seq<char>, f: InFormat) -> (Seq<char>, Option<Seq<char>>) {
    (path + " is an animated "@ + in_label(f) + "; used its first frame only"@, Some(path))
}

/// The warning for bytes of a known format that do not decode.
pub open spec fn undecodable_warning(path: Seq<char>, f: InFormat, reason: Seq<char>) -> (
    Seq<char>,
    Option<Seq<char>>,
) {
    (
        "could not decode "@ + path + " as "@ + in_label(f) + " ("@ + reason
            + "); left it unchanged"@,
        Some(path),
    )
}

/// The warnings sniffing and decoding `data` records, in order.
pub open spec fn intake_warnings(data: Seq<u8>, path: Seq<char>) -> Seq<
    (Seq<char>, Option<Seq<char>>),
> {
    match sniff_spec(data) {
        None => seq![unidentified_warning(path)],
        Some(f) => {
            let first = if animated(f, data) {
                seq![animated_warning(path, f)]
            } else {
                Seq::empty()
            };
            match upright_decode(format_code(f), data) {
                Ok(_) => first,
                Err(reason) => first.push(undecodable_warning(path, f, reason)),
            }
        },
    }
}

/// The width and height `data` decodes to (nothing when it does not
/// sniff and decode).
pub open spec fn decoded_size(data: Seq<u8>) -> (u32, u32) {
    match sniff_spec(data) {
        Some(f) => match upright_decode(format_code(f), data) {
            Ok(d) => d.0,
            Err(_) => (0, 0),
        },
        None => (0, 0),
    }
}

/// The RGBA bytes `data` decodes to (nothing when it does not sniff and
/// decode).
pub open spec fn decoded_rgba(data: Seq<u8>) -> Seq<u8> {
    match sniff_spec(data) {
        Some(f) => match upright_decode(format_code(f), data) {
            Ok(d) => d.1,
            Err(_) => Seq::empty(),
        },
        None => Seq::empty(),
    }
}

/// Whether `data` sniffs as a supported raster that decodes.
pub open spec fn decodable(data: Seq<u8>) -> bool {
    match sniff_spec(data) {
        None => false,
        Some(f) => upright_decode(format_code(f), data) is Ok,
    }
}

/// A warning about the file at `path`.
fn file_warning(message: &Vec<char>, path: &str) -> (w: Warning)
    ensures
        warning_view(w) == (message@, Some(path@)),
{
    Warning { message: string_of(message), file: Some(path.to_owned()) }
}

/// Sniff, decode and normalize `data` for a panel (color or not). Bytes of
/// no supported format, and bytes that do not decode, give `None` with a
/// warning saying why; an animation is warned about and its first frame
/// used.
pub fn sniff_and_prepare(data: &[u8], color: bool, warnings: &mut Vec<Warning>, path: &str) -> (r:
    Option<Prepared>)
    ensures
        final(warnings)@.map_values(|w: Warning| warning_view(w)) == old(warnings)@.map_values(
            |w: Warning| warning_view(w),
        ) + intake_warnings(data@, path@),
        r is Some <==> decodable(data@),
        r matches Some(p) ==> {
            &&& sniff_spec(data@) == Some(p.in_fmt)
            &&& (p.in_w, p.in_h) == decoded_size(data@)
            &&& p.canvas.dims() == decoded_size(data@)
            &&& p.canvas is Rgb <==> color
            &&& device_canvas(
                decoded_size(data@).0,
                decoded_size(data@).1,
                decoded_rgba(data@),
                color,
                p.canvas,
                p.line_art,
            )
        },
{
    let ghost before = warnings@.map_values(|w: Warning| warning_view(w));
    let format = match sniff(data) {
        Some(f) => f,
        None => {
            let mut m: Vec<char> = Vec::new();
            push_str(&mut m, "could not identify ");
            push_all(&mut m, &chars_of(path));
            push_str(&mut m, " as a supported image; left it unchanged");
            warnings.push(file_warning(&m, path));
            assert(warnings@.map_values(|w: Warning| warning_view(w)) =~= before + seq![
                unidentified_warning(path@),
            ]);
            return None;
        },
    };
    let ghost first = if animated(format, data@) {
        seq![animated_warning(path@, format)]
    } else {
        Seq::empty()
    };
    if is_animated(format, data) {
        let mut m: Vec<char> = Vec::new();
        push_all(&mut m, &chars_of(path));
        push_str(&mut m, " is an animated ");
        push_str(&mut m, format.label());
        push_str(&mut m, "; used its first frame only");
        warnings.push(file_warning(&m, path));
    }
    assert(warnings@.map_values(|w: Warning| warning_view(w)) =~= before + first);
    match decode(format, data) {
        Ok(img) => Some(prepare(img, format, color)),
        Err(reason) => {
            let mut m: Vec<char> = Vec::new();
            push_str(&mut m, "could not decode ");
            push_all(&mut m, &chars_of(path));
            push_str(&mut m, " as ");
            push_str(&mut m, format.label());
            push_str(&mut m, " (");
            push_all(&mut m, &chars_of(reason.as_str()));
            push_str(&mut m, "); left it unchanged");
            warnings.push(file_warning(&m, path));
            assert(warnings@.map_values(|w: Warning| warning_view(w)) =~= before + first.push(
                undecodable_warning(path@, format, reason@),
            ));
            None
        },
    }
}

} // verus!
