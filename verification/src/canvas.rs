//! The pixel buffers the image pipeline carries: 8-bit grayscale for a gray
//! panel, 8-bit RGB for a color one, each row-major. Alpha is flattened
//! before either is built, since no target device renders transparency.

use image::imageops::FilterType;
use image::DynamicImage;
use vstd::prelude::*;

use crate::images::{rgba8_contents, rgba_bytes};

verus! {

#[verifier::external_type_specification]
#[verifier::external_body]
pub struct ExDynamicImage(DynamicImage);

/// The width and height `DynamicImage::dimensions` gives for an image.
pub uninterp spec fn image_size(img: DynamicImage) -> (u32, u32);

/// An 8-bit grayscale raster: `width * height` luma bytes, row by row.
pub struct GrayImage {
    width: u32,
    height: u32,
    data: Vec<u8>,
}

impl GrayImage {
    /// The bytes are exactly one per pixel.
    #[verifier::type_invariant]
    pub closed spec fn sized(&self) -> bool {
        self.data@.len() == self.width * self.height
    }
}

impl View for GrayImage {
    type V = (u32, u32, Seq<u8>);

    /// Width, height and the luma bytes.
    closed spec fn view(&self) -> (u32, u32, Seq<u8>) {
        (self.width, self.height, self.data@)
    }
}

/// An 8-bit RGB raster: `width * height` pixels of three bytes, row by row.
pub struct Rgb {
    width: u32,
    height: u32,
    data: Vec<u8>,
}

impl Rgb {
    /// The bytes are exactly three per pixel.
    #[verifier::type_invariant]
    pub closed spec fn sized(&self) -> bool {
        self.data@.len() == 3 * (self.width * self.height)
    }
}

impl View for Rgb {
    type V = (u32, u32, Seq<u8>);

    /// Width, height and the channel bytes.
    closed spec fn view(&self) -> (u32, u32, Seq<u8>) {
        (self.width, self.height, self.data@)
    }
}

/// `w * h`, which a `u64` always holds.
pub fn area(w: u32, h: u32) -> (r: u64)
    ensures
        r == w * h,
{
    proof {
        vstd::arithmetic::mul::lemma_mul_upper_bound(w as int, u32::MAX as int, h as int, u32::MAX as int);
    }
    (w as u64) * (h as u64)
}

impl GrayImage {
    /// What `sized` says, over the view.
    pub proof fn lemma_sized(&self)
        requires
            self.sized(),
        ensures
            self@.2.len() == self@.0 * self@.1,
    {
    }

    /// A raster of `width * height` luma bytes, if `data` holds exactly that
    /// many.
    pub fn from_raw(width: u32, height: u32, data: Vec<u8>) -> (r: Option<GrayImage>)
        ensures
            data@.len() == width * height <==> r is Some,
            r matches Some(g) ==> g@ == (width, height, data@),
    {
        if (data.len() as u64) == area(width, height) {
            Some(GrayImage { width, height, data })
        } else {
            None
        }
    }

    /// A `width` x `height` image of tone `v`.
    pub fn from_pixel(width: u32, height: u32, v: u8) -> (r: GrayImage)
        requires
            width * height <= usize::MAX,
        ensures
            r@ == (width, height, Seq::new((width * height) as nat, |i: int| v)),
    {
        let n = area(width, height) as usize;
        let mut data: Vec<u8> = Vec::new();
        let mut i: usize = 0;
        while i < n
            invariant
                i <= n,
                data@ == Seq::new(i as nat, |k: int| v),
            decreases n - i,
        {
            data.push(v);
            i += 1;
            assert(data@ =~= Seq::new(i as nat, |k: int| v));
        }
        GrayImage { width, height, data }
    }

    /// A black `width` x `height` image.
    pub fn new(width: u32, height: u32) -> (r: GrayImage)
        requires
            width * height <= usize::MAX,
        ensures
            r@ == (width, height, Seq::new((width * height) as nat, |i: int| 0u8)),
    {
        GrayImage::from_pixel(width, height, 0)
    }

    /// The tone at column `x`, row `y`.
    pub fn get_pixel(&self, x: u32, y: u32) -> (r: u8)
        requires
            x < self@.0,
            y < self@.1,
        ensures
            r == self@.2[y * self@.0 + x],
    {
        proof {
            use_type_invariant(self);
            assert((y as int) * (self.width as int) + (x as int) < (self.width as int) * (
            self.height as int)) by (nonlinear_arith)
                requires
                    x < self.width,
                    y < self.height,
            ;
        }
        assert(self.data@.len() == self.data.len());
        assert((y as int) * (self.width as int) <= (y as int) * (self.width as int) + (x as int));
        let row: usize = (y as usize) * (self.width as usize);
        self.data[row + (x as usize)]
    }

    /// Set the tone at column `x`, row `y`.
    pub fn put_pixel(&mut self, x: u32, y: u32, v: u8)
        requires
            x < old(self)@.0,
            y < old(self)@.1,
        ensures
            final(self)@ == (old(self)@.0, old(self)@.1, old(self)@.2.update(y * old(self)@.0 + x, v)),
    {
        proof {
            use_type_invariant(&*self);
            assert((y as int) * (self.width as int) + (x as int) < (self.width as int) * (
            self.height as int)) by (nonlinear_arith)
                requires
                    x < self.width,
                    y < self.height,
            ;
        }
        assert(self.data@.len() == self.data.len());
        assert((y as int) * (self.width as int) <= (y as int) * (self.width as int) + (x as int));
        let row: usize = (y as usize) * (self.width as usize);
        let i = row + (x as usize);
        let mut data = crate::book::copy_bytes(&self.data);
        data.set(i, v);
        *self = GrayImage { width: self.width, height: self.height, data };
    }

    /// The width and height.
    pub fn dimensions(&self) -> (r: (u32, u32))
        ensures
            r == (self@.0, self@.1),
    {
        (self.width, self.height)
    }

    pub fn width(&self) -> (r: u32)
        ensures
            r == self@.0,
    {
        self.width
    }

    pub fn height(&self) -> (r: u32)
        ensures
            r == self@.1,
    {
        self.height
    }

    /// The luma bytes, row by row.
    pub fn as_raw(&self) -> (r: &Vec<u8>)
        ensures
            r@ == self@.2,
    {
        &self.data
    }

    /// A copy.
    pub fn copy(&self) -> (r: GrayImage)
        ensures
            r@ == self@,
    {
        proof {
            use_type_invariant(self);
        }
        GrayImage { width: self.width, height: self.height, data: crate::book::copy_bytes(&self.data) }
    }
}

impl GrayImage {
    /// Replace every pixel `p` by `lut[p]`.
    pub fn map_tones(&mut self, lut: &Vec<u8>)
        requires
            lut@.len() == 256,
        ensures
            final(self)@.0 == old(self)@.0,
            final(self)@.1 == old(self)@.1,
            final(self)@.2 == old(self)@.2.map_values(|p: u8| lut@[p as int]),
    {
        proof {
            use_type_invariant(&*self);
        }
        let ghost before = self.data@;
        let n = self.data.len();
        let mut data: Vec<u8> = Vec::new();
        let mut i: usize = 0;
        while i < n
            invariant
                i <= n,
                n == before.len(),
                before == self.data@,
                lut@.len() == 256,
                data@ =~= before.map_values(|p: u8| lut@[p as int]).take(i as int),
            decreases n - i,
        {
            let p = self.data[i];
            data.push(lut[p as usize]);
            assert(data@ =~= before.map_values(|p: u8| lut@[p as int]).take(i + 1));
            i += 1;
        }
        assert(before.map_values(|p: u8| lut@[p as int]).take(n as int) =~= before.map_values(
            |p: u8| lut@[p as int],
        ));
        self.data = data;
    }
}

impl GrayImage {
    /// Resample to `w` x `h` with Lanczos3; an exact copy when those are
    /// the raster's own dimensions.
    pub fn resize(&self, w: u32, h: u32) -> (r: GrayImage)
        requires
            w >= 1,
            h >= 1,
            4 * (self@.0 * h) <= usize::MAX,
            4 * (w * h) <= usize::MAX,
        ensures
            r@.0 == w,
            r@.1 == h,
            r@.2 == lanczos3(self@.0, self@.1, self@.2, 1, w, h),
            (self@.0 == w && self@.1 == h) ==> r@ == self@,
    {
        lanczos_gray(self, w, h)
    }
}

impl Rgb {
    /// What `sized` says, over the view.
    pub proof fn lemma_sized(&self)
        requires
            self.sized(),
        ensures
            self@.2.len() == 3 * (self@.0 * self@.1),
    {
    }

    /// A raster of `width * height` RGB pixels, if `data` holds exactly
    /// three bytes for each.
    pub fn from_raw(width: u32, height: u32, data: Vec<u8>) -> (r: Option<Rgb>)
        ensures
            data@.len() == 3 * (width * height) <==> r is Some,
            r matches Some(g) ==> g@ == (width, height, data@),
    {
        let n: u128 = (area(width, height) as u128) * 3;
        if (data.len() as u128) == n {
            Some(Rgb { width, height, data })
        } else {
            None
        }
    }

    /// The width and height.
    pub fn dimensions(&self) -> (r: (u32, u32))
        ensures
            r == (self@.0, self@.1),
    {
        (self.width, self.height)
    }

    /// The channel bytes, pixel by pixel, row by row.
    pub fn as_raw(&self) -> (r: &Vec<u8>)
        ensures
            r@ == self@.2,
    {
        &self.data
    }

    /// A copy.
    pub fn copy(&self) -> (r: Rgb)
        ensures
            r@ == self@,
    {
        proof {
            use_type_invariant(self);
        }
        Rgb { width: self.width, height: self.height, data: crate::book::copy_bytes(&self.data) }
    }
}


// ---------------------------------------------------------------------
// Resampling, cropping and conversion
// ---------------------------------------------------------------------

/// The bytes `image::imageops::resize` with the Lanczos3 filter gives for a
/// `w` x `h` raster of `channels` bytes per pixel, resampled to `nw` x `nh`.
pub uninterp spec fn lanczos3(w: u32, h: u32, px: Seq<u8>, channels: u8, nw: u32, nh: u32) -> Seq<u8>;

/// Wraps `image::imageops::resize` with the Lanczos3 filter on a grayscale
/// raster: the result is `nw` x `nh`, its bytes are those the filter gives
/// for these arguments (`lanczos3`, one byte per pixel), and they are an
/// exact copy when `nw` x `nh` are the raster's own dimensions. How the
/// filter computes each byte (floating-point resampling) is left unsaid.
#[verifier::external_body]
fn lanczos_gray(g: &GrayImage, nw: u32, nh: u32) -> (r: GrayImage)
    requires
        nw >= 1,
        nh >= 1,
        4 * (g@.0 * nh) <= usize::MAX,
        4 * (nw * nh) <= usize::MAX,
    ensures
        r@.0 == nw,
        r@.1 == nh,
        r@.2 == lanczos3(g@.0, g@.1, g@.2, 1, nw, nh),
        (g@.0 == nw && g@.1 == nh) ==> r@.2 == g@.2,
{
    let img = image::GrayImage::from_raw(g.width, g.height, g.data.clone()).expect("sized");
    let out = image::imageops::resize(&img, nw, nh, FilterType::Lanczos3);
    let (width, height) = out.dimensions();
    GrayImage { width, height, data: out.into_raw() }
}

/// Wraps `image::imageops::resize` with the Lanczos3 filter on an RGB
/// raster, as `lanczos_gray` does for grayscale (`lanczos3` with three
/// bytes per pixel).
#[verifier::external_body]
fn lanczos_rgb(c: &Rgb, nw: u32, nh: u32) -> (r: Rgb)
    requires
        nw >= 1,
        nh >= 1,
        4 * (c@.0 * nh) <= usize::MAX,
        4 * (nw * nh) <= usize::MAX,
    ensures
        r@.0 == nw,
        r@.1 == nh,
        r@.2 == lanczos3(c@.0, c@.1, c@.2, 3, nw, nh),
        (c@.0 == nw && c@.1 == nh) ==> r@.2 == c@.2,
{
    let img = image::RgbImage::from_raw(c.width, c.height, c.data.clone()).expect("sized");
    let out = image::imageops::resize(&img, nw, nh, FilterType::Lanczos3);
    let (width, height) = out.dimensions();
    Rgb { width, height, data: out.into_raw() }
}

/// The crop window once clamped to the image: (x, y, width, height).
pub open spec fn clamped_window(iw: u32, ih: u32, x: u32, y: u32, w: u32, h: u32) -> (
    u32,
    u32,
    u32,
    u32,
) {
    let cx = if x < iw { x } else { iw };
    let cy = if y < ih { y } else { ih };
    let cw = if w < iw - cx { w } else { (iw - cx) as u32 };
    let ch = if h < ih - cy { h } else { (ih - cy) as u32 };
    (cx, cy, cw, ch)
}

/// The bytes of a `w` x `h` window at (`x`, `y`) of a raster `iw` pixels
/// wide with `n` bytes per pixel, row by row.
pub open spec fn window_bytes(px: Seq<u8>, iw: int, n: int, x: int, y: int, w: int, h: int) -> Seq<u8> {
    Seq::new(
        (w * h * n) as nat,
        |i: int| px[((y + (i / n) / w) * iw + x + (i / n) % w) * n + i % n],
    )
}

/// Wraps `image::imageops::crop_imm` and `SubImage::to_image` on a
/// grayscale raster: the window is first clamped to the image, then copied.
#[verifier::external_body]
fn crop_gray(g: &GrayImage, x: u32, y: u32, w: u32, h: u32) -> (r: GrayImage)
    ensures
        ({
            let (cx, cy, cw, ch) = clamped_window(g@.0, g@.1, x, y, w, h);
            r@ == (cw, ch, window_bytes(g@.2, g@.0 as int, 1, cx as int, cy as int, cw as int, ch as int))
        }),
{
    let img = image::GrayImage::from_raw(g.width, g.height, g.data.clone()).expect("sized");
    let out = image::imageops::crop_imm(&img, x, y, w, h).to_image();
    let (width, height) = out.dimensions();
    GrayImage { width, height, data: out.into_raw() }
}

/// Wraps `image::imageops::crop_imm` and `SubImage::to_image` on an RGB
/// raster, as `crop_gray` does for grayscale.
#[verifier::external_body]
fn crop_rgb(c: &Rgb, x: u32, y: u32, w: u32, h: u32) -> (r: Rgb)
    ensures
        ({
            let (cx, cy, cw, ch) = clamped_window(c@.0, c@.1, x, y, w, h);
            r@ == (cw, ch, window_bytes(c@.2, c@.0 as int, 3, cx as int, cy as int, cw as int, ch as int))
        }),
{
    let img = image::RgbImage::from_raw(c.width, c.height, c.data.clone()).expect("sized");
    let out = image::imageops::crop_imm(&img, x, y, w, h).to_image();
    let (width, height) = out.dimensions();
    Rgb { width, height, data: out.into_raw() }
}

/// The RGB bytes of RGBA bytes: each pixel's alpha byte dropped.
pub open spec fn rgb_of_rgba(px: Seq<u8>) -> Seq<u8> {
    Seq::new((px.len() / 4 * 3) as nat, |i: int| px[4 * (i / 3) + i % 3])
}

/// The luma bytes of RGBA bytes: each pixel's luma, its alpha ignored.
pub open spec fn luma_of_rgba(px: Seq<u8>) -> Seq<u8> {
    Seq::new(px.len() / 4, |i: int| luma(px[4 * i], px[4 * i + 1], px[4 * i + 2]))
}

/// An RGB raster of a `w` x `h` raster's RGBA bytes.
fn rgb_from_rgba(w: u32, h: u32, rgba: &Vec<u8>) -> (r: Rgb)
    requires
        rgba@.len() == 4 * (w * h),
    ensures
        r@ == (w, h, rgb_of_rgba(rgba@)),
{
    let n = rgba.len() / 4;
    assert(rgba@.len() == rgba.len());
    let ghost want = rgb_of_rgba(rgba@);
    let mut out: Vec<u8> = Vec::new();
    let mut i: usize = 0;
    while i < n
        invariant
            i <= n,
            n == rgba@.len() / 4,
            rgba@.len() == 4 * n,
            4 * n <= usize::MAX,
            want == rgb_of_rgba(rgba@),
            want.len() == 3 * n,
            out@ =~= want.take(3 * i as int),
        decreases n - i,
    {
        let k = 3 * i;
        assert(k / 3 == i && k % 3 == 0);
        assert((k + 1) / 3 == i && (k + 1) % 3 == 1);
        assert((k + 2) / 3 == i && (k + 2) % 3 == 2);
        out.push(rgba[4 * i]);
        out.push(rgba[4 * i + 1]);
        out.push(rgba[4 * i + 2]);
        assert(out@ =~= want.take(3 * (i + 1) as int));
        i += 1;
    }
    assert(want.take(3 * n as int) =~= want);
    Rgb { width: w, height: h, data: out }
}

/// A luma raster of a `w` x `h` raster's RGBA bytes.
fn gray_from_rgba(w: u32, h: u32, rgba: &Vec<u8>) -> (r: GrayImage)
    requires
        rgba@.len() == 4 * (w * h),
    ensures
        r@ == (w, h, luma_of_rgba(rgba@)),
{
    let n = rgba.len() / 4;
    assert(rgba@.len() == rgba.len());
    let ghost want = luma_of_rgba(rgba@);
    let mut out: Vec<u8> = Vec::new();
    let mut i: usize = 0;
    while i < n
        invariant
            i <= n,
            n == rgba@.len() / 4,
            rgba@.len() == 4 * n,
            4 * n <= usize::MAX,
            want == luma_of_rgba(rgba@),
            want.len() == n,
            out@ =~= want.take(i as int),
        decreases n - i,
    {
        let r = rgba[4 * i] as u32;
        let g = rgba[4 * i + 1] as u32;
        let b = rgba[4 * i + 2] as u32;
        let l = (2126 * r + 7152 * g + 722 * b) / 10000;
        out.push(l as u8);
        assert(out@ =~= want.take(i + 1));
        i += 1;
    }
    assert(want.take(n as int) =~= want);
    GrayImage { width: w, height: h, data: out }
}

/// The luma of one RGB pixel: Rec. 709 weights in integer arithmetic.
pub open spec fn luma(r: u8, g: u8, b: u8) -> u8 {
    ((2126 * r + 7152 * g + 722 * b) / 10000) as u8
}

/// The luma bytes of RGB channel bytes.
pub open spec fn luma_bytes(px: Seq<u8>) -> Seq<u8> {
    Seq::new(px.len() / 3, |i: int| luma(px[3 * i], px[3 * i + 1], px[3 * i + 2]))
}

/// A decoded image, in the color space its target device can render.
pub enum Canvas {
    /// 8-bit luma, for a grayscale panel.
    Gray(GrayImage),
    /// 8-bit RGB, for a color panel.
    Rgb(Rgb),
}

impl Canvas {
    /// Width and height.
    pub open spec fn dims(&self) -> (u32, u32) {
        match self {
            Canvas::Gray(g) => (g@.0, g@.1),
            Canvas::Rgb(c) => (c@.0, c@.1),
        }
    }

    /// Width, height, channel bytes and bytes per pixel (one for luma,
    /// three for RGB).
    pub open spec fn raster(&self) -> (u32, u32, Seq<u8>, u8) {
        match self {
            Canvas::Gray(g) => (g@.0, g@.1, g@.2, 1),
            Canvas::Rgb(c) => (c@.0, c@.1, c@.2, 3),
        }
    }

    /// A copy.
    pub fn copy(&self) -> (r: Canvas)
        ensures
            r.raster() == self.raster(),
            r is Rgb <==> self is Rgb,
    {
        match self {
            Canvas::Gray(g) => Canvas::Gray(g.copy()),
            Canvas::Rgb(c) => Canvas::Rgb(c.copy()),
        }
    }

    /// Build the canvas a device wants from a decoded image whose alpha has
    /// already been flattened: RGB for a color panel, luma for a gray one.
    pub fn from_flattened(img: DynamicImage, color: bool) -> (r: Canvas)
        ensures
            r is Rgb <==> color,
            r.dims() == image_size(img),
            match r {
                Canvas::Rgb(c) => c@.2 == rgb_of_rgba(rgba8_contents(img)),
                Canvas::Gray(g) => g@.2 == luma_of_rgba(rgba8_contents(img)),
            },
    {
        let (w, h, rgba) = rgba_bytes(img);
        if color {
            Canvas::Rgb(rgb_from_rgba(w, h, &rgba))
        } else {
            Canvas::Gray(gray_from_rgba(w, h, &rgba))
        }
    }

    pub fn dimensions(&self) -> (r: (u32, u32))
        ensures
            r == self.dims(),
    {
        match self {
            Canvas::Gray(g) => g.dimensions(),
            Canvas::Rgb(c) => c.dimensions(),
        }
    }

    /// Whether these pixels carry color.
    pub fn is_color(&self) -> (r: bool)
        ensures
            r == self is Rgb,
    {
        match self {
            Canvas::Gray(_) => false,
            Canvas::Rgb(_) => true,
        }
    }

    /// A grayscale view of the pixels: a copy of a gray canvas, the luma of
    /// each pixel of a color one.
    pub fn to_luma(&self) -> (r: GrayImage)
        ensures
            match self {
                Canvas::Gray(g) => r@ == g@,
                Canvas::Rgb(c) => r@ == (c@.0, c@.1, luma_bytes(c@.2)),
            },
    {
        match self {
            Canvas::Gray(g) => g.copy(),
            Canvas::Rgb(c) => {
                proof {
                    use_type_invariant(c);
                }
                let n = c.data.len() / 3;
                assert(3 * n <= c.data@.len());
                let mut out: Vec<u8> = Vec::new();
                let mut i: usize = 0;
                while i < n
                    invariant
                        i <= n,
                        n == c.data@.len() / 3,
                        3 * n <= c.data@.len() <= usize::MAX,
                        c.data@.len() == 3 * (c.width * c.height),
                        out@ =~= luma_bytes(c.data@).take(i as int),
                    decreases n - i,
                {
                    let r = c.data[3 * i] as u32;
                    let g = c.data[3 * i + 1] as u32;
                    let b = c.data[3 * i + 2] as u32;
                    let l = (2126 * r + 7152 * g + 722 * b) / 10000;
                    out.push(l as u8);
                    assert(out@ =~= luma_bytes(c.data@).take(i + 1));
                    i += 1;
                }
                assert(luma_bytes(c.data@).take(n as int) =~= luma_bytes(c.data@));
                GrayImage { width: c.width, height: c.height, data: out }
            },
        }
    }

    /// Resample to `w` x `h` with Lanczos3, keeping the color space.
    pub fn resize(&self, w: u32, h: u32) -> (r: Canvas)
        requires
            w >= 1,
            h >= 1,
            4 * (self.dims().0 * h) <= usize::MAX,
            4 * (w * h) <= usize::MAX,
        ensures
            match (self, r) {
                (Canvas::Gray(g), Canvas::Gray(o)) => o@ == (w, h, lanczos3(g@.0, g@.1, g@.2, 1, w, h)),
                (Canvas::Rgb(c), Canvas::Rgb(o)) => o@ == (w, h, lanczos3(c@.0, c@.1, c@.2, 3, w, h)),
                _ => false,
            },
            r.dims() == (w, h),
            r.raster() == (
                w,
                h,
                lanczos3(self.raster().0, self.raster().1, self.raster().2, self.raster().3, w, h),
                self.raster().3,
            ),
    {
        match self {
            Canvas::Gray(g) => Canvas::Gray(lanczos_gray(g, w, h)),
            Canvas::Rgb(c) => Canvas::Rgb(lanczos_rgb(c, w, h)),
        }
    }

    /// Crop a `w` x `h` window with its top-left corner at (`x`, `y`),
    /// clamped to the image, keeping the color space.
    pub fn crop(&self, x: u32, y: u32, w: u32, h: u32) -> (r: Canvas)
        ensures
            ({
                let (iw, ih) = self.dims();
                let (cx, cy, cw, ch) = clamped_window(iw, ih, x, y, w, h);
                match (self, r) {
                    (Canvas::Gray(g), Canvas::Gray(o)) => o@ == (cw, ch, window_bytes(
                        g@.2,
                        iw as int,
                        1,
                        cx as int,
                        cy as int,
                        cw as int,
                        ch as int,
                    )),
                    (Canvas::Rgb(c), Canvas::Rgb(o)) => o@ == (cw, ch, window_bytes(
                        c@.2,
                        iw as int,
                        3,
                        cx as int,
                        cy as int,
                        cw as int,
                        ch as int,
                    )),
                    _ => false,
                }
            }),
            ({
                let (iw, ih, px, n) = self.raster();
                let (cx, cy, cw, ch) = clamped_window(iw, ih, x, y, w, h);
                r.raster() == (cw, ch, window_bytes(
                    px,
                    iw as int,
                    n as int,
                    cx as int,
                    cy as int,
                    cw as int,
                    ch as int,
                ), n)
            }),
    {
        match self {
            Canvas::Gray(g) => Canvas::Gray(crop_gray(g, x, y, w, h)),
            Canvas::Rgb(c) => Canvas::Rgb(crop_rgb(c, x, y, w, h)),
        }
    }
}

/// Reducing to luma keeps a gray pixel's tone (black stays black, white
/// stays white) and never goes beyond the brightest channel.
pub proof fn law_luma_keeps_gray_tones(px: Seq<u8>, p: int)
    requires
        px.len() % 4 == 0,
        0 <= p < px.len() / 4,
    ensures
        luma_of_rgba(px).len() == px.len() / 4,
        px[4 * p] == px[4 * p + 1] && px[4 * p + 1] == px[4 * p + 2] ==> luma_of_rgba(px)[p]
            == px[4 * p],
        luma_of_rgba(px)[p] <= px[4 * p] || luma_of_rgba(px)[p] <= px[4 * p + 1]
            || luma_of_rgba(px)[p] <= px[4 * p + 2],
{
    let r = px[4 * p] as int;
    let g = px[4 * p + 1] as int;
    let b = px[4 * p + 2] as int;
    assert(r == g && g == b ==> (2126 * r + 7152 * g + 722 * b) / 10000 == r);
    let m = if r >= g && r >= b {
        r
    } else if g >= b {
        g
    } else {
        b
    };
    assert((2126 * r + 7152 * g + 722 * b) / 10000 <= m) by (nonlinear_arith)
        requires
            0 <= r <= m,
            0 <= g <= m,
            0 <= b <= m,
    ;
    assert((2126 * r + 7152 * g + 722 * b) / 10000 <= 255) by (nonlinear_arith)
        requires
            0 <= r <= 255,
            0 <= g <= 255,
            0 <= b <= 255,
    ;
}

} // verus!
