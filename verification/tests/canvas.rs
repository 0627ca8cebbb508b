use epub_tailor::canvas::{Canvas, GrayImage, Rgb};
use image::{DynamicImage, Rgba};

fn rgba(w: u32, h: u32, px: Rgba<u8>) -> DynamicImage {
    DynamicImage::ImageRgba8(image::RgbaImage::from_pixel(w, h, px))
}

#[test]
fn a_color_target_keeps_rgb_pixels() {
    let canvas = Canvas::from_flattened(rgba(2, 2, Rgba([200, 30, 40, 255])), true);
    assert!(canvas.is_color());
    match &canvas {
        Canvas::Rgb(img) => assert_eq!(&img.as_raw()[0..3], &[200, 30, 40]),
        Canvas::Gray(_) => panic!("a color target must not grayscale"),
    }
}

#[test]
fn a_gray_target_reduces_to_luma() {
    let canvas = Canvas::from_flattened(rgba(2, 2, Rgba([200, 30, 40, 255])), false);
    assert!(!canvas.is_color());
    assert!(matches!(canvas, Canvas::Gray(_)));
}

#[test]
fn resize_and_crop_preserve_the_color_space() {
    let canvas = Canvas::from_flattened(rgba(8, 8, Rgba([10, 200, 90, 255])), true);
    let resized = canvas.resize(4, 4);
    assert_eq!(resized.dimensions(), (4, 4));
    assert!(resized.is_color());
    let cropped = canvas.crop(0, 0, 2, 3);
    assert_eq!(cropped.dimensions(), (2, 3));
    assert!(cropped.is_color());
}

#[test]
fn the_luma_of_a_color_canvas_uses_rec709_weights() {
    let rgb = Rgb::from_raw(2, 1, vec![200, 30, 40, 255, 255, 255]).unwrap();
    let luma = Canvas::Rgb(rgb).to_luma();
    // (2126*200 + 7152*30 + 722*40) / 10000 = 66
    assert_eq!(luma.as_raw(), &vec![66, 255]);
    assert_eq!(luma.dimensions(), (2, 1));
}

#[test]
fn a_crop_is_clamped_to_the_image() {
    let gray = GrayImage::from_raw(3, 2, vec![1, 2, 3, 4, 5, 6]).unwrap();
    let cropped = Canvas::Gray(gray).crop(1, 1, 5, 5);
    assert_eq!(cropped.dimensions(), (2, 1));
    match cropped {
        Canvas::Gray(g) => assert_eq!(g.as_raw(), &vec![5, 6]),
        Canvas::Rgb(_) => panic!("a gray canvas stays gray"),
    }
}

#[test]
fn a_raster_needs_exactly_one_byte_per_pixel() {
    assert!(GrayImage::from_raw(2, 2, vec![0; 3]).is_none());
    assert!(GrayImage::from_raw(2, 2, vec![0; 4]).is_some());
    assert!(Rgb::from_raw(2, 2, vec![0; 4]).is_none());
    assert!(Rgb::from_raw(2, 2, vec![0; 12]).is_some());
}

#[test]
fn a_gray_canvas_holds_the_integer_luma_of_each_pixel() {
    let canvas = Canvas::from_flattened(rgba(1, 1, Rgba([200, 30, 40, 255])), false);
    match canvas {
        // (2126 * 200 + 7152 * 30 + 722 * 40) / 10000
        Canvas::Gray(g) => assert_eq!(g.as_raw(), &vec![66]),
        Canvas::Rgb(_) => panic!("a gray target gets luma"),
    }
}
