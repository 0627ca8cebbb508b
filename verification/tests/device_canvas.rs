use epub_tailor::canvas::Canvas;
use epub_tailor::images::{flatten_alpha_onto_white, prepare, to_device_canvas, InFormat};
use image::{DynamicImage, Rgba};

fn rgba(w: u32, h: u32, f: impl Fn(u32, u32) -> [u8; 4]) -> DynamicImage {
    let mut img = image::RgbaImage::new(w, h);
    for (x, y, px) in img.enumerate_pixels_mut() {
        *px = Rgba(f(x, y));
    }
    DynamicImage::ImageRgba8(img)
}

#[test]
fn alpha_is_composited_onto_white() {
    let img = rgba(2, 1, |x, _| if x == 0 { [0, 0, 0, 0] } else { [0, 100, 200, 128] });
    let flat = flatten_alpha_onto_white(img).into_rgba8();
    assert_eq!(flat.get_pixel(0, 0).0, [255, 255, 255, 255]);
    // (c*128 + 255*127) / 255 for c = 0, 100, 200
    assert_eq!(flat.get_pixel(1, 0).0, [127, 177, 227, 255]);
}

#[test]
fn an_image_without_alpha_is_not_touched() {
    let img = DynamicImage::ImageRgb8(image::RgbImage::from_pixel(3, 3, image::Rgb([1, 2, 3])));
    let out = flatten_alpha_onto_white(img);
    assert!(matches!(out, DynamicImage::ImageRgb8(_)));
    assert_eq!(out.into_rgb8().get_pixel(2, 2).0, [1, 2, 3]);
}

#[test]
fn a_gray_panel_gets_a_stretched_photo_and_a_crisp_line_drawing() {
    let photo = rgba(256, 4, |x, _| {
        let v = 64 + (x as u8) / 2;
        [v, v, v, 255]
    });
    let (canvas, line_art) = to_device_canvas(photo, false);
    assert!(!line_art);
    match canvas {
        Canvas::Gray(g) => {
            assert_eq!(*g.as_raw().iter().min().unwrap(), 0);
            assert_eq!(*g.as_raw().iter().max().unwrap(), 255);
        }
        Canvas::Rgb(_) => panic!("a gray panel gets gray pixels"),
    }

    let drawing = rgba(8, 8, |x, y| if (x + y) % 2 == 0 { [0, 0, 0, 255] } else { [255, 255, 255, 255] });
    let (canvas, line_art) = to_device_canvas(drawing, false);
    assert!(line_art);
    match canvas {
        Canvas::Gray(g) => assert_eq!(g.get_pixel(0, 0), 0),
        Canvas::Rgb(_) => panic!("a gray panel gets gray pixels"),
    }
}

#[test]
fn a_color_panel_keeps_rgb_and_still_classifies() {
    let drawing = rgba(4, 4, |x, _| if x < 2 { [255, 0, 0, 255] } else { [255, 255, 255, 255] });
    let prepared = prepare(drawing, InFormat::Png, true);
    assert!(prepared.canvas.is_color());
    assert!(prepared.line_art);
    assert_eq!((prepared.in_w, prepared.in_h), (4, 4));
    assert_eq!(prepared.in_fmt, InFormat::Png);
}
