use epub_tailor::image_plan::{process_images, PipelineResult};
use epub_tailor::book::{Book, Resource};
use epub_tailor::images::{sniff, ImageOutcome, ImageRole, InFormat, OutFormat};
use epub_tailor::model::Metadata;
use epub_tailor::names::PathSet;
use epub_tailor::pipeline::{kb, process_for_convert, process_image, DeviceCaps, Panel};
use epub_tailor::report::{Transformation, Warning};
use image::codecs::bmp::BmpEncoder;
use image::codecs::gif::GifEncoder;
use image::codecs::png::PngEncoder;
use image::codecs::tiff::TiffEncoder;
use image::codecs::webp::WebPEncoder;
use image::{ExtendedColorType, Frame, ImageEncoder, RgbImage};
use indexmap::IndexMap;
use jpeg_encoder::{ColorType, Encoder};
use std::io::Cursor;

/// The X4-class device: a 480x730 inline box in a 100KB budget, an 800 px
/// tall screen, a grayscale panel.
fn x4() -> DeviceCaps {
    DeviceCaps {
        panel: Panel::Gray,
        cover_max: (480, 800),
        cover_budget_bytes: 200 * 1024,
        inline_max: (480, 730),
        inline_budget_bytes: 100 * 1024,
        screen_h: 800,
    }
}

fn photo_rgb(w: u32, h: u32) -> RgbImage {
    let mut img = RgbImage::new(w, h);
    for (x, _y, px) in img.enumerate_pixels_mut() {
        let v = ((x * 255) / w.max(1)) as u8;
        *px = image::Rgb([v, v, v]);
    }
    img
}

fn png_bytes(img: &RgbImage) -> Vec<u8> {
    let mut out = Vec::new();
    PngEncoder::new(&mut out)
        .write_image(img.as_raw(), img.width(), img.height(), ExtendedColorType::Rgb8)
        .unwrap();
    out
}

fn process(data: &[u8], role: ImageRole) -> (ImageOutcome, Vec<Warning>) {
    let mut warnings = Vec::new();
    let outcome = process_image(data, role, &x4(), 82, &mut warnings, "images/x");
    (outcome, warnings)
}

#[test]
fn photo_becomes_baseline_grayscale_jpeg() {
    let (outcome, _) = process(&png_bytes(&photo_rgb(300, 200)), ImageRole::Inline);
    let ImageOutcome::Processed { data, format, .. } = outcome else {
        panic!("expected a processed image");
    };
    assert_eq!(format, OutFormat::Jpeg, "a smooth gradient is a photo");
    assert_eq!(sniff(&data), Some(InFormat::Jpeg));
    assert!(data.windows(2).any(|w| w == [0xFF, 0xC0]), "baseline SOF0");
    assert!(!data.windows(2).any(|w| w == [0xFF, 0xC2]), "no progressive SOF2");
}

#[test]
fn checkerboard_stays_crisp_png() {
    let mut img = RgbImage::new(40, 40);
    for (x, y, px) in img.enumerate_pixels_mut() {
        let v = if (x + y) % 2 == 0 { 0 } else { 255 };
        *px = image::Rgb([v, v, v]);
    }
    let (outcome, _) = process(&png_bytes(&img), ImageRole::Inline);
    let ImageOutcome::Processed { data, format, width, height, .. } = outcome else {
        panic!("expected a processed image");
    };
    assert_eq!(format, OutFormat::Png, "line art stays PNG");
    assert_eq!((width, height), (40, 40), "small line art is not resized");
    let decoded = image::load_from_memory(&data).unwrap().into_luma8();
    assert!(decoded.pixels().all(|p| p.0[0] == 0 || p.0[0] == 255));
}

#[test]
fn fits_long_axis_and_never_upscales() {
    let (big, _) = process(&png_bytes(&photo_rgb(1600, 2400)), ImageRole::Inline);
    let ImageOutcome::Processed { width, height, .. } = big else {
        panic!("expected processed");
    };
    assert_eq!((width, height), (480, 720));

    let (small, _) = process(&png_bytes(&photo_rgb(200, 300)), ImageRole::Inline);
    let ImageOutcome::Processed { width, height, .. } = small else {
        panic!("expected processed");
    };
    assert_eq!((width, height), (200, 300));
}

#[test]
fn exif_orientation_six_uprights_dimensions() {
    let mut wide = image::GrayImage::new(4, 2);
    for (x, _y, px) in wide.enumerate_pixels_mut() {
        px.0[0] = (x * 60) as u8;
    }
    let mut base = Vec::new();
    Encoder::new(&mut base, 82).encode(wide.as_raw(), 4, 2, ColorType::Luma).unwrap();
    let app1: &[u8] = &[
        0xFF, 0xE1, 0x00, 0x22, b'E', b'x', b'i', b'f', 0x00, 0x00, 0x49, 0x49, 0x2A, 0x00, 0x08,
        0x00, 0x00, 0x00, 0x01, 0x00, 0x12, 0x01, 0x03, 0x00, 0x01, 0x00, 0x00, 0x00, 0x06, 0x00,
        0x00, 0x00, 0x00, 0x00, 0x00, 0x00,
    ];
    let mut jpeg = Vec::new();
    jpeg.extend_from_slice(&base[..2]);
    jpeg.extend_from_slice(app1);
    jpeg.extend_from_slice(&base[2..]);

    let (outcome, _) = process(&jpeg, ImageRole::Inline);
    let ImageOutcome::Processed { width, height, .. } = outcome else {
        panic!("expected processed");
    };
    assert_eq!((width, height), (2, 4), "orientation 6 swaps dimensions");
}

#[test]
fn budget_is_respected_for_a_noisy_photo() {
    let mut img = RgbImage::new(1200, 1600);
    let mut state = 0x9E37_79B9u32;
    for px in img.pixels_mut() {
        state = state.wrapping_mul(1_664_525).wrapping_add(1_013_904_223);
        let v = (state >> 24) as u8;
        *px = image::Rgb([v, v, v]);
    }
    let (outcome, warnings) = process(&png_bytes(&img), ImageRole::Inline);
    let ImageOutcome::Processed { data, .. } = outcome else {
        panic!("expected processed");
    };
    let budget = x4().inline_budget_bytes;
    let over = warnings.iter().any(|w| w.message.contains("budget"));
    assert!(data.len() <= budget || over, "output {} bytes exceeds {budget} with no warning", data.len());
}

#[test]
fn processing_is_deterministic() {
    let png = png_bytes(&photo_rgb(500, 400));
    let (a, _) = process(&png, ImageRole::Inline);
    let (b, _) = process(&png, ImageRole::Inline);
    let (ImageOutcome::Processed { data: da, .. }, ImageOutcome::Processed { data: db, .. }) = (a, b)
    else {
        panic!("expected processed");
    };
    assert_eq!(da, db, "identical input must produce identical bytes");
}

#[test]
fn dead_formats_are_transcoded_away() {
    let photo = photo_rgb(64, 48);

    let mut gif = Vec::new();
    {
        let mut enc = GifEncoder::new(&mut gif);
        enc.encode_frame(Frame::new(image::DynamicImage::ImageRgb8(photo.clone()).into_rgba8()))
            .unwrap();
    }
    let mut webp = Vec::new();
    WebPEncoder::new_lossless(&mut webp).encode(photo.as_raw(), 64, 48, ExtendedColorType::Rgb8).unwrap();
    let mut tiff = Vec::new();
    TiffEncoder::new(Cursor::new(&mut tiff))
        .write_image(photo.as_raw(), 64, 48, ExtendedColorType::Rgb8)
        .unwrap();
    let mut bmp = Vec::new();
    BmpEncoder::new(&mut bmp).encode(photo.as_raw(), 64, 48, ExtendedColorType::Rgb8).unwrap();

    for (name, bytes) in [("gif", gif), ("webp", webp), ("tiff", tiff), ("bmp", bmp)] {
        let (outcome, _) = process(&bytes, ImageRole::Inline);
        let ImageOutcome::Processed { data, format, .. } = outcome else {
            panic!("{name} should be transcoded, not left unchanged");
        };
        assert!(matches!(format, OutFormat::Jpeg | OutFormat::Png), "{name} must become JPEG or PNG");
        assert!(
            matches!(sniff(&data), Some(InFormat::Jpeg) | Some(InFormat::Png)),
            "{name} output must be a live format"
        );
    }
}

#[test]
fn undecodable_bytes_stay_unchanged_with_warning() {
    let mut warnings = Vec::new();
    let outcome = process_image(
        &[0xFF, 0xD8, 0xFF, 0xE0, 0x00, 0x10, 0x4A],
        ImageRole::Inline,
        &x4(),
        82,
        &mut warnings,
        "images/broken.jpg",
    );
    assert!(matches!(outcome, ImageOutcome::Unchanged { .. }));
    assert_eq!(warnings.len(), 1);
    assert!(warnings[0].message.contains("could not decode"));
}

#[test]
fn unknown_format_stays_unchanged_with_warning() {
    let mut warnings: Vec<Warning> = Vec::new();
    let outcome = process_image(
        b"totally not an image",
        ImageRole::Inline,
        &x4(),
        82,
        &mut warnings,
        "images/mystery.bin",
    );
    assert!(matches!(outcome, ImageOutcome::Unchanged { .. }));
    assert_eq!(warnings.len(), 1);
    assert_eq!(
        warnings[0].message,
        "could not identify images/mystery.bin as a supported image; left it unchanged"
    );
    assert_eq!(warnings[0].file.as_deref(), Some("images/mystery.bin"));
}

#[test]
fn the_report_note_names_both_sizes_and_formats() {
    let png = png_bytes(&photo_rgb(300, 200));
    let (outcome, _) = process(&png, ImageRole::Inline);
    let ImageOutcome::Processed { data, note, .. } = outcome else {
        panic!("expected processed");
    };
    let expected_prefix = "300x200 png -> 300x200 jpeg q82 ";
    assert!(note.starts_with(expected_prefix), "{note}");
    assert!(note.ends_with(&format!("{}KB -> {}KB", kb(png.len()), kb(data.len()))), "{note}");
}

#[test]
fn kb_rounds_to_the_nearest_kibibyte() {
    assert_eq!(kb(0), 0);
    assert_eq!(kb(511), 0);
    assert_eq!(kb(512), 1);
    assert_eq!(kb(1536), 2);
}

#[test]
fn a_cover_photo_starts_at_quality_85_at_least() {
    let mut warnings = Vec::new();
    let outcome = process_image(
        &png_bytes(&photo_rgb(120, 80)),
        ImageRole::Cover,
        &x4(),
        60,
        &mut warnings,
        "cover.png",
    );
    let ImageOutcome::Processed { note, format, .. } = outcome else {
        panic!("expected processed");
    };
    assert_eq!(format, OutFormat::Jpeg);
    assert!(note.contains(" q85 "), "{note}");
}

#[test]
fn an_empty_inline_box_leaves_the_image_unchanged_with_a_warning() {
    let caps = DeviceCaps { inline_max: (0, 0), ..x4() };
    let mut warnings = Vec::new();
    let outcome = process_image(&png_bytes(&photo_rgb(30, 20)), ImageRole::Inline, &caps, 82, &mut warnings, "a.png");
    assert!(matches!(outcome, ImageOutcome::Unchanged { .. }));
    assert_eq!(warnings.len(), 1);
    assert_eq!(warnings[0].message, "could not encode a.png at 30x20; left it unchanged");
}

#[test]
fn a_tall_strip_is_split_only_when_asked() {
    let strip = png_bytes(&photo_rgb(480, 3000));
    let mut warnings = Vec::new();
    let split = process_for_convert(&strip, ImageRole::Inline, &x4(), 82, true, &mut warnings, "s.png");
    assert!(matches!(split, PipelineResult::Split(ref t) if t.len() >= 2));
    let single = process_for_convert(&strip, ImageRole::Inline, &x4(), 82, false, &mut warnings, "s.png");
    assert!(matches!(single, PipelineResult::Single(ImageOutcome::Processed { .. })));
    let cover = process_for_convert(&strip, ImageRole::Cover, &x4(), 82, true, &mut warnings, "s.png");
    assert!(matches!(cover, PipelineResult::Single(ImageOutcome::Processed { .. })));
}

fn book_with(resources: Vec<(&str, Vec<u8>, &str)>, cover: Option<&str>) -> Book {
    let mut map = IndexMap::new();
    for (p, d, mt) in resources {
        map.insert(p.to_string(), Resource { data: d, media_type: mt.to_string() });
    }
    Book {
        metadata: Metadata::default(),
        resources: map,
        spine: vec![],
        toc: vec![],
        cover: cover.map(String::from),
        opf_path: "OEBPS/content.opf".to_string(),
        nav_path: None,
        ncx_path: None,
    }
}

#[test]
fn the_image_pass_reencodes_renames_and_skips() {
    let photo = png_bytes(&photo_rgb(300, 200));
    let mut book = book_with(
        vec![
            ("OEBPS/a.png", photo.clone(), "image/png"),
            ("OEBPS/broken.png", b"not an image at all".to_vec(), "image/png"),
            ("OEBPS/skip.png", photo.clone(), "image/png"),
            ("OEBPS/style.css", b"p{}".to_vec(), "text/css"),
        ],
        Some("OEBPS/a.png"),
    );
    let mut skip = PathSet::new();
    skip.insert(&"OEBPS/skip.png".chars().collect::<Vec<char>>());
    let mut transformations: Vec<Transformation> = Vec::new();
    let mut warnings: Vec<Warning> = Vec::new();
    let plan = process_images(&mut book, &x4(), 82, false, &skip, &mut transformations, &mut warnings);
    assert_eq!(plan.images_processed, 1);
    assert_eq!(plan.renames, vec![("OEBPS/a.png".to_string(), "OEBPS/a.jpg".to_string())]);
    assert_eq!(book.cover.as_deref(), Some("OEBPS/a.jpg"));
    let keys: Vec<&str> = book.resources.keys().map(|k| k.as_str()).collect();
    assert_eq!(keys, vec!["OEBPS/broken.png", "OEBPS/skip.png", "OEBPS/style.css", "OEBPS/a.jpg"]);
    assert_eq!(book.resources["OEBPS/a.jpg"].media_type, "image/jpeg");
    assert_eq!(book.resources["OEBPS/skip.png"].data, photo);
    assert_eq!(transformations.len(), 1);
    assert_eq!(transformations[0].kind, "image-optimized");
    assert_eq!(warnings.len(), 1);
    assert!(warnings[0].message.starts_with("could not identify OEBPS/broken.png"));
}

#[test]
fn an_animated_gif_is_warned_about_and_its_first_frame_used() {
    let frame = image::DynamicImage::ImageRgb8(photo_rgb(32, 24)).into_rgba8();
    let mut two = Vec::new();
    {
        let mut enc = GifEncoder::new(&mut two);
        enc.encode_frame(Frame::new(frame.clone())).unwrap();
        enc.encode_frame(Frame::new(frame.clone())).unwrap();
    }
    let mut one = Vec::new();
    {
        let mut enc = GifEncoder::new(&mut one);
        enc.encode_frame(Frame::new(frame)).unwrap();
    }
    let (outcome, warnings) = process(&two, ImageRole::Inline);
    assert!(matches!(outcome, ImageOutcome::Processed { width: 32, height: 24, .. }));
    assert_eq!(warnings.len(), 1);
    assert_eq!(warnings[0].message, "images/x is an animated gif; used its first frame only");
    let (_, warnings) = process(&one, ImageRole::Inline);
    assert!(warnings.is_empty());
}
