use epub_tailor::canvas::{Canvas, GrayImage, Rgb};
use epub_tailor::images::{InFormat, Prepared};
use epub_tailor::pipeline::{DeviceCaps, Panel};
use epub_tailor::split::{run, Outcome};

fn x4() -> DeviceCaps {
    DeviceCaps {
        panel: Panel::Gray,
        cover_max: (480, 800),
        cover_budget_bytes: 200 * 1024,
        inline_max: (480, 730),
        inline_budget_bytes: 100 * 1024,
        screen_h: 800,
    }
}

fn tall_prepared(w: u32, h: u32) -> Prepared {
    let mut data = Vec::with_capacity((w * h) as usize);
    for y in 0..h {
        for _x in 0..w {
            data.push(((y * 255) / h.max(1)) as u8);
        }
    }
    let gray = GrayImage::from_raw(w, h, data).unwrap();
    prepared_from(Canvas::Gray(gray), w, h)
}

fn prepared_from(canvas: Canvas, w: u32, h: u32) -> Prepared {
    Prepared { canvas, line_art: false, in_w: w, in_h: h, in_fmt: InFormat::Png }
}

#[test]
fn tall_image_splits_into_overlapping_tiles() {
    let profile = x4();
    let mut warnings = Vec::new();
    let outcome = run(tall_prepared(480, 3000), &profile, 82, &mut warnings, "t.png");
    let Outcome::Tiles(tiles) = outcome else {
        panic!("a 480x3000 image should split");
    };
    assert!(tiles.len() >= 2, "expected 2+ tiles, got {}", tiles.len());
    for tile in &tiles {
        let decoded = image::load_from_memory(&tile.data).unwrap();
        assert_eq!(decoded.width(), 480);
        assert!(decoded.height() <= 800);
    }
}

#[test]
fn short_image_is_not_split() {
    let profile = x4();
    let mut warnings = Vec::new();
    let outcome = run(tall_prepared(480, 1000), &profile, 82, &mut warnings, "s.png");
    assert!(matches!(outcome, Outcome::NotTall(_)));
}

#[test]
fn wide_tall_image_fits_width_before_deciding() {
    let profile = x4();
    let mut warnings = Vec::new();
    let outcome = run(tall_prepared(960, 3400), &profile, 82, &mut warnings, "w.png");
    let Outcome::Tiles(tiles) = outcome else {
        panic!("should split after fitting width");
    };
    assert!(tiles.len() >= 2);
    assert!(tiles.iter().all(|t| image::load_from_memory(&t.data).unwrap().width() == 480));
}

#[test]
fn tiles_of_a_color_image_stay_color() {
    let (w, h) = (600u32, 4000u32);
    let mut data = Vec::with_capacity((3 * w * h) as usize);
    for y in 0..h {
        for _x in 0..w {
            data.extend_from_slice(&[200, ((y * 255) / 4000) as u8, 40]);
        }
    }
    let rgb = Rgb::from_raw(w, h, data).unwrap();
    let profile = DeviceCaps { panel: Panel::Color, ..x4() };
    let mut warnings = Vec::new();
    let outcome = run(prepared_from(Canvas::Rgb(rgb), w, h), &profile, 82, &mut warnings, "c.png");
    let Outcome::Tiles(tiles) = outcome else {
        panic!("a 600x4000 image should split");
    };
    assert!(!tiles.is_empty());
    for tile in &tiles {
        let decoded = image::load_from_memory(&tile.data).expect("valid JPEG");
        assert!(decoded.color().has_color(), "tiles must stay color");
    }
}

#[test]
fn a_480x3000_strip_gives_five_overlapping_tiles() {
    // Tiles start every 720 rows (800 less a tenth): 0, 720, 1440, 2160 and
    // 2880; only the last reaches the bottom, with 120 rows.
    let mut warnings = Vec::new();
    let outcome = run(tall_prepared(480, 3000), &x4(), 82, &mut warnings, "t.png");
    let Outcome::Tiles(tiles) = outcome else {
        panic!("should split");
    };
    let heights: Vec<u32> =
        tiles.iter().map(|t| image::load_from_memory(&t.data).unwrap().height()).collect();
    assert_eq!(heights, vec![800, 800, 800, 800, 120]);
}
