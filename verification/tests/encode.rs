use epub_tailor::canvas::GrayImage;
use epub_tailor::encode::{
    encode_jpeg, encode_png, fit_to_budget, warn_if_over_budget, BudgetFit, QUALITY_FLOOR,
};
use image::Rgb;

fn noise(w: u32, h: u32) -> GrayImage {
    let mut data = Vec::new();
    let mut state = 0x1234_5678u32;
    for _ in 0..(w * h) {
        state = state.wrapping_mul(1_664_525).wrapping_add(1_013_904_223);
        data.push((state >> 24) as u8);
    }
    GrayImage::from_raw(w, h, data).unwrap()
}

fn gradient(w: u32, h: u32) -> GrayImage {
    let mut data = Vec::new();
    for _y in 0..h {
        for x in 0..w {
            data.push(((x * 255) / w.max(1)) as u8);
        }
    }
    GrayImage::from_raw(w, h, data).unwrap()
}

#[test]
fn jpeg_is_baseline_grayscale() {
    let jpeg = encode_jpeg(&gradient(32, 24), 82);
    assert!(
        jpeg.windows(2).any(|w| w == [0xFF, 0xC0]),
        "baseline SOF0 marker must be present"
    );
    assert!(
        !jpeg.windows(2).any(|w| w == [0xFF, 0xC2]),
        "progressive SOF2 marker must be absent"
    );
    let sof0 = jpeg
        .windows(2)
        .position(|w| w == [0xFF, 0xC0])
        .expect("SOF0 present");
    assert_eq!(jpeg[sof0 + 9], 1, "grayscale JPEG has exactly one component");
}

#[test]
fn png_round_trips_grayscale_losslessly() {
    let src = gradient(20, 10);
    let png = encode_png(&src);
    let decoded = image::load_from_memory(&png).expect("valid PNG").into_luma8();
    assert_eq!(decoded.dimensions(), (20, 10));
    assert_eq!(decoded.as_raw(), src.as_raw(), "PNG must be lossless");
}

#[test]
fn png_of_rgb_input_would_not_be_grayscale_but_luma_encoder_forces_l8() {
    let data: Vec<u8> = (0..16u32).map(|i| (i * 16) as u8).collect();
    let g = GrayImage::from_raw(4, 4, data).unwrap();
    let png = encode_png(&g);
    let color = image::load_from_memory(&png).expect("valid PNG").color();
    assert!(!color.has_color(), "PNG must be grayscale");
    let _ = Rgb([0u8, 0, 0]);
}

#[test]
fn budget_loop_fits_by_stepping_quality() {
    let img = noise(200, 200);
    let full = encode_jpeg(&img, 82).len();
    let budget = full * 3 / 4;
    let fit = fit_to_budget(img, 82, budget);
    assert!(!fit.over_budget, "should fit within budget");
    assert!(fit.data.len() <= budget);
    assert!(fit.quality <= 82);
    assert_eq!((fit.width, fit.height), (200, 200), "dims untouched");
}

#[test]
fn budget_loop_steps_dimensions_when_quality_floor_is_not_enough() {
    let img = noise(400, 400);
    let budget = 2_000;
    let fit = fit_to_budget(img, 82, budget);
    if fit.over_budget {
        assert!(fit.data.len() > budget);
    } else {
        assert!(fit.data.len() <= budget);
        assert!(fit.width < 400 || fit.height < 400, "dimensions were reduced");
        assert!(fit.width >= 200 && fit.height >= 200, "not below 50%");
    }
}

#[test]
fn budget_loop_flags_when_nothing_fits() {
    let img = noise(400, 400);
    let fit = fit_to_budget(img, 82, 10);
    assert!(fit.over_budget, "cannot fit a 400x400 image in 10 bytes");
    assert_eq!(fit.quality, QUALITY_FLOOR);
    assert!(fit.width <= 200 && fit.height <= 200);
}

#[test]
fn a_budget_the_first_attempt_meets_keeps_the_start_quality() {
    let img = gradient(64, 64);
    let first = encode_jpeg(&img, 90);
    let fit = fit_to_budget(img, 90, first.len());
    assert!(!fit.over_budget);
    assert_eq!(fit.quality, 90);
    assert_eq!(fit.data, first);
}

#[test]
fn a_start_quality_below_the_floor_is_raised_to_it() {
    let img = gradient(16, 16);
    let at_floor = encode_jpeg(&img, QUALITY_FLOOR);
    let fit = fit_to_budget(img, 10, usize::MAX);
    assert_eq!(fit.quality, QUALITY_FLOOR);
    assert_eq!(fit.data, at_floor);
}

#[test]
fn an_over_budget_fit_is_warned_about_and_a_fitting_one_is_not() {
    let mut warnings = Vec::new();
    let fit = BudgetFit {
        data: vec![0; 50],
        width: 120,
        height: 80,
        quality: QUALITY_FLOOR,
        over_budget: true,
    };
    warn_if_over_budget(&fit, 10, &mut warnings, "OEBPS/a.jpg");
    assert_eq!(warnings.len(), 1);
    assert_eq!(
        warnings[0].message,
        "could not fit OEBPS/a.jpg within its 10-byte budget; kept the smallest version (120x80)"
    );
    assert_eq!(warnings[0].file.as_deref(), Some("OEBPS/a.jpg"));
    let ok = BudgetFit { over_budget: false, ..fit };
    warn_if_over_budget(&ok, 10, &mut warnings, "OEBPS/a.jpg");
    assert_eq!(warnings.len(), 1);
}
