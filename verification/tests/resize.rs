use epub_tailor::canvas::GrayImage;
use epub_tailor::resize::fit;

fn blank(w: u32, h: u32) -> GrayImage {
    GrayImage::from_raw(w, h, vec![0; (w * h) as usize]).unwrap()
}

#[test]
fn downscales_tall_image_into_inline_box() {
    let fitted = fit(&blank(1600, 2400), 480, 730);
    assert_eq!(fitted.dimensions(), (480, 720));
    assert!(fitted.width() <= 480 && fitted.height() <= 730);
}

#[test]
fn never_upscales_a_small_image() {
    let fitted = fit(&blank(200, 300), 480, 730);
    assert_eq!(fitted.dimensions(), (200, 300), "must not upscale");
}

#[test]
fn wide_image_binds_on_height() {
    let fitted = fit(&blank(2000, 500), 480, 730);
    assert_eq!(fitted.dimensions(), (480, 120));
}

#[test]
fn exact_fit_is_left_unchanged() {
    let fitted = fit(&blank(480, 730), 480, 730);
    assert_eq!(fitted.dimensions(), (480, 730));
}

#[test]
fn a_tall_narrow_image_binds_on_height_and_rounds() {
    // 100x1000 into 480x730: height binds, width 100*730/1000 = 73.
    let fitted = fit(&blank(100, 1000), 480, 730);
    assert_eq!(fitted.dimensions(), (73, 730));
}

#[test]
fn a_downscale_carries_the_resampled_pixels() {
    let raw: Vec<u8> = (0..64u32).map(|i| (i * 4) as u8).collect();
    let gray = GrayImage::from_raw(8, 8, raw.clone()).unwrap();
    let fitted = fit(&gray, 4, 4);
    let expected = image::imageops::resize(
        &image::GrayImage::from_raw(8, 8, raw).unwrap(),
        4,
        4,
        image::imageops::FilterType::Lanczos3,
    );
    assert_eq!(fitted.dimensions(), (4, 4));
    assert_eq!(fitted.as_raw(), &expected.into_raw());
}
