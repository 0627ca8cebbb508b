use epub_tailor::autocontrast::autocontrast;
use epub_tailor::canvas::GrayImage;

fn gray_from(w: u32, h: u32, f: impl Fn(u32, u32) -> u8) -> GrayImage {
    let mut data = Vec::new();
    for y in 0..h {
        for x in 0..w {
            data.push(f(x, y));
        }
    }
    GrayImage::from_raw(w, h, data).unwrap()
}

fn narrow_gradient(w: u32, lo: u8, hi: u8) -> GrayImage {
    let span = (hi - lo) as u32;
    gray_from(w, 4, |x, _| (lo as u32 + (x * span) / w.max(1)) as u8)
}

#[test]
fn stretches_a_narrow_range_to_full() {
    let mut img = narrow_gradient(400, 64, 192);
    autocontrast(&mut img);
    let min = *img.as_raw().iter().min().unwrap();
    let max = *img.as_raw().iter().max().unwrap();
    assert!(min < 12, "dark end should stretch toward 0, got {min}");
    assert!(max > 243, "light end should stretch toward 255, got {max}");
}

#[test]
fn flat_image_is_left_alone() {
    let mut img = gray_from(10, 10, |_, _| 128);
    autocontrast(&mut img);
    assert!(img.as_raw().iter().all(|p| *p == 128), "flat image unchanged");
}

#[test]
fn empty_image_does_not_panic() {
    let mut img = GrayImage::from_raw(0, 0, Vec::new()).unwrap();
    autocontrast(&mut img);
    assert_eq!(img.dimensions(), (0, 0));
}

#[test]
fn the_stretch_maps_the_clipped_ends_to_black_and_white() {
    // 100 pixels: tones 10 and 20, fifty each; 1% clips one pixel per end,
    // so 10 maps to 0 and 20 to 255.
    let mut img = gray_from(10, 10, |x, _| if x < 5 { 10 } else { 20 });
    autocontrast(&mut img);
    assert_eq!(img.as_raw()[0], 0);
    assert_eq!(img.as_raw()[9], 255);
}

#[test]
fn two_tones_stretch_to_black_and_white() {
    let mut img = GrayImage::from_pixel(10, 10, 100);
    for x in 0..10 {
        for y in 0..5 {
            img.put_pixel(x, y, 150);
        }
    }
    autocontrast(&mut img);
    assert_eq!(img.get_pixel(0, 0), 255);
    assert_eq!(img.get_pixel(0, 9), 0);
}
