use epub_tailor::canvas::GrayImage;
use epub_tailor::classify::{classify, histogram, Kind};

fn gray_from(w: u32, h: u32, f: impl Fn(u32, u32) -> u8) -> GrayImage {
    let mut data = Vec::new();
    for y in 0..h {
        for x in 0..w {
            data.push(f(x, y));
        }
    }
    GrayImage::from_raw(w, h, data).unwrap()
}

fn checkerboard(size: u32) -> GrayImage {
    gray_from(size, size, |x, y| if (x + y) % 2 == 0 { 0 } else { 255 })
}

fn smooth_gradient(w: u32, h: u32) -> GrayImage {
    gray_from(w, h, |x, _| ((x * 255) / w.max(1)) as u8)
}

#[test]
fn checkerboard_is_line_art() {
    assert_eq!(classify(&checkerboard(32)), Kind::LineArt);
}

#[test]
fn two_level_diagram_is_line_art() {
    let img = gray_from(50, 40, |x, y| {
        if (10..30).contains(&x) && (5..25).contains(&y) {
            0
        } else {
            255
        }
    });
    assert_eq!(classify(&img), Kind::LineArt);
}

#[test]
fn smooth_gradient_is_photo() {
    assert_eq!(classify(&smooth_gradient(256, 64)), Kind::Photo);
}

#[test]
fn mostly_flat_with_noise_is_line_art_via_dominant_tones() {
    let img = gray_from(100, 100, |x, y| {
        if y == 0 || y == 1 {
            0
        } else if y == 50 && x < 40 {
            (20 + x) as u8
        } else {
            255
        }
    });
    assert_eq!(classify(&img), Kind::LineArt);
}

#[test]
fn an_empty_image_is_line_art() {
    let img = GrayImage::from_raw(0, 5, Vec::new()).unwrap();
    assert_eq!(classify(&img), Kind::LineArt);
}

#[test]
fn the_histogram_counts_each_tone() {
    let img = gray_from(4, 1, |x, _| if x == 0 { 7 } else { 9 });
    let hist = histogram(&img);
    assert_eq!(hist.len(), 256);
    assert_eq!(hist[7], 1);
    assert_eq!(hist[9], 3);
    assert_eq!(hist.iter().sum::<u64>(), 4);
}
