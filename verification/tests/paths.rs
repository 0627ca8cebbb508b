use epub_tailor::paths::{
    basename, guess_image_media_type, has_scheme, is_font, is_xhtml, join, join_dir, kb,
    parent_dir, path_part, split_ext, stem_of, with_extension,
};

#[test]
fn is_font_matches_by_media_type_and_extension() {
    assert!(is_font("f.otf", "application/octet-stream"));
    assert!(is_font("f.woff2", "application/octet-stream"));
    assert!(is_font("x", "font/ttf"));
    assert!(is_font("x", "application/vnd.ms-opentype"));
    assert!(is_font("x", "application/x-font-ttf"));
    assert!(!is_font("cover.jpg", "image/jpeg"));
    assert!(!is_font("main.css", "text/css"));
}

#[test]
fn media_type_is_guessed_from_extension() {
    assert_eq!(guess_image_media_type("OEBPS/images/a.jpg"), "image/jpeg");
    assert_eq!(guess_image_media_type("OEBPS/images/a.png"), "image/png");
    assert_eq!(guess_image_media_type("OEBPS/images/a.svg"), "image/svg+xml");
    assert_eq!(guess_image_media_type("OEBPS/images/a.bin"), "application/octet-stream");
}

#[test]
fn media_type_guess_ignores_case_and_handles_no_extension() {
    assert_eq!(guess_image_media_type("A.JPEG"), "image/jpeg");
    assert_eq!(guess_image_media_type("scan.TIF"), "image/tiff");
    assert_eq!(guess_image_media_type("noext"), "application/octet-stream");
}

#[test]
fn directory_and_name_helpers() {
    assert_eq!(parent_dir("OEBPS/text/ch1.xhtml"), "OEBPS/text");
    assert_eq!(parent_dir("ch1.xhtml"), "");
    assert_eq!(join_dir("", "a.png"), "a.png");
    assert_eq!(join_dir("OEBPS", "a.png"), "OEBPS/a.png");
    assert_eq!(basename("OEBPS/text/ch1.xhtml"), "ch1.xhtml");
    assert_eq!(stem_of("OEBPS/text/ch1.xhtml"), "ch1");
    assert_eq!(stem_of("OEBPS/.hidden"), ".hidden");
    assert_eq!(with_extension("OEBPS/images/pic.gif", "png"), "OEBPS/images/pic.png");
    assert_eq!(with_extension("pic.gif", "png"), "pic.png");
    assert_eq!(path_part("a/b.xhtml#frag"), "a/b.xhtml");
    assert_eq!(path_part("a/b.png?x=1#y"), "a/b.png");
    assert_eq!(path_part("plain"), "plain");
}

#[test]
fn extension_split_and_join() {
    assert_eq!(split_ext("photo.final.jpg"), ("photo.final".to_string(), "jpg".to_string()));
    assert_eq!(split_ext(".bashrc"), (".bashrc".to_string(), String::new()));
    assert_eq!(split_ext("README"), ("README".to_string(), String::new()));
    assert_eq!(join("pic", "png"), "OEBPS/images/pic.png");
    assert_eq!(join("pic", ""), "OEBPS/images/pic");
}

#[test]
fn schemes_are_recognized_by_rfc3986_shape() {
    assert!(has_scheme("https://example.com/x"));
    assert!(has_scheme("mailto:someone@example.com"));
    assert!(has_scheme("x-y.z+w:rest"));
    assert!(!has_scheme("chapter.xhtml#note"));
    assert!(!has_scheme("1http://x"));
    assert!(!has_scheme(":nothing"));
    assert!(!has_scheme("a b:c"));
}

#[test]
fn small_predicates() {
    assert!(is_xhtml("application/xhtml+xml"));
    assert!(is_xhtml("text/html"));
    assert!(!is_xhtml("text/css"));
    assert_eq!(kb(0), 0);
    assert_eq!(kb(511), 0);
    assert_eq!(kb(512), 1);
    assert_eq!(kb(2048), 2);
}
