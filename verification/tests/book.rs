use epub_tailor::book::{Book, Resource, set_cover, strip_fonts};
use epub_tailor::model::Metadata;
use epub_tailor::options::CoverImage;
use indexmap::IndexMap;

fn res(data: &[u8], media_type: &str) -> Resource {
    Resource {
        data: data.to_vec(),
        media_type: media_type.to_string(),
    }
}

fn book_with(resources: Vec<(&str, Resource)>, cover: Option<&str>) -> Book {
    let mut map = IndexMap::new();
    for (p, r) in resources {
        map.insert(p.to_string(), r);
    }
    Book {
        metadata: Metadata::default(),
        resources: map,
        spine: vec!["OEBPS/ch1.xhtml".to_string()],
        toc: vec![],
        cover: cover.map(String::from),
        opf_path: "OEBPS/content.opf".to_string(),
        nav_path: None,
        ncx_path: None,
    }
}

fn cover_image(name: &str) -> CoverImage {
    CoverImage {
        data: b"jpegbytes".to_vec(),
        media_type: "image/jpeg".to_string(),
        file_name: name.to_string(),
    }
}

#[test]
fn a_supplied_cover_lands_next_to_the_package_document() {
    let mut book = book_with(vec![("OEBPS/ch1.xhtml", res(b"x", "application/xhtml+xml"))], None);
    let mut t = Vec::new();
    set_cover(&mut book, &cover_image("cover.jpg"), &mut t);
    assert_eq!(book.cover.as_deref(), Some("OEBPS/cover.jpg"));
    assert_eq!(book.resources["OEBPS/cover.jpg"].data, b"jpegbytes");
    assert_eq!(book.resources.get_index_of("OEBPS/cover.jpg"), Some(1));
    assert_eq!(t.len(), 1);
    assert_eq!(t[0].kind, "cover-set");
    assert_eq!(t[0].detail, "added the supplied cover image");
    assert_eq!(t[0].file.as_deref(), Some("OEBPS/cover.jpg"));
}

#[test]
fn a_supplied_cover_never_clobbers_another_resource() {
    let mut book = book_with(
        vec![
            ("OEBPS/cover.jpg", res(b"theirs", "image/jpeg")),
            ("OEBPS/cover-2.jpg", res(b"also theirs", "image/jpeg")),
        ],
        None,
    );
    let mut t = Vec::new();
    set_cover(&mut book, &cover_image("cover.jpg"), &mut t);
    assert_eq!(book.cover.as_deref(), Some("OEBPS/cover-3.jpg"));
    assert_eq!(book.resources["OEBPS/cover.jpg"].data, b"theirs");
    assert_eq!(book.resources["OEBPS/cover-2.jpg"].data, b"also theirs");
    assert_eq!(book.resources["OEBPS/cover-3.jpg"].data, b"jpegbytes");
}

#[test]
fn a_supplied_cover_replaces_the_current_cover_in_place() {
    let mut book = book_with(
        vec![
            ("OEBPS/cover.jpg", res(b"old cover", "image/jpeg")),
            ("OEBPS/ch1.xhtml", res(b"x", "application/xhtml+xml")),
        ],
        Some("OEBPS/cover.jpg"),
    );
    let mut t = Vec::new();
    set_cover(&mut book, &cover_image("cover.jpg"), &mut t);
    assert_eq!(book.cover.as_deref(), Some("OEBPS/cover.jpg"));
    assert_eq!(book.resources.len(), 2);
    assert_eq!(book.resources.get_index_of("OEBPS/cover.jpg"), Some(0));
    assert_eq!(book.resources["OEBPS/cover.jpg"].data, b"jpegbytes");
    assert_eq!(t[0].detail, "replaced the cover with the supplied image");
}

#[test]
fn a_cover_name_without_extension_is_numbered_plainly() {
    let mut book = book_with(vec![("OEBPS/front", res(b"x", "image/png"))], None);
    book.opf_path = "content.opf".to_string();
    book.resources.insert("front".to_string(), res(b"y", "image/png"));
    let mut t = Vec::new();
    set_cover(&mut book, &cover_image("front"), &mut t);
    assert_eq!(book.cover.as_deref(), Some("front-2"));
}

#[test]
fn fonts_are_stripped_and_reported() {
    let mut book = book_with(
        vec![
            ("OEBPS/ch1.xhtml", res(b"x", "application/xhtml+xml")),
            ("OEBPS/fonts/a.ttf", res(b"f", "application/octet-stream")),
            ("OEBPS/style.css", res(b"c", "text/css")),
            ("OEBPS/fonts/b", res(b"g", "font/woff2")),
        ],
        None,
    );
    let mut t = Vec::new();
    let mut w = Vec::new();
    let removed = strip_fonts(&mut book, &mut t, &mut w);
    let left: Vec<&str> = book.resources.keys().map(String::as_str).collect();
    assert_eq!(left, vec!["OEBPS/ch1.xhtml", "OEBPS/style.css"]);
    assert!(removed.contains(&"OEBPS/fonts/a.ttf".chars().collect::<Vec<_>>()));
    assert!(removed.contains(&"OEBPS/fonts/b".chars().collect::<Vec<_>>()));
    assert!(!removed.contains(&"OEBPS/style.css".chars().collect::<Vec<_>>()));
    assert_eq!(t.len(), 1);
    assert_eq!(t[0].kind, "fonts-stripped");
    assert_eq!(t[0].detail, "removed 2 embedded font file(s)");
    assert_eq!(
        w[0].message,
        "stripped 2 embedded font file(s) the device cannot load: OEBPS/fonts/a.ttf, OEBPS/fonts/b"
    );
}

#[test]
fn a_book_without_fonts_is_left_alone() {
    let mut book = book_with(vec![("OEBPS/ch1.xhtml", res(b"x", "application/xhtml+xml"))], None);
    let mut t = Vec::new();
    let mut w = Vec::new();
    strip_fonts(&mut book, &mut t, &mut w);
    assert_eq!(book.resources.len(), 1);
    assert!(t.is_empty() && w.is_empty());
}
