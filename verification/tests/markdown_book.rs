use epub_tailor::book::Resource;
use epub_tailor::frontmatter::Frontmatter;
use epub_tailor::markdown_book::{build_book, chapter_path, resolve_title, RenderedChapter, SubHeading};

fn chapter(front: bool, title: &str, subs: Vec<(&str, &str)>, images: Vec<(&str, &[u8])>, body: &[u8]) -> RenderedChapter {
    RenderedChapter {
        front,
        title: title.to_string(),
        sub_headings: subs
            .into_iter()
            .map(|(t, s)| SubHeading { title: t.to_string(), slug: s.to_string() })
            .collect(),
        images: images
            .into_iter()
            .map(|(p, d)| (p.to_string(), Resource { data: d.to_vec(), media_type: "image/png".to_string() }))
            .collect(),
        body: body.to_vec(),
    }
}

#[test]
fn chapter_paths_are_numbered_from_one_and_padded() {
    assert_eq!(chapter_path(0), "OEBPS/ch-001.xhtml");
    assert_eq!(chapter_path(9), "OEBPS/ch-010.xhtml");
    assert_eq!(chapter_path(99), "OEBPS/ch-100.xhtml");
    assert_eq!(chapter_path(999), "OEBPS/ch-1000.xhtml");
}

#[test]
fn the_title_falls_back_to_the_first_h1_then_untitled() {
    let mut w = Vec::new();
    assert_eq!(resolve_title(&Some("Mine".to_string()), Some("H".to_string()), &mut w), "Mine");
    assert_eq!(resolve_title(&Some("  ".to_string()), Some("H".to_string()), &mut w), "H");
    assert!(w.is_empty());
    assert_eq!(resolve_title(&None, None, &mut w), "Untitled");
    assert_eq!(w.len(), 1);
    assert_eq!(w[0].message, "no title in frontmatter and no H1 heading found; using \"Untitled\"");
    assert_eq!(w[0].file, None);
}

#[test]
fn a_book_is_assembled_in_reading_order() {
    let fm = Frontmatter {
        title: Some("My Book".to_string()),
        authors: vec!["Ann".to_string(), "Bo".to_string()],
        language: None,
        cover: None,
    };
    let chapters = vec![
        chapter(true, "", vec![], vec![], b"<front/>"),
        chapter(false, "One", vec![("Part A", "part-a")], vec![("OEBPS/images/a.png", b"png")], b"<one/>"),
    ];
    let mut w = Vec::new();
    let book = build_book(&fm, None, chapters, Some("OEBPS/images/a.png".to_string()), vec![], &mut w);
    assert!(w.is_empty());
    assert_eq!(book.metadata.title, "My Book");
    assert_eq!(book.metadata.language, "en");
    let names: Vec<&str> = book.metadata.authors.iter().map(|c| c.name.as_str()).collect();
    assert_eq!(names, vec!["Ann", "Bo"]);
    let keys: Vec<&str> = book.resources.keys().map(|k| k.as_str()).collect();
    assert_eq!(
        keys,
        vec!["OEBPS/content.opf", "OEBPS/ch-001.xhtml", "OEBPS/images/a.png", "OEBPS/ch-002.xhtml"]
    );
    assert_eq!(book.resources["OEBPS/ch-002.xhtml"].data, b"<one/>".to_vec());
    assert_eq!(book.resources["OEBPS/ch-002.xhtml"].media_type, "application/xhtml+xml");
    assert_eq!(book.spine, vec!["OEBPS/ch-001.xhtml".to_string(), "OEBPS/ch-002.xhtml".to_string()]);
    let toc: Vec<(&str, &str, usize)> =
        book.toc.iter().map(|t| (t.title.as_str(), t.href.as_str(), t.level)).collect();
    assert_eq!(
        toc,
        vec![
            ("My Book", "OEBPS/ch-001.xhtml", 1),
            ("One", "OEBPS/ch-002.xhtml", 1),
            ("Part A", "OEBPS/ch-002.xhtml#part-a", 2),
        ]
    );
    assert_eq!(book.cover.as_deref(), Some("OEBPS/images/a.png"));
    assert_eq!(book.opf_path, "OEBPS/content.opf");
}
