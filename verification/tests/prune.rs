use epub_tailor::book::{effective_nav_path, Book, Resource};
use epub_tailor::model::Metadata;
use epub_tailor::reachable::{prune, reachable_paths};
use epub_tailor::report::{Transformation, Warning};
use indexmap::IndexMap;

fn book_with(resources: Vec<(&str, &str, &[u8])>, spine: Vec<&str>) -> Book {
    let mut map = IndexMap::new();
    for (path, media_type, data) in resources {
        map.insert(
            path.to_string(),
            Resource {
                data: data.to_vec(),
                media_type: media_type.to_string(),
            },
        );
    }
    Book {
        metadata: Metadata::default(),
        resources: map,
        spine: spine.into_iter().map(String::from).collect(),
        toc: Vec::new(),
        cover: None,
        opf_path: "OEBPS/content.opf".to_string(),
        nav_path: None,
        ncx_path: None,
    }
}

fn links(entries: &[(&str, &[&str])]) -> Vec<(String, Vec<String>)> {
    entries
        .iter()
        .map(|(doc, targets)| {
            (
                doc.to_string(),
                targets.iter().map(|t| t.to_string()).collect(),
            )
        })
        .collect()
}

fn prune_book(
    book: &mut Book,
    refs: &[(&str, &[&str])],
    srcset: &[(&str, &[&str])],
) -> (Vec<Transformation>, Vec<Warning>) {
    let mut transformations = Vec::new();
    let mut warnings = Vec::new();
    prune(
        book,
        &mut transformations,
        &mut warnings,
        &links(srcset),
        &links(refs),
    );
    (transformations, warnings)
}

#[test]
fn drops_a_resource_nothing_references() {
    let mut book = book_with(
        vec![
            ("OEBPS/content.opf", "application/oebps-package+xml", b""),
            (
                "OEBPS/chapter.xhtml",
                "application/xhtml+xml",
                b"<html><body><p>Hi</p></body></html>",
            ),
            ("OEBPS/stray.txt", "application/octet-stream", b"stray"),
        ],
        vec!["OEBPS/chapter.xhtml"],
    );
    let (t, w) = prune_book(&mut book, &[], &[]);
    assert!(!book.resources.contains_key("OEBPS/stray.txt"));
    assert!(book.resources.contains_key("OEBPS/chapter.xhtml"));
    assert_eq!(t.len(), 1);
    assert_eq!(t[0].kind, "generic-unreferenced");
    assert_eq!(t[0].detail, "dropped 5 bytes nothing references");
    assert_eq!(t[0].file.as_deref(), Some("OEBPS/stray.txt"));
    assert!(w.is_empty());
}

#[test]
fn keeps_a_file_named_by_a_reached_document() {
    let mut book = book_with(
        vec![
            ("OEBPS/content.opf", "application/oebps-package+xml", b""),
            ("OEBPS/chapter.xhtml", "application/xhtml+xml", b"<html/>"),
            ("OEBPS/main.css", "text/css", b"@import 'other.css';"),
            ("OEBPS/other.css", "text/css", b"body { color: red; }"),
        ],
        vec!["OEBPS/chapter.xhtml"],
    );
    let (t, _) = prune_book(
        &mut book,
        &[
            ("OEBPS/chapter.xhtml", &["OEBPS/main.css"]),
            ("OEBPS/main.css", &["OEBPS/other.css"]),
        ],
        &[],
    );
    assert!(book.resources.contains_key("OEBPS/other.css"));
    assert!(t.is_empty());
}

#[test]
fn keeps_a_chapter_named_only_by_the_ncx() {
    let mut book = book_with(
        vec![
            ("OEBPS/content.opf", "application/oebps-package+xml", b""),
            ("OEBPS/toc.ncx", "application/x-dtbncx+xml", b"<ncx/>"),
            ("OEBPS/landmark.xhtml", "application/xhtml+xml", b"<html/>"),
        ],
        vec![],
    );
    book.ncx_path = Some("OEBPS/toc.ncx".to_string());
    prune_book(
        &mut book,
        &[("OEBPS/toc.ncx", &["OEBPS/landmark.xhtml"])],
        &[],
    );
    assert!(book.resources.contains_key("OEBPS/landmark.xhtml"));
}

#[test]
fn a_srcset_target_owned_by_a_reachable_document_survives_pruning() {
    let mut book = book_with(
        vec![
            ("OEBPS/content.opf", "application/oebps-package+xml", b""),
            ("OEBPS/chapter.xhtml", "application/xhtml+xml", b"<html/>"),
            ("OEBPS/only.png", "image/png", b"\x89PNG"),
        ],
        vec!["OEBPS/chapter.xhtml"],
    );
    prune_book(
        &mut book,
        &[],
        &[("OEBPS/chapter.xhtml", &["OEBPS/only.png"])],
    );
    assert!(book.resources.contains_key("OEBPS/only.png"));
}

#[test]
fn a_srcset_target_owned_by_an_orphan_document_is_dropped_with_it() {
    let mut book = book_with(
        vec![
            ("OEBPS/content.opf", "application/oebps-package+xml", b""),
            ("OEBPS/chapter.xhtml", "application/xhtml+xml", b"<html/>"),
            ("OEBPS/orphan.xhtml", "application/xhtml+xml", b"<html/>"),
            ("OEBPS/wm.png", "image/png", b"\x89PNG"),
        ],
        vec!["OEBPS/chapter.xhtml"],
    );
    prune_book(
        &mut book,
        &[],
        &[("OEBPS/orphan.xhtml", &["OEBPS/wm.png"])],
    );
    assert!(
        !book.resources.contains_key("OEBPS/orphan.xhtml"),
        "the orphan chapter itself must still be dropped"
    );
    assert!(
        !book.resources.contains_key("OEBPS/wm.png"),
        "a srcset target owned by a dropped, unreachable document must be dropped with it"
    );
}

#[test]
fn generic_unreferenced_transformations_are_reported_in_resource_order() {
    let mut book = book_with(
        vec![
            ("OEBPS/content.opf", "application/oebps-package+xml", b""),
            ("OEBPS/chapter.xhtml", "application/xhtml+xml", b"<html/>"),
            ("OEBPS/z-stray.txt", "application/octet-stream", b"z"),
            ("OEBPS/a-stray.txt", "application/octet-stream", b"a"),
            ("OEBPS/m-stray.txt", "application/octet-stream", b"m"),
        ],
        vec!["OEBPS/chapter.xhtml"],
    );
    let (t, _) = prune_book(&mut book, &[], &[]);
    let files: Vec<&str> = t.iter().map(|t| t.file.as_deref().unwrap()).collect();
    assert_eq!(
        files,
        vec!["OEBPS/z-stray.txt", "OEBPS/a-stray.txt", "OEBPS/m-stray.txt"],
        "transformation order must follow resource (insertion) order, not hash order"
    );
    let kept: Vec<&String> = book.resources.keys().collect();
    assert_eq!(kept, vec!["OEBPS/content.opf", "OEBPS/chapter.xhtml"]);
}

#[test]
fn independent_substring_scan_warns_when_the_walk_misses_a_real_edge() {
    let mut book = book_with(
        vec![
            ("OEBPS/content.opf", "application/oebps-package+xml", b"<item href=\"social.png\"/>"),
            (
                "OEBPS/chapter.xhtml",
                "application/xhtml+xml",
                b"<html><head><meta property=\"og:image\" content=\"social.png\"/></head></html>",
            ),
            ("OEBPS/social.png", "image/png", b"\x89PNG"),
        ],
        vec!["OEBPS/chapter.xhtml"],
    );
    let (_, w) = prune_book(&mut book, &[], &[]);
    assert!(!book.resources.contains_key("OEBPS/social.png"));
    assert_eq!(w.len(), 1, "the package document's bytes are regenerated, so only the chapter counts");
    assert_eq!(
        w[0].message,
        "OEBPS/chapter.xhtml still mentions social.png (from OEBPS/social.png, dropped as \
         unreferenced) - the reachability graph may be missing an edge"
    );
    assert_eq!(w[0].file.as_deref(), Some("OEBPS/chapter.xhtml"));
}

#[test]
fn a_non_textual_survivor_is_not_searched() {
    let mut book = book_with(
        vec![
            ("OEBPS/content.opf", "application/oebps-package+xml", b""),
            ("OEBPS/chapter.xhtml", "application/xhtml+xml", b"<html/>"),
            ("OEBPS/pic.png", "image/png", b"gone.png"),
            ("OEBPS/gone.png", "image/png", b"\x89PNG"),
        ],
        vec!["OEBPS/chapter.xhtml"],
    );
    let (t, w) = prune_book(&mut book, &[("OEBPS/chapter.xhtml", &["OEBPS/pic.png"])], &[]);
    assert_eq!(t.len(), 1);
    assert_eq!(t[0].file.as_deref(), Some("OEBPS/gone.png"));
    assert!(w.is_empty());
}

#[test]
fn a_media_type_with_parameters_and_odd_casing_is_still_searched() {
    let mut book = book_with(
        vec![
            ("OEBPS/content.opf", "application/oebps-package+xml", b""),
            ("OEBPS/chapter.xhtml", "application/xhtml+xml", b"<html/>"),
            ("OEBPS/main.css", " TEXT/CSS; charset=utf-8", b"body { background: url(bg.png); }"),
            ("OEBPS/bg.png", "image/png", b"\x89PNG"),
        ],
        vec!["OEBPS/chapter.xhtml"],
    );
    let (_, w) = prune_book(&mut book, &[("OEBPS/chapter.xhtml", &["OEBPS/main.css"])], &[]);
    assert_eq!(w.len(), 1);
    assert_eq!(w[0].file.as_deref(), Some("OEBPS/main.css"));
}

#[test]
fn a_generated_nav_path_is_kept_but_keeps_nothing_alive() {
    let mut book = book_with(
        vec![
            ("OEBPS/content.opf", "application/oebps-package+xml", b""),
            ("OEBPS/chapter.xhtml", "application/xhtml+xml", b"<html/>"),
            ("OEBPS/nav.xhtml", "application/xhtml+xml", b"<a href=\"extra.xhtml\"/>"),
            ("OEBPS/extra.xhtml", "application/xhtml+xml", b"<html/>"),
        ],
        vec!["OEBPS/chapter.xhtml"],
    );
    assert_eq!(effective_nav_path(&book), "OEBPS/nav.xhtml");
    let (t, w) = prune_book(
        &mut book,
        &[("OEBPS/nav.xhtml", &["OEBPS/extra.xhtml"])],
        &[],
    );
    assert!(book.resources.contains_key("OEBPS/nav.xhtml"));
    assert!(!book.resources.contains_key("OEBPS/extra.xhtml"));
    assert_eq!(t.len(), 1);
    assert!(w.is_empty(), "the generated nav's stored bytes are not searched");
}

#[test]
fn a_real_nav_is_walked_like_any_root() {
    let mut book = book_with(
        vec![
            ("OEBPS/content.opf", "application/oebps-package+xml", b""),
            ("OEBPS/toc.xhtml", "application/xhtml+xml", b"<html/>"),
            ("OEBPS/extra.xhtml", "application/xhtml+xml", b"<html/>"),
        ],
        vec![],
    );
    book.nav_path = Some("OEBPS/toc.xhtml".to_string());
    assert_eq!(effective_nav_path(&book), "OEBPS/toc.xhtml");
    let (t, _) = prune_book(&mut book, &[("OEBPS/toc.xhtml", &["OEBPS/extra.xhtml"])], &[]);
    assert!(book.resources.contains_key("OEBPS/extra.xhtml"));
    assert!(t.is_empty());
}

#[test]
fn the_cover_is_a_root() {
    let mut book = book_with(
        vec![
            ("OEBPS/content.opf", "application/oebps-package+xml", b""),
            ("OEBPS/cover.svg", "image/svg+xml", b"<svg/>"),
            ("OEBPS/cover.jpg", "image/jpeg", b"\xFF\xD8fake\xFF\xD9"),
        ],
        vec![],
    );
    book.cover = Some("OEBPS/cover.svg".to_string());
    let (_, w) = prune_book(&mut book, &[("OEBPS/cover.svg", &["OEBPS/cover.jpg"])], &[]);
    assert!(book.resources.contains_key("OEBPS/cover.jpg"));
    assert!(w.is_empty(), "a correctly-walked edge warns of nothing");
}

#[test]
fn the_walk_reaches_each_path_once_through_a_cycle() {
    let roots = vec!["a".to_string()];
    let refs = links(&[("a", &["b", "c"]), ("b", &["a", "c"]), ("c", &["d"])]);
    let seen = reachable_paths(&roots, &None, &refs, &[]);
    assert_eq!(seen, vec!["a", "b", "c", "d"]);
}

#[test]
fn a_sealed_path_is_reached_but_not_stepped_from() {
    let roots = vec!["a".to_string()];
    let refs = links(&[("a", &["s"]), ("s", &["hidden"])]);
    let seen = reachable_paths(&roots, &Some("s".to_string()), &refs, &[]);
    assert_eq!(seen, vec!["s", "a"]);
}
