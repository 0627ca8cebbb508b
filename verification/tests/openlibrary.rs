use epub_tailor::metadata::{MetadataDoc, OneOrMany};
use epub_tailor::openlibrary::{
    Description, clean_description, cover_url, merge_work_record, olid_of, search_metadata,
    work_ref,
};

fn merged(description: Option<Description>, subjects: Vec<&str>, covers: Vec<i64>) -> (MetadataDoc, Option<String>) {
    let mut doc = MetadataDoc::default();
    let mut cover = None;
    merge_work_record(
        description,
        subjects.into_iter().map(String::from).collect(),
        &covers,
        &mut doc,
        &mut cover,
    );
    (doc, cover)
}

#[test]
fn a_reference_yields_its_olid() {
    assert_eq!(olid_of("openlibrary:OL262758W"), Some("OL262758W"));
    assert_eq!(olid_of("googlebooks:xyz"), None);
    assert_eq!(olid_of("openlibrary:"), None);
}

#[test]
fn a_bare_string_description_is_kept() {
    let (doc, _) = merged(
        Some(Description::Text(
            "In a hole in the ground there lived a hobbit.".into(),
        )),
        vec![],
        vec![],
    );
    assert_eq!(
        doc.description.as_deref(),
        Some("In a hole in the ground there lived a hobbit.")
    );
}

#[test]
fn a_typed_description_and_its_cover_are_taken() {
    let (doc, cover) = merged(
        Some(Description::Typed {
            value: "A typed blurb.".into(),
        }),
        vec!["Fantasy"],
        vec![42],
    );
    assert_eq!(doc.description.as_deref(), Some("A typed blurb."));
    assert_eq!(cover.as_deref(), Some("https://covers.openlibrary.org/b/id/42-L.jpg"));
    match doc.subjects {
        Some(OneOrMany::Many(s)) => assert_eq!(s, vec!["Fantasy".to_string()]),
        _ => panic!("subjects expected"),
    }
}

#[test]
fn a_spam_link_target_never_survives() {
    let d = clean_description(
        "A reluctant hobbit. [**PDF**](https://chesserresources.com/doc/the-hobbit/)",
    );
    assert!(!d.contains("chesserresources"), "{d}");
    assert!(!d.contains("http"), "{d}");
    assert!(d.starts_with("A reluctant hobbit."));
    assert_eq!(d, "A reluctant hobbit. PDF");
}

#[test]
fn markdown_emphasis_and_links_are_flattened() {
    assert_eq!(
        clean_description("A *fine* book by [Tolkien](https://example.org), **truly**."),
        "A fine book by Tolkien, truly."
    );
    assert_eq!(clean_description("see [the site][1] now"), "see the site now");
}

#[test]
fn the_source_footer_and_separator_are_cut() {
    assert_eq!(
        clean_description("The real blurb.\r\n\r\n([source][1])\n\n[1]: https://example.org"),
        "The real blurb."
    );
    assert_eq!(
        clean_description("Blurb.\n----------\nContents: 1, 2, 3"),
        "Blurb."
    );
    assert_eq!(clean_description("Blurb.\n([source] x)"), "Blurb.");
}

#[test]
fn an_unterminated_bracket_is_kept_verbatim() {
    assert_eq!(clean_description("a [b *c"), "a [b *c");
    assert_eq!(clean_description("x [y](never closed"), "x y");
}

#[test]
fn line_ends_are_trimmed_and_crlf_normalized() {
    assert_eq!(clean_description("  one  \r\ntwo\t\r\n\r\n  "), "one\ntwo");
}

#[test]
fn an_empty_description_leaves_the_old_one() {
    let mut doc = MetadataDoc {
        description: Some("kept".into()),
        ..Default::default()
    };
    let mut cover = Some("existing".to_string());
    merge_work_record(
        Some(Description::Text("  ** __ ".into())),
        vec![],
        &vec![0, 7],
        &mut doc,
        &mut cover,
    );
    assert_eq!(doc.description.as_deref(), Some("kept"));
    assert_eq!(cover.as_deref(), Some("existing"));
}

#[test]
fn subjects_are_capped_at_twelve_and_the_first_positive_cover_wins() {
    let subjects: Vec<String> = (0..20).map(|i| format!("s{i}")).collect();
    let mut doc = MetadataDoc::default();
    let mut cover = None;
    merge_work_record(None, subjects, &vec![-1, 0, 9, 10], &mut doc, &mut cover);
    match doc.subjects {
        Some(OneOrMany::Many(s)) => {
            assert_eq!(s.len(), 12);
            assert_eq!(s[11], "s11");
        }
        _ => panic!("subjects expected"),
    }
    assert_eq!(cover, Some(cover_url(9)));
}

#[test]
fn a_search_result_becomes_metadata_without_language() {
    let doc = search_metadata(
        Some("The Hobbit".into()),
        &vec!["J. R. R. Tolkien".into()],
        &vec!["Allen & Unwin".into(), "Houghton Mifflin".into()],
        Some(1937),
        vec!["Fantasy".into(), "Adventure".into()],
        &vec!["9780261102217".into(), "0261102214".into()],
    );
    assert_eq!(doc.title.as_deref(), Some("The Hobbit"));
    assert!(doc.language.is_none());
    assert_eq!(doc.publisher.as_deref(), Some("Allen & Unwin"));
    assert_eq!(doc.date.as_deref(), Some("1937"));
    assert_eq!(doc.isbn.as_deref(), Some("9780261102217"));
    match doc.authors {
        Some(OneOrMany::Many(a)) => assert_eq!(a[0].name, "J. R. R. Tolkien"),
        _ => panic!("authors expected"),
    }
    let empty = search_metadata(None, &vec![], &vec![], None, vec![], &vec![]);
    assert!(empty.authors.is_none() && empty.subjects.is_none() && empty.date.is_none());
}

#[test]
fn a_work_key_becomes_a_reference() {
    assert_eq!(work_ref("/works/OL262758W"), "openlibrary:OL262758W");
    assert_eq!(work_ref("OL1W"), "openlibrary:OL1W");
}
