use epub_tailor::metadata::{MergeMode, MetadataDoc, OneOrMany, apply, missing_fields};
use epub_tailor::model::{Creator, Identifier, Metadata};
use epub_tailor::report::Warning;

fn book_with_publisher() -> Metadata {
    Metadata {
        title: "A Book".to_string(),
        authors: vec![Creator::new("Jane Author")],
        language: "en".to_string(),
        identifier: Some("urn:uuid:original".to_string()),
        publisher: Some("The Real Publisher".to_string()),
        ..Metadata::default()
    }
}

fn apply_doc(doc: &MetadataDoc, meta: &mut Metadata, mode: MergeMode) -> Vec<Warning> {
    let mut t = Vec::new();
    let mut w = Vec::new();
    apply(doc, meta, mode, &mut t, &mut w);
    w
}

#[test]
fn fill_mode_does_not_clobber_what_the_book_already_says() {
    let mut meta = book_with_publisher();
    let doc = MetadataDoc {
        publisher: Some("A Worse Guess".to_string()),
        description: Some("A blurb.".to_string()),
        ..Default::default()
    };
    apply_doc(&doc, &mut meta, MergeMode::Fill);
    assert_eq!(meta.publisher.as_deref(), Some("The Real Publisher"));
    assert_eq!(meta.description.as_deref(), Some("A blurb."));
}

#[test]
fn replace_mode_overwrites() {
    let mut meta = book_with_publisher();
    let doc = MetadataDoc {
        publisher: Some("A Deliberate Choice".to_string()),
        ..Default::default()
    };
    apply_doc(&doc, &mut meta, MergeMode::Replace);
    assert_eq!(meta.publisher.as_deref(), Some("A Deliberate Choice"));
}

#[test]
fn the_unique_identifier_is_never_replaced_even_in_replace_mode() {
    let mut meta = book_with_publisher();
    let doc = MetadataDoc {
        identifier: Some("urn:uuid:something-else".to_string()),
        ..Default::default()
    };
    let warnings = apply_doc(&doc, &mut meta, MergeMode::Replace);
    assert_eq!(meta.identifier.as_deref(), Some("urn:uuid:original"));
    assert_eq!(warnings.len(), 1, "the refusal must be reported");
    assert!(warnings[0].message.contains("refusing to change"));
    assert_eq!(meta.identifiers[0].value, "urn:uuid:something-else");
}

#[test]
fn an_isbn_is_added_alongside_the_unique_identifier() {
    let mut meta = book_with_publisher();
    let doc = MetadataDoc {
        isbn: Some("9780261102217".to_string()),
        ..Default::default()
    };
    apply_doc(&doc, &mut meta, MergeMode::Fill);
    assert_eq!(meta.identifier.as_deref(), Some("urn:uuid:original"));
    assert_eq!(meta.identifiers.len(), 1);
    assert_eq!(meta.identifiers[0].value, "9780261102217");
    assert_eq!(meta.identifiers[0].scheme.as_deref(), Some("ISBN"));
}

#[test]
fn the_same_isbn_twice_is_not_added_twice() {
    let mut meta = book_with_publisher();
    let doc = MetadataDoc {
        isbn: Some("9780261102217".to_string()),
        ..Default::default()
    };
    apply_doc(&doc, &mut meta, MergeMode::Fill);
    apply_doc(&doc, &mut meta, MergeMode::Fill);
    assert_eq!(meta.identifiers.len(), 1);
}

#[test]
fn an_isbn_with_surrounding_spaces_is_not_added_twice() {
    let mut meta = book_with_publisher();
    let doc = MetadataDoc {
        isbn: Some(" 9780261102217".to_string()),
        identifiers: None,
        ..Default::default()
    };
    apply_doc(&doc, &mut meta, MergeMode::Fill);
    apply_doc(&doc, &mut meta, MergeMode::Replace);
    assert_eq!(meta.identifiers.len(), 1);
}

#[test]
fn missing_fields_names_what_a_lookup_could_fill() {
    let missing = missing_fields(&book_with_publisher());
    assert!(missing.contains(&"description"));
    assert!(missing.contains(&"subjects"));
    assert!(!missing.contains(&"publisher"), "it has one");
    assert!(!missing.contains(&"title"), "it has one");
}

#[test]
fn an_empty_document_changes_nothing() {
    let mut meta = book_with_publisher();
    let before = meta.clone();
    let doc = MetadataDoc::default();
    assert!(doc.is_empty());
    apply_doc(&doc, &mut meta, MergeMode::Replace);
    assert_eq!(meta, before);
}

#[test]
fn each_written_field_is_recorded_once_in_order() {
    let mut meta = Metadata::default();
    let doc = MetadataDoc {
        title: Some("A Title".to_string()),
        authors: Some(OneOrMany::One(Creator::new("Jane Author"))),
        subjects: Some(OneOrMany::Many(vec!["Fantasy".to_string(), "Maps".to_string()])),
        ..Default::default()
    };
    let mut t = Vec::new();
    let mut w = Vec::new();
    apply(&doc, &mut meta, MergeMode::Fill, &mut t, &mut w);
    let details: Vec<&str> = t.iter().map(|x| x.detail.as_str()).collect();
    assert_eq!(
        details,
        vec![
            "set title from the supplied metadata",
            "set authors from the supplied metadata",
            "set subjects from the supplied metadata",
        ]
    );
    assert!(t.iter().all(|x| x.kind == "metadata-set" && x.file.is_none()));
    assert_eq!(meta.title, "A Title");
    assert_eq!(meta.subjects, vec!["Fantasy".to_string(), "Maps".to_string()]);
    assert!(w.is_empty());
}

#[test]
fn an_untitled_book_takes_the_documents_title_but_a_blank_one_is_ignored() {
    let mut meta = Metadata { title: "Untitled".to_string(), ..Metadata::default() };
    let blank = MetadataDoc { title: Some("   ".to_string()), ..Default::default() };
    apply_doc(&blank, &mut meta, MergeMode::Replace);
    assert_eq!(meta.title, "Untitled");
    let doc = MetadataDoc { title: Some("Real".to_string()), ..Default::default() };
    apply_doc(&doc, &mut meta, MergeMode::Fill);
    assert_eq!(meta.title, "Real");
}

#[test]
fn a_series_index_alone_updates_an_existing_series() {
    let mut meta = Metadata::default();
    let doc = MetadataDoc { series_index: Some("3".to_string()), ..Default::default() };
    apply_doc(&doc, &mut meta, MergeMode::Fill);
    assert!(meta.series.is_none());
    let doc = MetadataDoc {
        series: Some("Saga".to_string()),
        series_index: Some("1".to_string()),
        ..Default::default()
    };
    apply_doc(&doc, &mut meta, MergeMode::Fill);
    assert_eq!(meta.series.as_ref().map(|s| s.name.as_str()), Some("Saga"));
    let doc = MetadataDoc { series_index: Some("2".to_string()), ..Default::default() };
    apply_doc(&doc, &mut meta, MergeMode::Replace);
    assert_eq!(meta.series.as_ref().and_then(|s| s.index.as_deref()), Some("2"));
}

#[test]
fn the_cover_path_is_returned_unless_blank() {
    let mut meta = Metadata::default();
    let doc = MetadataDoc { cover: Some("cover.jpg".to_string()), ..Default::default() };
    let mut t = Vec::new();
    let mut w = Vec::new();
    assert_eq!(apply(&doc, &mut meta, MergeMode::Fill, &mut t, &mut w).as_deref(), Some("cover.jpg"));
    let doc = MetadataDoc { cover: Some(" ".to_string()), ..Default::default() };
    assert_eq!(apply(&doc, &mut meta, MergeMode::Fill, &mut t, &mut w), None);
}

#[test]
fn an_absent_unique_identifier_is_filled_and_a_duplicate_secondary_is_skipped() {
    let mut meta = Metadata {
        identifiers: vec![Identifier { value: "isbn-1".to_string(), scheme: None }],
        ..Metadata::default()
    };
    let doc = MetadataDoc {
        identifier: Some("urn:uuid:new".to_string()),
        identifiers: Some(vec![
            Identifier { value: " isbn-1 ".to_string(), scheme: None },
            Identifier { value: "isbn-2".to_string(), scheme: Some("ISBN".to_string()) },
        ]),
        ..Default::default()
    };
    let w = apply_doc(&doc, &mut meta, MergeMode::Fill);
    assert!(w.is_empty());
    assert_eq!(meta.identifier.as_deref(), Some("urn:uuid:new"));
    assert_eq!(meta.identifiers.len(), 2);
    assert_eq!(meta.identifiers[1].value, "isbn-2");
}

#[test]
fn filling_never_makes_a_field_missing() {
    let mut meta = book_with_publisher();
    let before = missing_fields(&meta).into_iter().map(String::from).collect::<Vec<_>>();
    let doc = MetadataDoc {
        title: Some("Untitled".to_string()),
        authors: Some(OneOrMany::Many(vec![])),
        description: Some("About it".to_string()),
        ..Default::default()
    };
    apply_doc(&doc, &mut meta, MergeMode::Fill);
    let after = missing_fields(&meta);
    assert!(after.iter().all(|f| before.iter().any(|b| b == f)));
    assert!(!after.contains(&"description"));
}
