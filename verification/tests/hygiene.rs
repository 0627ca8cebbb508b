use epub_tailor::hygiene::{clean_string, normalize_model_strings, sanitize};
use epub_tailor::model::{Creator, Metadata, Series, TocEntry};

#[test]
fn normalize_model_strings_precomposes_metadata_and_toc_titles() {
    let mut metadata = Metadata {
        title: "Die Ru\u{308}ckkehr der Jediritter".to_string(),
        authors: vec![Creator {
            name: "Bjo\u{308}rn Borg".to_string(),
            file_as: Some("Borg, Bjo\u{308}rn".to_string()),
            role: None,
        }],
        subjects: vec!["Ma\u{308}rchen".to_string()],
        series: Some(Series { name: "Jediritter-Bu\u{308}cher".to_string(), index: Some("2".to_string()) }),
        ..Metadata::default()
    };
    let mut toc = vec![
        TocEntry { title: "U\u{308}ber Endor".to_string(), href: "OEBPS/text/chapter1.xhtml".to_string(), level: 1 },
        TocEntry { title: "Clean entry".to_string(), href: "OEBPS/text/chapter1.xhtml#s2".to_string(), level: 1 },
    ];

    let mut transformations = Vec::new();
    normalize_model_strings(&mut metadata, &mut toc, &mut transformations);

    assert_eq!(metadata.title, "Die Rückkehr der Jediritter");
    assert_eq!(metadata.authors[0].name, "Björn Borg");
    assert_eq!(metadata.authors[0].file_as.as_deref(), Some("Borg, Björn"));
    assert_eq!(metadata.subjects[0], "Märchen");
    assert_eq!(metadata.series.as_ref().unwrap().name, "Jediritter-Bücher");
    assert_eq!(toc[0].title, "Über Endor");
    assert_eq!(toc[1].title, "Clean entry");

    let metadata_details: Vec<&str> = transformations
        .iter()
        .filter(|t| t.kind == "metadata-nfc")
        .map(|t| t.detail.as_str())
        .collect();
    for field in ["title", "authors", "subjects", "series"] {
        assert!(
            metadata_details.iter().any(|d| d.contains(field)),
            "a metadata-nfc transformation must name {field}, got: {metadata_details:?}"
        );
    }
    assert_eq!(metadata_details.len(), 4, "one push per changed field, got: {metadata_details:?}");

    let toc_details: Vec<&str> = transformations
        .iter()
        .filter(|t| t.kind == "toc-nfc")
        .map(|t| t.detail.as_str())
        .collect();
    assert_eq!(toc_details.len(), 1, "got: {toc_details:?}");
    assert!(toc_details[0].contains("1 table-of-contents title"), "got: {toc_details:?}");
}

#[test]
fn normalize_model_strings_never_touches_identifier_or_hrefs() {
    let identifier = "urn:custom:u\u{308}nique";
    let href = "OEBPS/text/u\u{308}ber.xhtml";
    let mut metadata = Metadata {
        title: "Clean Title".to_string(),
        identifier: Some(identifier.to_string()),
        ..Metadata::default()
    };
    let mut toc = vec![TocEntry { title: "Clean entry".to_string(), href: href.to_string(), level: 1 }];

    let mut transformations = Vec::new();
    normalize_model_strings(&mut metadata, &mut toc, &mut transformations);

    assert_eq!(metadata.identifier.as_deref(), Some(identifier));
    assert_eq!(toc[0].href, href);
    assert!(transformations.is_empty(), "nothing normalizable changed, got: {transformations:?}");
}

#[test]
fn normalize_model_strings_is_a_noop_on_an_nfc_book() {
    let mut metadata = Metadata {
        title: "Käpt'n Blaubär".to_string(),
        authors: vec![Creator::new("Jane Author")],
        description: Some("Eine Gutenachtgeschichte.".to_string()),
        ..Metadata::default()
    };
    let mut toc = vec![TocEntry { title: "Über Bord".to_string(), href: "OEBPS/text/chapter1.xhtml".to_string(), level: 1 }];
    let before_title = metadata.title.clone();

    let mut transformations = Vec::new();
    normalize_model_strings(&mut metadata, &mut toc, &mut transformations);

    assert_eq!(metadata.title, before_title);
    assert!(transformations.is_empty(), "an already-NFC book records nothing, got: {transformations:?}");
}

#[test]
fn sanitize_drops_controls_and_bom_but_keeps_tab_lf_cr() {
    assert_eq!(sanitize("a\u{FEFF}b\u{0007}c\td\ne\rf"), "abc\td\ne\rf");
    assert_eq!(clean_string("cafe\u{301}\u{1}"), "café");
}

#[test]
fn a_control_character_counts_as_a_change_to_its_field() {
    let mut metadata = Metadata { language: "en\u{1}".to_string(), ..Metadata::default() };
    let mut toc: Vec<TocEntry> = Vec::new();
    let mut transformations = Vec::new();
    normalize_model_strings(&mut metadata, &mut toc, &mut transformations);
    assert_eq!(metadata.language, "en");
    assert_eq!(transformations.len(), 1);
    assert_eq!(transformations[0].detail, "normalized language to NFC and stripped invalid characters");
}
