use epub_tailor::invisible::{keep_mask, scrub, scrub_model_strings};
use epub_tailor::model::{Creator, Metadata, TocEntry};

#[test]
fn zero_width_space_is_always_removed() {
    assert_eq!(scrub("a\u{200B}b\u{2060}c\u{FEFF}"), ("abc".to_string(), 3));
}

#[test]
fn joiner_between_latin_letters_is_removed() {
    assert_eq!(scrub("ab\u{200C}cd\u{200D}e"), ("abcde".to_string(), 2));
}

#[test]
fn joiner_next_to_arabic_or_devanagari_is_kept() {
    let arabic = "\u{0644}\u{200C}\u{0627}";
    assert_eq!(scrub(arabic), (arabic.to_string(), 0));
    let devanagari = "\u{0915}\u{094D}\u{200D}";
    assert_eq!(scrub(devanagari), (devanagari.to_string(), 0));
}

#[test]
fn emoji_joiner_is_kept_even_across_white_space() {
    let family = "\u{1F468}\u{200D}\u{1F469}";
    assert_eq!(scrub(family), (family.to_string(), 0));
    let spaced = "x \u{200D} \u{1F600}";
    assert_eq!(scrub(spaced), (spaced.to_string(), 0));
}

#[test]
fn keep_mask_marks_each_character() {
    let chars: Vec<char> = "a\u{200B}\u{200D}b".chars().collect();
    assert_eq!(keep_mask(&chars), vec![true, false, false, true]);
}

#[test]
fn scrubbing_twice_changes_nothing_more() {
    let text = "\u{0915}\u{200D}\u{200D} a\u{200B}b\u{200C}";
    let (once, _) = scrub(text);
    let (twice, removed) = scrub(&once);
    assert_eq!(twice, once);
    assert_eq!(removed, 0);
}

#[test]
fn model_strings_lose_their_fingerprints_but_not_the_identifier_or_hrefs() {
    let mut metadata = Metadata {
        title: "A\u{200B}Book".to_string(),
        authors: vec![Creator::new("Jane\u{2060} Author")],
        identifier: Some("urn:x:\u{200B}id".to_string()),
        ..Metadata::default()
    };
    let mut toc = vec![TocEntry { title: "One\u{FEFF}".to_string(), href: "a\u{200B}.xhtml".to_string(), level: 1 }];
    let mut transformations = Vec::new();
    scrub_model_strings(&mut metadata, &mut toc, &mut transformations);
    assert_eq!(metadata.title, "ABook");
    assert_eq!(metadata.authors[0].name, "Jane Author");
    assert_eq!(metadata.identifier.as_deref(), Some("urn:x:\u{200B}id"));
    assert_eq!(toc[0].title, "One");
    assert_eq!(toc[0].href, "a\u{200B}.xhtml");
    let details: Vec<&str> = transformations.iter().map(|t| t.detail.as_str()).collect();
    assert_eq!(
        details,
        vec![
            "removed 2 invisible character(s) from metadata",
            "removed 1 invisible character(s) from the table of contents",
        ]
    );
    assert!(transformations.iter().all(|t| t.kind == "generic-invisible"));
}

#[test]
fn a_clean_model_records_nothing() {
    let mut metadata = Metadata { title: "Clean".to_string(), ..Metadata::default() };
    let mut toc: Vec<TocEntry> = Vec::new();
    let mut transformations = Vec::new();
    scrub_model_strings(&mut metadata, &mut toc, &mut transformations);
    assert!(transformations.is_empty());
}

#[test]
fn scrubbing_twice_changes_nothing() {
    for text in [
        "a\u{200B}b\u{200D}c",
        "\u{0627}\u{200C}\u{0644} \u{200D}",
        "\u{1F468}\u{200D}\u{1F469} \u{200D}\u{200D}x",
        "plain",
    ] {
        let (once, _) = scrub(text);
        assert_eq!(scrub(&once), (once.clone(), 0));
    }
}
