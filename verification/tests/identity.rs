use epub_tailor::identity::{
    PerCopyKind, classify, is_per_copy, is_shared, is_valid_isbn10, is_valid_isbn13, is_valid_issn,
    matches_declared_scheme_shape, normalize,
};
use epub_tailor::model::{Identifier, Metadata};


#[test]
fn a_hyphenated_isbn13_is_kept() {
    assert!(!is_per_copy("978-3-407-86821-3"));
}

#[test]
fn an_isbn10_ending_in_x_is_kept() {
    assert!(!is_per_copy("080442957X"));
}

#[test]
fn a_millisecond_timestamp_the_length_of_an_isbn13_is_dropped() {
    assert!(is_per_copy("1735689600000"));
}

#[test]
fn a_vendor_transaction_id_is_dropped() {
    assert!(is_per_copy("SHTX001.635962014"));
}

#[test]
fn a_bare_uuid_is_dropped() {
    assert!(is_per_copy("6f2a1e40-8c31-4b7e-9a55-1d0c2f9b7e31"));
}

#[test]
fn a_urn_uuid_prefixed_value_is_dropped() {
    assert!(is_per_copy("urn:uuid:6f2a1e40-8c31-4b7e-9a55-1d0c2f9b7e31"));
}

#[test]
fn an_email_address_is_dropped() {
    assert!(is_per_copy("buyer42@example.com"));
}

#[test]
fn an_invalid_checksum_13_digit_number_is_dropped() {
    assert!(is_per_copy("1234567890123"));
}

#[test]
fn a_short_numeric_id_under_the_digit_threshold_is_kept() {
    assert!(!is_per_copy("1234567"));
}

#[test]
fn isbn13_checksum_accepts_a_real_isbn_and_rejects_a_timestamp() {
    assert!(is_valid_isbn13("9783407868213"));
    assert!(!is_valid_isbn13("1735689600000"));
}

#[test]
fn isbn13_requires_the_gs1_bookland_prefix() {
    assert!(!is_valid_isbn13("9771234567898"));
}

#[test]
fn isbn10_checksum_accepts_an_x_check_character() {
    assert!(is_valid_isbn10("080442957X"));
    assert!(is_valid_isbn10("080442957x"));
    assert!(!is_valid_isbn10("0804429571"));
}

#[test]
fn issn_checksum_round_trips_a_known_issn() {
    assert!(is_valid_issn("20493630"));
    assert!(!is_valid_issn("20493631"));
}

#[test]
fn a_value_with_no_digits_at_all_is_kept_whatever_its_declared_scheme() {
    assert!(is_shared("not-a-real-isbn-shape", Some("ISBN")));
    assert!(is_shared("not-a-real-isbn-shape", None));
}

#[test]
fn is_shared_drops_a_vendor_id_with_no_scheme() {
    assert!(!is_shared("SHTX001.635962014", None));
}


#[test]
fn a_bare_isbn13_is_kept() {
    assert!(!is_per_copy("9783407868213"));
}

#[test]
fn a_urn_isbn_prefixed_isbn13_is_kept() {
    assert!(!is_per_copy("urn:isbn:9783407868213"));
}

#[test]
fn an_upper_case_urn_isbn_prefix_is_kept() {
    assert!(!is_per_copy("URN:ISBN:9783407868213"));
}

#[test]
fn a_bare_isbn_scheme_prefix_is_kept() {
    assert!(!is_per_copy("isbn:9783407868213"));
}

#[test]
fn an_isbn_word_prefix_with_a_hyphenated_value_is_kept() {
    assert!(!is_per_copy("ISBN 978-3-407-86821-3"));
}

#[test]
fn a_urn_isbn_prefixed_isbn10_ending_in_x_is_kept() {
    assert!(!is_per_copy("urn:isbn:080442957X"));
}

#[test]
fn a_urn_issn_prefixed_issn_is_kept() {
    assert!(!is_per_copy("urn:issn:2049-3630"));
}

#[test]
fn a_bare_doi_is_kept() {
    assert!(!is_per_copy("10.1016/j.jbi.2020.103545"));
}

#[test]
fn a_doi_scheme_prefixed_doi_is_kept() {
    assert!(!is_per_copy("doi:10.1016/j.jbi.2020.103545"));
}

#[test]
fn a_urn_doi_prefixed_doi_is_kept() {
    assert!(!is_per_copy("urn:doi:10.1016/j.jbi.2020.103545"));
}

#[test]
fn a_value_shaped_like_the_start_of_a_doi_but_missing_the_slash_is_not_mistaken_for_one() {
    assert!(is_per_copy("10.123456789"));
}


#[test]
fn a_doi_under_the_all_zero_placeholder_registrant_is_dropped() {
    assert!(is_per_copy("doi:10.0000/SHTX001.635962014"));
}

#[test]
fn a_doi_whose_suffix_is_a_bare_uuid_is_dropped() {
    assert!(is_per_copy("10.0000/6f2a1e40-8c31-4b7e-9a55-1d0c2f9b7e31"));
}

#[test]
fn a_doi_whose_suffix_embeds_a_uuid_behind_other_text_is_dropped() {
    assert!(is_per_copy(
        "doi:10.5555/copy-6f2a1e40-8c31-4b7e-9a55-1d0c2f9b7e31"
    ));
}

#[test]
fn the_official_doi_test_prefix_is_dropped_even_with_an_innocuous_suffix() {
    assert!(is_per_copy("doi:10.5555/ordinary.suffix.2019"));
}

#[test]
fn the_all_nine_placeholder_registrant_is_dropped() {
    assert!(is_per_copy("10.9999/anything"));
}

#[test]
fn a_doi_whose_suffix_is_a_millisecond_timestamp_is_dropped() {
    assert!(is_per_copy("urn:doi:10.9/1735689600000"));
}

#[test]
fn a_doi_with_an_implausibly_short_registrant_is_dropped() {
    assert!(is_per_copy("10.1/x"));
}

#[test]
fn a_doi_whose_suffix_embeds_an_email_address_is_dropped() {
    assert!(is_per_copy("doi:10.1016/buyer@example.com"));
}

#[test]
fn a_bare_numeric_suffix_the_length_of_a_millisecond_timestamp_is_dropped() {
    assert!(is_per_copy("10.1016/1735689600000"));
}


const REAL_DOIS: &[&str] = &[
    "10.5281/zenodo.10001234",
    "10.6084/m9.figshare.12345678",
    "10.1101/2020.03.15.20036145",
    "10.1073/pnas.2019897118",
    "10.1002/anie.201915678",
    "10.3390/s20051234",
    "10.1080/00220388.2019.1626832",
    "10.1787/9789264189515-en",
    "10.1002/(SICI)1097-0258(19980815)17:15<1661::AID-SIM968>3.0.CO;2-2",
    "10.1097/01.mlr.0000114908.90348.f9",
    "10.2172/1234567890",
    "10.1016/j.jbi.2020.103545",
    "doi:10.1016/j.jbi.2020.103545",
    "10.1371/journal.pone.0173664",
    "10.1000/182",
];

#[test]
fn every_real_doi_is_kept() {
    for doi in REAL_DOIS {
        assert!(!is_per_copy(doi), "a real DOI must be kept: {doi}");
    }
}

#[test]
fn every_real_doi_is_kept_through_is_shared_with_no_scheme_declared() {
    for doi in REAL_DOIS {
        assert!(is_shared(doi, None), "a real DOI must be kept: {doi}");
    }
}

const PER_COPY_DOIS: &[&str] = &[
    "doi:10.0000/SHTX001.635962014",
    "10.0000/6f2a1e40-8c31-4b7e-9a55-1d0c2f9b7e31",
    "doi:10.5555/copy-6f2a1e40-8c31-4b7e-9a55-1d0c2f9b7e31",
    "urn:doi:10.9/1735689600000",
];

#[test]
fn every_doi_costumed_watermark_is_still_dropped() {
    for value in PER_COPY_DOIS {
        assert!(
            is_per_copy(value),
            "a per-copy value must be dropped: {value}"
        );
    }
}


#[test]
fn a_declared_doi_scheme_does_not_rescue_a_doi_costumed_watermark() {
    for value in PER_COPY_DOIS {
        assert!(
            !is_shared(value, None),
            "must be dropped without a scheme: {value}"
        );
        assert!(
            !is_shared(value, Some("DOI")),
            "a declared scheme must not rescue it: {value}"
        );
    }
}

#[test]
fn a_declared_scheme_does_not_rescue_a_bare_uuid_or_an_email() {
    for value in [
        "6f2a1e40-8c31-4b7e-9a55-1d0c2f9b7e31",
        "urn:uuid:6f2a1e40-8c31-4b7e-9a55-1d0c2f9b7e31",
        "buyer42@example.com",
    ] {
        for scheme in ["ISBN", "ISSN", "DOI"] {
            assert!(
                !is_shared(value, Some(scheme)),
                "a declared {scheme} must not rescue {value}"
            );
        }
    }
}

#[test]
fn a_declared_isbn_scheme_still_protects_a_real_isbn() {
    assert!(is_shared("9783407868213", Some("ISBN")));
    assert!(is_shared("urn:isbn:9783407868213", Some("ISBN")));
    assert!(is_shared("2049-3630", Some("ISSN")));
    assert!(is_shared("10.1016/j.jbi.2020.103545", Some("DOI")));
}


const DECLARED_SCHEMES: &[Option<&str>] = &[
    None,
    Some("ISBN"),
    Some("ISSN"),
    Some("DOI"),
    Some("isbn"),
    Some("doi"),
];

#[test]
fn no_declared_scheme_rescues_any_per_copy_shape() {
    for value in [
        "SHTX001.635962014",
        "1735689600000",
        "6f2a1e40-8c31-4b7e-9a55-1d0c2f9b7e31",
        "urn:uuid:6f2a1e40-8c31-4b7e-9a55-1d0c2f9b7e31",
        "buyer42@example.com",
    ] {
        for scheme in DECLARED_SCHEMES {
            assert!(
                !is_shared(value, *scheme),
                "a declared {scheme:?} must not rescue {value}"
            );
        }
    }
}

#[test]
fn a_declared_isbn_scheme_rescues_an_isbn13_shaped_value_that_fails_its_checksum() {
    assert!(is_shared("9783407868214", Some("ISBN")));
    assert!(is_shared("978-3-407-86821-4", Some("ISBN")));
    assert!(!is_shared("9783407868214", None));
}

#[test]
fn a_thirteen_digit_value_outside_the_bookland_range_is_not_isbn_shaped() {
    assert!(matches_declared_scheme_shape("9783407868214", "isbn"));
    assert!(!matches_declared_scheme_shape("1735689600000", "isbn"));
    assert!(!matches_declared_scheme_shape("1234567890123", "isbn"));
    assert!(!matches_declared_scheme_shape("SHTX001.635962014", "isbn"));
}

#[test]
fn scheme_shapes_are_checked_against_the_declared_type_only() {
    assert!(matches_declared_scheme_shape("2049-3630", "issn"));
    assert!(!matches_declared_scheme_shape("2049-3630", "isbn"));
    assert!(matches_declared_scheme_shape("080442957X", "isbn"));
    assert!(!matches_declared_scheme_shape("080442957X", "issn"));
    assert!(matches_declared_scheme_shape(
        "10.1016/j.jbi.2020.103545",
        "doi"
    ));
    assert!(!matches_declared_scheme_shape(
        "10.1016/j.jbi.2020.103545",
        "isbn"
    ));
    assert!(matches_declared_scheme_shape("10.0000/TXN-A", "doi"));
    assert!(!is_shared("10.0000/TXN-A", Some("DOI")));
}

#[test]
fn a_scheme_prefixed_value_is_shape_checked_on_its_bare_form() {
    assert!(matches_declared_scheme_shape(
        "urn:isbn:9783407868214",
        "isbn"
    ));
    assert!(matches_declared_scheme_shape(
        "isbn:978-3-407-86821-4",
        "isbn"
    ));
    assert!(matches_declared_scheme_shape("urn:issn:2049-3630", "issn"));
    assert!(matches_declared_scheme_shape(
        "doi:10.1016/j.jbi.2020.103545",
        "doi"
    ));
}

#[test]
fn every_real_identifier_is_kept_with_and_without_its_refinement() {
    for (value, scheme) in [
        ("9783407868213", "ISBN"),
        ("978-3-407-86821-3", "ISBN"),
        ("080442957X", "ISBN"),
        ("2049-3630", "ISSN"),
        ("10.1016/j.jbi.2020.103545", "DOI"),
        ("doi:10.1016/j.jbi.2020.103545", "DOI"),
    ] {
        assert!(
            is_shared(value, None),
            "must be kept with no scheme: {value}"
        );
        assert!(
            is_shared(value, Some(scheme)),
            "must be kept under a declared {scheme}: {value}"
        );
    }
}

#[test]
fn every_real_doi_is_kept_under_a_declared_doi_refinement() {
    for doi in REAL_DOIS {
        assert!(
            is_shared(doi, Some("DOI")),
            "a real DOI must be kept under a DOI refinement: {doi}"
        );
    }
}


#[test]
fn a_millisecond_timestamp_is_still_dropped_after_the_prefix_fix() {
    assert!(is_per_copy("1735689600000"));
}

#[test]
fn a_vendor_transaction_id_is_still_dropped_after_the_prefix_fix() {
    assert!(is_per_copy("SHTX001.635962014"));
}

#[test]
fn a_bare_uuid_is_still_dropped_after_the_prefix_fix() {
    assert!(is_per_copy("6f2a1e40-8c31-4b7e-9a55-1d0c2f9b7e31"));
}

#[test]
fn an_email_address_is_still_dropped_after_the_prefix_fix() {
    assert!(is_per_copy("buyer42@example.com"));
}


fn book_with_identifier(identifier: &str, scheme: Option<&str>) -> Metadata {
    Metadata {
        identifier: Some(identifier.to_string()),
        identifier_scheme: scheme.map(str::to_string),
        ..Metadata::default()
    }
}

#[test]
fn an_explicit_identifier_type_refinement_protects_the_unique_identifier_too() {
    let mut book = book_with_identifier("9783407868214", Some("ISBN"));
    let mut transformations = Vec::new();
    normalize(&mut book, &mut transformations);
    assert_eq!(book.identifier.as_deref(), Some("9783407868214"));
    assert!(
        transformations.is_empty(),
        "a scheme-protected unique identifier must not be replaced, got: {transformations:?}"
    );
}

#[test]
fn a_per_copy_unique_identifier_with_no_scheme_is_still_replaced() {
    let mut book = book_with_identifier("SHTX001.635962014", None);
    let mut transformations = Vec::new();
    normalize(&mut book, &mut transformations);
    assert_eq!(book.identifier, None);
    assert_eq!(transformations.len(), 1);
}


fn book_with_secondary(value: &str, scheme: Option<&str>) -> Metadata {
    let mut book = book_with_identifier("9783407868213", Some("ISBN"));
    book.identifiers = vec![Identifier {
        value: value.to_string(),
        scheme: scheme.map(str::to_string),
    }];
    book
}

#[test]
fn a_doi_type_refinement_does_not_save_the_watermark_on_either_identifier_path() {
    for scheme in [None, Some("DOI")] {
        let mut book = book_with_secondary("doi:10.0000/SHTX001.635962014", scheme);
        let mut transformations = Vec::new();
        normalize(&mut book, &mut transformations);
        assert!(
            book.identifiers.is_empty(),
            "a DOI-costumed watermark must be dropped with scheme {scheme:?}"
        );

        let mut book = book_with_identifier("doi:10.0000/SHTX001.635962014", scheme);
        let mut transformations = Vec::new();
        normalize(&mut book, &mut transformations);
        assert_eq!(
            book.identifier, None,
            "the same value as the *unique* identifier must also be dropped \
             with scheme {scheme:?}"
        );
    }
}

#[test]
fn an_isbn_type_refinement_still_keeps_a_real_isbn_through_normalize() {
    let mut book = book_with_secondary("978-3-407-86821-3", Some("ISBN"));
    let mut transformations = Vec::new();
    normalize(&mut book, &mut transformations);
    assert_eq!(
        book.identifiers.len(),
        1,
        "a genuine ISBN behind a genuine refinement must be kept: {transformations:?}"
    );
}


fn classification_corpus() -> Vec<(&'static str, Option<&'static str>)> {
    let mut cases: Vec<(&str, Option<&str>)> = vec![
        ("978-3-407-86821-3", None),
        ("080442957X", None),
        ("9783407868213", Some("ISBN")),
        ("urn:isbn:9783407868213", Some("ISBN")),
        ("2049-3630", Some("ISSN")),
        ("9783407868214", Some("ISBN")),
        ("9783407868214", None),
        ("not-a-real-isbn-shape", Some("ISBN")),
        ("not-a-real-isbn-shape", None),
        ("SHTX001.635962014", None),
        ("urn:uuid:0d2b2f1e-3c4a-4b5c-8d9e-0f1a2b3c4d5e", None),
        ("buyer@example.com", None),
        ("10.0000/TXN-A", Some("DOI")),
        ("urn:epub-tailor:47838272f6d0c223", None),
    ];
    for doi in REAL_DOIS {
        cases.push((doi, Some("DOI")));
        cases.push((doi, None));
    }
    cases
}

#[test]
fn classify_and_is_shared_never_disagree() {
    for (value, scheme) in classification_corpus() {
        assert_eq!(
            matches!(classify(value, scheme), PerCopyKind::Shared),
            is_shared(value, scheme),
            "classify and is_shared disagree about {value:?} (scheme {scheme:?})"
        );
    }
}

#[test]
fn the_synthesized_identifier_is_shared_however_many_digits_its_hash_has() {
    for hash in ["47838272f6d0c223", "ada9f43a24de0cba"] {
        let value = format!("urn:epub-tailor:{hash}");
        assert_eq!(
            classify(&value, None),
            PerCopyKind::Shared,
            "the writer's own synthesized identifier must be kept: {value}"
        );
    }
}

#[test]
fn classify_separates_a_bare_uuid_from_a_genuinely_distinctive_value() {
    assert_eq!(
        classify("urn:uuid:0d2b2f1e-3c4a-4b5c-8d9e-0f1a2b3c4d5e", None),
        PerCopyKind::Uuid
    );
    assert_eq!(
        classify("buyer@example.com", None),
        PerCopyKind::Distinctive
    );
    assert_eq!(
        classify("10.0000/TXN-A", Some("DOI")),
        PerCopyKind::Distinctive
    );
    assert_eq!(classify("SHTX001.635962014", None), PerCopyKind::Opaque);
    assert_eq!(classify("978-3-407-86821-3", None), PerCopyKind::Shared);
}
