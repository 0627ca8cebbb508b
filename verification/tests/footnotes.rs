use epub_tailor::footnotes::{find_anchor_ref, is_id_char, is_javascript};

#[test]
fn javascript_links_are_recognized_case_insensitively() {
    assert!(is_javascript("javascript:void(0)"));
    assert!(is_javascript("  JavaScript:show('n1')"));
    assert!(!is_javascript("#n1"));
    assert!(!is_javascript("https://example.com/javascript:"));
}

#[test]
fn a_hidden_anchor_is_recovered_from_an_attribute_value() {
    assert_eq!(find_anchor_ref("showNote('#fn-1.a:b')"), Some("#fn-1.a:b".to_string()));
    assert_eq!(find_anchor_ref("# #x"), Some("#x".to_string()));
    assert_eq!(find_anchor_ref("no anchor here"), None);
    assert_eq!(find_anchor_ref("trailing #"), None);
}

#[test]
fn id_characters_are_ascii_alphanumerics_and_four_punctuation_marks() {
    for c in ['a', 'Z', '0', '_', '-', '.', ':'] {
        assert!(is_id_char(c));
    }
    for c in ['#', ' ', '\'', '\u{e9}'] {
        assert!(!is_id_char(c));
    }
}
