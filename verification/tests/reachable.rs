use epub_tailor::reachable::{
    basename_of, normalize_href, raw_import_refs, raw_url_refs, resolve, srcset_refs,
};

#[test]
fn raw_url_refs_finds_a_url_hidden_inside_an_earlier_unclosed_one() {
    let refs = raw_url_refs("a{background:url(broken.png}\np.b{background:url(good.png)}", "OEBPS");
    assert!(refs.contains(&"OEBPS/good.png".to_string()), "got {refs:?}");
}

#[test]
fn raw_url_refs_is_case_insensitive() {
    let refs = raw_url_refs("a { background: URL(shout.png); }", "OEBPS");
    assert_eq!(refs, vec!["OEBPS/shout.png".to_string()]);
}

#[test]
fn raw_url_refs_discards_a_capture_spanning_a_brace_or_newline() {
    let refs = raw_url_refs("a{background:url(one{two)three}", "OEBPS");
    assert!(refs.is_empty(), "got {refs:?}");
}

#[test]
fn raw_import_refs_recovers_an_import_after_another_rule() {
    let refs = raw_import_refs("p{color:red}\n@import \"sub.css\";", "OEBPS");
    assert_eq!(refs, vec!["OEBPS/sub.css".to_string()]);
}

#[test]
fn raw_import_refs_recovers_an_import_nested_in_a_media_block() {
    let refs = raw_import_refs("@media print{@import \"sub.css\";}", "OEBPS");
    assert_eq!(refs, vec!["OEBPS/sub.css".to_string()]);
}

#[test]
fn raw_import_refs_is_case_insensitive() {
    let refs = raw_import_refs(
        "p{color:red}\n@IMPORT \"shout.css\";\n@Import 'whisper.css';",
        "OEBPS",
    );
    assert_eq!(refs, vec!["OEBPS/shout.css".to_string(), "OEBPS/whisper.css".to_string()]);
}

#[test]
fn raw_url_refs_does_not_search_past_max_raw_span() {
    let long_value = "a".repeat(3000);
    let css = format!("a{{background:url({long_value})}}");
    let refs = raw_url_refs(&css, "OEBPS");
    assert!(refs.is_empty(), "a url() value whose closing paren sits past MAX_RAW_SPAN must not be captured: got {refs:?}");
    let short_refs = raw_url_refs("a{background:url(short.png)}", "OEBPS");
    assert_eq!(short_refs, vec!["OEBPS/short.png".to_string()]);
}

#[test]
fn the_raw_span_is_measured_in_bytes_not_characters() {
    let value = "\u{e9}".repeat(1100);
    let css = format!("url({value})");
    assert!(raw_url_refs(&css, "").is_empty());
    let fits = "\u{e9}".repeat(1000);
    assert_eq!(raw_url_refs(&format!("url({fits})"), "").len(), 1);
}

#[test]
fn quotes_and_fragments_are_dropped_from_a_url_capture() {
    let refs = raw_url_refs("a{b:url( \"../img/x.png#frag\" )}", "OEBPS/styles");
    assert_eq!(refs, vec!["OEBPS/img/x.png".to_string()]);
}

#[test]
fn hrefs_resolve_against_their_document_directory() {
    assert_eq!(normalize_href("OEBPS", "good.png"), "OEBPS/good.png");
    assert_eq!(normalize_href("OEBPS/text", "../images/a.png"), "OEBPS/images/a.png");
    assert_eq!(normalize_href("", "./a/./b.png"), "a/b.png");
    assert_eq!(normalize_href("OEBPS", "../../x.css"), "x.css");
    assert_eq!(resolve("OEBPS", " note.xhtml#n1 "), Some("OEBPS/note.xhtml".to_string()));
    assert_eq!(resolve("OEBPS", "#n1"), None);
    assert_eq!(resolve("OEBPS", "https://example.com/a.png"), None);
    assert_eq!(resolve("OEBPS", "data:image/png;base64,AAAA"), None);
    assert_eq!(resolve("OEBPS", "   "), None);
}

#[test]
fn srcset_entries_yield_their_urls_without_descriptors() {
    assert_eq!(
        srcset_refs("a.png 2x, b.png 1x,, http://x/c.png 3x", "OEBPS"),
        vec!["OEBPS/a.png".to_string(), "OEBPS/b.png".to_string()]
    );
}

#[test]
fn a_basename_is_what_follows_the_last_slash() {
    assert_eq!(basename_of("OEBPS/images/a.png"), Some("a.png".to_string()));
    assert_eq!(basename_of("a.png"), Some("a.png".to_string()));
    assert_eq!(basename_of("OEBPS/images/"), None);
}
