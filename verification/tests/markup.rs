use epub_tailor::markup::{escape_attr, escape_into, escape_text, write_comment};

#[test]
fn escapes_text_metacharacters() {
    assert_eq!(escape_text("a & b < c > d"), "a &amp; b &lt; c &gt; d");
}

#[test]
fn text_keeps_double_quote_literal() {
    assert_eq!(escape_text(r#"say "hi""#), r#"say "hi""#);
}

#[test]
fn attr_escapes_double_quote() {
    assert_eq!(escape_attr(r#"a"b&c"#), "a&quot;b&amp;c");
}

#[test]
fn strips_invalid_control_chars_but_keeps_tab_lf_cr() {
    assert_eq!(escape_text("a\u{0}b\u{1}c\td\ne\rf"), "abc\td\ne\rf");
}

#[test]
fn escape_into_appends_after_existing_text() {
    let mut out = String::from("<p>");
    escape_into("x<y", false, &mut out);
    assert_eq!(out, "<p>x&lt;y");
}

fn sanitize(content: &str) -> String {
    let mut out = String::new();
    write_comment(content, &mut out);
    out
}

#[test]
fn hyphen_run_of_two_is_split() {
    assert_eq!(sanitize("--"), "<!--- - -->");
}

#[test]
fn hyphen_run_of_three_is_split() {
    assert_eq!(sanitize("---"), "<!--- - - -->");
}

#[test]
fn hyphen_run_of_four_is_split() {
    assert_eq!(sanitize("----"), "<!--- - - - -->");
}

#[test]
fn hyphen_run_of_five_is_split() {
    assert_eq!(sanitize("-----"), "<!--- - - - - -->");
}

#[test]
fn hyphen_run_inside_text_is_split() {
    assert_eq!(sanitize("a---b"), "<!--a- - -b-->");
}

#[test]
fn trailing_hyphen_gains_a_space() {
    assert_eq!(sanitize("ab-"), "<!--ab- -->");
}

#[test]
fn leading_hyphen_is_left_alone() {
    assert_eq!(sanitize("-ab"), "<!---ab-->");
}

#[test]
fn mixed_leading_runs_and_trailing_hyphen() {
    assert_eq!(sanitize("-a--b---c-"), "<!---a- -b- - -c- -->");
}

#[test]
fn leading_gt_after_delimiter_gains_a_space() {
    assert_eq!(sanitize(">foo"), "<!-- >foo-->");
}

#[test]
fn leading_hyphen_gt_after_delimiter_gains_a_space() {
    assert_eq!(sanitize("->foo"), "<!--- >foo-->");
}

#[test]
fn sanitized_output_never_contains_double_hyphen_or_trailing_hyphen() {
    for content in [
        "--",
        "---",
        "----",
        "-----",
        "a---b",
        "ab-",
        "-ab",
        "-a--b---c-",
        "",
        "-",
        "no-hyphens-here",
        ">foo",
        "->foo",
        "\u{1}>--",
    ] {
        let out = sanitize(content);
        let inner = &out[4..out.len() - 3];
        assert!(!inner.contains("--"), "content {content:?} -> {out} still has --");
        assert!(!inner.ends_with('-'), "content {content:?} -> {out} still ends with -");
        assert!(
            !inner.starts_with('>') && !inner.starts_with("->"),
            "content {content:?} -> {out} still starts with a re-parse-unsafe >"
        );
    }
}

#[test]
fn control_characters_are_dropped_from_a_comment() {
    assert_eq!(sanitize("a\u{1}\u{2}b"), "<!--ab-->");
    assert_eq!(sanitize("\u{1}>x"), "<!-- >x-->");
}
