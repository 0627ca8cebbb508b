use epub_tailor::slug::{SlugCounts, collapse_whitespace, dedupe_slug, slugify};

#[test]
fn slugify_lowercases_and_hyphenates() {
    assert_eq!(slugify("Chapter One"), "chapter-one");
    assert_eq!(slugify("Café  &  Bar!!"), "café-bar");
    assert_eq!(slugify("---"), "section");
    assert_eq!(slugify(""), "section");
}

#[test]
fn dedupe_slug_appends_dash_two_then_three() {
    let mut seen = SlugCounts::new();
    assert_eq!(dedupe_slug("intro", &mut seen), "intro");
    assert_eq!(dedupe_slug("intro", &mut seen), "intro-2");
    assert_eq!(dedupe_slug("intro", &mut seen), "intro-3");
}

#[test]
fn distinct_slugs_are_counted_apart() {
    let mut seen = SlugCounts::new();
    assert_eq!(dedupe_slug("a", &mut seen), "a");
    assert_eq!(dedupe_slug("b", &mut seen), "b");
    assert_eq!(dedupe_slug("a", &mut seen), "a-2");
    assert_eq!(dedupe_slug("b", &mut seen), "b-2");
}

#[test]
fn white_space_collapses_to_single_spaces() {
    assert_eq!(collapse_whitespace("  a \t b\n\nc  "), "a b c");
    assert_eq!(collapse_whitespace("   "), "");
    assert_eq!(collapse_whitespace("one"), "one");
}

#[test]
fn slugs_keep_unicode_letters_and_digits() {
    assert_eq!(slugify("Über 2 Brücken"), "über-2-brücken");
    assert_eq!(slugify("  -Leading and trailing-  "), "leading-and-trailing");
}
