use epub_tailor::code::render_line;

#[test]
fn indentation_becomes_non_breaking_spaces() {
    assert_eq!(render_line("  x"), "\u{a0}\u{a0}x");
    assert_eq!(render_line("\tx"), "\u{a0}\u{a0}\u{a0}\u{a0}x");
}

#[test]
fn interior_runs_keep_their_width_but_single_spaces_stay_breakable() {
    assert_eq!(render_line("a b"), "a b");
    assert_eq!(render_line("a   b"), "a\u{a0}\u{a0}\u{a0}b");
    assert_eq!(render_line("a\tb"), "a\u{a0}\u{a0}\u{a0}\u{a0}b");
    assert_eq!(render_line("a "), "a ");
    assert_eq!(render_line(""), "");
}
