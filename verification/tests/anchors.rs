use epub_tailor::anchors::{AliasMap, apply_toc_aliases};
use epub_tailor::model::TocEntry;

fn key(path: &str, id: &str) -> (String, String) {
    (path.to_string(), id.to_string())
}

fn toc_entry(href: &str) -> TocEntry {
    TocEntry { title: "T".to_string(), href: href.to_string(), level: 1 }
}

#[test]
fn toc_href_fragment_follows_the_alias() {
    let mut aliases = AliasMap::new();
    aliases.insert(key("text/ch1.xhtml", "fn1"), "para".to_string());
    let mut toc = vec![toc_entry("text/ch1.xhtml#fn1")];
    apply_toc_aliases(&mut toc, &aliases);
    assert_eq!(toc[0].href, "text/ch1.xhtml#para");
}

#[test]
fn toc_entry_with_no_fragment_is_untouched() {
    let mut aliases = AliasMap::new();
    aliases.insert(key("text/ch1.xhtml", "fn1"), "para".to_string());
    let mut toc = vec![toc_entry("text/ch1.xhtml")];
    apply_toc_aliases(&mut toc, &aliases);
    assert_eq!(toc[0].href, "text/ch1.xhtml");
}

#[test]
fn toc_entry_with_unmatched_fragment_is_untouched() {
    let mut aliases = AliasMap::new();
    aliases.insert(key("text/ch1.xhtml", "fn1"), "para".to_string());
    let mut toc = vec![toc_entry("text/ch1.xhtml#fn2")];
    apply_toc_aliases(&mut toc, &aliases);
    assert_eq!(toc[0].href, "text/ch1.xhtml#fn2");
}

#[test]
fn toc_entry_in_another_chapter_is_not_hijacked() {
    let mut aliases = AliasMap::new();
    aliases.insert(key("text/ch1.xhtml", "fn1"), "para".to_string());
    let mut toc = vec![toc_entry("text/ch2.xhtml#fn1")];
    apply_toc_aliases(&mut toc, &aliases);
    assert_eq!(toc[0].href, "text/ch2.xhtml#fn1");
}

#[test]
fn a_later_alias_for_the_same_key_wins() {
    let mut aliases = AliasMap::new();
    assert!(aliases.is_empty());
    aliases.insert(key("a.xhtml", "x"), "one".to_string());
    aliases.insert(key("a.xhtml", "x"), "two".to_string());
    assert!(!aliases.is_empty());
    let path: Vec<char> = "a.xhtml".chars().collect();
    let frag: Vec<char> = "x".chars().collect();
    assert_eq!(aliases.lookup(&path, &frag).map(|s| s.as_str()), Some("two"));
    let mut toc = vec![toc_entry("a.xhtml#x"), toc_entry("a.xhtml#y")];
    apply_toc_aliases(&mut toc, &aliases);
    assert_eq!(toc[0].href, "a.xhtml#two");
    assert_eq!(toc[1].href, "a.xhtml#y");
    assert_eq!(toc[0].title, "T");
}
