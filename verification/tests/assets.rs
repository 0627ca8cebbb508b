use std::collections::HashMap;

use epub_tailor::assets::{AssetResolver, ImageRegistry};
use indexmap::IndexMap;

struct MapResolver(HashMap<String, Vec<u8>>);

impl AssetResolver for MapResolver {
    fn resolve(&self, href: &str) -> Option<Vec<u8>> {
        self.0.get(href).cloned()
    }
}

fn map_resolver(entries: &[(&str, &[u8])]) -> MapResolver {
    MapResolver(
        entries
            .iter()
            .map(|(k, v)| (k.to_string(), v.to_vec()))
            .collect(),
    )
}

#[test]
fn resolves_and_flattens_a_nested_path() {
    let resolver = map_resolver(&[("art/pic.png", b"\x89PNG")]);
    let mut registry = ImageRegistry::new(&resolver);
    let mut resources = IndexMap::new();
    let mut warnings = Vec::new();
    let path = registry
        .resolve(
            "art/pic.png",
            &mut resources,
            &mut warnings,
            "OEBPS/ch-001.xhtml",
        )
        .expect("resolves");
    assert_eq!(path, "OEBPS/images/art-pic.png");
    assert!(resources.contains_key("OEBPS/images/art-pic.png"));
    assert_eq!(resources["OEBPS/images/art-pic.png"].media_type, "image/png");
    assert!(warnings.is_empty());
}

#[test]
fn reusing_the_same_href_returns_the_same_resource_and_does_not_duplicate() {
    let resolver = map_resolver(&[("pic.png", b"data")]);
    let mut registry = ImageRegistry::new(&resolver);
    let mut resources = IndexMap::new();
    let mut warnings = Vec::new();
    let a = registry
        .resolve(
            "pic.png",
            &mut resources,
            &mut warnings,
            "OEBPS/ch-001.xhtml",
        )
        .unwrap();
    let b = registry
        .resolve(
            "pic.png",
            &mut resources,
            &mut warnings,
            "OEBPS/ch-002.xhtml",
        )
        .unwrap();
    assert_eq!(a, b);
    assert_eq!(resources.len(), 1);
}

#[test]
fn colliding_flattened_names_get_deduped() {
    let resolver = map_resolver(&[("art/pic.png", b"1"), ("art-pic.png", b"2")]);
    let mut registry = ImageRegistry::new(&resolver);
    let mut resources = IndexMap::new();
    let mut warnings = Vec::new();
    let a = registry
        .resolve("art/pic.png", &mut resources, &mut warnings, "ch.xhtml")
        .unwrap();
    let b = registry
        .resolve("art-pic.png", &mut resources, &mut warnings, "ch.xhtml")
        .unwrap();
    assert_ne!(a, b);
    assert_eq!(resources.len(), 2);
    assert_eq!(b, "OEBPS/images/art-pic-2.png");
}

#[test]
fn missing_reference_warns_and_returns_none() {
    let resolver = map_resolver(&[]);
    let mut registry = ImageRegistry::new(&resolver);
    let mut resources = IndexMap::new();
    let mut warnings = Vec::new();
    let result = registry.resolve("missing.png", &mut resources, &mut warnings, "ch.xhtml");
    assert!(result.is_none());
    assert_eq!(warnings.len(), 1);
    assert!(warnings[0].message.contains("could not resolve"));
}

#[test]
fn remote_url_warns_and_is_left_unresolved() {
    let resolver = map_resolver(&[]);
    let mut registry = ImageRegistry::new(&resolver);
    let mut resources = IndexMap::new();
    let mut warnings = Vec::new();
    let result = registry.resolve(
        "https://example.com/pic.png",
        &mut resources,
        &mut warnings,
        "ch.xhtml",
    );
    assert!(result.is_none());
    assert_eq!(warnings.len(), 1);
    assert!(warnings[0].message.contains("remote image not fetched"));
}

#[test]
fn fetched_bytes_are_stored_under_a_fresh_path() {
    let resolver = map_resolver(&[]);
    let mut registry = ImageRegistry::new(&resolver);
    let mut resources = IndexMap::new();
    let mut warnings = Vec::new();
    let a = registry.resolve_fetched(
        "dir/noext",
        Some(b"x".to_vec()),
        &mut resources,
        &mut warnings,
        "ch.xhtml",
    );
    assert_eq!(a.as_deref(), Some("OEBPS/images/dir-noext"));
    assert_eq!(resources["OEBPS/images/dir-noext"].media_type, "application/octet-stream");
    let none = registry.resolve_fetched("gone.png", None, &mut resources, &mut warnings, "ch.xhtml");
    assert!(none.is_none());
    assert_eq!(
        warnings[0].message,
        "could not resolve local image 'gone.png'; left the reference unchanged"
    );
    assert_eq!(warnings[0].file.as_deref(), Some("ch.xhtml"));
}
