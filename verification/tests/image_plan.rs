use epub_tailor::book::{Book, Resource};
use epub_tailor::image_plan::{
    ImagePlan, PipelineResult, Tile, apply_pipeline_result, apply_single, apply_split,
    compose_renames, image_candidates, reserved_paths,
};
use epub_tailor::images::{ImageOutcome, OutFormat};
use epub_tailor::model::Metadata;
use epub_tailor::names::PathSet;
use indexmap::IndexMap;

fn res(data: &[u8], media_type: &str) -> Resource {
    Resource {
        data: data.to_vec(),
        media_type: media_type.to_string(),
    }
}

fn book(resources: Vec<(&str, Resource)>, cover: Option<&str>) -> Book {
    let mut map = IndexMap::new();
    for (p, r) in resources {
        map.insert(p.to_string(), r);
    }
    Book {
        metadata: Metadata::default(),
        resources: map,
        spine: vec![],
        toc: vec![],
        cover: cover.map(String::from),
        opf_path: "OEBPS/content.opf".to_string(),
        nav_path: None,
        ncx_path: None,
    }
}

fn empty_plan() -> ImagePlan {
    ImagePlan {
        renames: vec![],
        splits: vec![],
        images_processed: 0,
    }
}

fn processed(format: OutFormat, data: &[u8]) -> ImageOutcome {
    ImageOutcome::Processed {
        data: data.to_vec(),
        format,
        width: 10,
        height: 20,
        note: "fitted".to_string(),
    }
}

#[test]
fn candidates_are_declared_or_sniffed_rasters_not_svg_or_skipped() {
    let b = book(
        vec![
            ("OEBPS/a.jpg", res(b"x", "image/jpeg")),
            ("OEBPS/b.bin", res(&[0x89, b'P', b'N', b'G', 0x0D, 0x0A, 0x1A, 0x0A], "application/octet-stream")),
            ("OEBPS/c.svg", res(b"<svg/>", "image/svg+xml")),
            ("OEBPS/d.css", res(b".x{}", "text/css")),
            ("OEBPS/e.gif", res(b"GIF89a", "image/gif")),
        ],
        None,
    );
    let mut skip = PathSet::new();
    skip.insert(&"OEBPS/e.gif".chars().collect::<Vec<_>>());
    assert_eq!(image_candidates(&b, &skip), vec!["OEBPS/a.jpg", "OEBPS/b.bin"]);
}

#[test]
fn a_processed_image_with_the_same_extension_is_updated_in_place() {
    let mut b = book(vec![("OEBPS/img/a.jpg", res(b"old", "image/jpeg"))], None);
    let mut reserved = reserved_paths(&b);
    let mut plan = empty_plan();
    let mut t = Vec::new();
    apply_single(&mut b, "OEBPS/img/a.jpg", processed(OutFormat::Jpeg, b"new"), &mut reserved, &mut plan, &mut t);
    assert_eq!(b.resources["OEBPS/img/a.jpg"].data, b"new");
    assert!(plan.renames.is_empty());
    assert_eq!(plan.images_processed, 1);
    assert_eq!(t[0].kind, "image-optimized");
    assert_eq!(t[0].detail, "a.jpg fitted");
    assert_eq!(t[0].file.as_deref(), Some("OEBPS/img/a.jpg"));
}

#[test]
fn a_format_change_moves_the_image_and_the_cover_follows() {
    let mut b = book(
        vec![
            ("OEBPS/img/a.png", res(b"png", "image/png")),
            ("OEBPS/img/a.jpg", res(b"someone else", "image/jpeg")),
        ],
        Some("OEBPS/img/a.png"),
    );
    let mut reserved = reserved_paths(&b);
    let mut plan = empty_plan();
    let mut t = Vec::new();
    apply_single(&mut b, "OEBPS/img/a.png", processed(OutFormat::Jpeg, b"jpeg"), &mut reserved, &mut plan, &mut t);
    assert!(!b.resources.contains_key("OEBPS/img/a.png"));
    assert_eq!(b.resources["OEBPS/img/a.jpg"].data, b"someone else");
    assert_eq!(b.resources["OEBPS/img/a-1.jpg"].data, b"jpeg");
    assert_eq!(b.resources["OEBPS/img/a-1.jpg"].media_type, "image/jpeg");
    assert_eq!(b.cover.as_deref(), Some("OEBPS/img/a-1.jpg"));
    assert_eq!(plan.renames, vec![("OEBPS/img/a.png".to_string(), "OEBPS/img/a-1.jpg".to_string())]);
}

#[test]
fn an_unchanged_image_stays_put() {
    let mut b = book(vec![("OEBPS/a.png", res(b"png", "image/png"))], None);
    let mut reserved = reserved_paths(&b);
    let mut plan = empty_plan();
    let mut t = Vec::new();
    apply_pipeline_result(
        &mut b,
        "OEBPS/a.png",
        PipelineResult::Single(ImageOutcome::Unchanged {
            reason: "undecodable".to_string(),
        }),
        &mut reserved,
        &mut plan,
        &mut t,
    );
    assert_eq!(b.resources["OEBPS/a.png"].data, b"png");
    assert_eq!(plan.images_processed, 0);
    assert!(t.is_empty());
}

#[test]
fn a_split_image_is_replaced_by_its_tiles() {
    let mut b = book(
        vec![
            ("OEBPS/img/tall.png", res(b"png", "image/png")),
            ("OEBPS/img/tall-p2.jpg", res(b"taken", "image/jpeg")),
            ("OEBPS/ch.xhtml", res(b"x", "application/xhtml+xml")),
        ],
        Some("OEBPS/img/tall.png"),
    );
    let mut reserved = reserved_paths(&b);
    let mut plan = empty_plan();
    let mut t = Vec::new();
    let tiles = vec![
        Tile { data: b"t1".to_vec() },
        Tile { data: b"t2".to_vec() },
        Tile { data: b"t3".to_vec() },
    ];
    apply_split(&mut b, "OEBPS/img/tall.png", tiles, &mut reserved, &mut plan, &mut t);
    let keys: Vec<&str> = b.resources.keys().map(String::as_str).collect();
    assert_eq!(
        keys,
        vec![
            "OEBPS/img/tall-p2.jpg",
            "OEBPS/ch.xhtml",
            "OEBPS/img/tall-p1.jpg",
            "OEBPS/img/tall-p2-1.jpg",
            "OEBPS/img/tall-p3.jpg"
        ]
    );
    assert_eq!(b.resources["OEBPS/img/tall-p2-1.jpg"].data, b"t2");
    assert_eq!(b.cover.as_deref(), Some("OEBPS/img/tall-p1.jpg"));
    assert_eq!(plan.splits.len(), 1);
    assert_eq!(plan.splits[0].1.len(), 3);
    assert_eq!(t[0].kind, "image-split");
    assert_eq!(t[0].detail, "tall.png split into 3 page tile(s)");
}

fn pairs(v: &[(&str, &str)]) -> Vec<(String, String)> {
    v.iter().map(|(a, b)| (a.to_string(), b.to_string())).collect()
}

fn lookup<'a>(v: &'a [(String, String)], key: &str) -> Option<&'a str> {
    v.iter().rev().find(|(k, _)| k == key).map(|(_, v)| v.as_str())
}

#[test]
fn an_svg_resolves_through_its_intermediate_to_the_final_raster_name() {
    let svg = pairs(&[("OEBPS/a.svg", "OEBPS/a.png"), ("OEBPS/b.svg", "OEBPS/b.png")]);
    let image = pairs(&[("OEBPS/a.png", "OEBPS/a.jpg"), ("OEBPS/c.gif", "OEBPS/c.png")]);
    let composed = compose_renames(&svg, &image);
    assert_eq!(lookup(&composed, "OEBPS/a.svg"), Some("OEBPS/a.jpg"));
    assert_eq!(lookup(&composed, "OEBPS/b.svg"), Some("OEBPS/b.png"));
    assert_eq!(lookup(&composed, "OEBPS/c.gif"), Some("OEBPS/c.png"));
    assert_eq!(lookup(&composed, "OEBPS/a.png"), Some("OEBPS/a.jpg"));
    assert_eq!(lookup(&composed, "OEBPS/d.png"), None);
}
