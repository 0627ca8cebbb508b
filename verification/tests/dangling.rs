use epub_tailor::dangling::scan_for_dangling_basenames;
use epub_tailor::reachable::basename_of;

/// The plain nested loop the automaton replaces: one substring search per
/// (dropped path, document) pair.
fn naive_scan(dropped: &[String], docs: &[(&str, &[u8])]) -> Vec<(String, String)> {
    let mut hits = Vec::new();
    for dropped_path in dropped {
        let Some(basename) = basename_of(dropped_path) else {
            continue;
        };
        let needle = basename.as_bytes();
        for (path, data) in docs {
            if data.len() >= needle.len() && data.windows(needle.len()).any(|w| w == needle) {
                hits.push(((*path).to_string(), dropped_path.clone()));
            }
        }
    }
    hits
}

#[test]
fn scan_agrees_with_a_naive_substring_search() {
    let dropped: Vec<String> = [
        "OEBPS/my pic.png",
        "OEBPS/image(1).png",
        "OEBPS/Q&A.png",
        "OEBPS/it's.png",
        "OEBPS/fig 1, rev.png",
        "OEBPS/图1.png",
        "OEBPS/stray.png",
        "OEBPS/a.png",
        "OEBPS/data.png",
        "OEBPS/never-mentioned.png",
        "OEBPS/",
    ]
    .iter()
    .map(|s| (*s).to_string())
    .collect();
    let docs: Vec<(&str, &[u8])> = vec![
        (
            "OEBPS/c1.xhtml",
            r#"<meta content="my pic.png"/><img src="image(1).png">"#.as_bytes(),
        ),
        (
            "OEBPS/c2.xhtml",
            "Q&A.png and it's.png and fig 1, rev.png".as_bytes(),
        ),
        (
            "OEBPS/c3.xhtml",
            "见 图1.png。 und „stray.png“ hier".as_bytes(),
        ),
        ("OEBPS/c4.xhtml", r#"<img src="data.png">"#.as_bytes()),
        ("OEBPS/c5.xhtml", "nothing at all".as_bytes()),
    ];

    let expected = naive_scan(&dropped, &docs);
    assert_eq!(scan_for_dangling_basenames(&dropped, &docs), expected);
    assert!(
        expected.len() >= 9,
        "the fixture must actually produce hits, got {expected:?}"
    );
}

#[test]
fn scan_finds_a_needle_nested_inside_another_needles_match() {
    let dropped = vec!["OEBPS/a.png".to_string(), "OEBPS/data.png".to_string()];
    let doc = br#"<img src="data.png">"#;
    let hits = scan_for_dangling_basenames(&dropped, &[("OEBPS/c.xhtml", doc)]);
    assert_eq!(
        hits,
        vec![
            ("OEBPS/c.xhtml".to_string(), "OEBPS/a.png".to_string()),
            ("OEBPS/c.xhtml".to_string(), "OEBPS/data.png".to_string()),
        ]
    );
}

#[test]
fn the_safety_net_stays_linear_in_the_number_of_dropped_files() {
    let dropped: Vec<String> = (0..500).map(|i| format!("OEBPS/s{i}-unused.png")).collect();
    let doc = "<p>this paragraph names none of them</p>".repeat(4_000);
    let docs: &[(&str, &[u8])] = &[("OEBPS/c.xhtml", doc.as_bytes())];

    let start = std::time::Instant::now();
    let hits = scan_for_dangling_basenames(&dropped, docs);
    let fast = start.elapsed();

    let start = std::time::Instant::now();
    let reference = naive_scan(&dropped, docs);
    let slow = start.elapsed();

    assert!(hits.is_empty());
    assert_eq!(hits, reference, "and it must still agree with the reference");
    assert!(
        fast * 10 < slow,
        "the automaton took {fast:?} against the naive scan's {slow:?} over {} bytes",
        doc.len()
    );
}

#[test]
fn the_safety_net_reports_every_dropped_path_sharing_a_basename() {
    let dropped = vec![
        "OEBPS/images/dup.png".to_string(),
        "OEBPS/other/dup.png".to_string(),
    ];
    let doc = br#"<img src="dup.png">"#;
    let hits = scan_for_dangling_basenames(&dropped, &[("OEBPS/c.xhtml", doc)]);
    assert_eq!(
        hits,
        vec![
            (
                "OEBPS/c.xhtml".to_string(),
                "OEBPS/images/dup.png".to_string()
            ),
            (
                "OEBPS/c.xhtml".to_string(),
                "OEBPS/other/dup.png".to_string()
            ),
        ],
        "both dropped paths sharing a basename must be reported, in dropped order"
    );
}

#[test]
fn a_path_ending_in_a_slash_has_no_basename_to_scan_for() {
    let dropped = vec!["OEBPS/".to_string()];
    let hits = scan_for_dangling_basenames(&dropped, &[("OEBPS/c.xhtml", b"OEBPS/")]);
    assert!(hits.is_empty());
}

#[test]
fn a_basename_outside_ascii_is_found_by_its_utf8_bytes() {
    let dropped = vec!["OEBPS/images/café-ümlaut.png".to_string(), "OEBPS/a/日本.jpg".to_string()];
    let doc = "<img src=\"images/café-ümlaut.png\"/> and 日本.jpg".as_bytes();
    let hits = scan_for_dangling_basenames(&dropped, &[("OEBPS/c.xhtml", doc)]);
    assert_eq!(
        hits,
        vec![
            ("OEBPS/c.xhtml".to_string(), "OEBPS/images/café-ümlaut.png".to_string()),
            ("OEBPS/c.xhtml".to_string(), "OEBPS/a/日本.jpg".to_string()),
        ]
    );
}
