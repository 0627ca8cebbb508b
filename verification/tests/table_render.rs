use epub_tailor::table_render::{
    empty_svg, equal_widths, line_capacity, model_dimensions, render_table_svg, wrap, Cell,
    TableModel,
};

fn cell(s: &str) -> Cell {
    Cell {
        text: s.to_string(),
        sub: None,
    }
}

fn sample_3x3() -> TableModel {
    TableModel {
        caption: None,
        headers: Some(vec!["Name".into(), "Qty".into(), "Price".into()]),
        rows: vec![
            vec![cell("Apple"), cell("3"), cell("1.20")],
            vec![cell("Pear"), cell("5"), cell("0.90")],
        ],
    }
}

fn nested_sample() -> TableModel {
    let inner = TableModel {
        caption: None,
        headers: None,
        rows: vec![
            vec![cell("inA"), cell("inB")],
            vec![cell("inC"), cell("inD")],
        ],
    };
    TableModel {
        caption: None,
        headers: Some(vec!["H1".into(), "H2".into(), "H3".into()]),
        rows: vec![
            vec![cell("a"), cell("b"), cell("c")],
            vec![
                cell("d"),
                Cell {
                    text: "note".into(),
                    sub: Some(inner),
                },
                cell("f"),
            ],
        ],
    }
}

/// The baseline `y` of the `<text>` element whose content is exactly `body`.
fn text_y(svg: &str, body: &str) -> i64 {
    let needle = format!(">{body}</text>");
    let end = svg.find(&needle).expect("content present");
    let tag = svg[..end].rfind("<text").expect("opening <text");
    let seg = &svg[tag..end];
    let yi = seg.find(r#" y=""#).expect("y attr") + 4;
    let yj = seg[yi..].find('"').expect("y end") + yi;
    seg[yi..yj].parse().expect("y is an integer")
}

fn chars(s: &str) -> Vec<char> {
    s.chars().collect()
}

fn lines_of(v: Vec<Vec<char>>) -> Vec<String> {
    v.into_iter().map(|l| l.into_iter().collect()).collect()
}

#[test]
fn output_is_deterministic() {
    let a = render_table_svg(&sample_3x3(), 480);
    let b = render_table_svg(&sample_3x3(), 480);
    assert_eq!(a, b, "same model + max_w -> byte-identical");
}

#[test]
fn nested_render_is_deterministic() {
    let a = render_table_svg(&nested_sample(), 480);
    let b = render_table_svg(&nested_sample(), 480);
    assert_eq!(a, b, "same nested model + max_w -> byte-identical");
}

#[test]
fn equal_widths_distributes_remainder_to_low_indices() {
    assert_eq!(equal_widths(3, 100), vec![34, 33, 33]);
    assert_eq!(equal_widths(4, 100), vec![25, 25, 25, 25]);
    assert_eq!(equal_widths(1, 50), vec![50]);
    assert_eq!(equal_widths(0, 100), Vec::<i64>::new());
}

#[test]
fn header_table_is_max_w_wide_with_bold_headers() {
    let svg = render_table_svg(&sample_3x3(), 480);
    assert!(svg.starts_with(r#"<svg xmlns="http://www.w3.org/2000/svg" width="480""#));
    assert!(svg.ends_with("</svg>"));
    assert_eq!(svg.matches(r#"font-weight="bold""#).count(), 3, "{svg}");
    for c in ["Name", "Qty", "Price", "Apple", "3", "1.20", "Pear", "5", "0.90"] {
        assert!(svg.contains(c), "cell text {c} present");
    }
}

#[test]
fn header_table_border_spans_the_canvas() {
    let svg = render_table_svg(&sample_3x3(), 480);
    // 480 px wide: the outer border rectangle is inset half a pixel and
    // 479 px wide, so the three columns plus four borders fill the canvas.
    assert!(
        svg.contains(r#"<rect x="0.5" y="0.5" width="479" height="#),
        "{svg}"
    );
}

#[test]
fn long_cell_text_wraps_into_multiple_lines() {
    let model = TableModel {
        caption: None,
        headers: None,
        rows: vec![vec![cell(&"a".repeat(200))]],
    };
    let svg = render_table_svg(&model, 480);
    assert!(svg.matches("<text").count() > 1, "{svg}");
}

#[test]
fn ragged_rows_are_padded_to_the_column_count() {
    let model = TableModel {
        caption: None,
        headers: Some(vec!["A".into(), "B".into(), "C".into()]),
        rows: vec![vec![cell("1")], vec![cell("x"), cell("y"), cell("z")]],
    };
    let svg = render_table_svg(&model, 480);
    assert_eq!(svg.matches("<line").count(), 4, "grid lines: {svg}");
    for c in ["A", "B", "C", "1", "x", "y", "z"] {
        assert!(svg.contains(c), "cell {c} present");
    }
}

#[test]
fn empty_model_renders_a_minimal_box() {
    let model = TableModel {
        caption: None,
        headers: None,
        rows: vec![],
    };
    let svg = render_table_svg(&model, 480);
    assert_eq!(svg, empty_svg(480));
    assert_eq!(
        svg,
        r#"<svg xmlns="http://www.w3.org/2000/svg" width="480" height="28" viewBox="0 0 480 28"><rect x="0" y="0" width="480" height="28" fill="white"/><rect x="0.5" y="0.5" width="479" height="27" fill="none" stroke="black" stroke-width="1"/></svg>"#
    );
}

#[test]
fn special_characters_are_escaped() {
    let model = TableModel {
        caption: None,
        headers: None,
        rows: vec![vec![cell(r#"<b>&"'"#)]],
    };
    let svg = render_table_svg(&model, 480);
    assert!(svg.contains("&lt;b&gt;&amp;"), "entities escaped: {svg}");
    assert!(!svg.contains("<b>"), "no raw markup leaked: {svg}");
}

#[test]
fn caption_is_rendered_bold_above_the_grid() {
    let model = TableModel {
        caption: Some("Table 1 - fruit prices".into()),
        headers: Some(vec!["Name".into(), "Qty".into(), "Price".into()]),
        rows: vec![vec![cell("Apple"), cell("3"), cell("1.20")]],
    };
    let svg = render_table_svg(&model, 480);
    assert!(svg.contains("Table 1 - fruit prices"), "caption text: {svg}");
    assert!(text_y(&svg, "Table 1 - fruit prices") < text_y(&svg, "Name"));
    // Caption plus three bold header cells.
    assert_eq!(svg.matches(r#"font-weight="bold""#).count(), 4, "{svg}");
}

#[test]
fn nested_grid_draws_below_its_cell_text() {
    let svg = render_table_svg(&nested_sample(), 480);
    for t in ["H1", "H2", "H3", "a", "b", "c", "d", "f", "note", "inA", "inB", "inC", "inD"] {
        assert!(svg.contains(t), "cell text {t} present: {svg}");
    }
    assert!(text_y(&svg, "note") < text_y(&svg, "inA"), "{svg}");
    assert!(text_y(&svg, "inA") < text_y(&svg, "inC"), "{svg}");
}

#[test]
fn line_capacity_is_usable_width_over_char_advance() {
    assert_eq!(line_capacity(0), 1);
    assert_eq!(line_capacity(12), 1);
    assert_eq!(line_capacity(20), 1);
    assert_eq!(line_capacity(21), 1);
    assert_eq!(line_capacity(30), 2);
    assert_eq!(line_capacity(480), 52);
}

#[test]
fn wrap_is_greedy_and_hard_breaks_long_words() {
    assert_eq!(lines_of(wrap(&chars("aa bb cc"), 5)), vec!["aa bb", "cc"]);
    assert_eq!(lines_of(wrap(&chars("abcdefgh"), 3)), vec!["abc", "def", "gh"]);
    assert_eq!(lines_of(wrap(&chars("x abcdefg"), 3)), vec!["x", "abc", "def", "g"]);
    assert_eq!(lines_of(wrap(&chars(""), 4)), vec![""]);
    assert_eq!(lines_of(wrap(&chars("  \t "), 4)), vec![""]);
    assert_eq!(lines_of(wrap(&chars("abc"), 0)), vec!["a", "b", "c"]);
}

#[test]
fn wrapped_lines_never_exceed_the_capacity() {
    let text = "the quick brown fox jumps over the extraordinarily lazy dog";
    for max in 1..20 {
        let lines = wrap(&chars(text), max);
        assert!(!lines.is_empty());
        assert!(lines.iter().all(|l| l.len() <= max), "max {max}");
    }
}

#[test]
fn model_dimensions_count_the_header_row_and_the_widest_row() {
    assert_eq!(model_dimensions(&sample_3x3()), (3, 3));
    let ragged = TableModel {
        caption: None,
        headers: None,
        rows: vec![vec![cell("a")], vec![cell("b"), cell("c"), cell("d"), cell("e")]],
    };
    assert_eq!(model_dimensions(&ragged), (2, 4));
}
