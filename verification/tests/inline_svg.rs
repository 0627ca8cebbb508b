use epub_tailor::table_raster::{table_action, TableAction};
use epub_tailor::table_render::{Cell, TableModel};
use epub_tailor::inline_svg::{inline_svg_action, InlineSvg, InlineSvgAction};
use epub_tailor::names::PathSet;
use epub_tailor::pipeline::{DeviceCaps, Panel, RenderHint};
use epub_tailor::report::Warning;
use epub_tailor::svg_pass::Rasterized;
use image::{DynamicImage, RgbaImage};

fn x4() -> DeviceCaps {
    DeviceCaps {
        panel: Panel::Gray,
        cover_max: (480, 800),
        cover_budget_bytes: 200 * 1024,
        inline_max: (480, 730),
        inline_budget_bytes: 100 * 1024,
        screen_h: 800,
    }
}

fn drawing() -> DynamicImage {
    let mut img = RgbaImage::from_pixel(40, 20, image::Rgba([255, 255, 255, 255]));
    for x in 0..40 {
        img.put_pixel(x, 10, image::Rgba([0, 0, 0, 255]));
    }
    DynamicImage::ImageRgba8(img)
}

#[test]
fn inline_svgs_become_images_or_stay() {
    let mut counter = 0u32;
    let mut reserved = PathSet::new();
    reserved.insert(&"OEBPS/ch-001-svg-1.png".chars().collect::<Vec<char>>());
    let mut new_resources = Vec::new();
    let mut transformations = Vec::new();
    let mut warnings: Vec<Warning> = Vec::new();

    let wrapper = InlineSvg {
        wrapper_href: Some("img/a.png".to_string()),
        rendered: None,
        hint: RenderHint::Auto,
        render_warnings: vec![],
    };
    let a = inline_svg_action("OEBPS/ch-001.xhtml", wrapper, &x4(), 82, &mut counter, &mut reserved,
        &mut new_resources, &mut transformations, &mut warnings);
    assert!(matches!(a, InlineSvgAction::Img(ref h) if h == "img/a.png"));
    assert_eq!(transformations[0].detail, "inline SVG wraps img/a.png - replaced with an <img>");

    let vector = InlineSvg {
        wrapper_href: None,
        rendered: Some(Rasterized { image: drawing(), intrinsic_w: 40, intrinsic_h: 20 }),
        hint: RenderHint::LineArt,
        render_warnings: vec![],
    };
    let b = inline_svg_action("OEBPS/ch-001.xhtml", vector, &x4(), 82, &mut counter, &mut reserved,
        &mut new_resources, &mut transformations, &mut warnings);
    // The plain name is taken, so the first free numbered one is used.
    assert!(matches!(b, InlineSvgAction::Rendered(ref p) if p == "OEBPS/ch-001-svg-1-1.png"));
    assert_eq!(counter, 1);
    assert_eq!(new_resources.len(), 1);
    assert_eq!(new_resources[0].1.media_type, "image/png");
    assert_eq!(transformations[1].kind, "svg-rasterized");
    assert!(transformations[1].detail.starts_with("inline vector 40x20 -> 40x20 png "));

    let broken = InlineSvg {
        wrapper_href: None,
        rendered: None,
        hint: RenderHint::Auto,
        render_warnings: vec![Warning { message: "bad svg".to_string(), file: None }],
    };
    let c = inline_svg_action("OEBPS/ch-001.xhtml", broken, &x4(), 82, &mut counter, &mut reserved,
        &mut new_resources, &mut transformations, &mut warnings);
    assert!(matches!(c, InlineSvgAction::Keep));
    assert_eq!(warnings.len(), 1);
    assert_eq!(counter, 1);
}

#[test]
fn marked_tables_become_numbered_images_or_are_linearized() {
    let model = TableModel {
        caption: None,
        headers: Some(vec!["A".to_string(), "B".to_string()]),
        rows: vec![vec![
            Cell { text: "1".to_string(), sub: None },
            Cell { text: "2".to_string(), sub: None },
        ]],
    };
    let mut counter = 0u32;
    let mut reserved = PathSet::new();
    let mut new_resources = Vec::new();
    let mut transformations = Vec::new();
    let mut warnings: Vec<Warning> = Vec::new();
    let done = table_action(
        "OEBPS/ch-002.xhtml",
        &model,
        Some(Rasterized { image: drawing(), intrinsic_w: 40, intrinsic_h: 20 }),
        &x4(),
        82,
        &mut counter,
        &mut reserved,
        &mut new_resources,
        &mut transformations,
        &mut warnings,
    );
    assert!(matches!(done, TableAction::Image(ref p, ref alt) if p == "OEBPS/ch-002-table-1.png" && alt == "Table 1"));
    assert_eq!(transformations[0].kind, "table-rasterized");
    assert!(transformations[0].detail.starts_with("2x2 table -> 40x20 png "));
    let failed = table_action(
        "OEBPS/ch-002.xhtml",
        &model,
        None,
        &x4(),
        82,
        &mut counter,
        &mut reserved,
        &mut new_resources,
        &mut transformations,
        &mut warnings,
    );
    assert!(matches!(failed, TableAction::Linearize));
    assert_eq!(counter, 2);
    assert_eq!(warnings[0].message, "could not rasterize a table in OEBPS/ch-002.xhtml; linearized it instead");
}
