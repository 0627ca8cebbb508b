use epub_tailor::book::{Book, Resource};
use epub_tailor::model::Metadata;
use epub_tailor::pipeline::{kb, DeviceCaps, Panel, RenderHint};
use epub_tailor::report::Warning;
use epub_tailor::svg::WrapperTarget;
use epub_tailor::svg_pass::{process_svgs, svg_paths, Rasterized, SvgFacts};
use image::codecs::png::PngEncoder;
use image::{DynamicImage, ExtendedColorType, ImageEncoder, RgbaImage};
use indexmap::IndexMap;

fn x4() -> DeviceCaps {
    DeviceCaps {
        panel: Panel::Gray,
        cover_max: (480, 800),
        cover_budget_bytes: 200 * 1024,
        inline_max: (480, 730),
        inline_budget_bytes: 100 * 1024,
        screen_h: 800,
    }
}

fn res(data: &[u8], mt: &str) -> Resource {
    Resource { data: data.to_vec(), media_type: mt.to_string() }
}

fn tiny_png() -> Vec<u8> {
    let mut out = Vec::new();
    PngEncoder::new(&mut out).write_image(&[0, 0, 0, 255, 255, 255], 2, 1, ExtendedColorType::Rgb8).unwrap();
    out
}

fn book(resources: Vec<(&str, Resource)>, cover: Option<&str>) -> Book {
    let mut map = IndexMap::new();
    for (p, r) in resources {
        map.insert(p.to_string(), r);
    }
    Book {
        metadata: Metadata::default(),
        resources: map,
        spine: vec![],
        toc: vec![],
        cover: cover.map(String::from),
        opf_path: "OEBPS/content.opf".to_string(),
        nav_path: None,
        ncx_path: None,
    }
}

fn drawing() -> DynamicImage {
    let mut img = RgbaImage::from_pixel(100, 50, image::Rgba([255, 255, 255, 255]));
    for x in 0..100 {
        img.put_pixel(x, 25, image::Rgba([0, 0, 0, 255]));
    }
    DynamicImage::ImageRgba8(img)
}

fn facts(wrapper: Option<WrapperTarget>, rendered: Option<Rasterized>, warnings: Vec<Warning>) -> SvgFacts {
    SvgFacts { wrapper, rendered, hint: RenderHint::LineArt, render_warnings: warnings }
}

#[test]
fn the_svg_pass_unwraps_extracts_and_rasterizes() {
    let svg = b"<svg/>";
    let mut b = book(
        vec![
            ("OEBPS/img/photo.png", res(&tiny_png(), "image/png")),
            ("OEBPS/img/wrap.svg", res(svg, "image/svg+xml")),
            ("OEBPS/img/data.svg", res(svg, "image/svg+xml")),
            ("OEBPS/img/vec.svg", res(svg, "image/svg+xml")),
            ("OEBPS/img/bad.svg", res(svg, "image/svg+xml")),
        ],
        Some("OEBPS/img/vec.svg"),
    );
    assert_eq!(svg_paths(&b).len(), 4);
    let render_warning = Warning { message: "bad.svg is malformed".to_string(), file: Some("OEBPS/img/bad.svg".to_string()) };
    let all = vec![
        facts(Some(WrapperTarget::Href("photo.png#x".to_string())), None, vec![]),
        facts(Some(WrapperTarget::DataUri(tiny_png())), None, vec![]),
        facts(None, Some(Rasterized { image: drawing(), intrinsic_w: 100, intrinsic_h: 50 }), vec![]),
        facts(Some(WrapperTarget::Href("missing.png".to_string())), None, vec![render_warning.clone()]),
    ];
    let mut transformations = Vec::new();
    let mut warnings = Vec::new();
    let plan = process_svgs(&mut b, &x4(), 82, all, &mut transformations, &mut warnings);

    assert_eq!(
        plan.renames,
        vec![
            ("OEBPS/img/wrap.svg".to_string(), "OEBPS/img/photo.png".to_string()),
            ("OEBPS/img/data.svg".to_string(), "OEBPS/img/data.png".to_string()),
            ("OEBPS/img/vec.svg".to_string(), "OEBPS/img/vec.png".to_string()),
        ]
    );
    assert_eq!(plan.finalized, vec!["OEBPS/img/vec.png".to_string()]);
    assert_eq!(plan.rasterized, 1);
    assert_eq!(b.cover.as_deref(), Some("OEBPS/img/vec.png"));
    let keys: Vec<&str> = b.resources.keys().map(|k| k.as_str()).collect();
    assert_eq!(keys, vec!["OEBPS/img/photo.png", "OEBPS/img/bad.svg", "OEBPS/img/data.png", "OEBPS/img/vec.png"]);
    assert_eq!(b.resources["OEBPS/img/data.png"].data, tiny_png());
    assert_eq!(b.resources["OEBPS/img/vec.png"].media_type, "image/png");

    let details: Vec<&str> = transformations.iter().map(|t| t.detail.as_str()).collect();
    assert_eq!(details[0], "wrap.svg wraps photo.png - dropped the SVG frame");
    assert_eq!(details[1], "data.svg wraps an embedded png - extracted to data.png");
    let size = kb(b.resources["OEBPS/img/vec.png"].data.len());
    assert_eq!(details[2], format!("vec.svg vector 100x50 -> 100x50 png {size}KB"));
    assert_eq!(transformations[2].kind, "svg-rasterized");

    assert_eq!(warnings.len(), 2);
    assert_eq!(
        warnings[0].message,
        "bad.svg wraps missing.png which could not be resolved to a book resource - rasterizing the SVG frame instead, likely producing a blank image"
    );
    assert_eq!(warnings[1], render_warning);
}
