//! The decisions for the `<svg>` elements inline in a chapter. A wrapper
//! (a single `<image>` with an href) becomes a plain `<img>` pointing at
//! the same href; real vector art is rendered, encoded into a new
//! `<chapter-stem>-svg-N.<ext>` resource next to the chapter, and the
//! element becomes an `<img>` of it; a malformed one stays as it is.
//!
//! Walking the chapter's tree, parsing and rendering each element, and
//! editing the tree are done outside this library: for each element still
//! attached, in document order, the caller hands in what it found and
//! applies the action it gets back.

use vstd::prelude::*;

use crate::book::Resource;
use crate::images::{out_ext, out_media_type, ImageRole};
use crate::image_plan::plan_record;
use crate::names::{unique_in, PathSet};
use crate::paths::{parent_dir_spec, stem_spec};
use crate::pipeline::{encode_rendered, encoded_view, kb, kb_of, rendered_encoding, rendered_warnings, DeviceCaps, RenderHint};
use crate::report::{warning_view, Transformation, Warning};
use crate::svg_pass::Rasterized;
use crate::text::{chars_of, decimal, push_all, push_decimal, push_str, string_of};

verus! {

/// What parsing and rendering one inline `<svg>` found: the href it wraps
/// if it is a wrapper of one, its rendering unless it is malformed, how to
/// treat the rendering, and the warnings rendering recorded.
pub struct InlineSvg {
    pub wrapper_href: Option<String>,
    pub rendered: Option<Rasterized>,
    pub hint: RenderHint,
    pub render_warnings: Vec<Warning>,
}

/// What to do with an inline `<svg>`.
pub enum InlineSvgAction {
    /// Replace it with an `<img>` whose `src` is this href, as written.
    Img(String),
    /// Replace it with an `<img>` of the new resource at this zip path.
    Rendered(String),
    /// Leave it in place.
    Keep,
}

/// The report line of an inline vector rendering.
pub open spec fn inline_detail(
    iw: u32,
    ih: u32,
    e: (Seq<u8>, crate::images::OutFormat, u32, u32, Option<u8>),
) -> Seq<char> {
    "inline vector "@ + decimal(iw as nat) + "x"@ + decimal(ih as nat) + " -> "@ + decimal(e.2 as nat)
        + "x"@ + decimal(e.3 as nat) + " "@ + crate::images::out_label(e.1) + " "@ + decimal(
        kb_of(e.0.len()),
    ) + "KB"@
}

/// The stem of the `n`th rendering of a chapter (counting from one).
pub open spec fn inline_stem(chapter_stem: Seq<char>, n: nat) -> Seq<char> {
    chapter_stem + "-svg-"@ + decimal(n)
}

/// Decide what becomes of one inline `<svg>` of the chapter at
/// `chapter_path`. `counter` counts the renderings made so far in the
/// chapter; a new one is buffered into `new_resources` under a path
/// reserved in `reserved`.
pub fn inline_svg_action(
    chapter_path: &str,
    svg: InlineSvg,
    profile: &DeviceCaps,
    quality: u8,
    counter: &mut u32,
    reserved: &mut PathSet,
    new_resources: &mut Vec<(String, Resource)>,
    transformations: &mut Vec<Transformation>,
    warnings: &mut Vec<Warning>,
) -> (r: InlineSvgAction)
    requires
        *old(counter) < u32::MAX,
    ensures
        ({
            let before = old(warnings)@.map_values(|w: Warning| warning_view(w));
            let after = final(warnings)@.map_values(|w: Warning| warning_view(w));
            let w1 = before + svg.render_warnings@.map_values(|w: Warning| warning_view(w));
            match svg.wrapper_href {
                Some(h) => {
                    &&& r == InlineSvgAction::Img(h)
                    &&& plan_record(
                        old(transformations)@,
                        final(transformations)@,
                        "svg-unwrapped"@,
                        "inline SVG wraps "@ + h@ + " - replaced with an <img>"@,
                        chapter_path@,
                    )
                    &&& after == before
                    &&& *final(counter) == *old(counter)
                    &&& final(reserved)@ == old(reserved)@
                    &&& final(new_resources)@ == old(new_resources)@
                },
                None => match svg.rendered {
                    None => {
                        &&& r is Keep
                        &&& after == w1
                        &&& final(transformations)@ == old(transformations)@
                        &&& *final(counter) == *old(counter)
                        &&& final(reserved)@ == old(reserved)@
                        &&& final(new_resources)@ == old(new_resources)@
                    },
                    Some(img) => exists|e: Option<(Seq<u8>, crate::images::OutFormat, u32, u32, Option<u8>)>|
                        #![trigger rendered_encoding(img.image, svg.hint, ImageRole::Inline, *profile, quality, e)]
                        {
                            &&& rendered_encoding(img.image, svg.hint, ImageRole::Inline, *profile, quality, e)
                            &&& after == w1 + rendered_warnings(img.image, ImageRole::Inline, *profile, chapter_path@, e)
                            &&& match e {
                                None => {
                                    &&& r is Keep
                                    &&& final(transformations)@ == old(transformations)@
                                    &&& *final(counter) == *old(counter)
                                    &&& final(reserved)@ == old(reserved)@
                                    &&& final(new_resources)@ == old(new_resources)@
                                },
                                Some(ev) => {
                                    let u = final(new_resources)@.last().0@;
                                    &&& r == InlineSvgAction::Rendered(final(new_resources)@.last().0)
                                    &&& *final(counter) == *old(counter) + 1
                                    &&& unique_in(
                                        old(reserved)@,
                                        parent_dir_spec(chapter_path@),
                                        inline_stem(stem_spec(chapter_path@), *final(counter) as nat),
                                        out_ext(ev.1),
                                        u,
                                    )
                                    &&& final(reserved)@ == old(reserved)@.insert(u)
                                    &&& final(new_resources)@.len() == old(new_resources)@.len() + 1
                                    &&& final(new_resources)@.drop_last() == old(new_resources)@
                                    &&& final(new_resources)@.last().1.data@ == ev.0
                                    &&& final(new_resources)@.last().1.media_type@ == out_media_type(ev.1)
                                    &&& plan_record(
                                        old(transformations)@,
                                        final(transformations)@,
                                        "svg-rasterized"@,
                                        inline_detail(img.intrinsic_w, img.intrinsic_h, ev),
                                        chapter_path@,
                                    )
                                },
                            }
                        },
                },
            }
        }),
{
    let ghost s0 = svg;
    let InlineSvg { wrapper_href, rendered, hint, render_warnings } = svg;
    if let Some(h) = wrapper_href {
        let mut detail: Vec<char> = Vec::new();
        push_str(&mut detail, "inline SVG wraps ");
        push_all(&mut detail, &chars_of(h.as_str()));
        push_str(&mut detail, " - replaced with an <img>");
        transformations.push(
            Transformation {
                kind: "svg-unwrapped".to_owned(),
                detail: string_of(&detail),
                file: Some(chapter_path.to_owned()),
            },
        );
        assert(transformations@.drop_last() =~= old(transformations)@);
        return InlineSvgAction::Img(h);
    }
    append_all(warnings, render_warnings);
    let img = match rendered {
        Some(img) => img,
        None => {
            return InlineSvgAction::Keep;
        },
    };
    let ghost image = img.image;
    let enc = encode_rendered(img.image, hint, ImageRole::Inline, profile, quality, warnings, chapter_path);
    let e = match enc {
        Some(e) => e,
        None => {
            assert(rendered_encoding(image, hint, ImageRole::Inline, *profile, quality, None));
            return InlineSvgAction::Keep;
        },
    };
    let ghost ev = encoded_view(e);
    assert(rendered_encoding(image, hint, ImageRole::Inline, *profile, quality, Some(ev)));
    *counter = *counter + 1;
    let dir = crate::paths::parent_dir(chapter_path);
    let mut stem = chars_of(crate::paths::stem_of(chapter_path).as_str());
    push_str(&mut stem, "-svg-");
    push_decimal(&mut stem, *counter as u128);
    let stem = string_of(&stem);
    assert(stem@ =~= inline_stem(stem_spec(chapter_path@), *counter as nat));
    let new_path = crate::names::reserve_unique(reserved, dir.as_str(), stem.as_str(), e.format.ext());
    let mut detail: Vec<char> = Vec::new();
    push_str(&mut detail, "inline vector ");
    push_decimal(&mut detail, img.intrinsic_w as u128);
    push_str(&mut detail, "x");
    push_decimal(&mut detail, img.intrinsic_h as u128);
    push_str(&mut detail, " -> ");
    push_decimal(&mut detail, e.width as u128);
    push_str(&mut detail, "x");
    push_decimal(&mut detail, e.height as u128);
    push_str(&mut detail, " ");
    push_str(&mut detail, e.format.label());
    push_str(&mut detail, " ");
    push_decimal(&mut detail, kb(e.data.len()));
    push_str(&mut detail, "KB");
    assert(detail@ =~= inline_detail(img.intrinsic_w, img.intrinsic_h, ev));
    transformations.push(
        Transformation {
            kind: "svg-rasterized".to_owned(),
            detail: string_of(&detail),
            file: Some(chapter_path.to_owned()),
        },
    );
    assert(transformations@.drop_last() =~= old(transformations)@);
    let media_type = e.format.media_type().to_owned();
    new_resources.push((crate::model::copy_string(&new_path), Resource { data: e.data, media_type }));
    assert(new_resources@.drop_last() =~= old(new_resources)@);
    InlineSvgAction::Rendered(new_path)
}

/// Append `more` to `warnings`, in order.
pub(crate) fn append_all(warnings: &mut Vec<Warning>, more: Vec<Warning>)
    ensures
        final(warnings)@.map_values(|w: Warning| warning_view(w)) == old(warnings)@.map_values(
            |w: Warning| warning_view(w),
        ) + more@.map_values(|w: Warning| warning_view(w)),
{
    let ghost before = warnings@.map_values(|w: Warning| warning_view(w));
    let ghost mv = more@.map_values(|w: Warning| warning_view(w));
    let mut rest = more;
    let ghost mut j: int = 0;
    while rest.len() > 0
        invariant
            0 <= j <= mv.len(),
            rest@.len() == mv.len() - j,
            forall|k: int| 0 <= k < rest@.len() ==> warning_view(#[trigger] rest@[k]) == mv[j + k],
            warnings@.map_values(|w: Warning| warning_view(w)) == before + mv.take(j),
        decreases rest.len(),
    {
        let ghost rb = rest@;
        let w = rest.remove(0);
        assert(warning_view(w) == mv[j]);
        assert forall|k: int| 0 <= k < rest@.len() implies warning_view(#[trigger] rest@[k]) == mv[j + 1 + k] by {
            assert(rest@[k] == rb[k + 1]);
        }
        let ghost wb = warnings@.map_values(|w: Warning| warning_view(w));
        warnings.push(w);
        assert(warnings@.map_values(|w: Warning| warning_view(w)) =~= wb.push(mv[j]));
        assert(before + mv.take(j + 1) =~= (before + mv.take(j)).push(mv[j]));
        proof {
            j = j + 1;
        }
    }
    assert(mv.take(j) =~= mv);
}

} // verus!
