//! The decisions for the tables of a chapter marked for rendering as
//! images. Each marked table is numbered; its rendering (of the SVG
//! `render_table_svg` lays out, rasterized outside this library) is
//! encoded as line art into a new `<chapter-stem>-table-N.<ext>` resource
//! next to the chapter, and the table becomes an image of it, captioned by
//! its own caption or `Table N`. A table whose rendering failed is
//! linearized instead, with a warning.

use vstd::prelude::*;

use crate::book::Resource;
use crate::images::{out_ext, out_label, out_media_type, ImageRole};
use crate::image_plan::plan_record;
use crate::names::{unique_in, PathSet};
use crate::paths::{parent_dir_spec, stem_spec};
use crate::pipeline::{
    encode_rendered, encoded_view, kb, kb_of, rendered_encoding, rendered_warnings, DeviceCaps,
    RenderHint,
};
use crate::report::{warning_view, Transformation, Warning};
use crate::svg_pass::Rasterized;
use crate::table_render::{col_count, model_dimensions, Cell, TableModel};
use crate::text::{chars_of, decimal, push_all, push_decimal, push_str, string_of};

verus! {

/// What to do with a marked table.
pub enum TableAction {
    /// Replace it with an image of the new resource at this zip path, with
    /// this alternative text.
    Image(String, String),
    /// Linearize it into paragraphs.
    Linearize,
}

/// Whether some body cell of `m` holds a nested table.
pub open spec fn has_nested(m: TableModel) -> bool {
    exists|r: int, c: int|
        0 <= r < m.rows@.len() && 0 <= c < m.rows@[r]@.len() && (#[trigger] m.rows@[r]@[c]).sub is Some
}

/// The report line of a rendered table.
pub open spec fn table_detail(
    m: TableModel,
    e: (Seq<u8>, crate::images::OutFormat, u32, u32, Option<u8>),
) -> Seq<char> {
    let rows = m.rows@.len() + if m.headers is Some {
        1nat
    } else {
        0nat
    };
    decimal(rows) + "x"@ + decimal(col_count(m)) + " table"@ + (if has_nested(m) {
        " (nested)"@
    } else {
        Seq::empty()
    }) + " -> "@ + decimal(e.2 as nat) + "x"@ + decimal(e.3 as nat) + " "@ + out_label(e.1) + " "@
        + decimal(kb_of(e.0.len())) + "KB"@
}

/// The alternative text of table `n`: its caption, or `Table n`.
pub open spec fn table_alt(m: TableModel, n: nat) -> Seq<char> {
    match m.caption {
        Some(c) => c@,
        None => "Table "@ + decimal(n),
    }
}

/// The warning for a table whose rendering failed.
pub open spec fn table_fallback_warning(chapter_path: Seq<char>) -> (Seq<char>, Option<Seq<char>>) {
    (
        "could not rasterize a table in "@ + chapter_path + "; linearized it instead"@,
        Some(chapter_path),
    )
}

/// Whether a body cell row holds a nested table among its first `n` cells.
fn row_has_nested(row: &Vec<Cell>) -> (r: bool)
    ensures
        r == exists|c: int| 0 <= c < row@.len() && (#[trigger] row@[c]).sub is Some,
{
    let mut c: usize = 0;
    while c < row.len()
        invariant
            c <= row@.len(),
            forall|k: int| 0 <= k < c ==> (#[trigger] row@[k]).sub is None,
        decreases row.len() - c,
    {
        if row[c].sub.is_some() {
            return true;
        }
        c += 1;
    }
    false
}

/// Whether some body cell of `m` holds a nested table.
fn nested_in(m: &TableModel) -> (r: bool)
    ensures
        r == has_nested(*m),
{
    let mut r: usize = 0;
    while r < m.rows.len()
        invariant
            r <= m.rows@.len(),
            forall|k: int, c: int|
                0 <= k < r && 0 <= c < m.rows@[k]@.len() ==> (#[trigger] m.rows@[k]@[c]).sub is None,
        decreases m.rows.len() - r,
    {
        if row_has_nested(&m.rows[r]) {
            let ghost c = choose|c: int| 0 <= c < m.rows@[r as int]@.len() && (#[trigger] m.rows@[r as int]@[c]).sub is Some;
            assert(m.rows@[r as int]@[c].sub is Some);
            return true;
        }
        r += 1;
    }
    false
}

/// Decide what becomes of one marked table of the chapter at
/// `chapter_path`, given the rasterization of its rendering (`None` when
/// that failed). `counter` numbers the marked tables of the chapter; a new
/// resource is buffered into `new_resources` under a path reserved in
/// `reserved`.
pub fn table_action(
    chapter_path: &str,
    model: &TableModel,
    rendered: Option<Rasterized>,
    profile: &DeviceCaps,
    quality: u8,
    counter: &mut u32,
    reserved: &mut PathSet,
    new_resources: &mut Vec<(String, Resource)>,
    transformations: &mut Vec<Transformation>,
    warnings: &mut Vec<Warning>,
) -> (r: TableAction)
    requires
        *old(counter) < u32::MAX,
        model.rows@.len() < usize::MAX,
    ensures
        *final(counter) == *old(counter) + 1,
        ({
            let before = old(warnings)@.map_values(|w: Warning| warning_view(w));
            let after = final(warnings)@.map_values(|w: Warning| warning_view(w));
            let n = *final(counter) as nat;
            match rendered {
                None => {
                    &&& r is Linearize
                    &&& after == before.push(table_fallback_warning(chapter_path@))
                    &&& final(transformations)@ == old(transformations)@
                    &&& final(reserved)@ == old(reserved)@
                    &&& final(new_resources)@ == old(new_resources)@
                },
                Some(img) => exists|e: Option<(Seq<u8>, crate::images::OutFormat, u32, u32, Option<u8>)>|
                    #![trigger rendered_encoding(img.image, RenderHint::LineArt, ImageRole::Inline, *profile, quality, e)]
                    {
                        &&& rendered_encoding(img.image, RenderHint::LineArt, ImageRole::Inline, *profile, quality, e)
                        &&& after == before + rendered_warnings(img.image, ImageRole::Inline, *profile, chapter_path@, e)
                        &&& match e {
                            None => {
                                &&& r is Linearize
                                &&& final(transformations)@ == old(transformations)@
                                &&& final(reserved)@ == old(reserved)@
                                &&& final(new_resources)@ == old(new_resources)@
                            },
                            Some(ev) => {
                                let u = final(new_resources)@.last().0@;
                                &&& r matches TableAction::Image(p, alt) && p@ == u && alt@ == table_alt(*model, n)
                                &&& unique_in(
                                    old(reserved)@,
                                    parent_dir_spec(chapter_path@),
                                    stem_spec(chapter_path@) + "-table-"@ + decimal(n),
                                    out_ext(ev.1),
                                    u,
                                )
                                &&& final(reserved)@ == old(reserved)@.insert(u)
                                &&& final(new_resources)@.len() == old(new_resources)@.len() + 1
                                &&& final(new_resources)@.drop_last() == old(new_resources)@
                                &&& final(new_resources)@.last().1.data@ == ev.0
                                &&& final(new_resources)@.last().1.media_type@ == out_media_type(ev.1)
                                &&& plan_record(
                                    old(transformations)@,
                                    final(transformations)@,
                                    "table-rasterized"@,
                                    table_detail(*model, ev),
                                    chapter_path@,
                                )
                            },
                        }
                    },
            }
        }),
{
    *counter = *counter + 1;
    let img = match rendered {
        Some(img) => img,
        None => {
            let ghost before = warnings@.map_values(|w: Warning| warning_view(w));
            let mut m: Vec<char> = Vec::new();
            push_str(&mut m, "could not rasterize a table in ");
            push_all(&mut m, &chars_of(chapter_path));
            push_str(&mut m, "; linearized it instead");
            warnings.push(Warning { message: string_of(&m), file: Some(chapter_path.to_owned()) });
            assert(warnings@.map_values(|w: Warning| warning_view(w)) =~= before.push(
                table_fallback_warning(chapter_path@),
            ));
            return TableAction::Linearize;
        },
    };
    let ghost image = img.image;
    let enc = encode_rendered(
        img.image,
        RenderHint::LineArt,
        ImageRole::Inline,
        profile,
        quality,
        warnings,
        chapter_path,
    );
    let e = match enc {
        Some(e) => e,
        None => {
            assert(rendered_encoding(image, RenderHint::LineArt, ImageRole::Inline, *profile, quality, None));
            return TableAction::Linearize;
        },
    };
    let ghost ev = encoded_view(e);
    assert(rendered_encoding(image, RenderHint::LineArt, ImageRole::Inline, *profile, quality, Some(ev)));
    let (rows, cols) = model_dimensions(model);
    let mut detail: Vec<char> = Vec::new();
    push_decimal(&mut detail, rows as u128);
    push_str(&mut detail, "x");
    push_decimal(&mut detail, cols as u128);
    push_str(&mut detail, " table");
    if nested_in(model) {
        push_str(&mut detail, " (nested)");
    }
    push_str(&mut detail, " -> ");
    push_decimal(&mut detail, e.width as u128);
    push_str(&mut detail, "x");
    push_decimal(&mut detail, e.height as u128);
    push_str(&mut detail, " ");
    push_str(&mut detail, e.format.label());
    push_str(&mut detail, " ");
    push_decimal(&mut detail, kb(e.data.len()));
    push_str(&mut detail, "KB");
    assert(detail@ =~= table_detail(*model, ev));
    let dir = crate::paths::parent_dir(chapter_path);
    let mut stem = chars_of(crate::paths::stem_of(chapter_path).as_str());
    push_str(&mut stem, "-table-");
    push_decimal(&mut stem, *counter as u128);
    let stem = string_of(&stem);
    let new_path = crate::names::reserve_unique(reserved, dir.as_str(), stem.as_str(), e.format.ext());
    let alt = match &model.caption {
        Some(c) => crate::model::copy_string(c),
        None => {
            let mut a: Vec<char> = Vec::new();
            push_str(&mut a, "Table ");
            push_decimal(&mut a, *counter as u128);
            string_of(&a)
        },
    };
    assert(alt@ =~= table_alt(*model, *counter as nat));
    transformations.push(
        Transformation {
            kind: "table-rasterized".to_owned(),
            detail: string_of(&detail),
            file: Some(chapter_path.to_owned()),
        },
    );
    assert(transformations@.drop_last() =~= old(transformations)@);
    let media_type = e.format.media_type().to_owned();
    new_resources.push((crate::model::copy_string(&new_path), Resource { data: e.data, media_type }));
    assert(new_resources@.drop_last() =~= old(new_resources)@);
    TableAction::Image(new_path, alt)
}

} // verus!
