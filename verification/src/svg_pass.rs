//! The SVG pass over a book's resources. A wrapper SVG (one `<image>` in a
//! frame) is replaced by what it frames: the resource its href names, or
//! its embedded raster payload as a resource of its own. Real vector art
//! is replaced by its device-encoded rendering. Every replacement is
//! recorded so references can follow.
//!
//! Parsing the SVG and rendering it are done outside this library; what
//! they found for each SVG resource comes in as `SvgFacts`.

use vstd::prelude::*;

use crate::book::{
    key_index, keys_distinct, lemma_key_index, lemma_key_index_at, resource_at, resource_count,
    resource_entries, resource_insert, resource_remove, Book, Resource,
};
use crate::image_plan::{paths_reserved, plan_record, reserved_paths};
use crate::images::{in_format_names, out_ext, out_label, out_media_type, sniff_spec, ImageRole};
use crate::model::opt_view;
use crate::names::{unique_in, PathSet};
use crate::paths::{basename_spec, parent_dir_spec, path_end, stem_spec};
use crate::pipeline::{
    encode_rendered, encoded_view, kb, kb_of, rendered_encoding, rendered_warnings, DeviceCaps,
    RenderHint,
};
use crate::reachable::normalize_href_spec;
use crate::report::{warning_view, Transformation, Warning};
use crate::svg::WrapperTarget;
use crate::text::{chars_of, decimal, push_all, push_decimal, push_str, same_chars, string_of};
use image::DynamicImage;

verus! {

/// A rendering of vector art: the image and the art's intrinsic size.
pub struct Rasterized {
    pub image: DynamicImage,
    pub intrinsic_w: u32,
    pub intrinsic_h: u32,
}

/// What parsing and rendering one SVG resource found: what it wraps, if
/// it is a wrapper; its rendering, unless it is malformed; how to treat
/// the rendering; and the warnings rendering recorded.
pub struct SvgFacts {
    pub wrapper: Option<WrapperTarget>,
    pub rendered: Option<Rasterized>,
    pub hint: RenderHint,
    pub render_warnings: Vec<Warning>,
}

/// What the SVG pass did: old path -> the raster that replaced it, the
/// rasterized outputs (already device-encoded, so the image pass leaves
/// them alone), and how many SVGs were rasterized.
pub struct SvgPlan {
    pub renames: Vec<(String, String)>,
    pub finalized: Vec<String>,
    pub rasterized: u32,
}

/// The paths of the SVG entries among the first `n`, in order.
pub open spec fn svg_paths_in(es: Seq<(Seq<char>, Seq<u8>, Seq<char>)>, n: int) -> Seq<Seq<char>>
    decreases n,
{
    if n <= 0 {
        Seq::empty()
    } else {
        let prev = svg_paths_in(es, n - 1);
        if es[n - 1].2 == "image/svg+xml"@ {
            prev.push(es[n - 1].0)
        } else {
            prev
        }
    }
}

/// The path a wrapper's href names, resolved next to the SVG.
pub open spec fn href_target(path: Seq<char>, href: Seq<char>) -> Seq<char> {
    normalize_href_spec(parent_dir_spec(path), href.take(path_end(href)))
}

/// The resource a wrapper SVG is replaced by, when it names one the book
/// holds.
pub open spec fn unwrap_target(
    es: Seq<(Seq<char>, Seq<u8>, Seq<char>)>,
    path: Seq<char>,
    w: Option<WrapperTarget>,
) -> Option<Seq<char>> {
    match w {
        Some(WrapperTarget::Href(h)) => if key_index(es, href_target(path, h@)) >= 0 {
            Some(href_target(path, h@))
        } else {
            None
        },
        _ => None,
    }
}

/// The raster payload a wrapper SVG embeds, when it sniffs as one.
pub open spec fn extracted(w: Option<WrapperTarget>) -> Option<(Seq<u8>, crate::images::InFormat)> {
    match w {
        Some(WrapperTarget::DataUri(b)) => match sniff_spec(b@) {
            Some(f) => Some((b@, f)),
            None => None,
        },
        _ => None,
    }
}

/// The warning for a wrapper whose href names nothing the book holds.
pub open spec fn unresolved_warning(path: Seq<char>, href: Seq<char>) -> (
    Seq<char>,
    Option<Seq<char>>,
) {
    (
        basename_spec(path) + " wraps "@ + href
            + " which could not be resolved to a book resource - rasterizing the SVG frame instead, likely producing a blank image"@,
        Some(path),
    )
}

/// The warnings resolving a wrapper's href records.
pub open spec fn unresolved(
    es: Seq<(Seq<char>, Seq<u8>, Seq<char>)>,
    path: Seq<char>,
    w: Option<WrapperTarget>,
) -> Seq<(Seq<char>, Option<Seq<char>>)> {
    match w {
        Some(WrapperTarget::Href(h)) => if key_index(es, href_target(path, h@)) >= 0 {
            Seq::empty()
        } else {
            seq![unresolved_warning(path, h@)]
        },
        _ => Seq::empty(),
    }
}

/// The cover after the resource at `path` is replaced by `new`.
pub open spec fn cover_after(cover: Option<String>, path: Seq<char>, new: Seq<char>) -> Option<
    Seq<char>,
> {
    if opt_view(cover) == Some(path) {
        Some(new)
    } else {
        opt_view(cover)
    }
}

/// The plan after recording that `path` became `u` (a rasterized output,
/// or not).
pub open spec fn renamed_plan(
    op: SvgPlan,
    fp: SvgPlan,
    path: Seq<char>,
    u: Seq<char>,
    rasterized: bool,
) -> bool {
    &&& fp.renames@.len() == op.renames@.len() + 1
    &&& fp.renames@.drop_last() == op.renames@
    &&& fp.renames@.last().0@ == path
    &&& fp.renames@.last().1@ == u
    &&& fp.finalized@.map_values(|s: String| s@) == if rasterized {
        op.finalized@.map_values(|s: String| s@).push(u)
    } else {
        op.finalized@.map_values(|s: String| s@)
    }
    &&& fp.rasterized == op.rasterized + if rasterized {
        1int
    } else {
        0int
    }
}

/// The report line of a rasterized SVG.
pub open spec fn vector_detail(
    path: Seq<char>,
    iw: u32,
    ih: u32,
    e: (Seq<u8>, crate::images::OutFormat, u32, u32, Option<u8>),
) -> Seq<char> {
    basename_spec(path) + " vector "@ + decimal(iw as nat) + "x"@ + decimal(ih as nat) + " -> "@
        + decimal(e.2 as nat) + "x"@ + decimal(e.3 as nat) + " "@ + out_label(e.1) + " "@
        + decimal(kb_of(e.0.len())) + "KB"@
}

/// Where the SVG pass stands: the book, the reserved paths, the plan so
/// far, the report's transformations and its warnings.
pub type SvgState = (
    Book,
    Set<Seq<char>>,
    SvgPlan,
    Seq<Transformation>,
    Seq<(Seq<char>, Option<Seq<char>>)>,
);

/// Whether `t` follows `s` by replacing the SVG at `path` with its
/// rendering `img` (of intrinsic size `iw` x `ih`), encoded for `role`,
/// the warnings having reached `w1` before encoding.
pub open spec fn rasterize_step(
    s: SvgState,
    t: SvgState,
    path: Seq<char>,
    img: DynamicImage,
    iw: u32,
    ih: u32,
    hint: RenderHint,
    role: ImageRole,
    caps: DeviceCaps,
    quality: u8,
    w1: Seq<(Seq<char>, Option<Seq<char>>)>,
) -> bool {
    let es = resource_entries(s.0.resources);
    let fs = resource_entries(t.0.resources);
    let u = t.2.renames@.last().1@;
    exists|e: Option<(Seq<u8>, crate::images::OutFormat, u32, u32, Option<u8>)>|
        #![trigger rendered_encoding(img, hint, role, caps, quality, e)]
        {
            &&& rendered_encoding(img, hint, role, caps, quality, e)
            &&& t.4 == w1 + rendered_warnings(img, role, caps, path, e)
            &&& match e {
                None => t.0 == s.0 && t.1 == s.1 && t.2 == s.2 && t.3 == s.3,
                Some(ev) => {
                    &&& unique_in(s.1, parent_dir_spec(path), stem_spec(path), out_ext(ev.1), u)
                    &&& t.1 == s.1.insert(u)
                    &&& fs == es.remove(key_index(es, path)).push((u, ev.0, out_media_type(ev.1)))
                    &&& opt_view(t.0.cover) == cover_after(s.0.cover, path, u)
                    &&& renamed_plan(s.2, t.2, path, u, true)
                    &&& plan_record(s.3, t.3, "svg-rasterized"@, vector_detail(path, iw, ih, ev), path)
                },
            }
        }
}

/// Whether `t` follows `s` by the SVG resource at `path`, given what
/// parsing and rendering it found.
pub open spec fn svg_step(
    s: SvgState,
    t: SvgState,
    path: Seq<char>,
    f: SvgFacts,
    caps: DeviceCaps,
    quality: u8,
) -> bool {
    let es = resource_entries(s.0.resources);
    let fs = resource_entries(t.0.resources);
    let idx = key_index(es, path);
    let dir = parent_dir_spec(path);
    let stem = stem_spec(path);
    let u = t.2.renames@.last().1@;
    match unwrap_target(es, path, f.wrapper) {
        Some(target) => {
            &&& fs == es.remove(idx)
            &&& opt_view(t.0.cover) == cover_after(s.0.cover, path, target)
            &&& t.1 == s.1
            &&& renamed_plan(s.2, t.2, path, target, false)
            &&& plan_record(
                s.3,
                t.3,
                "svg-unwrapped"@,
                basename_spec(path) + " wraps "@ + basename_spec(target)
                    + " - dropped the SVG frame"@,
                path,
            )
            &&& t.4 == s.4
        },
        None => match extracted(f.wrapper) {
            Some((bytes, fmt)) => {
                let (ext, mt) = in_format_names(fmt);
                &&& unique_in(s.1, dir, stem, ext, u)
                &&& t.1 == s.1.insert(u)
                &&& fs == es.remove(idx).push((u, bytes, mt))
                &&& opt_view(t.0.cover) == cover_after(s.0.cover, path, u)
                &&& renamed_plan(s.2, t.2, path, u, false)
                &&& plan_record(
                    s.3,
                    t.3,
                    "svg-unwrapped"@,
                    basename_spec(path) + " wraps an embedded "@ + ext + " - extracted to "@
                        + basename_spec(u),
                    path,
                )
                &&& t.4 == s.4
            },
            None => {
                let w1 = s.4 + unresolved(es, path, f.wrapper) + f.render_warnings@.map_values(
                    |w: Warning| warning_view(w),
                );
                let role = if opt_view(s.0.cover) == Some(path) {
                    ImageRole::Cover
                } else {
                    ImageRole::Inline
                };
                match f.rendered {
                    None => t.0 == s.0 && t.1 == s.1 && t.2 == s.2 && t.3 == s.3 && t.4 == w1,
                    Some(r) => rasterize_step(
                        s,
                        t,
                        path,
                        r.image,
                        r.intrinsic_w,
                        r.intrinsic_h,
                        f.hint,
                        role,
                        caps,
                        quality,
                        w1,
                    ),
                }
            },
        },
    }
}

/// Entries with the one at `idx` removed still hold only reserved paths.
proof fn lemma_remove_reserved(
    es: Seq<(Seq<char>, Seq<u8>, Seq<char>)>,
    reserved: Set<Seq<char>>,
    idx: int,
)
    requires
        paths_reserved(es, reserved),
        0 <= idx < es.len(),
    ensures
        paths_reserved(es.remove(idx), reserved),
{
    let r = es.remove(idx);
    assert forall|i: int| 0 <= i < r.len() implies reserved.contains(#[trigger] r[i].0) by {
        if i < idx {
            assert(r[i] == es[i]);
        } else {
            assert(r[i] == es[i + 1]);
        }
    }
}

/// Whether the book's cover is `path`.
fn is_cover_path(book: &Book, path: &str) -> (r: bool)
    ensures
        r == (opt_view(book.cover) == Some(path@)),
{
    match &book.cover {
        Some(c) => same_chars(&chars_of(c.as_str()), &chars_of(path)),
        None => false,
    }
}

/// Drop the resource at `path`, pointing the cover at `target` if it was
/// `path`.
fn drop_for(book: &mut Book, path: &str, target: &str)
    requires
        key_index(resource_entries(old(book).resources), path@) >= 0,
    ensures
        resource_entries(final(book).resources) == resource_entries(old(book).resources).remove(
            key_index(resource_entries(old(book).resources), path@),
        ),
        opt_view(final(book).cover) == cover_after(old(book).cover, path@, target@),
        final(book).metadata == old(book).metadata,
        final(book).spine == old(book).spine,
        final(book).toc == old(book).toc,
        final(book).opf_path == old(book).opf_path,
        final(book).nav_path == old(book).nav_path,
        final(book).ncx_path == old(book).ncx_path,
{
    let cover = is_cover_path(book, path);
    resource_remove(&mut book.resources, path);
    if cover {
        book.cover = Some(target.to_owned());
    }
}

/// Move the resource at `path` to a fresh path next to it, named after its
/// stem with extension `ext`, holding `data` of `media_type`; the cover
/// follows. Returns the new path.
fn move_to_fresh(
    book: &mut Book,
    path: &str,
    reserved: &mut PathSet,
    ext: &str,
    data: Vec<u8>,
    media_type: &str,
) -> (u: String)
    requires
        key_index(resource_entries(old(book).resources), path@) >= 0,
        paths_reserved(resource_entries(old(book).resources), old(reserved)@),
    ensures
        unique_in(old(reserved)@, parent_dir_spec(path@), stem_spec(path@), ext@, u@),
        final(reserved)@ == old(reserved)@.insert(u@),
        resource_entries(final(book).resources) == resource_entries(old(book).resources).remove(
            key_index(resource_entries(old(book).resources), path@),
        ).push((u@, data@, media_type@)),
        paths_reserved(resource_entries(final(book).resources), final(reserved)@),
        opt_view(final(book).cover) == cover_after(old(book).cover, path@, u@),
        final(book).metadata == old(book).metadata,
        final(book).spine == old(book).spine,
        final(book).toc == old(book).toc,
        final(book).opf_path == old(book).opf_path,
        final(book).nav_path == old(book).nav_path,
        final(book).ncx_path == old(book).ncx_path,
{
    let ghost es = resource_entries(book.resources);
    let ghost idx = key_index(es, path@);
    proof {
        lemma_key_index(es, path@);
        lemma_remove_reserved(es, reserved@, idx);
    }
    let dir = crate::paths::parent_dir(path);
    let stem = crate::paths::stem_of(path);
    let unique = crate::names::reserve_unique(reserved, dir.as_str(), stem.as_str(), ext);
    let cover = is_cover_path(book, path);
    resource_remove(&mut book.resources, path);
    let ghost removed = es.remove(idx);
    proof {
        lemma_key_index(removed, unique@);
        if key_index(removed, unique@) >= 0 {
            assert(old(reserved)@.contains(removed[key_index(removed, unique@)].0));
        }
    }
    resource_insert(
        &mut book.resources,
        crate::model::copy_string(&unique),
        Resource { data, media_type: media_type.to_owned() },
    );
    if cover {
        book.cover = Some(crate::model::copy_string(&unique));
    }
    proof {
        let fe = resource_entries(book.resources);
        assert forall|i: int| 0 <= i < fe.len() implies reserved@.contains(#[trigger] fe[i].0) by {
            if i < removed.len() {
                assert(fe[i] == removed[i]);
            }
        }
    }
    unique
}

/// Append a transformation of `kind` with `detail` about `path`.
fn record(transformations: &mut Vec<Transformation>, kind: &str, detail: &Vec<char>, path: &str)
    ensures
        plan_record(old(transformations)@, final(transformations)@, kind@, detail@, path@),
{
    transformations.push(
        Transformation {
            kind: kind.to_owned(),
            detail: string_of(detail),
            file: Some(path.to_owned()),
        },
    );
    assert(final(transformations)@.drop_last() =~= old(transformations)@);
}

/// Apply the SVG pass to the SVG resource at `path`, given what parsing
/// and rendering it found.
pub fn process_one_svg(
    book: &mut Book,
    path: &str,
    facts: SvgFacts,
    profile: &DeviceCaps,
    quality: u8,
    reserved: &mut PathSet,
    plan: &mut SvgPlan,
    transformations: &mut Vec<Transformation>,
    warnings: &mut Vec<Warning>,
)
    requires
        key_index(resource_entries(old(book).resources), path@) >= 0,
        paths_reserved(resource_entries(old(book).resources), old(reserved)@),
        old(plan).rasterized < u32::MAX,
    ensures
        svg_step(
            (
                *old(book),
                old(reserved)@,
                *old(plan),
                old(transformations)@,
                old(warnings)@.map_values(|w: Warning| warning_view(w)),
            ),
            (
                *final(book),
                final(reserved)@,
                *final(plan),
                final(transformations)@,
                final(warnings)@.map_values(|w: Warning| warning_view(w)),
            ),
            path@,
            facts,
            *profile,
            quality,
        ),
        paths_reserved(resource_entries(final(book).resources), final(reserved)@),
        final(plan).rasterized <= old(plan).rasterized + 1,
        final(book).metadata == old(book).metadata,
        final(book).spine == old(book).spine,
        final(book).toc == old(book).toc,
        final(book).opf_path == old(book).opf_path,
        final(book).nav_path == old(book).nav_path,
        final(book).ncx_path == old(book).ncx_path,
{
    let ghost es = resource_entries(book.resources);
    let ghost idx = key_index(es, path@);
    let ghost f0 = facts;
    let ghost w0 = warnings@.map_values(|w: Warning| warning_view(w));
    proof {
        lemma_key_index(es, path@);
    }
    let SvgFacts { wrapper, rendered, hint, render_warnings } = facts;
    // A wrapper naming a resource the book holds is replaced by it.
    let mut target: Option<String> = None;
    let mut unresolved_href: Option<String> = None;
    match &wrapper {
        Some(WrapperTarget::Href(h)) => {
            let dir = crate::paths::parent_dir(path);
            let t = crate::reachable::normalize_href(
                dir.as_str(),
                crate::paths::path_part(h.as_str()).as_str(),
            );
            if crate::book::has_resource(&book.resources, t.as_str()) {
                target = Some(t);
            } else {
                unresolved_href = Some(crate::model::copy_string(h));
            }
        },
        _ => {},
    }
    assert(unwrap_target(es, path@, wrapper) == match target {
        Some(t) => Some(t@),
        None => None::<Seq<char>>,
    });
    if let Some(t) = target {
        drop_for(book, path, t.as_str());
        plan.renames.push((path.to_owned(), crate::model::copy_string(&t)));
        let mut detail = chars_of(crate::paths::basename(path).as_str());
        push_str(&mut detail, " wraps ");
        push_all(&mut detail, &chars_of(crate::paths::basename(t.as_str()).as_str()));
        push_str(&mut detail, " - dropped the SVG frame");
        record(transformations, "svg-unwrapped", &detail, path);
        proof {
            lemma_remove_reserved(es, reserved@, idx);
            assert(plan.renames@.drop_last() =~= old(plan).renames@);
        }
        return;
    }
    // A wrapper embedding a raster payload is replaced by that payload.
    match &wrapper {
        Some(WrapperTarget::DataUri(b)) => match crate::images::sniff(b.as_slice()) {
            Some(fmt) => {
                let (ext, mt) = fmt.ext_and_media_type();
                let u = move_to_fresh(book, path, reserved, ext, crate::book::copy_bytes(b), mt);
                plan.renames.push((path.to_owned(), crate::model::copy_string(&u)));
                let mut detail = chars_of(crate::paths::basename(path).as_str());
                push_str(&mut detail, " wraps an embedded ");
                push_str(&mut detail, ext);
                push_str(&mut detail, " - extracted to ");
                push_all(&mut detail, &chars_of(crate::paths::basename(u.as_str()).as_str()));
                record(transformations, "svg-unwrapped", &detail, path);
                proof {
                    assert(plan.renames@.drop_last() =~= old(plan).renames@);
                }
                return;
            },
            None => {},
        },
        _ => {},
    }
    assert(extracted(wrapper) is None);
    // Anything else is vector art: its rendering replaces it.
    match unresolved_href {
        Some(h) => {
            let mut m = chars_of(crate::paths::basename(path).as_str());
            push_str(&mut m, " wraps ");
            push_all(&mut m, &chars_of(h.as_str()));
            push_str(
                &mut m,
                " which could not be resolved to a book resource - rasterizing the SVG frame instead, likely producing a blank image",
            );
            warnings.push(Warning { message: string_of(&m), file: Some(path.to_owned()) });
            assert(warnings@.map_values(|w: Warning| warning_view(w)) =~= w0 + unresolved(
                es,
                path@,
                wrapper,
            ));
        },
        None => {
            assert(warnings@.map_values(|w: Warning| warning_view(w)) =~= w0 + unresolved(
                es,
                path@,
                wrapper,
            ));
        },
    }
    crate::inline_svg::append_all(warnings, render_warnings);
    let r = match rendered {
        Some(r) => r,
        None => {
            return;
        },
    };
    let role = if is_cover_path(book, path) {
        ImageRole::Cover
    } else {
        ImageRole::Inline
    };
    let ghost img = r.image;
    let ghost w1 = warnings@.map_values(|w: Warning| warning_view(w));
    let enc = encode_rendered(r.image, hint, role, profile, quality, warnings, path);
    let e = match enc {
        Some(e) => e,
        None => {
            assert(rendered_encoding(img, hint, role, *profile, quality, None));
            assert(warnings@.map_values(|w: Warning| warning_view(w)) == w1 + rendered_warnings(
                img,
                role,
                *profile,
                path@,
                None,
            ));
            assert(role == if opt_view(old(book).cover) == Some(path@) {
                ImageRole::Cover
            } else {
                ImageRole::Inline
            });
            assert(rasterize_step(
                (*old(book), old(reserved)@, *old(plan), old(transformations)@, w0),
                (
                    *book,
                    reserved@,
                    *plan,
                    transformations@,
                    warnings@.map_values(|w: Warning| warning_view(w)),
                ),
                path@,
                img,
                r.intrinsic_w,
                r.intrinsic_h,
                hint,
                role,
                *profile,
                quality,
                w1,
            ));
            assert(w1 == w0 + unresolved(es, path@, f0.wrapper) + f0.render_warnings@.map_values(
                |w: Warning| warning_view(w),
            ));
            return;
        },
    };
    let ghost ev = encoded_view(e);
    assert(rendered_encoding(img, hint, role, *profile, quality, Some(ev)));
    let mut detail = chars_of(crate::paths::basename(path).as_str());
    push_str(&mut detail, " vector ");
    push_decimal(&mut detail, r.intrinsic_w as u128);
    push_str(&mut detail, "x");
    push_decimal(&mut detail, r.intrinsic_h as u128);
    push_str(&mut detail, " -> ");
    push_decimal(&mut detail, e.width as u128);
    push_str(&mut detail, "x");
    push_decimal(&mut detail, e.height as u128);
    push_str(&mut detail, " ");
    push_str(&mut detail, e.format.label());
    push_str(&mut detail, " ");
    push_decimal(&mut detail, kb(e.data.len()));
    push_str(&mut detail, "KB");
    assert(detail@ =~= vector_detail(path@, r.intrinsic_w, r.intrinsic_h, ev));
    let ghost wbefore = warnings@.map_values(|w: Warning| warning_view(w));
    let u = move_to_fresh(book, path, reserved, e.format.ext(), e.data, e.format.media_type());
    plan.finalized.push(crate::model::copy_string(&u));
    plan.renames.push((path.to_owned(), u));
    record(transformations, "svg-rasterized", &detail, path);
    plan.rasterized = plan.rasterized + 1;
    proof {
        assert(plan.renames@.drop_last() =~= old(plan).renames@);
        assert(plan.finalized@.map_values(|s: String| s@) =~= old(plan).finalized@.map_values(
            |s: String| s@,
        ).push(u@));
        assert(rendered_encoding(img, hint, role, *profile, quality, Some(ev)));
        assert(rasterize_step(
            (*old(book), old(reserved)@, *old(plan), old(transformations)@, w0),
            (
                *book,
                reserved@,
                *plan,
                transformations@,
                warnings@.map_values(|w: Warning| warning_view(w)),
            ),
            path@,
            img,
            r.intrinsic_w,
            r.intrinsic_h,
            hint,
            role,
            *profile,
            quality,
            w1,
        ));
    }
}

/// The paths of the book's SVG resources, in manifest order.
pub fn svg_paths(book: &Book) -> (r: Vec<String>)
    ensures
        r@.map_values(|s: String| s@) == svg_paths_in(
            resource_entries(book.resources),
            resource_entries(book.resources).len() as int,
        ),
{
    let ghost es = resource_entries(book.resources);
    let n = resource_count(&book.resources);
    let svg = chars_of("image/svg+xml");
    let mut out: Vec<String> = Vec::new();
    let mut i: usize = 0;
    while i < n
        invariant
            i <= n,
            n == es.len(),
            es == resource_entries(book.resources),
            svg@ == "image/svg+xml"@,
            out@.map_values(|s: String| s@) == svg_paths_in(es, i as int),
        decreases n - i,
    {
        let ghost before = out@.map_values(|s: String| s@);
        match resource_at(&book.resources, i) {
            Some((path, res)) => {
                assert(crate::book::entry_of(path@, *res) == es[i as int]);
                if same_chars(&chars_of(res.media_type.as_str()), &svg) {
                    out.push(crate::model::copy_string(path));
                    assert(out@.map_values(|s: String| s@) =~= before.push(path@));
                }
            },
            None => {},
        }
        i += 1;
    }
    out
}

/// The SVG paths among the first `n` entries are entries of their own,
/// found in increasing order.
proof fn lemma_svg_paths_found(es: Seq<(Seq<char>, Seq<u8>, Seq<char>)>, n: int)
    requires
        keys_distinct(es),
        0 <= n <= es.len(),
    ensures
        svg_paths_in(es, n).len() <= n,
        forall|a: int|
            0 <= a < svg_paths_in(es, n).len() ==> 0 <= #[trigger] key_index(
                es,
                svg_paths_in(es, n)[a],
            ) < n,
        forall|a: int, b: int|
            0 <= a < b < svg_paths_in(es, n).len() ==> key_index(
                es,
                #[trigger] svg_paths_in(es, n)[a],
            ) < key_index(es, #[trigger] svg_paths_in(es, n)[b]),
    decreases n,
{
    if n > 0 {
        lemma_svg_paths_found(es, n - 1);
        lemma_key_index_at(es, n - 1);
        let prev = svg_paths_in(es, n - 1);
        let c = svg_paths_in(es, n);
        assert forall|a: int| 0 <= a < c.len() implies 0 <= #[trigger] key_index(es, c[a]) < n by {
            if a < prev.len() {
                assert(c[a] == prev[a]);
            }
        }
        assert forall|a: int, b: int| 0 <= a < b < c.len() implies key_index(es, #[trigger] c[a])
            < key_index(es, #[trigger] c[b]) by {
            assert(c[a] == prev[a]);
            if b < prev.len() {
                assert(c[b] == prev[b]);
            }
        }
    }
}

/// A path held at position `j` is found.
proof fn lemma_found(es: Seq<(Seq<char>, Seq<u8>, Seq<char>)>, j: int, k: Seq<char>)
    requires
        0 <= j < es.len(),
        es[j].0 == k,
    ensures
        key_index(es, k) >= 0,
{
    lemma_key_index(es, k);
}

/// A path still held after removing the entry at `idx` (and maybe adding
/// one) when it was held elsewhere.
proof fn lemma_kept_after_remove(
    es: Seq<(Seq<char>, Seq<u8>, Seq<char>)>,
    fs: Seq<(Seq<char>, Seq<u8>, Seq<char>)>,
    idx: int,
    k: Seq<char>,
)
    requires
        0 <= idx < es.len(),
        key_index(es, k) >= 0,
        es[idx].0 != k,
        fs.len() >= es.len() - 1,
        forall|i: int| 0 <= i < es.len() - 1 ==> #[trigger] fs[i] == es.remove(idx)[i],
    ensures
        key_index(fs, k) >= 0,
{
    lemma_key_index(es, k);
    let j = key_index(es, k);
    let jj = if j < idx {
        j
    } else {
        j - 1
    };
    assert(fs[jj] == es.remove(idx)[jj]);
    lemma_found(fs, jj, k);
}

/// A path other than the one an SVG step was for is still held after it.
proof fn lemma_svg_step_keeps(
    s: SvgState,
    t: SvgState,
    path: Seq<char>,
    f: SvgFacts,
    caps: DeviceCaps,
    quality: u8,
    k: Seq<char>,
)
    requires
        svg_step(s, t, path, f, caps, quality),
        key_index(resource_entries(s.0.resources), path) >= 0,
        key_index(resource_entries(s.0.resources), k) >= 0,
        k != path,
    ensures
        key_index(resource_entries(t.0.resources), k) >= 0,
{
    let es = resource_entries(s.0.resources);
    let fs = resource_entries(t.0.resources);
    let idx = key_index(es, path);
    lemma_key_index(es, path);
    match unwrap_target(es, path, f.wrapper) {
        Some(_) => {
            lemma_kept_after_remove(es, fs, idx, k);
        },
        None => match extracted(f.wrapper) {
            Some(_) => {
                lemma_kept_after_remove(es, fs, idx, k);
            },
            None => match f.rendered {
                None => {},
                Some(r) => {
                    let role = if opt_view(s.0.cover) == Some(path) {
                        ImageRole::Cover
                    } else {
                        ImageRole::Inline
                    };
                    let w1 = s.4 + unresolved(es, path, f.wrapper) + f.render_warnings@.map_values(
                        |w: Warning| warning_view(w),
                    );
                    assert(rasterize_step(
                        s,
                        t,
                        path,
                        r.image,
                        r.intrinsic_w,
                        r.intrinsic_h,
                        f.hint,
                        role,
                        caps,
                        quality,
                        w1,
                    ));
                    let u = t.2.renames@.last().1@;
                    assert(exists|e: Option<(Seq<u8>, crate::images::OutFormat, u32, u32, Option<u8>)>|
                        #[trigger] rendered_encoding(r.image, f.hint, role, caps, quality, e) && (
                        e is None ==> t.0 == s.0) && (e is Some ==> fs == es.remove(idx).push(
                            (u, (e->0).0, out_media_type((e->0).1)),
                        )));
                    let e = choose|e: Option<(Seq<u8>, crate::images::OutFormat, u32, u32, Option<u8>)>|
                        #[trigger] rendered_encoding(r.image, f.hint, role, caps, quality, e) && (
                        e is None ==> t.0 == s.0) && (e is Some ==> fs == es.remove(idx).push(
                            (u, (e->0).0, out_media_type((e->0).1)),
                        ));
                    if e is Some {
                        lemma_kept_after_remove(es, fs, idx, k);
                    }
                },
            },
        },
    }
}

/// Whether `states` go SVG by SVG through `paths`, in order, each with
/// what parsing and rendering it found (`facts`).
pub open spec fn svg_chain(
    states: Seq<SvgState>,
    facts: Seq<SvgFacts>,
    paths: Seq<Seq<char>>,
    caps: DeviceCaps,
    quality: u8,
) -> bool {
    &&& states.len() == paths.len() + 1
    &&& facts.len() == paths.len()
    &&& forall|i: int|
        0 <= i < paths.len() ==> #[trigger] svg_step(
            states[i],
            states[i + 1],
            paths[i],
            facts[i],
            caps,
            quality,
        )
}

/// Run the SVG pass over every SVG resource of the book, in manifest
/// order: `facts[i]` is what parsing and rendering the `i`th of them
/// found (see `svg_paths`). Wrappers are replaced by what they frame,
/// vector art by its device-encoded rendering; each replacement is
/// recorded in the plan and the report.
pub fn process_svgs(
    book: &mut Book,
    device: &DeviceCaps,
    jpeg_quality: u8,
    facts: Vec<SvgFacts>,
    transformations: &mut Vec<Transformation>,
    warnings: &mut Vec<Warning>,
) -> (plan: SvgPlan)
    requires
        resource_entries(old(book).resources).len() < u32::MAX,
        facts@.len() == svg_paths_in(
            resource_entries(old(book).resources),
            resource_entries(old(book).resources).len() as int,
        ).len(),
    ensures
        exists|states: Seq<SvgState>|
            #![trigger svg_chain(
                states,
                facts@,
                svg_paths_in(
                    resource_entries(old(book).resources),
                    resource_entries(old(book).resources).len() as int,
                ),
                *device,
                jpeg_quality,
            )]
            {
                &&& svg_chain(
                    states,
                    facts@,
                    svg_paths_in(
                        resource_entries(old(book).resources),
                        resource_entries(old(book).resources).len() as int,
                    ),
                    *device,
                    jpeg_quality,
                )
                &&& states[0].0 == *old(book)
                &&& paths_reserved(resource_entries(old(book).resources), states[0].1)
                &&& states[0].2.renames@.len() == 0
                &&& states[0].2.finalized@.len() == 0
                &&& states[0].2.rasterized == 0
                &&& states[0].3 == old(transformations)@
                &&& states[0].4 == old(warnings)@.map_values(|w: Warning| warning_view(w))
                &&& states.last().0 == *final(book)
                &&& states.last().2 == plan
                &&& states.last().3 == final(transformations)@
                &&& states.last().4 == final(warnings)@.map_values(|w: Warning| warning_view(w))
            },
        final(book).metadata == old(book).metadata,
        final(book).spine == old(book).spine,
        final(book).toc == old(book).toc,
        final(book).opf_path == old(book).opf_path,
        final(book).nav_path == old(book).nav_path,
        final(book).ncx_path == old(book).ncx_path,
{
    let ghost es0 = resource_entries(book.resources);
    let ghost pv = svg_paths_in(es0, es0.len() as int);
    let ghost fv = facts@;
    let paths = svg_paths(book);
    let mut reserved = reserved_paths(book);
    proof {
        lemma_svg_paths_found(es0, es0.len() as int);
    }
    let mut plan = SvgPlan { renames: Vec::new(), finalized: Vec::new(), rasterized: 0 };
    let ghost first: SvgState = (
        *book,
        reserved@,
        plan,
        transformations@,
        warnings@.map_values(|w: Warning| warning_view(w)),
    );
    let ghost mut states: Seq<SvgState> = seq![first];
    let ghost b0 = *book;
    let mut rest = facts;
    let n = paths.len();
    let mut i: usize = 0;
    while i < n
        invariant
            i <= n,
            n == pv.len(),
            fv.len() == n,
            rest@ == fv.skip(i as int),
            paths@.map_values(|s: String| s@) == pv,
            pv.len() <= es0.len() < u32::MAX,
            forall|a: int, b: int| 0 <= a < b < pv.len() ==> #[trigger] pv[a] != #[trigger] pv[b],
            forall|j: int|
                i <= j < n ==> key_index(resource_entries(book.resources), #[trigger] pv[j]) >= 0,
            paths_reserved(resource_entries(book.resources), reserved@),
            plan.rasterized <= i,
            svg_chain(states, fv.take(i as int), pv.take(i as int), *device, jpeg_quality),
            states[0] == first,
            states.last() == (
                *book,
                reserved@,
                plan,
                transformations@,
                warnings@.map_values(|w: Warning| warning_view(w)),
            ),
            book.metadata == b0.metadata,
            book.spine == b0.spine,
            book.toc == b0.toc,
            book.opf_path == b0.opf_path,
            book.nav_path == b0.nav_path,
            book.ncx_path == b0.ncx_path,
        decreases n - i,
    {
        let path = &paths[i];
        assert(path@ == pv[i as int]);
        let ghost s = states.last();
        let f = rest.remove(0);
        assert(f == fv[i as int]);
        assert(rest@ =~= fv.skip(i + 1));
        let ghost fg = f;
        process_one_svg(
            book,
            path.as_str(),
            f,
            device,
            jpeg_quality,
            &mut reserved,
            &mut plan,
            transformations,
            warnings,
        );
        let ghost t: SvgState = (
            *book,
            reserved@,
            plan,
            transformations@,
            warnings@.map_values(|w: Warning| warning_view(w)),
        );
        proof {
            assert(svg_step(s, t, pv[i as int], fg, *device, jpeg_quality));
            assert forall|j: int| i + 1 <= j < n implies key_index(
                resource_entries(book.resources),
                #[trigger] pv[j],
            ) >= 0 by {
                lemma_svg_step_keeps(s, t, pv[i as int], fg, *device, jpeg_quality, pv[j]);
            }
            let ns = states.push(t);
            let c2 = pv.take(i + 1);
            let f2 = fv.take(i + 1);
            assert forall|j: int| 0 <= j < c2.len() implies #[trigger] svg_step(
                ns[j],
                ns[j + 1],
                c2[j],
                f2[j],
                *device,
                jpeg_quality,
            ) by {
                if j < i {
                    assert(ns[j] == states[j] && ns[j + 1] == states[j + 1]);
                    assert(c2[j] == pv.take(i as int)[j]);
                    assert(f2[j] == fv.take(i as int)[j]);
                } else {
                    assert(ns[j] == s);
                }
            }
            states = ns;
        }
        i += 1;
    }
    proof {
        assert(pv.take(n as int) =~= pv);
        assert(fv.take(n as int) =~= fv);
    }
    plan
}

} // verus!
