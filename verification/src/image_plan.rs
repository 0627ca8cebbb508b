//! The book's side of the image pass: which resources are fed to the image
//! pipeline, and how each result lands back in the book. A re-encoded
//! image keeps its path when its extension is unchanged and otherwise moves
//! to a fresh one; a tall image split into page tiles is replaced by its
//! tiles. Every rename and split is recorded so references can follow.

use indexmap::IndexMap;
use vstd::prelude::*;

use crate::book::{
    copy_bytes, entries_with, entry_of, key_index, keys_distinct, lemma_key_index,
    lemma_key_index_at, resource_at, resource_count, resource_entries, resource_get,
    resource_insert, resource_remove, Book, Resource,
};
use crate::images::{out_ext, out_media_type, ImageOutcome, ImageRole, OutFormat};
use crate::pipeline::{pipeline_result, process_for_convert, DeviceCaps};
use crate::report::{warning_view, Warning};
use crate::model::opt_view;
use crate::names::{unique_in, PathSet};
use crate::paths::{basename_spec, join_dir_spec, parent_dir_spec, stem_spec};
use crate::report::Transformation;
use crate::text::{chars_of, decimal, push_all, push_str, same_chars, string_of};

verus! {

/// One page tile of a split image: its encoded baseline-JPEG bytes.
pub struct Tile {
    pub data: Vec<u8>,
}

/// What the image pipeline made of one source image.
pub enum PipelineResult {
    /// A single output (processed or left unchanged).
    Single(ImageOutcome),
    /// A tall image split into ordered page tiles.
    Split(Vec<Tile>),
}

/// What the image pass did: old path -> new path for every image that
/// moved, old path -> tile paths for every image that was split, and how
/// many images it processed.
pub struct ImagePlan {
    pub renames: Vec<(String, String)>,
    pub splits: Vec<(String, Vec<String>)>,
    pub images_processed: u32,
}

/// Whether an entry goes through the image pipeline: it is not skipped,
/// and it is declared or sniffed as a raster image (never SVG).
pub open spec fn is_candidate_entry(e: (Seq<char>, Seq<u8>, Seq<char>), skip: Set<Seq<char>>) -> bool {
    !skip.contains(e.0) && e.2 != "image/svg+xml"@ && (crate::images::raster_media_type(e.2)
        || crate::images::sniff_spec(e.1) is Some)
}

/// The paths of the candidate entries among the first `n`, in order.
pub open spec fn candidates_in(
    es: Seq<(Seq<char>, Seq<u8>, Seq<char>)>,
    skip: Set<Seq<char>>,
    n: int,
) -> Seq<Seq<char>>
    decreases n,
{
    if n <= 0 {
        Seq::empty()
    } else {
        let prev = candidates_in(es, skip, n - 1);
        if is_candidate_entry(es[n - 1], skip) {
            prev.push(es[n - 1].0)
        } else {
            prev
        }
    }
}

/// The resources to feed to the image pipeline, in manifest order: every
/// raster image, declared or sniffed, that the SVG pass did not already
/// finish.
pub fn image_candidates(book: &Book, skip: &PathSet) -> (r: Vec<String>)
    ensures
        r@.map_values(|s: String| s@) == candidates_in(
            resource_entries(book.resources),
            skip@,
            resource_entries(book.resources).len() as int,
        ),
{
    let ghost es = resource_entries(book.resources);
    let n = resource_count(&book.resources);
    let mut out: Vec<String> = Vec::new();
    let mut i: usize = 0;
    while i < n
        invariant
            i <= n,
            n == es.len(),
            es == resource_entries(book.resources),
            out@.map_values(|s: String| s@) == candidates_in(es, skip@, i as int),
        decreases n - i,
    {
        let ghost before = out@.map_values(|s: String| s@);
        match resource_at(&book.resources, i) {
            Some((path, res)) => {
                assert(entry_of(path@, *res) == es[i as int]);
                let path_chars = chars_of(path.as_str());
                if !skip.contains(&path_chars) && crate::images::is_image_candidate(
                    res.media_type.as_str(),
                    res.data.as_slice(),
                ) {
                    out.push(crate::model::copy_string(path));
                    assert(out@.map_values(|s: String| s@) =~= before.push(path@));
                }
            },
            None => {},
        }
        i += 1;
    }
    out
}

/// Every resource path is among the reserved ones.
pub open spec fn paths_reserved(
    es: Seq<(Seq<char>, Seq<u8>, Seq<char>)>,
    reserved: Set<Seq<char>>,
) -> bool {
    forall|i: int| 0 <= i < es.len() ==> reserved.contains(#[trigger] es[i].0)
}

/// `p` with its extension replaced by `ext`, keeping directory and stem.
pub open spec fn with_ext(p: Seq<char>, ext: Seq<char>) -> Seq<char> {
    join_dir_spec(parent_dir_spec(p), stem_spec(p) + seq!['.'] + ext)
}

/// The book and plan left unchanged apart from the resources, reserved
/// paths, cover, renames and splits.
pub open spec fn plan_record(
    old_t: Seq<Transformation>,
    new_t: Seq<Transformation>,
    kind: Seq<char>,
    detail: Seq<char>,
    file: Seq<char>,
) -> bool {
    &&& new_t.len() == old_t.len() + 1
    &&& new_t.drop_last() == old_t
    &&& new_t.last().kind@ == kind
    &&& new_t.last().detail@ == detail
    &&& opt_view(new_t.last().file) == Some(file)
}

proof fn lemma_fresh_not_key(
    es: Seq<(Seq<char>, Seq<u8>, Seq<char>)>,
    reserved: Set<Seq<char>>,
    u: Seq<char>,
)
    requires
        paths_reserved(es, reserved),
        !reserved.contains(u),
    ensures
        key_index(es, u) < 0,
{
    lemma_key_index(es, u);
    if key_index(es, u) >= 0 {
        assert(reserved.contains(es[key_index(es, u)].0));
    }
}

/// Apply a single pipeline output for the resource at `path`. A processed
/// image whose extension is unchanged is updated in place; one whose
/// extension changes moves to a fresh path next to it (the cover follows),
/// and the move is recorded. An unchanged image stays as it was.
pub fn apply_single(
    book: &mut Book,
    path: &str,
    outcome: ImageOutcome,
    reserved: &mut PathSet,
    plan: &mut ImagePlan,
    transformations: &mut Vec<Transformation>,
)
    requires
        key_index(resource_entries(old(book).resources), path@) >= 0,
        paths_reserved(resource_entries(old(book).resources), old(reserved)@),
        old(plan).images_processed < u32::MAX,
    ensures
        final(book).metadata == old(book).metadata,
        final(book).spine == old(book).spine,
        final(book).toc == old(book).toc,
        final(book).opf_path == old(book).opf_path,
        final(book).nav_path == old(book).nav_path,
        final(book).ncx_path == old(book).ncx_path,
        final(plan).splits == old(plan).splits,
        paths_reserved(resource_entries(final(book).resources), final(reserved)@),
        outcome is Unchanged ==> {
            &&& resource_entries(final(book).resources) == resource_entries(old(book).resources)
            &&& final(book).cover == old(book).cover
            &&& final(reserved)@ == old(reserved)@
            &&& final(plan).renames == old(plan).renames
            &&& final(plan).images_processed == old(plan).images_processed
            &&& final(transformations)@ == old(transformations)@
        },
        outcome matches ImageOutcome::Processed { note, .. } ==> final(plan).images_processed
            == old(plan).images_processed + 1 && plan_record(
            old(transformations)@,
            final(transformations)@,
            "image-optimized"@,
            basename_spec(path@) + seq![' '] + note@,
            path@,
        ),
        outcome matches ImageOutcome::Processed { data, format, .. } ==> with_ext(
            path@,
            out_ext(format),
        ) == path@ ==> {
            let es = resource_entries(old(book).resources);
            &&& resource_entries(final(book).resources) == es.update(
                key_index(es, path@),
                (path@, data@, out_media_type(format)),
            )
            &&& final(book).cover == old(book).cover
            &&& final(reserved)@ == old(reserved)@
            &&& final(plan).renames == old(plan).renames
        },
        outcome matches ImageOutcome::Processed { data, format, .. } ==> with_ext(
            path@,
            out_ext(format),
        ) != path@ ==> {
            let es = resource_entries(old(book).resources);
            let p = path@;
            let u = final(plan).renames@.last().1@;
            &&& final(plan).renames@.len() == old(plan).renames@.len() + 1
            &&& final(plan).renames@.drop_last() == old(plan).renames@
            &&& final(plan).renames@.last().0@ == p
            &&& unique_in(old(reserved)@, parent_dir_spec(p), stem_spec(p), out_ext(format), u)
            &&& final(reserved)@ == old(reserved)@.insert(u)
            &&& resource_entries(final(book).resources) == es.remove(key_index(es, p)).push(
                (u, data@, out_media_type(format)),
            )
            &&& opt_view(final(book).cover) == if opt_view(old(book).cover) == Some(p) {
                Some(u)
            } else {
                opt_view(old(book).cover)
            }
        },
{
    let ghost es = resource_entries(book.resources);
    let ghost idx = key_index(es, path@);
    proof {
        lemma_key_index(es, path@);
    }
    match outcome {
        ImageOutcome::Unchanged { .. } => {},
        ImageOutcome::Processed { data, format, note, .. } => {
            let new_path = crate::paths::with_extension(path, format.ext());
            let base = crate::paths::basename(path);
            if same_chars(&chars_of(new_path.as_str()), &chars_of(path)) {
                resource_insert(
                    &mut book.resources,
                    path.to_owned(),
                    Resource { data, media_type: format.media_type().to_owned() },
                );
                proof {
                    let fe = resource_entries(book.resources);
                    assert forall|i: int| 0 <= i < fe.len() implies reserved@.contains(
                        #[trigger] fe[i].0,
                    ) by {
                        assert(fe[i].0 == es[i].0);
                    }
                }
            } else {
                let dir = crate::paths::parent_dir(path);
                let stem = crate::paths::stem_of(path);
                let unique = crate::names::reserve_unique(
                    reserved,
                    dir.as_str(),
                    stem.as_str(),
                    format.ext(),
                );
                resource_remove(&mut book.resources, path);
                let ghost removed = es.remove(idx);
                assert(resource_entries(book.resources) == removed);
                proof {
                    assert(paths_reserved(removed, old(reserved)@)) by {
                        assert forall|i: int| 0 <= i < removed.len() implies old(
                            reserved,
                        )@.contains(#[trigger] removed[i].0) by {
                            if i < idx {
                                assert(removed[i] == es[i]);
                            } else {
                                assert(removed[i] == es[i + 1]);
                            }
                        }
                    }
                    lemma_fresh_not_key(removed, old(reserved)@, unique@);
                }
                resource_insert(
                    &mut book.resources,
                    crate::model::copy_string(&unique),
                    Resource { data, media_type: format.media_type().to_owned() },
                );
                let is_cover = match &book.cover {
                    Some(c) => same_chars(&chars_of(c.as_str()), &chars_of(path)),
                    None => false,
                };
                if is_cover {
                    book.cover = Some(crate::model::copy_string(&unique));
                }
                plan.renames.push((path.to_owned(), unique));
                proof {
                    let fe = resource_entries(book.resources);
                    assert forall|i: int| 0 <= i < fe.len() implies reserved@.contains(
                        #[trigger] fe[i].0,
                    ) by {
                        if i < removed.len() {
                            assert(fe[i] == removed[i]);
                            assert(old(reserved)@.contains(removed[i].0));
                        }
                    }
                }
            }
            let mut detail = chars_of(base.as_str());
            detail.push(' ');
            crate::text::push_str(&mut detail, note.as_str());
            transformations.push(
                Transformation {
                    kind: "image-optimized".to_owned(),
                    detail: string_of(&detail),
                    file: Some(path.to_owned()),
                },
            );
            assert(transformations@.drop_last() =~= old(transformations)@);
            assert(transformations@.last().kind@ == "image-optimized"@);
            assert(transformations@.last().detail@ == basename_spec(path@) + seq![' '] + note@);
            assert(opt_view(transformations@.last().file) == Some(path@));
            plan.images_processed = plan.images_processed + 1;
        },
    }
}

/// The stem of tile `k` (counting from zero) of an image: `stem-p1`,
/// `stem-p2`, ...
pub open spec fn tile_stem(stem: Seq<char>, k: nat) -> Seq<char> {
    stem + "-p"@ + decimal(k + 1)
}

/// `ps` are the paths reserved one after the other for the tiles of an
/// image with stem `stem` in `dir`, starting from the paths `taken`.
pub open spec fn tiles_placed(
    taken: Set<Seq<char>>,
    dir: Seq<char>,
    stem: Seq<char>,
    ps: Seq<Seq<char>>,
) -> bool
    decreases ps.len(),
{
    if ps.len() == 0 {
        true
    } else {
        let prev = ps.drop_last();
        tiles_placed(taken, dir, stem, prev) && unique_in(
            taken.union(prev.to_set()),
            dir,
            tile_stem(stem, prev.len()),
            "jpg"@,
            ps.last(),
        )
    }
}

/// The entries of the tiles stored under `ps`.
pub open spec fn tile_entries(ps: Seq<Seq<char>>, tiles: Seq<Tile>) -> Seq<
    (Seq<char>, Seq<u8>, Seq<char>),
> {
    Seq::new(ps.len(), |k: int| (ps[k], tiles[k].data@, "image/jpeg"@))
}

/// Replace the resource at `path` by its page tiles, each stored under a
/// fresh `stem-pN.jpg` next to it; a cover moves to the first tile. The
/// split is recorded.
pub fn apply_split(
    book: &mut Book,
    path: &str,
    tiles: Vec<Tile>,
    reserved: &mut PathSet,
    plan: &mut ImagePlan,
    transformations: &mut Vec<Transformation>,
)
    requires
        key_index(resource_entries(old(book).resources), path@) >= 0,
        paths_reserved(resource_entries(old(book).resources), old(reserved)@),
        old(plan).images_processed < u32::MAX,
    ensures
        final(book).metadata == old(book).metadata,
        final(book).spine == old(book).spine,
        final(book).toc == old(book).toc,
        final(book).opf_path == old(book).opf_path,
        final(book).nav_path == old(book).nav_path,
        final(book).ncx_path == old(book).ncx_path,
        final(plan).renames == old(plan).renames,
        final(plan).images_processed == old(plan).images_processed + 1,
        paths_reserved(resource_entries(final(book).resources), final(reserved)@),
        final(plan).splits@.len() == old(plan).splits@.len() + 1,
        final(plan).splits@.drop_last() == old(plan).splits@,
        final(plan).splits@.last().0@ == path@,
        ({
            let ps = final(plan).splits@.last().1@.map_values(|s: String| s@);
            let es = resource_entries(old(book).resources);
            &&& ps.len() == tiles@.len()
            &&& tiles_placed(old(reserved)@, parent_dir_spec(path@), stem_spec(path@), ps)
            &&& final(reserved)@ == old(reserved)@.union(ps.to_set())
            &&& resource_entries(final(book).resources) == es.remove(key_index(es, path@))
                + tile_entries(ps, tiles@)
            &&& opt_view(final(book).cover) == if opt_view(old(book).cover) == Some(path@)
                && ps.len() > 0 {
                Some(ps[0])
            } else {
                opt_view(old(book).cover)
            }
        }),
        plan_record(
            old(transformations)@,
            final(transformations)@,
            "image-split"@,
            basename_spec(path@) + " split into "@ + decimal(tiles@.len()) + " page tile(s)"@,
            path@,
        ),
{
    let ghost es = resource_entries(book.resources);
    let ghost idx = key_index(es, path@);
    let ghost taken0 = reserved@;
    proof {
        lemma_key_index(es, path@);
    }
    let dir = crate::paths::parent_dir(path);
    let stem = crate::paths::stem_of(path);
    resource_remove(&mut book.resources, path);
    let ghost removed = es.remove(idx);
    proof {
        assert forall|i: int| 0 <= i < removed.len() implies reserved@.contains(
            #[trigger] removed[i].0,
        ) by {
            if i < idx {
                assert(removed[i] == es[i]);
            } else {
                assert(removed[i] == es[i + 1]);
            }
        }
    }
    let mut tile_paths: Vec<String> = Vec::new();
    let mut k: usize = 0;
    assert(tile_entries(Seq::<Seq<char>>::empty(), tiles@) =~= Seq::<
        (Seq<char>, Seq<u8>, Seq<char>),
    >::empty());
    assert(removed + Seq::<(Seq<char>, Seq<u8>, Seq<char>)>::empty() =~= removed);
    assert(taken0.union(Seq::<Seq<char>>::empty().to_set()) =~= taken0);
    assert(tile_paths@.map_values(|s: String| s@) =~= Seq::<Seq<char>>::empty());
    while k < tiles.len()
        invariant
            k <= tiles@.len(),
            dir@ == parent_dir_spec(path@),
            stem@ == stem_spec(path@),
            tile_paths@.len() == k,
            tiles_placed(taken0, dir@, stem@, tile_paths@.map_values(|s: String| s@)),
            reserved@ == taken0.union(tile_paths@.map_values(|s: String| s@).to_set()),
            resource_entries(book.resources) == removed + tile_entries(
                tile_paths@.map_values(|s: String| s@),
                tiles@,
            ),
            paths_reserved(resource_entries(book.resources), reserved@),
            book.metadata == old(book).metadata,
            book.spine == old(book).spine,
            book.toc == old(book).toc,
            book.opf_path == old(book).opf_path,
            book.nav_path == old(book).nav_path,
            book.ncx_path == old(book).ncx_path,
            book.cover == old(book).cover,
        decreases tiles.len() - k,
    {
        let ghost ps = tile_paths@.map_values(|s: String| s@);
        let mut name = chars_of(stem.as_str());
        push_str(&mut name, "-p");
        crate::text::push_decimal(&mut name, (k as u128) + 1);
        assert(name@ == tile_stem(stem@, k as nat));
        let unique = crate::names::reserve_unique(
            reserved,
            dir.as_str(),
            string_of(&name).as_str(),
            "jpg",
        );
        let ghost cur = resource_entries(book.resources);
        proof {
            lemma_fresh_not_key(cur, taken0.union(ps.to_set()), unique@);
        }
        resource_insert(
            &mut book.resources,
            crate::model::copy_string(&unique),
            Resource {
                data: crate::book::copy_bytes(&tiles[k].data),
                media_type: "image/jpeg".to_owned(),
            },
        );
        tile_paths.push(unique);
        proof {
            let ps2 = tile_paths@.map_values(|s: String| s@);
            assert(ps2 =~= ps.push(ps2.last()));
            assert(ps2.drop_last() =~= ps);
            assert(ps2.to_set() =~= ps.to_set().insert(ps2.last())) by {
                assert forall|x: Seq<char>| ps2.to_set().contains(x) == ps.to_set().insert(
                    ps2.last(),
                ).contains(x) by {
                    if ps2.contains(x) {
                        let j = ps2.index_of(x);
                        if j < ps.len() {
                            assert(ps[j] == x);
                        }
                    }
                    if ps.contains(x) {
                        let j = ps.index_of(x);
                        assert(ps2[j] == x);
                    }
                    if x == ps2.last() {
                        assert(ps2[ps.len() as int] == x);
                    }
                }
            }
            assert(reserved@ =~= taken0.union(ps2.to_set()));
            assert(tile_entries(ps2, tiles@) =~= tile_entries(ps, tiles@).push(
                (ps2.last(), tiles@[k as int].data@, "image/jpeg"@),
            ));
            assert(resource_entries(book.resources) =~= removed + tile_entries(ps2, tiles@));
            let fe = resource_entries(book.resources);
            assert forall|i: int| 0 <= i < fe.len() implies reserved@.contains(#[trigger] fe[i].0) by {
                if i < cur.len() {
                    assert(fe[i] == cur[i]);
                }
            }
        }
        k += 1;
    }
    let ghost ps = tile_paths@.map_values(|s: String| s@);
    let is_cover = match &book.cover {
        Some(c) => same_chars(&chars_of(c.as_str()), &chars_of(path)),
        None => false,
    };
    if is_cover && tile_paths.len() > 0 {
        book.cover = Some(crate::model::copy_string(&tile_paths[0]));
    }
    let n = tiles.len();
    let mut detail = chars_of(crate::paths::basename(path).as_str());
    push_str(&mut detail, " split into ");
    crate::text::push_decimal(&mut detail, n as u128);
    push_str(&mut detail, " page tile(s)");
    transformations.push(
        Transformation {
            kind: "image-split".to_owned(),
            detail: string_of(&detail),
            file: Some(path.to_owned()),
        },
    );
    assert(transformations@.drop_last() =~= old(transformations)@);
    plan.splits.push((path.to_owned(), tile_paths));
    plan.images_processed = plan.images_processed + 1;
}

/// The paths every resource of `book` already holds, as the starting set
/// of reserved paths for the image pass.
pub fn reserved_paths(book: &Book) -> (r: PathSet)
    ensures
        paths_reserved(resource_entries(book.resources), r@),
        keys_distinct(resource_entries(book.resources)),
{
    let ghost es = resource_entries(book.resources);
    let keys = crate::book::resource_paths(&book.resources);
    assert forall|i: int, j: int| 0 <= i < j < es.len() implies #[trigger] es[i].0 != #[trigger] es[j].0 by {
        assert(keys@[i]@ == es[i].0 && keys@[j]@ == es[j].0);
    }
    let mut r = PathSet::new();
    let mut i: usize = 0;
    while i < keys.len()
        invariant
            i <= keys@.len(),
            keys@.len() == es.len(),
            forall|k: int| 0 <= k < keys@.len() ==> #[trigger] keys@[k]@ == es[k].0,
            forall|k: int| 0 <= k < i ==> r@.contains(#[trigger] es[k].0),
        decreases keys.len() - i,
    {
        r.insert(&chars_of(keys[i].as_str()));
        i += 1;
    }
    r
}

/// What applying a single pipeline output for `path` did, from the book,
/// reserved paths, plan and report before (`ob`, `or`, `op`, `ot`) to
/// after (`fb`, `fr`, `fp`, `ft`): as `apply_single` states it.
pub open spec fn single_applied(
    ob: Book,
    fb: Book,
    path: Seq<char>,
    outcome: ImageOutcome,
    or: Set<Seq<char>>,
    fr: Set<Seq<char>>,
    op: ImagePlan,
    fp: ImagePlan,
    ot: Seq<Transformation>,
    ft: Seq<Transformation>,
) -> bool {
    let es = resource_entries(ob.resources);
    &&& fp.splits == op.splits
    &&& outcome is Unchanged ==> {
        &&& resource_entries(fb.resources) == es
        &&& fb.cover == ob.cover
        &&& fr == or
        &&& fp.renames == op.renames
        &&& fp.images_processed == op.images_processed
        &&& ft == ot
    }
    &&& outcome matches ImageOutcome::Processed { note, .. } ==> fp.images_processed
        == op.images_processed + 1 && plan_record(
        ot,
        ft,
        "image-optimized"@,
        basename_spec(path) + seq![' '] + note@,
        path,
    )
    &&& outcome matches ImageOutcome::Processed { data, format, .. } ==> with_ext(
        path,
        out_ext(format),
    ) == path ==> {
        &&& resource_entries(fb.resources) == es.update(
            key_index(es, path),
            (path, data@, out_media_type(format)),
        )
        &&& fb.cover == ob.cover
        &&& fr == or
        &&& fp.renames == op.renames
    }
    &&& outcome matches ImageOutcome::Processed { data, format, .. } ==> with_ext(
        path,
        out_ext(format),
    ) != path ==> {
        let u = fp.renames@.last().1@;
        &&& fp.renames@.len() == op.renames@.len() + 1
        &&& fp.renames@.drop_last() == op.renames@
        &&& fp.renames@.last().0@ == path
        &&& unique_in(or, parent_dir_spec(path), stem_spec(path), out_ext(format), u)
        &&& fr == or.insert(u)
        &&& resource_entries(fb.resources) == es.remove(key_index(es, path)).push(
            (u, data@, out_media_type(format)),
        )
        &&& opt_view(fb.cover) == if opt_view(ob.cover) == Some(path) {
            Some(u)
        } else {
            opt_view(ob.cover)
        }
    }
}

/// What replacing the resource at `path` by its page `tiles` did, from the
/// book, reserved paths, plan and report before to after: as
/// `apply_split` states it.
pub open spec fn split_applied(
    ob: Book,
    fb: Book,
    path: Seq<char>,
    tiles: Seq<Tile>,
    or: Set<Seq<char>>,
    fr: Set<Seq<char>>,
    op: ImagePlan,
    fp: ImagePlan,
    ot: Seq<Transformation>,
    ft: Seq<Transformation>,
) -> bool {
    let ps = fp.splits@.last().1@.map_values(|s: String| s@);
    let es = resource_entries(ob.resources);
    &&& fp.renames == op.renames
    &&& fp.images_processed == op.images_processed + 1
    &&& fp.splits@.len() == op.splits@.len() + 1
    &&& fp.splits@.drop_last() == op.splits@
    &&& fp.splits@.last().0@ == path
    &&& ps.len() == tiles.len()
    &&& tiles_placed(or, parent_dir_spec(path), stem_spec(path), ps)
    &&& fr == or.union(ps.to_set())
    &&& resource_entries(fb.resources) == es.remove(key_index(es, path)) + tile_entries(ps, tiles)
    &&& opt_view(fb.cover) == if opt_view(ob.cover) == Some(path) && ps.len() > 0 {
        Some(ps[0])
    } else {
        opt_view(ob.cover)
    }
    &&& plan_record(
        ot,
        ft,
        "image-split"@,
        basename_spec(path) + " split into "@ + decimal(tiles.len()) + " page tile(s)"@,
        path,
    )
}

/// Apply what the image pipeline made of the resource at `path`.
pub fn apply_pipeline_result(
    book: &mut Book,
    path: &str,
    result: PipelineResult,
    reserved: &mut PathSet,
    plan: &mut ImagePlan,
    transformations: &mut Vec<Transformation>,
)
    requires
        key_index(resource_entries(old(book).resources), path@) >= 0,
        paths_reserved(resource_entries(old(book).resources), old(reserved)@),
        old(plan).images_processed < u32::MAX,
    ensures
        paths_reserved(resource_entries(final(book).resources), final(reserved)@),
        final(book).metadata == old(book).metadata,
        final(book).spine == old(book).spine,
        final(book).toc == old(book).toc,
        final(book).opf_path == old(book).opf_path,
        final(book).nav_path == old(book).nav_path,
        final(book).ncx_path == old(book).ncx_path,
        final(plan).images_processed <= old(plan).images_processed + 1,
        match result {
            PipelineResult::Single(outcome) => single_applied(
                *old(book),
                *final(book),
                path@,
                outcome,
                old(reserved)@,
                final(reserved)@,
                *old(plan),
                *final(plan),
                old(transformations)@,
                final(transformations)@,
            ),
            PipelineResult::Split(tiles) => split_applied(
                *old(book),
                *final(book),
                path@,
                tiles@,
                old(reserved)@,
                final(reserved)@,
                *old(plan),
                *final(plan),
                old(transformations)@,
                final(transformations)@,
            ),
        },
{
    match result {
        PipelineResult::Single(outcome) => apply_single(
            book,
            path,
            outcome,
            reserved,
            plan,
            transformations,
        ),
        PipelineResult::Split(tiles) => apply_split(
            book,
            path,
            tiles,
            reserved,
            plan,
            transformations,
        ),
    }
}

/// A reserved path is never one that was taken.
pub proof fn lemma_first_free_fresh(
    taken: Set<Seq<char>>,
    first: Seq<char>,
    prefix: Seq<char>,
    suffix: Seq<char>,
    start: nat,
    r: Seq<char>,
)
    requires
        crate::names::first_free(taken, first, prefix, suffix, start, r),
    ensures
        !taken.contains(r),
{
}

/// The tiles of a split image get paths that no resource held before and
/// that are all different from one another.
pub proof fn law_tiles_are_fresh(
    taken: Set<Seq<char>>,
    dir: Seq<char>,
    stem: Seq<char>,
    ps: Seq<Seq<char>>,
)
    requires
        tiles_placed(taken, dir, stem, ps),
    ensures
        forall|k: int| 0 <= k < ps.len() ==> !taken.contains(#[trigger] ps[k]),
        forall|a: int, b: int| 0 <= a < b < ps.len() ==> #[trigger] ps[a] != #[trigger] ps[b],
    decreases ps.len(),
{
    if ps.len() > 0 {
        let prev = ps.drop_last();
        law_tiles_are_fresh(taken, dir, stem, prev);
        let t = taken.union(prev.to_set());
        lemma_first_free_fresh(
            t,
            join_dir_spec(dir, tile_stem(stem, prev.len()) + seq!['.'] + "jpg"@),
            crate::names::dir_prefix(dir) + tile_stem(stem, prev.len()) + seq!['-'],
            seq!['.'] + "jpg"@,
            1,
            ps.last(),
        );
        assert forall|k: int| 0 <= k < ps.len() implies !taken.contains(#[trigger] ps[k]) by {
            if k < prev.len() {
                assert(ps[k] == prev[k]);
            }
        }
        assert forall|a: int, b: int| 0 <= a < b < ps.len() implies #[trigger] ps[a]
            != #[trigger] ps[b] by {
            if b == ps.len() - 1 {
                assert(ps[a] == prev[a]);
                assert(prev.contains(prev[a]));
                assert(t.contains(ps[a]));
            } else {
                assert(ps[a] == prev[a] && ps[b] == prev[b]);
            }
        }
    }
}


// ---------------------------------------------------------------------
// Composing rename maps
// ---------------------------------------------------------------------

/// Renames as (old path, new path) pairs.
pub open spec fn pairs_view(v: Seq<(String, String)>) -> Seq<(Seq<char>, Seq<char>)> {
    v.map_values(|e: (String, String)| (e.0@, e.1@))
}

/// The map a list of renames stands for: each pair inserted in order, so a
/// later pair for the same path wins.
pub open spec fn rename_map(v: Seq<(Seq<char>, Seq<char>)>) -> Map<Seq<char>, Seq<char>>
    decreases v.len(),
{
    if v.len() == 0 {
        Map::empty()
    } else {
        rename_map(v.drop_last()).insert(v.last().0, v.last().1)
    }
}

/// Where `p` ends up under `m`: its rename, or itself.
pub open spec fn renamed(m: Map<Seq<char>, Seq<char>>, p: Seq<char>) -> Seq<char> {
    if m.dom().contains(p) {
        m[p]
    } else {
        p
    }
}

/// The SVG renames composed with the raster renames: every raster rename,
/// and each SVG's original path sent through its intermediate replacement
/// to that replacement's final name.
pub open spec fn composed_renames(
    svg: Map<Seq<char>, Seq<char>>,
    image: Map<Seq<char>, Seq<char>>,
) -> Map<Seq<char>, Seq<char>> {
    image.union_prefer_right(
        Map::new(|p: Seq<char>| svg.dom().contains(p), |p: Seq<char>| renamed(image, svg[p])),
    )
}

/// The rename the last pair for `key` gives, if any.
fn lookup_rename(v: &Vec<(String, String)>, key: &String) -> (r: Option<String>)
    ensures
        match r {
            Some(s) => rename_map(pairs_view(v@)).dom().contains(key@) && s@ == rename_map(
                pairs_view(v@),
            )[key@],
            None => !rename_map(pairs_view(v@)).dom().contains(key@),
        },
{
    let ghost pv = pairs_view(v@);
    let want = chars_of(key.as_str());
    let mut i: usize = v.len();
    while i > 0
        invariant
            i <= v@.len(),
            pv == pairs_view(v@),
            want@ == key@,
            forall|k: int| i <= k < v@.len() ==> pv[k].0 != key@,
        decreases i,
    {
        i -= 1;
        if same_chars(&chars_of(v[i].0.as_str()), &want) {
            proof {
                lemma_rename_map_last(pv, i as int, key@);
            }
            return Some(v[i].1.clone());
        }
    }
    proof {
        lemma_rename_map_absent(pv, key@);
    }
    None
}

proof fn lemma_rename_map_last(v: Seq<(Seq<char>, Seq<char>)>, i: int, key: Seq<char>)
    requires
        0 <= i < v.len(),
        v[i].0 == key,
        forall|k: int| i < k < v.len() ==> v[k].0 != key,
    ensures
        rename_map(v).dom().contains(key),
        rename_map(v)[key] == v[i].1,
    decreases v.len(),
{
    if i < v.len() - 1 {
        let d = v.drop_last();
        assert forall|k: int| i < k < d.len() implies d[k].0 != key by {
            assert(d[k] == v[k]);
        }
        assert(d[i] == v[i]);
        lemma_rename_map_last(d, i, key);
        assert(v.last().0 != key);
    }
}

proof fn lemma_rename_map_absent(v: Seq<(Seq<char>, Seq<char>)>, key: Seq<char>)
    requires
        forall|k: int| 0 <= k < v.len() ==> v[k].0 != key,
    ensures
        !rename_map(v).dom().contains(key),
    decreases v.len(),
{
    if v.len() > 0 {
        let d = v.drop_last();
        assert forall|k: int| 0 <= k < d.len() implies d[k].0 != key by {
            assert(d[k] == v[k]);
        }
        lemma_rename_map_absent(d, key);
        assert(v[v.len() - 1].0 != key);
    }
}

/// Compose the SVG and raster rename maps: an original SVG resolves through
/// its intermediate replacement to that replacement's final (raster-pass)
/// name.
pub fn compose_renames(svg: &Vec<(String, String)>, image: &Vec<(String, String)>) -> (r: Vec<
    (String, String),
>)
    ensures
        rename_map(pairs_view(r@)) == composed_renames(
            rename_map(pairs_view(svg@)),
            rename_map(pairs_view(image@)),
        ),
{
    let ghost sm = rename_map(pairs_view(svg@));
    let ghost im = rename_map(pairs_view(image@));
    let mut composed: Vec<(String, String)> = Vec::new();
    let mut i: usize = 0;
    while i < image.len()
        invariant
            i <= image@.len(),
            pairs_view(composed@) == pairs_view(image@).take(i as int),
        decreases image.len() - i,
    {
        let ghost before = composed@;
        let a = image[i].0.clone();
        let b = image[i].1.clone();
        assert(a@ == image@[i as int].0@ && b@ == image@[i as int].1@);
        composed.push((a, b));
        assert(composed@ == before.push((a, b)));
        assert(pairs_view(composed@) =~= pairs_view(before).push((a@, b@)));
        assert(pairs_view(image@).take(i + 1) =~= pairs_view(image@).take(i as int).push(
            pairs_view(image@)[i as int],
        ));
        assert(pairs_view(composed@) =~= pairs_view(image@).take(i + 1));
        i += 1;
    }
    assert(pairs_view(image@).take(image@.len() as int) =~= pairs_view(image@));
    let mut j: usize = 0;
    while j < svg.len()
        invariant
            j <= svg@.len(),
            sm == rename_map(pairs_view(svg@)),
            im == rename_map(pairs_view(image@)),
            rename_map(pairs_view(composed@)) == im.union_prefer_right(
                Map::new(
                    |p: Seq<char>| rename_map(pairs_view(svg@).take(j as int)).dom().contains(p),
                    |p: Seq<char>| renamed(im, rename_map(pairs_view(svg@).take(j as int))[p]),
                ),
            ),
        decreases svg.len() - j,
    {
        let from = &svg[j].0;
        let intermediate = &svg[j].1;
        let final_path = match lookup_rename(image, intermediate) {
            Some(p) => p,
            None => intermediate.clone(),
        };
        let ghost before = pairs_view(composed@);
        composed.push((from.clone(), final_path));
        proof {
            let sv = pairs_view(svg@);
            assert(sv.take(j + 1).drop_last() =~= sv.take(j as int));
            assert(sv.take(j + 1).last() == (from@, intermediate@));
            assert(pairs_view(composed@).drop_last() =~= before);
            assert(final_path@ == renamed(im, intermediate@));
            assert(rename_map(pairs_view(composed@)) =~= im.union_prefer_right(
                Map::new(
                    |p: Seq<char>| rename_map(sv.take(j + 1)).dom().contains(p),
                    |p: Seq<char>| renamed(im, rename_map(sv.take(j + 1))[p]),
                ),
            ));
        }
        j += 1;
    }
    assert(pairs_view(svg@).take(svg@.len() as int) =~= pairs_view(svg@));
    assert(rename_map(pairs_view(composed@)) =~= composed_renames(sm, im));
    composed
}


// ---------------------------------------------------------------------
// The whole pass
// ---------------------------------------------------------------------

/// Where the image pass stands: the book, the reserved paths, the plan so
/// far, the report's transformations and its warnings.
pub type PassState = (
    Book,
    Set<Seq<char>>,
    ImagePlan,
    Seq<Transformation>,
    Seq<(Seq<char>, Option<Seq<char>>)>,
);

/// Whether `t` follows `s` by one image: the pipeline's `result` for the
/// bytes stored at `path` (as the cover when the book's cover is `path`),
/// applied to the book.
pub open spec fn image_step(
    s: PassState,
    t: PassState,
    path: Seq<char>,
    result: PipelineResult,
    caps: DeviceCaps,
    quality: u8,
    split_tall: bool,
) -> bool {
    let es = resource_entries(s.0.resources);
    let data = es[key_index(es, path)].1;
    let role = if opt_view(s.0.cover) == Some(path) {
        ImageRole::Cover
    } else {
        ImageRole::Inline
    };
    &&& pipeline_result(data, role, caps, quality, split_tall, path, result, s.4, t.4)
    &&& match result {
        PipelineResult::Single(o) => single_applied(s.0, t.0, path, o, s.1, t.1, s.2, t.2, s.3, t.3),
        PipelineResult::Split(ts) => split_applied(
            s.0,
            t.0,
            path,
            ts@,
            s.1,
            t.1,
            s.2,
            t.2,
            s.3,
            t.3,
        ),
    }
}

/// Whether `states` go image by image through `cands`, in order, with
/// the pipeline giving `results`.
pub open spec fn pass_chain(
    states: Seq<PassState>,
    results: Seq<PipelineResult>,
    cands: Seq<Seq<char>>,
    caps: DeviceCaps,
    quality: u8,
    split_tall: bool,
) -> bool {
    &&& states.len() == cands.len() + 1
    &&& results.len() == cands.len()
    &&& forall|i: int|
        0 <= i < cands.len() ==> #[trigger] image_step(
            states[i],
            states[i + 1],
            cands[i],
            results[i],
            caps,
            quality,
            split_tall,
        )
}

/// A path held at position `j` is found.
proof fn lemma_found(es: Seq<(Seq<char>, Seq<u8>, Seq<char>)>, j: int, k: Seq<char>)
    requires
        0 <= j < es.len(),
        es[j].0 == k,
    ensures
        key_index(es, k) >= 0,
{
    lemma_key_index(es, k);
}

/// The candidates among the first `n` entries are entries of their own,
/// found in increasing order.
proof fn lemma_candidates_found(es: Seq<(Seq<char>, Seq<u8>, Seq<char>)>, skip: Set<Seq<char>>, n: int)
    requires
        keys_distinct(es),
        0 <= n <= es.len(),
    ensures
        candidates_in(es, skip, n).len() <= n,
        forall|a: int|
            0 <= a < candidates_in(es, skip, n).len() ==> 0 <= #[trigger] key_index(
                es,
                candidates_in(es, skip, n)[a],
            ) < n,
        forall|a: int, b: int|
            0 <= a < b < candidates_in(es, skip, n).len() ==> key_index(
                es,
                #[trigger] candidates_in(es, skip, n)[a],
            ) < key_index(es, #[trigger] candidates_in(es, skip, n)[b]),
    decreases n,
{
    if n > 0 {
        lemma_candidates_found(es, skip, n - 1);
        lemma_key_index_at(es, n - 1);
        let prev = candidates_in(es, skip, n - 1);
        let c = candidates_in(es, skip, n);
        assert forall|a: int| 0 <= a < c.len() implies 0 <= #[trigger] key_index(es, c[a]) < n by {
            if a < prev.len() {
                assert(c[a] == prev[a]);
            }
        }
        assert forall|a: int, b: int| 0 <= a < b < c.len() implies key_index(es, #[trigger] c[a])
            < key_index(es, #[trigger] c[b]) by {
            assert(c[a] == prev[a]);
            if b < prev.len() {
                assert(c[b] == prev[b]);
            }
        }
    }
}

/// A path other than the one an image step was for is still held after
/// it.
proof fn lemma_step_keeps(
    s: PassState,
    t: PassState,
    path: Seq<char>,
    result: PipelineResult,
    caps: DeviceCaps,
    quality: u8,
    split_tall: bool,
    k: Seq<char>,
)
    requires
        image_step(s, t, path, result, caps, quality, split_tall),
        key_index(resource_entries(s.0.resources), path) >= 0,
        key_index(resource_entries(s.0.resources), k) >= 0,
        k != path,
    ensures
        key_index(resource_entries(t.0.resources), k) >= 0,
{
    let es = resource_entries(s.0.resources);
    let fs = resource_entries(t.0.resources);
    let idx = key_index(es, path);
    lemma_key_index(es, path);
    lemma_key_index(es, k);
    let j = key_index(es, k);
    assert(j != idx);
    match result {
        PipelineResult::Single(o) => {
            match o {
                ImageOutcome::Unchanged { .. } => {
                    lemma_found(fs, j, k);
                },
                ImageOutcome::Processed { data, format, .. } => {
                    if with_ext(path, out_ext(format)) == path {
                        assert(fs[j] == es[j]);
                        lemma_found(fs, j, k);
                    } else {
                        let r = es.remove(idx);
                        let jj = if j < idx {
                            j
                        } else {
                            j - 1
                        };
                        assert(r[jj] == es[j]);
                        assert(fs[jj] == r[jj]);
                        lemma_found(fs, jj, k);
                    }
                },
            }
        },
        PipelineResult::Split(ts) => {
            let r = es.remove(idx);
            let jj = if j < idx {
                j
            } else {
                j - 1
            };
            assert(r[jj] == es[j]);
            assert(fs[jj] == r[jj]);
            lemma_found(fs, jj, k);
        },
    }
}

/// Run every image the book holds through the pipeline, in manifest
/// order, and apply each result: a re-encoded image keeps its path or
/// moves to a fresh one, a tall image is replaced by its page tiles, and
/// the plan records every move and split. Resources in `skip`, and SVG,
/// are left alone.
pub fn process_images(
    book: &mut Book,
    device: &DeviceCaps,
    jpeg_quality: u8,
    split_tall_images: bool,
    skip: &PathSet,
    transformations: &mut Vec<Transformation>,
    warnings: &mut Vec<Warning>,
) -> (plan: ImagePlan)
    requires
        resource_entries(old(book).resources).len() < u32::MAX,
    ensures
        exists|states: Seq<PassState>, results: Seq<PipelineResult>|
            #![trigger pass_chain(
                states,
                results,
                candidates_in(
                    resource_entries(old(book).resources),
                    skip@,
                    resource_entries(old(book).resources).len() as int,
                ),
                *device,
                jpeg_quality,
                split_tall_images,
            )]
            {
                &&& pass_chain(
                    states,
                    results,
                    candidates_in(
                        resource_entries(old(book).resources),
                        skip@,
                        resource_entries(old(book).resources).len() as int,
                    ),
                    *device,
                    jpeg_quality,
                    split_tall_images,
                )
                &&& states[0].0 == *old(book)
                &&& paths_reserved(resource_entries(old(book).resources), states[0].1)
                &&& states[0].2.renames@.len() == 0
                &&& states[0].2.splits@.len() == 0
                &&& states[0].2.images_processed == 0
                &&& states[0].3 == old(transformations)@
                &&& states[0].4 == old(warnings)@.map_values(|w: Warning| warning_view(w))
                &&& states.last().0 == *final(book)
                &&& states.last().2 == plan
                &&& states.last().3 == final(transformations)@
                &&& states.last().4 == final(warnings)@.map_values(|w: Warning| warning_view(w))
            },
        final(book).metadata == old(book).metadata,
        final(book).spine == old(book).spine,
        final(book).toc == old(book).toc,
        final(book).opf_path == old(book).opf_path,
        final(book).nav_path == old(book).nav_path,
        final(book).ncx_path == old(book).ncx_path,
{
    let ghost es0 = resource_entries(book.resources);
    let ghost cv = candidates_in(es0, skip@, es0.len() as int);
    let cands = image_candidates(book, skip);
    let mut reserved = reserved_paths(book);
    proof {
        lemma_candidates_found(es0, skip@, es0.len() as int);
    }
    let mut plan = ImagePlan { renames: Vec::new(), splits: Vec::new(), images_processed: 0 };
    let ghost first: PassState = (
        *book,
        reserved@,
        plan,
        transformations@,
        warnings@.map_values(|w: Warning| warning_view(w)),
    );
    let ghost mut states: Seq<PassState> = seq![first];
    let ghost mut results: Seq<PipelineResult> = Seq::empty();
    let ghost b0 = *book;
    let n = cands.len();
    let mut i: usize = 0;
    while i < n
        invariant
            i <= n,
            n == cv.len(),
            cands@.map_values(|s: String| s@) == cv,
            cv.len() <= es0.len() < u32::MAX,
            forall|a: int, b: int| 0 <= a < b < cv.len() ==> #[trigger] cv[a] != #[trigger] cv[b],
            forall|j: int|
                i <= j < n ==> key_index(resource_entries(book.resources), #[trigger] cv[j]) >= 0,
            paths_reserved(resource_entries(book.resources), reserved@),
            plan.images_processed <= i,
            pass_chain(states, results, cv.take(i as int), *device, jpeg_quality, split_tall_images),
            states[0] == first,
            states.last() == (
                *book,
                reserved@,
                plan,
                transformations@,
                warnings@.map_values(|w: Warning| warning_view(w)),
            ),
            book.metadata == b0.metadata,
            book.spine == b0.spine,
            book.toc == b0.toc,
            book.opf_path == b0.opf_path,
            book.nav_path == b0.nav_path,
            book.ncx_path == b0.ncx_path,
        decreases n - i,
    {
        let path = &cands[i];
        assert(path@ == cv[i as int]);
        let ghost s = states.last();
        let data = match resource_get(&book.resources, path.as_str()) {
            Some(r) => copy_bytes(&r.data),
            None => Vec::new(),
        };
        let is_cover = match &book.cover {
            Some(c) => same_chars(&chars_of(c.as_str()), &chars_of(path.as_str())),
            None => false,
        };
        let role = if is_cover {
            ImageRole::Cover
        } else {
            ImageRole::Inline
        };
        let result = process_for_convert(
            data.as_slice(),
            role,
            device,
            jpeg_quality,
            split_tall_images,
            warnings,
            path.as_str(),
        );
        let ghost res = result;
        apply_pipeline_result(book, path.as_str(), result, &mut reserved, &mut plan, transformations);
        let ghost t: PassState = (
            *book,
            reserved@,
            plan,
            transformations@,
            warnings@.map_values(|w: Warning| warning_view(w)),
        );
        proof {
            assert(image_step(s, t, cv[i as int], res, *device, jpeg_quality, split_tall_images));
            assert forall|j: int| i + 1 <= j < n implies key_index(
                resource_entries(book.resources),
                #[trigger] cv[j],
            ) >= 0 by {
                lemma_step_keeps(
                    s,
                    t,
                    cv[i as int],
                    res,
                    *device,
                    jpeg_quality,
                    split_tall_images,
                    cv[j],
                );
            }
            let ns = states.push(t);
            let nr = results.push(res);
            let c2 = cv.take(i + 1);
            assert forall|j: int| 0 <= j < c2.len() implies #[trigger] image_step(
                ns[j],
                ns[j + 1],
                c2[j],
                nr[j],
                *device,
                jpeg_quality,
                split_tall_images,
            ) by {
                if j < i {
                    assert(ns[j] == states[j] && ns[j + 1] == states[j + 1]);
                    assert(c2[j] == cv.take(i as int)[j]);
                    assert(nr[j] == results[j]);
                } else {
                    assert(ns[j] == s);
                }
            }
            states = ns;
            results = nr;
        }
        i += 1;
    }
    proof {
        assert(cv.take(n as int) =~= cv);
    }
    plan
}

} // verus!
