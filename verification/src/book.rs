//! A book as the passes see it: metadata, its resources by zip path (in
//! manifest order), the reading order, the table of contents and the
//! cover. The passes here add a supplied cover and strip embedded fonts.

use indexmap::IndexMap;
use vstd::prelude::*;

use crate::model::{opt_view, Metadata, TocEntry};
use crate::names::{dir_prefix, ext_suffix, first_free, PathSet};
use crate::options::CoverImage;
use crate::paths::{join_dir_spec, parent_dir_spec};
use crate::report::{Transformation, Warning};
use crate::text::{chars_of, copy_range, last_index_of, push_all, push_str, rfind_char, string_of};

verus! {

/// One file of the book: its bytes and media type.
pub struct Resource {
    pub data: Vec<u8>,
    pub media_type: String,
}

#[verifier::external_type_specification]
#[verifier::external_body]
#[verifier::reject_recursive_types(K)]
#[verifier::reject_recursive_types(V)]
#[verifier::reject_recursive_types(S)]
pub struct ExIndexMap<K, V, S>(IndexMap<K, V, S>);

/// What a resource map holds, in its order: each entry's zip path, bytes
/// and media type.
pub uninterp spec fn resource_entries(m: IndexMap<String, Resource>) -> Seq<
    (Seq<char>, Seq<u8>, Seq<char>),
>;

/// An entry as the map holds it.
pub open spec fn entry_of(path: Seq<char>, r: Resource) -> (Seq<char>, Seq<u8>, Seq<char>) {
    (path, r.data@, r.media_type@)
}

/// The position of the first entry for `key` at or after `i`, or -1.
pub open spec fn key_index_from(es: Seq<(Seq<char>, Seq<u8>, Seq<char>)>, key: Seq<char>, i: int) -> int
    decreases es.len() - i,
{
    if i < 0 || i >= es.len() {
        -1
    } else if es[i].0 == key {
        i
    } else {
        key_index_from(es, key, i + 1)
    }
}

/// The position of the entry for `key`, or -1 if there is none.
pub open spec fn key_index(es: Seq<(Seq<char>, Seq<u8>, Seq<char>)>, key: Seq<char>) -> int {
    key_index_from(es, key, 0)
}

/// No two entries share a path.
pub open spec fn keys_distinct(es: Seq<(Seq<char>, Seq<u8>, Seq<char>)>) -> bool {
    forall|i: int, j: int| 0 <= i < j < es.len() ==> #[trigger] es[i].0 != #[trigger] es[j].0
}

proof fn lemma_key_index_from(es: Seq<(Seq<char>, Seq<u8>, Seq<char>)>, key: Seq<char>, i: int)
    requires
        0 <= i,
    ensures
        key_index_from(es, key, i) == -1 || (i <= key_index_from(es, key, i) < es.len()
            && es[key_index_from(es, key, i)].0 == key),
        key_index_from(es, key, i) == -1 ==> forall|j: int| i <= j < es.len() ==> #[trigger] es[j].0 != key,
    decreases es.len() - i,
{
    if i < es.len() && es[i].0 != key {
        lemma_key_index_from(es, key, i + 1);
    }
}

/// `key_index` finds the entry for a key exactly when one exists.
pub proof fn lemma_key_index(es: Seq<(Seq<char>, Seq<u8>, Seq<char>)>, key: Seq<char>)
    ensures
        key_index(es, key) == -1 || (0 <= key_index(es, key) < es.len() && es[key_index(
            es,
            key,
        )].0 == key),
        key_index(es, key) == -1 <==> forall|j: int| 0 <= j < es.len() ==> #[trigger] es[j].0 != key,
{
    lemma_key_index_from(es, key, 0);
}

/// With distinct paths, the entry at `i` is the one its path finds.
pub proof fn lemma_key_index_at(es: Seq<(Seq<char>, Seq<u8>, Seq<char>)>, i: int)
    requires
        keys_distinct(es),
        0 <= i < es.len(),
    ensures
        key_index(es, es[i].0) == i,
{
    lemma_key_index(es, es[i].0);
    let k = key_index(es, es[i].0);
    if k != i {
        if k < i {
            assert(es[k].0 != es[i].0);
        } else {
            assert(es[i].0 != es[k].0);
        }
    }
}

/// Wraps `IndexMap::new`: an empty map.
#[verifier::external_body]
pub(crate) fn new_resources() -> (m: IndexMap<String, Resource>)
    ensures
        resource_entries(m) == Seq::<(Seq<char>, Seq<u8>, Seq<char>)>::empty(),
{
    IndexMap::new()
}

/// How many resources the book holds.
pub fn resource_len(book: &Book) -> (r: usize)
    ensures
        r == resource_entries(book.resources).len(),
{
    resource_count(&book.resources)
}

/// Wraps `IndexMap::len`: the number of entries.
#[verifier::external_body]
pub(crate) fn resource_count(m: &IndexMap<String, Resource>) -> (r: usize)
    ensures
        r == resource_entries(*m).len(),
{
    m.len()
}

/// Wraps `IndexMap::keys`: copies of the entries' paths, in order. An
/// `IndexMap` never holds two equivalent keys, so they are distinct.
#[verifier::external_body]
pub(crate) fn resource_paths(m: &IndexMap<String, Resource>) -> (r: Vec<String>)
    ensures
        r@.len() == resource_entries(*m).len(),
        forall|i: int| 0 <= i < r@.len() ==> #[trigger] r@[i]@ == resource_entries(*m)[i].0,
        forall|i: int, j: int| 0 <= i < j < r@.len() ==> #[trigger] r@[i]@ != #[trigger] r@[j]@,
{
    m.keys().cloned().collect()
}

/// The entry a position lookup hands out.
pub open spec fn pair_entry(p: (&String, &Resource)) -> (Seq<char>, Seq<u8>, Seq<char>) {
    entry_of(p.0@, *p.1)
}

/// Wraps `IndexMap::contains_key`: whether an entry has path `key`.
#[verifier::external_body]
pub(crate) fn has_resource(m: &IndexMap<String, Resource>, key: &str) -> (r: bool)
    ensures
        r == (key_index(resource_entries(*m), key@) >= 0),
{
    m.contains_key(key)
}

/// Wraps `IndexMap::get_index`: the entry at position `i`, if there is one.
#[verifier::external_body]
pub(crate) fn resource_at(m: &IndexMap<String, Resource>, i: usize) -> (r: Option<
    (&String, &Resource),
>)
    ensures
        i < resource_entries(*m).len() ==> r is Some && pair_entry(r->0) == resource_entries(
            *m,
        )[i as int],
        i >= resource_entries(*m).len() ==> r is None,
{
    m.get_index(i)
}

/// Wraps `IndexMap::get`: the resource stored under `key`, if any.
#[verifier::external_body]
pub(crate) fn resource_get<'a>(m: &'a IndexMap<String, Resource>, key: &str) -> (r: Option<
    &'a Resource,
>)
    ensures
        key_index(resource_entries(*m), key@) < 0 ==> r is None,
        key_index(resource_entries(*m), key@) >= 0 ==> r is Some && entry_of(key@, *r->0)
            == resource_entries(*m)[key_index(resource_entries(*m), key@)],
{
    m.get(key)
}

/// Wraps `IndexMap::insert`: an existing entry for `key` keeps its place
/// and takes the new resource; otherwise the entry is added last.
#[verifier::external_body]
pub(crate) fn resource_insert(m: &mut IndexMap<String, Resource>, key: String, value: Resource)
    ensures
        ({
            let old_es = resource_entries(*old(m));
            let i = key_index(old_es, key@);
            resource_entries(*final(m)) == if i >= 0 {
                old_es.update(i, entry_of(key@, value))
            } else {
                old_es.push(entry_of(key@, value))
            }
        }),
{
    m.insert(key, value);
}

/// Wraps `IndexMap::shift_remove`: the entry for `key`, if any, is removed
/// and the entries after it shift down, keeping their order.
#[verifier::external_body]
pub(crate) fn resource_remove(m: &mut IndexMap<String, Resource>, key: &str)
    ensures
        ({
            let old_es = resource_entries(*old(m));
            let i = key_index(old_es, key@);
            resource_entries(*final(m)) == if i >= 0 {
                old_es.remove(i)
            } else {
                old_es
            }
        }),
{
    m.shift_remove(key);
}

/// A book: its metadata, its resources by zip path (manifest order), its
/// reading order, table of contents, cover path and package document path.
pub struct Book {
    pub metadata: Metadata,
    pub resources: IndexMap<String, Resource>,
    /// Zip paths of the reading-order documents.
    pub spine: Vec<String>,
    pub toc: Vec<TocEntry>,
    /// Zip path of the cover image, if the book has one.
    pub cover: Option<String>,
    /// Zip path of the package document.
    pub opf_path: String,
    /// Zip path of the EPUB 3 navigation document, if the book has one.
    pub nav_path: Option<String>,
    /// Zip path of the EPUB 2 NCX, if the book has one.
    pub ncx_path: Option<String>,
}

/// Where the written book's navigation document stands: its own, or
/// `nav.xhtml` beside the package document when it has none (the writer
/// generates one there).
pub open spec fn effective_nav_path_spec(book: Book) -> Seq<char> {
    match book.nav_path {
        Some(n) => n@,
        None => join_dir_spec(parent_dir_spec(book.opf_path@), "nav.xhtml"@),
    }
}

/// Where the written book's navigation document stands.
pub fn effective_nav_path(book: &Book) -> (r: String)
    ensures
        r@ == effective_nav_path_spec(*book),
{
    match &book.nav_path {
        Some(n) => n.clone(),
        None => crate::paths::join_dir(crate::paths::parent_dir(book.opf_path.as_str()).as_str(), "nav.xhtml"),
    }
}

/// An exact copy of a byte vector.
pub fn copy_bytes(v: &Vec<u8>) -> (r: Vec<u8>)
    ensures
        r@ == v@,
{
    let mut r: Vec<u8> = Vec::new();
    let mut i: usize = 0;
    while i < v.len()
        invariant
            i <= v@.len(),
            r@ == v@.take(i as int),
        decreases v.len() - i,
    {
        r.push(v[i]);
        i += 1;
        assert(r@ =~= v@.take(i as int));
    }
    assert(v@.take(v@.len() as int) =~= v@);
    r
}

/// An exact copy of a resource.
pub fn copy_resource(r: &Resource) -> (c: Resource)
    ensures
        c.data@ == r.data@,
        c.media_type@ == r.media_type@,
{
    Resource { data: copy_bytes(&r.data), media_type: crate::model::copy_string(&r.media_type) }
}

/// `name` split at its last dot into stem and extension; no extension
/// when there is no dot.
pub open spec fn rsplit_dot(name: Seq<char>) -> (Seq<char>, Seq<char>) {
    let i = last_index_of(name, '.');
    if i >= 0 {
        (name.take(i), name.skip(i + 1))
    } else {
        (name, Seq::empty())
    }
}

/// The paths a supplied cover must not take: every resource's path but
/// the current cover's.
pub open spec fn cover_blocked(
    es: Seq<(Seq<char>, Seq<u8>, Seq<char>)>,
    cover: Option<Seq<char>>,
) -> Set<Seq<char>> {
    Set::new(|p: Seq<char>| key_index(es, p) >= 0 && cover != Some(p))
}

/// `p` is where a supplied cover named `file_name` goes in `book`: next to
/// the package document under its own name, or, when another resource
/// holds that path, under `stem-2.ext`, `stem-3.ext`, ... whichever is
/// first free.
pub open spec fn cover_path(book: Book, file_name: Seq<char>, p: Seq<char>) -> bool {
    let dir = parent_dir_spec(book.opf_path@);
    let (stem, ext) = rsplit_dot(file_name);
    first_free(
        cover_blocked(resource_entries(book.resources), opt_view(book.cover)),
        join_dir_spec(dir, file_name),
        dir_prefix(dir) + stem + seq!['-'],
        ext_suffix(ext),
        2,
        p,
    )
}

/// The entries after storing `e` under its path: in place if the path is
/// there, else last.
pub open spec fn entries_with(
    es: Seq<(Seq<char>, Seq<u8>, Seq<char>)>,
    e: (Seq<char>, Seq<u8>, Seq<char>),
) -> Seq<(Seq<char>, Seq<u8>, Seq<char>)> {
    let i = key_index(es, e.0);
    if i >= 0 {
        es.update(i, e)
    } else {
        es.push(e)
    }
}

/// The paths a cover may not take, gathered into a set.
fn blocked_paths(book: &Book) -> (r: PathSet)
    ensures
        r@ == cover_blocked(resource_entries(book.resources), opt_view(book.cover)),
{
    let ghost es = resource_entries(book.resources);
    let keys = resource_paths(&book.resources);
    let mut taken = PathSet::new();
    let mut i: usize = 0;
    while i < keys.len()
        invariant
            i <= keys@.len(),
            keys@.len() == es.len(),
            forall|k: int| 0 <= k < keys@.len() ==> #[trigger] keys@[k]@ == es[k].0,
            taken@ == Set::new(
                |p: Seq<char>|
                    (exists|j: int| 0 <= j < i && #[trigger] es[j].0 == p) && opt_view(book.cover)
                        != Some(p),
            ),
        decreases keys.len() - i,
    {
        let path = chars_of(keys[i].as_str());
        let is_cover = match &book.cover {
            Some(c) => crate::text::same_chars(&chars_of(c.as_str()), &path),
            None => false,
        };
        let ghost before = taken@;
        if !is_cover {
            taken.insert(&path);
        }
        assert(taken@ =~= Set::new(
            |p: Seq<char>|
                (exists|j: int| 0 <= j < i + 1 && #[trigger] es[j].0 == p) && opt_view(book.cover)
                    != Some(p),
        )) by {
            assert forall|p: Seq<char>|
                (exists|j: int| 0 <= j < i + 1 && #[trigger] es[j].0 == p) && opt_view(book.cover)
                    != Some(p) implies taken@.contains(p) by {
                let j = choose|j: int| 0 <= j < i + 1 && #[trigger] es[j].0 == p;
                if j < i {
                    assert(before.contains(p));
                }
            }
            assert forall|p: Seq<char>| taken@.contains(p) implies (exists|j: int|
                0 <= j < i + 1 && #[trigger] es[j].0 == p) && opt_view(book.cover) != Some(p) by {
                if p != path@ {
                    assert(before.contains(p));
                } else {
                    assert(es[i as int].0 == p);
                }
            }
        }
        i += 1;
    }
    assert(taken@ =~= cover_blocked(es, opt_view(book.cover))) by {
        assert forall|p: Seq<char>| #[trigger] taken@.contains(p) == cover_blocked(
            es,
            opt_view(book.cover),
        ).contains(p) by {
            lemma_key_index(es, p);
            if key_index(es, p) >= 0 {
                assert(es[key_index(es, p)].0 == p);
            }
        }
    }
    taken
}

/// Embed a supplied cover image and point the book at it. It is placed
/// next to the package document, under a name that cannot collide with an
/// existing resource (the current cover's path may be reused).
pub fn set_cover(book: &mut Book, cover: &CoverImage, transformations: &mut Vec<Transformation>)
    ensures
        final(book).cover is Some,
        cover_path(*old(book), cover.file_name@, final(book).cover->0@),
        resource_entries(final(book).resources) == entries_with(
            resource_entries(old(book).resources),
            (final(book).cover->0@, cover.data@, cover.media_type@),
        ),
        final(book).metadata == old(book).metadata,
        final(book).spine == old(book).spine,
        final(book).toc == old(book).toc,
        final(book).opf_path == old(book).opf_path,
        final(book).nav_path == old(book).nav_path,
        final(book).ncx_path == old(book).ncx_path,
        final(transformations)@.len() == old(transformations)@.len() + 1,
        forall|i: int|
            0 <= i < old(transformations)@.len() ==> #[trigger] final(transformations)@[i]
                == old(transformations)@[i],
        ({
            let t = final(transformations)@.last();
            &&& t.kind@ == "cover-set"@
            &&& t.detail@ == if old(book).cover is Some {
                "replaced the cover with the supplied image"@
            } else {
                "added the supplied cover image"@
            }
            &&& t.file is Some && t.file->0@ == final(book).cover->0@
        }),
{
    let dir = crate::paths::parent_dir(book.opf_path.as_str());
    let first = chars_of(crate::paths::join_dir(dir.as_str(), cover.file_name.as_str()).as_str());
    let name = chars_of(cover.file_name.as_str());
    let name_len = name.len();
    let (stem, ext): (Vec<char>, Vec<char>) = match rfind_char(&name, '.') {
        Some(i) => {
            assert(i < name_len);
            (copy_range(&name, 0, i), copy_range(&name, i + 1, name_len))
        },
        None => (copy_range(&name, 0, name.len()), Vec::new()),
    };
    assert(stem@ == rsplit_dot(cover.file_name@).0);
    assert(ext@ == rsplit_dot(cover.file_name@).1);
    let mut prefix: Vec<char> = Vec::new();
    if !dir.as_str().is_empty() {
        push_str(&mut prefix, dir.as_str());
        prefix.push('/');
    }
    push_all(&mut prefix, &stem);
    prefix.push('-');
    let mut suffix: Vec<char> = Vec::new();
    if ext.len() > 0 {
        suffix.push('.');
        push_all(&mut suffix, &ext);
    }
    assert(prefix@ == dir_prefix(dir@) + stem@ + seq!['-']);
    assert(suffix@ == ext_suffix(ext@));
    let mut taken = blocked_paths(book);
    let path = crate::names::reserve_first_free(&mut taken, &first, &prefix, &suffix, 2);
    let replaced = book.cover.is_some();
    resource_insert(
        &mut book.resources,
        crate::model::copy_string(&path),
        Resource {
            data: copy_bytes(&cover.data),
            media_type: crate::model::copy_string(&cover.media_type),
        },
    );
    book.cover = Some(crate::model::copy_string(&path));
    let detail = if replaced {
        "replaced the cover with the supplied image".to_owned()
    } else {
        "added the supplied cover image".to_owned()
    };
    transformations.push(Transformation { kind: "cover-set".to_owned(), detail, file: Some(path) });
}

/// A supplied cover never takes the path of another resource: the path it
/// gets is free, or is the current cover's own.
pub proof fn law_cover_never_clobbers(book: Book, file_name: Seq<char>, p: Seq<char>)
    requires
        cover_path(book, file_name, p),
    ensures
        key_index(resource_entries(book.resources), p) < 0 || opt_view(book.cover) == Some(p),
{
    let es = resource_entries(book.resources);
    let blocked = cover_blocked(es, opt_view(book.cover));
    assert(!blocked.contains(p));
}

/// Storing an entry leaves every entry under another path where it was.
pub proof fn law_store_keeps_others(
    es: Seq<(Seq<char>, Seq<u8>, Seq<char>)>,
    e: (Seq<char>, Seq<u8>, Seq<char>),
    i: int,
)
    requires
        0 <= i < es.len(),
        es[i].0 != e.0,
    ensures
        entries_with(es, e)[i] == es[i],
{
    lemma_key_index(es, e.0);
}

// ---------------------------------------------------------------------
// Fonts
// ---------------------------------------------------------------------

/// Whether an entry is an embedded font, by media type or extension.
pub open spec fn entry_is_font(e: (Seq<char>, Seq<u8>, Seq<char>)) -> bool {
    crate::paths::font_media_type(e.2) || crate::paths::font_extension(e.0)
}

/// The paths of the font entries, in order.
pub open spec fn font_paths_of(es: Seq<(Seq<char>, Seq<u8>, Seq<char>)>) -> Seq<Seq<char>> {
    es.filter(|e: (Seq<char>, Seq<u8>, Seq<char>)| entry_is_font(e)).map_values(
        |e: (Seq<char>, Seq<u8>, Seq<char>)| e.0,
    )
}

/// The entries that are not fonts, in order.
pub open spec fn without_fonts(es: Seq<(Seq<char>, Seq<u8>, Seq<char>)>) -> Seq<
    (Seq<char>, Seq<u8>, Seq<char>),
> {
    es.filter(|e: (Seq<char>, Seq<u8>, Seq<char>)| !entry_is_font(e))
}

/// Items joined with `", "` between them.
pub open spec fn comma_joined(ps: Seq<Seq<char>>) -> Seq<char>
    decreases ps.len(),
{
    if ps.len() == 0 {
        Seq::empty()
    } else if ps.len() == 1 {
        ps[0]
    } else {
        comma_joined(ps.drop_last()) + ", "@ + ps.last()
    }
}

/// Remove every embedded font (a device that never loads them wastes the
/// bytes), report it, and return the removed paths so the `<link>`s that
/// point at them can be pruned.
pub fn strip_fonts(
    book: &mut Book,
    transformations: &mut Vec<Transformation>,
    warnings: &mut Vec<Warning>,
) -> (r: PathSet)
    ensures
        resource_entries(final(book).resources) == without_fonts(resource_entries(old(book).resources)),
        r@ == font_paths_of(resource_entries(old(book).resources)).to_set(),
        final(book).metadata == old(book).metadata,
        final(book).spine == old(book).spine,
        final(book).toc == old(book).toc,
        final(book).cover == old(book).cover,
        final(book).opf_path == old(book).opf_path,
        final(book).nav_path == old(book).nav_path,
        final(book).ncx_path == old(book).ncx_path,
        ({
            let fonts = font_paths_of(resource_entries(old(book).resources));
            if fonts.len() == 0 {
                &&& final(transformations)@ == old(transformations)@
                &&& final(warnings)@ == old(warnings)@
            } else {
                &&& final(transformations)@.len() == old(transformations)@.len() + 1
                &&& final(transformations)@.drop_last() == old(transformations)@
                &&& final(transformations)@.last().kind@ == "fonts-stripped"@
                &&& final(transformations)@.last().detail@ == "removed "@ + crate::text::decimal(
                    fonts.len(),
                ) + " embedded font file(s)"@
                &&& final(transformations)@.last().file is None
                &&& final(warnings)@.len() == old(warnings)@.len() + 1
                &&& final(warnings)@.drop_last() == old(warnings)@
                &&& final(warnings)@.last().message@ == "stripped "@ + crate::text::decimal(
                    fonts.len(),
                ) + " embedded font file(s) the device cannot load: "@ + comma_joined(fonts)
                &&& final(warnings)@.last().file is None
            }
        }),
{
    let ghost es = resource_entries(book.resources);
    let keys = resource_paths(&book.resources);
    let n = keys.len();
    let mut kept = new_resources();
    let mut fonts: Vec<String> = Vec::new();
    let mut listed: Vec<char> = Vec::new();
    let mut removed = PathSet::new();
    let mut i: usize = 0;
    reveal(Seq::filter);
    assert(es.take(0).filter(|e: (Seq<char>, Seq<u8>, Seq<char>)| !entry_is_font(e)) =~= Seq::<
        (Seq<char>, Seq<u8>, Seq<char>),
    >::empty());
    assert(es.take(0).filter(|e: (Seq<char>, Seq<u8>, Seq<char>)| entry_is_font(e)) =~= Seq::<
        (Seq<char>, Seq<u8>, Seq<char>),
    >::empty());
    while i < n
        invariant
            i <= n,
            n == es.len(),
            es == resource_entries(book.resources),
            keys@.len() == n,
            forall|k: int| 0 <= k < n ==> #[trigger] keys@[k]@ == es[k].0,
            forall|a: int, b: int| 0 <= a < b < n ==> #[trigger] keys@[a]@ != #[trigger] keys@[b]@,
            resource_entries(kept) == without_fonts(es.take(i as int)),
            fonts@.len() == font_paths_of(es.take(i as int)).len(),
            forall|k: int| 0 <= k < fonts@.len() ==> #[trigger] fonts@[k]@ == font_paths_of(
                es.take(i as int),
            )[k],
            listed@ == comma_joined(font_paths_of(es.take(i as int))),
            removed@ == font_paths_of(es.take(i as int)).to_set(),
        decreases n - i,
    {
        let (path, res) = match resource_at(&book.resources, i) {
            Some(pr) => pr,
            None => {
                assert(false);
                return PathSet::new();
            },
        };
        let ghost e = es[i as int];
        assert(entry_of(path@, *res) == e);
        reveal(Seq::filter);
        let ghost before_kept = resource_entries(kept);
        let ghost prev_fonts = font_paths_of(es.take(i as int));
        assert(es.take(i + 1).drop_last() =~= es.take(i as int));
        assert(es.take(i + 1).last() == e);
        if crate::paths::is_font(path.as_str(), res.media_type.as_str()) {
            assert(font_paths_of(es.take(i + 1)) =~= prev_fonts.push(e.0));
            let pv = chars_of(path.as_str());
            if fonts.len() > 0 {
                push_str(&mut listed, ", ");
            }
            push_all(&mut listed, &pv);
            assert(prev_fonts.push(e.0).drop_last() =~= prev_fonts);
            let ghost before_removed = removed@;
            removed.insert(&pv);
            assert(pv@ == e.0);
            let ghost grown = prev_fonts.push(e.0);
            assert(removed@ =~= grown.to_set()) by {
                assert forall|x: Seq<char>| #[trigger] removed@.contains(x) implies grown.contains(x) by {
                    if x == e.0 {
                        assert(grown[prev_fonts.len() as int] == x);
                    } else {
                        assert(prev_fonts.to_set().contains(x));
                        let k = prev_fonts.index_of(x);
                        assert(grown[k] == x);
                    }
                }
                assert forall|x: Seq<char>| grown.contains(x) implies #[trigger] removed@.contains(x) by {
                    let k = grown.index_of(x);
                    if k < prev_fonts.len() {
                        assert(prev_fonts[k] == x);
                        assert(prev_fonts.contains(x));
                        assert(before_removed.contains(x));
                    }
                }
            }
            fonts.push(crate::model::copy_string(path));
            assert(without_fonts(es.take(i + 1)) =~= before_kept);
        } else {
            assert(font_paths_of(es.take(i + 1)) =~= prev_fonts);
            // The path is new to `kept`: every entry there came earlier.
            proof {
                lemma_key_index(before_kept, e.0);
                if key_index(before_kept, e.0) >= 0 {
                    let k = key_index(before_kept, e.0);
                    assert(before_kept.contains(before_kept[k]));
                    es.take(i as int).lemma_filter_contains_rev(
                        |e: (Seq<char>, Seq<u8>, Seq<char>)| !entry_is_font(e),
                        before_kept[k],
                    );
                    let j = choose|j: int|
                        0 <= j < i && es.take(i as int)[j] == before_kept[k];
                    assert(es[j] == es.take(i as int)[j]);
                    assert(keys@[j]@ == es[j].0);
                    assert(keys@[i as int]@ == es[i as int].0);
                }
            }
            resource_insert(&mut kept, crate::model::copy_string(path), copy_resource(res));
            assert(resource_entries(kept) =~= without_fonts(es.take(i + 1)));
        }
        i += 1;
    }
    assert(es.take(n as int) =~= es);
    book.resources = kept;
    if fonts.len() == 0 {
        return removed;
    }
    let mut detail: Vec<char> = Vec::new();
    push_str(&mut detail, "removed ");
    crate::text::push_decimal(&mut detail, fonts.len() as u128);
    push_str(&mut detail, " embedded font file(s)");
    transformations.push(
        Transformation { kind: "fonts-stripped".to_owned(), detail: string_of(&detail), file: None },
    );
    let mut message: Vec<char> = Vec::new();
    push_str(&mut message, "stripped ");
    crate::text::push_decimal(&mut message, fonts.len() as u128);
    push_str(&mut message, " embedded font file(s) the device cannot load: ");
    push_all(&mut message, &listed);
    warnings.push(Warning { message: string_of(&message), file: None });
    removed
}

} // verus!
