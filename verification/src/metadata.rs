//! The metadata document: user-supplied metadata merged into a book.
//!
//! Every field of a [`MetadataDoc`] is optional, and absent means *say
//! nothing* - not *clear it*. That is what makes the default
//! [`MergeMode::Fill`] safe: a document with only a publisher in it moves
//! nothing else.

use vstd::prelude::*;

use crate::model::{
    Creator, Identifier, Metadata, Series, copy_creator, copy_creators, copy_identifier,
    copy_identifiers, copy_opt, copy_string, copy_strings, opt_view,
};
use crate::report::{Transformation, Warning};
use crate::text::{chars_of, push_all, push_str, string_of, trim, trimmed};

verus! {

/// Either a single value or a list of them.
#[derive(Debug, Clone)]
pub enum OneOrMany<T> {
    One(T),
    Many(Vec<T>),
}

impl<T> OneOrMany<T> {
    /// The values, in order.
    pub open spec fn items(self) -> Seq<T> {
        match self {
            OneOrMany::One(one) => seq![one],
            OneOrMany::Many(many) => many@,
        }
    }

    /// The values as a list.
    pub fn into_vec(self) -> (r: Vec<T>)
        ensures
            r@ == self.items(),
    {
        match self {
            OneOrMany::One(one) => vec![one],
            OneOrMany::Many(many) => many,
        }
    }
}

/// An exact copy of a one-or-many list of creators, as a list.
fn creators_of(o: &OneOrMany<Creator>) -> (r: Vec<Creator>)
    ensures
        r@ == o.items(),
{
    match o {
        OneOrMany::One(one) => vec![copy_creator(one)],
        OneOrMany::Many(many) => copy_creators(many),
    }
}

/// An exact copy of a one-or-many list of strings, as a list.
fn strings_of(o: &OneOrMany<String>) -> (r: Vec<String>)
    ensures
        r@ == o.items(),
{
    match o {
        OneOrMany::One(one) => vec![copy_string(one)],
        OneOrMany::Many(many) => copy_strings(many),
    }
}

/// User-supplied metadata. Every field optional; absent means "leave it
/// alone".
#[derive(Debug, Clone, Default)]
pub struct MetadataDoc {
    pub title: Option<String>,
    pub authors: Option<OneOrMany<Creator>>,
    pub contributors: Option<OneOrMany<Creator>>,
    pub language: Option<String>,
    /// The book's unique identifier. Only ever *fills* an absent one.
    pub identifier: Option<String>,
    /// Secondary identifiers.
    pub identifiers: Option<Vec<Identifier>>,
    /// Shorthand for an identifier with scheme `ISBN`.
    pub isbn: Option<String>,
    pub description: Option<String>,
    pub publisher: Option<String>,
    pub subjects: Option<OneOrMany<String>>,
    pub date: Option<String>,
    pub rights: Option<String>,
    pub series: Option<String>,
    pub series_index: Option<String>,
    /// Path to a cover image to embed.
    pub cover: Option<String>,
}

/// How a [`MetadataDoc`] meets the metadata already in the book.
#[derive(Debug, Clone, Copy, PartialEq, Eq, Default)]
pub enum MergeMode {
    /// Only write a field the book does not already have.
    #[default]
    Fill,
    /// Every field the document mentions wins.
    Replace,
}

impl MetadataDoc {
    /// Whether the document says nothing at all.
    pub open spec fn says_nothing(&self) -> bool {
        &&& self.title is None
        &&& self.authors is None
        &&& self.contributors is None
        &&& self.language is None
        &&& self.identifier is None
        &&& self.identifiers is None
        &&& self.isbn is None
        &&& self.description is None
        &&& self.publisher is None
        &&& self.subjects is None
        &&& self.date is None
        &&& self.rights is None
        &&& self.series is None
        &&& self.series_index is None
        &&& self.cover is None
    }

    /// Whether this document says anything at all.
    pub fn is_empty(&self) -> (r: bool)
        ensures
            r == self.says_nothing(),
    {
        self.title.is_none() && self.authors.is_none() && self.contributors.is_none()
            && self.language.is_none() && self.identifier.is_none() && self.identifiers.is_none()
            && self.isbn.is_none() && self.description.is_none() && self.publisher.is_none()
            && self.subjects.is_none() && self.date.is_none() && self.rights.is_none()
            && self.series.is_none() && self.series_index.is_none() && self.cover.is_none()
    }
}

// ---------------------------------------------------------------------
// Specification of `apply`
// ---------------------------------------------------------------------

/// Whether `s` is empty once trimmed.
pub open spec fn is_blank(s: Seq<char>) -> bool {
    trim(s).len() == 0
}

/// Whether an optional scalar is written: the document has a value and the
/// book is silent (or the mode replaces).
pub open spec fn scalar_sets(doc: Option<String>, cur: Option<String>, replace: bool) -> bool {
    doc is Some && (replace || cur is None)
}

/// The optional scalar after the merge.
pub open spec fn merged_scalar(doc: Option<String>, cur: Option<String>, replace: bool) -> Option<
    String,
> {
    if scalar_sets(doc, cur, replace) {
        doc
    } else {
        cur
    }
}

/// Whether the title is written: a non-blank document title, and a book
/// title that is empty or the placeholder `Untitled` (or the mode replaces).
pub open spec fn title_sets(doc: MetadataDoc, m: Metadata, replace: bool) -> bool {
    match doc.title {
        Some(t) => !is_blank(t@) && (replace || m.title@.len() == 0 || m.title@ == "Untitled"@),
        None => false,
    }
}

/// Whether the language is written.
pub open spec fn language_sets(doc: MetadataDoc, m: Metadata, replace: bool) -> bool {
    match doc.language {
        Some(l) => !is_blank(l@) && (replace || m.language@.len() == 0),
        None => false,
    }
}

/// Whether a list field is written: the document has it and the book's is
/// empty (or the mode replaces).
pub open spec fn list_sets<T, U>(doc: Option<T>, cur: Seq<U>, replace: bool) -> bool {
    doc is Some && (replace || cur.len() == 0)
}

/// Whether a whole series is written.
pub open spec fn series_sets(doc: MetadataDoc, m: Metadata, replace: bool) -> bool {
    match doc.series {
        Some(name) => !is_blank(name@) && (replace || m.series is None),
        None => false,
    }
}

/// Whether only the series index is written (onto an existing series).
pub open spec fn series_index_sets(doc: MetadataDoc, m: Metadata, replace: bool) -> bool {
    !series_sets(doc, m, replace) && doc.series_index is Some && match m.series {
        Some(s) => replace || s.index is None,
        None => false,
    }
}

/// The series after the merge.
pub open spec fn merged_series(doc: MetadataDoc, m: Metadata, replace: bool) -> Option<Series> {
    if series_sets(doc, m, replace) {
        Some(Series { name: doc.series->0, index: doc.series_index })
    } else if series_index_sets(doc, m, replace) {
        Some(Series { name: m.series->0.name, index: doc.series_index })
    } else {
        m.series
    }
}

/// The non-blank unique identifier the document asks for.
pub open spec fn wanted_identifier(doc: MetadataDoc) -> Option<String> {
    match doc.identifier {
        Some(w) => if is_blank(w@) {
            None
        } else {
            Some(w)
        },
        None => None,
    }
}

/// Whether the document's unique identifier fills an absent one.
pub open spec fn identifier_fills(doc: MetadataDoc, m: Metadata) -> bool {
    wanted_identifier(doc) is Some && m.identifier is None
}

/// Whether the document asks to change an existing, different unique
/// identifier - which is refused.
pub open spec fn identifier_refused(doc: MetadataDoc, m: Metadata) -> bool {
    match (wanted_identifier(doc), m.identifier) {
        (Some(w), Some(e)) => e@ != w@,
        _ => false,
    }
}

/// The unique identifier after the merge: filled when absent, never
/// replaced.
pub open spec fn merged_identifier(doc: MetadataDoc, m: Metadata) -> Option<String> {
    if identifier_fills(doc, m) {
        wanted_identifier(doc)
    } else {
        m.identifier
    }
}

/// An identifier record by its characters.
pub open spec fn id_view(id: Identifier) -> (Seq<char>, Option<Seq<char>>) {
    (id.value@, opt_view(id.scheme))
}

/// Whether the book already carries the value `v`: the unique identifier or
/// one already listed equals it, both compared trimmed.
pub open spec fn carries(
    unique: Option<Seq<char>>,
    ids: Seq<(Seq<char>, Option<Seq<char>>)>,
    v: Seq<char>,
) -> bool {
    (unique matches Some(u) && trim(u) == v) || exists|i: int|
        0 <= i < ids.len() && trim(#[trigger] ids[i].0) == v
}

/// Whether identifier `c` lands as a secondary identifier: the book does
/// not carry its trimmed value yet.
pub open spec fn lands(
    unique: Option<Seq<char>>,
    ids: Seq<(Seq<char>, Option<Seq<char>>)>,
    c: (Seq<char>, Option<Seq<char>>),
) -> bool {
    !carries(unique, ids, trim(c.0))
}

/// `ids` after trying each candidate in turn.
pub open spec fn push_each(
    unique: Option<Seq<char>>,
    ids: Seq<(Seq<char>, Option<Seq<char>>)>,
    cands: Seq<(Seq<char>, Option<Seq<char>>)>,
) -> Seq<(Seq<char>, Option<Seq<char>>)>
    decreases cands.len(),
{
    if cands.len() == 0 {
        ids
    } else {
        let prev = push_each(unique, ids, cands.drop_last());
        if lands(unique, prev, cands.last()) {
            prev.push(cands.last())
        } else {
            prev
        }
    }
}

/// The refused unique identifier, kept as a secondary identifier candidate.
pub open spec fn refused_candidates(doc: MetadataDoc, m: Metadata) -> Seq<
    (Seq<char>, Option<Seq<char>>),
> {
    if identifier_refused(doc, m) {
        seq![(wanted_identifier(doc)->0@, None)]
    } else {
        Seq::empty()
    }
}

/// The document's non-blank secondary identifiers, in order.
pub open spec fn doc_candidates(doc: MetadataDoc) -> Seq<(Seq<char>, Option<Seq<char>>)> {
    match doc.identifiers {
        Some(v) => v@.map_values(|id: Identifier| id_view(id)).filter(
            |c: (Seq<char>, Option<Seq<char>>)| !is_blank(c.0),
        ),
        None => Seq::empty(),
    }
}

/// The document's non-blank ISBN, as an identifier with scheme `ISBN`.
pub open spec fn isbn_candidates(doc: MetadataDoc) -> Seq<(Seq<char>, Option<Seq<char>>)> {
    match doc.isbn {
        Some(i) => if is_blank(i@) {
            Seq::empty()
        } else {
            seq![(i@, Some("ISBN"@))]
        },
        None => Seq::empty(),
    }
}

/// The secondary identifiers after the refused unique identifier has been
/// tried.
pub open spec fn ids_after_refused(doc: MetadataDoc, m: Metadata) -> Seq<
    (Seq<char>, Option<Seq<char>>),
> {
    push_each(
        opt_view(merged_identifier(doc, m)),
        m.identifiers@.map_values(|id: Identifier| id_view(id)),
        refused_candidates(doc, m),
    )
}

/// ... and then the document's own secondary identifiers.
pub open spec fn ids_after_doc(doc: MetadataDoc, m: Metadata) -> Seq<
    (Seq<char>, Option<Seq<char>>),
> {
    push_each(
        opt_view(merged_identifier(doc, m)),
        ids_after_refused(doc, m),
        doc_candidates(doc),
    )
}

/// ... and finally the ISBN shorthand.
pub open spec fn ids_after_isbn(doc: MetadataDoc, m: Metadata) -> Seq<
    (Seq<char>, Option<Seq<char>>),
> {
    push_each(opt_view(merged_identifier(doc, m)), ids_after_doc(doc, m), isbn_candidates(doc))
}

/// `name` if `cond`, else nothing.
pub open spec fn name_if(cond: bool, name: Seq<char>) -> Seq<Seq<char>> {
    if cond {
        seq![name]
    } else {
        Seq::empty()
    }
}

/// The scalar fields `apply` records as set, in order.
pub open spec fn scalar_names(doc: MetadataDoc, m: Metadata, replace: bool) -> Seq<Seq<char>> {
    name_if(scalar_sets(doc.description, m.description, replace), "description"@)
        + name_if(scalar_sets(doc.publisher, m.publisher, replace), "publisher"@)
        + name_if(scalar_sets(doc.date, m.date, replace), "date"@)
        + name_if(scalar_sets(doc.rights, m.rights, replace), "rights"@)
        + name_if(title_sets(doc, m, replace), "title"@)
        + name_if(language_sets(doc, m, replace), "language"@)
}

/// The list fields `apply` records as set, in order.
pub open spec fn list_names(doc: MetadataDoc, m: Metadata, replace: bool) -> Seq<Seq<char>> {
    name_if(list_sets(doc.authors, m.authors@, replace), "authors"@)
        + name_if(list_sets(doc.contributors, m.contributors@, replace), "contributors"@)
        + name_if(list_sets(doc.subjects, m.subjects@, replace), "subjects"@)
}

/// The series fields `apply` records as set.
pub open spec fn series_names(doc: MetadataDoc, m: Metadata, replace: bool) -> Seq<Seq<char>> {
    name_if(series_sets(doc, m, replace), "series"@)
        + name_if(series_index_sets(doc, m, replace), "series index"@)
}

/// The identifier records `apply` makes: one when the unique identifier is
/// filled, one per secondary identifier of the document that lands, and one
/// when the ISBN lands.
pub open spec fn identifier_names(doc: MetadataDoc, m: Metadata) -> Seq<Seq<char>> {
    name_if(identifier_fills(doc, m), "identifier"@) + Seq::new(
        (ids_after_doc(doc, m).len() - ids_after_refused(doc, m).len()) as nat,
        |i: int| "identifier"@,
    ) + name_if(ids_after_isbn(doc, m).len() > ids_after_doc(doc, m).len(), "ISBN"@)
}

/// The fields `apply` records as set, in order.
pub open spec fn set_fields(doc: MetadataDoc, m: Metadata, replace: bool) -> Seq<Seq<char>> {
    scalar_names(doc, m, replace) + list_names(doc, m, replace) + series_names(doc, m, replace)
        + identifier_names(doc, m)
}

/// Whether `t` records that `field` was set from the supplied metadata.
pub open spec fn records_set(t: Transformation, field: Seq<char>) -> bool {
    &&& t.kind@ == "metadata-set"@
    &&& t.detail@ == "set "@ + field + " from the supplied metadata"@
    &&& t.file is None
}

/// Whether `after` is `before` followed by one record per name in `names`.
pub open spec fn records_all(
    before: Seq<Transformation>,
    after: Seq<Transformation>,
    names: Seq<Seq<char>>,
) -> bool {
    &&& after.len() == before.len() + names.len()
    &&& after.take(before.len() as int) == before
    &&& forall|i: int|
        0 <= i < names.len() ==> #[trigger] records_set(after[before.len() + i], names[i])
}

/// The warning `apply` gives when it refuses to change the unique
/// identifier to `wanted`.
pub open spec fn refusal_message(wanted: Seq<char>) -> Seq<char> {
    "refusing to change the book's unique identifier to \""@ + wanted
        + "\": a reading system keys your library and reading position off it. Kept it as a secondary identifier instead."@
}

// ---------------------------------------------------------------------
// Implementation of `apply`
// ---------------------------------------------------------------------

/// Record that `field` was set.
fn record_set(transformations: &mut Vec<Transformation>, field: &str)
    ensures
        final(transformations)@.len() == old(transformations)@.len() + 1,
        final(transformations)@.take(old(transformations)@.len() as int) == old(transformations)@,
        records_set(final(transformations)@.last(), field@),
{
    let mut detail = chars_of("set ");
    push_str(&mut detail, field);
    push_str(&mut detail, " from the supplied metadata");
    transformations.push(
        Transformation {
            kind: "metadata-set".to_owned(),
            detail: string_of(&detail),
            file: None,
        },
    );
    assert(transformations@.take(old(transformations)@.len() as int) == old(transformations)@);
}

/// `records_all` extends by one record.
proof fn lemma_records_push(
    before: Seq<Transformation>,
    mid: Seq<Transformation>,
    after: Seq<Transformation>,
    names: Seq<Seq<char>>,
    field: Seq<char>,
)
    requires
        records_all(before, mid, names),
        after.len() == mid.len() + 1,
        after.take(mid.len() as int) == mid,
        records_set(after.last(), field),
    ensures
        records_all(before, after, names.push(field)),
{
    assert(after.take(before.len() as int) == mid.take(before.len() as int));
    assert forall|i: int| 0 <= i < names.push(field).len() implies #[trigger] records_set(
        after[before.len() + i],
        names.push(field)[i],
    ) by {
        if i < names.len() {
            assert(after[before.len() + i] == mid[before.len() + i]);
        }
    }
}

/// Record `field` when `cond`, keeping `records_all` up to date.
fn record_if(
    transformations: &mut Vec<Transformation>,
    cond: bool,
    field: &str,
    Ghost(before): Ghost<Seq<Transformation>>,
    Ghost(names): Ghost<Seq<Seq<char>>>,
)
    requires
        records_all(before, old(transformations)@, names),
    ensures
        records_all(before, final(transformations)@, names + name_if(cond, field@)),
{
    if cond {
        let ghost mid = transformations@;
        record_set(transformations, field);
        proof {
            lemma_records_push(before, mid, transformations@, names, field@);
            assert(names + name_if(cond, field@) == names.push(field@));
        }
    } else {
        assert(names + name_if(cond, field@) == names);
    }
}

/// Merge one optional scalar.
fn merge_scalar(doc: &Option<String>, cur: &mut Option<String>, replace: bool) -> (set: bool)
    ensures
        set == scalar_sets(*doc, *old(cur), replace),
        *final(cur) == merged_scalar(*doc, *old(cur), replace),
{
    match doc {
        Some(value) => {
            if replace || cur.is_none() {
                *cur = Some(copy_string(value));
                true
            } else {
                false
            }
        },
        None => false,
    }
}

/// Whether `s` is empty once trimmed.
fn blank(s: &String) -> (r: bool)
    ensures
        r == is_blank(s@),
{
    let v = chars_of(s.as_str());
    trimmed(&v).len() == 0
}

/// Add a secondary identifier unless the book already carries its (trimmed)
/// value, as its unique identifier or as a secondary one. Returns whether
/// it landed.
fn push_identifier(metadata: &mut Metadata, id: Identifier) -> (landed: bool)
    ensures
        landed == lands(
            opt_view(old(metadata).identifier),
            old(metadata).identifiers@.map_values(|x: Identifier| id_view(x)),
            id_view(id),
        ),
        final(metadata).identifiers@ == if landed {
            old(metadata).identifiers@.push(id)
        } else {
            old(metadata).identifiers@
        },
        *final(metadata) == (Metadata { identifiers: final(metadata).identifiers, ..*old(metadata) }),
{
    let ghost start = *metadata;
    let ghost ids = metadata.identifiers@.map_values(|x: Identifier| id_view(x));
    let value = trimmed(&chars_of(id.value.as_str()));
    assert(value@ == trim(id_view(id).0));
    let same_as_unique = match &metadata.identifier {
        Some(u) => crate::text::same_chars(&trimmed(&chars_of(u.as_str())), &value),
        None => false,
    };
    if same_as_unique {
        return false;
    }
    let mut i: usize = 0;
    while i < metadata.identifiers.len()
        invariant
            i <= metadata.identifiers@.len(),
            *metadata == start,
            value@ == trim(id_view(id).0),
            ids == start.identifiers@.map_values(|x: Identifier| id_view(x)),
            forall|k: int| 0 <= k < i ==> trim(#[trigger] ids[k].0) != value@,
            !(opt_view(start.identifier) matches Some(u) && trim(u) == value@),
        decreases metadata.identifiers.len() - i,
    {
        let e = trimmed(&chars_of(metadata.identifiers[i].value.as_str()));
        if crate::text::same_chars(&e, &value) {
            assert(trim(ids[i as int].0) == value@);
            assert(0 <= i < ids.len());
            return false;
        }
        i += 1;
    }
    metadata.identifiers.push(id);
    true
}

/// Try each candidate identifier in turn.
fn push_all_identifiers(metadata: &mut Metadata, cands: Vec<Identifier>) -> (landed: usize)
    ensures
        final(metadata).identifiers@.map_values(|x: Identifier| id_view(x)) == push_each(
            opt_view(old(metadata).identifier),
            old(metadata).identifiers@.map_values(|x: Identifier| id_view(x)),
            cands@.map_values(|x: Identifier| id_view(x)),
        ),
        landed == final(metadata).identifiers@.len() - old(metadata).identifiers@.len(),
        *final(metadata) == (Metadata { identifiers: final(metadata).identifiers, ..*old(metadata) }),
{
    let ghost start = *metadata;
    let ghost cv = cands@.map_values(|x: Identifier| id_view(x));
    let mut landed: usize = 0;
    let mut i: usize = 0;
    while i < cands.len()
        invariant
            i <= cands@.len(),
            cv == cands@.map_values(|x: Identifier| id_view(x)),
            *metadata == (Metadata { identifiers: metadata.identifiers, ..start }),
            metadata.identifiers@.map_values(|x: Identifier| id_view(x)) == push_each(
                opt_view(start.identifier),
                start.identifiers@.map_values(|x: Identifier| id_view(x)),
                cv.take(i as int),
            ),
            metadata.identifiers@.len() == start.identifiers@.len() + landed,
            landed <= i,
        decreases cands.len() - i,
    {
        let ghost before_ids = metadata.identifiers@;
        let ok = push_identifier(metadata, copy_identifier(&cands[i]));
        proof {
            assert(cv.take(i + 1).drop_last() == cv.take(i as int));
            assert(cv.take(i + 1).last() == id_view(cands@[i as int]));
            if ok {
                assert(metadata.identifiers@.map_values(|x: Identifier| id_view(x))
                    == before_ids.map_values(|x: Identifier| id_view(x)).push(
                    id_view(cands@[i as int]),
                ));
            }
        }
        if ok {
            landed = landed + 1;
        }
        i += 1;
    }
    assert(cv.take(cands.len() as int) == cv);
    landed
}

/// The document's non-blank secondary identifiers.
fn doc_identifier_list(doc: &MetadataDoc) -> (r: Vec<Identifier>)
    ensures
        r@.map_values(|x: Identifier| id_view(x)) == doc_candidates(*doc),
{
    let mut r: Vec<Identifier> = Vec::new();
    match &doc.identifiers {
        None => {
            assert(r@.map_values(|x: Identifier| id_view(x)) =~= Seq::empty());
        },
        Some(v) => {
            let ghost all = v@.map_values(|x: Identifier| id_view(x));
            let mut i: usize = 0;
            while i < v.len()
                invariant
                    i <= v@.len(),
                    all == v@.map_values(|x: Identifier| id_view(x)),
                    r@.map_values(|x: Identifier| id_view(x)) == all.take(i as int).filter(
                        |c: (Seq<char>, Option<Seq<char>>)| !is_blank(c.0),
                    ),
                decreases v.len() - i,
            {
                proof {
                    reveal(Seq::filter);
                    assert(all.take(i + 1).drop_last() == all.take(i as int));
                }
                if !blank(&v[i].value) {
                    let ghost prev = r@;
                    r.push(copy_identifier(&v[i]));
                    assert(r@.map_values(|x: Identifier| id_view(x)) == prev.map_values(
                        |x: Identifier| id_view(x),
                    ).push(id_view(v@[i as int])));
                }
                i += 1;
            }
            assert(all.take(v.len() as int) == all);
        },
    }
    r
}

/// Merge the scalar fields: description, publisher, date, rights, title and
/// language.
fn merge_scalars(
    doc: &MetadataDoc,
    metadata: &mut Metadata,
    replace: bool,
    transformations: &mut Vec<Transformation>,
    Ghost(t0): Ghost<Seq<Transformation>>,
    Ghost(names): Ghost<Seq<Seq<char>>>,
)
    requires
        records_all(t0, old(transformations)@, names),
    ensures
        records_all(t0, final(transformations)@, names + scalar_names(*doc, *old(metadata), replace)),
        *final(metadata) == (Metadata {
            description: merged_scalar(doc.description, old(metadata).description, replace),
            publisher: merged_scalar(doc.publisher, old(metadata).publisher, replace),
            date: merged_scalar(doc.date, old(metadata).date, replace),
            rights: merged_scalar(doc.rights, old(metadata).rights, replace),
            title: if title_sets(*doc, *old(metadata), replace) {
                doc.title->0
            } else {
                old(metadata).title
            },
            language: if language_sets(*doc, *old(metadata), replace) {
                doc.language->0
            } else {
                old(metadata).language
            },
            ..*old(metadata)
        }),
{
    let ghost m = *metadata;
    let s = merge_scalar(&doc.description, &mut metadata.description, replace);
    record_if(transformations, s, "description", Ghost(t0), Ghost(names));
    let ghost names1 = names + name_if(s, "description"@);
    let s = merge_scalar(&doc.publisher, &mut metadata.publisher, replace);
    record_if(transformations, s, "publisher", Ghost(t0), Ghost(names1));
    let ghost names2 = names1 + name_if(s, "publisher"@);
    let s = merge_scalar(&doc.date, &mut metadata.date, replace);
    record_if(transformations, s, "date", Ghost(t0), Ghost(names2));
    let ghost names3 = names2 + name_if(s, "date"@);
    let s = merge_scalar(&doc.rights, &mut metadata.rights, replace);
    record_if(transformations, s, "rights", Ghost(t0), Ghost(names3));
    let ghost names4 = names3 + name_if(s, "rights"@);

    let ghost m4 = *metadata;
    merge_title_language(doc, metadata, replace, transformations, Ghost(t0), Ghost(names4));
    assert(m4.title == m.title && m4.language == m.language);
    proof {
        lemma_concat6(
            names,
            name_if(scalar_sets(doc.description, m.description, replace), "description"@),
            name_if(scalar_sets(doc.publisher, m.publisher, replace), "publisher"@),
            name_if(scalar_sets(doc.date, m.date, replace), "date"@),
            name_if(scalar_sets(doc.rights, m.rights, replace), "rights"@),
            name_if(title_sets(*doc, m, replace), "title"@),
            name_if(language_sets(*doc, m, replace), "language"@),
        );
    }
}

/// Regrouping a concatenation of seven sequences.
proof fn lemma_concat6<A>(
    n: Seq<A>,
    a: Seq<A>,
    b: Seq<A>,
    c: Seq<A>,
    d: Seq<A>,
    t: Seq<A>,
    l: Seq<A>,
)
    ensures
        (n + a + b + c + d) + (t + l) == n + (a + b + c + d + t + l),
{
    assert((n + a + b + c + d) + (t + l) =~= n + (a + b + c + d + t + l));
}

/// Merge the title and the language, each only when non-blank.
fn merge_title_language(
    doc: &MetadataDoc,
    metadata: &mut Metadata,
    replace: bool,
    transformations: &mut Vec<Transformation>,
    Ghost(t0): Ghost<Seq<Transformation>>,
    Ghost(names): Ghost<Seq<Seq<char>>>,
)
    requires
        records_all(t0, old(transformations)@, names),
    ensures
        records_all(
            t0,
            final(transformations)@,
            names + (name_if(title_sets(*doc, *old(metadata), replace), "title"@) + name_if(
                language_sets(*doc, *old(metadata), replace),
                "language"@,
            )),
        ),
        *final(metadata) == (Metadata {
            title: if title_sets(*doc, *old(metadata), replace) {
                doc.title->0
            } else {
                old(metadata).title
            },
            language: if language_sets(*doc, *old(metadata), replace) {
                doc.language->0
            } else {
                old(metadata).language
            },
            ..*old(metadata)
        }),
{
    let ghost m = *metadata;
    let mut s = false;
    if let Some(title) = &doc.title {
        if !blank(title) && (replace || metadata.title.as_str().is_empty()
            || crate::text::same_chars(&chars_of(metadata.title.as_str()), &chars_of("Untitled")))
        {
            metadata.title = copy_string(title);
            s = true;
        }
    }
    assert(s == title_sets(*doc, m, replace));
    record_if(transformations, s, "title", Ghost(t0), Ghost(names));
    let ghost names1 = names + name_if(s, "title"@);

    let mut s2 = false;
    if let Some(language) = &doc.language {
        if !blank(language) && (replace || metadata.language.as_str().is_empty()) {
            metadata.language = copy_string(language);
            s2 = true;
        }
    }
    record_if(transformations, s2, "language", Ghost(t0), Ghost(names1));
    assert(names1 + name_if(s2, "language"@) == names + (name_if(s, "title"@) + name_if(
        s2,
        "language"@,
    )));
}

/// Merge the list fields: authors, contributors and subjects.
fn merge_lists(
    doc: &MetadataDoc,
    metadata: &mut Metadata,
    replace: bool,
    transformations: &mut Vec<Transformation>,
    Ghost(t0): Ghost<Seq<Transformation>>,
    Ghost(names): Ghost<Seq<Seq<char>>>,
)
    requires
        records_all(t0, old(transformations)@, names),
    ensures
        records_all(t0, final(transformations)@, names + list_names(*doc, *old(metadata), replace)),
        final(metadata).authors@ == if list_sets(doc.authors, old(metadata).authors@, replace) {
            doc.authors->0.items()
        } else {
            old(metadata).authors@
        },
        final(metadata).contributors@ == if list_sets(
            doc.contributors,
            old(metadata).contributors@,
            replace,
        ) {
            doc.contributors->0.items()
        } else {
            old(metadata).contributors@
        },
        final(metadata).subjects@ == if list_sets(doc.subjects, old(metadata).subjects@, replace) {
            doc.subjects->0.items()
        } else {
            old(metadata).subjects@
        },
        *final(metadata) == (Metadata {
            authors: final(metadata).authors,
            contributors: final(metadata).contributors,
            subjects: final(metadata).subjects,
            ..*old(metadata)
        }),
{
    let ghost m = *metadata;
    let mut s = false;
    if let Some(authors) = &doc.authors {
        if replace || metadata.authors.len() == 0 {
            metadata.authors = creators_of(authors);
            s = true;
        }
    }
    record_if(transformations, s, "authors", Ghost(t0), Ghost(names));
    let ghost names1 = names + name_if(s, "authors"@);

    let mut s = false;
    if let Some(contributors) = &doc.contributors {
        if replace || metadata.contributors.len() == 0 {
            metadata.contributors = creators_of(contributors);
            s = true;
        }
    }
    record_if(transformations, s, "contributors", Ghost(t0), Ghost(names1));
    let ghost names2 = names1 + name_if(s, "contributors"@);

    let mut s = false;
    if let Some(subjects) = &doc.subjects {
        if replace || metadata.subjects.len() == 0 {
            metadata.subjects = strings_of(subjects);
            s = true;
        }
    }
    record_if(transformations, s, "subjects", Ghost(t0), Ghost(names2));
    assert(names2 + name_if(s, "subjects"@) == names + list_names(*doc, m, replace));
}

/// Merge the series: a whole new one, or only the index of an existing one.
fn merge_series(
    doc: &MetadataDoc,
    metadata: &mut Metadata,
    replace: bool,
    transformations: &mut Vec<Transformation>,
    Ghost(t0): Ghost<Seq<Transformation>>,
    Ghost(names): Ghost<Seq<Seq<char>>>,
)
    requires
        records_all(t0, old(transformations)@, names),
    ensures
        records_all(t0, final(transformations)@, names + series_names(*doc, *old(metadata), replace)),
        *final(metadata) == (Metadata {
            series: merged_series(*doc, *old(metadata), replace),
            ..*old(metadata)
        }),
{
    let ghost m = *metadata;
    let mut whole = false;
    let mut index_only = false;
    if let Some(name) = &doc.series {
        if !blank(name) && (replace || metadata.series.is_none()) {
            metadata.series = Some(
                Series { name: copy_string(name), index: copy_opt(&doc.series_index) },
            );
            whole = true;
        }
    }
    if !whole {
        if let Some(index) = &doc.series_index {
            if let Some(series) = &mut metadata.series {
                if replace || series.index.is_none() {
                    series.index = Some(copy_string(index));
                    index_only = true;
                }
            }
        }
    }
    record_if(transformations, whole, "series", Ghost(t0), Ghost(names));
    let ghost names1 = names + name_if(whole, "series"@);
    record_if(transformations, index_only, "series index", Ghost(t0), Ghost(names1));
    assert(names1 + name_if(index_only, "series index"@) == names + series_names(*doc, m, replace));
}

/// Merge the identifiers: the unique identifier is filled, never replaced;
/// a refused one, the document's secondary identifiers and its ISBN are
/// added alongside.
fn merge_identifiers(
    doc: &MetadataDoc,
    metadata: &mut Metadata,
    transformations: &mut Vec<Transformation>,
    warnings: &mut Vec<Warning>,
    Ghost(t0): Ghost<Seq<Transformation>>,
    Ghost(names): Ghost<Seq<Seq<char>>>,
)
    requires
        records_all(t0, old(transformations)@, names),
    ensures
        records_all(t0, final(transformations)@, names + identifier_names(*doc, *old(metadata))),
        final(metadata).identifier == merged_identifier(*doc, *old(metadata)),
        final(metadata).identifiers@.map_values(|x: Identifier| id_view(x)) == ids_after_isbn(
            *doc,
            *old(metadata),
        ),
        *final(metadata) == (Metadata {
            identifier: final(metadata).identifier,
            identifiers: final(metadata).identifiers,
            ..*old(metadata)
        }),
        final(warnings)@.len() == old(warnings)@.len() + if identifier_refused(
            *doc,
            *old(metadata),
        ) {
            1int
        } else {
            0int
        },
        final(warnings)@.take(old(warnings)@.len() as int) == old(warnings)@,
        identifier_refused(*doc, *old(metadata)) ==> {
            &&& final(warnings)@.last().message@ == refusal_message(wanted_identifier(*doc)->0@)
            &&& final(warnings)@.last().file is None
        },
{
    let ghost m = *metadata;
    let ghost w0 = warnings@;
    let mut filled = false;
    let mut refused: Option<String> = None;
    if let Some(wanted) = &doc.identifier {
        if !blank(wanted) {
            match &metadata.identifier {
                None => {
                    metadata.identifier = Some(copy_string(wanted));
                    filled = true;
                },
                Some(existing) => {
                    if !crate::text::same_chars(
                        &chars_of(existing.as_str()),
                        &chars_of(wanted.as_str()),
                    ) {
                        refused = Some(copy_string(wanted));
                    }
                },
            }
        }
    }
    record_if(transformations, filled, "identifier", Ghost(t0), Ghost(names));
    let ghost names1 = names + name_if(filled, "identifier"@);
    assert(metadata.identifier == merged_identifier(*doc, m));
    assert(warnings@.take(w0.len() as int) == w0);
    let mut refused_list: Vec<Identifier> = Vec::new();
    if let Some(wanted) = refused {
        let mut message = chars_of("refusing to change the book's unique identifier to \"");
        push_all(&mut message, &chars_of(wanted.as_str()));
        push_str(
            &mut message,
            "\": a reading system keys your library and reading position off it. Kept it as a secondary identifier instead.",
        );
        warnings.push(crate::report::book_warning(&message));
        assert(warnings@.take(w0.len() as int) == w0);
        refused_list.push(Identifier { value: wanted, scheme: None });
    }
    assert(refused_list@.map_values(|x: Identifier| id_view(x)) == refused_candidates(*doc, m));
    push_all_identifiers(metadata, refused_list);

    let doc_ids = doc_identifier_list(doc);
    let n_doc = push_all_identifiers(metadata, doc_ids);
    let ghost names2 = names1 + Seq::new(n_doc as nat, |i: int| "identifier"@);
    let mut k: usize = 0;
    while k < n_doc
        invariant
            k <= n_doc,
            records_all(t0, transformations@, names1 + Seq::new(k as nat, |i: int| "identifier"@)),
        decreases n_doc - k,
    {
        let ghost mid = transformations@;
        record_set(transformations, "identifier");
        proof {
            lemma_records_push(
                t0,
                mid,
                transformations@,
                names1 + Seq::new(k as nat, |i: int| "identifier"@),
                "identifier"@,
            );
            assert((names1 + Seq::new(k as nat, |i: int| "identifier"@)).push("identifier"@)
                == names1 + Seq::new((k + 1) as nat, |i: int| "identifier"@));
        }
        k += 1;
    }
    let mut isbn_list: Vec<Identifier> = Vec::new();
    if let Some(isbn) = &doc.isbn {
        if !blank(isbn) {
            isbn_list.push(Identifier { value: copy_string(isbn), scheme: Some("ISBN".to_owned()) });
        }
    }
    assert(isbn_list@.map_values(|x: Identifier| id_view(x)) == isbn_candidates(*doc));
    let n_isbn = push_all_identifiers(metadata, isbn_list);
    record_if(transformations, n_isbn > 0, "ISBN", Ghost(t0), Ghost(names2));
    assert(names2 + name_if(n_isbn > 0, "ISBN"@) == names + identifier_names(*doc, m));
}

/// What a merge of `doc` in `replace` mode (else fill mode) makes of
/// metadata `m`: `n` holds each field as the merge rules give it.
pub open spec fn applied(doc: MetadataDoc, m: Metadata, n: Metadata, replace: bool) -> bool {
    &&& n.description == merged_scalar(doc.description, m.description, replace)
    &&& n.publisher == merged_scalar(doc.publisher, m.publisher, replace)
    &&& n.date == merged_scalar(doc.date, m.date, replace)
    &&& n.rights == merged_scalar(doc.rights, m.rights, replace)
    &&& n.title == if title_sets(doc, m, replace) {
        doc.title->0
    } else {
        m.title
    }
    &&& n.language == if language_sets(doc, m, replace) {
        doc.language->0
    } else {
        m.language
    }
    &&& n.authors@ == if list_sets(doc.authors, m.authors@, replace) {
        doc.authors->0.items()
    } else {
        m.authors@
    }
    &&& n.contributors@ == if list_sets(doc.contributors, m.contributors@, replace) {
        doc.contributors->0.items()
    } else {
        m.contributors@
    }
    &&& n.subjects@ == if list_sets(doc.subjects, m.subjects@, replace) {
        doc.subjects->0.items()
    } else {
        m.subjects@
    }
    &&& n.series == merged_series(doc, m, replace)
    &&& n.identifier == merged_identifier(doc, m)
    &&& n.identifier_scheme == m.identifier_scheme
    &&& n.identifiers@.map_values(|x: Identifier| id_view(x)) == ids_after_isbn(doc, m)
}

/// Merge `doc` into `metadata`, returning the cover path it asked for (if
/// any), which the caller must resolve and embed.
///
/// Whatever the mode, the unique identifier is only ever filled, never
/// replaced: a document that tries is refused with a warning and its value
/// is kept as a secondary identifier instead. An ISBN is added alongside,
/// never substituted. One `metadata-set` transformation is recorded per
/// field written (see [`set_fields`]).
pub fn apply(
    doc: &MetadataDoc,
    metadata: &mut Metadata,
    mode: MergeMode,
    transformations: &mut Vec<Transformation>,
    warnings: &mut Vec<Warning>,
) -> (cover: Option<String>)
    ensures
        ({
            let replace = mode == MergeMode::Replace;
            let m = *old(metadata);
            let n = *final(metadata);
            &&& applied(*doc, m, n, replace)
            &&& records_all(
                old(transformations)@,
                final(transformations)@,
                set_fields(*doc, m, replace),
            )
            &&& final(warnings)@.len() == old(warnings)@.len() + if identifier_refused(*doc, m) {
                1int
            } else {
                0int
            }
            &&& final(warnings)@.take(old(warnings)@.len() as int) == old(warnings)@
            &&& identifier_refused(*doc, m) ==> {
                &&& final(warnings)@.last().message@ == refusal_message(
                    wanted_identifier(*doc)->0@,
                )
                &&& final(warnings)@.last().file is None
            }
        }),
        cover == match doc.cover {
            Some(c) => if is_blank(c@) {
                None
            } else {
                Some(c)
            },
            None => None,
        },
{
    let replace = match mode {
        MergeMode::Replace => true,
        MergeMode::Fill => false,
    };
    let ghost m = *metadata;
    let ghost t0 = transformations@;
    let ghost empty: Seq<Seq<char>> = Seq::empty();
    assert(records_all(t0, transformations@, empty)) by {
        assert(transformations@.take(t0.len() as int) == t0);
    }
    merge_scalars(doc, metadata, replace, transformations, Ghost(t0), Ghost(empty));
    let ghost names1 = empty + scalar_names(*doc, m, replace);
    let ghost m1 = *metadata;
    merge_lists(doc, metadata, replace, transformations, Ghost(t0), Ghost(names1));
    let ghost names2 = names1 + list_names(*doc, m1, replace);
    let ghost m2 = *metadata;
    merge_series(doc, metadata, replace, transformations, Ghost(t0), Ghost(names2));
    let ghost names3 = names2 + series_names(*doc, m2, replace);
    let ghost m3 = *metadata;
    merge_identifiers(doc, metadata, transformations, warnings, Ghost(t0), Ghost(names3));
    proof {
        assert(list_names(*doc, m1, replace) == list_names(*doc, m, replace));
        assert(series_names(*doc, m2, replace) == series_names(*doc, m, replace));
        assert(identifier_names(*doc, m3) == identifier_names(*doc, m));
        assert(names3 + identifier_names(*doc, m3) == set_fields(*doc, m, replace));
    }

    match &doc.cover {
        Some(c) => if blank(c) {
            None
        } else {
            Some(copy_string(c))
        },
        None => None,
    }
}

// ---------------------------------------------------------------------
// What a lookup could fill
// ---------------------------------------------------------------------

/// The fields `metadata` is missing, by name, in a fixed order.
pub open spec fn missing_spec(m: Metadata) -> Seq<Seq<char>> {
    name_if(m.title@.len() == 0 || m.title@ == "Untitled"@, "title"@) + name_if(
        m.authors@.len() == 0,
        "authors"@,
    ) + name_if(m.description is None, "description"@) + name_if(
        m.publisher is None,
        "publisher"@,
    ) + name_if(m.subjects@.len() == 0, "subjects"@) + name_if(m.date is None, "date"@)
        + name_if(m.series is None, "series"@) + name_if(m.identifiers@.len() == 0, "isbn"@)
}

/// Push `name` when `cond`.
pub fn push_name_if(out: &mut Vec<&'static str>, cond: bool, name: &'static str)
    ensures
        final(out)@.map_values(|s: &str| s@) == old(out)@.map_values(|s: &str| s@) + name_if(
            cond,
            name@,
        ),
{
    let ghost before = out@;
    if cond {
        out.push(name);
        assert(out@.map_values(|s: &str| s@) == before.map_values(|s: &str| s@).push(name@));
    }
    assert(before.map_values(|s: &str| s@) + name_if(cond, name@) == out@.map_values(
        |s: &str| s@,
    ));
}

/// The metadata fields a book is missing, by name - what a lookup would be
/// able to fill.
pub fn missing_fields(metadata: &Metadata) -> (missing: Vec<&'static str>)
    ensures
        missing@.map_values(|s: &str| s@) == missing_spec(*metadata),
{
    let mut missing: Vec<&'static str> = Vec::new();
    assert(missing@.map_values(|s: &str| s@) =~= Seq::<Seq<char>>::empty());
    let untitled = metadata.title.as_str().is_empty() || crate::text::same_chars(
        &chars_of(metadata.title.as_str()),
        &chars_of("Untitled"),
    );
    push_name_if(&mut missing, untitled, "title");
    push_name_if(&mut missing, metadata.authors.len() == 0, "authors");
    push_name_if(&mut missing, metadata.description.is_none(), "description");
    push_name_if(&mut missing, metadata.publisher.is_none(), "publisher");
    push_name_if(&mut missing, metadata.subjects.len() == 0, "subjects");
    push_name_if(&mut missing, metadata.date.is_none(), "date");
    push_name_if(&mut missing, metadata.series.is_none(), "series");
    push_name_if(&mut missing, metadata.identifiers.len() == 0, "isbn");
    assert(Seq::<Seq<char>>::empty() + missing_spec(*metadata) == missing_spec(*metadata));
    missing
}


// ---------------------------------------------------------------------
// A merge settles
// ---------------------------------------------------------------------

proof fn lemma_push_carries(
    u: Option<Seq<char>>,
    ids: Seq<(Seq<char>, Option<Seq<char>>)>,
    c: (Seq<char>, Option<Seq<char>>),
)
    ensures
        forall|v: Seq<char>| #[trigger] carries(u, ids, v) ==> carries(u, ids.push(c), v),
        carries(u, ids.push(c), trim(c.0)),
{
    assert forall|v: Seq<char>| #[trigger] carries(u, ids, v) implies carries(u, ids.push(c), v) by {
        if !(u matches Some(w) && trim(w) == v) {
            let i = choose|i: int| 0 <= i < ids.len() && trim(#[trigger] ids[i].0) == v;
            assert(ids.push(c)[i] == ids[i]);
        }
    }
    assert(ids.push(c)[ids.len() as int] == c);
}

/// Trying candidates keeps every value the book carried, and afterwards
/// the book carries each candidate's value.
proof fn lemma_push_each_carries(
    u: Option<Seq<char>>,
    ids: Seq<(Seq<char>, Option<Seq<char>>)>,
    cands: Seq<(Seq<char>, Option<Seq<char>>)>,
)
    ensures
        forall|v: Seq<char>| #[trigger] carries(u, ids, v) ==> carries(u, push_each(u, ids, cands), v),
        forall|k: int|
            0 <= k < cands.len() ==> carries(u, push_each(u, ids, cands), trim(#[trigger] cands[k].0)),
    decreases cands.len(),
{
    if cands.len() > 0 {
        let d = cands.drop_last();
        lemma_push_each_carries(u, ids, d);
        let prev = push_each(u, ids, d);
        let c = cands.last();
        lemma_push_carries(u, prev, c);
        assert forall|k: int| 0 <= k < cands.len() implies carries(
            u,
            push_each(u, ids, cands),
            trim(#[trigger] cands[k].0),
        ) by {
            if k < d.len() {
                assert(d[k] == cands[k]);
                assert(carries(u, prev, trim(d[k].0)));
            }
        }
    }
}

/// Trying candidates the book already carries changes nothing.
proof fn lemma_push_each_settled(
    u: Option<Seq<char>>,
    ids: Seq<(Seq<char>, Option<Seq<char>>)>,
    cands: Seq<(Seq<char>, Option<Seq<char>>)>,
)
    requires
        forall|k: int| 0 <= k < cands.len() ==> carries(u, ids, trim(#[trigger] cands[k].0)),
    ensures
        push_each(u, ids, cands) == ids,
    decreases cands.len(),
{
    if cands.len() > 0 {
        let d = cands.drop_last();
        assert forall|k: int| 0 <= k < d.len() implies carries(u, ids, trim(#[trigger] d[k].0)) by {
            assert(d[k] == cands[k]);
        }
        lemma_push_each_settled(u, ids, d);
        assert(carries(u, ids, trim(cands[cands.len() - 1].0)));
    }
}

/// Merging the same document a second time changes nothing: every field
/// the first merge wrote already holds the document's value, and every
/// identifier it offers is already carried.
pub proof fn law_apply_settles(doc: MetadataDoc, m: Metadata, n: Metadata, k: Metadata, replace: bool)
    requires
        applied(doc, m, n, replace),
        applied(doc, n, k, replace),
    ensures
        k.title == n.title,
        k.language == n.language,
        k.description == n.description,
        k.publisher == n.publisher,
        k.date == n.date,
        k.rights == n.rights,
        k.authors@ == n.authors@,
        k.contributors@ == n.contributors@,
        k.subjects@ == n.subjects@,
        k.series == n.series,
        k.identifier == n.identifier,
        k.identifier_scheme == n.identifier_scheme,
        k.identifiers@.map_values(|x: Identifier| id_view(x)) == n.identifiers@.map_values(
            |x: Identifier| id_view(x),
        ),
{
    // The unique identifier: a second fill finds it present.
    assert(merged_identifier(doc, n) == n.identifier);
    // A refusal on the second merge was a refusal on the first, of the
    // same value.
    assert(identifier_refused(doc, n) ==> identifier_refused(doc, m));
    let u = opt_view(merged_identifier(doc, m));
    let ids0 = m.identifiers@.map_values(|x: Identifier| id_view(x));
    let rm = refused_candidates(doc, m);
    let a = push_each(u, ids0, rm);
    let dc = doc_candidates(doc);
    let b = push_each(u, a, dc);
    let ic = isbn_candidates(doc);
    let c = push_each(u, b, ic);
    lemma_push_each_carries(u, ids0, rm);
    lemma_push_each_carries(u, a, rm);
    lemma_push_each_carries(u, a, dc);
    lemma_push_each_carries(u, b, ic);
    assert forall|j: int| 0 <= j < rm.len() implies carries(u, c, trim(#[trigger] rm[j].0)) by {
        assert(carries(u, a, trim(rm[j].0)));
        assert(carries(u, b, trim(rm[j].0)));
    }
    assert forall|j: int| 0 <= j < dc.len() implies carries(u, c, trim(#[trigger] dc[j].0)) by {
        assert(carries(u, b, trim(dc[j].0)));
    }
    let rn = refused_candidates(doc, n);
    assert forall|j: int| 0 <= j < rn.len() implies carries(u, c, trim(#[trigger] rn[j].0)) by {
        assert(rn == rm);
        assert(rn[j] == rm[j]);
    }
    lemma_push_each_settled(u, c, rn);
    lemma_push_each_settled(u, c, dc);
    lemma_push_each_settled(u, c, ic);
    assert(ids_after_refused(doc, n) == c);
    assert(ids_after_doc(doc, n) == c);
}

/// Trying candidates never shortens the identifier list.
proof fn lemma_push_each_grows(
    u: Option<Seq<char>>,
    ids: Seq<(Seq<char>, Option<Seq<char>>)>,
    cands: Seq<(Seq<char>, Option<Seq<char>>)>,
)
    ensures
        push_each(u, ids, cands).len() >= ids.len(),
    decreases cands.len(),
{
    if cands.len() > 0 {
        lemma_push_each_grows(u, ids, cands.drop_last());
    }
}

/// A fill merge never makes a field missing: each field `missing_spec`
/// names (title, authors, description, publisher, subjects, date, series,
/// ISBN) that is missing after the merge was missing before it.
pub proof fn law_filling_never_makes_a_field_missing(doc: MetadataDoc, m: Metadata, n: Metadata)
    requires
        applied(doc, m, n, false),
    ensures
        (n.title@.len() == 0 || n.title@ == "Untitled"@) ==> (m.title@.len() == 0 || m.title@
            == "Untitled"@),
        n.authors@.len() == 0 ==> m.authors@.len() == 0,
        n.description is None ==> m.description is None,
        n.publisher is None ==> m.publisher is None,
        n.subjects@.len() == 0 ==> m.subjects@.len() == 0,
        n.date is None ==> m.date is None,
        n.series is None ==> m.series is None,
        n.identifiers@.len() == 0 ==> m.identifiers@.len() == 0,
{
    let u = opt_view(merged_identifier(doc, m));
    let ids0 = m.identifiers@.map_values(|id: Identifier| id_view(id));
    lemma_push_each_grows(u, ids0, refused_candidates(doc, m));
    lemma_push_each_grows(u, ids_after_refused(doc, m), doc_candidates(doc));
    lemma_push_each_grows(u, ids_after_doc(doc, m), isbn_candidates(doc));
    assert(n.identifiers@.map_values(|x: Identifier| id_view(x)).len() == n.identifiers@.len());
}

/// Whether `a` is a subsequence of `b`: `b` with some entries left out.
pub open spec fn subseq_of(a: Seq<Seq<char>>, b: Seq<Seq<char>>) -> bool
    decreases b.len(),
{
    if a.len() == 0 {
        true
    } else if b.len() == 0 {
        false
    } else if a.last() == b.last() {
        subseq_of(a.drop_last(), b.drop_last())
    } else {
        subseq_of(a, b.drop_last())
    }
}

/// Adding a name to both lists keeps one a subsequence of the other, when
/// it is added to the first only if it is added to the second.
proof fn lemma_subseq_step(a: Seq<Seq<char>>, b: Seq<Seq<char>>, c1: bool, c2: bool, x: Seq<char>)
    requires
        subseq_of(a, b),
        c1 ==> c2,
        !a.contains(x),
    ensures
        subseq_of(a + name_if(c1, x), b + name_if(c2, x)),
{
    if c1 {
        assert((a + seq![x]).drop_last() =~= a);
        assert((b + seq![x]).drop_last() =~= b);
        assert((a + seq![x]).last() == x);
    } else if c2 {
        assert(a + Seq::<Seq<char>>::empty() =~= a);
        assert((b + seq![x]).drop_last() =~= b);
        if a.len() > 0 {
            assert(a.contains(a.last()));
        }
    } else {
        assert(a + Seq::<Seq<char>>::empty() =~= a);
        assert(b + Seq::<Seq<char>>::empty() =~= b);
    }
}

/// A name other than `x` absent from `a` stays absent once `x` may be
/// added.
proof fn lemma_still_absent(a: Seq<Seq<char>>, c: bool, x: Seq<char>, y: Seq<char>)
    requires
        !a.contains(y),
        x != y,
    ensures
        !(a + name_if(c, x)).contains(y),
{
    if (a + name_if(c, x)).contains(y) {
        let i = choose|i: int| 0 <= i < (a + name_if(c, x)).len() && (a + name_if(c, x))[i] == y;
        if i < a.len() {
            assert(a[i] == y);
        }
    }
}

/// The names `missing_spec` can list, in its order.
pub open spec fn field_names() -> Seq<Seq<char>> {
    seq![
        "title"@,
        "authors"@,
        "description"@,
        "publisher"@,
        "subjects"@,
        "date"@,
        "series"@,
        "isbn"@,
    ]
}

/// For each of `field_names`, whether `m` is missing it.
pub open spec fn missing_flags(m: Metadata) -> Seq<bool> {
    seq![
        m.title@.len() == 0 || m.title@ == "Untitled"@,
        m.authors@.len() == 0,
        m.description is None,
        m.publisher is None,
        m.subjects@.len() == 0,
        m.date is None,
        m.series is None,
        m.identifiers@.len() == 0,
    ]
}

/// `missing_spec` is the flagged names, field by field.
proof fn lemma_missing_is_prefix(m: Metadata)
    ensures
        missing_spec(m) == prefix_names(missing_flags(m), field_names(), 8),
{
    reveal_with_fuel(prefix_names, 9);
}

/// No field name occurs twice.
proof fn lemma_field_names_distinct()
    ensures
        forall|i: int, j: int|
            0 <= i < j < field_names().len() ==> field_names()[i] != field_names()[j],
{
    reveal_strlit("title");
    reveal_strlit("authors");
    reveal_strlit("description");
    reveal_strlit("publisher");
    reveal_strlit("subjects");
    reveal_strlit("date");
    reveal_strlit("series");
    reveal_strlit("isbn");
    let names = field_names();
    assert forall|i: int, j: int| 0 <= i < j < names.len() implies names[i] != names[j] by {
        if names[i].len() == names[j].len() {
            assert(names[i][0] != names[j][0]);
        }
    }
}

/// A fill merge never makes a field missing: the fields missing after it
/// are a subsequence of those missing before it.
pub proof fn law_filling_keeps_missing_a_subsequence(doc: MetadataDoc, m: Metadata, n: Metadata)
    requires
        applied(doc, m, n, false),
    ensures
        subseq_of(missing_spec(n), missing_spec(m)),
{
    law_filling_never_makes_a_field_missing(doc, m, n);
    lemma_field_names_distinct();
    let cn = missing_flags(n);
    let cm = missing_flags(m);
    assert forall|i: int| 0 <= i < 8 implies (#[trigger] cn[i] ==> cm[i]) by {}
    lemma_prefix_names(cn, cm, field_names(), 8);
    lemma_missing_is_prefix(n);
    lemma_missing_is_prefix(m);
}

/// The names among the first `k` whose flag is set, in order.
pub open spec fn prefix_names(flags: Seq<bool>, names: Seq<Seq<char>>, k: int) -> Seq<Seq<char>>
    decreases k,
{
    if k <= 0 {
        Seq::empty()
    } else {
        prefix_names(flags, names, k - 1) + name_if(flags[k - 1], names[k - 1])
    }
}

/// Names flagged in `cn` only where also flagged in `cm` give, prefix by
/// prefix, a subsequence, and leave out every later name.
proof fn lemma_prefix_names(cn: Seq<bool>, cm: Seq<bool>, names: Seq<Seq<char>>, k: int)
    requires
        0 <= k <= names.len(),
        cn.len() == names.len(),
        cm.len() == names.len(),
        forall|i: int, j: int| 0 <= i < j < names.len() ==> names[i] != names[j],
        forall|i: int| 0 <= i < names.len() ==> (#[trigger] cn[i] ==> cm[i]),
    ensures
        subseq_of(prefix_names(cn, names, k), prefix_names(cm, names, k)),
        forall|j: int|
            k <= j < names.len() ==> !prefix_names(cn, names, k).contains(#[trigger] names[j]),
    decreases k,
{
    if k > 0 {
        lemma_prefix_names(cn, cm, names, k - 1);
        let a = prefix_names(cn, names, k - 1);
        let b = prefix_names(cm, names, k - 1);
        lemma_subseq_step(a, b, cn[k - 1], cm[k - 1], names[k - 1]);
        assert forall|j: int| k <= j < names.len() implies !prefix_names(cn, names, k).contains(
            #[trigger] names[j],
        ) by {
            lemma_still_absent(a, cn[k - 1], names[k - 1], names[j]);
        }
    } else {
        assert forall|j: int| k <= j < names.len() implies !prefix_names(cn, names, k).contains(
            #[trigger] names[j],
        ) by {}
    }
}

/// A fill merge only fills gaps: every field the book already has keeps
/// its value - a non-empty language, a title that is neither empty nor the
/// `Untitled` placeholder, each optional text field that is present, each
/// non-empty list, a series (whose name always stays, and which stays whole
/// once it has an index) - and the unique identifier is never replaced.
pub proof fn law_filling_keeps_what_the_book_has(doc: MetadataDoc, m: Metadata, n: Metadata)
    requires
        applied(doc, m, n, false),
    ensures
        m.language@.len() > 0 ==> n.language == m.language,
        (m.title@.len() > 0 && m.title@ != "Untitled"@) ==> n.title == m.title,
        m.description is Some ==> n.description == m.description,
        m.publisher is Some ==> n.publisher == m.publisher,
        m.date is Some ==> n.date == m.date,
        m.rights is Some ==> n.rights == m.rights,
        m.authors@.len() > 0 ==> n.authors@ == m.authors@,
        m.contributors@.len() > 0 ==> n.contributors@ == m.contributors@,
        m.subjects@.len() > 0 ==> n.subjects@ == m.subjects@,
        m.series is Some ==> (n.series is Some && n.series->0.name == m.series->0.name),
        (m.series is Some && m.series->0.index is Some) ==> n.series == m.series,
        m.identifier is Some ==> n.identifier == m.identifier,
{
}

/// A replace merge takes every field the document gives a usable value
/// for - a non-blank title or language, any optional text field, any list
/// - whatever the book had; a fill merge takes it only where the book has
/// none.
pub proof fn law_merging_takes_the_documents_values(doc: MetadataDoc, m: Metadata, n: Metadata, replace: bool)
    requires
        applied(doc, m, n, replace),
    ensures
        (doc.language matches Some(l) && trim(l@).len() > 0) && (replace || m.language@.len() == 0)
            ==> n.language == doc.language->0,
        (doc.title matches Some(t) && trim(t@).len() > 0) && (replace || m.title@.len() == 0
            || m.title@ == "Untitled"@) ==> n.title == doc.title->0,
        doc.description is Some && (replace || m.description is None) ==> n.description
            == doc.description,
        doc.publisher is Some && (replace || m.publisher is None) ==> n.publisher == doc.publisher,
        doc.date is Some && (replace || m.date is None) ==> n.date == doc.date,
        doc.rights is Some && (replace || m.rights is None) ==> n.rights == doc.rights,
        doc.authors is Some && (replace || m.authors@.len() == 0) ==> n.authors@
            == doc.authors->0.items(),
        doc.subjects is Some && (replace || m.subjects@.len() == 0) ==> n.subjects@
            == doc.subjects->0.items(),
        doc.contributors is Some && (replace || m.contributors@.len() == 0) ==> n.contributors@
            == doc.contributors->0.items(),
        doc.description is None ==> n.description == m.description,
        doc.language is None ==> n.language == m.language,
        doc.title is None ==> n.title == m.title,
{
}

} // verus!
