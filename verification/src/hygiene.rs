//! Unicode hygiene for the strings the writer regenerates the package
//! document, nav and NCX from: NFC normalization (so combining marks
//! render on a device that does no normalization of its own) and removal of
//! characters invalid in XML 1.0 (plus a stray byte-order mark).
//!
//! The unique identifier and every href are deliberately untouched: reading
//! systems key their library off the identifier's exact bytes, and hrefs must
//! keep matching zip entry names.

use vstd::prelude::*;

use unicode_normalization::UnicodeNormalization;

use crate::model::{Creator, Identifier, Metadata, TocEntry, opt_view};
use crate::report::Transformation;
use crate::text::{chars_of, decimal, push_decimal, push_str, same_chars, string_of};

verus! {

/// The Unicode Normalization Form C of `s`, as computed by the
/// unicode-normalization crate.
pub uninterp spec fn nfc_of(s: Seq<char>) -> Seq<char>;

/// Wraps `UnicodeNormalization::nfc` of the unicode-normalization crate:
/// the canonical decomposition of `s` followed by canonical composition.
/// The contract claims only that the result is a function of the
/// characters of `s`, named [`nfc_of`].
#[verifier::external_body]
fn nfc(s: &str) -> (r: String)
    ensures
        r@ == nfc_of(s@),
{
    s.nfc().collect::<String>()
}

/// Whether `c` is kept in text: allowed in XML 1.0 and not a byte-order
/// mark.
pub open spec fn kept_in_text(c: char) -> bool {
    c != '\u{FEFF}' && ((c as u32) >= 0x20 || c == '\t' || c == '\n' || c == '\r')
}

/// `s` without the characters invalid in XML 1.0 (C0 controls other than
/// tab, line feed and carriage return) and without any `U+FEFF`.
pub open spec fn sanitized(s: Seq<char>) -> Seq<char>
    decreases s.len(),
{
    if s.len() == 0 {
        Seq::empty()
    } else if kept_in_text(s.last()) {
        sanitized(s.drop_last()).push(s.last())
    } else {
        sanitized(s.drop_last())
    }
}

/// Drop characters invalid in XML 1.0 and any `U+FEFF`, leaving all other
/// characters untouched.
pub fn sanitize(s: &str) -> (r: String)
    ensures
        r@ == sanitized(s@),
{
    let v = chars_of(s);
    let mut out: Vec<char> = Vec::new();
    let mut i: usize = 0;
    while i < v.len()
        invariant
            i <= v@.len(),
            v@ == s@,
            out@ == sanitized(v@.take(i as int)),
        decreases v.len() - i,
    {
        let c = v[i];
        assert(v@.take(i + 1).drop_last() == v@.take(i as int));
        if c != '\u{FEFF}' && ((c as u32) >= 0x20 || c == '\t' || c == '\n' || c == '\r') {
            out.push(c);
        }
        i += 1;
    }
    assert(v@.take(v@.len() as int) == v@);
    string_of(&out)
}

/// A string sanitized and NFC-normalized.
pub open spec fn cleaned(s: Seq<char>) -> Seq<char> {
    nfc_of(sanitized(s))
}

/// Sanitize and NFC-normalize a model string.
pub fn clean_string(s: &str) -> (r: String)
    ensures
        r@ == cleaned(s@),
{
    nfc(sanitize(s).as_str())
}

/// Clean a string in place, reporting whether it changed.
fn clean(s: &mut String) -> (changed: bool)
    ensures
        final(s)@ == cleaned(old(s)@),
        changed == (cleaned(old(s)@) != old(s)@),
{
    let c = clean_string(s.as_str());
    if same_chars(&chars_of(c.as_str()), &chars_of(s.as_str())) {
        return false;
    }
    *s = c;
    true
}

/// An optional string cleaned.
pub open spec fn cleaned_opt(o: Option<Seq<char>>) -> Option<Seq<char>> {
    match o {
        Some(s) => Some(cleaned(s)),
        None => None,
    }
}

/// Clean an optional string in place, reporting whether it changed.
fn clean_opt(s: &mut Option<String>) -> (changed: bool)
    ensures
        opt_view(*final(s)) == cleaned_opt(opt_view(*old(s))),
        changed == (cleaned_opt(opt_view(*old(s))) != opt_view(*old(s))),
{
    match s {
        Some(v) => clean(v),
        None => false,
    }
}

/// Whether cleaning changes any string of a creator.
pub open spec fn creator_changes(c: Creator) -> bool {
    cleaned(c.name@) != c.name@ || cleaned_opt(opt_view(c.file_as)) != opt_view(c.file_as)
        || cleaned_opt(opt_view(c.role)) != opt_view(c.role)
}

/// Whether `n` is creator `c` with every string cleaned.
pub open spec fn creator_cleaned(c: Creator, n: Creator) -> bool {
    &&& n.name@ == cleaned(c.name@)
    &&& opt_view(n.file_as) == cleaned_opt(opt_view(c.file_as))
    &&& opt_view(n.role) == cleaned_opt(opt_view(c.role))
}

/// Whether `new` is `old` with every creator cleaned.
pub open spec fn creators_cleaned(old: Seq<Creator>, new: Seq<Creator>) -> bool {
    &&& new.len() == old.len()
    &&& forall|i: int| 0 <= i < old.len() ==> creator_cleaned(old[i], #[trigger] new[i])
}

/// Whether cleaning changes any creator of a list.
pub open spec fn creators_change(v: Seq<Creator>) -> bool {
    exists|i: int| 0 <= i < v.len() && creator_changes(#[trigger] v[i])
}

/// Clean every string of every creator in place, reporting whether any
/// changed.
fn clean_creators(v: &mut Vec<Creator>) -> (changed: bool)
    ensures
        creators_cleaned(old(v)@, final(v)@),
        changed == creators_change(old(v)@),
{
    let ghost before = v@;
    let mut changed = false;
    let mut i: usize = 0;
    while i < v.len()
        invariant
            i <= v@.len(),
            v@.len() == before.len(),
            forall|k: int| 0 <= k < i ==> creator_cleaned(before[k], #[trigger] v@[k]),
            forall|k: int| i <= k < v@.len() ==> #[trigger] v@[k] == before[k],
            changed == exists|k: int| 0 <= k < i && creator_changes(#[trigger] before[k]),
        decreases v.len() - i,
    {
        let mut c = crate::model::copy_creator(&v[i]);
        let a = clean(&mut c.name);
        let b = clean_opt(&mut c.file_as);
        let d = clean_opt(&mut c.role);
        assert(creator_changes(before[i as int]) == (a || b || d));
        v[i] = c;
        changed = changed || a || b || d;
        i += 1;
    }
    changed
}

/// Whether cleaning changes an identifier record.
pub open spec fn identifier_changes(id: Identifier) -> bool {
    cleaned(id.value@) != id.value@ || cleaned_opt(opt_view(id.scheme)) != opt_view(id.scheme)
}

/// Whether `new` is `old` with every identifier record cleaned.
pub open spec fn identifiers_cleaned(old: Seq<Identifier>, new: Seq<Identifier>) -> bool {
    &&& new.len() == old.len()
    &&& forall|i: int|
        0 <= i < old.len() ==> {
            &&& (#[trigger] new[i]).value@ == cleaned(old[i].value@)
            &&& opt_view(new[i].scheme) == cleaned_opt(opt_view(old[i].scheme))
        }
}

/// Clean every identifier record in place, reporting whether any changed.
fn clean_identifiers(v: &mut Vec<Identifier>) -> (changed: bool)
    ensures
        identifiers_cleaned(old(v)@, final(v)@),
        changed == exists|k: int| 0 <= k < old(v)@.len() && identifier_changes(#[trigger] old(v)@[k]),
{
    let ghost before = v@;
    let mut changed = false;
    let mut i: usize = 0;
    while i < v.len()
        invariant
            i <= v@.len(),
            v@.len() == before.len(),
            forall|k: int|
                0 <= k < i ==> {
                    &&& (#[trigger] v@[k]).value@ == cleaned(before[k].value@)
                    &&& opt_view(v@[k].scheme) == cleaned_opt(opt_view(before[k].scheme))
                },
            forall|k: int| i <= k < v@.len() ==> #[trigger] v@[k] == before[k],
            changed == exists|k: int| 0 <= k < i && identifier_changes(#[trigger] before[k]),
        decreases v.len() - i,
    {
        let mut id = crate::model::copy_identifier(&v[i]);
        let a = clean(&mut id.value);
        let b = clean_opt(&mut id.scheme);
        assert(identifier_changes(before[i as int]) == (a || b));
        v[i] = id;
        changed = changed || a || b;
        i += 1;
    }
    changed
}

/// Clean every string of a list in place, reporting whether any changed.
fn clean_strings(v: &mut Vec<String>) -> (changed: bool)
    ensures
        final(v)@.len() == old(v)@.len(),
        forall|i: int| 0 <= i < old(v)@.len() ==> (#[trigger] final(v)@[i])@ == cleaned(old(v)@[i]@),
        changed == exists|k: int| 0 <= k < old(v)@.len() && cleaned(old(v)@[k]@) != #[trigger] old(v)@[k]@,
{
    let ghost before = v@;
    let mut changed = false;
    let mut i: usize = 0;
    while i < v.len()
        invariant
            i <= v@.len(),
            v@.len() == before.len(),
            forall|k: int| 0 <= k < i ==> (#[trigger] v@[k])@ == cleaned(before[k]@),
            forall|k: int| i <= k < v@.len() ==> #[trigger] v@[k] == before[k],
            changed == exists|k: int| 0 <= k < i && cleaned(before[k]@) != #[trigger] before[k]@,
        decreases v.len() - i,
    {
        let mut s = crate::model::copy_string(&v[i]);
        let a = clean(&mut s);
        v[i] = s;
        changed = changed || a;
        i += 1;
    }
    changed
}

/// Whether cleaning changes the series.
pub open spec fn series_changes(m: Metadata) -> bool {
    match m.series {
        Some(s) => cleaned(s.name@) != s.name@ || cleaned_opt(opt_view(s.index)) != opt_view(
            s.index,
        ),
        None => false,
    }
}

/// The metadata fields whose strings cleaning changes, by name, in order.
pub open spec fn changed_fields(m: Metadata) -> Seq<Seq<char>> {
    crate::metadata::name_if(cleaned(m.title@) != m.title@, "title"@) + crate::metadata::name_if(
        creators_change(m.authors@),
        "authors"@,
    ) + crate::metadata::name_if(creators_change(m.contributors@), "contributors"@)
        + crate::metadata::name_if(cleaned(m.language@) != m.language@, "language"@)
        + crate::metadata::name_if(
        exists|k: int| 0 <= k < m.identifiers@.len() && identifier_changes(#[trigger] m.identifiers@[k]),
        "identifiers"@,
    ) + crate::metadata::name_if(
        cleaned_opt(opt_view(m.description)) != opt_view(m.description),
        "description"@,
    ) + crate::metadata::name_if(
        cleaned_opt(opt_view(m.publisher)) != opt_view(m.publisher),
        "publisher"@,
    ) + crate::metadata::name_if(
        exists|k: int| 0 <= k < m.subjects@.len() && cleaned(m.subjects@[k]@) != #[trigger] m.subjects@[k]@,
        "subjects"@,
    ) + crate::metadata::name_if(cleaned_opt(opt_view(m.date)) != opt_view(m.date), "date"@)
        + crate::metadata::name_if(cleaned_opt(opt_view(m.rights)) != opt_view(m.rights), "rights"@)
        + crate::metadata::name_if(series_changes(m), "series"@)
}

/// Whether `n` is `m` with every display string cleaned and the unique
/// identifier (and its scheme) untouched.
pub open spec fn metadata_cleaned(m: Metadata, n: Metadata) -> bool {
    &&& n.title@ == cleaned(m.title@)
    &&& creators_cleaned(m.authors@, n.authors@)
    &&& creators_cleaned(m.contributors@, n.contributors@)
    &&& n.language@ == cleaned(m.language@)
    &&& n.identifier == m.identifier
    &&& n.identifier_scheme == m.identifier_scheme
    &&& identifiers_cleaned(m.identifiers@, n.identifiers@)
    &&& opt_view(n.description) == cleaned_opt(opt_view(m.description))
    &&& opt_view(n.publisher) == cleaned_opt(opt_view(m.publisher))
    &&& n.subjects@.len() == m.subjects@.len()
    &&& forall|i: int| 0 <= i < m.subjects@.len() ==> (#[trigger] n.subjects@[i])@ == cleaned(m.subjects@[i]@)
    &&& opt_view(n.date) == cleaned_opt(opt_view(m.date))
    &&& opt_view(n.rights) == cleaned_opt(opt_view(m.rights))
    &&& match (m.series, n.series) {
        (Some(a), Some(b)) => b.name@ == cleaned(a.name@) && opt_view(b.index) == cleaned_opt(
            opt_view(a.index),
        ),
        (None, None) => true,
        _ => false,
    }
}

/// How many table-of-contents titles cleaning changes among the first `n`.
pub open spec fn toc_changes(toc: Seq<TocEntry>, n: nat) -> nat
    decreases n,
{
    if n == 0 || n > toc.len() {
        0
    } else {
        toc_changes(toc, (n - 1) as nat) + if cleaned(toc[n - 1].title@) != toc[n - 1].title@ {
            1nat
        } else {
            0nat
        }
    }
}

/// Whether `t` records, with the given kind, `detail`.
pub open spec fn records(t: Transformation, kind: Seq<char>, detail: Seq<char>) -> bool {
    &&& t.kind@ == kind
    &&& t.detail@ == detail
    &&& t.file is None
}

/// The record for a changed metadata field.
pub open spec fn field_detail(field: Seq<char>) -> Seq<char> {
    "normalized "@ + field + " to NFC and stripped invalid characters"@
}

/// The record for changed table-of-contents titles.
pub open spec fn toc_detail(n: nat) -> Seq<char> {
    "normalized "@ + decimal(n) + " table-of-contents title(s) to NFC"@
}

/// Clean the metadata fields, returning the names of those that changed.
fn clean_metadata(m: &mut Metadata) -> (fields: Vec<&'static str>)
    ensures
        metadata_cleaned(*old(m), *final(m)),
        fields@.map_values(|s: &str| s@) == changed_fields(*old(m)),
{
    let ghost m0 = *m;
    let mut fields: Vec<&'static str> = Vec::new();
    assert(fields@.map_values(|s: &str| s@) =~= Seq::<Seq<char>>::empty());
    let c = clean(&mut m.title);
    crate::metadata::push_name_if(&mut fields, c, "title");
    let c = clean_creators(&mut m.authors);
    crate::metadata::push_name_if(&mut fields, c, "authors");
    let c = clean_creators(&mut m.contributors);
    crate::metadata::push_name_if(&mut fields, c, "contributors");
    let c = clean(&mut m.language);
    crate::metadata::push_name_if(&mut fields, c, "language");
    let c = clean_identifiers(&mut m.identifiers);
    crate::metadata::push_name_if(&mut fields, c, "identifiers");
    let c = clean_opt(&mut m.description);
    crate::metadata::push_name_if(&mut fields, c, "description");
    let c = clean_opt(&mut m.publisher);
    crate::metadata::push_name_if(&mut fields, c, "publisher");
    let c = clean_strings(&mut m.subjects);
    crate::metadata::push_name_if(&mut fields, c, "subjects");
    let c = clean_opt(&mut m.date);
    crate::metadata::push_name_if(&mut fields, c, "date");
    let c = clean_opt(&mut m.rights);
    crate::metadata::push_name_if(&mut fields, c, "rights");
    let c = match &mut m.series {
        Some(s) => {
            let a = clean(&mut s.name);
            let b = clean_opt(&mut s.index);
            a || b
        },
        None => false,
    };
    crate::metadata::push_name_if(&mut fields, c, "series");
    assert(Seq::<Seq<char>>::empty() + changed_fields(m0) == changed_fields(m0));
    fields
}

/// NFC-normalize and sanitize every model string the writer regenerates
/// into the package document, nav and NCX: the metadata display fields and
/// the table-of-contents titles. One `metadata-nfc` record per changed
/// field, in field order, then one `toc-nfc` record counting the changed
/// titles (if any). The unique identifier and every href are untouched.
pub fn normalize_model_strings(
    metadata: &mut Metadata,
    toc: &mut [TocEntry],
    transformations: &mut Vec<Transformation>,
)
    ensures
        metadata_cleaned(*old(metadata), *final(metadata)),
        final(toc)@.len() == old(toc)@.len(),
        forall|i: int|
            0 <= i < old(toc)@.len() ==> {
                &&& (#[trigger] final(toc)@[i]).title@ == cleaned(old(toc)@[i].title@)
                &&& final(toc)@[i].href == old(toc)@[i].href
                &&& final(toc)@[i].level == old(toc)@[i].level
            },
        ({
            let fields = changed_fields(*old(metadata));
            let n = toc_changes(old(toc)@, old(toc)@.len());
            let extra = if n > 0 {
                1int
            } else {
                0int
            };
            &&& final(transformations)@.len() == old(transformations)@.len() + fields.len() + extra
            &&& final(transformations)@.take(old(transformations)@.len() as int)
                == old(transformations)@
            &&& forall|i: int|
                0 <= i < fields.len() ==> records(
                    #[trigger] final(transformations)@[old(transformations)@.len() + i],
                    "metadata-nfc"@,
                    field_detail(fields[i]),
                )
            &&& n > 0 ==> records(
                final(transformations)@.last(),
                "toc-nfc"@,
                toc_detail(n),
            )
        }),
{
    let ghost t0 = transformations@;
    let ghost toc0 = toc@;
    let fields = clean_metadata(metadata);
    let ghost names = fields@.map_values(|s: &str| s@);
    let mut k: usize = 0;
    assert(transformations@.take(t0.len() as int) == t0);
    while k < fields.len()
        invariant
            k <= fields@.len(),
            names == fields@.map_values(|s: &str| s@),
            transformations@.len() == t0.len() + k,
            transformations@.take(t0.len() as int) == t0,
            forall|i: int|
                0 <= i < k ==> records(
                    #[trigger] transformations@[t0.len() + i],
                    "metadata-nfc"@,
                    field_detail(names[i]),
                ),
        decreases fields.len() - k,
    {
        let mut detail = chars_of("normalized ");
        push_str(&mut detail, fields[k]);
        push_str(&mut detail, " to NFC and stripped invalid characters");
        let ghost before = transformations@;
        transformations.push(crate::report::book_transformation("metadata-nfc", &detail));
        assert(transformations@.take(t0.len() as int) == before.take(t0.len() as int));
        assert forall|i: int| 0 <= i < k implies records(
            #[trigger] transformations@[t0.len() + i],
            "metadata-nfc"@,
            field_detail(names[i]),
        ) by {
            assert(transformations@[t0.len() + i] == before[t0.len() + i]);
        }
        k += 1;
    }
    let mut changed: u64 = 0;
    let mut i: usize = 0;
    while i < toc.len()
        invariant
            i <= toc@.len(),
            toc@.len() == toc0.len(),
            changed as nat == toc_changes(toc0, i as nat),
            changed <= i,
            forall|j: int|
                0 <= j < i ==> {
                    &&& (#[trigger] toc@[j]).title@ == cleaned(toc0[j].title@)
                    &&& toc@[j].href == toc0[j].href
                    &&& toc@[j].level == toc0[j].level
                },
            forall|j: int| i <= j < toc@.len() ==> #[trigger] toc@[j] == toc0[j],
        decreases toc.len() - i,
    {
        let mut title = crate::model::copy_string(&toc[i].title);
        let c = clean(&mut title);
        let entry = TocEntry {
            title,
            href: crate::model::copy_string(&toc[i].href),
            level: toc[i].level,
        };
        toc[i] = entry;
        if c {
            changed = changed + 1;
        }
        i += 1;
    }
    if changed > 0 {
        let mut detail = chars_of("normalized ");
        push_decimal(&mut detail, changed as u128);
        push_str(&mut detail, " table-of-contents title(s) to NFC");
        let ghost before = transformations@;
        transformations.push(crate::report::book_transformation("toc-nfc", &detail));
        assert(transformations@.take(t0.len() as int) == before.take(t0.len() as int));
        assert forall|j: int| 0 <= j < fields@.len() implies records(
            #[trigger] transformations@[t0.len() + j],
            "metadata-nfc"@,
            field_detail(names[j]),
        ) by {
            assert(transformations@[t0.len() + j] == before[t0.len() + j]);
        }
    }
}

} // verus!
