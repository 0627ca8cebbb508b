//! The safety net behind pruning: after unreferenced resources are dropped,
//! every surviving text document that still mentions a dropped file's
//! basename, byte for byte anywhere in it, is reported - the reachability
//! walk may have missed an edge. All basenames are searched for at once,
//! in one pass per document, with an Aho-Corasick automaton.

use aho_corasick::AhoCorasick;
use vstd::prelude::*;

use crate::reachable::{basename_of, basename_of_spec};

verus! {

#[verifier::external_type_specification]
#[verifier::external_body]
pub struct ExAhoCorasick(AhoCorasick);

/// The UTF-8 encoding of one character.
pub open spec fn utf8_char(c: char) -> Seq<u8> {
    let n = c as u32;
    if n < 0x80 {
        seq![n as u8]
    } else if n < 0x800 {
        seq![(0xC0 + n / 64) as u8, (0x80 + n % 64) as u8]
    } else if n < 0x10000 {
        seq![(0xE0 + n / 4096) as u8, (0x80 + (n / 64) % 64) as u8, (0x80 + n % 64) as u8]
    } else {
        seq![
            (0xF0 + n / 262144) as u8,
            (0x80 + (n / 4096) % 64) as u8,
            (0x80 + (n / 64) % 64) as u8,
            (0x80 + n % 64) as u8,
        ]
    }
}

/// The UTF-8 encoding of a string.
pub open spec fn utf8(s: Seq<char>) -> Seq<u8>
    decreases s.len(),
{
    if s.len() == 0 {
        Seq::empty()
    } else {
        utf8(s.drop_last()) + utf8_char(s.last())
    }
}

/// Whether `needle` occurs in `hay` as a run of consecutive bytes.
pub open spec fn occurs_in(hay: Seq<u8>, needle: Seq<u8>) -> bool {
    exists|i: int| 0 <= i && i + needle.len() <= hay.len() && #[trigger] hay.subrange(i, i + needle.len()) == needle
}

/// The UTF-8 bytes of `s`.
fn utf8_bytes(s: &str) -> (r: Vec<u8>)
    ensures
        r@ == utf8(s@),
{
    let chars = crate::text::chars_of(s);
    let mut out: Vec<u8> = Vec::new();
    let mut i: usize = 0;
    while i < chars.len()
        invariant
            i <= chars@.len(),
            chars@ == s@,
            out@ == utf8(chars@.take(i as int)),
        decreases chars.len() - i,
    {
        let c = chars[i];
        let n = c as u32;
        assert(chars@.take(i + 1).drop_last() =~= chars@.take(i as int));
        assert(chars@.take(i + 1).last() == c);
        if n < 0x80 {
            out.push(n as u8);
        } else if n < 0x800 {
            out.push((0xC0 + n / 64) as u8);
            out.push((0x80 + n % 64) as u8);
        } else if n < 0x10000 {
            out.push((0xE0 + n / 4096) as u8);
            out.push((0x80 + (n / 64) % 64) as u8);
            out.push((0x80 + n % 64) as u8);
        } else {
            out.push((0xF0 + n / 262144) as u8);
            out.push((0x80 + (n / 4096) % 64) as u8);
            out.push((0x80 + (n / 64) % 64) as u8);
            out.push((0x80 + n % 64) as u8);
        }
        assert(out@ =~= utf8(chars@.take(i + 1)));
        i += 1;
    }
    assert(chars@.take(chars@.len() as int) =~= chars@);
    out
}

/// The patterns an automaton was built from.
pub uninterp spec fn automaton_patterns(ac: AhoCorasick) -> Seq<Seq<u8>>;

/// Whether `AhoCorasick::new` builds an automaton for these patterns (it
/// refuses a pattern set that exceeds its internal limits; which sets those
/// are depends on the patterns alone).
pub uninterp spec fn automaton_builds(patterns: Seq<Seq<u8>>) -> bool;

/// Wraps `AhoCorasick::new`: an automaton over `patterns` (default,
/// standard match semantics), or `None` when the pattern set is too large
/// to build one.
#[verifier::external_body]
fn build_automaton(patterns: &Vec<Vec<u8>>) -> (r: Option<AhoCorasick>)
    ensures
        r is Some <==> automaton_builds(patterns@.map_values(|p: Vec<u8>| p@)),
        r matches Some(ac) ==> automaton_patterns(ac) == patterns@.map_values(|p: Vec<u8>| p@),
{
    AhoCorasick::new(patterns).ok()
}

/// Wraps `AhoCorasick::find_overlapping_iter`: an overlapping search
/// reports every occurrence of every pattern, so the patterns it reports
/// are exactly those that occur in `haystack`; one flag per pattern.
#[verifier::external_body]
fn patterns_in(ac: &AhoCorasick, haystack: &[u8]) -> (r: Vec<bool>)
    ensures
        r@.len() == automaton_patterns(*ac).len(),
        forall|i: int|
            0 <= i < r@.len() ==> r@[i] == occurs_in(haystack@, automaton_patterns(*ac)[i]),
{
    let mut found = vec![false; ac.patterns_len()];
    for m in ac.find_overlapping_iter(haystack) {
        found[m.pattern().as_usize()] = true;
    }
    found
}

/// The documents, by path and bytes.
pub open spec fn doc_views(docs: Seq<(&str, &[u8])>) -> Seq<(Seq<char>, Seq<u8>)> {
    docs.map_values(|d: (&str, &[u8])| (d.0@, d.1@))
}

/// The first `n` documents that mention `needle`, each paired with
/// `dropped`.
pub open spec fn doc_hits(
    dropped: Seq<char>,
    needle: Seq<u8>,
    docs: Seq<(Seq<char>, Seq<u8>)>,
    n: int,
) -> Seq<(Seq<char>, Seq<char>)>
    decreases n,
{
    if n <= 0 {
        Seq::empty()
    } else {
        let prev = doc_hits(dropped, needle, docs, n - 1);
        if occurs_in(docs[n - 1].1, needle) {
            prev.push((docs[n - 1].0, dropped))
        } else {
            prev
        }
    }
}

/// Every (document, dropped path) pair where the document mentions the
/// dropped path's basename, over the first `n` dropped paths: outer order
/// that of `dropped`, inner that of `docs`.
pub open spec fn dangling_hits(
    dropped: Seq<Seq<char>>,
    docs: Seq<(Seq<char>, Seq<u8>)>,
    n: int,
) -> Seq<(Seq<char>, Seq<char>)>
    decreases n,
{
    if n <= 0 {
        Seq::empty()
    } else {
        let prev = dangling_hits(dropped, docs, n - 1);
        match basename_of_spec(dropped[n - 1]) {
            Some(b) => prev + doc_hits(dropped[n - 1], utf8(b), docs, docs.len() as int),
            None => prev,
        }
    }
}

/// The byte patterns searched for: the UTF-8 basename of each dropped path
/// that has one, in order.
pub open spec fn dropped_needles(ds: Seq<Seq<char>>) -> Seq<Seq<u8>>
    decreases ds.len(),
{
    if ds.len() == 0 {
        Seq::empty()
    } else {
        let prev = dropped_needles(ds.drop_last());
        match basename_of_spec(ds.last()) {
            Some(b) => prev.push(utf8(b)),
            None => prev,
        }
    }
}

proof fn lemma_utf8_nonempty(s: Seq<char>)
    requires
        s.len() > 0,
    ensures
        utf8(s).len() > 0,
    decreases s.len(),
{
    if s.len() > 1 {
        lemma_utf8_nonempty(s.drop_last());
    }
}

/// For each dropped path's basename, every document in `docs` whose raw
/// bytes contain that basename as a substring, as (document, dropped path)
/// pairs: outer order that of `dropped`, inner that of `docs`. Paths with
/// no basename are skipped. Should the automaton not be buildable (a
/// pattern set too large for it), nothing is reported: the net is advisory
/// over a walk that is already correct.
pub fn scan_for_dangling_basenames(dropped: &[String], docs: &[(&str, &[u8])]) -> (r: Vec<
    (String, String),
>)
    ensures
        r@.map_values(|h: (String, String)| (h.0@, h.1@)) == if automaton_builds(
            dropped_needles(dropped@.map_values(|s: String| s@)),
        ) {
            dangling_hits(
                dropped@.map_values(|s: String| s@),
                doc_views(docs@),
                dropped@.len() as int,
            )
        } else {
            Seq::empty()
        },
{
    let ghost ds = dropped@.map_values(|s: String| s@);
    let ghost dv = doc_views(docs@);
    // One pattern per dropped path that has a basename.
    let mut needles: Vec<Vec<u8>> = Vec::new();
    let mut pattern_of: Vec<Option<usize>> = Vec::new();
    let mut i: usize = 0;
    while i < dropped.len()
        invariant
            i <= dropped@.len(),
            ds == dropped@.map_values(|s: String| s@),
            pattern_of@.len() == i,
            needles@.len() <= i,
            needles@.map_values(|p: Vec<u8>| p@) == dropped_needles(ds.take(i as int)),
            forall|k: int|
                0 <= k < i ==> match (#[trigger] pattern_of@[k], basename_of_spec(ds[k])) {
                    (Some(p), Some(b)) => p < needles@.len() && needles@[p as int]@ == utf8(b),
                    (None, None) => true,
                    _ => false,
                },
            forall|p: int| 0 <= p < needles@.len() ==> (#[trigger] needles@[p])@.len() > 0,
        decreases dropped.len() - i,
    {
        let ghost before = needles@;
        proof {
            assert(ds.take(i + 1).drop_last() =~= ds.take(i as int));
            assert(ds.take(i + 1).last() == ds[i as int]);
        }
        match basename_of(dropped[i].as_str()) {
            Some(b) => {
                proof {
                    lemma_utf8_nonempty(b@);
                }
                pattern_of.push(Some(needles.len()));
                needles.push(utf8_bytes(b.as_str()));
                assert(needles@.map_values(|p: Vec<u8>| p@) =~= before.map_values(
                    |p: Vec<u8>| p@,
                ).push(utf8(b@)));
            },
            None => {
                pattern_of.push(None);
            },
        }
        i += 1;
    }
    assert(ds.take(dropped@.len() as int) =~= ds);
    if needles.len() == 0 {
        proof {
            assert forall|n: int| 0 <= n <= ds.len() implies dangling_hits(ds, dv, n)
                =~= Seq::<(Seq<char>, Seq<char>)>::empty() by {
                lemma_no_hits(ds, dv, n, pattern_of@, needles@.len() as int);
            }
        }
        let none: Vec<(String, String)> = Vec::new();
        assert(none@.map_values(|h: (String, String)| (h.0@, h.1@)) =~= Seq::<
            (Seq<char>, Seq<char>),
        >::empty());
        return none;
    }
    let ac = match build_automaton(&needles) {
        Some(ac) => ac,
        None => {
            return Vec::new();
        },
    };
    let ghost pats = automaton_patterns(ac);
    // One pass per document.
    let mut found: Vec<Vec<bool>> = Vec::new();
    let mut d: usize = 0;
    while d < docs.len()
        invariant
            d <= docs@.len(),
            pats == automaton_patterns(ac),
            pats == needles@.map_values(|p: Vec<u8>| p@),
            found@.len() == d,
            forall|k: int|
                0 <= k < d ==> (#[trigger] found@[k])@.len() == pats.len() && forall|p: int|
                    0 <= p < pats.len() ==> found@[k]@[p] == occurs_in(docs@[k].1@, pats[p]),
        decreases docs.len() - d,
    {
        found.push(patterns_in(&ac, docs[d].1));
        d += 1;
    }
    // Pair the hits back to dropped paths.
    let mut hits: Vec<(String, String)> = Vec::new();
    let mut k: usize = 0;
    while k < dropped.len()
        invariant
            k <= dropped@.len(),
            ds == dropped@.map_values(|s: String| s@),
            dv == doc_views(docs@),
            pattern_of@.len() == dropped@.len(),
            pats == needles@.map_values(|p: Vec<u8>| p@),
            forall|j: int|
                0 <= j < dropped@.len() ==> match (#[trigger] pattern_of@[j], basename_of_spec(ds[j])) {
                    (Some(p), Some(b)) => p < needles@.len() && needles@[p as int]@ == utf8(b),
                    (None, None) => true,
                    _ => false,
                },
            found@.len() == docs@.len(),
            forall|j: int|
                0 <= j < docs@.len() ==> (#[trigger] found@[j])@.len() == pats.len() && forall|p: int|
                    0 <= p < pats.len() ==> found@[j]@[p] == occurs_in(docs@[j].1@, pats[p]),
            hits@.map_values(|h: (String, String)| (h.0@, h.1@)) == dangling_hits(ds, dv, k as int),
        decreases dropped.len() - k,
    {
        let ghost before = hits@.map_values(|h: (String, String)| (h.0@, h.1@));
        match pattern_of[k] {
            Some(p) => {
                let ghost b = basename_of_spec(ds[k as int])->0;
                let mut j: usize = 0;
                while j < docs.len()
                    invariant
                        j <= docs@.len(),
                        k < dropped@.len(),
                        ds == dropped@.map_values(|s: String| s@),
                        dv == doc_views(docs@),
                        p < needles@.len(),
                        pats == needles@.map_values(|p: Vec<u8>| p@),
                        needles@[p as int]@ == utf8(b),
                        found@.len() == docs@.len(),
                        forall|jj: int|
                            0 <= jj < docs@.len() ==> (#[trigger] found@[jj])@.len() == pats.len()
                                && forall|q: int|
                                0 <= q < pats.len() ==> found@[jj]@[q] == occurs_in(
                                    docs@[jj].1@,
                                    pats[q],
                                ),
                        hits@.map_values(|h: (String, String)| (h.0@, h.1@)) == before + doc_hits(
                            ds[k as int],
                            utf8(b),
                            dv,
                            j as int,
                        ),
                    decreases docs.len() - j,
                {
                    let ghost prev = hits@.map_values(|h: (String, String)| (h.0@, h.1@));
                    assert(pats[p as int] == utf8(b));
                    assert(dv[j as int] == (docs@[j as int].0@, docs@[j as int].1@));
                    if found[j][p] {
                        hits.push((docs[j].0.to_owned(), crate::model::copy_string(&dropped[k])));
                        assert(hits@.map_values(|h: (String, String)| (h.0@, h.1@)) =~= prev.push(
                            (dv[j as int].0, ds[k as int]),
                        ));
                    }
                    j += 1;
                }
            },
            None => {},
        }
        assert(hits@.map_values(|h: (String, String)| (h.0@, h.1@)) =~= dangling_hits(
            ds,
            dv,
            k + 1,
        ));
        k += 1;
    }
    hits
}

proof fn lemma_no_hits(
    ds: Seq<Seq<char>>,
    dv: Seq<(Seq<char>, Seq<u8>)>,
    n: int,
    pattern_of: Seq<Option<usize>>,
    needles: int,
)
    requires
        0 <= n <= ds.len(),
        pattern_of.len() == ds.len(),
        needles == 0,
        forall|k: int|
            0 <= k < ds.len() ==> match (#[trigger] pattern_of[k], basename_of_spec(ds[k])) {
                (Some(p), Some(b)) => p < needles,
                (None, None) => true,
                _ => false,
            },
    ensures
        dangling_hits(ds, dv, n) =~= Seq::<(Seq<char>, Seq<char>)>::empty(),
    decreases n,
{
    if n > 0 {
        lemma_no_hits(ds, dv, n - 1, pattern_of, needles);
        let x = pattern_of[n - 1];
        assert(basename_of_spec(ds[n - 1]) is None);
    }
}

} // verus!
