//! Anchor aliases: where an inline id was dropped because its block
//! ancestor already carried one, references to it are pointed at the
//! block's id instead.

use vstd::prelude::*;

use crate::model::TocEntry;
use crate::text::{chars_of, copy_range, find_char, index_of, push_all, same_chars, string_of};

verus! {

/// A (chapter zip path, dropped inline id) key and the surviving block id
/// it is redirected to.
pub type AliasEntry = (String, String, String);

/// The key of an alias entry, by its characters.
pub open spec fn entry_key(e: AliasEntry) -> (Seq<char>, Seq<char>) {
    (e.0@, e.1@)
}

/// The map a list of entries stands for: a later entry for the same key
/// replaces an earlier one.
pub open spec fn alias_map_of(entries: Seq<AliasEntry>) -> Map<(Seq<char>, Seq<char>), Seq<char>>
    decreases entries.len(),
{
    if entries.len() == 0 {
        Map::empty()
    } else {
        alias_map_of(entries.drop_last()).insert(entry_key(entries.last()), entries.last().2@)
    }
}

/// The book's anchor aliases: (chapter zip path, dropped inline id) -> the
/// surviving block id in that chapter that references should be
/// redirected to. Keys are path-qualified because different chapters
/// routinely reuse the same id string.
pub struct AliasMap {
    entries: Vec<AliasEntry>,
}

impl View for AliasMap {
    type V = Map<(Seq<char>, Seq<char>), Seq<char>>;

    closed spec fn view(&self) -> Self::V {
        alias_map_of(self.entries@)
    }
}

/// Entries after index `j` that miss `k` leave its lookup to the first `j`.
proof fn lemma_lookup_prefix(s: Seq<AliasEntry>, j: int, k: (Seq<char>, Seq<char>))
    requires
        0 <= j <= s.len(),
        forall|i: int| j <= i < s.len() ==> entry_key(#[trigger] s[i]) != k,
    ensures
        alias_map_of(s).contains_key(k) == alias_map_of(s.take(j)).contains_key(k),
        alias_map_of(s).contains_key(k) ==> alias_map_of(s)[k] == alias_map_of(s.take(j))[k],
    decreases s.len() - j,
{
    if j == s.len() {
        assert(s.take(j) == s);
    } else {
        let d = s.drop_last();
        assert(entry_key(s[s.len() - 1]) != k);
        assert forall|i: int| j <= i < d.len() implies entry_key(#[trigger] d[i]) != k by {
            assert(d[i] == s[i]);
        }
        lemma_lookup_prefix(d, j, k);
        assert(d.take(j) == s.take(j));
    }
}

impl AliasMap {
    /// An empty alias map.
    pub fn new() -> (m: AliasMap)
        ensures
            m@ == Map::<(Seq<char>, Seq<char>), Seq<char>>::empty(),
    {
        AliasMap { entries: Vec::new() }
    }

    /// Redirect references to (`key.0`, `key.1`) to the id `value`,
    /// replacing any earlier redirection for that key.
    pub fn insert(&mut self, key: (String, String), value: String)
        ensures
            final(self)@ == old(self)@.insert((key.0@, key.1@), value@),
    {
        self.entries.push((key.0, key.1, value));
        assert(self.entries@.drop_last() == old(self).entries@);
    }

    /// Whether no alias has been recorded.
    pub fn is_empty(&self) -> (r: bool)
        ensures
            r == (self@ == Map::<(Seq<char>, Seq<char>), Seq<char>>::empty()),
    {
        if self.entries.len() == 0 {
            true
        } else {
            assert(self@.contains_key(entry_key(self.entries@.last())));
            false
        }
    }

    /// The id that references to `fragment` in chapter `path` are
    /// redirected to, if any.
    pub fn lookup(&self, path: &[char], fragment: &[char]) -> (r: Option<&String>)
        ensures
            match r {
                Some(v) => self@.contains_key((path@, fragment@)) && self@[(path@, fragment@)]
                    == v@,
                None => !self@.contains_key((path@, fragment@)),
            },
    {
        let ghost k = (path@, fragment@);
        let mut j: usize = self.entries.len();
        while j > 0
            invariant
                j <= self.entries@.len(),
                k == (path@, fragment@),
                forall|i: int| j <= i < self.entries@.len() ==> entry_key(
                    #[trigger] self.entries@[i],
                ) != k,
            decreases j,
        {
            let e = &self.entries[j - 1];
            let same_path = same_chars(&chars_of(e.0.as_str()), path);
            let same_fragment = same_chars(&chars_of(e.1.as_str()), fragment);
            assert(entry_key(self.entries@[j - 1]) == (e.0@, e.1@));
            if same_path && same_fragment {
                proof {
                    let s = self.entries@;
                    lemma_lookup_prefix(s, j as int, k);
                    assert(s.take(j as int).drop_last() == s.take(j - 1));
                    assert(s.take(j as int).last() == s[j - 1]);
                    assert(entry_key(s[j - 1]) == k);
                    assert(alias_map_of(s.take(j as int)) == alias_map_of(s.take(j - 1)).insert(
                        k,
                        e.2@,
                    ));
                }
                return Some(&e.2);
            }
            assert(entry_key(self.entries@[j - 1]) != k);
            j -= 1;
        }
        proof {
            lemma_lookup_prefix(self.entries@, 0, k);
            assert(self.entries@.take(0).len() == 0);
        }
        None
    }
}

/// The per-chapter output of the chapter transforms that the book-wide
/// passes need afterwards.
pub struct ChapterTransform {
    /// Anchor ids aliased onto an existing block id in this chapter, for the
    /// cross-document alias pass.
    pub aliases: AliasMap,
    /// The raw text lifted out of this chapter's `<style>` elements (empty
    /// when the chapter had none).
    pub extracted_css: String,
}

/// What a table-of-contents href becomes under `aliases`: a
/// `path#fragment` whose (path, fragment) is aliased gets the new fragment;
/// anything else is unchanged.
pub open spec fn aliased_href(href: Seq<char>, aliases: Map<(Seq<char>, Seq<char>), Seq<char>>) -> Seq<
    char,
> {
    let i = index_of(href, '#');
    if i < 0 {
        href
    } else {
        let key = (href.take(i), href.subrange(i + 1, href.len() as int));
        if aliases.contains_key(key) {
            href.take(i) + seq!['#'] + aliases[key]
        } else {
            href
        }
    }
}

/// Rewrite the fragment of every table-of-contents entry whose target
/// document and fragment match an aliased id. Entry hrefs are zip-absolute
/// paths with an optional `#fragment`, so this is a pure (path, fragment)
/// lookup.
pub fn apply_toc_aliases(toc: &mut [TocEntry], aliases: &AliasMap)
    ensures
        final(toc)@.len() == old(toc)@.len(),
        forall|i: int|
            0 <= i < old(toc)@.len() ==> {
                &&& (#[trigger] final(toc)@[i]).title == old(toc)@[i].title
                &&& final(toc)@[i].level == old(toc)@[i].level
                &&& final(toc)@[i].href@ == aliased_href(old(toc)@[i].href@, aliases@)
            },
{
    if aliases.is_empty() {
        return;
    }
    let ghost before = toc@;
    let mut i: usize = 0;
    while i < toc.len()
        invariant
            i <= toc@.len(),
            toc@.len() == before.len(),
            forall|k: int|
                0 <= k < before.len() ==> {
                    &&& (#[trigger] toc@[k]).title == before[k].title
                    &&& toc@[k].level == before[k].level
                    &&& toc@[k].href@ == if k < i {
                        aliased_href(before[k].href@, aliases@)
                    } else {
                        before[k].href@
                    }
                },
        decreases toc.len() - i,
    {
        let href = chars_of(toc[i].href.as_str());
        if let Some(h) = find_char(&href, '#') {
            assert(h < href.len());
            let path = copy_range(&href, 0, h);
            let fragment = copy_range(&href, h + 1, href.len());
            if let Some(new_id) = aliases.lookup(&path, &fragment) {
                let mut v = path;
                v.push('#');
                push_all(&mut v, &chars_of(new_id.as_str()));
                let entry = TocEntry {
                    title: crate::model::copy_string(&toc[i].title),
                    href: string_of(&v),
                    level: toc[i].level,
                };
                toc[i] = entry;
            }
        }
        i += 1;
    }
}

} // verus!
