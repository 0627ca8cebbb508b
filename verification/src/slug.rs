//! Heading text turned into anchors: white space collapsed, slugs made
//! from headings, and repeated slugs numbered apart.

use vstd::prelude::*;

use crate::text::{chars_of, decimal, is_whitespace, is_ws, push_all, push_decimal, string_of};

verus! {

// ---------------------------------------------------------------------
// White space
// ---------------------------------------------------------------------

/// The words of `s` (maximal runs of non-white-space characters) read so
/// far, and the word being read.
pub open spec fn word_state(s: Seq<char>) -> (Seq<Seq<char>>, Seq<char>)
    decreases s.len(),
{
    if s.len() == 0 {
        (Seq::empty(), Seq::empty())
    } else {
        let (done, cur) = word_state(s.drop_last());
        if is_ws(s.last()) {
            if cur.len() > 0 {
                (done.push(cur), Seq::empty())
            } else {
                (done, cur)
            }
        } else {
            (done, cur.push(s.last()))
        }
    }
}

/// The white-space-separated words of `s`, in order.
pub open spec fn words(s: Seq<char>) -> Seq<Seq<char>> {
    let (done, cur) = word_state(s);
    if cur.len() > 0 {
        done.push(cur)
    } else {
        done
    }
}

/// Words joined with single spaces.
pub open spec fn join_words(w: Seq<Seq<char>>) -> Seq<char>
    decreases w.len(),
{
    if w.len() == 0 {
        Seq::empty()
    } else if w.len() == 1 {
        w[0]
    } else {
        join_words(w.drop_last()) + seq![' '] + w.last()
    }
}

/// Appends a word to a space-joined list under construction.
fn push_word(out: &mut Vec<char>, done: Ghost<Seq<Seq<char>>>, word: &Vec<char>, first: bool)
    requires
        old(out)@ == join_words(done@),
        first == (done@.len() == 0),
    ensures
        final(out)@ == join_words(done@.push(word@)),
{
    if !first {
        out.push(' ');
    }
    push_all(out, word);
    assert(done@.push(word@).drop_last() =~= done@);
}

/// Every run of white space collapsed to one space, and none at either end.
pub fn collapse_whitespace(s: &str) -> (r: String)
    ensures
        r@ == join_words(words(s@)),
{
    let v = chars_of(s);
    let mut out: Vec<char> = Vec::new();
    let mut cur: Vec<char> = Vec::new();
    let mut done: Ghost<Seq<Seq<char>>> = Ghost(Seq::empty());
    let mut any = false;
    let mut i: usize = 0;
    while i < v.len()
        invariant
            i <= v@.len(),
            v@ == s@,
            any == (done@.len() > 0),
            word_state(v@.take(i as int)) == (done@, cur@),
            out@ == join_words(done@),
        decreases v.len() - i,
    {
        let c = v[i];
        assert(v@.take(i + 1).drop_last() == v@.take(i as int));
        if is_whitespace(c) {
            if cur.len() > 0 {
                push_word(&mut out, done, &cur, !any);
                proof {
                    done@ = done@.push(cur@);
                }
                any = true;
                cur = Vec::new();
            }
        } else {
            cur.push(c);
        }
        i += 1;
    }
    assert(v@.take(v@.len() as int) == v@);
    if cur.len() > 0 {
        push_word(&mut out, done, &cur, !any);
    }
    string_of(&out)
}

// ---------------------------------------------------------------------
// Slugs
// ---------------------------------------------------------------------

/// Whether `c` is alphanumeric in Unicode's sense, as `char::is_alphanumeric`
/// decides it.
pub uninterp spec fn unicode_alphanumeric(c: char) -> bool;

/// The characters `char::to_lowercase` maps `c` to.
pub uninterp spec fn unicode_lowercase(c: char) -> Seq<char>;

/// Wraps `char::is_alphanumeric` of std: whether `c` has the Unicode
/// `Alphabetic` or `Numeric` property. The contract only names the result.
#[verifier::external_body]
fn is_alphanumeric(c: char) -> (r: bool)
    ensures
        r == unicode_alphanumeric(c),
{
    c.is_alphanumeric()
}

/// Wraps `char::to_lowercase` of std: the full Unicode lower-case mapping
/// of `c` (one to three characters). The contract only names the result.
#[verifier::external_body]
fn to_lowercase(c: char) -> (r: Vec<char>)
    ensures
        r@ == unicode_lowercase(c),
{
    c.to_lowercase().collect()
}

/// The slug built from `s` before trailing hyphens are trimmed, and whether
/// it ends in a hyphen (or is still empty).
pub open spec fn slug_state(s: Seq<char>) -> (Seq<char>, bool)
    decreases s.len(),
{
    if s.len() == 0 {
        (Seq::empty(), true)
    } else {
        let (slug, prev_hyphen) = slug_state(s.drop_last());
        let c = s.last();
        if unicode_alphanumeric(c) {
            (slug + unicode_lowercase(c), false)
        } else if !prev_hyphen {
            (slug.push('-'), true)
        } else {
            (slug, prev_hyphen)
        }
    }
}

/// `s` without trailing hyphens.
pub open spec fn trim_hyphens_end(s: Seq<char>) -> Seq<char>
    decreases s.len(),
{
    if s.len() > 0 && s.last() == '-' {
        trim_hyphens_end(s.drop_last())
    } else {
        s
    }
}

/// The slug of a heading: alphanumerics lower-cased, every run of other
/// characters one hyphen, no hyphen at either end; `section` when nothing
/// alphanumeric survives.
pub open spec fn slug_of(s: Seq<char>) -> Seq<char> {
    let t = trim_hyphens_end(slug_state(s).0);
    if t.len() == 0 {
        "section"@
    } else {
        t
    }
}

/// A lower-case, alphanumeric-and-hyphens slug of `text`.
pub fn slugify(text: &str) -> (r: String)
    ensures
        r@ == slug_of(text@),
{
    let v = chars_of(text);
    let mut slug: Vec<char> = Vec::new();
    let mut prev_hyphen = true;
    let mut i: usize = 0;
    while i < v.len()
        invariant
            i <= v@.len(),
            v@ == text@,
            slug_state(v@.take(i as int)) == (slug@, prev_hyphen),
        decreases v.len() - i,
    {
        let ch = v[i];
        assert(v@.take(i + 1).drop_last() == v@.take(i as int));
        if is_alphanumeric(ch) {
            let lower = to_lowercase(ch);
            push_all(&mut slug, &lower);
            prev_hyphen = false;
        } else if !prev_hyphen {
            slug.push('-');
            prev_hyphen = true;
        }
        i += 1;
    }
    assert(v@.take(v@.len() as int) == v@);
    let mut end: usize = slug.len();
    assert(slug@.take(slug@.len() as int) == slug@);
    while end > 0 && slug[end - 1] == '-'
        invariant
            end <= slug@.len(),
            trim_hyphens_end(slug@.take(end as int)) == trim_hyphens_end(slug@),
        decreases end,
    {
        assert(slug@.take(end as int).drop_last() == slug@.take(end - 1));
        end -= 1;
    }
    proof {
        assert(slug@.take(slug@.len() as int) == slug@);
    }
    if end == 0 {
        return "section".to_owned();
    }
    assert(trim_hyphens_end(slug@.take(end as int)) == slug@.take(end as int));
    string_of(&crate::text::copy_range(&slug, 0, end))
}

/// How many times each slug has been handed out.
pub struct SlugCounts {
    entries: Vec<(String, u32)>,
}

/// The count recorded for `key` among the first `n` entries (a later
/// entry for the same key replaces an earlier one).
pub open spec fn count_in(entries: Seq<(String, u32)>, key: Seq<char>) -> nat
    decreases entries.len(),
{
    if entries.len() == 0 {
        0
    } else if entries.last().0@ == key {
        entries.last().1 as nat
    } else {
        count_in(entries.drop_last(), key)
    }
}

impl SlugCounts {
    /// How many times `key` has been handed out.
    pub closed spec fn count(&self, key: Seq<char>) -> nat {
        count_in(self.entries@, key)
    }

    /// No slug handed out yet.
    pub fn new() -> (r: SlugCounts)
        ensures
            forall|k: Seq<char>| r.count(k) == 0,
    {
        SlugCounts { entries: Vec::new() }
    }

    /// How many times `key` has been handed out.
    fn get(&self, key: &[char]) -> (r: u32)
        ensures
            r as nat == self.count(key@),
    {
        let mut j: usize = self.entries.len();
        assert(self.entries@.take(self.entries@.len() as int) == self.entries@);
        while j > 0
            invariant
                j <= self.entries@.len(),
                count_in(self.entries@, key@) == count_in(self.entries@.take(j as int), key@),
            decreases j,
        {
            assert(self.entries@.take(j as int).drop_last() == self.entries@.take(j - 1));
            if crate::text::same_chars(&chars_of(self.entries[j - 1].0.as_str()), key) {
                return self.entries[j - 1].1;
            }
            j -= 1;
        }
        0
    }

    /// Record that `key` has now been handed out `n` times.
    fn set(&mut self, key: &[char], n: u32)
        ensures
            final(self).count(key@) == n,
            forall|k: Seq<char>| k != key@ ==> final(self).count(k) == old(self).count(k),
    {
        self.entries.push((string_of(key), n));
        assert(self.entries@.drop_last() == old(self).entries@);
    }
}

/// `base` on its first use, then `base-2`, `base-3`, ... on each repeat.
pub open spec fn deduped(base: Seq<char>, count: nat) -> Seq<char> {
    if count == 1 {
        base
    } else {
        base + seq!['-'] + decimal(count)
    }
}

/// Hand out `base` as a slug, numbering repeats apart: the first use is
/// `base` itself, the second `base-2`, the third `base-3`, and so on.
pub fn dedupe_slug(base: &str, seen: &mut SlugCounts) -> (r: String)
    requires
        old(seen).count(base@) < u32::MAX,
    ensures
        final(seen).count(base@) == old(seen).count(base@) + 1,
        forall|k: Seq<char>| k != base@ ==> final(seen).count(k) == old(seen).count(k),
        r@ == deduped(base@, old(seen).count(base@) + 1),
{
    let key = chars_of(base);
    let count = seen.get(&key) + 1;
    seen.set(&key, count);
    if count == 1 {
        return string_of(&key);
    }
    let mut out = key;
    out.push('-');
    push_decimal(&mut out, count as u128);
    string_of(&out)
}

} // verus!
