//! Invisible-character removal, script-aware.
//!
//! Zero-width characters are the standard modern text fingerprint: they
//! survive copy-paste and reformatting, so a per-copy payload encoded in them
//! follows the text everywhere. But `U+200C`/`U+200D` are meaningful in
//! Arabic, Hebrew and the Indic scripts, and `U+200D` joins emoji sequences,
//! so a blanket strip corrupts real content. Those two are removed only where
//! the nearest visible characters on both sides cannot need them.

use vstd::prelude::*;

use crate::model::{Creator, Identifier, Metadata, TocEntry, opt_view};
use crate::report::Transformation;
use crate::text::{chars_of, decimal, is_whitespace, is_ws, string_of};

verus! {

/// Characters removed wherever they appear: none has a legitimate use inside
/// book prose.
pub open spec fn always_dropped(c: char) -> bool {
    c == '\u{200B}' || c == '\u{2060}' || c == '\u{180E}' || c == '\u{FEFF}'
}

/// The two joiners, kept only next to a script or symbol that needs them.
pub open spec fn is_joiner(c: char) -> bool {
    c == '\u{200C}' || c == '\u{200D}'
}

/// Whether `c` belongs to a script that uses ZWNJ/ZWJ to control shaping.
pub open spec fn needs_joiners_spec(c: char) -> bool {
    let u = c as u32;
    (0x0590 <= u <= 0x05FF) || (0x0600 <= u <= 0x06FF) || (0x0700 <= u <= 0x074F) || (0x0750
        <= u <= 0x077F) || (0x0900 <= u <= 0x097F) || (0x0980 <= u <= 0x09FF) || (0x0A00 <= u
        <= 0x0A7F) || (0x0A80 <= u <= 0x0AFF) || (0x0B00 <= u <= 0x0B7F) || (0x0B80 <= u
        <= 0x0BFF) || (0x0C00 <= u <= 0x0C7F) || (0x0C80 <= u <= 0x0CFF) || (0x0D00 <= u
        <= 0x0D7F) || (0x0D80 <= u <= 0x0DFF) || (0x0E00 <= u <= 0x0E7F) || (0x0F00 <= u
        <= 0x0FFF) || (0x1780 <= u <= 0x17FF) || (0xFB50 <= u <= 0xFDFF) || (0xFE70 <= u
        <= 0xFEFF)
}

/// Whether `c` is emoji-like, so a ZWJ next to it is a sequence joiner.
pub open spec fn is_pictographic_spec(c: char) -> bool {
    let u = c as u32;
    (0x1F000 <= u <= 0x1FAFF) || (0x2600 <= u <= 0x27BF) || u == 0xFE0F
}

/// Whether `c` belongs to a script that uses ZWNJ/ZWJ to control shaping:
/// Hebrew, Arabic, Syriac, the Indic scripts, Sinhala, Thai, Tibetan, Khmer
/// and the Arabic presentation forms.
fn needs_joiners(c: char) -> (r: bool)
    ensures
        r == needs_joiners_spec(c),
{
    let u = c as u32;
    (0x0590 <= u && u <= 0x05FF) || (0x0600 <= u && u <= 0x06FF) || (0x0700 <= u && u <= 0x074F)
        || (0x0750 <= u && u <= 0x077F) || (0x0900 <= u && u <= 0x097F) || (0x0980 <= u && u
        <= 0x09FF) || (0x0A00 <= u && u <= 0x0A7F) || (0x0A80 <= u && u <= 0x0AFF) || (0x0B00
        <= u && u <= 0x0B7F) || (0x0B80 <= u && u <= 0x0BFF) || (0x0C00 <= u && u <= 0x0C7F)
        || (0x0C80 <= u && u <= 0x0CFF) || (0x0D00 <= u && u <= 0x0D7F) || (0x0D80 <= u && u
        <= 0x0DFF) || (0x0E00 <= u && u <= 0x0E7F) || (0x0F00 <= u && u <= 0x0FFF) || (0x1780
        <= u && u <= 0x17FF) || (0xFB50 <= u && u <= 0xFDFF) || (0xFE70 <= u && u <= 0xFEFF)
}

/// Whether `c` is emoji-like (pictographs, dingbats, skin-tone modifiers,
/// variation selector-16).
fn is_pictographic(c: char) -> (r: bool)
    ensures
        r == is_pictographic_spec(c),
{
    let u = c as u32;
    (0x1F000 <= u && u <= 0x1FAFF) || (0x2600 <= u && u <= 0x27BF) || u == 0xFE0F
}

/// The nearest non-white-space character among the first `n` of `s`,
/// searching backwards.
pub open spec fn prev_visible(s: Seq<char>, n: nat) -> Option<char>
    decreases n,
{
    if n == 0 || n > s.len() {
        None
    } else if !is_ws(s[n - 1]) {
        Some(s[n - 1])
    } else {
        prev_visible(s, (n - 1) as nat)
    }
}

/// The nearest non-white-space character of `s` at or after index `i`.
pub open spec fn next_visible(s: Seq<char>, i: nat) -> Option<char>
    decreases s.len() - i,
{
    if i >= s.len() {
        None
    } else if !is_ws(s[i as int]) {
        Some(s[i as int])
    } else {
        next_visible(s, i + 1)
    }
}

/// Whether a neighbour protects a joiner next to it.
pub open spec fn protects(n: Option<char>) -> bool {
    match n {
        Some(c) => needs_joiners_spec(c) || is_pictographic_spec(c),
        None => false,
    }
}

/// Whether the character at index `i` of `s` is a fingerprint to drop.
pub open spec fn drops(s: Seq<char>, i: nat) -> bool {
    always_dropped(s[i as int]) || (is_joiner(s[i as int]) && !(protects(prev_visible(s, i))
        || protects(next_visible(s, i + 1))))
}

/// The characters among the first `n` of `s` that are kept, in order.
pub open spec fn kept_prefix(s: Seq<char>, n: nat) -> Seq<char>
    decreases n,
{
    if n == 0 {
        Seq::empty()
    } else if drops(s, (n - 1) as nat) {
        kept_prefix(s, (n - 1) as nat)
    } else {
        kept_prefix(s, (n - 1) as nat).push(s[n - 1])
    }
}

/// `s` with its fingerprint characters removed.
pub open spec fn scrubbed(s: Seq<char>) -> Seq<char> {
    kept_prefix(s, s.len())
}

/// The nearest non-white-space character before index `i`.
fn prev_visible_char(chars: &[char], i: usize) -> (r: Option<char>)
    requires
        i <= chars@.len(),
    ensures
        r == prev_visible(chars@, i as nat),
{
    let mut j: usize = i;
    while j > 0
        invariant
            j <= i <= chars@.len(),
            prev_visible(chars@, i as nat) == prev_visible(chars@, j as nat),
        decreases j,
    {
        if !is_whitespace(chars[j - 1]) {
            return Some(chars[j - 1]);
        }
        j -= 1;
    }
    None
}

/// The nearest non-white-space character at or after index `i`.
fn next_visible_char(chars: &[char], i: usize) -> (r: Option<char>)
    ensures
        r == next_visible(chars@, i as nat),
{
    let mut j: usize = i;
    while j < chars.len()
        invariant
            i <= j || j >= chars@.len(),
            next_visible(chars@, i as nat) == next_visible(chars@, j as nat),
        decreases chars.len() - j,
    {
        if !is_whitespace(chars[j]) {
            return Some(chars[j]);
        }
        j += 1;
    }
    None
}

/// Whether a neighbour protects a joiner next to it.
fn protected(n: Option<char>) -> (r: bool)
    ensures
        r == protects(n),
{
    match n {
        Some(c) => needs_joiners(c) || is_pictographic(c),
        None => false,
    }
}

/// For each character in `chars`, whether it is kept (`true`) or a
/// fingerprint to drop (`false`).
pub fn keep_mask(chars: &[char]) -> (keep: Vec<bool>)
    ensures
        keep@.len() == chars@.len(),
        forall|i: int| 0 <= i < chars@.len() ==> keep@[i] == !drops(chars@, i as nat),
{
    let mut keep: Vec<bool> = Vec::new();
    let mut i: usize = 0;
    while i < chars.len()
        invariant
            i <= chars@.len(),
            keep@.len() == i,
            forall|k: int| 0 <= k < i ==> keep@[k] == !drops(chars@, k as nat),
        decreases chars.len() - i,
    {
        let c = chars[i];
        let drop = if c == '\u{200B}' || c == '\u{2060}' || c == '\u{180E}' || c == '\u{FEFF}' {
            true
        } else if c == '\u{200C}' || c == '\u{200D}' {
            let prev = prev_visible_char(chars, i);
            let next = next_visible_char(chars, i + 1);
            !(protected(prev) || protected(next))
        } else {
            false
        };
        keep.push(!drop);
        i += 1;
    }
    keep
}

/// Remove fingerprint characters from `text`, returning the result and how
/// many were removed.
pub fn scrub(text: &str) -> (r: (String, usize))
    ensures
        r.0@ == scrubbed(text@),
        r.1 == text@.len() - scrubbed(text@).len(),
{
    let chars = chars_of(text);
    let keep = keep_mask(&chars);
    let mut out: Vec<char> = Vec::new();
    let mut removed: usize = 0;
    let mut i: usize = 0;
    while i < chars.len()
        invariant
            i <= chars@.len(),
            chars@ == text@,
            keep@.len() == chars@.len(),
            forall|k: int| 0 <= k < chars@.len() ==> keep@[k] == !drops(chars@, k as nat),
            out@ == kept_prefix(chars@, i as nat),
            removed + out@.len() == i,
        decreases chars.len() - i,
    {
        if keep[i] {
            out.push(chars[i]);
        } else {
            removed += 1;
        }
        i += 1;
    }
    (string_of(&out), removed)
}

// ---------------------------------------------------------------------
// Model strings
// ---------------------------------------------------------------------

proof fn lemma_kept_prefix_len(s: Seq<char>, n: nat)
    ensures
        kept_prefix(s, n).len() <= n,
    decreases n,
{
    if n > 0 {
        lemma_kept_prefix_len(s, (n - 1) as nat);
    }
}

/// How many fingerprint characters `s` holds.
pub open spec fn dropped_in(s: Seq<char>) -> nat {
    (s.len() - scrubbed(s).len()) as nat
}

/// How many an optional string holds.
pub open spec fn dropped_in_opt(o: Option<String>) -> nat {
    match o {
        Some(s) => dropped_in(s@),
        None => 0,
    }
}

/// An optional string scrubbed.
pub open spec fn scrubbed_opt(o: Option<Seq<char>>) -> Option<Seq<char>> {
    match o {
        Some(s) => Some(scrubbed(s)),
        None => None,
    }
}

/// How many a creator's strings hold.
pub open spec fn creator_dropped(c: Creator) -> nat {
    dropped_in(c.name@) + dropped_in_opt(c.file_as) + dropped_in_opt(c.role)
}

/// How many the first `n` creators hold.
pub open spec fn creators_dropped(v: Seq<Creator>, n: nat) -> nat
    decreases n,
{
    if n == 0 || n > v.len() {
        0
    } else {
        creators_dropped(v, (n - 1) as nat) + creator_dropped(v[n - 1])
    }
}

/// How many the first `n` identifier records hold.
pub open spec fn identifiers_dropped(v: Seq<Identifier>, n: nat) -> nat
    decreases n,
{
    if n == 0 || n > v.len() {
        0
    } else {
        identifiers_dropped(v, (n - 1) as nat) + dropped_in(v[n - 1].value@) + dropped_in_opt(
            v[n - 1].scheme,
        )
    }
}

/// How many the first `n` strings hold.
pub open spec fn strings_dropped(v: Seq<String>, n: nat) -> nat
    decreases n,
{
    if n == 0 || n > v.len() {
        0
    } else {
        strings_dropped(v, (n - 1) as nat) + dropped_in(v[n - 1]@)
    }
}

/// How many fingerprint characters the metadata display strings hold (the
/// unique identifier is not counted: it is never touched).
pub open spec fn metadata_dropped(m: Metadata) -> nat {
    dropped_in(m.title@) + creators_dropped(m.authors@, m.authors@.len()) + creators_dropped(
        m.contributors@,
        m.contributors@.len(),
    ) + dropped_in(m.language@) + identifiers_dropped(m.identifiers@, m.identifiers@.len())
        + dropped_in_opt(m.description) + dropped_in_opt(m.publisher) + strings_dropped(
        m.subjects@,
        m.subjects@.len(),
    ) + dropped_in_opt(m.date) + dropped_in_opt(m.rights) + match m.series {
        Some(s) => dropped_in(s.name@) + dropped_in_opt(s.index),
        None => 0,
    }
}

/// How many the first `n` table-of-contents titles hold.
pub open spec fn toc_dropped(toc: Seq<TocEntry>, n: nat) -> nat
    decreases n,
{
    if n == 0 || n > toc.len() {
        0
    } else {
        toc_dropped(toc, (n - 1) as nat) + dropped_in(toc[n - 1].title@)
    }
}

/// Whether `n` is `m` with every display string scrubbed and the unique
/// identifier (and its scheme) untouched.
pub open spec fn metadata_scrubbed(m: Metadata, n: Metadata) -> bool {
    &&& n.title@ == scrubbed(m.title@)
    &&& n.authors@.len() == m.authors@.len()
    &&& forall|i: int|
        0 <= i < m.authors@.len() ==> {
            &&& (#[trigger] n.authors@[i]).name@ == scrubbed(m.authors@[i].name@)
            &&& opt_view(n.authors@[i].file_as) == scrubbed_opt(opt_view(m.authors@[i].file_as))
            &&& opt_view(n.authors@[i].role) == scrubbed_opt(opt_view(m.authors@[i].role))
        }
    &&& n.contributors@.len() == m.contributors@.len()
    &&& forall|i: int|
        0 <= i < m.contributors@.len() ==> {
            &&& (#[trigger] n.contributors@[i]).name@ == scrubbed(m.contributors@[i].name@)
            &&& opt_view(n.contributors@[i].file_as) == scrubbed_opt(
                opt_view(m.contributors@[i].file_as),
            )
            &&& opt_view(n.contributors@[i].role) == scrubbed_opt(opt_view(m.contributors@[i].role))
        }
    &&& n.language@ == scrubbed(m.language@)
    &&& n.identifier == m.identifier
    &&& n.identifier_scheme == m.identifier_scheme
    &&& n.identifiers@.len() == m.identifiers@.len()
    &&& forall|i: int|
        0 <= i < m.identifiers@.len() ==> {
            &&& (#[trigger] n.identifiers@[i]).value@ == scrubbed(m.identifiers@[i].value@)
            &&& opt_view(n.identifiers@[i].scheme) == scrubbed_opt(opt_view(m.identifiers@[i].scheme))
        }
    &&& opt_view(n.description) == scrubbed_opt(opt_view(m.description))
    &&& opt_view(n.publisher) == scrubbed_opt(opt_view(m.publisher))
    &&& n.subjects@.len() == m.subjects@.len()
    &&& forall|i: int|
        0 <= i < m.subjects@.len() ==> (#[trigger] n.subjects@[i])@ == scrubbed(m.subjects@[i]@)
    &&& opt_view(n.date) == scrubbed_opt(opt_view(m.date))
    &&& opt_view(n.rights) == scrubbed_opt(opt_view(m.rights))
    &&& match (m.series, n.series) {
        (Some(a), Some(b)) => b.name@ == scrubbed(a.name@) && opt_view(b.index) == scrubbed_opt(
            opt_view(a.index),
        ),
        (None, None) => true,
        _ => false,
    }
}

/// Scrub a string in place, returning how many characters were removed.
fn scrub_in_place(s: &mut String) -> (removed: usize)
    ensures
        final(s)@ == scrubbed(old(s)@),
        removed == dropped_in(old(s)@),
{
    proof {
        lemma_kept_prefix_len(s@, s@.len());
    }
    let (cleaned, removed) = scrub(s.as_str());
    *s = cleaned;
    removed
}

/// Scrub an optional string in place.
fn scrub_opt_in_place(s: &mut Option<String>) -> (removed: usize)
    ensures
        opt_view(*final(s)) == scrubbed_opt(opt_view(*old(s))),
        removed == dropped_in_opt(*old(s)),
{
    match s {
        Some(v) => scrub_in_place(v),
        None => 0,
    }
}

/// Scrub every string of every creator in place.
fn scrub_creators(v: &mut Vec<Creator>) -> (removed: usize)
    requires
        creators_dropped(old(v)@, old(v)@.len()) <= usize::MAX,
    ensures
        final(v)@.len() == old(v)@.len(),
        forall|i: int|
            0 <= i < old(v)@.len() ==> {
                &&& (#[trigger] final(v)@[i]).name@ == scrubbed(old(v)@[i].name@)
                &&& opt_view(final(v)@[i].file_as) == scrubbed_opt(opt_view(old(v)@[i].file_as))
                &&& opt_view(final(v)@[i].role) == scrubbed_opt(opt_view(old(v)@[i].role))
            },
        removed == creators_dropped(old(v)@, old(v)@.len()),
{
    let ghost before = v@;
    let mut removed: usize = 0;
    let mut i: usize = 0;
    while i < v.len()
        invariant
            i <= v@.len(),
            v@.len() == before.len(),
            creators_dropped(before, before.len()) <= usize::MAX,
            removed == creators_dropped(before, i as nat),
            forall|k: int|
                0 <= k < i ==> {
                    &&& (#[trigger] v@[k]).name@ == scrubbed(before[k].name@)
                    &&& opt_view(v@[k].file_as) == scrubbed_opt(opt_view(before[k].file_as))
                    &&& opt_view(v@[k].role) == scrubbed_opt(opt_view(before[k].role))
                },
            forall|k: int| i <= k < v@.len() ==> #[trigger] v@[k] == before[k],
        decreases v.len() - i,
    {
        proof {
            lemma_creators_dropped_mono(before, (i + 1) as nat, before.len());
        }
        let mut c = crate::model::copy_creator(&v[i]);
        let a = scrub_in_place(&mut c.name);
        let b = scrub_opt_in_place(&mut c.file_as);
        let d = scrub_opt_in_place(&mut c.role);
        v[i] = c;
        removed = removed + a + b + d;
        i += 1;
    }
    removed
}

proof fn lemma_creators_dropped_mono(v: Seq<Creator>, a: nat, b: nat)
    requires
        a <= b <= v.len(),
    ensures
        creators_dropped(v, a) <= creators_dropped(v, b),
    decreases b - a,
{
    if a < b {
        lemma_creators_dropped_mono(v, a, (b - 1) as nat);
    }
}

proof fn lemma_identifiers_dropped_mono(v: Seq<Identifier>, a: nat, b: nat)
    requires
        a <= b <= v.len(),
    ensures
        identifiers_dropped(v, a) <= identifiers_dropped(v, b),
    decreases b - a,
{
    if a < b {
        lemma_identifiers_dropped_mono(v, a, (b - 1) as nat);
    }
}

proof fn lemma_strings_dropped_mono(v: Seq<String>, a: nat, b: nat)
    requires
        a <= b <= v.len(),
    ensures
        strings_dropped(v, a) <= strings_dropped(v, b),
    decreases b - a,
{
    if a < b {
        lemma_strings_dropped_mono(v, a, (b - 1) as nat);
    }
}

proof fn lemma_toc_dropped_mono(v: Seq<TocEntry>, a: nat, b: nat)
    requires
        a <= b <= v.len(),
    ensures
        toc_dropped(v, a) <= toc_dropped(v, b),
    decreases b - a,
{
    if a < b {
        lemma_toc_dropped_mono(v, a, (b - 1) as nat);
    }
}

/// Scrub every identifier record in place.
fn scrub_identifiers(v: &mut Vec<Identifier>) -> (removed: usize)
    requires
        identifiers_dropped(old(v)@, old(v)@.len()) <= usize::MAX,
    ensures
        final(v)@.len() == old(v)@.len(),
        forall|i: int|
            0 <= i < old(v)@.len() ==> {
                &&& (#[trigger] final(v)@[i]).value@ == scrubbed(old(v)@[i].value@)
                &&& opt_view(final(v)@[i].scheme) == scrubbed_opt(opt_view(old(v)@[i].scheme))
            },
        removed == identifiers_dropped(old(v)@, old(v)@.len()),
{
    let ghost before = v@;
    let mut removed: usize = 0;
    let mut i: usize = 0;
    while i < v.len()
        invariant
            i <= v@.len(),
            v@.len() == before.len(),
            identifiers_dropped(before, before.len()) <= usize::MAX,
            removed == identifiers_dropped(before, i as nat),
            forall|k: int|
                0 <= k < i ==> {
                    &&& (#[trigger] v@[k]).value@ == scrubbed(before[k].value@)
                    &&& opt_view(v@[k].scheme) == scrubbed_opt(opt_view(before[k].scheme))
                },
            forall|k: int| i <= k < v@.len() ==> #[trigger] v@[k] == before[k],
        decreases v.len() - i,
    {
        proof {
            lemma_identifiers_dropped_mono(before, (i + 1) as nat, before.len());
        }
        let mut id = crate::model::copy_identifier(&v[i]);
        let a = scrub_in_place(&mut id.value);
        let b = scrub_opt_in_place(&mut id.scheme);
        v[i] = id;
        removed = removed + a + b;
        i += 1;
    }
    removed
}

/// Scrub every string of a list in place.
fn scrub_strings(v: &mut Vec<String>) -> (removed: usize)
    requires
        strings_dropped(old(v)@, old(v)@.len()) <= usize::MAX,
    ensures
        final(v)@.len() == old(v)@.len(),
        forall|i: int| 0 <= i < old(v)@.len() ==> (#[trigger] final(v)@[i])@ == scrubbed(old(v)@[i]@),
        removed == strings_dropped(old(v)@, old(v)@.len()),
{
    let ghost before = v@;
    let mut removed: usize = 0;
    let mut i: usize = 0;
    while i < v.len()
        invariant
            i <= v@.len(),
            v@.len() == before.len(),
            strings_dropped(before, before.len()) <= usize::MAX,
            removed == strings_dropped(before, i as nat),
            forall|k: int| 0 <= k < i ==> (#[trigger] v@[k])@ == scrubbed(before[k]@),
            forall|k: int| i <= k < v@.len() ==> #[trigger] v@[k] == before[k],
        decreases v.len() - i,
    {
        proof {
            lemma_strings_dropped_mono(before, (i + 1) as nat, before.len());
        }
        let mut s = crate::model::copy_string(&v[i]);
        let a = scrub_in_place(&mut s);
        v[i] = s;
        removed = removed + a;
        i += 1;
    }
    removed
}

/// Scrub the metadata display strings, returning how many characters went.
fn scrub_metadata(m: &mut Metadata) -> (removed: usize)
    requires
        metadata_dropped(*old(m)) <= usize::MAX,
    ensures
        metadata_scrubbed(*old(m), *final(m)),
        removed == metadata_dropped(*old(m)),
{
    let mut removed: usize = scrub_in_place(&mut m.title);
    removed = removed + scrub_creators(&mut m.authors);
    removed = removed + scrub_creators(&mut m.contributors);
    removed = removed + scrub_in_place(&mut m.language);
    removed = removed + scrub_identifiers(&mut m.identifiers);
    removed = removed + scrub_opt_in_place(&mut m.description);
    removed = removed + scrub_opt_in_place(&mut m.publisher);
    removed = removed + scrub_strings(&mut m.subjects);
    removed = removed + scrub_opt_in_place(&mut m.date);
    removed = removed + scrub_opt_in_place(&mut m.rights);
    match &mut m.series {
        Some(s) => {
            removed = removed + scrub_in_place(&mut s.name);
            removed = removed + scrub_opt_in_place(&mut s.index);
        },
        None => {},
    }
    removed
}

/// Scrub every string the writer regenerates the package document, nav and
/// NCX from - the metadata display fields and the table-of-contents titles
/// - so a fingerprint there does not survive the chapter-level scrubs. The
/// unique identifier and every href are untouched. One record counts what
/// left the metadata, another what left the table of contents (each only
/// when something did).
pub fn scrub_model_strings(
    metadata: &mut Metadata,
    toc: &mut [TocEntry],
    transformations: &mut Vec<Transformation>,
)
    requires
        metadata_dropped(*old(metadata)) <= usize::MAX,
        toc_dropped(old(toc)@, old(toc)@.len()) <= usize::MAX,
    ensures
        metadata_scrubbed(*old(metadata), *final(metadata)),
        final(toc)@.len() == old(toc)@.len(),
        forall|i: int|
            0 <= i < old(toc)@.len() ==> {
                &&& (#[trigger] final(toc)@[i]).title@ == scrubbed(old(toc)@[i].title@)
                &&& final(toc)@[i].href == old(toc)@[i].href
                &&& final(toc)@[i].level == old(toc)@[i].level
            },
        ({
            let m = metadata_dropped(*old(metadata));
            let t = toc_dropped(old(toc)@, old(toc)@.len());
            let records = if m > 0 {
                seq![
                    "removed "@ + decimal(m) + " invisible character(s) from metadata"@,
                ]
            } else {
                Seq::empty()
            } + if t > 0 {
                seq![
                    "removed "@ + decimal(t)
                        + " invisible character(s) from the table of contents"@,
                ]
            } else {
                Seq::empty()
            };
            &&& final(transformations)@.len() == old(transformations)@.len() + records.len()
            &&& final(transformations)@.take(old(transformations)@.len() as int)
                == old(transformations)@
            &&& forall|i: int|
                0 <= i < records.len() ==> {
                    &&& (#[trigger] final(transformations)@[old(transformations)@.len() + i]).kind@
                        == "generic-invisible"@
                    &&& final(transformations)@[old(transformations)@.len() + i].detail@
                        == records[i]
                    &&& final(transformations)@[old(transformations)@.len() + i].file is None
                }
        }),
{
    let ghost t0 = transformations@;
    let ghost toc0 = toc@;
    let removed = scrub_metadata(metadata);
    let ghost first: Seq<Seq<char>> = if removed > 0 {
        seq!["removed "@ + decimal(removed as nat) + " invisible character(s) from metadata"@]
    } else {
        Seq::empty()
    };
    if removed > 0 {
        let mut detail = crate::text::chars_of("removed ");
        crate::text::push_decimal(&mut detail, removed as u128);
        crate::text::push_str(&mut detail, " invisible character(s) from metadata");
        transformations.push(crate::report::book_transformation("generic-invisible", &detail));
    }
    assert(transformations@.take(t0.len() as int) == t0);
    let mut toc_removed: usize = 0;
    let mut i: usize = 0;
    while i < toc.len()
        invariant
            i <= toc@.len(),
            toc@.len() == toc0.len(),
            toc_dropped(toc0, toc0.len()) <= usize::MAX,
            toc_removed == toc_dropped(toc0, i as nat),
            forall|j: int|
                0 <= j < i ==> {
                    &&& (#[trigger] toc@[j]).title@ == scrubbed(toc0[j].title@)
                    &&& toc@[j].href == toc0[j].href
                    &&& toc@[j].level == toc0[j].level
                },
            forall|j: int| i <= j < toc@.len() ==> #[trigger] toc@[j] == toc0[j],
        decreases toc.len() - i,
    {
        proof {
            lemma_toc_dropped_mono(toc0, (i + 1) as nat, toc0.len());
        }
        let mut title = crate::model::copy_string(&toc[i].title);
        let r = scrub_in_place(&mut title);
        let entry = TocEntry {
            title,
            href: crate::model::copy_string(&toc[i].href),
            level: toc[i].level,
        };
        toc[i] = entry;
        toc_removed = toc_removed + r;
        i += 1;
    }
    if toc_removed > 0 {
        let ghost before = transformations@;
        let mut detail = crate::text::chars_of("removed ");
        crate::text::push_decimal(&mut detail, toc_removed as u128);
        crate::text::push_str(&mut detail, " invisible character(s) from the table of contents");
        transformations.push(crate::report::book_transformation("generic-invisible", &detail));
        assert(transformations@.take(t0.len() as int) == before.take(t0.len() as int));
        assert(transformations@[t0.len() as int] == before[t0.len() as int] || removed == 0);
    }
}

// ---------------------------------------------------------------------
// Scrubbing twice
// ---------------------------------------------------------------------

/// The characters of `s` kept from index `a` on, in order.
pub open spec fn kept_from(s: Seq<char>, a: nat) -> Seq<char>
    decreases s.len() - a,
{
    if a >= s.len() {
        Seq::empty()
    } else if drops(s, a) {
        kept_from(s, a + 1)
    } else {
        seq![s[a as int]] + kept_from(s, a + 1)
    }
}

/// What is kept of `s` splits at any index into what is kept before it
/// and what is kept from it on.
proof fn lemma_kept_split(s: Seq<char>, a: nat)
    requires
        a <= s.len(),
    ensures
        scrubbed(s) == kept_prefix(s, a) + kept_from(s, a),
    decreases s.len() - a,
{
    if a < s.len() {
        lemma_kept_split(s, a + 1);
        if drops(s, a) {
        } else {
            assert(kept_prefix(s, a).push(s[a as int]) + kept_from(s, a + 1) =~= kept_prefix(s, a)
                + (seq![s[a as int]] + kept_from(s, a + 1)));
        }
    } else {
        assert(kept_prefix(s, a) + Seq::<char>::empty() =~= kept_prefix(s, a));
    }
}

/// Looking back from inside `x`, what follows `x` is never seen.
proof fn lemma_prev_visible_prefix(x: Seq<char>, y: Seq<char>, n: nat)
    requires
        n <= x.len(),
    ensures
        prev_visible(x + y, n) == prev_visible(x, n),
    decreases n,
{
    if n > 0 {
        assert((x + y)[n - 1] == x[n - 1]);
        lemma_prev_visible_prefix(x, y, (n - 1) as nat);
    }
}

/// Looking ahead from past `x`, only `y` is seen.
proof fn lemma_next_visible_shift(x: Seq<char>, y: Seq<char>, k: nat)
    ensures
        next_visible(x + y, x.len() + k) == next_visible(y, k),
    decreases y.len() - k,
{
    if k < y.len() {
        assert((x + y)[x.len() + k as int] == y[k as int]);
        lemma_next_visible_shift(x, y, k + 1);
    }
}

/// A neighbour that protects a joiner is never itself dropped, white space
/// never is, and neither is a joiner's protector nor white space a joiner.
proof fn lemma_kept_kinds(c: char)
    requires
        c != '\u{FEFF}',
    ensures
        is_ws(c) ==> !always_dropped(c) && !is_joiner(c),
        protects(Some(c)) ==> !always_dropped(c) && !is_joiner(c) && !is_ws(c),
{
}

/// A protecting neighbour found looking back from index `n` is still the
/// neighbour once the characters before `n` are scrubbed.
proof fn lemma_prev_survives(s: Seq<char>, n: nat)
    requires
        n <= s.len(),
        forall|i: int| 0 <= i < s.len() ==> s[i] != '\u{FEFF}',
    ensures
        protects(prev_visible(s, n)) ==> prev_visible(kept_prefix(s, n), kept_prefix(s, n).len())
            == prev_visible(s, n),
    decreases n,
{
    if n > 0 {
        let c = s[n - 1];
        lemma_kept_kinds(c);
        let kp = kept_prefix(s, (n - 1) as nat);
        if is_ws(c) {
            assert(!drops(s, (n - 1) as nat));
            lemma_prev_survives(s, (n - 1) as nat);
            lemma_prev_visible_prefix(kp, seq![c], kp.len());
            assert(kp.push(c) == kp + seq![c]);
        } else if protects(Some(c)) {
            assert(!drops(s, (n - 1) as nat));
        }
    }
}

/// A protecting neighbour found looking ahead from index `a` is still the
/// neighbour once the characters from `a` on are scrubbed.
proof fn lemma_next_survives(s: Seq<char>, a: nat)
    requires
        forall|i: int| 0 <= i < s.len() ==> s[i] != '\u{FEFF}',
    ensures
        protects(next_visible(s, a)) ==> next_visible(kept_from(s, a), 0) == next_visible(s, a),
    decreases s.len() - a,
{
    if a < s.len() {
        let c = s[a as int];
        lemma_kept_kinds(c);
        if is_ws(c) {
            assert(!drops(s, a));
            lemma_next_survives(s, a + 1);
            lemma_next_visible_shift(seq![c], kept_from(s, a + 1), 0);
        } else if protects(Some(c)) {
            assert(!drops(s, a));
        }
    }
}

/// No character that survives a scrub is dropped by a second one, at
/// least among the first `n` characters of the unscrubbed text.
proof fn lemma_survivors_stay(s: Seq<char>, n: nat)
    requires
        n <= s.len(),
        forall|i: int| 0 <= i < s.len() ==> s[i] != '\u{FEFF}',
    ensures
        forall|j: nat| j < kept_prefix(s, n).len() ==> !#[trigger] drops(scrubbed(s), j),
    decreases n,
{
    if n > 0 {
        let i = (n - 1) as nat;
        lemma_survivors_stay(s, i);
        if !drops(s, i) {
            let t = scrubbed(s);
            let kp = kept_prefix(s, i);
            let j = kp.len();
            lemma_kept_split(s, i);
            lemma_kept_split(s, n);
            assert(t[j as int] == s[i as int]);
            if is_joiner(s[i as int]) {
                if protects(prev_visible(s, i)) {
                    lemma_prev_survives(s, i);
                    lemma_prev_visible_prefix(kp, kept_from(s, i), j);
                } else {
                    lemma_next_survives(s, n);
                    lemma_next_visible_shift(kept_prefix(s, n), kept_from(s, n), 0);
                    assert(kept_prefix(s, n).len() == j + 1);
                }
            }
            assert(!drops(t, j));
            assert forall|jj: nat| jj < kept_prefix(s, n).len() implies !#[trigger] drops(t, jj) by {
                if jj < j {
                }
            }
        }
    }
}

/// Where no character drops, scrubbing keeps everything.
proof fn lemma_nothing_dropped(t: Seq<char>, n: nat)
    requires
        n <= t.len(),
        forall|j: nat| j < t.len() ==> !#[trigger] drops(t, j),
    ensures
        kept_prefix(t, n) == t.take(n as int),
    decreases n,
{
    if n > 0 {
        lemma_nothing_dropped(t, (n - 1) as nat);
        assert(!drops(t, (n - 1) as nat));
        assert(t.take(n - 1).push(t[n - 1]) =~= t.take(n as int));
    }
}

/// Scrubbing twice changes nothing, for text without U+FEFF (which is both
/// dropped and, as an Arabic presentation form, a joiner's protector, so
/// removing it can expose a joiner it protected).
pub proof fn law_scrub_is_idempotent(s: Seq<char>)
    requires
        forall|i: int| 0 <= i < s.len() ==> s[i] != '\u{FEFF}',
    ensures
        scrubbed(scrubbed(s)) == scrubbed(s),
{
    let t = scrubbed(s);
    lemma_survivors_stay(s, s.len());
    lemma_nothing_dropped(t, t.len());
    assert(t.take(t.len() as int) =~= t);
}

/// Every character a scrub keeps is one of the input's, at its place
/// among the kept ones, and not one that drops.
proof fn lemma_kept_from_source(s: Seq<char>, n: nat)
    requires
        n <= s.len(),
    ensures
        forall|k: int|
            0 <= k < kept_prefix(s, n).len() ==> exists|i: int|
                0 <= i < n && !drops(s, i as nat) && #[trigger] kept_prefix(s, n)[k] == s[i],
    decreases n,
{
    if n > 0 {
        lemma_kept_from_source(s, (n - 1) as nat);
        let p = kept_prefix(s, (n - 1) as nat);
        assert forall|k: int| 0 <= k < kept_prefix(s, n).len() implies exists|i: int|
            0 <= i < n && !drops(s, i as nat) && #[trigger] kept_prefix(s, n)[k] == s[i] by {
            if k < p.len() {
                assert(kept_prefix(s, n)[k] == p[k]);
                let i = choose|i: int| 0 <= i < n - 1 && !drops(s, i as nat) && p[k] == s[i];
                assert(0 <= i < n && !drops(s, i as nat) && kept_prefix(s, n)[k] == s[i]);
            } else {
                assert(kept_prefix(s, n)[k] == s[n - 1]);
                assert(!drops(s, (n - 1) as nat));
            }
        }
    }
}

/// A scrub never leaves a zero-width space, word joiner, Mongolian vowel
/// separator or byte-order mark in its output.
pub proof fn law_fingerprints_never_survive(s: Seq<char>)
    ensures
        !scrubbed(s).contains('\u{200B}'),
        !scrubbed(s).contains('\u{2060}'),
        !scrubbed(s).contains('\u{180E}'),
        !scrubbed(s).contains('\u{FEFF}'),
{
    lemma_kept_from_source(s, s.len());
    assert forall|k: int| 0 <= k < scrubbed(s).len() implies {
        let c = #[trigger] scrubbed(s)[k];
        c != '\u{200B}' && c != '\u{2060}' && c != '\u{180E}' && c != '\u{FEFF}'
    } by {
        let i = choose|i: int| 0 <= i < s.len() && !drops(s, i as nat) && scrubbed(s)[k] == s[i];
    }
}

/// A joiner (ZWNJ or ZWJ) whose nearest non-white-space neighbour on either
/// side belongs to a script that shapes with joiners (Hebrew, Arabic,
/// Syriac, Devanagari, Bengali, Gurmukhi, Gujarati, Oriya, Tamil, Telugu,
/// Kannada, Malayalam, Sinhala, Thai, Tibetan, Khmer, the Arabic
/// presentation forms) or is emoji-like (pictographs, dingbats,
/// variation selector-16) survives a scrub, at its place among the kept
/// characters.
pub proof fn law_joiners_next_to_shaping_scripts_are_kept(s: Seq<char>, i: nat)
    requires
        i < s.len(),
        s[i as int] == '\u{200C}' || s[i as int] == '\u{200D}',
        (prev_visible(s, i) is Some && ((0x0590 <= (prev_visible(s, i)->0 as u32) <= 0x05FF) || (0x0600 <= (prev_visible(s, i)->0 as u32) <= 0x06FF) || (0x0700 <= (prev_visible(s, i)->0 as u32) <= 0x074F) || (0x0750 <= (prev_visible(s, i)->0 as u32) <= 0x077F) || (0x0900 <= (prev_visible(s, i)->0 as u32) <= 0x097F) || (0x0980 <= (prev_visible(s, i)->0 as u32) <= 0x09FF) || (0x0A00 <= (prev_visible(s, i)->0 as u32) <= 0x0A7F) || (0x0A80 <= (prev_visible(s, i)->0 as u32) <= 0x0AFF) || (0x0B00 <= (prev_visible(s, i)->0 as u32) <= 0x0B7F) || (0x0B80 <= (prev_visible(s, i)->0 as u32) <= 0x0BFF) || (0x0C00 <= (prev_visible(s, i)->0 as u32) <= 0x0C7F) || (0x0C80 <= (prev_visible(s, i)->0 as u32) <= 0x0CFF) || (0x0D00 <= (prev_visible(s, i)->0 as u32) <= 0x0D7F) || (0x0D80 <= (prev_visible(s, i)->0 as u32) <= 0x0DFF) || (0x0E00 <= (prev_visible(s, i)->0 as u32) <= 0x0E7F) || (0x0F00 <= (prev_visible(s, i)->0 as u32) <= 0x0FFF) || (0x1780 <= (prev_visible(s, i)->0 as u32) <= 0x17FF) || (0xFB50 <= (prev_visible(s, i)->0 as u32) <= 0xFDFF) || (0xFE70 <= (prev_visible(s, i)->0 as u32) <= 0xFEFF) || (0x1F000 <= (prev_visible(s, i)->0 as u32) <= 0x1FAFF) || (0x2600 <= (prev_visible(s, i)->0 as u32) <= 0x27BF) || (prev_visible(s, i)->0 as u32) == 0xFE0F)) || (next_visible(s, i + 1) is Some && ((0x0590 <= (next_visible(s, i + 1)->0 as u32) <= 0x05FF) || (0x0600 <= (next_visible(s, i + 1)->0 as u32) <= 0x06FF) || (0x0700 <= (next_visible(s, i + 1)->0 as u32) <= 0x074F) || (0x0750 <= (next_visible(s, i + 1)->0 as u32) <= 0x077F) || (0x0900 <= (next_visible(s, i + 1)->0 as u32) <= 0x097F) || (0x0980 <= (next_visible(s, i + 1)->0 as u32) <= 0x09FF) || (0x0A00 <= (next_visible(s, i + 1)->0 as u32) <= 0x0A7F) || (0x0A80 <= (next_visible(s, i + 1)->0 as u32) <= 0x0AFF) || (0x0B00 <= (next_visible(s, i + 1)->0 as u32) <= 0x0B7F) || (0x0B80 <= (next_visible(s, i + 1)->0 as u32) <= 0x0BFF) || (0x0C00 <= (next_visible(s, i + 1)->0 as u32) <= 0x0C7F) || (0x0C80 <= (next_visible(s, i + 1)->0 as u32) <= 0x0CFF) || (0x0D00 <= (next_visible(s, i + 1)->0 as u32) <= 0x0D7F) || (0x0D80 <= (next_visible(s, i + 1)->0 as u32) <= 0x0DFF) || (0x0E00 <= (next_visible(s, i + 1)->0 as u32) <= 0x0E7F) || (0x0F00 <= (next_visible(s, i + 1)->0 as u32) <= 0x0FFF) || (0x1780 <= (next_visible(s, i + 1)->0 as u32) <= 0x17FF) || (0xFB50 <= (next_visible(s, i + 1)->0 as u32) <= 0xFDFF) || (0xFE70 <= (next_visible(s, i + 1)->0 as u32) <= 0xFEFF) || (0x1F000 <= (next_visible(s, i + 1)->0 as u32) <= 0x1FAFF) || (0x2600 <= (next_visible(s, i + 1)->0 as u32) <= 0x27BF) || (next_visible(s, i + 1)->0 as u32) == 0xFE0F)),
    ensures
        scrubbed(s)[kept_prefix(s, i).len() as int] == s[i as int],
        scrubbed(s).len() == kept_prefix(s, i).len() + 1 + kept_from(s, i + 1).len(),
{
    assert(!drops(s, i));
    lemma_kept_split(s, i);
}

/// A joiner with no such neighbour on either side is dropped: it is not
/// among the characters a scrub keeps from its part of the text.
pub proof fn law_unprotected_joiners_are_dropped(s: Seq<char>, i: nat)
    requires
        i < s.len(),
        s[i as int] == '\u{200C}' || s[i as int] == '\u{200D}',
        !(prev_visible(s, i) is Some && ((0x0590 <= (prev_visible(s, i)->0 as u32) <= 0x05FF) || (0x0600 <= (prev_visible(s, i)->0 as u32) <= 0x06FF) || (0x0700 <= (prev_visible(s, i)->0 as u32) <= 0x074F) || (0x0750 <= (prev_visible(s, i)->0 as u32) <= 0x077F) || (0x0900 <= (prev_visible(s, i)->0 as u32) <= 0x097F) || (0x0980 <= (prev_visible(s, i)->0 as u32) <= 0x09FF) || (0x0A00 <= (prev_visible(s, i)->0 as u32) <= 0x0A7F) || (0x0A80 <= (prev_visible(s, i)->0 as u32) <= 0x0AFF) || (0x0B00 <= (prev_visible(s, i)->0 as u32) <= 0x0B7F) || (0x0B80 <= (prev_visible(s, i)->0 as u32) <= 0x0BFF) || (0x0C00 <= (prev_visible(s, i)->0 as u32) <= 0x0C7F) || (0x0C80 <= (prev_visible(s, i)->0 as u32) <= 0x0CFF) || (0x0D00 <= (prev_visible(s, i)->0 as u32) <= 0x0D7F) || (0x0D80 <= (prev_visible(s, i)->0 as u32) <= 0x0DFF) || (0x0E00 <= (prev_visible(s, i)->0 as u32) <= 0x0E7F) || (0x0F00 <= (prev_visible(s, i)->0 as u32) <= 0x0FFF) || (0x1780 <= (prev_visible(s, i)->0 as u32) <= 0x17FF) || (0xFB50 <= (prev_visible(s, i)->0 as u32) <= 0xFDFF) || (0xFE70 <= (prev_visible(s, i)->0 as u32) <= 0xFEFF) || (0x1F000 <= (prev_visible(s, i)->0 as u32) <= 0x1FAFF) || (0x2600 <= (prev_visible(s, i)->0 as u32) <= 0x27BF) || (prev_visible(s, i)->0 as u32) == 0xFE0F)),
        !(next_visible(s, i + 1) is Some && ((0x0590 <= (next_visible(s, i + 1)->0 as u32) <= 0x05FF) || (0x0600 <= (next_visible(s, i + 1)->0 as u32) <= 0x06FF) || (0x0700 <= (next_visible(s, i + 1)->0 as u32) <= 0x074F) || (0x0750 <= (next_visible(s, i + 1)->0 as u32) <= 0x077F) || (0x0900 <= (next_visible(s, i + 1)->0 as u32) <= 0x097F) || (0x0980 <= (next_visible(s, i + 1)->0 as u32) <= 0x09FF) || (0x0A00 <= (next_visible(s, i + 1)->0 as u32) <= 0x0A7F) || (0x0A80 <= (next_visible(s, i + 1)->0 as u32) <= 0x0AFF) || (0x0B00 <= (next_visible(s, i + 1)->0 as u32) <= 0x0B7F) || (0x0B80 <= (next_visible(s, i + 1)->0 as u32) <= 0x0BFF) || (0x0C00 <= (next_visible(s, i + 1)->0 as u32) <= 0x0C7F) || (0x0C80 <= (next_visible(s, i + 1)->0 as u32) <= 0x0CFF) || (0x0D00 <= (next_visible(s, i + 1)->0 as u32) <= 0x0D7F) || (0x0D80 <= (next_visible(s, i + 1)->0 as u32) <= 0x0DFF) || (0x0E00 <= (next_visible(s, i + 1)->0 as u32) <= 0x0E7F) || (0x0F00 <= (next_visible(s, i + 1)->0 as u32) <= 0x0FFF) || (0x1780 <= (next_visible(s, i + 1)->0 as u32) <= 0x17FF) || (0xFB50 <= (next_visible(s, i + 1)->0 as u32) <= 0xFDFF) || (0xFE70 <= (next_visible(s, i + 1)->0 as u32) <= 0xFEFF) || (0x1F000 <= (next_visible(s, i + 1)->0 as u32) <= 0x1FAFF) || (0x2600 <= (next_visible(s, i + 1)->0 as u32) <= 0x27BF) || (next_visible(s, i + 1)->0 as u32) == 0xFE0F)),
    ensures
        kept_prefix(s, i + 1) == kept_prefix(s, i),
{
    assert(drops(s, i));
}

/// Any other character - neither a fingerprint nor a joiner - is kept.
pub proof fn law_other_characters_are_kept(s: Seq<char>, i: nat)
    requires
        i < s.len(),
        s[i as int] != '\u{200B}' && s[i as int] != '\u{2060}' && s[i as int] != '\u{180E}'
            && s[i as int] != '\u{FEFF}' && s[i as int] != '\u{200C}' && s[i as int] != '\u{200D}',
    ensures
        kept_prefix(s, i + 1) == kept_prefix(s, i).push(s[i as int]),
{
    assert(!drops(s, i));
}

} // verus!
