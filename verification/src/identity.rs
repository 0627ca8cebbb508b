//! Per-copy identity in the package document.
//!
//! The extra `dc:identifier` list is the one metadata channel a shop can use
//! to mark a copy: identifiers that name an *edition* (ISBN, ISSN, DOI) are
//! shared by every buyer and kept, values minted per copy (UUIDs, email
//! addresses, vendor transaction ids, DOI-costumed tokens) are dropped.

use vstd::prelude::*;

use crate::model::{Identifier, Metadata, copy_identifier, opt_str_view, opt_view};
use crate::report::{Transformation, book_transformation};
use crate::text::{
    all_digits, chars_of, contains_char, contains_ci, copy_range, count_char, count_of, decimal,
    every_digit, find_char, has_char, has_infix_ci, has_prefix, has_prefix_ci, index_of, is_digit,
    is_hex, lower_seq, push_decimal, push_str, same_chars, starts_with, starts_with_ci, to_lower,
    trim, trim_start, trim_start_index, trimmed,
};

verus! {

// ---------------------------------------------------------------------
// Specification
// ---------------------------------------------------------------------

/// `v` after the scheme prefix `p` and any white space that follows it.
pub open spec fn after_prefix(v: Seq<char>, p: Seq<char>) -> Seq<char> {
    trim_start(v.skip(p.len() as int))
}

/// `value` without a leading identifier-scheme prefix - `urn:isbn:`,
/// `isbn:`, `urn:issn:`, `issn:`, `urn:doi:`, `doi:`, or the bare words
/// `ISBN `/`ISSN ` - matched case-insensitively, tried in that order; the
/// value is stripped at most once. Unchanged when nothing matches.
pub open spec fn strip_scheme_prefix(v: Seq<char>) -> Seq<char> {
    if starts_with_ci(v, "urn:isbn:"@) {
        after_prefix(v, "urn:isbn:"@)
    } else if starts_with_ci(v, "isbn:"@) {
        after_prefix(v, "isbn:"@)
    } else if starts_with_ci(v, "urn:issn:"@) {
        after_prefix(v, "urn:issn:"@)
    } else if starts_with_ci(v, "issn:"@) {
        after_prefix(v, "issn:"@)
    } else if starts_with_ci(v, "urn:doi:"@) {
        after_prefix(v, "urn:doi:"@)
    } else if starts_with_ci(v, "doi:"@) {
        after_prefix(v, "doi:"@)
    } else if starts_with_ci(v, "isbn "@) {
        after_prefix(v, "isbn "@)
    } else if starts_with_ci(v, "issn "@) {
        after_prefix(v, "issn "@)
    } else {
        v
    }
}

/// A DOI's registrant and suffix, when `v` has the shape
/// `10.<registrant>/<suffix>` (split at the first `/`): registrant non-empty
/// and all digits, suffix non-empty.
pub open spec fn doi_parts(v: Seq<char>) -> Option<(Seq<char>, Seq<char>)> {
    if !starts_with(v, "10."@) {
        None
    } else {
        let rest = v.skip("10."@.len() as int);
        let k = index_of(rest, '/');
        if k < 0 {
            None
        } else {
            let registrant = rest.take(k);
            let suffix = rest.skip(k + 1);
            if registrant.len() > 0 && all_digits(registrant) && suffix.len() > 0 {
                Some((registrant, suffix))
            } else {
                None
            }
        }
    }
}

/// Exactly the UUID shape: four hyphens, at least 36 characters, nothing but
/// hex digits and hyphens.
pub open spec fn looks_like_uuid(v: Seq<char>) -> bool {
    &&& count_char(v, '-') == 4
    &&& v.len() >= 36
    &&& forall|i: int| 0 <= i < v.len() ==> is_hex(#[trigger] v[i]) || v[i] == '-'
}

/// Whether some run of 36 consecutive characters of `s` is UUID-shaped.
pub open spec fn contains_uuid(s: Seq<char>) -> bool {
    exists|i: int| 0 <= i && i + 36 <= s.len() && #[trigger] looks_like_uuid(s.subrange(i, i + 36))
}

/// Whether a DOI's registrant/suffix pair betrays a per-copy marker: a
/// registrant shorter than four digits or one of the placeholder/test
/// registrants `0000`, `5555`, `9999`; a suffix holding an email address, a
/// `urn:uuid:` or an embedded UUID; or a suffix that is nothing but a run of
/// at least twelve digits.
pub open spec fn doi_looks_per_copy(registrant: Seq<char>, suffix: Seq<char>) -> bool {
    ||| registrant.len() < 4
    ||| registrant == "0000"@
    ||| registrant == "5555"@
    ||| registrant == "9999"@
    ||| has_char(suffix, '@')
    ||| contains_ci(suffix, "urn:uuid:"@)
    ||| contains_uuid(suffix)
    ||| (suffix.len() >= 12 && all_digits(suffix))
}

/// Whether the DOI shape of `core` (if any) looks minted per copy.
pub open spec fn doi_core_per_copy(core: Seq<char>) -> bool {
    match doi_parts(core) {
        Some((r, s)) => doi_looks_per_copy(r, s),
        None => false,
    }
}

/// The per-copy shapes no declared scheme can override: an email address, a
/// UUID (bare or `urn:uuid:`), or a DOI whose own parts betray it.
pub open spec fn looks_per_copy_regardless_of_scheme(value: Seq<char>) -> bool {
    let v = trim(value);
    ||| has_char(v, '@')
    ||| contains_ci(v, "urn:uuid:"@)
    ||| looks_like_uuid(v)
    ||| doi_core_per_copy(strip_scheme_prefix(v))
}

/// `v` without the hyphens and spaces an ISBN/ISSN is printed with.
pub open spec fn strip_separators(v: Seq<char>) -> Seq<char> {
    v.filter(|c: char| c != '-' && c != ' ')
}

/// How many ASCII digits `s` holds.
pub open spec fn digit_count(s: Seq<char>) -> nat
    decreases s.len(),
{
    if s.len() == 0 {
        0
    } else {
        digit_count(s.drop_last()) + if is_digit(s.last()) {
            1nat
        } else {
            0nat
        }
    }
}

/// The numeric value of a decimal digit character.
pub open spec fn digit_value(c: char) -> int {
    c as int - '0' as int
}

/// The value of a check character: a digit is itself, `X`/`x` is 10.
pub open spec fn check_value(c: char) -> Option<int> {
    if is_digit(c) {
        Some(digit_value(c))
    } else if c == 'X' || c == 'x' {
        Some(10)
    } else {
        None
    }
}

/// The ISBN-13 weighted sum of the first `n` digits: weights 1,3,1,3,...
pub open spec fn isbn13_sum(s: Seq<char>, n: int) -> int
    decreases n,
{
    if n <= 0 {
        0
    } else {
        isbn13_sum(s, n - 1) + digit_value(s[n - 1]) * if (n - 1) % 2 == 0 {
            1int
        } else {
            3int
        }
    }
}

/// The ISBN-10 weighted sum of the first `n` digits: weights 10,9,...
pub open spec fn isbn10_sum(s: Seq<char>, n: int) -> int
    decreases n,
{
    if n <= 0 {
        0
    } else {
        isbn10_sum(s, n - 1) + digit_value(s[n - 1]) * (10 - (n - 1))
    }
}

/// The ISSN weighted sum of the first `n` digits: weights 8,7,...
pub open spec fn issn_sum(s: Seq<char>, n: int) -> int
    decreases n,
{
    if n <= 0 {
        0
    } else {
        issn_sum(s, n - 1) + digit_value(s[n - 1]) * (8 - (n - 1))
    }
}

/// A valid ISBN-13: thirteen digits under the `978`/`979` Bookland prefix
/// whose weighted sum is a multiple of ten.
pub open spec fn valid_isbn13(s: Seq<char>) -> bool {
    &&& s.len() == 13
    &&& all_digits(s)
    &&& (starts_with(s, "978"@) || starts_with(s, "979"@))
    &&& isbn13_sum(s, 13) % 10 == 0
}

/// A valid ISBN-10: nine digits and a check character (`X` for ten) whose
/// weighted sum is a multiple of eleven.
pub open spec fn valid_isbn10(s: Seq<char>) -> bool {
    &&& s.len() == 10
    &&& all_digits(s.take(9))
    &&& check_value(s[9]) is Some
    &&& (isbn10_sum(s, 9) + check_value(s[9])->0) % 11 == 0
}

/// A valid ISSN: seven digits and a check character equal to
/// `(11 - weighted_sum % 11) % 11`.
pub open spec fn valid_issn(s: Seq<char>) -> bool {
    &&& s.len() == 8
    &&& all_digits(s.take(7))
    &&& check_value(s[7]) is Some
    &&& check_value(s[7])->0 == (11 - issn_sum(s, 7) % 11) % 11
}

/// Whether `value` looks minted per copy rather than per edition: one of the
/// scheme-independent shapes, or (for a value not shaped like a DOI) eight or
/// more digits that do not form a checksum-valid ISBN-13, ISBN-10 or ISSN.
pub open spec fn is_per_copy_spec(value: Seq<char>) -> bool {
    if looks_per_copy_regardless_of_scheme(value) {
        true
    } else {
        let core = strip_scheme_prefix(trim(value));
        if doi_parts(core) is Some {
            false
        } else if digit_count(core) < 8 {
            false
        } else {
            let stripped = strip_separators(core);
            !(valid_isbn13(stripped) || valid_isbn10(stripped) || valid_issn(stripped))
        }
    }
}

/// How many check positions `v` holds once separators are stripped, and
/// whether the last is an `X`/`x`; `None` unless every position but the last
/// is a digit and the last is a digit or `X`/`x`.
pub open spec fn check_digit_positions(v: Seq<char>) -> Option<(nat, bool)> {
    let s = strip_separators(v);
    if s.len() == 0 {
        None
    } else {
        let last = s.last();
        let trailing_x = last == 'X' || last == 'x';
        if all_digits(s.drop_last()) && (trailing_x || is_digit(last)) {
            Some((s.len(), trailing_x))
        } else {
            None
        }
    }
}

/// Whether `value` is shaped like the (lower-case) declared `scheme`: an
/// ISBN-10 or Bookland ISBN-13 shape for `isbn`, an eight-position shape for
/// `issn`, the DOI shape for `doi`; nothing else matches.
pub open spec fn matches_declared_scheme_shape_spec(value: Seq<char>, scheme: Seq<char>) -> bool {
    let core = strip_scheme_prefix(trim(value));
    if scheme == "isbn"@ {
        match check_digit_positions(core) {
            Some((n, x)) => n == 10 || (n == 13 && !x && {
                let s = strip_separators(core);
                starts_with(s, "978"@) || starts_with(s, "979"@)
            }),
            None => false,
        }
    } else if scheme == "issn"@ {
        match check_digit_positions(core) {
            Some((n, _)) => n == 8,
            None => false,
        }
    } else if scheme == "doi"@ {
        doi_parts(core) is Some
    } else {
        false
    }
}

/// The schemes that name an edition rather than a copy.
pub open spec fn is_shared_scheme(scheme: Seq<char>) -> bool {
    scheme == "isbn"@ || scheme == "issn"@ || scheme == "doi"@
}

/// What kind of identifier a value is.
#[derive(Debug, Clone, Copy, PartialEq, Eq)]
pub enum PerCopyKind {
    /// Kept: an edition identifier, or one that provably converges.
    Shared,
    /// A bare UUID.
    Uuid,
    /// A shape that exists only to name one buyer: an email address, or a
    /// DOI whose own registrant/suffix betray it.
    Distinctive,
    /// A long digit run that is not a checksum-valid ISBN/ISSN.
    Opaque,
}

/// The single judgment behind both the drop decision and its diagnostic.
/// The identifier the writer synthesizes (`urn:epub-tailor:` + hash) is
/// always shared; then the scheme-independent shapes decide; then a declared
/// shared scheme keeps a value shaped like that scheme; anything else is
/// opaque exactly when [`is_per_copy_spec`] says so.
pub open spec fn classify_spec(value: Seq<char>, scheme: Option<Seq<char>>) -> PerCopyKind {
    let v = trim(value);
    if starts_with_ci(v, "urn:epub-tailor:"@) {
        PerCopyKind::Shared
    } else if has_char(v, '@') {
        PerCopyKind::Distinctive
    } else if contains_ci(v, "urn:uuid:"@) || looks_like_uuid(v) {
        PerCopyKind::Uuid
    } else if doi_core_per_copy(strip_scheme_prefix(v)) {
        PerCopyKind::Distinctive
    } else if scheme matches Some(s) && is_shared_scheme(lower_seq(s))
        && matches_declared_scheme_shape_spec(v, lower_seq(s)) {
        PerCopyKind::Shared
    } else if is_per_copy_spec(v) {
        PerCopyKind::Opaque
    } else {
        PerCopyKind::Shared
    }
}

/// Whether an identifier is kept.
pub open spec fn is_shared_spec(value: Seq<char>, scheme: Option<Seq<char>>) -> bool {
    classify_spec(value, scheme) == PerCopyKind::Shared
}

/// Whether an identifier record is kept.
pub open spec fn keeps_identifier(id: Identifier) -> bool {
    is_shared_spec(id.value@, opt_view(id.scheme))
}

// ---------------------------------------------------------------------
// Implementation
// ---------------------------------------------------------------------

/// `v` after the scheme prefix `p`, when `v` starts with `p` (ASCII case
/// folded).
fn strip_with(v: &[char], p: &str) -> (r: Option<Vec<char>>)
    ensures
        r is Some <==> starts_with_ci(v@, p@),
        r matches Some(x) ==> x@ == after_prefix(v@, p@),
{
    let pc = chars_of(p);
    if !has_prefix_ci(v, &pc) {
        return None;
    }
    let rest = &v[pc.len()..v.len()];
    assert(rest@ == v@.skip(p@.len() as int));
    let i = trim_start_index(rest);
    Some(copy_range(rest, i, rest.len()))
}

/// See [`strip_scheme_prefix`].
pub fn strip_scheme_prefix_chars(v: &[char]) -> (r: Vec<char>)
    ensures
        r@ == strip_scheme_prefix(v@),
{
    if let Some(r) = strip_with(v, "urn:isbn:") {
        return r;
    }
    if let Some(r) = strip_with(v, "isbn:") {
        return r;
    }
    if let Some(r) = strip_with(v, "urn:issn:") {
        return r;
    }
    if let Some(r) = strip_with(v, "issn:") {
        return r;
    }
    if let Some(r) = strip_with(v, "urn:doi:") {
        return r;
    }
    if let Some(r) = strip_with(v, "doi:") {
        return r;
    }
    if let Some(r) = strip_with(v, "isbn ") {
        return r;
    }
    if let Some(r) = strip_with(v, "issn ") {
        return r;
    }
    copy_range(v, 0, v.len())
}

/// See [`doi_parts`]: the bounds of the registrant and of the suffix.
fn doi_split(v: &[char]) -> (r: Option<(usize, usize)>)
    ensures
        r is Some <==> doi_parts(v@) is Some,
        r matches Some((k, n)) ==> 3 <= k < n <= v@.len() && doi_parts(v@) == Some(
            (v@.subrange(3, k as int), v@.subrange(k + 1, n as int)),
        ) && n == v@.len(),
{
    let ten = chars_of("10.");
    proof {
        reveal_strlit("10.");
    }
    if !has_prefix(v, &ten) {
        return None;
    }
    let rest = &v[3..v.len()];
    assert(rest@ == v@.skip(3));
    match find_char(rest, '/') {
        None => None,
        Some(k) => {
            let registrant = &rest[0..k];
            let suffix = &rest[k + 1..rest.len()];
            assert(registrant@ == rest@.take(k as int));
            assert(suffix@ == rest@.skip(k + 1));
            if registrant.len() > 0 && every_digit(registrant) && suffix.len() > 0 {
                assert(rest@.take(k as int) == v@.subrange(3, 3 + k));
                assert(rest@.skip(k + 1) == v@.subrange(3 + k + 1, v@.len() as int));
                Some((3 + k, v.len()))
            } else {
                None
            }
        },
    }
}

/// See [`looks_like_uuid`].
fn uuid_shaped(v: &[char]) -> (r: bool)
    ensures
        r == looks_like_uuid(v@),
{
    if v.len() < 36 {
        return false;
    }
    let mut i: usize = 0;
    while i < v.len()
        invariant
            i <= v@.len(),
            forall|k: int| 0 <= k < i ==> is_hex(#[trigger] v@[k]) || v@[k] == '-',
        decreases v.len() - i,
    {
        let c = v[i];
        let ok = ('0' <= c && c <= '9') || ('a' <= c && c <= 'f') || ('A' <= c && c <= 'F') || c
            == '-';
        if !ok {
            return false;
        }
        i += 1;
    }
    count_of(v, '-') == 4
}

/// See [`contains_uuid`].
fn has_uuid(s: &[char]) -> (r: bool)
    ensures
        r == contains_uuid(s@),
{
    if s.len() < 36 {
        return false;
    }
    let last = s.len() - 36;
    let mut i: usize = 0;
    while i <= last
        invariant
            last + 36 == s@.len(),
            last + 36 <= usize::MAX,
            i <= last + 1,
            forall|j: int| 0 <= j < i ==> !#[trigger] looks_like_uuid(s@.subrange(j, j + 36)),
        decreases last + 1 - i,
    {
        if uuid_shaped(&s[i..i + 36]) {
            return true;
        }
        i += 1;
    }
    false
}

/// See [`doi_looks_per_copy`].
fn doi_looks_per_copy_chars(registrant: &[char], suffix: &[char]) -> (r: bool)
    ensures
        r == doi_looks_per_copy(registrant@, suffix@),
{
    if registrant.len() < 4 {
        return true;
    }
    if same_chars(registrant, &chars_of("0000")) || same_chars(registrant, &chars_of("5555"))
        || same_chars(registrant, &chars_of("9999")) {
        return true;
    }
    if contains_char(suffix, '@') {
        return true;
    }
    if has_infix_ci(suffix, &chars_of("urn:uuid:")) || has_uuid(suffix) {
        return true;
    }
    suffix.len() >= 12 && every_digit(suffix)
}

/// See [`doi_core_per_copy`].
fn doi_core_per_copy_chars(core: &[char]) -> (r: bool)
    ensures
        r == doi_core_per_copy(core@),
{
    match doi_split(core) {
        Some((k, n)) => doi_looks_per_copy_chars(&core[3..k], &core[k + 1..n]),
        None => false,
    }
}

/// See [`looks_per_copy_regardless_of_scheme`]; `v` is already trimmed.
fn scheme_proof_per_copy(v: &[char]) -> (r: bool)
    ensures
        r == (has_char(v@, '@') || contains_ci(v@, "urn:uuid:"@) || looks_like_uuid(v@)
            || doi_core_per_copy(strip_scheme_prefix(v@))),
{
    if contains_char(v, '@') {
        return true;
    }
    if has_infix_ci(v, &chars_of("urn:uuid:")) || uuid_shaped(v) {
        return true;
    }
    let core = strip_scheme_prefix_chars(v);
    doi_core_per_copy_chars(&core)
}

/// See [`strip_separators`].
fn strip_separators_chars(v: &[char]) -> (r: Vec<char>)
    ensures
        r@ == strip_separators(v@),
{
    let mut r: Vec<char> = Vec::new();
    let mut i: usize = 0;
    while i < v.len()
        invariant
            i <= v@.len(),
            r@ == strip_separators(v@.take(i as int)),
        decreases v.len() - i,
    {
        proof {
            reveal(Seq::filter);
            assert(v@.take(i + 1).drop_last() == v@.take(i as int));
        }
        if v[i] != '-' && v[i] != ' ' {
            r.push(v[i]);
        }
        i += 1;
    }
    assert(v@.take(v.len() as int) == v@);
    r
}

/// See [`digit_count`].
fn count_digits(v: &[char]) -> (r: usize)
    ensures
        r == digit_count(v@),
{
    let mut n: usize = 0;
    let mut i: usize = 0;
    while i < v.len()
        invariant
            i <= v@.len(),
            n == digit_count(v@.take(i as int)),
            n <= i,
        decreases v.len() - i,
    {
        assert(v@.take(i + 1).drop_last() == v@.take(i as int));
        if '0' <= v[i] && v[i] <= '9' {
            n += 1;
        }
        i += 1;
    }
    assert(v@.take(v.len() as int) == v@);
    n
}

/// The numeric value of a digit character.
fn digit_of(c: char) -> (d: u32)
    requires
        is_digit(c),
    ensures
        d == digit_value(c),
        d <= 9,
{
    (c as u32) - ('0' as u32)
}

/// See [`check_value`].
fn check_char_value(c: char) -> (r: Option<u32>)
    ensures
        r matches Some(d) ==> check_value(c) == Some(d as int),
        r is None <==> check_value(c) is None,
{
    if '0' <= c && c <= '9' {
        Some(digit_of(c))
    } else if c == 'X' || c == 'x' {
        Some(10)
    } else {
        None
    }
}

/// See [`valid_isbn13`].
fn isbn13_chars(s: &[char]) -> (r: bool)
    ensures
        r == valid_isbn13(s@),
{
    if s.len() != 13 || !every_digit(s) {
        return false;
    }
    if !(has_prefix(s, &chars_of("978")) || has_prefix(s, &chars_of("979"))) {
        return false;
    }
    let mut sum: u32 = 0;
    let mut i: usize = 0;
    while i < 13
        invariant
            s@.len() == 13,
            all_digits(s@),
            i <= 13,
            sum == isbn13_sum(s@, i as int),
            sum <= 27 * i,
        decreases 13 - i,
    {
        let d = digit_of(s[i]);
        if i % 2 == 0 {
            sum = sum + d;
        } else {
            sum = sum + d * 3;
        }
        i += 1;
    }
    sum % 10 == 0
}

/// See [`valid_isbn10`].
fn isbn10_chars(s: &[char]) -> (r: bool)
    ensures
        r == valid_isbn10(s@),
{
    if s.len() != 10 || !every_digit(&s[0..9]) {
        assert(s@.len() == 10 ==> s@.subrange(0, 9) == s@.take(9));
        return false;
    }
    assert(s@.subrange(0, 9) == s@.take(9));
    let check = match check_char_value(s[9]) {
        Some(c) => c,
        None => {
            return false;
        },
    };
    let mut sum: u32 = 0;
    let mut i: usize = 0;
    while i < 9
        invariant
            s@.len() == 10,
            all_digits(s@.take(9)),
            i <= 9,
            sum == isbn10_sum(s@, i as int),
            sum <= 90 * i,
        decreases 9 - i,
    {
        assert(s@.take(9)[i as int] == s@[i as int]);
        let d = digit_of(s[i]);
        let w: u32 = 10 - i as u32;
        assert(d * w <= 90) by (nonlinear_arith)
            requires
                d <= 9,
                w <= 10,
        ;
        sum = sum + d * w;
        i += 1;
    }
    (sum + check) % 11 == 0
}

/// See [`valid_issn`].
fn issn_chars(s: &[char]) -> (r: bool)
    ensures
        r == valid_issn(s@),
{
    if s.len() != 8 || !every_digit(&s[0..7]) {
        assert(s@.len() == 8 ==> s@.subrange(0, 7) == s@.take(7));
        return false;
    }
    assert(s@.subrange(0, 7) == s@.take(7));
    let check = match check_char_value(s[7]) {
        Some(c) => c,
        None => {
            return false;
        },
    };
    let mut sum: u32 = 0;
    let mut i: usize = 0;
    while i < 7
        invariant
            s@.len() == 8,
            all_digits(s@.take(7)),
            i <= 7,
            sum == issn_sum(s@, i as int),
            sum <= 72 * i,
        decreases 7 - i,
    {
        assert(s@.take(7)[i as int] == s@[i as int]);
        let d = digit_of(s[i]);
        let w: u32 = 8 - i as u32;
        assert(d * w <= 72) by (nonlinear_arith)
            requires
                d <= 9,
                w <= 8,
        ;
        sum = sum + d * w;
        i += 1;
    }
    check == (11 - sum % 11) % 11
}

/// See [`is_per_copy_spec`].
fn per_copy_chars(value: &[char]) -> (r: bool)
    ensures
        r == is_per_copy_spec(value@),
{
    let v = trimmed(value);
    if scheme_proof_per_copy(&v) {
        return true;
    }
    let core = strip_scheme_prefix_chars(&v);
    if doi_split(&core).is_some() {
        return false;
    }
    if count_digits(&core) < 8 {
        return false;
    }
    let stripped = strip_separators_chars(&core);
    !(isbn13_chars(&stripped) || isbn10_chars(&stripped) || issn_chars(&stripped))
}

/// See [`check_digit_positions`].
fn check_positions_chars(v: &[char]) -> (r: Option<(usize, bool)>)
    ensures
        r matches Some((n, x)) ==> check_digit_positions(v@) == Some((n as nat, x)),
        r is None <==> check_digit_positions(v@) is None,
{
    let s = strip_separators_chars(v);
    if s.len() == 0 {
        return None;
    }
    let last = s[s.len() - 1];
    let trailing_x = last == 'X' || last == 'x';
    let body = &s[0..s.len() - 1];
    assert(body@ == s@.drop_last());
    if every_digit(body) && (trailing_x || ('0' <= last && last <= '9')) {
        Some((s.len(), trailing_x))
    } else {
        None
    }
}

/// See [`matches_declared_scheme_shape_spec`]; `scheme` is lower case.
fn shape_matches_chars(value: &[char], scheme: &[char]) -> (r: bool)
    ensures
        r == matches_declared_scheme_shape_spec(value@, scheme@),
{
    let v = trimmed(value);
    let core = strip_scheme_prefix_chars(&v);
    if same_chars(scheme, &chars_of("isbn")) {
        match check_positions_chars(&core) {
            Some((n, x)) => {
                if n == 10 {
                    true
                } else if n == 13 && !x {
                    let s = strip_separators_chars(&core);
                    has_prefix(&s, &chars_of("978")) || has_prefix(&s, &chars_of("979"))
                } else {
                    false
                }
            },
            None => false,
        }
    } else if same_chars(scheme, &chars_of("issn")) {
        match check_positions_chars(&core) {
            Some((n, _)) => n == 8,
            None => false,
        }
    } else if same_chars(scheme, &chars_of("doi")) {
        doi_split(&core).is_some()
    } else {
        false
    }
}

/// See [`classify_spec`].
fn classify_chars(value: &[char], scheme: Option<&[char]>) -> (r: PerCopyKind)
    ensures
        r == classify_spec(
            value@,
            match scheme {
                Some(s) => Some(s@),
                None => None,
            },
        ),
{
    let v = trimmed(value);
    if has_prefix_ci(&v, &chars_of("urn:epub-tailor:")) {
        return PerCopyKind::Shared;
    }
    if contains_char(&v, '@') {
        return PerCopyKind::Distinctive;
    }
    if has_infix_ci(&v, &chars_of("urn:uuid:")) || uuid_shaped(&v) {
        return PerCopyKind::Uuid;
    }
    let core = strip_scheme_prefix_chars(&v);
    if doi_core_per_copy_chars(&core) {
        return PerCopyKind::Distinctive;
    }
    if let Some(s) = scheme {
        let declared = to_lower(s);
        let shared = same_chars(&declared, &chars_of("isbn")) || same_chars(
            &declared,
            &chars_of("issn"),
        ) || same_chars(&declared, &chars_of("doi"));
        if shared && shape_matches_chars(&v, &declared) {
            return PerCopyKind::Shared;
        }
    }
    if per_copy_chars(&v) {
        PerCopyKind::Opaque
    } else {
        PerCopyKind::Shared
    }
}

// ---------------------------------------------------------------------
// Public entry points
// ---------------------------------------------------------------------

/// Whether `value` looks minted per copy rather than per edition.
pub fn is_per_copy(value: &str) -> (r: bool)
    ensures
        r == is_per_copy_spec(value@),
{
    per_copy_chars(&chars_of(value))
}

/// Whether `s` is a valid ISBN-13 (Bookland prefix, mod-10 checksum).
pub fn is_valid_isbn13(s: &str) -> (r: bool)
    ensures
        r == valid_isbn13(s@),
{
    isbn13_chars(&chars_of(s))
}

/// Whether `s` is a valid ISBN-10 (mod-11 checksum, `X` check allowed).
pub fn is_valid_isbn10(s: &str) -> (r: bool)
    ensures
        r == valid_isbn10(s@),
{
    isbn10_chars(&chars_of(s))
}

/// Whether `s` is a valid ISSN.
pub fn is_valid_issn(s: &str) -> (r: bool)
    ensures
        r == valid_issn(s@),
{
    issn_chars(&chars_of(s))
}

/// Whether `value` is plausibly shaped like the type an `identifier-type`
/// refinement declares (`scheme`, compared as given).
pub fn matches_declared_scheme_shape(value: &str, scheme: &str) -> (r: bool)
    ensures
        r == matches_declared_scheme_shape_spec(value@, scheme@),
{
    shape_matches_chars(&chars_of(value), &chars_of(scheme))
}

/// Classify an identifier; see [`classify_spec`].
pub fn classify(value: &str, scheme: Option<&str>) -> (r: PerCopyKind)
    ensures
        r == classify_spec(value@, opt_str_view(scheme)),
{
    let v = chars_of(value);
    match scheme {
        Some(s) => {
            let sc = chars_of(s);
            classify_chars(&v, Some(sc.as_slice()))
        },
        None => classify_chars(&v, None),
    }
}

/// Whether an identifier is kept: exactly when [`classify`] calls it
/// [`PerCopyKind::Shared`].
pub fn is_shared(value: &str, scheme: Option<&str>) -> (r: bool)
    ensures
        r == is_shared_spec(value@, opt_str_view(scheme)),
        r == (classify_spec(value@, opt_str_view(scheme)) == PerCopyKind::Shared),
{
    match classify(value, scheme) {
        PerCopyKind::Shared => true,
        _ => false,
    }
}

/// Whether an identifier record is kept.
fn keeps(id: &Identifier) -> (r: bool)
    ensures
        r == keeps_identifier(*id),
{
    match &id.scheme {
        Some(s) => is_shared(id.value.as_str(), Some(s.as_str())),
        None => is_shared(id.value.as_str(), None),
    }
}

/// The transformation recorded for dropped secondary identifiers.
pub open spec fn dropped_detail(n: nat) -> Seq<char> {
    "dropped "@ + decimal(n) + " per-copy identifier(s)"@
}

/// Drop per-copy secondary identifiers and, when the book's own unique
/// identifier is one, clear it (the writer derives a replacement from title
/// and authors). Records one transformation for the dropped secondary
/// identifiers, if any, and one for the cleared unique identifier, if it was
/// cleared.
pub fn normalize(metadata: &mut Metadata, transformations: &mut Vec<Transformation>)
    ensures
        final(metadata).identifiers@ == old(metadata).identifiers@.filter(
            |id: Identifier| keeps_identifier(id),
        ),
        ({
            let unique_per_copy = old(metadata).identifier matches Some(u) && !is_shared_spec(
                u@,
                opt_view(old(metadata).identifier_scheme),
            );
            &&& final(metadata).identifier == (if unique_per_copy {
                None
            } else {
                old(metadata).identifier
            })
            &&& final(metadata).identifier_scheme == old(metadata).identifier_scheme
        }),
        final(metadata).title == old(metadata).title,
        final(metadata).authors == old(metadata).authors,
        final(metadata).contributors == old(metadata).contributors,
        final(metadata).language == old(metadata).language,
        final(metadata).description == old(metadata).description,
        final(metadata).publisher == old(metadata).publisher,
        final(metadata).subjects == old(metadata).subjects,
        final(metadata).date == old(metadata).date,
        final(metadata).rights == old(metadata).rights,
        final(metadata).series == old(metadata).series,
        ({
            let dropped = old(metadata).identifiers@.len() - final(metadata).identifiers@.len();
            let unique_per_copy = old(metadata).identifier matches Some(u) && !is_shared_spec(
                u@,
                opt_view(old(metadata).identifier_scheme),
            );
            let first = if dropped > 0 {
                seq![(dropped as nat)]
            } else {
                Seq::<nat>::empty()
            };
            &&& final(transformations)@.len() == old(transformations)@.len() + first.len() + (
            if unique_per_copy {
                1int
            } else {
                0int
            })
            &&& final(transformations)@.take(old(transformations)@.len() as int) == old(
                transformations,
            )@
            &&& dropped > 0 ==> {
                let t = final(transformations)@[old(transformations)@.len() as int];
                &&& t.kind@ == "generic-identity"@
                &&& t.detail@ == dropped_detail(dropped as nat)
                &&& t.file is None
            }
            &&& unique_per_copy ==> {
                let t = final(transformations)@.last();
                &&& t.kind@ == "generic-identity"@
                &&& t.detail@ == "replaced a per-copy unique identifier with a derived one"@
                &&& t.file is None
            }
        }),
{
    let mut old_ids: Vec<Identifier> = Vec::new();
    std::mem::swap(&mut old_ids, &mut metadata.identifiers);
    let ghost before = old_ids@;
    let mut kept: Vec<Identifier> = Vec::new();
    let mut i: usize = 0;
    while i < old_ids.len()
        invariant
            i <= old_ids@.len(),
            before == old_ids@,
            kept@ == before.take(i as int).filter(|id: Identifier| keeps_identifier(id)),
        decreases old_ids.len() - i,
    {
        proof {
            reveal(Seq::filter);
            assert(before.take(i + 1).drop_last() == before.take(i as int));
        }
        if keeps(&old_ids[i]) {
            kept.push(copy_identifier(&old_ids[i]));
        }
        i += 1;
    }
    assert(before.take(before.len() as int) == before);
    let before_len = old_ids.len();
    let kept_len = kept.len();
    proof {
        before.lemma_filter_len(|id: Identifier| keeps_identifier(id));
    }
    metadata.identifiers = kept;
    let ghost t0 = transformations@;
    if kept_len < before_len {
        let mut detail = chars_of("dropped ");
        push_decimal(&mut detail, (before_len - kept_len) as u128);
        push_str(&mut detail, " per-copy identifier(s)");
        transformations.push(book_transformation("generic-identity", &detail));
    }
    assert(transformations@.take(t0.len() as int) == t0);
    let unique_per_copy = match &metadata.identifier {
        Some(u) => match &metadata.identifier_scheme {
            Some(s) => !is_shared(u.as_str(), Some(s.as_str())),
            None => !is_shared(u.as_str(), None),
        },
        None => false,
    };
    if !unique_per_copy {
        return;
    }
    metadata.identifier = None;
    let ghost t1 = transformations@;
    let detail = chars_of("replaced a per-copy unique identifier with a derived one");
    transformations.push(book_transformation("generic-identity", &detail));
    assert(transformations@.take(t0.len() as int) == t1.take(t0.len() as int));
}

// ---------------------------------------------------------------------
// Laws
// ---------------------------------------------------------------------

/// The identifier this library synthesizes for a book (`urn:epub-tailor:`
/// followed by a hash) is always kept, whatever scheme is declared.
pub proof fn law_synthesized_identifier_is_shared(value: Seq<char>, scheme: Option<Seq<char>>)
    requires
        starts_with_ci(trim(value), "urn:epub-tailor:"@),
    ensures
        is_shared_spec(value, scheme),
{
}

/// A declared scheme never rescues a value whose shape is per-copy on its
/// own - an email address, a UUID, or a DOI whose parts betray it - unless
/// the value is the library's own synthesized identifier.
pub proof fn law_scheme_never_rescues_a_per_copy_shape(
    value: Seq<char>,
    scheme: Option<Seq<char>>,
)
    requires
        looks_per_copy_regardless_of_scheme(value),
        !starts_with_ci(trim(value), "urn:epub-tailor:"@),
    ensures
        !is_shared_spec(value, scheme),
{
}

/// Declaring a scheme can only keep more: an identifier kept without a
/// scheme is kept with any scheme.
pub proof fn law_declaring_a_scheme_never_drops_a_kept_identifier(
    value: Seq<char>,
    scheme: Seq<char>,
)
    requires
        is_shared_spec(value, None),
    ensures
        is_shared_spec(value, Some(scheme)),
{
}

/// A declared scheme can only keep a value: what is kept without a scheme
/// is kept with whatever scheme, and a per-copy shape (an email address, a
/// UUID bare or as `urn:uuid:`, a DOI whose parts betray it) is dropped
/// with whatever scheme, unless it is the library's own synthesized
/// identifier.
pub proof fn law_a_declared_scheme_only_keeps(value: Seq<char>, scheme: Option<Seq<char>>)
    ensures
        is_shared_spec(value, None) ==> is_shared_spec(value, scheme),
        (looks_per_copy_regardless_of_scheme(value) && !starts_with_ci(
            trim(value),
            "urn:epub-tailor:"@,
        )) ==> !is_shared_spec(value, scheme),
{
}

/// A value whose core (scheme prefix and separators removed) is a
/// checksum-valid ISBN-13, ISBN-10 or ISSN is never judged an opaque
/// per-copy number.
pub proof fn law_checksum_valid_core_is_never_opaque(value: Seq<char>, scheme: Option<Seq<char>>)
    requires
        ({
            let stripped = strip_separators(strip_scheme_prefix(trim(value)));
            valid_isbn13(stripped) || valid_isbn10(stripped) || valid_issn(stripped)
        }),
    ensures
        classify_spec(value, scheme) != PerCopyKind::Opaque,
{
    crate::text::lemma_trim_idempotent(value);
}

/// A second identity pass drops nothing more: every identifier the first
/// pass kept is kept again.
pub proof fn law_identity_pass_is_idempotent(ids: Seq<Identifier>)
    ensures
        ids.filter(|id: Identifier| keeps_identifier(id)).filter(
            |id: Identifier| keeps_identifier(id),
        ) == ids.filter(|id: Identifier| keeps_identifier(id)),
{
    let f = |id: Identifier| keeps_identifier(id);
    let once = ids.filter(f);
    assert forall|i: int| 0 <= i < once.len() implies f(#[trigger] once[i]) by {
        ids.filter_lemma(f);
    }
    lemma_filter_all(once, f);
}

/// Filtering a sequence whose every element passes leaves it unchanged.
proof fn lemma_filter_all(s: Seq<Identifier>, f: spec_fn(Identifier) -> bool)
    requires
        forall|i: int| 0 <= i < s.len() ==> f(#[trigger] s[i]),
    ensures
        s.filter(f) == s,
    decreases s.len(),
{
    reveal(Seq::filter);
    if s.len() > 0 {
        lemma_filter_all(s.drop_last(), f);
        assert(s.drop_last().push(s.last()) == s);
    }
}

} // verus!
