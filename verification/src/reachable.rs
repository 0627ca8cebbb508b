//! References between a book's resources: resolving an href against the
//! document it appears in, and the raw-text safety nets that recover
//! stylesheet references a CSS parser drops (a misplaced `@import`, a
//! `url()` after a malformed rule).

use indexmap::IndexMap;
use vstd::prelude::*;

use crate::book::{
    copy_resource, effective_nav_path_spec, entry_of, key_index, lemma_key_index, new_resources,
    resource_at,
    resource_entries, resource_insert, resource_paths, Book, Resource,
};
use crate::model::opt_view;
use crate::paths::has_scheme_spec;
use crate::dangling::{automaton_builds, dangling_hits, doc_views, dropped_needles};
use crate::report::{transformation_view, warning_view, Transformation, Warning};
use crate::text::{
    chars_of, copy_range, index_of, is_ws, lower, push_all, push_str, starts_with_ci, string_of,
    trim, trim_start,
};

verus! {

// ---------------------------------------------------------------------
// Resolving hrefs
// ---------------------------------------------------------------------

/// Path segments folded onto a stack: empty and `.` segments vanish, `..`
/// drops the previous one (never climbing above the root).
pub open spec fn push_segment(stack: Seq<Seq<char>>, seg: Seq<char>) -> Seq<Seq<char>> {
    if seg.len() == 0 || seg == "."@ {
        stack
    } else if seg == ".."@ {
        if stack.len() > 0 {
            stack.drop_last()
        } else {
            stack
        }
    } else {
        stack.push(seg)
    }
}

/// The segment stack and the segment under construction after reading
/// `s` left to right.
pub open spec fn segment_state(s: Seq<char>) -> (Seq<Seq<char>>, Seq<char>)
    decreases s.len(),
{
    if s.len() == 0 {
        (Seq::empty(), Seq::empty())
    } else {
        let (stack, cur) = segment_state(s.drop_last());
        if s.last() == '/' {
            (push_segment(stack, cur), Seq::empty())
        } else {
            (stack, cur.push(s.last()))
        }
    }
}

/// Segments joined with `/`.
pub open spec fn join_segments(segs: Seq<Seq<char>>) -> Seq<char>
    decreases segs.len(),
{
    if segs.len() == 0 {
        Seq::empty()
    } else if segs.len() == 1 {
        segs[0]
    } else {
        join_segments(segs.drop_last()) + seq!['/'] + segs.last()
    }
}

/// `s` with `.` and `..` segments resolved and empty segments dropped.
pub open spec fn normalized_path(s: Seq<char>) -> Seq<char> {
    let (stack, cur) = segment_state(s);
    join_segments(push_segment(stack, cur))
}

/// `href` resolved against `base_dir` into a zip-absolute path (with any
/// `#fragment` kept on its last segment).
pub open spec fn normalize_href_spec(base_dir: Seq<char>, href: Seq<char>) -> Seq<char> {
    normalized_path(base_dir + seq!['/'] + href)
}

/// Appends `/` and `seg` (or just `seg` first) to a path under construction.
fn push_joined(out: &mut Vec<char>, segs: Ghost<Seq<Seq<char>>>, seg: &Vec<char>, first: bool)
    requires
        old(out)@ == join_segments(segs@),
        first == (segs@.len() == 0),
    ensures
        final(out)@ == join_segments(segs@.push(seg@)),
{
    if !first {
        out.push('/');
    }
    push_all(out, seg);
    assert(segs@.push(seg@).drop_last() =~= segs@);
}

/// Resolve `href` against `base_dir` into a zip-absolute path: the two are
/// joined, `.` and empty segments dropped and `..` segments applied.
pub fn normalize_href(base_dir: &str, href: &str) -> (r: String)
    ensures
        r@ == normalize_href_spec(base_dir@, href@),
{
    let mut s = chars_of(base_dir);
    s.push('/');
    crate::text::push_str(&mut s, href);
    assert(s@ == base_dir@ + seq!['/'] + href@);
    let mut stack: Vec<Vec<char>> = Vec::new();
    let mut cur: Vec<char> = Vec::new();
    let mut i: usize = 0;
    while i < s.len()
        invariant
            i <= s@.len(),
            segment_state(s@.take(i as int)) == (stack@.map_values(|v: Vec<char>| v@), cur@),
        decreases s.len() - i,
    {
        let c = s[i];
        proof {
            assert(s@.take(i + 1).drop_last() == s@.take(i as int));
        }
        if c == '/' {
            push_segment_vec(&mut stack, cur);
            cur = Vec::new();
        } else {
            cur.push(c);
        }
        i += 1;
    }
    assert(s@.take(s@.len() as int) == s@);
    let ghost st = segment_state(s@);
    push_segment_vec(&mut stack, cur);
    assert(stack@.map_values(|v: Vec<char>| v@) == push_segment(st.0, st.1));
    let mut out: Vec<char> = Vec::new();
    let mut k: usize = 0;
    while k < stack.len()
        invariant
            k <= stack@.len(),
            out@ == join_segments(stack@.map_values(|v: Vec<char>| v@).take(k as int)),
        decreases stack.len() - k,
    {
        let ghost done = stack@.map_values(|v: Vec<char>| v@).take(k as int);
        push_joined(&mut out, Ghost(done), &stack[k], k == 0);
        assert(stack@.map_values(|v: Vec<char>| v@).take(k + 1) == done.push(stack@[k as int]@));
        k += 1;
    }
    assert(stack@.map_values(|v: Vec<char>| v@).take(stack@.len() as int) == stack@.map_values(
        |v: Vec<char>| v@,
    ));
    assert(out@ == normalized_path(s@));
    string_of(&out)
}

/// Fold one segment onto a stack of segments.
fn push_segment_vec(stack: &mut Vec<Vec<char>>, seg: Vec<char>)
    ensures
        final(stack)@.map_values(|v: Vec<char>| v@) == push_segment(
            old(stack)@.map_values(|v: Vec<char>| v@),
            seg@,
        ),
{
    let ghost before = stack@.map_values(|v: Vec<char>| v@);
    let dot = seg.len() == 1 && seg[0] == '.';
    let dotdot = seg.len() == 2 && seg[0] == '.' && seg[1] == '.';
    proof {
        reveal_strlit(".");
        reveal_strlit("..");
        if seg@ == "."@ {
            assert(seg@[0] == '.');
        }
        if seg@ == ".."@ {
            assert(seg@[0] == '.' && seg@[1] == '.');
        }
        if dot {
            assert(seg@ =~= "."@);
        }
        if dotdot {
            assert(seg@ =~= ".."@);
        }
    }
    if seg.len() == 0 || dot {
        return;
    }
    if dotdot {
        if stack.len() > 0 {
            stack.pop();
            assert(stack@.map_values(|v: Vec<char>| v@) =~= before.drop_last());
        }
        return;
    }
    stack.push(seg);
    assert(stack@.map_values(|v: Vec<char>| v@) =~= before.push(seg@));
}

/// The text before the first `#` (all of it if there is none).
pub open spec fn before_fragment(s: Seq<char>) -> Seq<char> {
    let i = index_of(s, '#');
    if i < 0 {
        s
    } else {
        s.take(i)
    }
}

/// What a raw reference resolves to: the book-relative path it names
/// (fragment dropped), or nothing for an empty reference, a bare same-page
/// fragment, anything with a URI scheme, or a reference that resolves to
/// the empty path.
pub open spec fn resolve_spec(base_dir: Seq<char>, raw: Seq<char>) -> Option<Seq<char>> {
    let r = trim(raw);
    if r.len() == 0 || r[0] == '#' || has_scheme_spec(r) {
        None
    } else {
        let p = before_fragment(normalize_href_spec(base_dir, r));
        if p.len() == 0 {
            None
        } else {
            Some(p)
        }
    }
}

/// Resolve `raw` against the directory of the document it appeared in,
/// dropping a `#fragment` and skipping anything that is not a book-relative
/// path.
pub fn resolve(base_dir: &str, raw: &str) -> (r: Option<String>)
    ensures
        match resolve_spec(base_dir@, raw@) {
            Some(p) => r matches Some(s) && s@ == p,
            None => r is None,
        },
{
    let t = crate::text::trimmed(&chars_of(raw));
    if t.len() == 0 || t[0] == '#' {
        return None;
    }
    let ts = string_of(&t);
    if crate::paths::has_scheme(ts.as_str()) {
        return None;
    }
    let n = chars_of(normalize_href(base_dir, ts.as_str()).as_str());
    let p = match crate::text::find_char(&n, '#') {
        Some(i) => copy_range(&n, 0, i),
        None => copy_range(&n, 0, n.len()),
    };
    assert(n@.subrange(0, n@.len() as int) == n@);
    if p.len() == 0 {
        None
    } else {
        Some(string_of(&p))
    }
}

// ---------------------------------------------------------------------
// Raw stylesheet scans
// ---------------------------------------------------------------------

/// How many UTF-8 bytes `c` takes.
pub open spec fn utf8_len(c: char) -> nat {
    if (c as u32) < 0x80 {
        1
    } else if (c as u32) < 0x800 {
        2
    } else if (c as u32) < 0x10000 {
        3
    } else {
        4
    }
}

/// How many UTF-8 bytes `s` takes.
pub open spec fn utf8_size(s: Seq<char>) -> nat
    decreases s.len(),
{
    if s.len() == 0 {
        0
    } else {
        utf8_size(s.drop_last()) + utf8_len(s.last())
    }
}

/// Upper bound, in bytes, on how far past a `url(` or an `@import`'s
/// opening quote the raw scans search for the closing `)` or quote. No
/// legitimate book-relative path is anywhere close to this long, and the
/// bound keeps crafted input of nested, unclosed `url(url(...` tokens from
/// costing time quadratic in its length.
pub const MAX_RAW_SPAN: usize = 2048;

/// The number of leading characters of `s` that fit in `max` UTF-8 bytes:
/// the longest prefix that does not cut a character.
pub open spec fn bounded_len(s: Seq<char>, max: nat) -> nat
    decreases s.len(),
{
    if s.len() == 0 || utf8_len(s[0]) > max {
        0
    } else {
        1 + bounded_len(s.drop_first(), (max - utf8_len(s[0])) as nat)
    }
}

proof fn lemma_bounded_len(s: Seq<char>, max: nat)
    ensures
        bounded_len(s, max) <= s.len(),
    decreases s.len(),
{
    if s.len() > 0 && utf8_len(s[0]) <= max {
        lemma_bounded_len(s.drop_first(), (max - utf8_len(s[0])) as nat);
    }
}

/// The number of leading characters of `s[from..]` that fit in `max`
/// UTF-8 bytes.
fn bounded_prefix(s: &[char], from: usize, max: usize) -> (n: usize)
    requires
        from <= s@.len(),
    ensures
        n == bounded_len(s@.skip(from as int), max as nat),
        from + n <= s@.len(),
{
    let mut rem: usize = max;
    let mut k: usize = from;
    while k < s.len()
        invariant
            from <= k <= s@.len(),
            bounded_len(s@.skip(from as int), max as nat) == (k - from) + bounded_len(
                s@.skip(k as int),
                rem as nat,
            ),
        decreases s.len() - k,
    {
        let c = s[k];
        let w: usize = if (c as u32) < 0x80 {
            1
        } else if (c as u32) < 0x800 {
            2
        } else if (c as u32) < 0x10000 {
            3
        } else {
            4
        };
        assert(s@.skip(k as int)[0] == c);
        assert(s@.skip(k as int).drop_first() == s@.skip(k + 1));
        if w > rem {
            return k - from;
        }
        rem = rem - w;
        k += 1;
    }
    assert(s@.skip(k as int).len() == 0);
    k - from
}

/// The first index at or after `from` where `needle` (lower case) starts
/// in `s`, ignoring ASCII case; `-1` if there is none.
pub open spec fn find_ci_from(s: Seq<char>, from: int, needle: Seq<char>) -> int
    decreases s.len() - from,
{
    if from < 0 || from + needle.len() > s.len() {
        -1
    } else if starts_with_ci(s.skip(from), needle) {
        from
    } else {
        find_ci_from(s, from + 1, needle)
    }
}

proof fn lemma_find_ci_from(s: Seq<char>, from: int, needle: Seq<char>)
    requires
        0 <= from,
    ensures
        find_ci_from(s, from, needle) == -1 || (from <= find_ci_from(s, from, needle)
            && find_ci_from(s, from, needle) + needle.len() <= s.len()),
    decreases s.len() - from,
{
    if from + needle.len() <= s.len() && !starts_with_ci(s.skip(from), needle) {
        lemma_find_ci_from(s, from + 1, needle);
    }
}

/// The first index at or after `from` where `needle` (lower case) starts in
/// `s`, ignoring ASCII case.
fn find_ci(s: &[char], from: usize, needle: &[char]) -> (r: Option<usize>)
    requires
        from <= s@.len(),
    ensures
        match r {
            Some(i) => i as int == find_ci_from(s@, from as int, needle@) && i + needle@.len()
                <= s@.len(),
            None => find_ci_from(s@, from as int, needle@) == -1,
        },
{
    if needle.len() > s.len() {
        return None;
    }
    let mut k: usize = from;
    while k <= s.len() - needle.len()
        invariant
            from <= k <= s@.len(),
            needle@.len() <= s@.len(),
            find_ci_from(s@, from as int, needle@) == find_ci_from(s@, k as int, needle@),
        decreases s.len() - k,
    {
        assert(s@.subrange(k as int, s@.len() as int) == s@.skip(k as int));
        if crate::text::has_prefix_ci(&s[k..s.len()], needle) {
            return Some(k);
        }
        k += 1;
    }
    None
}

/// Whether `c` is a quote character.
pub open spec fn is_quote(c: char) -> bool {
    c == '"' || c == '\''
}

/// `s` without leading quote characters.
pub open spec fn trim_quotes_start(s: Seq<char>) -> Seq<char>
    decreases s.len(),
{
    if s.len() > 0 && is_quote(s[0]) {
        trim_quotes_start(s.drop_first())
    } else {
        s
    }
}

/// `s` without trailing quote characters.
pub open spec fn trim_quotes_end(s: Seq<char>) -> Seq<char>
    decreases s.len(),
{
    if s.len() > 0 && is_quote(s.last()) {
        trim_quotes_end(s.drop_last())
    } else {
        s
    }
}

/// `s` without quote characters at either end.
pub open spec fn trim_quotes(s: Seq<char>) -> Seq<char> {
    trim_quotes_end(trim_quotes_start(s))
}

/// Whether a captured value holds no `{`, `}` or line break - a capture
/// crossing one is garbage, never a path.
pub open spec fn clean_capture(s: Seq<char>) -> bool {
    forall|k: int| 0 <= k < s.len() ==> {
        let c = #[trigger] s[k];
        c != '{' && c != '}' && c != '\n' && c != '\r'
    }
}

/// The search window after index `at`: as many characters as fit in
/// [`MAX_RAW_SPAN`] bytes.
pub open spec fn raw_window(s: Seq<char>, at: int) -> Seq<char> {
    s.skip(at).take(bounded_len(s.skip(at), MAX_RAW_SPAN as nat) as int)
}

/// The reference one `url(` at `i` yields, if any.
pub open spec fn url_capture(css: Seq<char>, base_dir: Seq<char>, i: int) -> Option<Seq<char>> {
    let w = raw_window(css, i + 4);
    let e = index_of(w, ')');
    if e < 0 {
        None
    } else {
        let raw = trim_quotes(trim(w.take(e)));
        if clean_capture(raw) {
            resolve_spec(base_dir, raw)
        } else {
            None
        }
    }
}

/// The references the raw `url(` scan finds from index `from` on.
pub open spec fn url_refs_from(css: Seq<char>, base_dir: Seq<char>, from: int) -> Seq<Seq<char>>
    decreases css.len() - from,
{
    let i = find_ci_from(css, from, "url("@);
    if from < 0 || i < from || i + 4 > css.len() {
        Seq::empty()
    } else {
        let rest = url_refs_from(css, base_dir, i + 4);
        match url_capture(css, base_dir, i) {
            Some(p) => seq![p] + rest,
            None => rest,
        }
    }
}

/// The characters of `v[from..to]` with quotes and white space trimmed from
/// both ends.
fn trimmed_capture(v: &[char], from: usize, to: usize) -> (r: Vec<char>)
    requires
        from <= to <= v@.len(),
    ensures
        r@ == trim_quotes(trim(v@.subrange(from as int, to as int))),
{
    let t = crate::text::trimmed(&copy_range(v, from, to));
    assert(t@.skip(0) == t@);
    let mut a: usize = 0;
    while a < t.len() && (t[a] == '"' || t[a] == '\'')
        invariant
            a <= t@.len(),
            trim_quotes_start(t@.skip(a as int)) == trim_quotes_start(t@),
        decreases t.len() - a,
    {
        assert(t@.skip(a as int).drop_first() == t@.skip(a + 1));
        a += 1;
    }
    let mut b: usize = t.len();
    while b > a && (t[b - 1] == '"' || t[b - 1] == '\'')
        invariant
            a <= b <= t@.len(),
            trim_quotes_end(t@.subrange(a as int, b as int)) == trim_quotes_end(t@.skip(a as int)),
        decreases b,
    {
        assert(t@.subrange(a as int, b as int).drop_last() == t@.subrange(a as int, b - 1));
        b -= 1;
    }
    assert(t@.subrange(a as int, t@.len() as int) == t@.skip(a as int));
    copy_range(&t, a, b)
}

/// Whether `v[from..to]` holds no `{`, `}` or line break.
fn is_clean_capture(v: &[char], from: usize, to: usize) -> (r: bool)
    requires
        from <= to <= v@.len(),
    ensures
        r == clean_capture(v@.subrange(from as int, to as int)),
{
    let mut k: usize = from;
    while k < to
        invariant
            from <= k <= to <= v@.len(),
            forall|j: int| 0 <= j < k - from ==> {
                let c = #[trigger] v@.subrange(from as int, to as int)[j];
                c != '{' && c != '}' && c != '\n' && c != '\r'
            },
        decreases to - k,
    {
        let c = v[k];
        assert(v@.subrange(from as int, to as int)[k - from] == c);
        if c == '{' || c == '}' || c == '\n' || c == '\r' {
            return false;
        }
        k += 1;
    }
    true
}

/// A reference resolved from `v[from..to]`, as a string.
fn resolve_chars(base_dir: &str, v: &[char]) -> (r: Option<String>)
    ensures
        match resolve_spec(base_dir@, v@) {
            Some(p) => r matches Some(s) && s@ == p,
            None => r is None,
        },
{
    resolve(base_dir, string_of(v).as_str())
}

/// The references a raw scan for `url(...)` finds in a stylesheet, in
/// order - a safety net under the parser, recovering references after a
/// malformed rule. The scan is ASCII-case-insensitive, advances only past
/// each `url(` it matches (so a later `url(` inside an unclosed one is still
/// found), searches at most [`MAX_RAW_SPAN`] bytes for the closing `)`, and
/// drops any capture crossing a brace or line break.
pub fn raw_url_refs(css: &str, base_dir: &str) -> (r: Vec<String>)
    ensures
        r@.map_values(|s: String| s@) == url_refs_from(css@, base_dir@, 0),
{
    let v = chars_of(css);
    let needle = chars_of("url(");
    proof {
        reveal_strlit("url(");
    }
    let mut out: Vec<String> = Vec::new();
    let mut search_from: usize = 0;
    assert(out@.map_values(|s: String| s@) + url_refs_from(css@, base_dir@, 0) == url_refs_from(
        css@,
        base_dir@,
        0,
    ));
    loop
        invariant
            search_from <= v@.len(),
            v@ == css@,
            needle@ == "url("@,
            needle@.len() == 4,
            url_refs_from(css@, base_dir@, 0) == out@.map_values(|s: String| s@) + url_refs_from(
                css@,
                base_dir@,
                search_from as int,
            ),
        decreases v.len() - search_from,
    {
        proof {
            lemma_find_ci_from(v@, search_from as int, needle@);
        }
        let i = match find_ci(&v, search_from, &needle) {
            Some(i) => i,
            None => {
                assert(url_refs_from(css@, base_dir@, search_from as int) == Seq::<Seq<char>>::empty());
                assert(out@.map_values(|s: String| s@) + Seq::<Seq<char>>::empty() == out@.map_values(|s: String| s@));
                return out;
            },
        };
        let after = i + 4;
        let n = bounded_prefix(&v, after, MAX_RAW_SPAN);
        let ghost w = raw_window(v@, after as int);
        assert(w == v@.subrange(after as int, (after + n) as int));
        let mut e: usize = after;
        while e < after + n && v[e] != ')'
            invariant
                after <= e <= after + n <= v@.len(),
                index_of(w, ')') == crate::text::index_of_from(w, ')', (e - after) as int),
                w == v@.subrange(after as int, (after + n) as int),
            decreases after + n - e,
        {
            e += 1;
        }
        let ghost before = out@.map_values(|s: String| s@);
        if e < after + n {
            assert(index_of(w, ')') == (e - after) as int);
            assert(w.take((e - after) as int) == v@.subrange(after as int, e as int));
            let raw = trimmed_capture(&v, after, e);
            if is_clean_capture(&raw, 0, raw.len()) {
                assert(raw@.subrange(0, raw@.len() as int) == raw@);
                match resolve_chars(base_dir, &raw) {
                    Some(p) => {
                        out.push(p);
                        assert(out@.map_values(|s: String| s@) == before.push(p@));
                    },
                    None => {},
                }
            } else {
                assert(raw@.subrange(0, raw@.len() as int) == raw@);
            }
        } else {
            assert(index_of(w, ')') == -1);
        }
        proof {
            let rest = url_refs_from(css@, base_dir@, after as int);
            assert(url_refs_from(css@, base_dir@, search_from as int) == match url_capture(
                css@,
                base_dir@,
                i as int,
            ) {
                Some(p) => seq![p] + rest,
                None => rest,
            });
            match url_capture(css@, base_dir@, i as int) {
                Some(p) => {
                    assert(before + (seq![p] + rest) == before.push(p) + rest);
                },
                None => {},
            }
        }
        search_from = after;
    }
    out
}

/// The reference one `@import` ending at index `tail` yields, if any: a
/// quoted value, searched for its closing quote within [`MAX_RAW_SPAN`]
/// bytes, taken verbatim.
pub open spec fn import_capture(css: Seq<char>, base_dir: Seq<char>, tail: int) -> Option<
    Seq<char>,
> {
    let t = trim_start(css.skip(tail));
    if t.len() == 0 || !is_quote(t[0]) {
        None
    } else {
        let rest = t.skip(1);
        let w = rest.take(bounded_len(rest, MAX_RAW_SPAN as nat) as int);
        let e = index_of(w, t[0]);
        if e < 0 {
            None
        } else {
            let raw = rest.take(e);
            if clean_capture(raw) {
                resolve_spec(base_dir, raw)
            } else {
                None
            }
        }
    }
}

/// The references the raw `@import` scan finds from index `from` on.
pub open spec fn import_refs_from(css: Seq<char>, base_dir: Seq<char>, from: int) -> Seq<
    Seq<char>,
>
    decreases css.len() - from,
{
    let i = find_ci_from(css, from, "@import"@);
    if from < 0 || i < from || i + 7 > css.len() {
        Seq::empty()
    } else {
        let rest = import_refs_from(css, base_dir, i + 7);
        match import_capture(css, base_dir, i + 7) {
            Some(p) => seq![p] + rest,
            None => rest,
        }
    }
}

/// The index of the first character at or after `from` that is not white
/// space: `v[start..]` is `trim_start(v[from..])`.
fn skip_white(v: &[char], from: usize) -> (start: usize)
    requires
        from <= v@.len(),
    ensures
        from <= start <= v@.len(),
        v@.skip(start as int) == trim_start(v@.skip(from as int)),
{
    let mut k: usize = from;
    while k < v.len() && crate::text::is_whitespace(v[k])
        invariant
            from <= k <= v@.len(),
            trim_start(v@.skip(k as int)) == trim_start(v@.skip(from as int)),
        decreases v.len() - k,
    {
        assert(v@.skip(k as int).drop_first() == v@.skip(k + 1));
        k += 1;
    }
    k
}

/// The reference the `@import` whose keyword ends at `tail` names, if any.
fn import_at(v: &[char], base_dir: &str, tail: usize) -> (r: Option<String>)
    requires
        tail <= v@.len(),
    ensures
        match import_capture(v@, base_dir@, tail as int) {
            Some(p) => r matches Some(s) && s@ == p,
            None => r is None,
        },
{
    let start = skip_white(v, tail);
    let ghost t = v@.skip(start as int);
    if start >= v.len() || !(v[start] == '"' || v[start] == '\'') {
        return None;
    }
    let q = v[start];
    assert(t[0] == q);
    let from = start + 1;
    assert(t.skip(1) == v@.skip(from as int));
    let n = bounded_prefix(v, from, MAX_RAW_SPAN);
    let ghost w = v@.skip(from as int).take(n as int);
    assert(from + n <= v.len());
    let end: usize = from + n;
    let mut e: usize = from;
    while e < end && v[e] != q
        invariant
            end == from + n,
            from <= e <= from + n <= v@.len(),
            w == v@.subrange(from as int, (from + n) as int),
            index_of(w, q) == crate::text::index_of_from(w, q, (e - from) as int),
        decreases from + n - e,
    {
        e += 1;
    }
    if e >= end {
        assert(index_of(w, q) == -1);
        return None;
    }
    assert(index_of(w, q) == (e - from) as int);
    assert(v@.skip(from as int).take((e - from) as int) == v@.subrange(from as int, e as int));
    if !is_clean_capture(v, from, e) {
        return None;
    }
    let raw = copy_range(v, from, e);
    resolve_chars(base_dir, &raw)
}

/// The references a raw scan for `@import "..."` finds in a stylesheet, in
/// order - a safety net under the parser, which drops an `@import` placed
/// after other rules or nested in a block. ASCII-case-insensitive, searches
/// at most [`MAX_RAW_SPAN`] bytes for the closing quote, and drops any
/// capture crossing a brace or line break.
pub fn raw_import_refs(css: &str, base_dir: &str) -> (r: Vec<String>)
    ensures
        r@.map_values(|s: String| s@) == import_refs_from(css@, base_dir@, 0),
{
    let v = chars_of(css);
    let needle = chars_of("@import");
    proof {
        reveal_strlit("@import");
    }
    let mut out: Vec<String> = Vec::new();
    let mut cursor: usize = 0;
    assert(out@.map_values(|s: String| s@) + import_refs_from(css@, base_dir@, 0)
        == import_refs_from(css@, base_dir@, 0));
    loop
        invariant
            cursor <= v@.len(),
            v@ == css@,
            needle@ == "@import"@,
            needle@.len() == 7,
            import_refs_from(css@, base_dir@, 0) == out@.map_values(|s: String| s@)
                + import_refs_from(css@, base_dir@, cursor as int),
        decreases v.len() - cursor,
    {
        proof {
            lemma_find_ci_from(v@, cursor as int, needle@);
        }
        let i = match find_ci(&v, cursor, &needle) {
            Some(i) => i,
            None => {
                assert(out@.map_values(|s: String| s@) + Seq::<Seq<char>>::empty()
                    == out@.map_values(|s: String| s@));
                return out;
            },
        };
        let tail = i + 7;
        let ghost before = out@.map_values(|s: String| s@);
        match import_at(&v, base_dir, tail) {
            Some(p) => {
                out.push(p);
                assert(out@.map_values(|s: String| s@) == before.push(p@));
            },
            None => {},
        }
        proof {
            let rest = import_refs_from(css@, base_dir@, tail as int);
            match import_capture(css@, base_dir@, tail as int) {
                Some(p) => {
                    assert(before + (seq![p] + rest) == before.push(p) + rest);
                },
                None => {},
            }
        }
        cursor = tail;
    }
}

/// A path's basename (what follows its last `/`), unless that is empty.
pub open spec fn basename_of_spec(path: Seq<char>) -> Option<Seq<char>> {
    let b = crate::paths::basename_spec(path);
    if b.len() == 0 {
        None
    } else {
        Some(b)
    }
}

/// A dropped path's basename, or `None` when it has none (a path ending in
/// `/`).
pub fn basename_of(path: &str) -> (r: Option<String>)
    ensures
        match basename_of_spec(path@) {
            Some(b) => r matches Some(s) && s@ == b,
            None => r is None,
        },
{
    let b = crate::paths::basename(path);
    if b.as_str().is_empty() {
        None
    } else {
        Some(b)
    }
}

/// The `,`-separated entries of a list, in order (left-to-right state:
/// finished entries and the entry being read).
pub open spec fn comma_state(s: Seq<char>) -> (Seq<Seq<char>>, Seq<char>)
    decreases s.len(),
{
    if s.len() == 0 {
        (Seq::empty(), Seq::empty())
    } else {
        let (done, cur) = comma_state(s.drop_last());
        if s.last() == ',' {
            (done.push(cur), Seq::empty())
        } else {
            (done, cur.push(s.last()))
        }
    }
}

/// The `,`-separated entries of `s`.
pub open spec fn comma_entries(s: Seq<char>) -> Seq<Seq<char>> {
    let (done, cur) = comma_state(s);
    done.push(cur)
}

/// The index of the first white-space character of `s` (or its length).
pub open spec fn first_ws(s: Seq<char>) -> int
    decreases s.len(),
{
    if s.len() == 0 {
        0
    } else if first_ws(s.drop_last()) < s.len() - 1 {
        first_ws(s.drop_last())
    } else if is_ws(s.last()) {
        s.len() - 1
    } else {
        s.len() as int
    }
}

/// The first white-space-separated word of `s`, if any.
pub open spec fn first_word(s: Seq<char>) -> Option<Seq<char>> {
    let t = trim_start(s);
    if t.len() == 0 {
        None
    } else {
        Some(t.take(first_ws(t)))
    }
}

/// The references a `srcset` list yields from its first `n` entries.
pub open spec fn srcset_from(entries: Seq<Seq<char>>, base_dir: Seq<char>) -> Seq<Seq<char>>
    decreases entries.len(),
{
    if entries.len() == 0 {
        Seq::empty()
    } else {
        let prev = srcset_from(entries.drop_last(), base_dir);
        match first_word(entries.last()) {
            Some(w) => match resolve_spec(base_dir, w) {
                Some(p) => prev.push(p),
                None => prev,
            },
            None => prev,
        }
    }
}

proof fn lemma_first_ws(s: Seq<char>, i: int)
    requires
        0 <= i <= s.len(),
        forall|k: int| 0 <= k < i ==> !is_ws(#[trigger] s[k]),
        i < s.len() ==> is_ws(s[i]),
    ensures
        first_ws(s) == i,
    decreases s.len(),
{
    if s.len() > 0 {
        let d = s.drop_last();
        if i < s.len() {
            lemma_first_ws(d, if i < d.len() { i } else { d.len() as int });
            if i < d.len() {
                assert(d[i] == s[i]);
            }
        } else {
            assert forall|k: int| 0 <= k < d.len() implies !is_ws(#[trigger] d[k]) by {
                assert(d[k] == s[k]);
            }
            lemma_first_ws(d, d.len() as int);
        }
    }
}

/// The first word of an entry, resolved.
fn srcset_entry(base_dir: &str, entry: &Vec<char>) -> (r: Option<String>)
    ensures
        match first_word(entry@) {
            Some(w) => match resolve_spec(base_dir@, w) {
                Some(p) => r matches Some(s) && s@ == p,
                None => r is None,
            },
            None => r is None,
        },
{
    let start = skip_white(entry, 0);
    assert(entry@.skip(0) == entry@);
    if start >= entry.len() {
        return None;
    }
    let ghost t = entry@.skip(start as int);
    let mut e: usize = start;
    while e < entry.len() && !crate::text::is_whitespace(entry[e])
        invariant
            start <= e <= entry@.len(),
            t == entry@.skip(start as int),
            forall|k: int| 0 <= k < e - start ==> !is_ws(#[trigger] t[k]),
        decreases entry.len() - e,
    {
        assert(t[e - start] == entry@[e as int]);
        e += 1;
    }
    proof {
        if e < entry.len() {
            assert(t[e - start] == entry@[e as int]);
        }
        lemma_first_ws(t, (e - start) as int);
        assert(t.take((e - start) as int) == entry@.subrange(start as int, e as int));
    }
    let word = copy_range(entry, start, e);
    resolve_chars(base_dir, &word)
}

/// Every URL a `srcset` list names (`"a.png 2x, b.png 1x"`), resolved,
/// ignoring each entry's optional width/pixel-density descriptor.
pub fn srcset_refs(srcset: &str, base_dir: &str) -> (r: Vec<String>)
    ensures
        r@.map_values(|s: String| s@) == srcset_from(comma_entries(srcset@), base_dir@),
{
    let v = chars_of(srcset);
    let mut entries: Vec<Vec<char>> = Vec::new();
    let mut cur: Vec<char> = Vec::new();
    let mut i: usize = 0;
    while i < v.len()
        invariant
            i <= v@.len(),
            comma_state(v@.take(i as int)) == (entries@.map_values(|e: Vec<char>| e@), cur@),
        decreases v.len() - i,
    {
        let c = v[i];
        proof {
            assert(v@.take(i + 1).drop_last() == v@.take(i as int));
        }
        if c == ',' {
            let ghost before = entries@.map_values(|e: Vec<char>| e@);
            entries.push(cur);
            assert(entries@.map_values(|e: Vec<char>| e@) == before.push(cur@));
            cur = Vec::new();
        } else {
            cur.push(c);
        }
        i += 1;
    }
    assert(v@.take(v@.len() as int) == v@);
    let ghost before = entries@.map_values(|e: Vec<char>| e@);
    entries.push(cur);
    assert(entries@.map_values(|e: Vec<char>| e@) == comma_entries(srcset@));
    let ghost all = entries@.map_values(|e: Vec<char>| e@);
    let mut out: Vec<String> = Vec::new();
    let mut k: usize = 0;
    while k < entries.len()
        invariant
            k <= entries@.len(),
            all == entries@.map_values(|e: Vec<char>| e@),
            out@.map_values(|s: String| s@) == srcset_from(all.take(k as int), base_dir@),
        decreases entries.len() - k,
    {
        proof {
            assert(all.take(k + 1).drop_last() == all.take(k as int));
            assert(all.take(k + 1).last() == entries@[k as int]@);
        }
        let ghost prev = out@.map_values(|s: String| s@);
        match srcset_entry(base_dir, &entries[k]) {
            Some(p) => {
                out.push(p);
                assert(out@.map_values(|s: String| s@) == prev.push(p@));
            },
            None => {},
        }
        k += 1;
    }
    assert(all.take(entries@.len() as int) == all);
    out
}


// ---------------------------------------------------------------------
// The reachability walk
// ---------------------------------------------------------------------

/// Documents and the paths each one names.
pub type PathLinks = Seq<(Seq<char>, Seq<Seq<char>>)>;

/// Paths as character sequences.
pub open spec fn paths_view(v: Seq<String>) -> Seq<Seq<char>> {
    v.map_values(|s: String| s@)
}

/// A list of (document, named paths) pairs as character sequences.
pub open spec fn links_view(v: Seq<(String, Vec<String>)>) -> PathLinks {
    v.map_values(|e: (String, Vec<String>)| (e.0@, paths_view(e.1@)))
}

/// Whether some entry for document `p` names `x`.
pub open spec fn linked(links: PathLinks, p: Seq<char>, x: Seq<char>) -> bool {
    exists|i: int, j: int|
        0 <= i < links.len() && links[i].0 == p && 0 <= j < links[i].1.len() && #[trigger] links[i].1[j]
            == x
}

/// Whether the walk steps from `p` to `x`: `p` names `x` in its own content
/// or through a `srcset` resolved before the walk.
pub open spec fn walk_step(refs: PathLinks, srcset: PathLinks, p: Seq<char>, x: Seq<char>) -> bool {
    linked(refs, p, x) || linked(srcset, p, x)
}

/// Whether the walk goes on from `p` to `x`: `p` is not sealed (a sealed
/// path counts as reached but is never stepped from) and names `x`.
pub open spec fn walk_link(
    sealed: Option<Seq<char>>,
    refs: PathLinks,
    srcset: PathLinks,
    p: Seq<char>,
    x: Seq<char>,
) -> bool {
    sealed != Some(p) && walk_step(refs, srcset, p, x)
}

/// Whether `w` is a walk: it starts at a root or at the sealed path and
/// each path links to the next.
pub open spec fn is_walk(
    roots: Seq<Seq<char>>,
    sealed: Option<Seq<char>>,
    refs: PathLinks,
    srcset: PathLinks,
    w: Seq<Seq<char>>,
) -> bool {
    &&& w.len() > 0
    &&& (roots.contains(w[0]) || sealed == Some(w[0]))
    &&& forall|i: int|
        0 <= i < w.len() - 1 ==> #[trigger] walk_link(sealed, refs, srcset, w[i], w[i + 1])
}

/// Whether some walk ends at `x`.
pub open spec fn reachable_from(
    roots: Seq<Seq<char>>,
    sealed: Option<Seq<char>>,
    refs: PathLinks,
    srcset: PathLinks,
    x: Seq<char>,
) -> bool {
    exists|w: Seq<Seq<char>>| #[trigger] is_walk(roots, sealed, refs, srcset, w) && w.last() == x
}

/// Every path some entry names, in order.
pub open spec fn named_paths(links: PathLinks) -> Seq<Seq<char>>
    decreases links.len(),
{
    if links.len() == 0 {
        Seq::empty()
    } else {
        named_paths(links.drop_last()) + links.last().1
    }
}

/// The optional path as a list of at most one.
pub open spec fn opt_paths(o: Option<Seq<char>>) -> Seq<Seq<char>> {
    match o {
        Some(p) => seq![p],
        None => Seq::empty(),
    }
}

/// Everything the walk could ever reach.
pub open spec fn walk_universe(
    roots: Seq<Seq<char>>,
    sealed: Option<Seq<char>>,
    refs: PathLinks,
    srcset: PathLinks,
) -> Seq<Seq<char>> {
    roots + opt_paths(sealed) + named_paths(refs) + named_paths(srcset)
}

proof fn lemma_named_paths(links: PathLinks, i: int, j: int)
    requires
        0 <= i < links.len(),
        0 <= j < links[i].1.len(),
    ensures
        named_paths(links).contains(links[i].1[j]),
    decreases links.len(),
{
    let d = links.drop_last();
    if i == links.len() - 1 {
        assert((named_paths(d) + links.last().1)[named_paths(d).len() + j] == links[i].1[j]);
    } else {
        assert(d[i] == links[i]);
        lemma_named_paths(d, i, j);
        let k = named_paths(d).index_of(links[i].1[j]);
        assert((named_paths(d) + links.last().1)[k] == links[i].1[j]);
    }
}

/// A named path lies in the walk's universe.
proof fn lemma_step_in_universe(
    roots: Seq<Seq<char>>,
    sealed: Option<Seq<char>>,
    refs: PathLinks,
    srcset: PathLinks,
    p: Seq<char>,
    x: Seq<char>,
)
    requires
        walk_step(refs, srcset, p, x),
    ensures
        walk_universe(roots, sealed, refs, srcset).contains(x),
{
    let u = walk_universe(roots, sealed, refs, srcset);
    let a = roots + opt_paths(sealed);
    if linked(refs, p, x) {
        let (i, j) = choose|i: int, j: int|
            0 <= i < refs.len() && refs[i].0 == p && 0 <= j < refs[i].1.len() && #[trigger] refs[i].1[j]
                == x;
        lemma_named_paths(refs, i, j);
        let k = named_paths(refs).index_of(x);
        assert(u[a.len() + k] == x);
    } else {
        let (i, j) = choose|i: int, j: int|
            0 <= i < srcset.len() && srcset[i].0 == p && 0 <= j < srcset[i].1.len()
                && #[trigger] srcset[i].1[j] == x;
        lemma_named_paths(srcset, i, j);
        let k = named_paths(srcset).index_of(x);
        assert(u[a.len() + named_paths(refs).len() + k] == x);
    }
}

/// A path stepped to from a reached, unsealed path is reached.
proof fn lemma_step_reaches(
    roots: Seq<Seq<char>>,
    sealed: Option<Seq<char>>,
    refs: PathLinks,
    srcset: PathLinks,
    p: Seq<char>,
    x: Seq<char>,
)
    requires
        reachable_from(roots, sealed, refs, srcset, p),
        walk_link(sealed, refs, srcset, p, x),
    ensures
        reachable_from(roots, sealed, refs, srcset, x),
{
    let w = choose|w: Seq<Seq<char>>| #[trigger] is_walk(roots, sealed, refs, srcset, w) && w.last() == p;
    let v = w.push(x);
    assert forall|i: int| 0 <= i < v.len() - 1 implies #[trigger] walk_link(
        sealed,
        refs,
        srcset,
        v[i],
        v[i + 1],
    ) by {
        if i < w.len() - 1 {
            assert(walk_link(sealed, refs, srcset, w[i], w[i + 1]));
        }
    }
    assert(is_walk(roots, sealed, refs, srcset, v));
}

/// A root, or the sealed path, is reached.
proof fn lemma_start_reaches(
    roots: Seq<Seq<char>>,
    sealed: Option<Seq<char>>,
    refs: PathLinks,
    srcset: PathLinks,
    x: Seq<char>,
)
    requires
        roots.contains(x) || sealed == Some(x),
    ensures
        reachable_from(roots, sealed, refs, srcset, x),
{
    let w = seq![x];
    assert(is_walk(roots, sealed, refs, srcset, w));
}

/// A list without repeats whose items all lie in `u` is no longer than `u`.
proof fn lemma_distinct_within(s: Seq<Seq<char>>, u: Seq<Seq<char>>)
    requires
        s.no_duplicates(),
        forall|k: int| 0 <= k < s.len() ==> u.contains(#[trigger] s[k]),
    ensures
        s.len() <= u.len(),
{
    s.unique_seq_to_set();
    u.lemma_cardinality_of_set();
    vstd::seq_lib::seq_to_set_is_finite(u);
    assert(s.to_set().subset_of(u.to_set())) by {
        assert forall|x: Seq<char>| s.to_set().contains(x) implies u.to_set().contains(x) by {
            let k = s.index_of(x);
            assert(u.contains(s[k]));
        }
    }
    vstd::set_lib::lemma_len_subset(s.to_set(), u.to_set());
}

/// Every path the walk reaches lies in the seen list, once the list holds
/// the roots (and the sealed path first) and every unsealed entry's steps.
proof fn lemma_reached_is_seen(
    roots: Seq<Seq<char>>,
    sealed: Option<Seq<char>>,
    refs: PathLinks,
    srcset: PathLinks,
    seen: Seq<Seq<char>>,
    start: int,
    w: Seq<Seq<char>>,
)
    requires
        start == (if sealed is Some { 1int } else { 0int }),
        start <= seen.len(),
        sealed matches Some(s) ==> seen[0] == s,
        forall|k: int| 0 <= k < roots.len() ==> seen.contains(#[trigger] roots[k]),
        forall|k: int, y: Seq<char>|
            start <= k < seen.len() && #[trigger] walk_step(refs, srcset, seen[k], y) ==> seen.contains(y),
        is_walk(roots, sealed, refs, srcset, w),
    ensures
        seen.contains(w.last()),
    decreases w.len(),
{
    if w.len() == 1 {
        if roots.contains(w[0]) {
            let k = roots.index_of(w[0]);
            assert(seen.contains(roots[k]));
        } else {
            assert(seen[0] == w[0]);
        }
    } else {
        let v = w.drop_last();
        assert forall|i: int| 0 <= i < v.len() - 1 implies #[trigger] walk_link(
            sealed,
            refs,
            srcset,
            v[i],
            v[i + 1],
        ) by {
            assert(walk_link(sealed, refs, srcset, w[i], w[i + 1]));
        }
        lemma_reached_is_seen(roots, sealed, refs, srcset, seen, start, v);
        let p = v.last();
        let j = w.len() - 2;
        assert(walk_link(sealed, refs, srcset, w[j], w[j + 1]));
        assert(w[j] == p && w[j + 1] == w.last());
        let k = seen.index_of(p);
        if k < start {
            assert(seen[0] == p);
        }
        assert(walk_step(refs, srcset, seen[k], w.last()));
    }
}

/// Whether `paths` holds `p`.
fn holds_path(paths: &Vec<String>, p: &str) -> (r: bool)
    ensures
        r == paths_view(paths@).contains(p@),
{
    let ghost pv = paths_view(paths@);
    let want = chars_of(p);
    let mut i: usize = 0;
    while i < paths.len()
        invariant
            i <= paths@.len(),
            pv == paths_view(paths@),
            want@ == p@,
            forall|k: int| 0 <= k < i ==> pv[k] != p@,
        decreases paths.len() - i,
    {
        if crate::text::same_chars(&chars_of(paths[i].as_str()), &want) {
            assert(pv[i as int] == p@);
            return true;
        }
        i += 1;
    }
    proof {
        if pv.contains(p@) {
            let k = pv.index_of(p@);
            assert(pv[k] == p@);
        }
    }
    false
}

/// Adds `p` to `seen` unless it is there already.
fn see(seen: &mut Vec<String>, p: &String)
    ensures
        paths_view(old(seen)@).contains(p@) ==> final(seen)@ == old(seen)@,
        !paths_view(old(seen)@).contains(p@) ==> paths_view(final(seen)@) == paths_view(
            old(seen)@,
        ).push(p@),
{
    if !holds_path(seen, p.as_str()) {
        seen.push(p.clone());
        assert(paths_view(seen@) =~= paths_view(old(seen)@).push(p@));
    }
}


/// A list keeps what it held when an item is added.
proof fn lemma_push_contains(s: Seq<Seq<char>>, t: Seq<char>)
    ensures
        forall|y: Seq<char>| #[trigger] s.contains(y) ==> s.push(t).contains(y),
        s.push(t).contains(t),
{
    assert forall|y: Seq<char>| #[trigger] s.contains(y) implies s.push(t).contains(y) by {
        let k = s.index_of(y);
        assert(s.push(t)[k] == y);
    }
    assert(s.push(t)[s.len() as int] == t);
}

/// Adds to `seen`, in order, each path an entry for document `p` names
/// that `seen` does not hold yet.
fn follow(seen: &mut Vec<String>, p: &str, links: &[(String, Vec<String>)])
    requires
        paths_view(old(seen)@).no_duplicates(),
    ensures
        paths_view(final(seen)@).no_duplicates(),
        paths_view(old(seen)@).len() <= paths_view(final(seen)@).len(),
        forall|k: int|
            0 <= k < paths_view(old(seen)@).len() ==> #[trigger] paths_view(final(seen)@)[k]
                == paths_view(old(seen)@)[k],
        forall|y: Seq<char>| #[trigger]
            paths_view(old(seen)@).contains(y) ==> paths_view(final(seen)@).contains(y),
        forall|k: int|
            paths_view(old(seen)@).len() <= k < paths_view(final(seen)@).len() ==> linked(
                links_view(links@),
                p@,
                #[trigger] paths_view(final(seen)@)[k],
            ),
        forall|x: Seq<char>| #[trigger]
            linked(links_view(links@), p@, x) ==> paths_view(final(seen)@).contains(x),
{
    let ghost l = links_view(links@);
    let ghost s0 = paths_view(seen@);
    let want = chars_of(p);
    let mut j: usize = 0;
    while j < links.len()
        invariant
            j <= links@.len(),
            l == links_view(links@),
            want@ == p@,
            s0 == paths_view(old(seen)@),
            paths_view(seen@).no_duplicates(),
            s0.len() <= paths_view(seen@).len(),
            forall|k: int| 0 <= k < s0.len() ==> #[trigger] paths_view(seen@)[k] == s0[k],
            forall|y: Seq<char>| #[trigger] s0.contains(y) ==> paths_view(seen@).contains(y),
            forall|k: int|
                s0.len() <= k < paths_view(seen@).len() ==> linked(l, p@, #[trigger] paths_view(seen@)[k]),
            forall|a: int, b: int|
                0 <= a < j && l[a].0 == p@ && 0 <= b < l[a].1.len() ==> paths_view(seen@).contains(
                    #[trigger] l[a].1[b],
                ),
        decreases links.len() - j,
    {
        if crate::text::same_chars(&chars_of(links[j].0.as_str()), &want) {
            let targets = &links[j].1;
            assert(l[j as int].1 == paths_view(targets@));
            let mut m: usize = 0;
            while m < targets.len()
                invariant
                    j < links@.len(),
                    m <= targets@.len(),
                    l == links_view(links@),
                    targets == &links@[j as int].1,
                    l[j as int].1 == paths_view(targets@),
                    l[j as int].0 == p@,
                    s0 == paths_view(old(seen)@),
                    paths_view(seen@).no_duplicates(),
                    s0.len() <= paths_view(seen@).len(),
                    forall|k: int| 0 <= k < s0.len() ==> #[trigger] paths_view(seen@)[k] == s0[k],
                    forall|y: Seq<char>| #[trigger] s0.contains(y) ==> paths_view(seen@).contains(y),
                    forall|k: int|
                        s0.len() <= k < paths_view(seen@).len() ==> linked(
                            l,
                            p@,
                            #[trigger] paths_view(seen@)[k],
                        ),
                    forall|a: int, b: int|
                        0 <= a < j && l[a].0 == p@ && 0 <= b < l[a].1.len() ==> paths_view(
                            seen@,
                        ).contains(#[trigger] l[a].1[b]),
                    forall|b: int| 0 <= b < m ==> paths_view(seen@).contains(#[trigger] l[j as int].1[b]),
                decreases targets.len() - m,
            {
                let ghost before = paths_view(seen@);
                let ghost t = targets@[m as int]@;
                assert(l[j as int].1[m as int] == t);
                see(seen, &targets[m]);
                proof {
                    if before.contains(t) {
                        assert(paths_view(seen@) == before);
                    } else {
                        lemma_push_contains(before, t);
                        assert(paths_view(seen@)[before.len() as int] == t);
                        assert(linked(l, p@, t));
                        assert(before.push(t).no_duplicates()) by {
                            assert forall|a: int, b: int|
                                0 <= a < b < before.push(t).len() implies before.push(t)[a]
                                != before.push(t)[b] by {
                                if b == before.len() {
                                    assert(before[a] == before.push(t)[a]);
                                }
                            }
                        }
                    }
                }
                m += 1;
            }
        }
        j += 1;
    }
    assert forall|x: Seq<char>| #[trigger] linked(l, p@, x) implies paths_view(seen@).contains(x) by {
        let (a, b) = choose|a: int, b: int|
            0 <= a < l.len() && l[a].0 == p@ && 0 <= b < l[a].1.len() && #[trigger] l[a].1[b] == x;
    }
}


/// The paths reached from `roots` by following what each document names
/// (`refs`, and `srcset` for targets resolved before the walk), each once.
/// A `sealed` path counts as reached but is never stepped from: it is
/// protected without keeping anything else alive.
pub fn reachable_paths(
    roots: &Vec<String>,
    sealed: &Option<String>,
    refs: &[(String, Vec<String>)],
    srcset: &[(String, Vec<String>)],
) -> (seen: Vec<String>)
    ensures
        paths_view(seen@).no_duplicates(),
        forall|x: Seq<char>|
            #[trigger] paths_view(seen@).contains(x) <==> reachable_from(
                paths_view(roots@),
                opt_view(*sealed),
                links_view(refs@),
                links_view(srcset@),
                x,
            ),
{
    let ghost rs = paths_view(roots@);
    let ghost sl = opt_view(*sealed);
    let ghost rf = links_view(refs@);
    let ghost ss = links_view(srcset@);
    let ghost u = walk_universe(rs, sl, rf, ss);
    let mut seen: Vec<String> = Vec::new();
    let mut start: usize = 0;
    if let Some(s) = sealed {
        seen.push(s.clone());
        start = 1;
        proof {
            lemma_start_reaches(rs, sl, rf, ss, s@);
            assert(u[rs.len() as int] == s@);
        }
    }
    let mut r: usize = 0;
    while r < roots.len()
        invariant
            r <= roots@.len(),
            rs == paths_view(roots@),
            sl == opt_view(*sealed),
            rf == links_view(refs@),
            ss == links_view(srcset@),
            u == walk_universe(rs, sl, rf, ss),
            start as int == (if sl is Some { 1int } else { 0int }),
            start <= seen@.len(),
            sl matches Some(s) ==> paths_view(seen@)[0] == s,
            paths_view(seen@).no_duplicates(),
            forall|k: int| 0 <= k < r ==> paths_view(seen@).contains(#[trigger] rs[k]),
            forall|k: int|
                0 <= k < seen@.len() ==> reachable_from(rs, sl, rf, ss, #[trigger] paths_view(seen@)[k]),
            forall|k: int| 0 <= k < seen@.len() ==> u.contains(#[trigger] paths_view(seen@)[k]),
        decreases roots.len() - r,
    {
        let ghost before = paths_view(seen@);
        let ghost t = rs[r as int];
        see(&mut seen, &roots[r]);
        proof {
            assert(roots@[r as int]@ == t);
            assert(rs.contains(t));
            lemma_start_reaches(rs, sl, rf, ss, t);
            assert(u[r as int] == t);
            if !before.contains(t) {
                lemma_push_contains(before, t);
                assert(paths_view(seen@)[before.len() as int] == t);
                assert(before.push(t).no_duplicates()) by {
                    assert forall|a: int, b: int|
                        0 <= a < b < before.push(t).len() implies before.push(t)[a] != before.push(
                            t,
                        )[b] by {
                        if b == before.len() {
                            assert(before[a] == before.push(t)[a]);
                        }
                    }
                }
            }
        }
        r += 1;
    }
    let mut i: usize = start;
    while i < seen.len()
        invariant
            start <= i <= seen@.len(),
            rs == paths_view(roots@),
            sl == opt_view(*sealed),
            rf == links_view(refs@),
            ss == links_view(srcset@),
            u == walk_universe(rs, sl, rf, ss),
            start as int == (if sl is Some { 1int } else { 0int }),
            sl matches Some(s) ==> paths_view(seen@)[0] == s,
            paths_view(seen@).no_duplicates(),
            forall|k: int| 0 <= k < rs.len() ==> paths_view(seen@).contains(#[trigger] rs[k]),
            forall|k: int|
                0 <= k < seen@.len() ==> reachable_from(rs, sl, rf, ss, #[trigger] paths_view(seen@)[k]),
            forall|k: int| 0 <= k < seen@.len() ==> u.contains(#[trigger] paths_view(seen@)[k]),
            forall|k: int, y: Seq<char>|
                start <= k < i && #[trigger] walk_step(rf, ss, paths_view(seen@)[k], y)
                    ==> paths_view(seen@).contains(y),
        decreases u.len() - i,
    {
        proof {
            lemma_distinct_within(paths_view(seen@), u);
        }
        let p = seen[i].clone();
        let ghost s0 = paths_view(seen@);
        assert(p@ == s0[i as int]);
        proof {
            if let Some(sv) = sl {
                assert(s0[0] == sv);
                assert(s0[i as int] != s0[0]);
            }
        }
        follow(&mut seen, p.as_str(), refs);
        let ghost s1 = paths_view(seen@);
        follow(&mut seen, p.as_str(), srcset);
        let ghost s2 = paths_view(seen@);
        proof {
            assert forall|k: int| 0 <= k < s2.len() implies reachable_from(
                rs,
                sl,
                rf,
                ss,
                #[trigger] s2[k],
            ) && u.contains(s2[k]) by {
                if k < s0.len() {
                    assert(s1[k] == s0[k]);
                } else if k < s1.len() {
                    assert(linked(rf, p@, s1[k]));
                    assert(walk_link(sl, rf, ss, p@, s2[k]));
                    lemma_step_reaches(rs, sl, rf, ss, p@, s2[k]);
                    lemma_step_in_universe(rs, sl, rf, ss, p@, s2[k]);
                } else {
                    assert(linked(ss, p@, s2[k]));
                    assert(walk_link(sl, rf, ss, p@, s2[k]));
                    lemma_step_reaches(rs, sl, rf, ss, p@, s2[k]);
                    lemma_step_in_universe(rs, sl, rf, ss, p@, s2[k]);
                }
            }
            assert forall|k: int, y: Seq<char>|
                start <= k < i + 1 && #[trigger] walk_step(rf, ss, s2[k], y) implies s2.contains(y) by {
                if k < i {
                    assert(s2[k] == s0[k]);
                    assert(walk_step(rf, ss, s0[k], y));
                    assert(s0.contains(y));
                } else {
                    assert(s2[k] == p@);
                    if linked(rf, p@, y) {
                        assert(s1.contains(y));
                    }
                }
            }
        }
        i += 1;
    }
    proof {
        let sv = paths_view(seen@);
        assert forall|x: Seq<char>|
            #[trigger] sv.contains(x) <==> reachable_from(rs, sl, rf, ss, x) by {
            if sv.contains(x) {
                let k = sv.index_of(x);
                assert(reachable_from(rs, sl, rf, ss, sv[k]));
            }
            if reachable_from(rs, sl, rf, ss, x) {
                let w = choose|w: Seq<Seq<char>>|
                    #[trigger] is_walk(rs, sl, rf, ss, w) && w.last() == x;
                lemma_reached_is_seen(rs, sl, rf, ss, sv, start as int, w);
            }
        }
    }
    seen
}


// ---------------------------------------------------------------------
// Pruning a book
// ---------------------------------------------------------------------

/// A resource map's entries: path, bytes and media type.
pub type Entries = Seq<(Seq<char>, Seq<u8>, Seq<char>)>;

/// The walk's roots in a book: the package document, the navigation
/// document, the NCX, the cover and every reading-order document.
pub open spec fn prune_roots(book: Book) -> Seq<Seq<char>> {
    seq![book.opf_path@] + opt_paths(opt_view(book.nav_path)) + opt_paths(opt_view(book.ncx_path))
        + opt_paths(opt_view(book.cover)) + paths_view(book.spine@)
}

/// A book without a navigation document of its own gets one generated at
/// `effective_nav_path_spec`: whatever sits at that path is protected, but
/// its links keep nothing alive, since its bytes are regenerated.
pub open spec fn sealed_nav(book: Book) -> Option<Seq<char>> {
    if book.nav_path is None {
        Some(effective_nav_path_spec(book))
    } else {
        None
    }
}

/// The paths the walk reaches in `book`.
pub open spec fn reached_set(book: Book, refs: PathLinks, srcset: PathLinks) -> Set<Seq<char>> {
    Set::new(|p: Seq<char>| reachable_from(prune_roots(book), sealed_nav(book), refs, srcset, p))
}

/// The entries whose path was reached, in order.
pub open spec fn kept_entries(es: Entries, reach: Set<Seq<char>>) -> Entries {
    es.filter(|e: (Seq<char>, Seq<u8>, Seq<char>)| reach.contains(e.0))
}

/// The entries whose path was not reached, in order.
pub open spec fn dropped_entries(es: Entries, reach: Set<Seq<char>>) -> Entries {
    es.filter(|e: (Seq<char>, Seq<u8>, Seq<char>)| !reach.contains(e.0))
}

/// The report for one dropped entry.
pub open spec fn drop_report(e: (Seq<char>, Seq<u8>, Seq<char>)) -> (
    Seq<char>,
    Seq<char>,
    Option<Seq<char>>,
) {
    (
        "generic-unreferenced"@,
        "dropped "@ + crate::text::decimal(e.1.len()) + " bytes nothing references"@,
        Some(e.0),
    )
}

/// The (normalized) media types of documents that can name another
/// resource in their text.
pub open spec fn textual_media_type(mt: Seq<char>) -> bool {
    ||| mt == "application/xhtml+xml"@
    ||| mt == "text/html"@
    ||| mt == "text/css"@
    ||| mt == "image/svg+xml"@
    ||| mt == "application/smil+xml"@
    ||| mt == "application/x-dtbncx+xml"@
    ||| mt == "application/oebps-package+xml"@
}

/// Whether the safety net searches an entry: a textual document whose
/// stored bytes reach the output (the package document, the navigation
/// document and the NCX are regenerated when the book is written).
pub open spec fn scanned_entry(
    e: (Seq<char>, Seq<u8>, Seq<char>),
    opf: Seq<char>,
    nav: Seq<char>,
    ncx: Option<Seq<char>>,
) -> bool {
    &&& e.0 != opf
    &&& e.0 != nav
    &&& ncx != Some(e.0)
    &&& textual_media_type(crate::media::normalized_media_type(e.2))
}

/// The documents the safety net searches, by path and bytes, in order.
pub open spec fn scanned_docs(
    kept: Entries,
    opf: Seq<char>,
    nav: Seq<char>,
    ncx: Option<Seq<char>>,
) -> Seq<(Seq<char>, Seq<u8>)> {
    kept.filter(|e: (Seq<char>, Seq<u8>, Seq<char>)| scanned_entry(e, opf, nav, ncx)).map_values(
        |e: (Seq<char>, Seq<u8>, Seq<char>)| (e.0, e.1),
    )
}

/// The warning for one (document, dropped path) hit.
pub open spec fn dangling_warning(h: (Seq<char>, Seq<char>)) -> (Seq<char>, Option<Seq<char>>) {
    let b = match basename_of_spec(h.1) {
        Some(b) => b,
        None => Seq::empty(),
    };
    (
        h.0 + " still mentions "@ + b + " (from "@ + h.1
            + ", dropped as unreferenced) - the reachability graph may be missing an edge"@,
        Some(h.0),
    )
}

/// The warnings for the hits whose dropped path has a basename, in order.
pub open spec fn dangling_warnings(hits: Seq<(Seq<char>, Seq<char>)>) -> Seq<
    (Seq<char>, Option<Seq<char>>),
> {
    hits.filter(|h: (Seq<char>, Seq<char>)| basename_of_spec(h.1) is Some).map_values(
        |h: (Seq<char>, Seq<char>)| dangling_warning(h),
    )
}

/// The walk's roots, as `prune_roots` lists them.
fn roots_of(book: &Book) -> (r: Vec<String>)
    ensures
        paths_view(r@) == prune_roots(*book),
{
    let mut roots: Vec<String> = Vec::new();
    roots.push(book.opf_path.clone());
    let ghost a = seq![book.opf_path@];
    assert(paths_view(roots@) =~= a);
    let ghost b = a + opt_paths(opt_view(book.nav_path));
    if let Some(n) = &book.nav_path {
        roots.push(n.clone());
        assert(paths_view(roots@) =~= b);
    } else {
        assert(paths_view(roots@) =~= b);
    }
    let ghost c = b + opt_paths(opt_view(book.ncx_path));
    if let Some(n) = &book.ncx_path {
        roots.push(n.clone());
        assert(paths_view(roots@) =~= c);
    } else {
        assert(paths_view(roots@) =~= c);
    }
    let ghost head = c + opt_paths(opt_view(book.cover));
    if let Some(n) = &book.cover {
        roots.push(n.clone());
        assert(paths_view(roots@) =~= head);
    } else {
        assert(paths_view(roots@) =~= head);
    }
    let ghost sp = paths_view(book.spine@);
    let mut k: usize = 0;
    while k < book.spine.len()
        invariant
            k <= book.spine@.len(),
            sp == paths_view(book.spine@),
            paths_view(roots@) == head + sp.take(k as int),
        decreases book.spine.len() - k,
    {
        let ghost before = roots@;
        roots.push(book.spine[k].clone());
        assert(roots@ == before.push(book.spine@[k as int]));
        assert(paths_view(roots@) =~= paths_view(before).push(sp[k as int]));
        assert(sp.take(k + 1) =~= sp.take(k as int).push(sp[k as int]));
        assert(paths_view(roots@) =~= head + sp.take(k + 1));
        k += 1;
    }
    assert(sp.take(sp.len() as int) =~= sp);
    roots
}


/// The resources whose path was reached, in order, and the paths of the
/// others, each of which is reported as dropped with its size.
fn split_reached(
    resources: &IndexMap<String, Resource>,
    seen: &Vec<String>,
    transformations: &mut Vec<Transformation>,
    Ghost(reach): Ghost<Set<Seq<char>>>,
) -> (r: (IndexMap<String, Resource>, Vec<String>))
    requires
        forall|x: Seq<char>| #[trigger] paths_view(seen@).contains(x) <==> reach.contains(x),
    ensures
        resource_entries(r.0) == kept_entries(resource_entries(*resources), reach),
        paths_view(r.1@) == dropped_entries(resource_entries(*resources), reach).map_values(
            |e: (Seq<char>, Seq<u8>, Seq<char>)| e.0,
        ),
        final(transformations)@.map_values(|t: Transformation| transformation_view(t)) == old(
            transformations,
        )@.map_values(|t: Transformation| transformation_view(t)) + dropped_entries(
            resource_entries(*resources),
            reach,
        ).map_values(|e: (Seq<char>, Seq<u8>, Seq<char>)| drop_report(e)),
{
    let ghost es = resource_entries(*resources);
    let ghost t0 = transformations@.map_values(|t: Transformation| transformation_view(t));
    let keys = resource_paths(resources);
    let n = keys.len();
    let mut kept = new_resources();
    let mut dropped: Vec<String> = Vec::new();
    let mut i: usize = 0;
    reveal(Seq::filter);
    assert(kept_entries(es.take(0), reach) =~= Seq::<(Seq<char>, Seq<u8>, Seq<char>)>::empty());
    assert(dropped_entries(es.take(0), reach) =~= Seq::<(Seq<char>, Seq<u8>, Seq<char>)>::empty());
    assert(paths_view(dropped@) =~= dropped_entries(es.take(0), reach).map_values(
        |e: (Seq<char>, Seq<u8>, Seq<char>)| e.0,
    ));
    assert(transformations@.map_values(|t: Transformation| transformation_view(t)) =~= t0
        + dropped_entries(es.take(0), reach).map_values(
        |e: (Seq<char>, Seq<u8>, Seq<char>)| drop_report(e),
    ));
    while i < n
        invariant
            i <= n,
            n == es.len(),
            es == resource_entries(*resources),
            keys@.len() == n,
            forall|k: int| 0 <= k < n ==> #[trigger] keys@[k]@ == es[k].0,
            forall|a: int, b: int| 0 <= a < b < n ==> #[trigger] keys@[a]@ != #[trigger] keys@[b]@,
            forall|x: Seq<char>| #[trigger] paths_view(seen@).contains(x) <==> reach.contains(x),
            resource_entries(kept) == kept_entries(es.take(i as int), reach),
            paths_view(dropped@) == dropped_entries(es.take(i as int), reach).map_values(
                |e: (Seq<char>, Seq<u8>, Seq<char>)| e.0,
            ),
            transformations@.map_values(|t: Transformation| transformation_view(t)) == t0
                + dropped_entries(es.take(i as int), reach).map_values(
                |e: (Seq<char>, Seq<u8>, Seq<char>)| drop_report(e),
            ),
        decreases n - i,
    {
        let (path, res) = match resource_at(resources, i) {
            Some(pr) => pr,
            None => {
                assert(false);
                return (kept, dropped);
            },
        };
        let ghost e = es[i as int];
        assert(entry_of(path@, *res) == e);
        reveal(Seq::filter);
        let ghost prev_kept = resource_entries(kept);
        let ghost prev_drop = dropped_entries(es.take(i as int), reach);
        assert(es.take(i + 1).drop_last() =~= es.take(i as int));
        assert(es.take(i + 1).last() == e);
        if holds_path(seen, path.as_str()) {
            assert(reach.contains(e.0));
            proof {
                lemma_key_index(prev_kept, e.0);
                if key_index(prev_kept, e.0) >= 0 {
                    let k = key_index(prev_kept, e.0);
                    assert(prev_kept.contains(prev_kept[k]));
                    es.take(i as int).lemma_filter_contains_rev(
                        |e: (Seq<char>, Seq<u8>, Seq<char>)| reach.contains(e.0),
                        prev_kept[k],
                    );
                    let j = choose|j: int| 0 <= j < i && es.take(i as int)[j] == prev_kept[k];
                    assert(es[j] == es.take(i as int)[j]);
                    assert(keys@[j]@ == es[j].0);
                    assert(keys@[i as int]@ == es[i as int].0);
                }
            }
            resource_insert(&mut kept, path.clone(), copy_resource(res));
            assert(resource_entries(kept) =~= kept_entries(es.take(i + 1), reach));
            assert(dropped_entries(es.take(i + 1), reach) =~= prev_drop);
        } else {
            assert(!reach.contains(e.0));
            let ghost before_t = transformations@;
            let ghost before_d = dropped@;
            let mut detail: Vec<char> = Vec::new();
            push_str(&mut detail, "dropped ");
            crate::text::push_decimal(&mut detail, res.data.len() as u128);
            push_str(&mut detail, " bytes nothing references");
            let t = Transformation {
                kind: "generic-unreferenced".to_owned(),
                detail: string_of(&detail),
                file: Some(path.clone()),
            };
            assert(transformation_view(t) == drop_report(e));
            transformations.push(t);
            dropped.push(path.clone());
            assert(dropped_entries(es.take(i + 1), reach) =~= prev_drop.push(e));
            assert(kept_entries(es.take(i + 1), reach) =~= prev_kept);
            assert(paths_view(dropped@) =~= paths_view(before_d).push(e.0));
            assert(prev_drop.push(e).map_values(|e: (Seq<char>, Seq<u8>, Seq<char>)| e.0)
                =~= prev_drop.map_values(|e: (Seq<char>, Seq<u8>, Seq<char>)| e.0).push(e.0));
            assert(transformations@.map_values(|t: Transformation| transformation_view(t))
                =~= before_t.map_values(|t: Transformation| transformation_view(t)).push(
                drop_report(e),
            ));
            assert(prev_drop.push(e).map_values(
                |e: (Seq<char>, Seq<u8>, Seq<char>)| drop_report(e),
            ) =~= prev_drop.map_values(|e: (Seq<char>, Seq<u8>, Seq<char>)| drop_report(e)).push(
                drop_report(e),
            ));
        }
        i += 1;
    }
    assert(es.take(n as int) =~= es);
    (kept, dropped)
}


/// Whether a declared media type names a textual document.
fn is_textual(media_type: &str) -> (r: bool)
    ensures
        r == textual_media_type(crate::media::normalized_media_type(media_type@)),
{
    let n = chars_of(crate::media::normalize_media_type(media_type).as_str());
    crate::text::same_chars(&n, &chars_of("application/xhtml+xml"))
        || crate::text::same_chars(&n, &chars_of("text/html"))
        || crate::text::same_chars(&n, &chars_of("text/css"))
        || crate::text::same_chars(&n, &chars_of("image/svg+xml"))
        || crate::text::same_chars(&n, &chars_of("application/smil+xml"))
        || crate::text::same_chars(&n, &chars_of("application/x-dtbncx+xml"))
        || crate::text::same_chars(&n, &chars_of("application/oebps-package+xml"))
}

/// Whether `a` and `b` are the same path.
fn same_path(a: &str, b: &str) -> (r: bool)
    ensures
        r == (a@ == b@),
{
    crate::text::same_chars(&chars_of(a), &chars_of(b))
}

/// The documents of `m` the safety net searches, by path and bytes.
fn scanned_of<'a>(
    m: &'a IndexMap<String, Resource>,
    opf: &str,
    nav: &str,
    ncx: &Option<String>,
) -> (docs: Vec<(&'a str, &'a [u8])>)
    ensures
        doc_views(docs@) == scanned_docs(resource_entries(*m), opf@, nav@, opt_view(*ncx)),
{
    let ghost es = resource_entries(*m);
    let ghost nx = opt_view(*ncx);
    let n = crate::book::resource_count(m);
    let mut docs: Vec<(&'a str, &'a [u8])> = Vec::new();
    let mut i: usize = 0;
    reveal(Seq::filter);
    assert(scanned_docs(es.take(0), opf@, nav@, nx) =~= Seq::<(Seq<char>, Seq<u8>)>::empty());
    assert(doc_views(docs@) =~= Seq::<(Seq<char>, Seq<u8>)>::empty());
    while i < n
        invariant
            i <= n,
            n == es.len(),
            es == resource_entries(*m),
            nx == opt_view(*ncx),
            doc_views(docs@) == scanned_docs(es.take(i as int), opf@, nav@, nx),
        decreases n - i,
    {
        let (path, res) = match resource_at(m, i) {
            Some(pr) => pr,
            None => {
                assert(false);
                return docs;
            },
        };
        let ghost e = es[i as int];
        assert(entry_of(path@, *res) == e);
        reveal(Seq::filter);
        let ghost pred = |e: (Seq<char>, Seq<u8>, Seq<char>)| scanned_entry(e, opf@, nav@, nx);
        let ghost prev = es.take(i as int).filter(pred);
        assert(es.take(i + 1).drop_last() =~= es.take(i as int));
        assert(es.take(i + 1).last() == e);
        let regenerated = same_path(path.as_str(), opf) || same_path(path.as_str(), nav) || match ncx {
            Some(c) => same_path(path.as_str(), c.as_str()),
            None => false,
        };
        let ghost before = docs@;
        if !regenerated && is_textual(res.media_type.as_str()) {
            assert(pred(e));
            docs.push((path.as_str(), res.data.as_slice()));
            assert(es.take(i + 1).filter(pred) =~= prev.push(e));
            assert(doc_views(docs@) =~= doc_views(before).push((e.0, e.1)));
            assert(prev.push(e).map_values(|e: (Seq<char>, Seq<u8>, Seq<char>)| (e.0, e.1))
                =~= prev.map_values(|e: (Seq<char>, Seq<u8>, Seq<char>)| (e.0, e.1)).push(
                (e.0, e.1),
            ));
        } else {
            assert(!pred(e));
            assert(es.take(i + 1).filter(pred) =~= prev);
        }
        i += 1;
    }
    assert(es.take(n as int) =~= es);
    docs
}

/// Hits as plain values.
pub open spec fn hits_view(hits: Seq<(String, String)>) -> Seq<(Seq<char>, Seq<char>)> {
    hits.map_values(|h: (String, String)| (h.0@, h.1@))
}

/// A warning for each hit whose dropped path has a basename.
fn warn_dangling(hits: &Vec<(String, String)>, warnings: &mut Vec<Warning>)
    ensures
        final(warnings)@.map_values(|w: Warning| warning_view(w)) == old(warnings)@.map_values(
            |w: Warning| warning_view(w),
        ) + dangling_warnings(hits_view(hits@)),
{
    let ghost hv = hits_view(hits@);
    let ghost w0 = warnings@.map_values(|w: Warning| warning_view(w));
    let ghost pred = |h: (Seq<char>, Seq<char>)| basename_of_spec(h.1) is Some;
    let mut i: usize = 0;
    reveal(Seq::filter);
    assert(hv.take(0).filter(pred) =~= Seq::<(Seq<char>, Seq<char>)>::empty());
    assert(warnings@.map_values(|w: Warning| warning_view(w)) =~= w0 + dangling_warnings(
        hv.take(0),
    ));
    while i < hits.len()
        invariant
            i <= hits@.len(),
            hv == hits_view(hits@),
            pred == (|h: (Seq<char>, Seq<char>)| basename_of_spec(h.1) is Some),
            warnings@.map_values(|w: Warning| warning_view(w)) == w0 + dangling_warnings(
                hv.take(i as int),
            ),
        decreases hits.len() - i,
    {
        let ghost h = hv[i as int];
        reveal(Seq::filter);
        let ghost prev = hv.take(i as int).filter(pred);
        assert(hv.take(i + 1).drop_last() =~= hv.take(i as int));
        assert(hv.take(i + 1).last() == h);
        let doc = &hits[i].0;
        let dropped = &hits[i].1;
        let ghost before = warnings@;
        match basename_of(dropped.as_str()) {
            Some(b) => {
                let mut message: Vec<char> = Vec::new();
                push_all(&mut message, &chars_of(doc.as_str()));
                push_str(&mut message, " still mentions ");
                push_all(&mut message, &chars_of(b.as_str()));
                push_str(&mut message, " (from ");
                push_all(&mut message, &chars_of(dropped.as_str()));
                push_str(
                    &mut message,
                    ", dropped as unreferenced) - the reachability graph may be missing an edge",
                );
                let w = Warning { message: string_of(&message), file: Some(doc.clone()) };
                assert(warning_view(w) == dangling_warning(h));
                warnings.push(w);
                assert(hv.take(i + 1).filter(pred) =~= prev.push(h));
                assert(warnings@.map_values(|w: Warning| warning_view(w)) =~= before.map_values(
                    |w: Warning| warning_view(w),
                ).push(dangling_warning(h)));
                assert(prev.push(h).map_values(|h: (Seq<char>, Seq<char>)| dangling_warning(h))
                    =~= prev.map_values(|h: (Seq<char>, Seq<char>)| dangling_warning(h)).push(
                    dangling_warning(h),
                ));
            },
            None => {
                assert(hv.take(i + 1).filter(pred) =~= prev);
            },
        }
        i += 1;
    }
    assert(hv.take(hits@.len() as int) =~= hv);
}


/// Drop every resource unreachable from the book's roots, in resource
/// order, reporting each with its size; then warn of every surviving
/// textual document that still mentions a dropped file's basename.
///
/// The walk starts at the package document, the navigation document, the
/// NCX, the cover and every reading-order document, and steps along what
/// each document names: `refs_by_document` lists, per document, the paths
/// its content refers to, and `srcset_by_document` the `srcset` targets
/// resolved before this pass (their attributes are gone from the
/// documents by now). Both count only once the walk reaches the document
/// that names them. A book without a navigation document of its own gets
/// one generated at `effective_nav_path`: whatever sits there is kept, but
/// its links keep nothing alive. The package document, the navigation
/// document and the NCX are not searched by the safety net, since their
/// stored bytes are regenerated.
pub fn prune(
    book: &mut Book,
    transformations: &mut Vec<Transformation>,
    warnings: &mut Vec<Warning>,
    srcset_by_document: &Vec<(String, Vec<String>)>,
    refs_by_document: &Vec<(String, Vec<String>)>,
)
    ensures
        ({
            let es = resource_entries(old(book).resources);
            let reach = reached_set(
                *old(book),
                links_view(refs_by_document@),
                links_view(srcset_by_document@),
            );
            let kept = kept_entries(es, reach);
            let dropped = dropped_entries(es, reach);
            let hits = dangling_hits(
                dropped.map_values(|e: (Seq<char>, Seq<u8>, Seq<char>)| e.0),
                scanned_docs(
                    kept,
                    old(book).opf_path@,
                    effective_nav_path_spec(*old(book)),
                    opt_view(old(book).ncx_path),
                ),
                dropped.len() as int,
            );
            let needles = dropped_needles(
                dropped.map_values(|e: (Seq<char>, Seq<u8>, Seq<char>)| e.0),
            );
            &&& resource_entries(final(book).resources) == kept
            &&& final(transformations)@.map_values(|t: Transformation| transformation_view(t))
                == old(transformations)@.map_values(|t: Transformation| transformation_view(t))
                + dropped.map_values(|e: (Seq<char>, Seq<u8>, Seq<char>)| drop_report(e))
            &&& final(warnings)@.map_values(|w: Warning| warning_view(w)) == old(
                warnings,
            )@.map_values(|w: Warning| warning_view(w)) + dangling_warnings(
                if automaton_builds(needles) {
                    hits
                } else {
                    Seq::empty()
                },
            )
        }),
        final(book).metadata == old(book).metadata,
        final(book).spine == old(book).spine,
        final(book).toc == old(book).toc,
        final(book).cover == old(book).cover,
        final(book).opf_path == old(book).opf_path,
        final(book).nav_path == old(book).nav_path,
        final(book).ncx_path == old(book).ncx_path,
{
    let ghost es = resource_entries(book.resources);
    let ghost reach = reached_set(
        *book,
        links_view(refs_by_document@),
        links_view(srcset_by_document@),
    );
    let roots = roots_of(book);
    let nav_out = crate::book::effective_nav_path(book);
    let sealed: Option<String> = if book.nav_path.is_none() {
        Some(nav_out.clone())
    } else {
        None
    };
    assert(opt_view(sealed) == sealed_nav(*book));
    let seen = reachable_paths(&roots, &sealed, refs_by_document.as_slice(), srcset_by_document.as_slice());
    assert forall|x: Seq<char>| #[trigger] paths_view(seen@).contains(x) <==> reach.contains(x) by {
        assert(paths_view(seen@).contains(x) <==> reachable_from(
            prune_roots(*book),
            sealed_nav(*book),
            links_view(refs_by_document@),
            links_view(srcset_by_document@),
            x,
        ));
    }
    let (kept, dropped) = split_reached(&book.resources, &seen, transformations, Ghost(reach));
    book.resources = kept;
    let ghost dv = dropped_entries(es, reach).map_values(|e: (Seq<char>, Seq<u8>, Seq<char>)| e.0);
    let docs = scanned_of(&book.resources, book.opf_path.as_str(), nav_out.as_str(), &book.ncx_path);
    let hits = crate::dangling::scan_for_dangling_basenames(dropped.as_slice(), docs.as_slice());
    assert(dropped@.map_values(|s: String| s@) == dv);
    assert(dropped_entries(es, reach).len() == dv.len());
    if hits.len() == 0 {
        proof {
            let e = Seq::<(Seq<char>, Seq<char>)>::empty();
            reveal(Seq::filter);
            assert(e.filter(|h: (Seq<char>, Seq<char>)| basename_of_spec(h.1) is Some) =~= e);
            assert(old(warnings)@.map_values(|w: Warning| warning_view(w)) + dangling_warnings(e)
                =~= old(warnings)@.map_values(|w: Warning| warning_view(w)));
        }
        return;
    }
    warn_dangling(&hits, warnings);
}


/// The package document, the navigation document, the NCX, the cover,
/// every reading-order document and a generated navigation document's
/// path are never dropped.
pub proof fn law_roots_are_kept(book: Book, refs: PathLinks, srcset: PathLinks, p: Seq<char>)
    requires
        prune_roots(book).contains(p) || sealed_nav(book) == Some(p),
    ensures
        reached_set(book, refs, srcset).contains(p),
{
    lemma_start_reaches(prune_roots(book), sealed_nav(book), refs, srcset, p);
}

/// Whatever a kept document names is kept too, unless that document is
/// the generated navigation document's path, whose links keep nothing
/// alive.
pub proof fn law_kept_names_are_kept(
    book: Book,
    refs: PathLinks,
    srcset: PathLinks,
    p: Seq<char>,
    x: Seq<char>,
)
    requires
        reached_set(book, refs, srcset).contains(p),
        sealed_nav(book) != Some(p),
        walk_step(refs, srcset, p, x),
    ensures
        reached_set(book, refs, srcset).contains(x),
{
    lemma_step_reaches(prune_roots(book), sealed_nav(book), refs, srcset, p, x);
}

/// Pruning what a prune kept keeps all of it.
pub proof fn law_prune_settles(es: Entries, reach: Set<Seq<char>>)
    ensures
        kept_entries(kept_entries(es, reach), reach) == kept_entries(es, reach),
        dropped_entries(kept_entries(es, reach), reach).len() == 0,
{
    let k = kept_entries(es, reach);
    let pred = |e: (Seq<char>, Seq<u8>, Seq<char>)| reach.contains(e.0);
    assert forall|i: int| 0 <= i < k.len() implies pred(k[i]) by {
        es.filter_lemma(pred);
    }
    lemma_filter_all(k, pred);
    lemma_filter_none(k, |e: (Seq<char>, Seq<u8>, Seq<char>)| !reach.contains(e.0));
}

proof fn lemma_filter_all(
    s: Seq<(Seq<char>, Seq<u8>, Seq<char>)>,
    pred: spec_fn((Seq<char>, Seq<u8>, Seq<char>)) -> bool,
)
    requires
        forall|i: int| 0 <= i < s.len() ==> pred(#[trigger] s[i]),
    ensures
        s.filter(pred) == s,
    decreases s.len(),
{
    reveal(Seq::filter);
    if s.len() > 0 {
        let d = s.drop_last();
        assert forall|i: int| 0 <= i < d.len() implies pred(#[trigger] d[i]) by {
            assert(d[i] == s[i]);
        }
        lemma_filter_all(d, pred);
        assert(pred(s[s.len() - 1]));
        assert(d.push(s.last()) =~= s);
    }
}

proof fn lemma_filter_none(
    s: Seq<(Seq<char>, Seq<u8>, Seq<char>)>,
    pred: spec_fn((Seq<char>, Seq<u8>, Seq<char>)) -> bool,
)
    requires
        forall|i: int| 0 <= i < s.len() ==> !pred(#[trigger] s[i]),
    ensures
        s.filter(pred).len() == 0,
    decreases s.len(),
{
    reveal(Seq::filter);
    if s.len() > 0 {
        let d = s.drop_last();
        assert forall|i: int| 0 <= i < d.len() implies !pred(#[trigger] d[i]) by {
            assert(d[i] == s[i]);
        }
        lemma_filter_none(d, pred);
        assert(!pred(s[s.len() - 1]));
    }
}

} // verus!
