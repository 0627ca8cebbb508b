//! Footnote links: recognizing a `javascript:` link and recovering the
//! `#id` a footnote widget hides in another attribute.

use vstd::prelude::*;

use crate::text::{chars_of, lower_seq, starts_with, string_of, trim_start};

verus! {

/// Whether an href is a `javascript:` link (case-insensitive, after any
/// leading white space).
pub open spec fn is_javascript_spec(href: Seq<char>) -> bool {
    starts_with(lower_seq(trim_start(href)), "javascript:"@)
}

/// Whether an href is a `javascript:` link.
pub fn is_javascript(href: &str) -> (r: bool)
    ensures
        r == is_javascript_spec(href@),
{
    let v = chars_of(href);
    let start = crate::text::trim_start_index(&v);
    let rest = crate::text::copy_range(&v, start, v.len());
    assert(v@.subrange(start as int, v@.len() as int) == v@.skip(start as int));
    let lowered = crate::text::to_lower(&rest);
    crate::text::has_prefix(&lowered, &chars_of("javascript:"))
}

/// Whether `c` may appear in an id a footnote reference names: an ASCII
/// letter or digit, `_`, `-`, `.` or `:`.
pub open spec fn is_id_char_spec(c: char) -> bool {
    crate::text::is_ascii_alnum(c) || c == '_' || c == '-' || c == '.' || c == ':'
}

/// Whether `c` may appear in an id a footnote reference names.
pub fn is_id_char(c: char) -> (r: bool)
    ensures
        r == is_id_char_spec(c),
{
    ('a' <= c && c <= 'z') || ('A' <= c && c <= 'Z') || ('0' <= c && c <= '9') || c == '_'
        || c == '-' || c == '.' || c == ':'
}

/// How many id characters start `s`.
pub open spec fn id_run(s: Seq<char>) -> nat
    decreases s.len(),
{
    if s.len() > 0 && is_id_char_spec(s[0]) {
        1 + id_run(s.drop_first())
    } else {
        0
    }
}

/// The first `#` of `s` at or after `i` that is followed by at least one id
/// character, with the reference it names.
pub open spec fn anchor_ref_from(s: Seq<char>, i: int) -> Option<Seq<char>>
    decreases s.len() - i,
{
    if i < 0 || i >= s.len() {
        None
    } else if s[i] == '#' && id_run(s.skip(i + 1)) > 0 {
        Some(seq!['#'] + s.skip(i + 1).take(id_run(s.skip(i + 1)) as int))
    } else {
        anchor_ref_from(s, i + 1)
    }
}

/// Recover an in-book reference (`#id`) from an attribute value: the first
/// `#` followed by at least one id character, with the id characters that
/// follow it.
pub fn find_anchor_ref(value: &str) -> (r: Option<String>)
    ensures
        match anchor_ref_from(value@, 0) {
            Some(a) => r matches Some(s) && s@ == a,
            None => r is None,
        },
{
    let v = chars_of(value);
    let mut i: usize = 0;
    while i < v.len()
        invariant
            i <= v@.len(),
            v@ == value@,
            anchor_ref_from(v@, 0) == anchor_ref_from(v@, i as int),
        decreases v.len() - i,
    {
        if v[i] == '#' {
            let start = i + 1;
            let mut end = start;
            while end < v.len() && is_id_char(v[end])
                invariant
                    start <= end <= v@.len(),
                    id_run(v@.skip(start as int)) == (end - start) + id_run(v@.skip(end as int)),
                decreases v.len() - end,
            {
                assert(v@.skip(end as int)[0] == v@[end as int]);
                assert(v@.skip(end as int).drop_first() == v@.skip(end + 1));
                end += 1;
            }
            proof {
                if end < v@.len() {
                    assert(v@.skip(end as int)[0] == v@[end as int]);
                }
            }
            if end > start {
                let mut out: Vec<char> = Vec::new();
                out.push('#');
                let run = crate::text::copy_range(&v, start, end);
                crate::text::push_all(&mut out, &run);
                assert(v@.skip(start as int).take((end - start) as int) == v@.subrange(
                    start as int,
                    end as int,
                ));
                return Some(string_of(&out));
            }
        }
        i += 1;
    }
    None
}

} // verus!
