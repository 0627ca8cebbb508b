//! The leading frontmatter block of a Markdown book: the metadata it
//! carries, and the text between its delimiter lines.

use vstd::prelude::*;
use vstd::string::StrSliceExecFns;

use crate::text::{chars_of, index_of_from, lemma_index_of_from_bounds, same_chars};

verus! {

/// Book metadata read from the Markdown frontmatter block. Every field is
/// optional; the Markdown frontend fills in the fallbacks (first heading for
/// the title, `en` for the language) once the rest of the document is known.
#[derive(Debug, Clone, Default, PartialEq, Eq)]
pub struct Frontmatter {
    pub title: Option<String>,
    pub authors: Vec<String>,
    pub language: Option<String>,
    pub cover: Option<String>,
}

/// Where the YAML body starts: just past the opening delimiter and its line
/// break (`\n` or `\r\n`), if the block opens that way.
pub open spec fn body_start(raw: Seq<char>, delimiter: Seq<char>) -> Option<nat> {
    let n = delimiter.len();
    if crate::text::starts_with(raw, delimiter) {
        if raw.len() > n && raw[n as int] == '\n' {
            Some(n + 1)
        } else if raw.len() > n + 1 && raw[n as int] == '\r' && raw[(n + 1) as int] == '\n' {
            Some(n + 2)
        } else {
            None
        }
    } else {
        None
    }
}

/// The index just past the line that starts at `p` (past its `\n`, or the
/// end of the text).
pub open spec fn line_end(s: Seq<char>, p: int) -> int {
    let e = index_of_from(s, '\n', p);
    if e < 0 {
        s.len() as int
    } else {
        e + 1
    }
}

/// A line with its trailing line-break characters removed.
pub open spec fn without_line_break(t: Seq<char>) -> Seq<char>
    decreases t.len(),
{
    if t.len() > 0 && (t.last() == '\n' || t.last() == '\r') {
        without_line_break(t.drop_last())
    } else {
        t
    }
}

/// The start of the first line at or after `p` that is exactly the
/// delimiter (line break aside), if any.
pub open spec fn closing_line(s: Seq<char>, delimiter: Seq<char>, p: nat) -> Option<nat>
    decreases s.len() - p,
{
    if p >= s.len() {
        None
    } else {
        let e = line_end(s, p as int);
        if without_line_break(s.subrange(p as int, e)) == delimiter {
            Some(p)
        } else if e <= p || e > s.len() {
            None
        } else {
            closing_line(s, delimiter, e as nat)
        }
    }
}

/// The YAML text between a frontmatter block's delimiter lines. A block
/// that does not open with the delimiter on its own line is returned whole;
/// one with no closing line yields everything after the opening line.
pub open spec fn between_delimiters(raw: Seq<char>, delimiter: Seq<char>) -> Seq<char> {
    match body_start(raw, delimiter) {
        None => raw,
        Some(b) => {
            let after = raw.skip(b as int);
            match closing_line(after, delimiter, 0) {
                Some(k) => after.take(k as int),
                None => after,
            }
        },
    }
}

/// `v[p..e]` with trailing line breaks removed equals `d`.
fn line_is(v: &[char], p: usize, e: usize, d: &[char]) -> (r: bool)
    requires
        p <= e <= v@.len(),
    ensures
        r == (without_line_break(v@.subrange(p as int, e as int)) == d@),
{
    let mut end = e;
    while end > p && (v[end - 1] == '\n' || v[end - 1] == '\r')
        invariant
            p <= end <= e <= v@.len(),
            without_line_break(v@.subrange(p as int, e as int)) == without_line_break(
                v@.subrange(p as int, end as int),
            ),
        decreases end,
    {
        assert(v@.subrange(p as int, end as int).drop_last() == v@.subrange(
            p as int,
            end - 1,
        ));
        end -= 1;
    }
    let line = crate::text::copy_range(v, p, end);
    same_chars(&line, d)
}

/// Strip the opening and closing delimiter lines from a raw frontmatter
/// block, returning just the text between them.
pub fn strip_delimiters<'a>(raw_block: &'a str, delimiter: &str) -> (r: &'a str)
    ensures
        r@ == between_delimiters(raw_block@, delimiter@),
{
    let v = chars_of(raw_block);
    let d = chars_of(delimiter);
    let n = d.len();
    let total = raw_block.unicode_len();
    if !crate::text::has_prefix(&v, &d) {
        assert(raw_block@.subrange(0, total as int) == raw_block@);
        return raw_block.substring_char(0, total);
    }
    let start: usize = if v.len() > n && v[n] == '\n' {
        n + 1
    } else if v.len() - n > 1 && v[n] == '\r' && v[n + 1] == '\n' {
        n + 2
    } else {
        assert(raw_block@.subrange(0, total as int) == raw_block@);
        return raw_block.substring_char(0, total);
    };
    let ghost after = v@.skip(start as int);
    assert(body_start(raw_block@, delimiter@) == Some(start as nat));
    let mut p: usize = start;
    while p < v.len()
        invariant
            start <= p <= v@.len(),
            v@ == raw_block@,
            d@ == delimiter@,
            after == v@.skip(start as int),
            total == v@.len(),
            body_start(raw_block@, delimiter@) == Some(start as nat),
            closing_line(after, d@, 0) == closing_line(after, d@, (p - start) as nat),
        decreases v.len() - p,
    {
        let mut e: usize = p;
        while e < v.len() && v[e] != '\n'
            invariant
                p <= e <= v@.len(),
                index_of_from(v@, '\n', p as int) == index_of_from(v@, '\n', e as int),
            decreases v.len() - e,
        {
            e += 1;
        }
        proof {
            lemma_index_of_from_bounds(v@, '\n', p as int);
            lemma_index_of_from_bounds(v@, '\n', e as int);
        }
        if e < v.len() {
            e += 1;
        }
        proof {
            assert(e as int == line_end(v@, p as int));
            lemma_shifted_line(v@, start as int, p as int);
        }
        if line_is(&v, p, e, &d) {
            assert(after.take((p - start) as int) == v@.subrange(start as int, p as int));
            assert(after.len() == v@.len() - start);
            assert(closing_line(after, d@, (p - start) as nat) == Some((p - start) as nat));
            return raw_block.substring_char(start, p);
        }
        p = e;
    }
    assert(after.subrange(0, after.len() as int) == after);
    assert(closing_line(after, d@, (p - start) as nat) is None);
    raw_block.substring_char(start, total)
}

/// Lines of a suffix are the lines of the whole, shifted.
proof fn lemma_shifted_line(v: Seq<char>, start: int, p: int)
    requires
        0 <= start <= p < v.len(),
    ensures
        ({
            let after = v.skip(start);
            &&& line_end(after, p - start) == line_end(v, p) - start
            &&& after.subrange(p - start, line_end(after, p - start)) == v.subrange(
                p,
                line_end(v, p),
            )
        }),
{
    let after = v.skip(start);
    lemma_index_of_from_bounds(v, '\n', p);
    lemma_index_of_from_bounds(after, '\n', p - start);
    let e = index_of_from(v, '\n', p);
    let f = index_of_from(after, '\n', p - start);
    if e >= 0 {
        assert(after[e - start] == '\n');
        if f >= 0 && f < e - start {
            assert(v[f + start] == after[f]);
        }
    }
    if f >= 0 {
        assert(v[f + start] == after[f]);
    }
    assert(after.subrange(p - start, line_end(after, p - start)) =~= v.subrange(p, line_end(v, p)));
}

/// The YAML text of a raw frontmatter block (between its `---` lines), or
/// `None` when there is nothing but white space to parse: a blank block
/// means "no frontmatter fields", not an error.
pub fn yaml_body(raw_block: &str) -> (r: Option<&str>)
    ensures
        r is None <==> crate::text::trim(between_delimiters(raw_block@, "---"@)).len() == 0,
        r is Some ==> r->0@ == between_delimiters(raw_block@, "---"@),
{
    let body = strip_delimiters(raw_block, "---");
    let v = chars_of(body);
    let (a, b) = crate::text::trim_bounds(&v);
    if a < b {
        Some(body)
    } else {
        None
    }
}

} // verus!
