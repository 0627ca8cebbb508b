//! Code blocks on a device that collapses white space: indentation and
//! interior alignment are made visible with non-breaking spaces, while a
//! single interior space stays ordinary so the line can still wrap.

use vstd::prelude::*;

use crate::text::{chars_of, string_of};

verus! {

/// How many non-breaking spaces a tab becomes.
pub const TAB_WIDTH: usize = 4;

/// The non-breaking space.
pub const NBSP: char = '\u{A0}';

/// `n` non-breaking spaces.
pub open spec fn nbsp(n: nat) -> Seq<char> {
    Seq::new(n, |i: int| '\u{A0}')
}

/// How many leading characters of `s` are spaces or tabs.
pub open spec fn indent_len(s: Seq<char>) -> nat
    decreases s.len(),
{
    if s.len() > 0 && (s[0] == ' ' || s[0] == '\t') {
        1 + indent_len(s.drop_first())
    } else {
        0
    }
}

/// How many leading characters of `s` are spaces.
pub open spec fn space_run(s: Seq<char>) -> nat
    decreases s.len(),
{
    if s.len() > 0 && s[0] == ' ' {
        1 + space_run(s.drop_first())
    } else {
        0
    }
}

/// Indentation made visible: each space one non-breaking space, each tab
/// [`TAB_WIDTH`] of them.
pub open spec fn render_indent(s: Seq<char>) -> Seq<char>
    decreases s.len(),
{
    if s.len() == 0 {
        Seq::empty()
    } else if s.last() == '\t' {
        render_indent(s.drop_last()) + nbsp(4)
    } else {
        render_indent(s.drop_last()) + nbsp(1)
    }
}

proof fn lemma_space_run(s: Seq<char>)
    ensures
        space_run(s) <= s.len(),
        s.len() > 0 && s[0] == ' ' ==> space_run(s) >= 1,
    decreases s.len(),
{
    if s.len() > 0 && s[0] == ' ' {
        lemma_space_run(s.drop_first());
    }
}

/// The rest of a line after its indentation: a tab becomes [`TAB_WIDTH`]
/// non-breaking spaces, a run of two or more spaces that many non-breaking
/// spaces, and a single space stays a space.
pub open spec fn render_body(s: Seq<char>) -> Seq<char>
    decreases s.len(),
{
    if s.len() == 0 {
        Seq::empty()
    } else if s[0] == '\t' {
        nbsp(4) + render_body(s.drop_first())
    } else if s[0] == ' ' {
        let run = space_run(s);
        if run == 0 || run > s.len() {
            Seq::empty()
        } else {
            (if run >= 2 {
                nbsp(run)
            } else {
                seq![' ']
            }) + render_body(s.skip(run as int))
        }
    } else {
        seq![s[0]] + render_body(s.drop_first())
    }
}

/// A code line with its white space made visible.
pub open spec fn render_line_spec(line: Seq<char>) -> Seq<char> {
    let n = indent_len(line);
    render_indent(line.take(n as int)) + render_body(line.skip(n as int))
}

/// Appends `n` non-breaking spaces.
fn push_nbsp(out: &mut Vec<char>, n: usize)
    ensures
        final(out)@ == old(out)@ + nbsp(n as nat),
{
    let mut k: usize = 0;
    while k < n
        invariant
            k <= n,
            out@ == old(out)@ + nbsp(k as nat),
        decreases n - k,
    {
        out.push(NBSP);
        assert(nbsp((k + 1) as nat) == nbsp(k as nat).push('\u{A0}'));
        k += 1;
    }
}

/// Render one code line: leading spaces 1:1 and tabs to [`TAB_WIDTH`] each
/// as non-breaking spaces, interior tabs likewise, and interior runs of two
/// or more spaces to that many non-breaking spaces.
pub fn render_line(line: &str) -> (r: String)
    ensures
        r@ == render_line_spec(line@),
{
    let chars = chars_of(line);
    let mut out: Vec<char> = Vec::new();
    let mut leading: usize = 0;
    assert(chars@.skip(0) == chars@);
    while leading < chars.len() && (chars[leading] == ' ' || chars[leading] == '\t')
        invariant
            leading <= chars@.len(),
            chars@ == line@,
            indent_len(line@) == leading + indent_len(chars@.skip(leading as int)),
        decreases chars.len() - leading,
    {
        assert(chars@.skip(leading as int).drop_first() == chars@.skip(leading + 1));
        assert(chars@.skip(leading as int)[0] == chars@[leading as int]);
        leading += 1;
    }
    proof {
        if leading < chars@.len() {
            assert(chars@.skip(leading as int)[0] == chars@[leading as int]);
        }
    }
    let mut k: usize = 0;
    while k < leading
        invariant
            k <= leading <= chars@.len(),
            out@ == render_indent(chars@.take(k as int)),
        decreases leading - k,
    {
        assert(chars@.take(k + 1).drop_last() == chars@.take(k as int));
        assert(chars@.take(k + 1).last() == chars@[k as int]);
        if chars[k] == '\t' {
            push_nbsp(&mut out, TAB_WIDTH);
        } else {
            push_nbsp(&mut out, 1);
        }
        k += 1;
    }
    let mut i: usize = leading;
    while i < chars.len()
        invariant
            leading <= i <= chars@.len(),
            chars@ == line@,
            leading == indent_len(line@),
            out@ + render_body(chars@.skip(i as int)) == render_line_spec(line@),
        decreases chars.len() - i,
    {
        let ghost s = chars@.skip(i as int);
        let ghost before = out@;
        assert(s[0] == chars@[i as int]);
        if chars[i] == '\t' {
            push_nbsp(&mut out, TAB_WIDTH);
            assert(s.drop_first() == chars@.skip(i + 1));
            i += 1;
        } else if chars[i] == ' ' {
            let start = i;
            while i < chars.len() && chars[i] == ' '
                invariant
                    start <= i <= chars@.len(),
                    space_run(chars@.skip(start as int)) == (i - start) + space_run(
                        chars@.skip(i as int),
                    ),
                decreases chars.len() - i,
            {
                assert(chars@.skip(i as int).drop_first() == chars@.skip(i + 1));
                i += 1;
            }
            proof {
                if i < chars@.len() {
                    assert(chars@.skip(i as int)[0] == chars@[i as int]);
                }
                lemma_space_run(s);
                assert(s.skip((i - start) as int) == chars@.skip(i as int));
            }
            let run = i - start;
            if run >= 2 {
                push_nbsp(&mut out, run);
            } else {
                out.push(' ');
            }
        } else {
            out.push(chars[i]);
            assert(s.drop_first() == chars@.skip(i + 1));
            i += 1;
        }
    }
    assert(chars@.skip(chars@.len() as int).len() == 0);
    string_of(&out)
}

} // verus!
