//! XML text/attribute escaping and comment sanitizing shared by the XHTML
//! serializer and the output-document builders.

use vstd::prelude::*;
use vstd::string::StringExecFns;

use crate::text::{chars_of, push_str, string_of};

verus! {

/// Whether `c` is allowed in XML 1.0 text: everything from `U+0020` up,
/// plus tab, line feed and carriage return.
pub open spec fn xml_char(c: char) -> bool {
    c as u32 >= 0x20 || c == '\t' || c == '\n' || c == '\r'
}

/// What one character becomes once escaped.
pub open spec fn escape_char(c: char, quote: bool) -> Seq<char> {
    if c == '&' {
        "&amp;"@
    } else if c == '<' {
        "&lt;"@
    } else if c == '>' {
        "&gt;"@
    } else if c == '"' && quote {
        "&quot;"@
    } else if xml_char(c) {
        seq![c]
    } else {
        Seq::empty()
    }
}

/// `s` XML-escaped: `&`, `<`, `>` (and `"` when `quote`) replaced by their
/// entities, characters invalid in XML 1.0 dropped.
pub open spec fn escaped(s: Seq<char>, quote: bool) -> Seq<char>
    decreases s.len(),
{
    if s.len() == 0 {
        Seq::empty()
    } else {
        escaped(s.drop_last(), quote) + escape_char(s.last(), quote)
    }
}

/// Append `s` to `out`, XML-escaping `&`, `<` and `>` (plus `"` when
/// `escape_quote` is set, for attribute values), and dropping control
/// characters that are invalid in XML 1.0.
pub fn escape_into(s: &str, escape_quote: bool, out: &mut String)
    ensures
        final(out)@ == old(out)@ + escaped(s@, escape_quote),
{
    let v = chars_of(s);
    let mut buf: Vec<char> = Vec::new();
    let mut i: usize = 0;
    while i < v.len()
        invariant
            i <= v@.len(),
            v@ == s@,
            buf@ == escaped(v@.take(i as int), escape_quote),
        decreases v.len() - i,
    {
        let c = v[i];
        proof {
            assert(v@.take(i + 1).drop_last() == v@.take(i as int));
        }
        if c == '&' {
            push_str(&mut buf, "&amp;");
        } else if c == '<' {
            push_str(&mut buf, "&lt;");
        } else if c == '>' {
            push_str(&mut buf, "&gt;");
        } else if c == '"' && escape_quote {
            push_str(&mut buf, "&quot;");
        } else if c == '\t' || c == '\n' || c == '\r' || (c as u32) >= 0x20 {
            buf.push(c);
        }
        i += 1;
    }
    assert(v@.take(v.len() as int) == v@);
    let e = string_of(&buf);
    out.append(e.as_str());
}

/// XML-escape `s` for use as text content (`&`, `<`, `>`).
pub fn escape_text(s: &str) -> (r: String)
    ensures
        r@ == escaped(s@, false),
{
    let mut out = String::new();
    escape_into(s, false, &mut out);
    assert(Seq::<char>::empty() + escaped(s@, false) == escaped(s@, false));
    out
}

/// XML-escape `s` for use inside a double-quoted attribute value
/// (`&`, `<`, `>`, `"`).
pub fn escape_attr(s: &str) -> (r: String)
    ensures
        r@ == escaped(s@, true),
{
    let mut out = String::new();
    escape_into(s, true, &mut out);
    assert(Seq::<char>::empty() + escaped(s@, true) == escaped(s@, true));
    out
}

// ---------------------------------------------------------------------
// Comments
// ---------------------------------------------------------------------

/// `s` with every character invalid in XML 1.0 dropped.
pub open spec fn xml_chars(s: Seq<char>) -> Seq<char>
    decreases s.len(),
{
    if s.len() == 0 {
        Seq::empty()
    } else if xml_char(s.last()) {
        xml_chars(s.drop_last()).push(s.last())
    } else {
        xml_chars(s.drop_last())
    }
}

/// `f` with a space put between every two adjacent hyphens, so that no
/// `--` survives.
pub open spec fn split_hyphens(f: Seq<char>) -> Seq<char>
    decreases f.len(),
{
    if f.len() == 0 {
        Seq::empty()
    } else {
        let p = split_hyphens(f.drop_last());
        if f.last() == '-' && f.len() >= 2 && f[f.len() - 2] == '-' {
            p.push(' ').push('-')
        } else {
            p.push(f.last())
        }
    }
}

/// What a comment's content becomes: invalid characters dropped, hyphen
/// runs split, a trailing hyphen padded, and a leading `>` or `->` (which
/// an HTML tokenizer reads as an abrupt end of the comment) spaced apart.
pub open spec fn comment_body(content: Seq<char>) -> Seq<char> {
    let h = split_hyphens(xml_chars(content));
    let t = if h.len() > 0 && h.last() == '-' {
        h.push(' ')
    } else {
        h
    };
    if t.len() > 0 && t[0] == '>' {
        seq![' '] + t
    } else if t.len() > 1 && t[0] == '-' && t[1] == '>' {
        seq!['-', ' '] + t.subrange(1, t.len() as int)
    } else {
        t
    }
}

/// Whether `s` holds two adjacent hyphens.
pub open spec fn has_double_hyphen(s: Seq<char>) -> bool {
    exists|i: int| 0 <= i < s.len() - 1 && #[trigger] s[i] == '-' && s[i + 1] == '-'
}

/// Whether `body` is safe between `<!--` and `-->`, for XML and for an
/// HTML tokenizer re-reading it: no `--`, no trailing `-`, no leading `>` or
/// `->`.
pub open spec fn comment_safe(body: Seq<char>) -> bool {
    &&& !has_double_hyphen(body)
    &&& !(body.len() > 0 && body.last() == '-')
    &&& !(body.len() > 0 && body[0] == '>')
    &&& !(body.len() > 1 && body[0] == '-' && body[1] == '>')
}

/// Splitting hyphen runs leaves no `--` and ends on the input's last
/// character.
proof fn lemma_split_hyphens(f: Seq<char>)
    ensures
        !has_double_hyphen(split_hyphens(f)),
        f.len() > 0 ==> split_hyphens(f).len() > 0 && split_hyphens(f).last() == f.last(),
        f.len() == 0 ==> split_hyphens(f).len() == 0,
        f.len() > 0 ==> split_hyphens(f)[0] == f[0],
        f.len() > 1 && f[0] == '-' && f[1] == '>' ==> split_hyphens(f).len() > 1 && split_hyphens(
            f,
        )[1] == '>',
    decreases f.len(),
{
    if f.len() > 0 {
        let p = split_hyphens(f.drop_last());
        lemma_split_hyphens(f.drop_last());
        let r = split_hyphens(f);
        assert forall|i: int| 0 <= i < r.len() - 1 && #[trigger] r[i] == '-' implies r[i + 1]
            != '-' by {
            if i < p.len() - 1 {
                assert(r[i] == p[i] && r[i + 1] == p[i + 1]);
                if p[i + 1] == '-' {
                    assert(p[i] == '-' && p[i + 1] == '-');
                }
            } else if i == p.len() - 1 {
                assert(p.last() == f.drop_last().last());
            }
        }
        if f.len() > 1 {
            assert(f.drop_last()[0] == f[0]);
        }
        if f.len() > 2 && f[0] == '-' && f[1] == '>' {
            assert(f.drop_last()[1] == f[1]);
            assert(p.len() > 1 && p[1] == '>');
            if f.last() == '-' && f[f.len() - 2] == '-' {
                assert(r == p.push(' ').push('-'));
            } else {
                assert(r == p.push(f.last()));
            }
            assert(r[1] == p[1]);
        }
        if f.len() == 2 && f[0] == '-' && f[1] == '>' {
            assert(f.drop_last().drop_last().len() == 0);
            assert(p == split_hyphens(f.drop_last().drop_last()).push('-'));
            assert(r == p.push('>'));
        }
    }
}

/// A sanitized comment body is always safe to write.
pub proof fn lemma_comment_body_safe(content: Seq<char>)
    ensures
        comment_safe(comment_body(content)),
{
    let f = xml_chars(content);
    let h = split_hyphens(f);
    lemma_split_hyphens(f);
    let t = if h.len() > 0 && h.last() == '-' {
        h.push(' ')
    } else {
        h
    };
    assert(!has_double_hyphen(t)) by {
        assert forall|i: int| 0 <= i < t.len() - 1 && #[trigger] t[i] == '-' implies t[i + 1]
            != '-' by {
            if i < h.len() - 1 {
                assert(t[i] == h[i] && t[i + 1] == h[i + 1]);
            }
        }
    }
    let b = comment_body(content);
    if t.len() > 0 && t[0] == '>' {
        assert(b == seq![' '] + t);
        assert forall|i: int| 0 <= i < b.len() - 1 && #[trigger] b[i] == '-' implies b[i + 1]
            != '-' by {
            assert(b[i] == t[i - 1] && b[i + 1] == t[i]);
        }
    } else if t.len() > 1 && t[0] == '-' && t[1] == '>' {
        assert forall|i: int| 0 <= i < b.len() - 1 && #[trigger] b[i] == '-' implies b[i + 1]
            != '-' by {
            if i >= 2 {
                assert(b[i] == t[i - 1] && b[i + 1] == t[i]);
            }
        }
    }
}

/// Append `<!--content-->` to `out`, with `content` sanitized (see
/// [`comment_body`]) so the result is a well-formed XML comment that an
/// HTML tokenizer also reads back whole.
pub fn write_comment(content: &str, out: &mut String)
    ensures
        final(out)@ == old(out)@ + "<!--"@ + comment_body(content@) + "-->"@,
        comment_safe(comment_body(content@)),
{
    let v = chars_of(content);
    let mut cleaned: Vec<char> = Vec::new();
    let mut filtered: Ghost<Seq<char>> = Ghost(Seq::empty());
    let mut prev_was_hyphen = false;
    let mut i: usize = 0;
    while i < v.len()
        invariant
            i <= v@.len(),
            v@ == content@,
            filtered@ == xml_chars(v@.take(i as int)),
            cleaned@ == split_hyphens(filtered@),
            prev_was_hyphen == (filtered@.len() > 0 && filtered@.last() == '-'),
        decreases v.len() - i,
    {
        let c = v[i];
        proof {
            assert(v@.take(i + 1).drop_last() == v@.take(i as int));
        }
        if (c as u32) >= 0x20 || c == '\t' || c == '\n' || c == '\r' {
            let ghost before = filtered@;
            proof {
                filtered@ = filtered@.push(c);
                assert(filtered@.drop_last() == before);
            }
            if c == '-' && prev_was_hyphen {
                cleaned.push(' ');
            }
            cleaned.push(c);
            prev_was_hyphen = c == '-';
        }
        i += 1;
    }
    assert(v@.take(v.len() as int) == v@);
    if cleaned.len() > 0 && cleaned[cleaned.len() - 1] == '-' {
        cleaned.push(' ');
    }
    let ghost t = cleaned@;
    let body: Vec<char> = if cleaned.len() > 0 && cleaned[0] == '>' {
        let mut b: Vec<char> = Vec::new();
        b.push(' ');
        crate::text::push_all(&mut b, &cleaned);
        b
    } else if cleaned.len() > 1 && cleaned[0] == '-' && cleaned[1] == '>' {
        let mut b: Vec<char> = Vec::new();
        b.push('-');
        b.push(' ');
        let rest = crate::text::copy_range(&cleaned, 1, cleaned.len());
        crate::text::push_all(&mut b, &rest);
        b
    } else {
        cleaned
    };
    assert(body@ == comment_body(content@));
    proof {
        lemma_comment_body_safe(content@);
    }
    out.append("<!--");
    out.append(string_of(&body).as_str());
    out.append("-->");
}

} // verus!
