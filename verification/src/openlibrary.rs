//! Open Library records: the references this library hands out for them,
//! their cover URLs, and the two shapes a description arrives in.

use vstd::prelude::*;
use vstd::string::StrSliceExecFns;

use crate::metadata::{MetadataDoc, OneOrMany};
use crate::model::{opt_view, Creator};
use crate::text::{
    chars_of, copy_range, find_char, index_of, push_all, push_signed_decimal, push_str, signed_decimal,
    string_of, trim, trim_end,
};

verus! {

/// A description arrives as a bare string on some records and as a typed
/// object (`{"type": "/type/text", "value": "..."}`) on others.
#[derive(Debug, Clone)]
pub enum Description {
    Text(String),
    Typed { value: String },
}

impl Description {
    /// The description's text, whichever shape it came in.
    pub fn into_string(self) -> (r: String)
        ensures
            r == match self {
                Description::Text(s) => s,
                Description::Typed { value } => value,
            },
    {
        match self {
            Description::Text(s) => s,
            Description::Typed { value } => value,
        }
    }
}

/// The cover URL for an Open Library cover id.
pub fn cover_url(id: i64) -> (r: String)
    ensures
        r@ == "https://covers.openlibrary.org/b/id/"@ + signed_decimal(id as int) + "-L.jpg"@,
{
    let mut v = chars_of("https://covers.openlibrary.org/b/id/");
    push_signed_decimal(&mut v, id);
    push_str(&mut v, "-L.jpg");
    string_of(&v)
}

/// The prefix of every Open Library reference.
pub open spec fn ref_prefix() -> Seq<char> {
    "openlibrary:"@
}

/// The work OLID inside an `openlibrary:OL…W` reference: what follows the
/// prefix, if that is not empty.
pub fn olid_of(reference: &str) -> (r: Option<&str>)
    ensures
        match r {
            Some(olid) => reference@.len() > ref_prefix().len() && reference@.take(
                ref_prefix().len() as int,
            ) == ref_prefix() && olid@ == reference@.skip(ref_prefix().len() as int),
            None => !(reference@.len() > ref_prefix().len() && reference@.take(
                ref_prefix().len() as int,
            ) == ref_prefix()),
        },
{
    let v = chars_of(reference);
    let p = chars_of("openlibrary:");
    proof {
        reveal_strlit("openlibrary:");
    }
    if v.len() > p.len() && crate::text::has_prefix(&v, &p) {
        let n = reference.unicode_len();
        Some(reference.substring_char(p.len(), n))
    } else {
        None
    }
}

// ---------------------------------------------------------------------
// Descriptions
// ---------------------------------------------------------------------

/// Whether `p` occurs in `s` at `i`.
pub open spec fn occurs_at(s: Seq<char>, p: Seq<char>, i: int) -> bool {
    0 <= i && i + p.len() <= s.len() && s.subrange(i, i + p.len()) == p
}

/// The first place at or after `i` where `p` occurs in `s`, or -1.
pub open spec fn find_from(s: Seq<char>, p: Seq<char>, i: int) -> int
    decreases s.len() + 1 - i,
{
    if i < 0 || i + p.len() > s.len() {
        -1
    } else if occurs_at(s, p, i) {
        i
    } else {
        find_from(s, p, i + 1)
    }
}

/// `s` up to the first `p` in it (all of it when there is none).
pub open spec fn before_first(s: Seq<char>, p: Seq<char>) -> Seq<char> {
    let k = find_from(s, p, 0);
    if k >= 0 {
        s.take(k)
    } else {
        s
    }
}

proof fn lemma_find_from(s: Seq<char>, p: Seq<char>, i: int)
    requires
        0 <= i,
    ensures
        find_from(s, p, i) == -1 || (i <= find_from(s, p, i) && find_from(s, p, i) + p.len()
            <= s.len()),
    decreases s.len() + 1 - i,
{
    if i + p.len() <= s.len() && !occurs_at(s, p, i) {
        lemma_find_from(s, p, i + 1);
    }
}

/// `s` up to the first `p` in it.
fn cut_before(s: &Vec<char>, p: &Vec<char>) -> (r: Vec<char>)
    ensures
        r@ == before_first(s@, p@),
{
    let mut i: usize = 0;
    while i <= s.len() && p.len() <= s.len() - i
        invariant
            find_from(s@, p@, 0) == find_from(s@, p@, i as int),
        decreases s.len() - i,
    {
        let mut k: usize = 0;
        while k < p.len() && s[i + k] == p[k]
            invariant
                k <= p@.len(),
                i + p@.len() <= s@.len(),
                i + p.len() <= s.len(),
                s@.subrange(i as int, i + k) == p@.take(k as int),
            decreases p.len() - k,
        {
            assert(s@.subrange(i as int, i + k + 1) =~= s@.subrange(i as int, i + k).push(s@[i + k]));
            assert(p@.take(k + 1) =~= p@.take(k as int).push(p@[k as int]));
            k += 1;
        }
        if k == p.len() {
            assert(p@.take(k as int) =~= p@);
            return copy_range(s, 0, i);
        }
        assert(!occurs_at(s@, p@, i as int)) by {
            if occurs_at(s@, p@, i as int) {
                assert(s@.subrange(i as int, i + p@.len())[k as int] == s@[i + k]);
            }
        }
        i += 1;
    }
    let r = copy_range(s, 0, s.len());
    assert(r@ =~= s@);
    proof {
        lemma_find_from(s@, p@, i as int);
    }
    r
}

/// `s` with every CR LF pair turned into a lone LF.
pub open spec fn lf_only(s: Seq<char>) -> Seq<char>
    decreases s.len(),
{
    if s.len() == 0 {
        Seq::empty()
    } else if s.len() >= 2 && s[0] == '\r' && s[1] == '\n' {
        seq!['\n'] + lf_only(s.skip(2))
    } else {
        seq![s[0]] + lf_only(s.skip(1))
    }
}

fn to_lf_only(s: &Vec<char>) -> (r: Vec<char>)
    ensures
        r@ == lf_only(s@),
{
    let mut out: Vec<char> = Vec::new();
    let mut i: usize = 0;
    assert(s@.skip(0) =~= s@);
    assert(out@ + lf_only(s@) =~= lf_only(s@));
    while i < s.len()
        invariant
            i <= s@.len(),
            out@ + lf_only(s@.skip(i as int)) == lf_only(s@),
        decreases s.len() - i,
    {
        let ghost rest = s@.skip(i as int);
        if s[i] == '\r' && i + 1 < s.len() && s[i + 1] == '\n' {
            out.push('\n');
            assert(rest.skip(2) =~= s@.skip(i + 2));
            assert(out@ + lf_only(s@.skip(i + 2)) =~= lf_only(s@));
            i += 2;
        } else {
            out.push(s[i]);
            assert(rest.skip(1) =~= s@.skip(i + 1));
            assert(out@ + lf_only(s@.skip(i + 1)) =~= lf_only(s@));
            i += 1;
        }
    }
    assert(s@.skip(i as int) =~= Seq::<char>::empty());
    assert(out@ =~= lf_only(s@));
    out
}

/// `s` without its leading run of `c`.
pub open spec fn strip_lead(s: Seq<char>, c: char) -> Seq<char>
    decreases s.len(),
{
    if s.len() > 0 && s[0] == c {
        strip_lead(s.skip(1), c)
    } else {
        s
    }
}

/// `s` without its trailing run of `c`.
pub open spec fn strip_trail(s: Seq<char>, c: char) -> Seq<char>
    decreases s.len(),
{
    if s.len() > 0 && s.last() == c {
        strip_trail(s.drop_last(), c)
    } else {
        s
    }
}

/// `s` with every `c` at either end removed.
pub open spec fn trim_char(s: Seq<char>, c: char) -> Seq<char> {
    strip_trail(strip_lead(s, c), c)
}

/// A link's label shown as plain text: emphasis stars and underscores
/// around it dropped.
pub open spec fn link_text(label: Seq<char>) -> Seq<char> {
    trim_char(trim_char(label, '*'), '_')
}

/// What follows a link's label once its target, `(url)` or `[ref]`, is
/// swallowed: an unterminated target swallows everything.
pub open spec fn after_target(rest: Seq<char>) -> Seq<char> {
    if rest.len() > 0 && (rest[0] == '(' || rest[0] == '[') {
        let close = if rest[0] == '(' {
            ')'
        } else {
            ']'
        };
        let k = index_of(rest.skip(1), close);
        if k >= 0 {
            rest.skip(k + 2)
        } else {
            Seq::empty()
        }
    } else {
        rest
    }
}

/// Swallowing a target never lengthens what follows.
pub proof fn lemma_after_target_len(rest: Seq<char>)
    ensures
        after_target(rest).len() <= rest.len(),
{
    if rest.len() > 0 && (rest[0] == '(' || rest[0] == '[') {
        let close = if rest[0] == '(' {
            ')'
        } else {
            ']'
        };
        crate::text::lemma_index_of_from_bounds(rest.skip(1), close, 0);
    }
}

/// Markdown flattened to plain text: `[text](url)` and `[text][ref]`
/// become `text`, emphasis markers go; an unterminated `[` is kept with
/// everything after it.
pub open spec fn flatten_md(s: Seq<char>) -> Seq<char>
    decreases s.len(),
{
    if s.len() == 0 {
        Seq::empty()
    } else if s[0] == '[' {
        let close = index_of(s.skip(1), ']');
        if close < 0 {
            seq!['['] + s.skip(1)
        } else {
            proof {
                crate::text::lemma_index_of_from_bounds(s.skip(1), ']', 0);
                lemma_after_target_len(s.skip(close + 2));
            }
            link_text(s.subrange(1, close + 1)) + flatten_md(after_target(s.skip(close + 2)))
        }
    } else if s[0] == '*' || s[0] == '_' {
        flatten_md(s.skip(1))
    } else {
        seq![s[0]] + flatten_md(s.skip(1))
    }
}

fn trim_char_exec(v: &Vec<char>, c: char) -> (r: Vec<char>)
    ensures
        r@ == trim_char(v@, c),
{
    let mut a: usize = 0;
    assert(v@.skip(0) =~= v@);
    while a < v.len() && v[a] == c
        invariant
            a <= v@.len(),
            strip_lead(v@.skip(a as int), c) == strip_lead(v@, c),
        decreases v.len() - a,
    {
        assert(v@.skip(a as int).skip(1) =~= v@.skip(a + 1));
        a += 1;
    }
    let mut b: usize = v.len();
    let ghost lead = v@.skip(a as int);
    assert(lead == strip_lead(v@, c));
    assert(v@.subrange(a as int, b as int) =~= lead);
    while b > a && v[b - 1] == c
        invariant
            a <= b <= v@.len(),
            lead == strip_lead(v@, c),
            strip_trail(v@.subrange(a as int, b as int), c) == strip_trail(lead, c),
        decreases b,
    {
        assert(v@.subrange(a as int, b as int).drop_last() =~= v@.subrange(a as int, b - 1));
        b -= 1;
    }
    copy_range(v, a, b)
}

/// Plain text from a Markdown-ish description: link targets dropped,
/// emphasis removed.
fn flatten_markdown(s: &Vec<char>) -> (r: Vec<char>)
    ensures
        r@ == flatten_md(s@),
{
    let n = s.len();
    let mut out: Vec<char> = Vec::new();
    let mut i: usize = 0;
    assert(s@.skip(0) =~= s@);
    assert(out@ + flatten_md(s@) =~= flatten_md(s@));
    while i < n
        invariant
            i <= n,
            n == s@.len(),
            out@ + flatten_md(s@.skip(i as int)) == flatten_md(s@),
        decreases n - i,
    {
        let ghost rest = s@.skip(i as int);
        let c = s[i];
        if c == '[' {
            let tail = copy_range(s, i + 1, n);
            assert(tail@ =~= rest.skip(1));
            match find_char(&tail, ']') {
                None => {
                    out.push('[');
                    push_all(&mut out, &tail);
                    assert(s@.skip(n as int) =~= Seq::<char>::empty());
                    assert(out@ + flatten_md(s@.skip(n as int)) =~= flatten_md(s@));
                    i = n;
                },
                Some(close) => {
                    let label = copy_range(&tail, 0, close);
                    assert(label@ =~= rest.subrange(1, close + 1));
                    let text = trim_char_exec(&trim_char_exec(&label, '*'), '_');
                    push_all(&mut out, &text);
                    let k = i + close + 2;
                    let ghost after = rest.skip(close + 2);
                    assert(after =~= s@.skip(k as int));
                    if k < n && (s[k] == '(' || s[k] == '[') {
                        let closer = if s[k] == '(' {
                            ')'
                        } else {
                            ']'
                        };
                        let target = copy_range(s, k + 1, n);
                        assert(target@ =~= after.skip(1));
                        match find_char(&target, closer) {
                            Some(m) => {
                                assert(after.skip(m + 2) =~= s@.skip(k + m + 2));
                                i = k + m + 2;
                            },
                            None => {
                                assert(s@.skip(n as int) =~= Seq::<char>::empty());
                                i = n;
                            },
                        }
                    } else {
                        i = k;
                    }
                    assert(out@ + flatten_md(s@.skip(i as int)) =~= flatten_md(s@));
                },
            }
        } else if c == '*' || c == '_' {
            assert(rest.skip(1) =~= s@.skip(i + 1));
            i += 1;
        } else {
            out.push(c);
            assert(rest.skip(1) =~= s@.skip(i + 1));
            assert(out@ + flatten_md(s@.skip(i + 1)) =~= flatten_md(s@));
            i += 1;
        }
    }
    assert(s@.skip(i as int) =~= Seq::<char>::empty());
    assert(out@ =~= flatten_md(s@));
    out
}

/// The lines of `s` read so far, and the line being read.
pub open spec fn line_state(s: Seq<char>) -> (Seq<Seq<char>>, Seq<char>)
    decreases s.len(),
{
    if s.len() == 0 {
        (Seq::empty(), Seq::empty())
    } else {
        let (done, cur) = line_state(s.drop_last());
        if s.last() == '\n' {
            (done.push(cur), Seq::empty())
        } else {
            (done, cur.push(s.last()))
        }
    }
}

/// `s` split at every line feed (one more line than there are line feeds).
pub open spec fn lines_of(s: Seq<char>) -> Seq<Seq<char>> {
    let (done, cur) = line_state(s);
    done.push(cur)
}

/// Lines joined with line feeds.
pub open spec fn join_lines(ls: Seq<Seq<char>>) -> Seq<char>
    decreases ls.len(),
{
    if ls.len() == 0 {
        Seq::empty()
    } else if ls.len() == 1 {
        ls[0]
    } else {
        join_lines(ls.drop_last()) + seq!['\n'] + ls.last()
    }
}

/// Every line's trailing white space dropped, then the whole trimmed.
pub open spec fn tidy_lines(s: Seq<char>) -> Seq<char> {
    trim(join_lines(lines_of(s).map_values(|l: Seq<char>| trim_end(l))))
}

/// An Open Library description made fit for `<dc:description>`: cut
/// before a trailing separator or source attribution, line breaks
/// normalized, Markdown links flattened to their text (targets, spam
/// included, dropped), emphasis removed, line ends and the whole trimmed.
pub open spec fn cleaned_description(text: Seq<char>) -> Seq<char> {
    let cut = before_first(
        before_first(before_first(text, "\n----------"@), "\r\n\r\n([source]"@),
        "\n([source]"@,
    );
    tidy_lines(flatten_md(lf_only(cut)))
}

fn trim_end_copy(v: &Vec<char>) -> (r: Vec<char>)
    ensures
        r@ == trim_end(v@),
{
    let j = crate::text::trim_end_index(v, v.len());
    assert(v@.take(v@.len() as int) =~= v@);
    copy_range(v, 0, j)
}

fn tidy(s: &Vec<char>) -> (r: Vec<char>)
    ensures
        r@ == tidy_lines(s@),
{
    let mut out: Vec<char> = Vec::new();
    let mut cur: Vec<char> = Vec::new();
    let ghost mut done: Seq<Seq<char>> = Seq::empty();
    let mut any = false;
    let mut i: usize = 0;
    assert(s@.take(0) =~= Seq::<char>::empty());
    while i < s.len()
        invariant
            i <= s@.len(),
            line_state(s@.take(i as int)) == (done, cur@),
            any == (done.len() > 0),
            out@ == join_lines(done.map_values(|l: Seq<char>| trim_end(l))),
        decreases s.len() - i,
    {
        let c = s[i];
        assert(s@.take(i + 1).drop_last() =~= s@.take(i as int));
        if c == '\n' {
            let t = trim_end_copy(&cur);
            let ghost before = done.map_values(|l: Seq<char>| trim_end(l));
            if any {
                out.push('\n');
            }
            push_all(&mut out, &t);
            proof {
                let next = done.push(cur@);
                assert(next.map_values(|l: Seq<char>| trim_end(l)) =~= before.push(trim_end(cur@)));
                assert(before.push(trim_end(cur@)).drop_last() =~= before);
                done = next;
            }
            any = true;
            cur = Vec::new();
        } else {
            cur.push(c);
        }
        i += 1;
    }
    assert(s@.take(s@.len() as int) =~= s@);
    let t = trim_end_copy(&cur);
    let ghost before = done.map_values(|l: Seq<char>| trim_end(l));
    if any {
        out.push('\n');
    }
    push_all(&mut out, &t);
    proof {
        let all = done.push(cur@);
        assert(all == lines_of(s@));
        assert(all.map_values(|l: Seq<char>| trim_end(l)) =~= before.push(trim_end(cur@)));
        assert(before.push(trim_end(cur@)).drop_last() =~= before);
        if !any {
            assert(before.len() == 0);
            assert(out@ =~= join_lines(before.push(trim_end(cur@))));
        }
        assert(out@ == join_lines(lines_of(s@).map_values(|l: Seq<char>| trim_end(l))));
    }
    crate::text::trimmed(&out)
}

/// Turn an Open Library description into something fit for
/// `<dc:description>`: plain text, without the attribution block, Markdown
/// emphasis or link targets (which are sometimes spam).
pub fn clean_description(text: &str) -> (r: String)
    ensures
        r@ == cleaned_description(text@),
{
    let v = chars_of(text);
    let a = cut_before(&v, &chars_of("\n----------"));
    let b = cut_before(&a, &chars_of("\r\n\r\n([source]"));
    let c = cut_before(&b, &chars_of("\n([source]"));
    let lf = to_lf_only(&c);
    let flat = flatten_markdown(&lf);
    string_of(&tidy(&flat))
}

// ---------------------------------------------------------------------
// Records
// ---------------------------------------------------------------------

/// A description's text, whichever shape it came in.
pub open spec fn description_text(d: Description) -> Seq<char> {
    match d {
        Description::Text(s) => s@,
        Description::Typed { value } => value@,
    }
}

/// The first positive id in `ids` at or after `i`.
pub open spec fn first_positive_from(ids: Seq<i64>, i: int) -> Option<i64>
    decreases ids.len() - i,
{
    if i < 0 || i >= ids.len() {
        None
    } else if ids[i] > 0 {
        Some(ids[i])
    } else {
        first_positive_from(ids, i + 1)
    }
}

/// The cover URL spelled out for a cover id.
pub open spec fn cover_url_of(id: int) -> Seq<char> {
    "https://covers.openlibrary.org/b/id/"@ + signed_decimal(id) + "-L.jpg"@
}

/// The strings' characters.
pub open spec fn string_views(v: Seq<String>) -> Seq<Seq<char>> {
    v.map_values(|s: String| s@)
}

/// At most the first twelve of `v`: Open Library's subject lists run long.
pub open spec fn first_twelve(v: Seq<String>) -> Seq<String> {
    if v.len() > 12 {
        v.take(12)
    } else {
        v
    }
}

/// At most twelve subjects are taken, the first ones, in order.
pub proof fn law_at_most_twelve_subjects(v: Seq<String>)
    ensures
        first_twelve(v).len() == if v.len() > 12 {
            12
        } else {
            v.len()
        },
        forall|i: int| 0 <= i < first_twelve(v).len() ==> #[trigger] first_twelve(v)[i] == v[i],
{
}

/// Whether `a` and `b` agree on every field a work record leaves alone.
pub open spec fn same_but_description_and_subjects(a: MetadataDoc, b: MetadataDoc) -> bool {
    &&& a.title == b.title
    &&& a.authors == b.authors
    &&& a.contributors == b.contributors
    &&& a.language == b.language
    &&& a.identifier == b.identifier
    &&& a.identifiers == b.identifiers
    &&& a.isbn == b.isbn
    &&& a.publisher == b.publisher
    &&& a.date == b.date
    &&& a.rights == b.rights
    &&& a.series == b.series
    &&& a.series_index == b.series_index
    &&& a.cover == b.cover
}

fn first_twelve_of(v: Vec<String>) -> (r: Vec<String>)
    ensures
        r@ == first_twelve(v@),
{
    let mut v = v;
    let ghost all = v@;
    v.truncate(12);
    assert(v@ =~= first_twelve(all));
    v
}

/// The first positive id in `ids`.
fn first_positive(ids: &Vec<i64>) -> (r: Option<i64>)
    ensures
        r == first_positive_from(ids@, 0),
{
    let mut i: usize = 0;
    while i < ids.len()
        invariant
            i <= ids@.len(),
            first_positive_from(ids@, 0) == first_positive_from(ids@, i as int),
        decreases ids.len() - i,
    {
        if ids[i] > 0 {
            return Some(ids[i]);
        }
        i += 1;
    }
    None
}

/// Fold a work record (its description, subject list and cover ids) into
/// a candidate's metadata: a non-empty cleaned description replaces the
/// old one, a non-empty subject list (at most twelve) replaces the old one,
/// and the first positive cover id gives a cover URL when there is none
/// yet.
pub fn merge_work_record(
    description: Option<Description>,
    subjects: Vec<String>,
    covers: &Vec<i64>,
    doc: &mut MetadataDoc,
    cover_url_out: &mut Option<String>,
)
    ensures
        same_but_description_and_subjects(*old(doc), *final(doc)),
        match description {
            Some(d) if cleaned_description(description_text(d)).len() > 0 => opt_view(
                final(doc).description,
            ) == Some(cleaned_description(description_text(d))),
            _ => final(doc).description == old(doc).description,
        },
        subjects@.len() > 0 ==> (final(doc).subjects matches Some(OneOrMany::Many(v)) && v@
            == first_twelve(subjects@)),
        subjects@.len() == 0 ==> final(doc).subjects == old(doc).subjects,
        match (*old(cover_url_out), first_positive_from(covers@, 0)) {
            (None, Some(id)) => opt_view(*final(cover_url_out)) == Some(cover_url_of(id as int)),
            _ => *final(cover_url_out) == *old(cover_url_out),
        },
{
    if let Some(d) = description {
        let text = clean_description(d.into_string().as_str());
        if chars_of(text.as_str()).len() > 0 {
            doc.description = Some(text);
        }
    }
    if subjects.len() > 0 {
        doc.subjects = Some(OneOrMany::Many(first_twelve_of(subjects)));
    }
    if cover_url_out.is_none() {
        if let Some(id) = first_positive(covers) {
            *cover_url_out = Some(cover_url(id));
        }
    }
}

/// `key` after its last `/` (all of it without one).
pub open spec fn last_segment(key: Seq<char>) -> Seq<char> {
    key.skip(crate::text::last_index_of(key, '/') + 1)
}

/// The reference handed out for a search result with work key `key`
/// (e.g. `/works/OL262758W` gives `openlibrary:OL262758W`).
pub fn work_ref(key: &str) -> (r: String)
    ensures
        r@ == ref_prefix() + last_segment(key@),
{
    let v = chars_of(key);
    let n = v.len();
    let from = match crate::text::rfind_char(&v, '/') {
        Some(i) => {
            assert(i < n);
            i + 1
        },
        None => 0,
    };
    let mut out = chars_of("openlibrary:");
    let tail = copy_range(&v, from, n);
    push_all(&mut out, &tail);
    proof {
        crate::text::lemma_last_index_of_bounds(key@, '/', key@.len() as int);
    }
    assert(tail@ =~= last_segment(key@));
    string_of(&out)
}

/// Creators named by `names`, in order, with no sort form or role.
pub open spec fn named_creators(names: Seq<String>, creators: Seq<Creator>) -> bool {
    &&& creators.len() == names.len()
    &&& forall|i: int|
        0 <= i < names.len() ==> (#[trigger] creators[i]).name@ == names[i]@ && creators[i].file_as
            is None && creators[i].role is None
}

/// The first of `v`, if any.
pub open spec fn first_of(v: Seq<String>) -> Option<Seq<char>> {
    if v.len() > 0 {
        Some(v[0]@)
    } else {
        None
    }
}

fn first_copy(v: &Vec<String>) -> (r: Option<String>)
    ensures
        opt_view(r) == first_of(v@),
{
    if v.len() > 0 {
        Some(crate::model::copy_string(&v[0]))
    } else {
        None
    }
}

/// The metadata a search result offers: its title, authors, first
/// publisher, first twelve subjects, first publication year and first
/// ISBN. Language is never taken from Open Library: it is a per-edition
/// field in a different code system than the book's.
pub fn search_metadata(
    title: Option<String>,
    author_name: &Vec<String>,
    publisher: &Vec<String>,
    first_publish_year: Option<i64>,
    subject: Vec<String>,
    isbn: &Vec<String>,
) -> (doc: MetadataDoc)
    ensures
        doc.title == title,
        author_name@.len() == 0 ==> doc.authors is None,
        author_name@.len() > 0 ==> (doc.authors matches Some(OneOrMany::Many(v)) && named_creators(
            author_name@,
            v@,
        )),
        doc.contributors is None,
        doc.language is None,
        doc.identifier is None,
        doc.identifiers is None,
        opt_view(doc.isbn) == first_of(isbn@),
        doc.description is None,
        opt_view(doc.publisher) == first_of(publisher@),
        subject@.len() == 0 ==> doc.subjects is None,
        subject@.len() > 0 ==> (doc.subjects matches Some(OneOrMany::Many(v)) && v@ == first_twelve(
            subject@,
        )),
        opt_view(doc.date) == match first_publish_year {
            Some(y) => Some(signed_decimal(y as int)),
            None => None,
        },
        doc.rights is None,
        doc.series is None,
        doc.series_index is None,
        doc.cover is None,
{
    let authors = if author_name.len() > 0 {
        let mut cs: Vec<Creator> = Vec::new();
        let mut i: usize = 0;
        while i < author_name.len()
            invariant
                i <= author_name@.len(),
                cs@.len() == i,
                forall|k: int|
                    0 <= k < i ==> (#[trigger] cs@[k]).name@ == author_name@[k]@ && cs@[k].file_as
                        is None && cs@[k].role is None,
            decreases author_name.len() - i,
        {
            cs.push(Creator::new(author_name[i].as_str()));
            i += 1;
        }
        Some(OneOrMany::Many(cs))
    } else {
        None
    };
    let subjects = if subject.len() > 0 {
        Some(OneOrMany::Many(first_twelve_of(subject)))
    } else {
        None
    };
    let date = match first_publish_year {
        Some(y) => {
            let mut v: Vec<char> = Vec::new();
            push_signed_decimal(&mut v, y);
            Some(string_of(&v))
        },
        None => None,
    };
    MetadataDoc {
        title,
        authors,
        contributors: None,
        language: None,
        identifier: None,
        identifiers: None,
        isbn: first_copy(isbn),
        description: None,
        publisher: first_copy(publisher),
        subjects,
        date,
        rights: None,
        series: None,
        series_index: None,
        cover: None,
    }
}

} // verus!
