//! Assembling a book from a Markdown source's chapters. Parsing the
//! Markdown, rendering each chapter's XHTML and resolving its images are
//! done outside this library; what comes in is each chapter as rendered,
//! with the image resources its rendering added. What is decided here is
//! the book's title and language, each chapter's path and title, the
//! reading order, the table of contents and the order of the resources.

use indexmap::IndexMap;
use vstd::prelude::*;

use crate::book::{
    entry_of, key_index, new_resources, resource_entries, resource_insert, Book, Resource,
};
use crate::frontmatter::Frontmatter;
use crate::model::{Creator, Metadata, TocEntry};
use crate::report::{warning_view, Warning};
use crate::text::{chars_of, decimal, push_decimal, push_str, string_of, trim};

verus! {

/// A sub-heading of a chapter: its title and the slug id it was given.
pub struct SubHeading {
    pub slug: String,
    pub title: String,
}

/// One chapter as rendered: whether it is the front chunk (the content
/// before the first split heading, titled with the book title), its own
/// heading text otherwise, its sub-headings, the image resources its
/// rendering added (in order), and its XHTML bytes.
pub struct RenderedChapter {
    pub front: bool,
    pub title: String,
    pub sub_headings: Vec<SubHeading>,
    pub images: Vec<(String, Resource)>,
    pub body: Vec<u8>,
}

/// The book title: the front matter's when it is not blank, else the
/// first level-one heading's text, else `Untitled`.
pub open spec fn title_spec(fm_title: Option<Seq<char>>, first_h1: Option<Seq<char>>) -> Seq<char> {
    if fm_title matches Some(t) && trim(t).len() > 0 {
        fm_title->0
    } else {
        match first_h1 {
            Some(h) => h,
            None => "Untitled"@,
        }
    }
}

/// Whether the title fell back to `Untitled` (which is warned about).
pub open spec fn untitled(fm_title: Option<Seq<char>>, first_h1: Option<Seq<char>>) -> bool {
    !(fm_title matches Some(t) && trim(t).len() > 0) && first_h1 is None
}

/// The warning for a book with no title anywhere.
pub open spec fn untitled_warning() -> (Seq<char>, Option<Seq<char>>) {
    ("no title in frontmatter and no H1 heading found; using \"Untitled\""@, None)
}

/// Resolve the book title: the front matter's, else the first level-one
/// heading's, else `Untitled`, with a warning.
pub fn resolve_title(
    fm_title: &Option<String>,
    first_h1: Option<String>,
    warnings: &mut Vec<Warning>,
) -> (r: String)
    ensures
        r@ == title_spec(crate::model::opt_view(*fm_title), crate::model::opt_view(first_h1)),
        (*fm_title matches Some(t) && trim(t@).len() > 0) ==> r == fm_title->0,
        (fm_title is None || trim(fm_title->0@).len() == 0) && first_h1 is Some ==> r
            == first_h1->0 && final(warnings)@ == old(warnings)@,
        (fm_title is None || trim(fm_title->0@).len() == 0) && first_h1 is None ==> r@
            == "Untitled"@,
        final(warnings)@.map_values(|w: Warning| warning_view(w)) == old(warnings)@.map_values(
            |w: Warning| warning_view(w),
        ) + if untitled(crate::model::opt_view(*fm_title), crate::model::opt_view(first_h1)) {
            seq![untitled_warning()]
        } else {
            Seq::empty()
        },
{
    let ghost before = warnings@.map_values(|w: Warning| warning_view(w));
    if let Some(t) = fm_title {
        let v = chars_of(t.as_str());
        let (a, b) = crate::text::trim_bounds(&v);
        if a < b {
            assert(before + Seq::<(Seq<char>, Option<Seq<char>>)>::empty() =~= before);
            return crate::model::copy_string(t);
        }
    }
    if let Some(h) = first_h1 {
        assert(before + Seq::<(Seq<char>, Option<Seq<char>>)>::empty() =~= before);
        return h;
    }
    let mut m: Vec<char> = Vec::new();
    push_str(&mut m, "no title in frontmatter and no H1 heading found; using \"Untitled\"");
    warnings.push(Warning { message: string_of(&m), file: None });
    assert(warnings@.map_values(|w: Warning| warning_view(w)) =~= before + seq![untitled_warning()]);
    "Untitled".to_owned()
}

/// `n` in decimal, zero-padded to at least three digits.
pub open spec fn padded3(n: nat) -> Seq<char> {
    if n < 10 {
        "00"@ + decimal(n)
    } else if n < 100 {
        "0"@ + decimal(n)
    } else {
        decimal(n)
    }
}

/// The zip path of chapter `k` (counting from zero): `OEBPS/ch-001.xhtml`,
/// `OEBPS/ch-002.xhtml`, ...
pub open spec fn chapter_path_spec(k: nat) -> Seq<char> {
    "OEBPS/ch-"@ + padded3(k + 1) + ".xhtml"@
}

/// The zip path of chapter `k` (counting from zero).
pub fn chapter_path(k: usize) -> (r: String)
    requires
        k < usize::MAX,
    ensures
        r@ == chapter_path_spec(k as nat),
{
    let n = k + 1;
    let mut m: Vec<char> = Vec::new();
    push_str(&mut m, "OEBPS/ch-");
    if n < 10 {
        push_str(&mut m, "00");
    } else if n < 100 {
        push_str(&mut m, "0");
    }
    push_decimal(&mut m, n as u128);
    push_str(&mut m, ".xhtml");
    let r = string_of(&m);
    assert(r@ =~= chapter_path_spec(k as nat));
    r
}

/// A chapter's title: the book title for the front chunk, else its own.
pub open spec fn chapter_title_spec(book_title: Seq<char>, front: bool, title: Seq<char>) -> Seq<
    char,
> {
    if front {
        book_title
    } else {
        title
    }
}

/// A chapter's title: the book title for the front chunk, else its own.
pub fn chapter_title(book_title: &String, front: bool, title: &String) -> (r: String)
    ensures
        r@ == chapter_title_spec(book_title@, front, title@),
{
    if front {
        crate::model::copy_string(book_title)
    } else {
        crate::model::copy_string(title)
    }
}

/// A table-of-contents entry as plain values: title, href and level.
pub open spec fn toc_view(t: TocEntry) -> (Seq<char>, Seq<char>, nat) {
    (t.title@, t.href@, t.level as nat)
}

/// The contents entries of chapter `k`: its own, at level one, then one
/// per sub-heading, at level two, pointing at the heading's slug.
pub open spec fn chapter_toc(book_title: Seq<char>, k: nat, ch: RenderedChapter) -> Seq<
    (Seq<char>, Seq<char>, nat),
> {
    let path = chapter_path_spec(k);
    seq![(chapter_title_spec(book_title, ch.front, ch.title@), path, 1nat)]
        + ch.sub_headings@.map_values(
        |s: SubHeading| (s.title@, path + seq!['#'] + s.slug@, 2nat),
    )
}

/// The table of contents of the first `n` chapters.
pub open spec fn toc_of(book_title: Seq<char>, chs: Seq<RenderedChapter>, n: int) -> Seq<
    (Seq<char>, Seq<char>, nat),
>
    decreases n,
{
    if n <= 0 {
        Seq::empty()
    } else {
        toc_of(book_title, chs, n - 1) + chapter_toc(book_title, (n - 1) as nat, chs[n - 1])
    }
}

/// An entry stored into entries `es` as the map stores it: in its place
/// if its path is held, else last.
pub open spec fn stored(es: Seq<(Seq<char>, Seq<u8>, Seq<char>)>, e: (Seq<char>, Seq<u8>, Seq<char>)) -> Seq<
    (Seq<char>, Seq<u8>, Seq<char>),
> {
    if key_index(es, e.0) >= 0 {
        es.update(key_index(es, e.0), e)
    } else {
        es.push(e)
    }
}

/// Entries `es` after storing each of `more` in turn.
pub open spec fn stored_all(
    es: Seq<(Seq<char>, Seq<u8>, Seq<char>)>,
    more: Seq<(Seq<char>, Seq<u8>, Seq<char>)>,
) -> Seq<(Seq<char>, Seq<u8>, Seq<char>)>
    decreases more.len(),
{
    if more.len() == 0 {
        es
    } else {
        stored(stored_all(es, more.drop_last()), more.last())
    }
}

/// The entries chapter `k` stores: its images, then itself.
pub open spec fn chapter_entries(k: nat, ch: RenderedChapter) -> Seq<(Seq<char>, Seq<u8>, Seq<char>)> {
    ch.images@.map_values(|p: (String, Resource)| entry_of(p.0@, p.1)).push(
        (chapter_path_spec(k), ch.body@, "application/xhtml+xml"@),
    )
}

/// What the first `n` chapters store, in order.
pub open spec fn chapters_entries(chs: Seq<RenderedChapter>, n: int) -> Seq<
    (Seq<char>, Seq<u8>, Seq<char>),
>
    decreases n,
{
    if n <= 0 {
        Seq::empty()
    } else {
        chapters_entries(chs, n - 1) + chapter_entries((n - 1) as nat, chs[n - 1])
    }
}

/// The package document's placeholder entry: its bytes are regenerated
/// when the book is written.
pub open spec fn opf_entry() -> (Seq<char>, Seq<u8>, Seq<char>) {
    ("OEBPS/content.opf"@, Seq::empty(), "application/oebps-package+xml"@)
}

/// Storing `a` then `b` is storing `a + b`.
proof fn lemma_stored_all_append(
    es: Seq<(Seq<char>, Seq<u8>, Seq<char>)>,
    a: Seq<(Seq<char>, Seq<u8>, Seq<char>)>,
    b: Seq<(Seq<char>, Seq<u8>, Seq<char>)>,
)
    ensures
        stored_all(stored_all(es, a), b) == stored_all(es, a + b),
    decreases b.len(),
{
    if b.len() == 0 {
        assert(a + b =~= a);
    } else {
        lemma_stored_all_append(es, a, b.drop_last());
        assert((a + b).drop_last() =~= a + b.drop_last());
        assert((a + b).last() == b.last());
    }
}

/// Store each of `items` into `resources`, in order.
fn store_all(resources: &mut IndexMap<String, Resource>, items: Vec<(String, Resource)>)
    ensures
        resource_entries(*final(resources)) == stored_all(
            resource_entries(*old(resources)),
            items@.map_values(|p: (String, Resource)| entry_of(p.0@, p.1)),
        ),
{
    let ghost es0 = resource_entries(*resources);
    let ghost iv = items@.map_values(|p: (String, Resource)| entry_of(p.0@, p.1));
    let ghost n = items@.len();
    let mut rest = items;
    let ghost mut j: int = 0;
    while rest.len() > 0
        invariant
            0 <= j <= n,
            iv.len() == n,
            rest@.len() == n - j,
            forall|k: int| 0 <= k < rest@.len() ==> entry_of(#[trigger] rest@[k].0@, rest@[k].1) == iv[j + k],
            resource_entries(*resources) == stored_all(es0, iv.take(j)),
        decreases rest.len(),
    {
        let ghost before = rest@;
        let (path, res) = rest.remove(0);
        assert(entry_of(path@, res) == iv[j]);
        assert forall|k: int| 0 <= k < rest@.len() implies entry_of(#[trigger] rest@[k].0@, rest@[k].1)
            == iv[j + 1 + k] by {
            assert(rest@[k] == before[k + 1]);
        }
        resource_insert(resources, path, res);
        assert(iv.take(j + 1).drop_last() =~= iv.take(j));
        proof {
            j = j + 1;
        }
    }
    assert(iv.take(j) =~= iv);
}

/// Build a book from a Markdown source's front matter, the text of its
/// first level-one heading, its chapters as rendered, and its cover (the
/// path its reference resolved to, with the resources resolving it
/// added). The package document gets a placeholder entry first; each
/// chapter stores its images, then itself, as `OEBPS/ch-NNN.xhtml`, in
/// reading order; the contents list each chapter, then its sub-headings.
pub fn build_book(
    frontmatter: &Frontmatter,
    first_h1: Option<String>,
    chapters: Vec<RenderedChapter>,
    cover: Option<String>,
    cover_images: Vec<(String, Resource)>,
    warnings: &mut Vec<Warning>,
) -> (book: Book)
    requires
        chapters@.len() < usize::MAX,
    ensures
        ({
            let title = title_spec(crate::model::opt_view(frontmatter.title), crate::model::opt_view(first_h1));
            let n = chapters@.len() as int;
            &&& book.metadata.title@ == title
            &&& book.metadata.language@ == match frontmatter.language {
                Some(l) => l@,
                None => "en"@,
            }
            &&& book.metadata.authors@.map_values(|c: Creator| c.name@) == frontmatter.authors@.map_values(
                |a: String| a@,
            )
            &&& book.metadata.identifier is None
            &&& resource_entries(book.resources) == stored_all(
                stored_all(seq![opf_entry()], chapters_entries(chapters@, n)),
                cover_images@.map_values(|p: (String, Resource)| entry_of(p.0@, p.1)),
            )
            &&& book.spine@.map_values(|s: String| s@) == Seq::new(
                n as nat,
                |k: int| chapter_path_spec(k as nat),
            )
            &&& book.toc@.map_values(|t: TocEntry| toc_view(t)) == toc_of(title, chapters@, n)
            &&& book.cover == cover
            &&& book.opf_path@ == "OEBPS/content.opf"@
            &&& book.nav_path is None
            &&& book.ncx_path is None
            &&& final(warnings)@.map_values(|w: Warning| warning_view(w)) == old(warnings)@.map_values(
                |w: Warning| warning_view(w),
            ) + if untitled(crate::model::opt_view(frontmatter.title), crate::model::opt_view(first_h1)) {
                seq![untitled_warning()]
            } else {
                Seq::empty()
            }
        }),
{
    let ghost chs = chapters@;
    let n = chapters.len();
    let title = resolve_title(&frontmatter.title, first_h1, warnings);
    let language = match &frontmatter.language {
        Some(l) => crate::model::copy_string(l),
        None => "en".to_owned(),
    };
    let mut authors: Vec<Creator> = Vec::new();
    let mut a: usize = 0;
    while a < frontmatter.authors.len()
        invariant
            a <= frontmatter.authors@.len(),
            authors@.map_values(|c: Creator| c.name@) == frontmatter.authors@.take(a as int).map_values(
                |s: String| s@,
            ),
        decreases frontmatter.authors.len() - a,
    {
        let ghost before = authors@.map_values(|c: Creator| c.name@);
        let c = Creator::new(frontmatter.authors[a].as_str());
        authors.push(c);
        assert(authors@.map_values(|c: Creator| c.name@) =~= before.push(frontmatter.authors@[a as int]@));
        assert(frontmatter.authors@.take(a + 1).map_values(|s: String| s@) =~= frontmatter.authors@.take(
            a as int,
        ).map_values(|s: String| s@).push(frontmatter.authors@[a as int]@));
        assert(authors@.map_values(|c: Creator| c.name@) =~= frontmatter.authors@.take(a + 1).map_values(
            |s: String| s@,
        ));
        a += 1;
    }
    assert(frontmatter.authors@.take(a as int) =~= frontmatter.authors@);
    let mut resources: IndexMap<String, Resource> = new_resources();
    resource_insert(
        &mut resources,
        "OEBPS/content.opf".to_owned(),
        Resource { data: Vec::new(), media_type: "application/oebps-package+xml".to_owned() },
    );
    assert(resource_entries(resources) =~= seq![opf_entry()]);
    let mut spine: Vec<String> = Vec::new();
    let mut toc: Vec<TocEntry> = Vec::new();
    let mut rest = chapters;
    let mut i: usize = 0;
    while i < n
        invariant
            i <= n,
            n == chs.len(),
            n < usize::MAX,
            rest@ == chs.skip(i as int),
            resource_entries(resources) == stored_all(seq![opf_entry()], chapters_entries(chs, i as int)),
            spine@.map_values(|s: String| s@) == Seq::new(i as nat, |k: int| chapter_path_spec(k as nat)),
            toc@.map_values(|t: TocEntry| toc_view(t)) == toc_of(title@, chs, i as int),
        decreases n - i,
    {
        let ch = rest.remove(0);
        assert(ch == chs[i as int]);
        assert(rest@ =~= chs.skip(i + 1));
        let RenderedChapter { front, title: own, sub_headings, images, body } = ch;
        let path = chapter_path(i);
        let ctitle = chapter_title(&title, front, &own);
        // Contents: the chapter, then its sub-headings.
        let ghost t0 = toc@.map_values(|t: TocEntry| toc_view(t));
        toc.push(TocEntry { title: ctitle, href: crate::model::copy_string(&path), level: 1 });
        let mut s: usize = 0;
        while s < sub_headings.len()
            invariant
                s <= sub_headings@.len(),
                toc@.map_values(|t: TocEntry| toc_view(t)) == t0 + seq![(chapter_title_spec(title@, front, own@), path@, 1nat)]
                    + sub_headings@.take(s as int).map_values(
                    |h: SubHeading| (h.title@, path@ + seq!['#'] + h.slug@, 2nat),
                ),
            decreases sub_headings.len() - s,
        {
            let ghost tb = toc@.map_values(|t: TocEntry| toc_view(t));
            let mut href = chars_of(path.as_str());
            href.push('#');
            crate::text::push_all(&mut href, &chars_of(sub_headings[s].slug.as_str()));
            assert(href@ =~= path@ + seq!['#'] + sub_headings@[s as int].slug@);
            let entry = TocEntry {
                title: crate::model::copy_string(&sub_headings[s].title),
                href: string_of(&href),
                level: 2,
            };
            assert(toc_view(entry) == (sub_headings@[s as int].title@, path@ + seq!['#'] + sub_headings@[s as int].slug@, 2nat));
            toc.push(entry);
            assert(sub_headings@.take(s + 1) =~= sub_headings@.take(s as int).push(sub_headings@[s as int]));
            assert(toc@.map_values(|t: TocEntry| toc_view(t)) =~= tb.push(
                (sub_headings@[s as int].title@, path@ + seq!['#'] + sub_headings@[s as int].slug@, 2nat),
            ));
            assert(toc@.map_values(|t: TocEntry| toc_view(t)) =~= t0 + seq![(chapter_title_spec(title@, front, own@), path@, 1nat)]
                + sub_headings@.take(s + 1).map_values(
                |h: SubHeading| (h.title@, path@ + seq!['#'] + h.slug@, 2nat),
            ));
            s += 1;
        }
        assert(sub_headings@.take(s as int) =~= sub_headings@);
        assert(toc@.map_values(|t: TocEntry| toc_view(t)) =~= toc_of(title@, chs, i + 1));
        // Resources: the chapter's images, then the chapter.
        let ghost e0 = resource_entries(resources);
        let ghost iv = images@.map_values(|p: (String, Resource)| entry_of(p.0@, p.1));
        store_all(&mut resources, images);
        resource_insert(
            &mut resources,
            crate::model::copy_string(&path),
            Resource { data: body, media_type: "application/xhtml+xml".to_owned() },
        );
        proof {
            let ce = chapter_entries(i as nat, chs[i as int]);
            assert(ce.drop_last() =~= iv);
            assert(resource_entries(resources) == stored_all(e0, ce));
            lemma_stored_all_append(seq![opf_entry()], chapters_entries(chs, i as int), ce);
        }
        let ghost sb = spine@.map_values(|s: String| s@);
        let ghost pv = path@;
        spine.push(path);
        assert(spine@.map_values(|s: String| s@) =~= sb.push(pv));
        assert(spine@.map_values(|s: String| s@) =~= Seq::new((i + 1) as nat, |k: int| chapter_path_spec(k as nat)));
        i += 1;
    }
    store_all(&mut resources, cover_images);
    let metadata = Metadata {
        title,
        authors,
        contributors: Vec::new(),
        language,
        identifier: None,
        identifier_scheme: None,
        identifiers: Vec::new(),
        description: None,
        publisher: None,
        subjects: Vec::new(),
        date: None,
        rights: None,
        series: None,
    };
    Book {
        metadata,
        resources,
        spine,
        toc,
        cover,
        opf_path: "OEBPS/content.opf".to_owned(),
        nav_path: None,
        ncx_path: None,
    }
}

/// The book title is the front matter's when it has a non-blank one; else
/// the first level-one heading's, without a warning; else `Untitled`, with
/// the warning.
pub proof fn law_title_fallbacks(fm_title: Option<Seq<char>>, first_h1: Option<Seq<char>>)
    ensures
        (fm_title matches Some(t) && trim(t).len() > 0) ==> title_spec(fm_title, first_h1)
            == fm_title->0 && !untitled(fm_title, first_h1),
        (fm_title is None || trim(fm_title->0).len() == 0) && first_h1 is Some ==> title_spec(
            fm_title,
            first_h1,
        ) == first_h1->0 && !untitled(fm_title, first_h1),
        (fm_title is None || trim(fm_title->0).len() == 0) && first_h1 is None ==> title_spec(
            fm_title,
            first_h1,
        ) == "Untitled"@ && untitled(fm_title, first_h1),
{
}

/// How many digits `n` has, by its size.
proof fn lemma_decimal_digits(n: nat)
    ensures
        n < 10 ==> decimal(n).len() == 1,
        10 <= n < 100 ==> decimal(n).len() == 2,
        n >= 100 ==> decimal(n).len() >= 3,
    decreases n,
{
    if n >= 10 {
        lemma_decimal_digits(n / 10);
    }
}

/// Chapter `k` (counting from zero) lives at `OEBPS/ch-` followed by its
/// number counted from one, zero-padded to three digits, and `.xhtml`.
pub proof fn law_chapter_paths_are_numbered_from_one(k: nat)
    ensures
        chapter_path_spec(k) == "OEBPS/ch-"@ + Seq::new(
            (if decimal(k + 1).len() < 3 {
                3 - decimal(k + 1).len()
            } else {
                0
            }) as nat,
            |i: int| '0',
        ) + decimal(k + 1) + ".xhtml"@,
{
    lemma_decimal_digits(k + 1);
    reveal_strlit("00");
    reveal_strlit("0");
    let z = Seq::new(
        (if decimal(k + 1).len() < 3 {
            3 - decimal(k + 1).len()
        } else {
            0
        }) as nat,
        |i: int| '0',
    );
    if k + 1 < 10 {
        assert(z =~= "00"@);
    } else if k + 1 < 100 {
        assert(z =~= "0"@);
    } else {
        assert(z =~= Seq::<char>::empty());
        assert(Seq::<char>::empty() + decimal(k + 1) =~= decimal(k + 1));
    }
    assert("OEBPS/ch-"@ + z + decimal(k + 1) + ".xhtml"@ =~= "OEBPS/ch-"@ + (z + decimal(k + 1))
        + ".xhtml"@);
}

/// The contents of the first `m` chapters begin with those of the first
/// `k`.
proof fn lemma_toc_prefix(t: Seq<char>, chs: Seq<RenderedChapter>, k: int, m: int)
    requires
        0 <= k <= m,
    ensures
        toc_of(t, chs, m).len() >= toc_of(t, chs, k).len(),
        toc_of(t, chs, m).take(toc_of(t, chs, k).len() as int) == toc_of(t, chs, k),
    decreases m - k,
{
    if m > k {
        lemma_toc_prefix(t, chs, k, m - 1);
        let a = toc_of(t, chs, m - 1);
        let b = toc_of(t, chs, m);
        assert(b.take(a.len() as int) =~= a);
        assert(b.take(toc_of(t, chs, k).len() as int) =~= a.take(toc_of(t, chs, k).len() as int));
    } else {
        assert(toc_of(t, chs, m).take(toc_of(t, chs, m).len() as int) =~= toc_of(t, chs, m));
    }
}

/// In the contents, each chapter has its own level-one entry - titled
/// with the book title for the front chunk and with its heading otherwise,
/// pointing at the chapter's file - followed by one level-two entry per
/// sub-heading, pointing at the heading's slug in that file.
pub proof fn law_contents_list_each_chapter(t: Seq<char>, chs: Seq<RenderedChapter>, n: int, k: int)
    requires
        0 <= k < n <= chs.len(),
    ensures
        ({
            let base = toc_of(t, chs, k).len() as int;
            let toc = toc_of(t, chs, n);
            let path = chapter_path_spec(k as nat);
            &&& toc[base] == (if chs[k].front {
                t
            } else {
                chs[k].title@
            }, path, 1nat)
            &&& forall|j: int|
                0 <= j < chs[k].sub_headings@.len() ==> toc[base + 1 + j] == (
                    (#[trigger] chs[k].sub_headings@[j]).title@,
                    path + seq!['#'] + chs[k].sub_headings@[j].slug@,
                    2nat,
                )
        }),
{
    lemma_toc_prefix(t, chs, k + 1, n);
    let base = toc_of(t, chs, k).len() as int;
    let toc = toc_of(t, chs, n);
    let upto = toc_of(t, chs, k + 1);
    let ct = chapter_toc(t, k as nat, chs[k]);
    assert(upto == toc_of(t, chs, k) + ct);
    assert(toc[base] == upto[base]);
    assert forall|j: int| 0 <= j < chs[k].sub_headings@.len() implies toc[base + 1 + j] == (
        (#[trigger] chs[k].sub_headings@[j]).title@,
        chapter_path_spec(k as nat) + seq!['#'] + chs[k].sub_headings@[j].slug@,
        2nat,
    ) by {
        assert(toc[base + 1 + j] == upto[base + 1 + j]);
        assert(upto[base + 1 + j] == ct[1 + j]);
    }
}

} // verus!
