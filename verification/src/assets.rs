//! Local images referenced from a Markdown source, turned into book
//! resources: each schemeless reference is read once through an
//! [`AssetResolver`], stored flattened under `OEBPS/images/`, and every
//! later use of the same reference gets the same resource path. Remote or
//! unreadable references are warned about and left alone.

use indexmap::IndexMap;
use vstd::prelude::*;

use crate::book::{entries_with, resource_entries, resource_insert, Resource};
use crate::names::{ext_suffix, first_free, reserve_unique_image_path, PathSet};
use crate::paths::{has_scheme_spec, image_media_type_for, last_dot_suffix, split_ext_spec};
use crate::report::Warning;
use crate::text::{chars_of, lower_seq, push_all, push_str, same_chars, string_of};

verus! {

/// Reads the bytes a Markdown-relative image reference points at. The
/// command-line tool reads files under the Markdown file's directory;
/// tests and other embedders can supply their own (e.g. an in-memory map).
pub trait AssetResolver {
    /// Resolve `href` (a schemeless, Markdown-relative reference, exactly as
    /// written in the source) to its bytes, or `None` if it cannot be read.
    fn resolve(&self, href: &str) -> Option<Vec<u8>>;
}

/// The resource path each resolved reference went to, later entries
/// replacing earlier ones for the same reference.
pub open spec fn resolved_map_of(entries: Seq<(String, String)>) -> Map<Seq<char>, Seq<char>>
    decreases entries.len(),
{
    if entries.len() == 0 {
        Map::empty()
    } else {
        resolved_map_of(entries.drop_last()).insert(entries.last().0@, entries.last().1@)
    }
}

/// `href` with every `/` turned into `-`.
pub open spec fn flattened(href: Seq<char>) -> Seq<char> {
    href.map_values(|c: char| if c == '/' {
        '-'
    } else {
        c
    })
}

/// Resolves and dedupes every local image a Markdown chapter (or the
/// frontmatter cover) references, accumulating `OEBPS/images/...`
/// resources as it goes.
pub struct ImageRegistry<'a, R: AssetResolver> {
    resolver: &'a R,
    /// Original reference -> the resource path it was resolved to.
    resolved: Vec<(String, String)>,
    /// Every resource path already claimed.
    reserved: PathSet,
}

impl<'a, R: AssetResolver> ImageRegistry<'a, R> {
    /// Reference -> resource path for everything resolved so far.
    pub closed spec fn resolved(&self) -> Map<Seq<char>, Seq<char>> {
        resolved_map_of(self.resolved@)
    }

    /// The resource paths claimed so far.
    pub closed spec fn reserved(&self) -> Set<Seq<char>> {
        self.reserved@
    }

    /// A registry that has resolved nothing yet.
    pub fn new(resolver: &'a R) -> (r: Self)
        ensures
            r.resolved() == Map::<Seq<char>, Seq<char>>::empty(),
            r.reserved() == Set::<Seq<char>>::empty(),
    {
        ImageRegistry { resolver, resolved: Vec::new(), reserved: PathSet::new() }
    }

    /// The path `href` was already resolved to, if any.
    fn lookup(&self, href: &str) -> (r: Option<String>)
        ensures
            r is Some == self.resolved().contains_key(href@),
            r is Some ==> r->0@ == self.resolved()[href@],
    {
        let key = chars_of(href);
        let mut j: usize = self.resolved.len();
        while j > 0
            invariant
                j <= self.resolved@.len(),
                key@ == href@,
                forall|k: int|
                    j <= k < self.resolved@.len() ==> (#[trigger] self.resolved@[k]).0@ != href@,
            decreases j,
        {
            let e = &self.resolved[j - 1];
            if same_chars(&chars_of(e.0.as_str()), &key) {
                proof {
                    lemma_resolved_suffix(self.resolved@, j as int, href@);
                }
                return Some(crate::model::copy_string(&e.1));
            }
            j -= 1;
        }
        proof {
            lemma_resolved_suffix(self.resolved@, 0, href@);
            assert(self.resolved@.take(0) =~= Seq::<(String, String)>::empty());
        }
        None
    }

    /// Finish resolving `href` once its bytes were (or were not) read:
    /// unreadable references are warned about; read ones are stored under a
    /// fresh `OEBPS/images/` path derived from the flattened reference, with
    /// a media type guessed from its extension, and remembered.
    pub fn resolve_fetched(
        &mut self,
        href: &str,
        fetched: Option<Vec<u8>>,
        resources: &mut IndexMap<String, Resource>,
        warnings: &mut Vec<Warning>,
        source_path: &str,
    ) -> (r: Option<String>)
        ensures
            match fetched {
                None => {
                    &&& r is None
                    &&& final(self).resolved() == old(self).resolved()
                    &&& final(self).reserved() == old(self).reserved()
                    &&& resource_entries(*final(resources)) == resource_entries(*old(resources))
                    &&& final(warnings)@.len() == old(warnings)@.len() + 1
                    &&& final(warnings)@.drop_last() == old(warnings)@
                    &&& final(warnings)@.last().message@ == "could not resolve local image '"@
                        + href@ + "'; left the reference unchanged"@
                    &&& crate::model::opt_view(final(warnings)@.last().file) == Some(source_path@)
                },
                Some(data) => {
                    let (stem, ext) = split_ext_spec(flattened(href@));
                    &&& r is Some
                    &&& first_free(
                        old(self).reserved(),
                        "OEBPS/images/"@ + stem + ext_suffix(ext),
                        "OEBPS/images/"@ + stem + seq!['-'],
                        ext_suffix(ext),
                        2,
                        r->0@,
                    )
                    &&& !old(self).reserved().contains(r->0@)
                    &&& final(self).reserved() == old(self).reserved().insert(r->0@)
                    &&& final(self).resolved() == old(self).resolved().insert(href@, r->0@)
                    &&& resource_entries(*final(resources)) == entries_with(
                        resource_entries(*old(resources)),
                        (r->0@, data@, image_media_type_for(lower_seq(last_dot_suffix(r->0@)))),
                    )
                    &&& final(warnings)@ == old(warnings)@
                },
            },
    {
        match fetched {
            None => {
                let mut message: Vec<char> = Vec::new();
                push_str(&mut message, "could not resolve local image '");
                push_str(&mut message, href);
                push_str(&mut message, "'; left the reference unchanged");
                warnings.push(
                    Warning { message: string_of(&message), file: Some(source_path.to_owned()) },
                );
                None
            },
            Some(data) => {
                let flat = flatten_href(href);
                let path = reserve_unique_image_path(&mut self.reserved, flat.as_str());
                let media_type = crate::paths::guess_image_media_type(path.as_str());
                resource_insert(
                    resources,
                    crate::model::copy_string(&path),
                    Resource { data, media_type },
                );
                let ghost before = self.resolved@;
                self.resolved.push((href.to_owned(), crate::model::copy_string(&path)));
                assert(self.resolved@.drop_last() =~= before);
                Some(path)
            },
        }
    }

    /// Resolve `href`, storing a new resource the first time it is seen,
    /// and return its zip path. A reference already resolved gets the same
    /// path again. A remote (scheme'd) URL or an unreadable reference records
    /// a warning and gives `None`, leaving the caller free to keep the
    /// original text. What happens to a local reference is what
    /// [`Self::resolve_fetched`] does with whatever the resolver returned.
    pub fn resolve(
        &mut self,
        href: &str,
        resources: &mut IndexMap<String, Resource>,
        warnings: &mut Vec<Warning>,
        source_path: &str,
    ) -> (r: Option<String>)
        ensures
            old(self).resolved().contains_key(href@) ==> {
                &&& r is Some && r->0@ == old(self).resolved()[href@]
                &&& final(self).resolved() == old(self).resolved()
                &&& final(self).reserved() == old(self).reserved()
                &&& resource_entries(*final(resources)) == resource_entries(*old(resources))
                &&& final(warnings)@ == old(warnings)@
            },
            !old(self).resolved().contains_key(href@) && has_scheme_spec(href@) ==> {
                &&& r is None
                &&& final(self).resolved() == old(self).resolved()
                &&& final(self).reserved() == old(self).reserved()
                &&& resource_entries(*final(resources)) == resource_entries(*old(resources))
                &&& final(warnings)@.len() == old(warnings)@.len() + 1
                &&& final(warnings)@.drop_last() == old(warnings)@
                &&& final(warnings)@.last().message@ == "remote image not fetched: "@ + href@
                &&& crate::model::opt_view(final(warnings)@.last().file) == Some(source_path@)
            },
            !old(self).resolved().contains_key(href@) && !has_scheme_spec(href@) ==> (r is None
                <==> final(self).resolved() == old(self).resolved()),
            r is Some ==> final(self).resolved().contains_key(href@) && final(self).resolved()[href@]
                == r->0@,
    {
        if let Some(existing) = self.lookup(href) {
            return Some(existing);
        }
        if crate::paths::has_scheme(href) {
            let mut message: Vec<char> = Vec::new();
            push_str(&mut message, "remote image not fetched: ");
            push_str(&mut message, href);
            warnings.push(
                Warning { message: string_of(&message), file: Some(source_path.to_owned()) },
            );
            return None;
        }
        let fetched = self.resolver.resolve(href);
        let r = self.resolve_fetched(href, fetched, resources, warnings, source_path);
        proof {
            if r is Some {
                assert(final(self).resolved() == old(self).resolved().insert(href@, r->0@));
            }
        }
        r
    }
}

/// Entries after index `j` that miss `k` leave its lookup to the first `j`.
proof fn lemma_resolved_suffix(s: Seq<(String, String)>, j: int, k: Seq<char>)
    requires
        0 <= j <= s.len(),
        forall|i: int| j <= i < s.len() ==> (#[trigger] s[i]).0@ != k,
    ensures
        j >= 1 && s[j - 1].0@ == k ==> resolved_map_of(s).contains_key(k) && resolved_map_of(s)[k]
            == s[j - 1].1@,
        resolved_map_of(s).contains_key(k) == resolved_map_of(s.take(j)).contains_key(k),
    decreases s.len() - j,
{
    if j == s.len() {
        assert(s.take(j) == s);
    } else {
        let d = s.drop_last();
        assert forall|i: int| j <= i < d.len() implies (#[trigger] d[i]).0@ != k by {
            assert(d[i] == s[i]);
        }
        lemma_resolved_suffix(d, j, k);
        assert(d.take(j) == s.take(j));
    }
}

/// `href` with every `/` turned into `-`.
fn flatten_href(href: &str) -> (r: String)
    ensures
        r@ == flattened(href@),
{
    let v = chars_of(href);
    let mut out: Vec<char> = Vec::new();
    let mut i: usize = 0;
    while i < v.len()
        invariant
            i <= v@.len(),
            v@ == href@,
            out@ == flattened(href@).take(i as int),
        decreases v.len() - i,
    {
        let c = v[i];
        out.push(if c == '/' {
            '-'
        } else {
            c
        });
        i += 1;
        assert(out@ =~= flattened(href@).take(i as int));
    }
    assert(flattened(href@).take(v@.len() as int) =~= flattened(href@));
    string_of(&out)
}

} // verus!
