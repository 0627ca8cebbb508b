//! The book-level metadata model the passes read and rewrite: what the
//! package document says about the book, and its table of contents.

use vstd::prelude::*;

verus! {

/// A person credited on the book.
#[derive(Debug, Clone, PartialEq, Eq, Default)]
pub struct Creator {
    /// The display name, e.g. `Jane Author`.
    pub name: String,
    /// The sort form, e.g. `Author, Jane`.
    pub file_as: Option<String>,
    /// A MARC relator code, e.g. `aut` or `edt`.
    pub role: Option<String>,
}

impl Creator {
    /// A creator with only a display name.
    pub fn new(name: &str) -> (c: Creator)
        ensures
            c.name@ == name@,
            c.file_as is None,
            c.role is None,
    {
        Creator { name: name.to_owned(), file_as: None, role: None }
    }
}

/// A secondary identifier (`dc:identifier` other than the unique one).
#[derive(Debug, Clone, PartialEq, Eq, Default)]
pub struct Identifier {
    /// The identifier's value.
    pub value: String,
    /// Its declared scheme (`identifier-type` refinement), e.g. `ISBN`.
    pub scheme: Option<String>,
}

/// The series a book belongs to.
#[derive(Debug, Clone, PartialEq, Eq, Default)]
pub struct Series {
    /// The series name.
    pub name: String,
    /// The book's position in the series, verbatim.
    pub index: Option<String>,
}

/// The package-document metadata of a book.
#[derive(Debug, Clone, PartialEq, Eq, Default)]
pub struct Metadata {
    pub title: String,
    pub authors: Vec<Creator>,
    pub contributors: Vec<Creator>,
    pub language: String,
    /// The book's unique identifier; reading systems key bookmarks off it.
    pub identifier: Option<String>,
    /// The declared scheme of the unique identifier, if any.
    pub identifier_scheme: Option<String>,
    pub identifiers: Vec<Identifier>,
    pub description: Option<String>,
    pub publisher: Option<String>,
    pub subjects: Vec<String>,
    pub date: Option<String>,
    pub rights: Option<String>,
    pub series: Option<Series>,
}

/// One table-of-contents entry.
#[derive(Debug, Clone, PartialEq, Eq, Default)]
pub struct TocEntry {
    /// The entry's title as shown to the reader.
    pub title: String,
    /// A zip-absolute path with an optional `#fragment`.
    pub href: String,
    /// Nesting depth, starting at 1.
    pub level: usize,
}

/// An exact copy of an optional string.
pub fn copy_opt(o: &Option<String>) -> (r: Option<String>)
    ensures
        r == *o,
{
    match o {
        Some(s) => Some(s.clone()),
        None => None,
    }
}

/// An exact copy of an identifier record.
pub fn copy_identifier(id: &Identifier) -> (r: Identifier)
    ensures
        r == *id,
{
    Identifier { value: id.value.clone(), scheme: copy_opt(&id.scheme) }
}

/// The characters of an optional string.
pub open spec fn opt_view(o: Option<String>) -> Option<Seq<char>> {
    match o {
        Some(s) => Some(s@),
        None => None,
    }
}

/// The characters of an optional string slice.
pub open spec fn opt_str_view(o: Option<&str>) -> Option<Seq<char>> {
    match o {
        Some(s) => Some(s@),
        None => None,
    }
}

} // verus!

verus! {

/// An exact copy of a string.
pub fn copy_string(s: &String) -> (r: String)
    ensures
        r == *s,
{
    s.clone()
}

/// An exact copy of a creator.
pub fn copy_creator(c: &Creator) -> (r: Creator)
    ensures
        r == *c,
{
    Creator { name: c.name.clone(), file_as: copy_opt(&c.file_as), role: copy_opt(&c.role) }
}

/// An exact copy of a list of creators.
pub fn copy_creators(v: &[Creator]) -> (r: Vec<Creator>)
    ensures
        r@ == v@,
{
    let mut r: Vec<Creator> = Vec::new();
    let mut i: usize = 0;
    while i < v.len()
        invariant
            i <= v@.len(),
            r@ == v@.take(i as int),
        decreases v.len() - i,
    {
        r.push(copy_creator(&v[i]));
        assert(v@.take(i + 1) == v@.take(i as int).push(v@[i as int]));
        i += 1;
    }
    assert(v@.take(v.len() as int) == v@);
    r
}

/// An exact copy of a list of strings.
pub fn copy_strings(v: &[String]) -> (r: Vec<String>)
    ensures
        r@ == v@,
{
    let mut r: Vec<String> = Vec::new();
    let mut i: usize = 0;
    while i < v.len()
        invariant
            i <= v@.len(),
            r@ == v@.take(i as int),
        decreases v.len() - i,
    {
        r.push(v[i].clone());
        assert(v@.take(i + 1) == v@.take(i as int).push(v@[i as int]));
        i += 1;
    }
    assert(v@.take(v.len() as int) == v@);
    r
}

/// An exact copy of a list of identifiers.
pub fn copy_identifiers(v: &[Identifier]) -> (r: Vec<Identifier>)
    ensures
        r@ == v@,
{
    let mut r: Vec<Identifier> = Vec::new();
    let mut i: usize = 0;
    while i < v.len()
        invariant
            i <= v@.len(),
            r@ == v@.take(i as int),
        decreases v.len() - i,
    {
        r.push(copy_identifier(&v[i]));
        assert(v@.take(i + 1) == v@.take(i as int).push(v@[i as int]));
        i += 1;
    }
    assert(v@.take(v.len() as int) == v@);
    r
}

} // verus!
