//! What a pass tells its caller: the transformations it made and the
//! problems it noticed.

use vstd::prelude::*;

verus! {

/// One change a pass made, for the conversion report.
#[derive(Debug, Clone, PartialEq, Eq)]
pub struct Transformation {
    /// A stable machine-readable label, e.g. `generic-identity`.
    pub kind: String,
    /// A human-readable description of the change.
    pub detail: String,
    /// The resource the change applies to, if it is file-specific.
    pub file: Option<String>,
}

/// Something a pass noticed but could not (or would not) fix.
#[derive(Debug, Clone, PartialEq, Eq)]
pub struct Warning {
    /// A human-readable description.
    pub message: String,
    /// The resource the warning is about, if it is file-specific.
    pub file: Option<String>,
}

/// A book-wide transformation record with the given kind and detail.
pub fn book_transformation(kind: &str, detail: &[char]) -> (t: Transformation)
    ensures
        t.kind@ == kind@,
        t.detail@ == detail@,
        t.file is None,
{
    Transformation { kind: kind.to_owned(), detail: crate::text::string_of(detail), file: None }
}

/// A book-wide warning with the given message.
pub fn book_warning(message: &[char]) -> (w: Warning)
    ensures
        w.message@ == message@,
        w.file is None,
{
    Warning { message: crate::text::string_of(message), file: None }
}

/// A transformation as plain values: kind, detail and file.
pub open spec fn transformation_view(t: Transformation) -> (Seq<char>, Seq<char>, Option<Seq<char>>) {
    (t.kind@, t.detail@, crate::model::opt_view(t.file))
}

/// A warning as plain values: message and file.
pub open spec fn warning_view(w: Warning) -> (Seq<char>, Option<Seq<char>>) {
    (w.message@, crate::model::opt_view(w.file))
}

} // verus!
