//! Zip-path and href helpers shared by the passes: directories, file names,
//! extensions, URL schemes and the media-type guesses made from a name.

use vstd::prelude::*;

use crate::text::{
    chars_of, copy_range, find_char, has_prefix, has_suffix, index_of, is_ascii_alnum,
    is_ascii_alpha, last_index_of, lemma_index_of_from_bounds, lemma_last_index_of_bounds,
    lower_seq, push_all, push_str, rfind_char, same_chars, string_of, to_lower,
};

verus! {

/// The directory part of a zip-absolute path: everything before the last
/// `/` (empty if there is none).
pub open spec fn parent_dir_spec(path: Seq<char>) -> Seq<char> {
    let i = last_index_of(path, '/');
    if i < 0 {
        Seq::empty()
    } else {
        path.take(i)
    }
}

/// Parent directory of a zip-absolute path (`""` if it has no `/`).
pub fn parent_dir(path: &str) -> (r: String)
    ensures
        r@ == parent_dir_spec(path@),
{
    let v = chars_of(path);
    match rfind_char(&v, '/') {
        Some(i) => string_of(&copy_range(&v, 0, i)),
        None => String::new(),
    }
}

/// `dir/name`, or `name` alone under the root directory.
pub open spec fn join_dir_spec(dir: Seq<char>, name: Seq<char>) -> Seq<char> {
    if dir.len() == 0 {
        name
    } else {
        dir + seq!['/'] + name
    }
}

/// Join a directory and a file name, tolerating an empty (root) directory.
pub fn join_dir(dir: &str, name: &str) -> (r: String)
    ensures
        r@ == join_dir_spec(dir@, name@),
{
    let mut v = chars_of(dir);
    if v.len() == 0 {
        return string_of(&chars_of(name));
    }
    v.push('/');
    push_str(&mut v, name);
    string_of(&v)
}

/// Whether a character may follow the first letter of a URL scheme.
pub open spec fn scheme_char(c: char) -> bool {
    is_ascii_alnum(c) || c == '+' || c == '-' || c == '.'
}

/// Whether an href starts with a URL scheme (RFC 3986:
/// `ALPHA *( ALPHA / DIGIT / "+" / "-" / "." ) ":"`), i.e. is an external
/// reference rather than a relative path within the book.
pub open spec fn has_scheme_spec(href: Seq<char>) -> bool {
    let c = index_of(href, ':');
    &&& c >= 1
    &&& is_ascii_alpha(href[0])
    &&& forall|k: int| 1 <= k < c ==> scheme_char(#[trigger] href[k])
}

/// Whether an href starts with a URL scheme.
pub fn has_scheme(href: &str) -> (r: bool)
    ensures
        r == has_scheme_spec(href@),
{
    let v = chars_of(href);
    let colon = match find_char(&v, ':') {
        Some(c) => c,
        None => return false,
    };
    if colon == 0 {
        return false;
    }
    let first = v[0];
    if !(('a' <= first && first <= 'z') || ('A' <= first && first <= 'Z')) {
        return false;
    }
    let mut k: usize = 1;
    while k < colon
        invariant
            1 <= k <= colon < v@.len(),
            v@ == href@,
            colon as int == index_of(v@, ':'),
            is_ascii_alpha(v@[0]),
            forall|j: int| 1 <= j < k ==> scheme_char(#[trigger] v@[j]),
        decreases colon - k,
    {
        let c = v[k];
        if !(('a' <= c && c <= 'z') || ('A' <= c && c <= 'Z') || ('0' <= c && c <= '9') || c
            == '+' || c == '-' || c == '.') {
            assert(!scheme_char(v@[k as int]));
            return false;
        }
        k += 1;
    }
    true
}

/// Index of the first `#` or `?` in `s`, or its length.
pub open spec fn path_end(s: Seq<char>) -> int
    decreases s.len(),
{
    if s.len() == 0 {
        0
    } else if path_end(s.drop_last()) < s.len() - 1 {
        path_end(s.drop_last())
    } else if s.last() == '#' || s.last() == '?' {
        s.len() - 1
    } else {
        s.len() as int
    }
}

proof fn lemma_path_end_bounds(s: Seq<char>)
    ensures
        0 <= path_end(s) <= s.len(),
        forall|k: int| 0 <= k < path_end(s) ==> #[trigger] s[k] != '#' && s[k] != '?',
        path_end(s) < s.len() ==> s[path_end(s)] == '#' || s[path_end(s)] == '?',
    decreases s.len(),
{
    if s.len() > 0 {
        let d = s.drop_last();
        lemma_path_end_bounds(d);
        assert forall|k: int| 0 <= k < path_end(s) implies #[trigger] s[k] != '#' && s[k] != '?' by {
            if k < d.len() {
                assert(s[k] == d[k]);
            }
        }
        if path_end(d) < s.len() - 1 {
            assert(s[path_end(s)] == d[path_end(d)]);
        }
    }
}

/// The path portion of an href, dropping any `#fragment` or `?query`.
pub fn path_part(href: &str) -> (r: String)
    ensures
        r@ == href@.take(path_end(href@)),
{
    let v = chars_of(href);
    let mut i: usize = 0;
    while i < v.len() && v[i] != '#' && v[i] != '?'
        invariant
            i <= v@.len(),
            v@ == href@,
            forall|k: int| 0 <= k < i ==> #[trigger] v@[k] != '#' && v@[k] != '?',
        decreases v.len() - i,
    {
        i += 1;
    }
    proof {
        lemma_path_end_bounds(v@);
        assert(path_end(v@) == i) by {
            lemma_path_end_first(v@, i as int);
        }
    }
    string_of(&copy_range(&v, 0, i))
}

/// The path ends at the first `#` or `?`.
pub proof fn lemma_path_end_first(s: Seq<char>, i: int)
    requires
        0 <= i <= s.len(),
        forall|k: int| 0 <= k < i ==> #[trigger] s[k] != '#' && s[k] != '?',
        i < s.len() ==> s[i] == '#' || s[i] == '?',
    ensures
        path_end(s) == i,
{
    lemma_path_end_bounds(s);
    if path_end(s) < i {
        assert(s[path_end(s)] != '#');
    }
    if path_end(s) > i {
        assert(s[i] != '#' && s[i] != '?');
    }
}

/// The file name (last path segment) of a path.
pub open spec fn basename_spec(path: Seq<char>) -> Seq<char> {
    let i = last_index_of(path, '/');
    if i < 0 {
        path
    } else {
        path.subrange(i + 1, path.len() as int)
    }
}

/// The file name (last path segment) of a zip-absolute path.
pub fn basename(path: &str) -> (r: String)
    ensures
        r@ == basename_spec(path@),
{
    let v = chars_of(path);
    match rfind_char(&v, '/') {
        Some(i) => {
            assert(i < v.len());
            string_of(&copy_range(&v, i + 1, v.len()))
        },
        None => string_of(&v),
    }
}

/// The file name of a path without its extension (a leading dot, as in
/// `.hidden`, is not an extension).
pub open spec fn stem_spec(path: Seq<char>) -> Seq<char> {
    let name = basename_spec(path);
    let i = last_index_of(name, '.');
    if i > 0 {
        name.take(i)
    } else {
        name
    }
}

/// The file name of a zip-absolute path without its extension.
pub fn stem_of(path: &str) -> (r: String)
    ensures
        r@ == stem_spec(path@),
{
    let name = chars_of(basename(path).as_str());
    match rfind_char(&name, '.') {
        Some(i) => if i > 0 {
            string_of(&copy_range(&name, 0, i))
        } else {
            string_of(&name)
        },
        None => string_of(&name),
    }
}

/// `path` with its extension replaced by `ext`, keeping directory and stem.
pub fn with_extension(path: &str, ext: &str) -> (r: String)
    ensures
        r@ == join_dir_spec(parent_dir_spec(path@), stem_spec(path@) + seq!['.'] + ext@),
{
    let mut name = chars_of(stem_of(path).as_str());
    name.push('.');
    push_str(&mut name, ext);
    join_dir(parent_dir(path).as_str(), string_of(&name).as_str())
}

/// Whether `s` equals the literal `lit`.
fn is_exactly(s: &[char], lit: &str) -> (r: bool)
    ensures
        r == (s@ == lit@),
{
    same_chars(s, &chars_of(lit))
}

/// Whether a media type names a font.
pub open spec fn font_media_type(mt: Seq<char>) -> bool {
    let m = lower_seq(mt);
    m.len() >= 5 && m.take(5) == "font/"@ || m == "application/vnd.ms-opentype"@ || m
        == "application/font-woff"@ || (m.len() >= 19 && m.take(19) == "application/x-font-"@)
}

/// Whether a path carries a font file extension.
pub open spec fn font_extension(path: Seq<char>) -> bool {
    let p = lower_seq(path);
    crate::text::ends_with(p, ".ttf"@) || crate::text::ends_with(p, ".otf"@)
        || crate::text::ends_with(p, ".woff"@) || crate::text::ends_with(p, ".woff2"@)
        || crate::text::ends_with(p, ".eot"@)
}

/// Whether a resource is an embedded font, by media type or file extension.
pub fn is_font(path: &str, media_type: &str) -> (r: bool)
    ensures
        r == (font_media_type(media_type@) || font_extension(path@)),
{
    let m = to_lower(&chars_of(media_type));
    proof {
        reveal_strlit("font/");
        reveal_strlit("application/x-font-");
    }
    if has_prefix(&m, &chars_of("font/")) || is_exactly(&m, "application/vnd.ms-opentype")
        || is_exactly(&m, "application/font-woff") || has_prefix(&m, &chars_of("application/x-font-")) {
        return true;
    }
    let p = to_lower(&chars_of(path));
    has_suffix(&p, &chars_of(".ttf")) || has_suffix(&p, &chars_of(".otf")) || has_suffix(
        &p,
        &chars_of(".woff"),
    ) || has_suffix(&p, &chars_of(".woff2")) || has_suffix(&p, &chars_of(".eot"))
}

/// Whether a media type is an (X)HTML content document.
pub fn is_xhtml(media_type: &str) -> (r: bool)
    ensures
        r == (media_type@ == "application/xhtml+xml"@ || media_type@ == "text/html"@),
{
    let m = chars_of(media_type);
    is_exactly(&m, "application/xhtml+xml") || is_exactly(&m, "text/html")
}

/// Bytes rounded to the nearest kibibyte, for report lines.
pub fn kb(bytes: usize) -> (r: usize)
    requires
        bytes + 512 <= usize::MAX,
    ensures
        r == (bytes + 512) / 1024,
{
    (bytes + 512) / 1024
}

/// A name split at its last `.` into stem and extension (no extension for
/// a name without a dot or with only a leading one).
pub open spec fn split_ext_spec(name: Seq<char>) -> (Seq<char>, Seq<char>) {
    let i = last_index_of(name, '.');
    if i > 0 {
        (name.take(i), name.subrange(i + 1, name.len() as int))
    } else {
        (name, Seq::empty())
    }
}

/// Split a file name into stem and extension.
pub fn split_ext(name: &str) -> (r: (String, String))
    ensures
        (r.0@, r.1@) == split_ext_spec(name@),
{
    let v = chars_of(name);
    let found = rfind_char(&v, '.');
    if let Some(i) = found {
        if i > 0 {
            assert(i < v.len());
            let stem = string_of(&copy_range(&v, 0, i));
            let ext = string_of(&copy_range(&v, i + 1, v.len()));
            return (stem, ext);
        }
    }
    (string_of(&v), String::new())
}

/// The image path `OEBPS/images/stem.ext` (no dot for an empty extension).
pub fn join(stem: &str, ext: &str) -> (r: String)
    ensures
        r@ == if ext@.len() == 0 {
            "OEBPS/images/"@ + stem@
        } else {
            "OEBPS/images/"@ + stem@ + seq!['.'] + ext@
        },
{
    let mut v = chars_of("OEBPS/images/");
    push_str(&mut v, stem);
    if ext.is_empty() {
        return string_of(&v);
    }
    v.push('.');
    push_str(&mut v, ext);
    string_of(&v)
}

/// The text after the last `.` of a path (the whole path if it has none).
pub open spec fn last_dot_suffix(path: Seq<char>) -> Seq<char> {
    let i = last_index_of(path, '.');
    if i < 0 {
        path
    } else {
        path.subrange(i + 1, path.len() as int)
    }
}

/// The media type an image file's extension suggests.
pub open spec fn image_media_type_for(ext: Seq<char>) -> Seq<char> {
    if ext == "jpg"@ || ext == "jpeg"@ {
        "image/jpeg"@
    } else if ext == "png"@ {
        "image/png"@
    } else if ext == "gif"@ {
        "image/gif"@
    } else if ext == "svg"@ {
        "image/svg+xml"@
    } else if ext == "webp"@ {
        "image/webp"@
    } else if ext == "bmp"@ {
        "image/bmp"@
    } else if ext == "tif"@ || ext == "tiff"@ {
        "image/tiff"@
    } else {
        "application/octet-stream"@
    }
}

/// Guess an image's media type from its (case-insensitive) extension.
pub fn guess_image_media_type(path: &str) -> (r: String)
    ensures
        r@ == image_media_type_for(lower_seq(last_dot_suffix(path@))),
{
    let v = chars_of(path);
    let ext_raw = match rfind_char(&v, '.') {
        Some(i) => {
            assert(i < v.len());
            copy_range(&v, i + 1, v.len())
        },
        None => copy_range(&v, 0, v.len()),
    };
    assert(v@.subrange(0, v@.len() as int) == v@);
    let ext = to_lower(&ext_raw);
    let mt = if is_exactly(&ext, "jpg") || is_exactly(&ext, "jpeg") {
        "image/jpeg"
    } else if is_exactly(&ext, "png") {
        "image/png"
    } else if is_exactly(&ext, "gif") {
        "image/gif"
    } else if is_exactly(&ext, "svg") {
        "image/svg+xml"
    } else if is_exactly(&ext, "webp") {
        "image/webp"
    } else if is_exactly(&ext, "bmp") {
        "image/bmp"
    } else if is_exactly(&ext, "tif") || is_exactly(&ext, "tiff") {
        "image/tiff"
    } else {
        "application/octet-stream"
    };
    mt.to_owned()
}

} // verus!
