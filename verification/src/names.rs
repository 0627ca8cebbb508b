//! Unique resource names: a name that collides with one already taken gets
//! `-2`, `-3`, ... (or `-1`, `-2`, ...) appended until it does not.

use vstd::prelude::*;
use vstd::relations::injective_on;
use vstd::set_lib::{lemma_int_range, lemma_len_subset, lemma_map_size, set_int_range};

use crate::text::{chars_of, decimal, digit_char, push_all, push_decimal, push_str, string_of};

verus! {

/// A set of zip paths already taken.
pub struct PathSet {
    entries: Vec<String>,
}

impl View for PathSet {
    type V = Set<Seq<char>>;

    closed spec fn view(&self) -> Set<Seq<char>> {
        self.entries@.map_values(|s: String| s@).to_set()
    }
}

impl PathSet {
    /// No path taken yet.
    pub fn new() -> (r: PathSet)
        ensures
            r@ == Set::<Seq<char>>::empty(),
    {
        let r = PathSet { entries: Vec::new() };
        assert(r@ =~= Set::<Seq<char>>::empty());
        r
    }

    /// The set is finite.
    pub proof fn lemma_finite(&self)
        ensures
            self@.finite(),
    {
        vstd::seq_lib::seq_to_set_is_finite(self.entries@.map_values(|s: String| s@));
    }

    /// The set is no larger than a `usize` can count.
    fn check_size(&self)
        ensures
            self@.finite(),
            self@.len() <= usize::MAX,
    {
        let n = self.entries.len();
        proof {
            let m = self.entries@.map_values(|s: String| s@);
            vstd::seq_lib::seq_to_set_is_finite(m);
            m.lemma_cardinality_of_set();
        }
    }

    /// Whether `path` is taken.
    pub fn contains(&self, path: &[char]) -> (r: bool)
        ensures
            r == self@.contains(path@),
    {
        let ghost m = self.entries@.map_values(|s: String| s@);
        let mut i: usize = 0;
        while i < self.entries.len()
            invariant
                i <= self.entries@.len(),
                m == self.entries@.map_values(|s: String| s@),
                forall|k: int| 0 <= k < i ==> m[k] != path@,
            decreases self.entries.len() - i,
        {
            if crate::text::same_chars(&chars_of(self.entries[i].as_str()), path) {
                assert(m[i as int] == path@);
                assert(m.contains(path@));
                return true;
            }
            i += 1;
        }
        proof {
            if m.to_set().contains(path@) {
                let k = m.index_of(path@);
                assert(m[k] == path@);
            }
        }
        false
    }

    /// Take `path`.
    pub fn insert(&mut self, path: &[char])
        ensures
            final(self)@ == old(self)@.insert(path@),
    {
        let ghost before = self.entries@.map_values(|s: String| s@);
        self.entries.push(string_of(path));
        let ghost after = self.entries@.map_values(|s: String| s@);
        assert(after == before.push(path@));
        assert(after.to_set() =~= before.to_set().insert(path@)) by {
            assert forall|x: Seq<char>| after.to_set().contains(x) implies before.to_set().insert(
                path@,
            ).contains(x) by {
                let k = after.index_of(x);
                if k < before.len() {
                    assert(before[k] == x);
                }
            }
            assert forall|x: Seq<char>| before.to_set().insert(path@).contains(x) implies after.to_set().contains(
                x,
            ) by {
                if x == path@ {
                    assert(after[before.len() as int] == x);
                } else {
                    let k = before.index_of(x);
                    assert(after[k] == x);
                }
            }
        }
    }
}

// ---------------------------------------------------------------------
// Numbered names are all different
// ---------------------------------------------------------------------

proof fn lemma_decimal_len(n: nat)
    ensures
        decimal(n).len() >= 1,
        n >= 10 ==> decimal(n).len() >= 2,
    decreases n,
{
    if n >= 10 {
        lemma_decimal_len(n / 10);
    }
}

/// Different numbers are spelled differently.
pub proof fn lemma_decimal_injective(a: nat, b: nat)
    requires
        decimal(a) == decimal(b),
    ensures
        a == b,
    decreases a,
{
    lemma_decimal_len(a);
    lemma_decimal_len(b);
    if a < 10 && b < 10 {
        assert(decimal(a)[0] == digit_char(a));
        assert(decimal(b)[0] == digit_char(b));
        assert(digit_char(a) as u32 == a + 48);
        assert(digit_char(b) as u32 == b + 48);
    } else if a >= 10 && b >= 10 {
        let da = decimal(a / 10);
        let db = decimal(b / 10);
        assert(decimal(a) == da.push(digit_char(a % 10)));
        assert(decimal(b) == db.push(digit_char(b % 10)));
        assert(da == decimal(a).drop_last());
        assert(db == decimal(b).drop_last());
        let xa = digit_char(a % 10);
        let xb = digit_char(b % 10);
        assert(decimal(a).last() == xa);
        assert(decimal(b).last() == xb);
        assert(xa == xb);
        assert(digit_char(a % 10) as u32 == a % 10 + 48);
        assert(digit_char(b % 10) as u32 == b % 10 + 48);
        lemma_decimal_injective(a / 10, b / 10);
    }
}

/// The `n`-th numbered name: `prefix`, the number, `suffix`.
pub open spec fn numbered(prefix: Seq<char>, n: nat, suffix: Seq<char>) -> Seq<char> {
    prefix + decimal(n) + suffix
}

proof fn lemma_numbered_injective(prefix: Seq<char>, a: nat, b: nat, suffix: Seq<char>)
    requires
        numbered(prefix, a, suffix) == numbered(prefix, b, suffix),
    ensures
        a == b,
{
    let x = numbered(prefix, a, suffix);
    assert(x.len() == prefix.len() + decimal(a).len() + suffix.len());
    assert(numbered(prefix, b, suffix).len() == prefix.len() + decimal(b).len() + suffix.len());
    assert(decimal(a).len() == decimal(b).len());
    let p = prefix.len() as int;
    assert(decimal(a) =~= x.subrange(p, p + decimal(a).len()));
    assert(decimal(b) =~= x.subrange(p, p + decimal(b).len()));
    lemma_decimal_injective(a, b);
}

/// If every numbered name from `lo` up to `hi` is taken, there are at least
/// that many taken names.
pub proof fn lemma_numbered_taken(
    prefix: Seq<char>,
    suffix: Seq<char>,
    lo: nat,
    hi: nat,
    taken: Set<Seq<char>>,
)
    requires
        lo <= hi,
        taken.finite(),
        forall|k: nat| lo <= k < hi ==> taken.contains(#[trigger] numbered(prefix, k, suffix)),
    ensures
        hi - lo <= taken.len(),
{
    let range = set_int_range(lo as int, hi as int);
    lemma_int_range(lo as int, hi as int);
    let f = |k: int| numbered(prefix, k as nat, suffix);
    let image = range.map(f);
    assert(injective_on(f, range)) by {
        assert forall|a: int, b: int| range.contains(a) && range.contains(b) && #[trigger] f(a)
            == #[trigger] f(b) implies a == b by {
            lemma_numbered_injective(prefix, a as nat, b as nat, suffix);
        }
    }
    lemma_map_size(range, image, f);
    assert(image.subset_of(taken)) by {
        assert forall|x: Seq<char>| image.contains(x) implies taken.contains(x) by {
            let k = choose|k: int| range.contains(k) && f(k) == x;
            assert(taken.contains(numbered(prefix, k as nat, suffix)));
        }
    }
    lemma_len_subset(image, taken);
}

// ---------------------------------------------------------------------
// Reserving names
// ---------------------------------------------------------------------

/// The number of the first free numbered name at or after `start`.
fn first_free_number(
    prefix: &Vec<char>,
    suffix: &Vec<char>,
    start: u128,
    taken: &PathSet,
) -> (n: u128)
    requires
        start <= 2,
    ensures
        start <= n,
        !taken@.contains(numbered(prefix@, n as nat, suffix@)),
        forall|k: nat| start <= k < n ==> taken@.contains(#[trigger] numbered(prefix@, k, suffix@)),
{
    proof {
        taken.lemma_finite();
    }
    taken.check_size();
    let mut n: u128 = start;
    loop
        invariant
            start <= n,
            start <= 2,
            taken@.finite(),
            taken@.len() <= usize::MAX,
            forall|k: nat| start <= k < n ==> taken@.contains(#[trigger] numbered(prefix@, k, suffix@)),
        decreases taken@.len() + 2 - n,
    {
        proof {
            lemma_numbered_taken(prefix@, suffix@, start as nat, n as nat, taken@);
        }
        let mut candidate: Vec<char> = Vec::new();
        push_all(&mut candidate, prefix);
        push_decimal(&mut candidate, n);
        push_all(&mut candidate, suffix);
        assert(candidate@ == numbered(prefix@, n as nat, suffix@));
        if !taken.contains(&candidate) {
            return n;
        }
        proof {
            lemma_numbered_taken(prefix@, suffix@, start as nat, (n + 1) as nat, taken@);
        }
        n = n + 1;
    }
}

/// `r` is the name a reservation picks: `first` when it is free, else the
/// first free numbered name counting from `start`.
pub open spec fn first_free(
    taken: Set<Seq<char>>,
    first: Seq<char>,
    prefix: Seq<char>,
    suffix: Seq<char>,
    start: nat,
    r: Seq<char>,
) -> bool {
    if !taken.contains(first) {
        r == first
    } else {
        exists|n: nat|
            #![trigger numbered(prefix, n, suffix)]
            start <= n && r == numbered(prefix, n, suffix) && !taken.contains(r) && forall|k: nat|
                start <= k < n ==> taken.contains(#[trigger] numbered(prefix, k, suffix))
    }
}

/// The directory part of a numbered name in `dir`: `dir/`, or nothing for the
/// root.
pub open spec fn dir_prefix(dir: Seq<char>) -> Seq<char> {
    if dir.len() == 0 {
        Seq::empty()
    } else {
        dir + seq!['/']
    }
}

/// Reserve `first` if it is free, else the first free numbered name counting
/// from `start`, and return it.
pub(crate) fn reserve_first_free(
    reserved: &mut PathSet,
    first: &Vec<char>,
    prefix: &Vec<char>,
    suffix: &Vec<char>,
    start: u128,
) -> (r: String)
    requires
        start <= 2,
    ensures
        !old(reserved)@.contains(r@),
        final(reserved)@ == old(reserved)@.insert(r@),
        first_free(old(reserved)@, first@, prefix@, suffix@, start as nat, r@),
{
    if !reserved.contains(first) {
        reserved.insert(first);
        return string_of(first);
    }
    let n = first_free_number(prefix, suffix, start, reserved);
    let mut candidate: Vec<char> = Vec::new();
    push_all(&mut candidate, prefix);
    push_decimal(&mut candidate, n);
    push_all(&mut candidate, suffix);
    assert(candidate@ == numbered(prefix@, n as nat, suffix@));
    reserved.insert(&candidate);
    string_of(&candidate)
}

/// `r` is the path a reservation of `dir/stem.ext` picks among `taken`:
/// the plain name when free, else the first free `dir/stem-N.ext` from 1.
pub open spec fn unique_in(
    taken: Set<Seq<char>>,
    dir: Seq<char>,
    stem: Seq<char>,
    ext: Seq<char>,
    r: Seq<char>,
) -> bool {
    first_free(
        taken,
        crate::paths::join_dir_spec(dir, stem + seq!['.'] + ext),
        dir_prefix(dir) + stem + seq!['-'],
        seq!['.'] + ext,
        1,
        r,
    )
}

/// Reserve a unique zip path `dir/stem.ext`, appending `-1`, `-2`, ... on
/// collision, so later resources never reuse it.
pub fn reserve_unique(reserved: &mut PathSet, dir: &str, stem: &str, ext: &str) -> (r: String)
    ensures
        !old(reserved)@.contains(r@),
        final(reserved)@ == old(reserved)@.insert(r@),
        unique_in(old(reserved)@, dir@, stem@, ext@, r@),
{
    let mut name = chars_of(stem);
    name.push('.');
    push_str(&mut name, ext);
    assert(name@ == stem@ + seq!['.'] + ext@);
    let first = chars_of(crate::paths::join_dir(dir, string_of(&name).as_str()).as_str());
    let mut prefix: Vec<char> = Vec::new();
    if !dir.is_empty() {
        push_str(&mut prefix, dir);
        prefix.push('/');
    }
    push_str(&mut prefix, stem);
    prefix.push('-');
    let mut suffix: Vec<char> = Vec::new();
    suffix.push('.');
    push_str(&mut suffix, ext);
    assert(prefix@ == dir_prefix(dir@) + stem@ + seq!['-']);
    assert(suffix@ == seq!['.'] + ext@);
    reserve_first_free(reserved, &first, &prefix, &suffix, 1)
}

/// The extension part of an image path: `.ext`, or nothing for no extension.
pub open spec fn ext_suffix(ext: Seq<char>) -> Seq<char> {
    if ext.len() == 0 {
        Seq::empty()
    } else {
        seq!['.'] + ext
    }
}

/// Reserve a unique `OEBPS/images/<flattened>` path, appending `-2`, `-3`,
/// ... to the stem on a collision between two different original hrefs.
pub fn reserve_unique_image_path(reserved: &mut PathSet, flattened: &str) -> (r: String)
    ensures
        !old(reserved)@.contains(r@),
        final(reserved)@ == old(reserved)@.insert(r@),
        ({
            let (stem, ext) = crate::paths::split_ext_spec(flattened@);
            first_free(
                old(reserved)@,
                "OEBPS/images/"@ + stem + ext_suffix(ext),
                "OEBPS/images/"@ + stem + seq!['-'],
                ext_suffix(ext),
                2,
                r@,
            )
        }),
{
    let (stem, ext) = crate::paths::split_ext(flattened);
    let first = chars_of(crate::paths::join(stem.as_str(), ext.as_str()).as_str());
    let mut prefix = chars_of("OEBPS/images/");
    push_str(&mut prefix, stem.as_str());
    prefix.push('-');
    let mut suffix: Vec<char> = Vec::new();
    if !ext.as_str().is_empty() {
        suffix.push('.');
        push_str(&mut suffix, ext.as_str());
    }
    assert(first@ == "OEBPS/images/"@ + stem@ + ext_suffix(ext@));
    assert(prefix@ == "OEBPS/images/"@ + stem@ + seq!['-']);
    assert(suffix@ == ext_suffix(ext@));
    reserve_first_free(reserved, &first, &prefix, &suffix, 2)
}

} // verus!
