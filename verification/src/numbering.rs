//! Ordered-list markers baked into the text: decimal, alphabetic
//! (`a`..`z`, `aa`, ...) and roman numerals, in either case, exactly as a
//! browser numbers `<ol type="...">`.

use vstd::prelude::*;

use crate::text::{chars_of, push_signed_decimal, signed_decimal, string_of};

verus! {

/// The upper-case form of an ASCII lower-case letter (anything else is
/// unchanged).
pub open spec fn upper(c: char) -> char {
    if 'a' <= c && c <= 'z' {
        ((c as u32) - 32) as char
    } else {
        c
    }
}

/// `s` with its ASCII letters upper-cased.
pub open spec fn upper_seq(s: Seq<char>) -> Seq<char> {
    s.map_values(|c: char| upper(c))
}

/// `s` upper-cased when `up`.
pub open spec fn cased(s: Seq<char>, up: bool) -> Seq<char> {
    if up {
        upper_seq(s)
    } else {
        s
    }
}

/// The bijective base-26 letters of `n` (`1` is `a`, `26` is `z`, `27` is
/// `aa`).
pub open spec fn alpha_letters(n: nat) -> Seq<char>
    decreases n,
{
    if n == 0 {
        Seq::empty()
    } else {
        alpha_letters(((n - 1) as nat) / 26).push(((97 + (n - 1) % 26) as u32) as char)
    }
}

/// The alphabetic marker for `n`; numbers below one fall back to decimal.
pub open spec fn alpha_spec(n: int, up: bool) -> Seq<char> {
    if n < 1 {
        signed_decimal(n)
    } else {
        cased(alpha_letters(n as nat), up)
    }
}

/// `v` upper-cased in place when `up`.
fn apply_case(v: Vec<char>, up: bool) -> (r: Vec<char>)
    ensures
        r@ == cased(v@, up),
{
    if !up {
        return v;
    }
    let mut r: Vec<char> = Vec::new();
    let mut i: usize = 0;
    while i < v.len()
        invariant
            i <= v@.len(),
            r@ == upper_seq(v@.take(i as int)),
        decreases v.len() - i,
    {
        let c = v[i];
        let u = if 'a' <= c && c <= 'z' {
            ((c as u8) - 32) as char
        } else {
            c
        };
        assert(u == upper(c)) by {
            if 'a' <= c && c <= 'z' {
                assert((c as u8) as u32 == c as u32);
            }
        }
        r.push(u);
        assert(v@.take(i + 1) == v@.take(i as int).push(c));
        assert(upper_seq(v@.take(i + 1)) == upper_seq(v@.take(i as int)).push(upper(c)));
        i += 1;
    }
    assert(v@.take(v@.len() as int) == v@);
    r
}

/// The alphabetic list marker for `n`: `a`..`z`, then `aa`, `ab`, ...
pub fn alpha(n: i32, upper: bool) -> (r: String)
    ensures
        r@ == alpha_spec(n as int, upper),
{
    if n < 1 {
        let mut v: Vec<char> = Vec::new();
        push_signed_decimal(&mut v, n as i64);
        assert(Seq::<char>::empty() + signed_decimal(n as int) == signed_decimal(n as int));
        return string_of(&v);
    }
    let mut m: u32 = n as u32;
    let mut rev: Vec<char> = Vec::new();
    while m > 0
        invariant
            alpha_letters(n as nat) == alpha_letters(m as nat) + rev@.reverse(),
        decreases m,
    {
        let d = (m - 1) % 26;
        let c = ((97 + d) as u8) as char;
        assert(c == ((97 + (m - 1) % 26) as u32) as char);
        let ghost before = rev@;
        rev.push(c);
        assert(rev@.reverse() == seq![c] + before.reverse());
        assert(alpha_letters(m as nat) == alpha_letters(((m - 1) / 26) as nat).push(c));
        m = (m - 1) / 26;
    }
    assert(alpha_letters(0) + rev@.reverse() == rev@.reverse());
    let mut out: Vec<char> = Vec::new();
    let mut k: usize = rev.len();
    while k > 0
        invariant
            k <= rev@.len(),
            out@ == rev@.subrange(k as int, rev@.len() as int).reverse(),
        decreases k,
    {
        out.push(rev[k - 1]);
        assert(rev@.subrange(k - 1, rev@.len() as int).reverse() == rev@.subrange(
            k as int,
            rev@.len() as int,
        ).reverse().push(rev@[k - 1]));
        k -= 1;
    }
    assert(rev@.subrange(0, rev@.len() as int) == rev@);
    string_of(&apply_case(out, upper))
}

/// The roman-numeral table, largest value first.
pub open spec fn roman_value(k: nat) -> nat {
    if k == 0 {
        1000
    } else if k == 1 {
        900
    } else if k == 2 {
        500
    } else if k == 3 {
        400
    } else if k == 4 {
        100
    } else if k == 5 {
        90
    } else if k == 6 {
        50
    } else if k == 7 {
        40
    } else if k == 8 {
        10
    } else if k == 9 {
        9
    } else if k == 10 {
        5
    } else if k == 11 {
        4
    } else {
        1
    }
}

/// The numeral for table entry `k`.
pub open spec fn roman_symbol(k: nat) -> Seq<char> {
    if k == 0 {
        "m"@
    } else if k == 1 {
        "cm"@
    } else if k == 2 {
        "d"@
    } else if k == 3 {
        "cd"@
    } else if k == 4 {
        "c"@
    } else if k == 5 {
        "xc"@
    } else if k == 6 {
        "l"@
    } else if k == 7 {
        "xl"@
    } else if k == 8 {
        "x"@
    } else if k == 9 {
        "ix"@
    } else if k == 10 {
        "v"@
    } else if k == 11 {
        "iv"@
    } else {
        "i"@
    }
}

/// The greedy roman numeral for `n`, using table entries from `k` on.
pub open spec fn roman_from(n: nat, k: nat) -> Seq<char>
    decreases 13 - k, n,
{
    if k >= 13 || n == 0 {
        Seq::empty()
    } else if n >= roman_value(k) {
        roman_symbol(k) + roman_from((n - roman_value(k)) as nat, k)
    } else {
        roman_from(n, k + 1)
    }
}

/// The roman-numeral marker for `n`; numbers outside `1..=3999` fall back to
/// decimal.
pub open spec fn roman_spec(n: int, up: bool) -> Seq<char> {
    if n < 1 || n > 3999 {
        signed_decimal(n)
    } else {
        cased(roman_from(n as nat, 0), up)
    }
}

/// The table entry `k` as exec values.
fn roman_entry(k: usize) -> (r: (u32, &'static str))
    requires
        k < 13,
    ensures
        r.0 as nat == roman_value(k as nat),
        r.1@ == roman_symbol(k as nat),
{
    match k {
        0 => (1000, "m"),
        1 => (900, "cm"),
        2 => (500, "d"),
        3 => (400, "cd"),
        4 => (100, "c"),
        5 => (90, "xc"),
        6 => (50, "l"),
        7 => (40, "xl"),
        8 => (10, "x"),
        9 => (9, "ix"),
        10 => (5, "v"),
        11 => (4, "iv"),
        _ => (1, "i"),
    }
}

/// The roman-numeral list marker for `n`.
pub fn roman(n: i32, upper: bool) -> (r: String)
    ensures
        r@ == roman_spec(n as int, upper),
{
    if n < 1 || n > 3999 {
        let mut v: Vec<char> = Vec::new();
        push_signed_decimal(&mut v, n as i64);
        assert(Seq::<char>::empty() + signed_decimal(n as int) == signed_decimal(n as int));
        return string_of(&v);
    }
    let mut m: u32 = n as u32;
    let mut out: Vec<char> = Vec::new();
    let mut k: usize = 0;
    while k < 13
        invariant
            k <= 13,
            roman_from(n as nat, 0) == out@ + roman_from(m as nat, k as nat),
        decreases 13 - k,
    {
        let (value, numeral) = roman_entry(k);
        while m >= value
            invariant
                value as nat == roman_value(k as nat),
                numeral@ == roman_symbol(k as nat),
                k < 13,
                value >= 1,
                roman_from(n as nat, 0) == out@ + roman_from(m as nat, k as nat),
            decreases m,
        {
            let ghost before = out@;
            crate::text::push_str(&mut out, numeral);
            assert(before + (roman_symbol(k as nat) + roman_from((m - value) as nat, k as nat))
                == out@ + roman_from((m - value) as nat, k as nat));
            m -= value;
        }
        k += 1;
    }
    assert(out@ + Seq::<char>::empty() == out@);
    string_of(&apply_case(out, upper))
}

/// The list marker for item `n` of a list of the given `type`: `a`/`A`
/// alphabetic, `i`/`I` roman, anything else decimal.
pub open spec fn format_token_spec(n: int, list_type: Seq<char>) -> Seq<char> {
    if list_type == "a"@ {
        alpha_spec(n, false)
    } else if list_type == "A"@ {
        alpha_spec(n, true)
    } else if list_type == "i"@ {
        roman_spec(n, false)
    } else if list_type == "I"@ {
        roman_spec(n, true)
    } else {
        signed_decimal(n)
    }
}

/// Whether `s` is exactly the one character `c`.
fn is_char(s: &str, c: char) -> (r: bool)
    ensures
        r == (s@ == seq![c]),
{
    let v = chars_of(s);
    let r = v.len() == 1 && v[0] == c;
    if r {
        assert(v@ =~= seq![c]);
    }
    r
}

/// The list marker for item `n` of a list of the given `type`.
pub fn format_token(n: i32, list_type: &str) -> (r: String)
    ensures
        r@ == format_token_spec(n as int, list_type@),
{
    proof {
        reveal_strlit("a");
        reveal_strlit("A");
        reveal_strlit("i");
        reveal_strlit("I");
        assert("a"@ =~= seq!['a']);
        assert("A"@ =~= seq!['A']);
        assert("i"@ =~= seq!['i']);
        assert("I"@ =~= seq!['I']);
    }
    if is_char(list_type, 'a') {
        alpha(n, false)
    } else if is_char(list_type, 'A') {
        alpha(n, true)
    } else if is_char(list_type, 'i') {
        roman(n, false)
    } else if is_char(list_type, 'I') {
        roman(n, true)
    } else {
        let mut v: Vec<char> = Vec::new();
        push_signed_decimal(&mut v, n as i64);
        assert(Seq::<char>::empty() + signed_decimal(n as int) == signed_decimal(n as int));
        string_of(&v)
    }
}

} // verus!
