//! SVG wrappers: what a single-`<image>` SVG frames, and the base64 decoder
//! for the `data:` payloads such wrappers carry.

use vstd::prelude::*;
use vstd::string::StringSliceAdditionalSpecFns;

use crate::text::{
    chars_of, copy_range, find_char, has_infix_ci, has_prefix, string_of, trimmed,
};

verus! {

/// What a wrapper SVG frames: either an inline base64 `data:` payload
/// (decoded to its raw bytes) or a relative path to another resource.
#[derive(Debug, Clone, PartialEq, Eq)]
pub enum WrapperTarget {
    /// A `data:image/...;base64,...` payload, already base64-decoded.
    DataUri(Vec<u8>),
    /// A relative href to another (raster) resource.
    Href(String),
}

/// The 6-bit value of a base64 alphabet byte.
pub open spec fn b64_value(b: u8) -> Option<nat> {
    if 0x41 <= b <= 0x5A {
        Some((b - 0x41) as nat)
    } else if 0x61 <= b <= 0x7A {
        Some((b - 0x61 + 26) as nat)
    } else if 0x30 <= b <= 0x39 {
        Some((b - 0x30 + 52) as nat)
    } else if b == 0x2B {
        Some(62)
    } else if b == 0x2F {
        Some(63)
    } else {
        None
    }
}

/// Whether `b` is white space skipped inside base64 text.
pub open spec fn b64_space(b: u8) -> bool {
    b == 0x20 || b == 0x0A || b == 0x0D || b == 0x09
}

/// Two to the power `n`, for the small shifts the decoder needs.
pub open spec fn pow2(n: nat) -> nat
    decreases n,
{
    if n == 0 {
        1
    } else {
        2 * pow2((n - 1) as nat)
    }
}

/// The decoder's state after a prefix of the input: the bytes produced so
/// far, and the bits not yet output (their value and how many there are);
/// `None` once an invalid byte has been seen. Decoding stops at the first
/// `=`.
pub open spec fn b64_state(input: Seq<u8>) -> Option<(Seq<u8>, nat, nat)>
    decreases input.len(),
{
    if input.len() == 0 {
        Some((Seq::empty(), 0, 0))
    } else {
        match b64_state(input.drop_last()) {
            None => None,
            Some((out, rest, bits)) => {
                let b = input.last();
                if b64_stopped(input.drop_last()) || b == 0x3D || b64_space(b) {
                    Some((out, rest, bits))
                } else {
                    match b64_value(b) {
                        None => None,
                        Some(v) => {
                            let val = rest * 64 + v;
                            if bits + 6 >= 8 {
                                let r = (bits + 6 - 8) as nat;
                                Some((out.push((val / pow2(r)) as u8), val % pow2(r), r))
                            } else {
                                Some((out, val, bits + 6))
                            }
                        },
                    }
                }
            },
        }
    }
}

/// Whether a `=` has been seen in `input`, ending the payload.
pub open spec fn b64_stopped(input: Seq<u8>) -> bool {
    exists|i: int| 0 <= i < input.len() && input[i] == 0x3D
}

/// The bytes a base64 text decodes to, or `None` if it holds a byte that is
/// neither in the alphabet nor white space before its first `=`.
pub open spec fn b64_decoded(input: Seq<u8>) -> Option<Seq<u8>> {
    match b64_state(input) {
        Some((out, _, _)) => Some(out),
        None => None,
    }
}

/// The 6-bit value of a base64 alphabet byte.
fn value_of(b: u8) -> (r: Option<u32>)
    ensures
        match b64_value(b) {
            Some(v) => r == Some(v as u32),
            None => r is None,
        },
{
    if 0x41 <= b && b <= 0x5A {
        Some((b - 0x41) as u32)
    } else if 0x61 <= b && b <= 0x7A {
        Some((b - 0x61 + 26) as u32)
    } else if 0x30 <= b && b <= 0x39 {
        Some((b - 0x30 + 52) as u32)
    } else if b == 0x2B {
        Some(62)
    } else if b == 0x2F {
        Some(63)
    } else {
        None
    }
}

/// Decode standard base64 (white space tolerated, decoding ends at the first
/// `=`). `None` if the text holds any other byte outside the alphabet.
pub fn decode_base64(input: &str) -> (r: Option<Vec<u8>>)
    ensures
        match b64_decoded(input.spec_bytes()) {
            Some(out) => r matches Some(v) && v@ == out,
            None => r is None,
        },
{
    let bytes = input.as_bytes();
    let mut out: Vec<u8> = Vec::new();
    let mut rest: u32 = 0;
    let mut bits: u32 = 0;
    let mut i: usize = 0;
    while i < bytes.len()
        invariant
            i <= bytes@.len(),
            bytes@ == input.spec_bytes(),
            bits == 0 || bits == 2 || bits == 4 || bits == 6,
            rest < pow2(bits as nat),
            b64_state(bytes@.take(i as int)) == Some((out@, rest as nat, bits as nat)),
            !b64_stopped(bytes@.take(i as int)),
        decreases bytes.len() - i,
    {
        let b = bytes[i];
        proof {
            assert(bytes@.take(i + 1).drop_last() == bytes@.take(i as int));
            assert(bytes@.take(i + 1).last() == b);
            reveal_with_fuel(pow2, 7);
        }
        if b == 0x3D {
            proof {
                let ghost s = bytes@;
                assert forall|j: int| (i + 1) as int <= j <= s.len() implies b64_state(s.take(j))
                    == Some((out@, rest as nat, bits as nat)) by {
                    lemma_after_stop(s, i as int, j);
                }
                assert(s.take(s.len() as int) == s);
            }
            return Some(out);
        }
        if b == 0x20 || b == 0x0A || b == 0x0D || b == 0x09 {
            i += 1;
            proof {
                assert(!b64_stopped(bytes@.take(i as int))) by {
                    if b64_stopped(bytes@.take(i as int)) {
                        let j = choose|j: int| 0 <= j < i && bytes@.take(i as int)[j] == 0x3D;
                        assert(bytes@.take(i - 1)[j] == 0x3D);
                    }
                }
            }
            continue;
        }
        let v = match value_of(b) {
            Some(v) => v,
            None => {
                proof {
                    let ghost s = bytes@;
                    assert forall|j: int| (i + 1) as int <= j <= s.len() implies b64_state(
                        s.take(j),
                    ) is None by {
                        lemma_after_fail(s, i as int, j);
                    }
                    assert(s.take(s.len() as int) == s);
                }
                return None;
            },
        };
        let val: u32 = rest * 64 + v;
        if bits + 6 >= 8 {
            let r: u32 = bits + 6 - 8;
            let p: u32 = if r == 0 {
                1
            } else if r == 2 {
                4
            } else {
                16
            };
            assert(p == pow2(r as nat));
            assert(val < 64 * pow2(bits as nat));
            assert(val / p < 256) by (nonlinear_arith)
                requires
                    val < 64 * pow2(bits as nat),
                    p == pow2(r as nat),
                    pow2(bits as nat) * 64 == p * 256,
            ;
            out.push((val / p) as u8);
            rest = val % p;
            bits = r;
        } else {
            rest = val;
            bits = bits + 6;
        }
        i += 1;
        proof {
            assert(!b64_stopped(bytes@.take(i as int))) by {
                if b64_stopped(bytes@.take(i as int)) {
                    let j = choose|j: int| 0 <= j < i && bytes@.take(i as int)[j] == 0x3D;
                    assert(bytes@.take(i - 1)[j] == 0x3D);
                }
            }
        }
    }
    assert(bytes@.take(bytes@.len() as int) == bytes@);
    Some(out)
}

/// Once a `=` has been read the state no longer changes.
proof fn lemma_after_stop(s: Seq<u8>, i: int, j: int)
    requires
        0 <= i < s.len(),
        s[i] == 0x3D,
        i + 1 <= j <= s.len(),
        b64_state(s.take(i)) is Some,
    ensures
        b64_state(s.take(j)) == b64_state(s.take(i)),
    decreases j,
{
    if j == i + 1 {
        assert(s.take(j).drop_last() == s.take(i));
        assert(s.take(j).last() == 0x3D);
    } else {
        lemma_after_stop(s, i, j - 1);
        assert(s.take(j).drop_last() == s.take(j - 1));
        assert(s.take(j - 1)[i] == 0x3D);
    }
}

/// Once an invalid byte has been read the decoding has failed for good.
proof fn lemma_after_fail(s: Seq<u8>, i: int, j: int)
    requires
        0 <= i < s.len(),
        b64_state(s.take(i)) is Some,
        !b64_stopped(s.take(i)),
        s[i] != 0x3D,
        !b64_space(s[i]),
        b64_value(s[i]) is None,
        i + 1 <= j <= s.len(),
    ensures
        b64_state(s.take(j)) is None,
    decreases j,
{
    assert(s.take(j).drop_last() == s.take(j - 1));
    if j == i + 1 {
        assert(s.take(j).last() == s[i]);
    } else {
        lemma_after_fail(s, i, j - 1);
    }
}

} // verus!
