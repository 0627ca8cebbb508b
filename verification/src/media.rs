//! Lossless media metadata removal: container surgery only, never a
//! re-encode, so image quality is kept exactly.
//!
//! A JPEG loses its EXIF/XMP (`APP1`), IPTC (`APP13`) and comment segments;
//! `APP0` (JFIF) and `APP2` (ICC) stay, since dropping the colour profile
//! changes rendering. A PNG loses its text and time chunks, and only after
//! every chunk's CRC-32 has been checked. Anything that does not parse to a
//! terminal marker is refused, so a truncated file is never written back
//! shortened.

use vstd::prelude::*;

use crate::report::Transformation;

use crate::text::{chars_of, lower_seq, push_str, string_of, to_lower, trim, trimmed};

verus! {

// ---------------------------------------------------------------------
// Byte helpers
// ---------------------------------------------------------------------

/// Appends `data[from..to]` to `out`.
fn extend_range(out: &mut Vec<u8>, data: &[u8], from: usize, to: usize)
    requires
        from <= to <= data@.len(),
    ensures
        final(out)@ == old(out)@ + data@.subrange(from as int, to as int),
{
    let mut k: usize = from;
    while k < to
        invariant
            from <= k <= to <= data@.len(),
            out@ == old(out)@ + data@.subrange(from as int, k as int),
        decreases to - k,
    {
        out.push(data[k]);
        assert(data@.subrange(from as int, k + 1) == data@.subrange(from as int, k as int).push(
            data@[k as int],
        ));
        k += 1;
    }
}

// ---------------------------------------------------------------------
// JPEG
// ---------------------------------------------------------------------

/// Segments carrying metadata rather than image data: APP1 (EXIF/XMP),
/// APP13 (IPTC) and COM.
pub open spec fn jpeg_dropped(marker: u8) -> bool {
    marker == 0xE1 || marker == 0xED || marker == 0xFE
}

/// Markers with no length field: TEM and RST0..RST7.
pub open spec fn jpeg_standalone(marker: u8) -> bool {
    marker == 0x01 || (0xD0 <= marker <= 0xD7)
}

/// The first index at or after `i` whose byte is not the `0xFF` fill byte.
pub open spec fn skip_fill(data: Seq<u8>, i: nat) -> nat
    decreases data.len() - i,
{
    if i < data.len() && data[i as int] == 0xFF {
        skip_fill(data, i + 1)
    } else {
        i
    }
}

proof fn lemma_skip_fill(data: Seq<u8>, i: nat)
    ensures
        i <= skip_fill(data, i),
        skip_fill(data, i) < data.len() ==> data[skip_fill(data, i) as int] != 0xFF,
        i <= data.len() ==> skip_fill(data, i) <= data.len(),
    decreases data.len() - i,
{
    if i < data.len() && data[i as int] == 0xFF {
        lemma_skip_fill(data, i + 1);
    }
}

/// The rest of a JPEG rewrite, from the marker at `i` on, given what has
/// been written so far; `None` where the input stops being a JPEG before a
/// start-of-scan or end-of-image marker.
pub open spec fn jpeg_from(data: Seq<u8>, i: nat, out: Seq<u8>) -> Option<Seq<u8>>
    decreases data.len() - i,
{
    if i >= data.len() || data[i as int] != 0xFF {
        None
    } else {
        let j = skip_fill(data, i);
        if j >= data.len() {
            None
        } else {
            let marker = data[j as int];
            let k = j + 1;
            if marker == 0xDA {
                Some(out + data.skip(i as int))
            } else if marker == 0xD9 {
                Some(out + data.subrange(i as int, k as int))
            } else if jpeg_standalone(marker) {
                if k <= i {
                    None
                } else {
                    jpeg_from(data, k, out + data.subrange(i as int, k as int))
                }
            } else if k + 1 >= data.len() {
                None
            } else {
                let end = k + (data[k as int] as nat) * 256 + (data[(k + 1) as int] as nat);
                if end > data.len() || end <= i {
                    None
                } else if jpeg_dropped(marker) {
                    jpeg_from(data, end, out)
                } else {
                    jpeg_from(data, end, out + data.subrange(i as int, end as int))
                }
            }
        }
    }
}

/// A JPEG without its metadata segments, or `None` if `data` is not a
/// parseable JPEG.
pub open spec fn stripped_jpeg(data: Seq<u8>) -> Option<Seq<u8>> {
    if data.len() < 4 || data[0] != 0xFF || data[1] != 0xD8 {
        None
    } else {
        jpeg_from(data, 2, seq![0xFFu8, 0xD8])
    }
}

/// Rewrite a JPEG without its metadata segments. Returns `None` when the
/// input is not a parseable JPEG - including a truncated one that never
/// reaches a start-of-scan or end-of-image marker.
pub fn strip_jpeg(data: &[u8]) -> (r: Option<Vec<u8>>)
    ensures
        match stripped_jpeg(data@) {
            Some(s) => r matches Some(v) && v@ == s,
            None => r is None,
        },
{
    if data.len() < 4 || data[0] != 0xFF || data[1] != 0xD8 {
        return None;
    }
    let mut out: Vec<u8> = vec![0xFF, 0xD8];
    assert(out@ == seq![0xFFu8, 0xD8]);
    let mut i: usize = 2;
    while i < data.len()
        invariant
            2 <= i <= data@.len(),
            stripped_jpeg(data@) == jpeg_from(data@, i as nat, out@),
        decreases data.len() - i,
    {
        if data[i] != 0xFF {
            return None;
        }
        let marker_start = i;
        while i < data.len() && data[i] == 0xFF
            invariant
                marker_start <= i <= data@.len(),
                skip_fill(data@, marker_start as nat) == skip_fill(data@, i as nat),
            decreases data.len() - i,
        {
            i += 1;
        }
        if i >= data.len() {
            return None;
        }
        let marker = data[i];
        i += 1;
        if marker == 0xDA {
            extend_range(&mut out, data, marker_start, data.len());
            assert(data@.subrange(marker_start as int, data@.len() as int) == data@.skip(
                marker_start as int,
            ));
            return Some(out);
        }
        if marker == 0xD9 {
            extend_range(&mut out, data, marker_start, i);
            return Some(out);
        }
        if marker == 0x01 || (0xD0 <= marker && marker <= 0xD7) {
            extend_range(&mut out, data, marker_start, i);
            continue;
        }
        if data.len() - i < 2 {
            return None;
        }
        let len: usize = (data[i] as usize) * 256 + (data[i + 1] as usize);
        if len > data.len() - i {
            return None;
        }
        let end = i + len;
        if end <= marker_start {
            return None;
        }
        if !(marker == 0xE1 || marker == 0xED || marker == 0xFE) {
            extend_range(&mut out, data, marker_start, end);
        }
        i = end;
    }
    None
}

// ---------------------------------------------------------------------
// CRC-32
// ---------------------------------------------------------------------

/// One bit of the reflected CRC-32 polynomial division.
pub open spec fn crc_bit(c: u32) -> u32 {
    if c & 1 != 0 {
        0xEDB8_8320u32 ^ (c >> 1u32)
    } else {
        c >> 1u32
    }
}

/// `k` bits of polynomial division applied to `c`.
pub open spec fn crc_bits(c: u32, k: nat) -> u32
    decreases k,
{
    if k == 0 {
        c
    } else {
        crc_bits(crc_bit(c), (k - 1) as nat)
    }
}

/// Entry `n` of the CRC-32/ISO-HDLC lookup table.
pub open spec fn crc_table_entry(n: u32) -> u32 {
    crc_bits(n, 8)
}

/// The running CRC register after `bytes`, starting from all ones.
pub open spec fn crc_register(bytes: Seq<u8>) -> u32
    decreases bytes.len(),
{
    if bytes.len() == 0 {
        0xFFFF_FFFFu32
    } else {
        let crc = crc_register(bytes.drop_last());
        crc_table_entry((crc ^ (bytes.last() as u32)) & 0xFFu32) ^ (crc >> 8u32)
    }
}

// ---------------------------------------------------------------------
// What JPEG stripping keeps and drops
// ---------------------------------------------------------------------

/// Fill-byte skipping looks only at the bytes from where it starts.
proof fn lemma_skip_fill_shift(x: Seq<u8>, z: Seq<u8>, y: Seq<u8>, j: nat)
    ensures
        skip_fill(x + y, x.len() + j) - x.len() == skip_fill(z + y, z.len() + j) - z.len(),
        skip_fill(x + y, x.len() + j) >= x.len() + j,
    decreases y.len() - j,
{
    lemma_skip_fill(x + y, x.len() + j);
    lemma_skip_fill(z + y, z.len() + j);
    if j < y.len() {
        assert((x + y)[x.len() + j as int] == y[j as int]);
        assert((z + y)[z.len() + j as int] == y[j as int]);
        if y[j as int] == 0xFF {
            lemma_skip_fill_shift(x, z, y, j + 1);
        }
    }
}

/// The rewrite from a position on depends only on the bytes from there
/// on, whatever precedes them.
proof fn lemma_jpeg_from_shift(x: Seq<u8>, z: Seq<u8>, y: Seq<u8>, j: nat, out: Seq<u8>)
    ensures
        jpeg_from(x + y, x.len() + j, out) == jpeg_from(z + y, z.len() + j, out),
    decreases y.len() - j,
{
    let d1 = x + y;
    let d2 = z + y;
    let i1 = x.len() + j;
    let i2 = z.len() + j;
    if j < y.len() {
        assert(d1[i1 as int] == y[j as int] && d2[i2 as int] == y[j as int]);
        if y[j as int] == 0xFF {
            lemma_skip_fill_shift(x, z, y, j);
            lemma_skip_fill(d1, i1);
            lemma_skip_fill(d2, i2);
            let j1 = skip_fill(d1, i1);
            let j2 = skip_fill(d2, i2);
            let o = (j1 - x.len()) as nat;
            assert(j2 - z.len() == o);
            if j1 < d1.len() {
                assert(d1[j1 as int] == y[o as int] && d2[j2 as int] == y[o as int]);
                let k1 = j1 + 1;
                let k2 = j2 + 1;
                assert(d1.skip(i1 as int) =~= y.skip(j as int));
                assert(d2.skip(i2 as int) =~= y.skip(j as int));
                assert(d1.subrange(i1 as int, k1 as int) =~= y.subrange(j as int, o + 1int));
                assert(d2.subrange(i2 as int, k2 as int) =~= y.subrange(j as int, o + 1int));
                let marker = y[o as int];
                if marker != 0xDA && marker != 0xD9 {
                    if jpeg_standalone(marker) {
                        lemma_jpeg_from_shift(x, z, y, o + 1, out + y.subrange(j as int, o + 1int));
                    } else if k1 + 1 < d1.len() {
                        assert(d1[k1 as int] == y[o + 1int] && d2[k2 as int] == y[o + 1int]);
                        assert(d1[(k1 + 1) as int] == y[o + 2int] && d2[(k2 + 1) as int] == y[o + 2int]);
                        let len = (y[o + 1int] as nat) * 256 + (y[o + 2int] as nat);
                        let e = o + 1 + len;
                        if e <= y.len() && e > j {
                            assert(d1.subrange(i1 as int, (k1 + len) as int) =~= y.subrange(j as int, e as int));
                            assert(d2.subrange(i2 as int, (k2 + len) as int) =~= y.subrange(j as int, e as int));
                            lemma_jpeg_from_shift(x, z, y, e, out);
                            lemma_jpeg_from_shift(x, z, y, e, out + y.subrange(j as int, e as int));
                        }
                    }
                }
            }
        }
    }
}

/// What the rewrite appends does not depend on what was written before.
proof fn lemma_jpeg_from_acc(d: Seq<u8>, i: nat, o: Seq<u8>)
    ensures
        jpeg_from(d, i, o) == match jpeg_from(d, i, Seq::empty()) {
            Some(t) => Some(o + t),
            None => None,
        },
    decreases d.len() - i,
{
    let e = Seq::<u8>::empty();
    if i < d.len() && d[i as int] == 0xFF {
        lemma_skip_fill(d, i);
        let j = skip_fill(d, i);
        if j < d.len() {
            let marker = d[j as int];
            let k = j + 1;
            if marker == 0xDA {
                assert(e + d.skip(i as int) =~= d.skip(i as int));
            } else if marker == 0xD9 {
                assert(e + d.subrange(i as int, k as int) =~= d.subrange(i as int, k as int));
            } else if jpeg_standalone(marker) {
                if k > i {
                    let seg = d.subrange(i as int, k as int);
                    lemma_jpeg_from_acc(d, k, o + seg);
                    lemma_jpeg_from_acc(d, k, e + seg);
                    assert(e + seg =~= seg);
                    if jpeg_from(d, k, e) is Some {
                        assert(o + seg + jpeg_from(d, k, e)->0 =~= o + (seg + jpeg_from(d, k, e)->0));
                    }
                }
            } else if k + 1 < d.len() {
                let end = k + (d[k as int] as nat) * 256 + (d[(k + 1) as int] as nat);
                if end <= d.len() && end > i {
                    if jpeg_dropped(marker) {
                        lemma_jpeg_from_acc(d, end, o);
                    } else {
                        let seg = d.subrange(i as int, end as int);
                        lemma_jpeg_from_acc(d, end, o + seg);
                        lemma_jpeg_from_acc(d, end, e + seg);
                        assert(e + seg =~= seg);
                        if jpeg_from(d, end, e) is Some {
                            assert(o + seg + jpeg_from(d, end, e)->0 =~= o + (seg + jpeg_from(d, end, e)->0));
                        }
                    }
                }
            }
        }
    }
}

/// A segment with marker `marker` and payload `payload`: `FF`, the marker,
/// the big-endian length (payload plus the two length bytes), the payload.
pub open spec fn jpeg_segment(marker: u8, payload: Seq<u8>) -> Seq<u8> {
    seq![0xFFu8, marker, ((payload.len() + 2) / 256) as u8, ((payload.len() + 2) % 256) as u8]
        + payload
}

/// Which stripper a resource gets is decided by its bytes: a JPEG start
/// (`FF D8`) or a PNG signature is stripped as such whatever type it is
/// declared with, and bytes with neither are never rewritten.
pub proof fn law_strip_follows_the_bytes(media_type: Seq<char>, d: Seq<u8>)
    ensures
        d.len() >= 2 && d[0] == 0xFF && d[1] == 0xD8 ==> stripped_resource(media_type, d)
            == stripped_jpeg(d),
        d.len() >= 8 && d.take(8) == seq![0x89u8, 0x50, 0x4E, 0x47, 0x0D, 0x0A, 0x1A, 0x0A]
            ==> stripped_resource(media_type, d) == stripped_png(d),
        !(d.len() >= 2 && d[0] == 0xFF && d[1] == 0xD8) && !(d.len() >= 8 && d.take(8) == seq![
            0x89u8,
            0x50,
            0x4E,
            0x47,
            0x0D,
            0x0A,
            0x1A,
            0x0A,
        ]) ==> stripped_resource(media_type, d) is None,
{
    if d.len() >= 8 && d.take(8) == png_signature() {
        assert(d[0] == d.take(8)[0]);
    }
}

/// Everything from the start-of-scan marker on (the entropy-coded image
/// data) is copied byte for byte, and the end-of-image marker ends the
/// output; data that does not open with the start-of-image marker `FF D8`
/// is no JPEG to rewrite.
pub proof fn law_jpeg_scan_data_is_copied_and_eoi_ends(rest: Seq<u8>)
    ensures
        stripped_jpeg(seq![0xFFu8, 0xD8, 0xFF, 0xDA] + rest) == Some(
            seq![0xFFu8, 0xD8, 0xFF, 0xDA] + rest,
        ),
        stripped_jpeg(seq![0xFFu8, 0xD8, 0xFF, 0xD9] + rest) == Some(seq![0xFFu8, 0xD8, 0xFF, 0xD9]),
        forall|d: Seq<u8>| #![trigger stripped_jpeg(d)]
            d.len() < 2 || d[0] != 0xFF || d[1] != 0xD8 ==> stripped_jpeg(d) is None,
{
    let d1 = seq![0xFFu8, 0xD8, 0xFF, 0xDA] + rest;
    assert(d1[2] == 0xFF && d1[3] == 0xDA);
    assert(skip_fill(d1, 3) == 3);
    assert(skip_fill(d1, 2) == 3);
    assert(seq![0xFFu8, 0xD8] + d1.skip(2) =~= d1);
    let d2 = seq![0xFFu8, 0xD8, 0xFF, 0xD9] + rest;
    assert(d2[2] == 0xFF && d2[3] == 0xD9);
    assert(skip_fill(d2, 3) == 3);
    assert(skip_fill(d2, 2) == 3);
    assert(seq![0xFFu8, 0xD8] + d2.subrange(2, 4) =~= seq![0xFFu8, 0xD8, 0xFF, 0xD9]);
}

/// A metadata segment (APP1 `FF E1` with EXIF or XMP, APP13 `FF ED` with
/// IPTC, or a comment `FF FE`) right after the start-of-image marker
/// leaves no trace: stripping the JPEG gives what stripping it without
/// that segment gives.
pub proof fn law_jpeg_metadata_segments_are_dropped(marker: u8, payload: Seq<u8>, rest: Seq<u8>)
    requires
        marker == 0xE1 || marker == 0xED || marker == 0xFE,
        payload.len() + 2 < 65536,
    ensures
        stripped_jpeg(seq![0xFFu8, 0xD8] + jpeg_segment(marker, payload) + rest) == stripped_jpeg(
            seq![0xFFu8, 0xD8] + rest,
        ),
{
    let h = seq![0xFFu8, 0xD8];
    let seg = jpeg_segment(marker, payload);
    let d = h + seg + rest;
    let hr = h + rest;
    assert(d[0] == 0xFF && d[1] == 0xD8 && d[2] == 0xFF && d[3] == marker);
    assert(d[4] == seg[2] && d[5] == seg[3]);
    let n = payload.len() + 2;
    assert((n / 256) * 256 + n % 256 == n) by (nonlinear_arith);
    assert(skip_fill(d, 3) == 3);
    assert(skip_fill(d, 2) == 3);
    assert((h + seg) + rest =~= d);
    assert((h + seg).len() == n + 4);
    assert(jpeg_from(d, 2, h) == jpeg_from(d, (n + 4) as nat, h));
    lemma_jpeg_from_shift(h + seg, h, rest, 0, h);
    if rest.len() < 2 {
        if rest.len() == 1 {
            lemma_skip_fill(hr, 2);
        }
    }
}

/// Any other segment with a length field is kept in place: the stripped
/// JPEG is the start-of-image marker, that segment byte for byte, then
/// what stripping the rest gives.
pub proof fn law_jpeg_other_segments_are_kept(marker: u8, payload: Seq<u8>, rest: Seq<u8>)
    requires
        marker != 0xFF && marker != 0xDA && marker != 0xD9 && marker != 0x01 && !(0xD0 <= marker
            <= 0xD7),
        marker != 0xE1 && marker != 0xED && marker != 0xFE,
        payload.len() + 2 < 65536,
    ensures
        stripped_jpeg(seq![0xFFu8, 0xD8] + jpeg_segment(marker, payload) + rest) == match stripped_jpeg(
            seq![0xFFu8, 0xD8] + rest,
        ) {
            Some(o) => Some(seq![0xFFu8, 0xD8] + jpeg_segment(marker, payload) + o.skip(2)),
            None => None,
        },
{
    let h = seq![0xFFu8, 0xD8];
    let seg = jpeg_segment(marker, payload);
    let d = h + seg + rest;
    let hr = h + rest;
    let e = Seq::<u8>::empty();
    assert(d[0] == 0xFF && d[1] == 0xD8 && d[2] == 0xFF && d[3] == marker);
    assert(d[4] == seg[2] && d[5] == seg[3]);
    let n = payload.len() + 2;
    assert((n / 256) * 256 + n % 256 == n) by (nonlinear_arith);
    assert(skip_fill(d, 3) == 3);
    assert(skip_fill(d, 2) == 3);
    assert((h + seg) + rest =~= d);
    assert((h + seg).len() == n + 4);
    assert(d.subrange(2, (n + 4) as int) =~= seg);
    assert(jpeg_from(d, 2, h) == jpeg_from(d, (n + 4) as nat, h + seg));
    lemma_jpeg_from_acc(d, (n + 4) as nat, h + seg);
    lemma_jpeg_from_acc(hr, 2, h);
    lemma_jpeg_from_shift(h + seg, h, rest, 0, e);
    if rest.len() < 2 {
        if rest.len() == 1 {
            lemma_skip_fill(hr, 2);
        }
    } else {
        if jpeg_from(hr, 2, e) is Some {
            let t = jpeg_from(hr, 2, e)->0;
            assert((h + t).skip(2) =~= t);
        }
    }
}

/// CRC-32/ISO-HDLC over `bytes` (the checksum PNG stores after each chunk).
pub open spec fn crc32_spec(bytes: Seq<u8>) -> u32 {
    crc_register(bytes) ^ 0xFFFF_FFFFu32
}

/// The CRC-32 lookup table, entry `n` at index `n`.
fn crc32_table() -> (t: Vec<u32>)
    ensures
        t@.len() == 256,
        forall|n: int| 0 <= n < 256 ==> t@[n] == crc_table_entry(n as u32),
{
    let mut t: Vec<u32> = Vec::new();
    let mut n: u32 = 0;
    while n < 256
        invariant
            n <= 256,
            t@.len() == n,
            forall|m: int| 0 <= m < n ==> t@[m] == crc_table_entry(m as u32),
        decreases 256 - n,
    {
        let mut c: u32 = n;
        let mut k: u32 = 0;
        while k < 8
            invariant
                k <= 8,
                crc_bits(c, (8 - k) as nat) == crc_table_entry(n),
            decreases 8 - k,
        {
            c = if c & 1 != 0 {
                0xEDB8_8320 ^ (c >> 1)
            } else {
                c >> 1
            };
            k += 1;
        }
        t.push(c);
        n += 1;
    }
    t
}

/// CRC-32 over `bytes[from..to]` with a prepared table.
fn crc32_range(table: &Vec<u32>, bytes: &[u8], from: usize, to: usize) -> (r: u32)
    requires
        table@.len() == 256,
        forall|n: int| 0 <= n < 256 ==> table@[n] == crc_table_entry(n as u32),
        from <= to <= bytes@.len(),
    ensures
        r == crc32_spec(bytes@.subrange(from as int, to as int)),
{
    let mut crc: u32 = 0xFFFF_FFFF;
    let mut k: usize = from;
    while k < to
        invariant
            from <= k <= to <= bytes@.len(),
            table@.len() == 256,
            forall|n: int| 0 <= n < 256 ==> table@[n] == crc_table_entry(n as u32),
            crc == crc_register(bytes@.subrange(from as int, k as int)),
        decreases to - k,
    {
        let b = bytes[k];
        let idx: u32 = (crc ^ (b as u32)) & 0xFF;
        assert(idx < 256) by (bit_vector)
            requires
                idx == (crc ^ (b as u32)) & 0xFFu32,
        ;
        crc = table[idx as usize] ^ (crc >> 8);
        proof {
            let s = bytes@.subrange(from as int, k + 1);
            assert(s.drop_last() == bytes@.subrange(from as int, k as int));
            assert(s.last() == b);
        }
        k += 1;
    }
    crc ^ 0xFFFF_FFFF
}

/// CRC-32/ISO-HDLC over `bytes`, matching the checksum PNG stores at the end
/// of every chunk.
pub fn crc32(bytes: &[u8]) -> (r: u32)
    ensures
        r == crc32_spec(bytes@),
{
    let table = crc32_table();
    let r = crc32_range(&table, bytes, 0, bytes.len());
    assert(bytes@.subrange(0, bytes@.len() as int) == bytes@);
    r
}

// ---------------------------------------------------------------------
// PNG
// ---------------------------------------------------------------------

/// The PNG signature.
pub open spec fn png_signature() -> Seq<u8> {
    seq![0x89u8, 0x50, 0x4E, 0x47, 0x0D, 0x0A, 0x1A, 0x0A]
}

/// The big-endian 32-bit number at `data[i..i + 4]`.
pub open spec fn be32(data: Seq<u8>, i: int) -> nat {
    (data[i] as nat) * 16777216 + (data[i + 1] as nat) * 65536 + (data[i + 2] as nat) * 256 + (
    data[i + 3] as nat)
}

/// Chunks that carry no image data: `tEXt`, `iTXt`, `zTXt`, `tIME`, `eXIf`.
pub open spec fn png_dropped(kind: Seq<u8>) -> bool {
    kind == seq![0x74u8, 0x45, 0x58, 0x74] || kind == seq![0x69u8, 0x54, 0x58, 0x74] || kind
        == seq![0x7Au8, 0x54, 0x58, 0x74] || kind == seq![0x74u8, 0x49, 0x4D, 0x45] || kind
        == seq![0x65u8, 0x58, 0x49, 0x66]
}

/// The `IEND` chunk type.
pub open spec fn png_iend() -> Seq<u8> {
    seq![0x49u8, 0x45, 0x4E, 0x44]
}

/// The rest of a PNG rewrite, from the chunk at `i` on; `None` where a chunk
/// runs past the end, fails its CRC, or the data ends before `IEND`.
pub open spec fn png_from(data: Seq<u8>, i: nat, out: Seq<u8>) -> Option<Seq<u8>>
    decreases data.len() - i,
{
    if i + 8 > data.len() {
        None
    } else {
        let end = i + 12 + be32(data, i as int);
        let kind = data.subrange(i + 4int, i + 8int);
        if end > data.len() {
            None
        } else if crc32_spec(data.subrange(i + 4int, end - 4int)) != be32(data, end - 4) {
            None
        } else {
            let next = if png_dropped(kind) {
                out
            } else {
                out + data.subrange(i as int, end as int)
            };
            if kind == png_iend() {
                Some(next)
            } else {
                png_from(data, end, next)
            }
        }
    }
}

/// A PNG without its text and time chunks, or `None` if `data` is not a
/// parseable PNG.
pub open spec fn stripped_png(data: Seq<u8>) -> Option<Seq<u8>> {
    if data.len() < 8 || data.take(8) != png_signature() {
        None
    } else {
        png_from(data, 8, png_signature())
    }
}

/// The PNG rewrite from a chunk on depends only on the bytes from there
/// on, whatever precedes them.
proof fn lemma_png_from_shift(x: Seq<u8>, z: Seq<u8>, y: Seq<u8>, j: nat, out: Seq<u8>)
    ensures
        png_from(x + y, x.len() + j, out) == png_from(z + y, z.len() + j, out),
    decreases y.len() - j,
{
    let d1 = x + y;
    let d2 = z + y;
    let i1: int = x.len() + j as int;
    let i2: int = z.len() + j as int;
    if j + 8 <= y.len() {
        assert(d1[i1] == y[j as int] && d2[i2] == y[j as int]);
        assert(d1[i1 + 1] == y[j + 1int] && d2[i2 + 1] == y[j + 1int]);
        assert(d1[i1 + 2] == y[j + 2int] && d2[i2 + 2] == y[j + 2int]);
        assert(d1[i1 + 3] == y[j + 3int] && d2[i2 + 3] == y[j + 3int]);
        let n = be32(y, j as int);
        assert(be32(d1, i1) == n && be32(d2, i2) == n);
        assert(d1.subrange(i1 + 4int, i1 + 8int) =~= y.subrange(j + 4int, j + 8int));
        assert(d2.subrange(i2 + 4int, i2 + 8int) =~= y.subrange(j + 4int, j + 8int));
        let e = j + 12 + n;
        if e <= y.len() {
            assert(d1.subrange(i1 + 4int, i1 + 12 + n - 4) =~= y.subrange(j + 4int, e - 4));
            assert(d2.subrange(i2 + 4int, i2 + 12 + n - 4) =~= y.subrange(j + 4int, e - 4));
            assert(d1[i1 + 12 + n - 4] == y[e - 4] && d2[i2 + 12 + n - 4] == y[e - 4]);
            assert(d1[i1 + 12 + n - 3] == y[e - 3] && d2[i2 + 12 + n - 3] == y[e - 3]);
            assert(d1[i1 + 12 + n - 2] == y[e - 2] && d2[i2 + 12 + n - 2] == y[e - 2]);
            assert(d1[i1 + 12 + n - 1] == y[e - 1] && d2[i2 + 12 + n - 1] == y[e - 1]);
            assert(be32(d1, i1 + 12 + n - 4) == be32(y, e - 4));
            assert(be32(d2, i2 + 12 + n - 4) == be32(y, e - 4));
            assert(d1.subrange(i1, i1 + 12 + n) =~= y.subrange(j as int, e as int));
            assert(d2.subrange(i2, i2 + 12 + n) =~= y.subrange(j as int, e as int));
            lemma_png_from_shift(x, z, y, e, out);
            lemma_png_from_shift(x, z, y, e, out + y.subrange(j as int, e as int));
        }
    }
}

/// What the PNG rewrite appends does not depend on what was written before.
proof fn lemma_png_from_acc(d: Seq<u8>, i: nat, o: Seq<u8>)
    ensures
        png_from(d, i, o) == match png_from(d, i, Seq::empty()) {
            Some(t) => Some(o + t),
            None => None,
        },
    decreases d.len() - i,
{
    let e = Seq::<u8>::empty();
    if i + 8 <= d.len() {
        let end = i + 12 + be32(d, i as int);
        let kind = d.subrange(i + 4int, i + 8int);
        if end <= d.len() && crc32_spec(d.subrange(i + 4int, end - 4int)) == be32(d, end - 4) {
            let seg = d.subrange(i as int, end as int);
            assert(e + seg =~= seg);
            if png_dropped(kind) {
                if kind != png_iend() {
                    lemma_png_from_acc(d, end, o);
                }
                assert(o + e =~= o);
            } else {
                if kind != png_iend() {
                    lemma_png_from_acc(d, end, o + seg);
                    lemma_png_from_acc(d, end, seg);
                    if png_from(d, end, e) is Some {
                        assert(o + seg + png_from(d, end, e)->0 =~= o + (seg + png_from(d, end, e)->0));
                    }
                }
            }
        }
    }
}

/// Whether `chunk` is one well-formed PNG chunk: a big-endian length, a
/// four-byte type, that many bytes of data and a matching CRC.
pub open spec fn png_chunk_ok(chunk: Seq<u8>) -> bool {
    &&& chunk.len() >= 12
    &&& be32(chunk, 0) + 12 == chunk.len()
    &&& crc32_spec(chunk.subrange(4, chunk.len() - 4)) == be32(chunk, chunk.len() - 4)
}

/// A text or time chunk (`tEXt`, `iTXt`, `zTXt`, `tIME`, `eXIf`) right
/// after the signature leaves no trace: stripping the PNG gives what
/// stripping it without that chunk gives.
pub proof fn law_png_text_chunks_are_dropped(chunk: Seq<u8>, rest: Seq<u8>)
    requires
        png_chunk_ok(chunk),
        ({
            let k = chunk.subrange(4, 8);
            k == seq![0x74u8, 0x45, 0x58, 0x74] || k == seq![0x69u8, 0x54, 0x58, 0x74] || k
                == seq![0x7Au8, 0x54, 0x58, 0x74] || k == seq![0x74u8, 0x49, 0x4D, 0x45] || k
                == seq![0x65u8, 0x58, 0x49, 0x66]
        }),
    ensures
        stripped_png(png_signature() + chunk + rest) == stripped_png(png_signature() + rest),
{
    let sig = png_signature();
    let d = sig + chunk + rest;
    assert((sig + chunk) + rest =~= d);
    assert(d.take(8) =~= sig);
    assert((sig + rest).len() >= 8 ==> (sig + rest).take(8) =~= sig);
    assert(d[8] == chunk[0] && d[9] == chunk[1] && d[10] == chunk[2] && d[11] == chunk[3]);
    assert(be32(d, 8) == be32(chunk, 0));
    let end = 8 + chunk.len();
    assert(d.subrange(12, 16) =~= chunk.subrange(4, 8));
    assert(d.subrange(12, end - 4) =~= chunk.subrange(4, chunk.len() - 4));
    let c = chunk.len();
    assert(d[end - 4] == chunk[c - 4] && d[end - 3] == chunk[c - 3] && d[end - 2] == chunk[c - 2] && d[end - 1] == chunk[c - 1]);
    assert(be32(d, end - 4) == be32(chunk, c - 4));
    assert(chunk.subrange(4, 8) != png_iend());
    assert(png_from(d, 8, sig) == png_from(d, end as nat, sig));
    lemma_png_from_shift(sig + chunk, sig, rest, 0, sig);
}

/// Any other chunk but `IEND` is kept in place: the stripped PNG is the
/// signature, that chunk byte for byte, then what stripping the rest
/// gives.
pub proof fn law_png_other_chunks_are_kept(chunk: Seq<u8>, rest: Seq<u8>)
    requires
        png_chunk_ok(chunk),
        ({
            let k = chunk.subrange(4, 8);
            &&& k != seq![0x74u8, 0x45, 0x58, 0x74]
            &&& k != seq![0x69u8, 0x54, 0x58, 0x74]
            &&& k != seq![0x7Au8, 0x54, 0x58, 0x74]
            &&& k != seq![0x74u8, 0x49, 0x4D, 0x45]
            &&& k != seq![0x65u8, 0x58, 0x49, 0x66]
            &&& k != seq![0x49u8, 0x45, 0x4E, 0x44]
        }),
    ensures
        stripped_png(png_signature() + chunk + rest) == match stripped_png(png_signature() + rest) {
            Some(o) => Some(png_signature() + chunk + o.skip(8)),
            None => None,
        },
{
    let sig = png_signature();
    let e = Seq::<u8>::empty();
    let d = sig + chunk + rest;
    let sr = sig + rest;
    assert((sig + chunk) + rest =~= d);
    assert(d.take(8) =~= sig);
    assert(sr.take(8) =~= sig);
    assert(d[8] == chunk[0] && d[9] == chunk[1] && d[10] == chunk[2] && d[11] == chunk[3]);
    assert(be32(d, 8) == be32(chunk, 0));
    let end = 8 + chunk.len();
    assert(d.subrange(12, 16) =~= chunk.subrange(4, 8));
    assert(d.subrange(12, end - 4) =~= chunk.subrange(4, chunk.len() - 4));
    let c = chunk.len();
    assert(d[end - 4] == chunk[c - 4] && d[end - 3] == chunk[c - 3] && d[end - 2] == chunk[c - 2] && d[end - 1] == chunk[c - 1]);
    assert(be32(d, end - 4) == be32(chunk, c - 4));
    assert(d.subrange(8, end as int) =~= chunk);
    assert(png_from(d, 8, sig) == png_from(d, end as nat, sig + chunk));
    lemma_png_from_acc(d, end as nat, sig + chunk);
    lemma_png_from_acc(sr, 8, sig);
    lemma_png_from_shift(sig + chunk, sig, rest, 0, e);
    if png_from(sr, 8, e) is Some {
        let t = png_from(sr, 8, e)->0;
        assert((sig + t).skip(8) =~= t);
    }
}

/// The big-endian 32-bit number at `data[i..i + 4]`.
fn read_be32(data: &[u8], i: usize) -> (r: u32)
    requires
        i + 4 <= data@.len(),
    ensures
        r as nat == be32(data@, i as int),
{
    (data[i] as u32) * 16777216 + (data[i + 1] as u32) * 65536 + (data[i + 2] as u32) * 256 + (
    data[i + 3] as u32)
}

/// Whether `data[i..i + 4]` equals the four bytes given.
fn kind_is(data: &[u8], i: usize, a: u8, b: u8, c: u8, d: u8) -> (r: bool)
    requires
        i + 4 <= data@.len(),
    ensures
        r == (data@.subrange(i as int, i + 4) == seq![a, b, c, d]),
{
    let r = data[i] == a && data[i + 1] == b && data[i + 2] == c && data[i + 3] == d;
    if r {
        assert(data@.subrange(i as int, i + 4) =~= seq![a, b, c, d]);
    } else {
        proof {
            let s = data@.subrange(i as int, i + 4);
            assert(s[0] != a || s[1] != b || s[2] != c || s[3] != d);
        }
    }
    r
}

/// Whether `data` starts with the PNG signature.
fn has_png_signature(data: &[u8]) -> (r: bool)
    ensures
        r == (data@.len() >= 8 && data@.take(8) == png_signature()),
{
    if data.len() < 8 {
        return false;
    }
    let a = kind_is(data, 0, 0x89, 0x50, 0x4E, 0x47);
    let b = kind_is(data, 4, 0x0D, 0x0A, 0x1A, 0x0A);
    proof {
        assert(png_signature().subrange(0, 4) =~= seq![0x89u8, 0x50, 0x4E, 0x47]);
        assert(png_signature().subrange(4, 8) =~= seq![0x0Du8, 0x0A, 0x1A, 0x0A]);
        assert(data@.subrange(0, 4) == data@.take(8).subrange(0, 4));
        assert(data@.subrange(4, 8) == data@.take(8).subrange(4, 8));
        if a && b {
            assert(data@.take(8) =~= png_signature());
        }
    }
    a && b
}


/// Rewrite a PNG without its ancillary text chunks. Returns `None` when the
/// input is not a parseable PNG - a bad signature, a chunk running past the
/// end, a CRC mismatch, or no `IEND`.
pub fn strip_png(data: &[u8]) -> (r: Option<Vec<u8>>)
    ensures
        match stripped_png(data@) {
            Some(s) => r matches Some(v) && v@ == s,
            None => r is None,
        },
{
    if !has_png_signature(data) {
        return None;
    }
    let table = crc32_table();
    let mut out: Vec<u8> = Vec::new();
    extend_range(&mut out, data, 0, 8);
    assert(out@ == png_signature());
    let mut i: usize = 8;
    while i <= data.len() && data.len() - i >= 8
        invariant
            8 <= i <= data@.len(),
            table@.len() == 256,
            forall|n: int| 0 <= n < 256 ==> table@[n] == crc_table_entry(n as u32),
            stripped_png(data@) == png_from(data@, i as nat, out@),
        decreases data.len() - i,
    {
        let len = read_be32(data, i) as usize;
        if data.len() - i < 12 {
            return None;
        }
        if len > data.len() - i - 12 {
            return None;
        }
        let end = i + 12 + len;
        let stored = read_be32(data, end - 4);
        if crc32_range(&table, data, i + 4, end - 4) != stored {
            return None;
        }
        let iend = kind_is(data, i + 4, 0x49, 0x45, 0x4E, 0x44);
        let drop = kind_is(data, i + 4, 0x74, 0x45, 0x58, 0x74) || kind_is(
            data,
            i + 4,
            0x69,
            0x54,
            0x58,
            0x74,
        ) || kind_is(data, i + 4, 0x7A, 0x54, 0x58, 0x74) || kind_is(
            data,
            i + 4,
            0x74,
            0x49,
            0x4D,
            0x45,
        ) || kind_is(data, i + 4, 0x65, 0x58, 0x49, 0x66);
        if !drop {
            extend_range(&mut out, data, i, end);
        }
        i = end;
        if iend {
            return Some(out);
        }
    }
    None
}

// ---------------------------------------------------------------------
// Choosing the stripper
// ---------------------------------------------------------------------

/// A declared media type normalized for matching: the part before any `;`
/// parameter, trimmed and ASCII-lowercased.
pub open spec fn normalized_media_type(mt: Seq<char>) -> Seq<char> {
    let i = crate::text::index_of(mt, ';');
    let head = if i < 0 {
        mt
    } else {
        mt.take(i)
    };
    lower_seq(trim(head))
}

/// Normalize a declared media type for matching: trimmed, lowercased, with
/// any `;`-separated parameter stripped. `image/jpg` stays a different
/// string from `image/jpeg`.
pub fn normalize_media_type(media_type: &str) -> (r: String)
    ensures
        r@ == normalized_media_type(media_type@),
{
    let v = chars_of(media_type);
    let head = match crate::text::find_char(&v, ';') {
        Some(i) => crate::text::copy_range(&v, 0, i),
        None => crate::text::copy_range(&v, 0, v.len()),
    };
    assert(v@.subrange(0, v@.len() as int) == v@);
    string_of(&to_lower(&trimmed(&head)))
}

/// Which stripper applies to a resource.
#[derive(Debug, Clone, Copy, PartialEq, Eq)]
pub enum ImageKind {
    Jpeg,
    Png,
}

/// The stripper a resource gets: decided by its magic bytes first (a
/// mis-declared image is exactly what a privacy pass must see through), and
/// by its normalized declared media type otherwise.
pub open spec fn image_kind_spec(media_type: Seq<char>, data: Seq<u8>) -> Option<ImageKind> {
    if data.len() >= 2 && data[0] == 0xFF && data[1] == 0xD8 {
        Some(ImageKind::Jpeg)
    } else if data.len() >= 8 && data.take(8) == png_signature() {
        Some(ImageKind::Png)
    } else if normalized_media_type(media_type) == "image/jpeg"@ {
        Some(ImageKind::Jpeg)
    } else if normalized_media_type(media_type) == "image/png"@ {
        Some(ImageKind::Png)
    } else {
        None
    }
}

/// Which stripper applies to a resource.
pub fn image_kind(media_type: &str, data: &[u8]) -> (r: Option<ImageKind>)
    ensures
        r == image_kind_spec(media_type@, data@),
{
    if data.len() >= 2 && data[0] == 0xFF && data[1] == 0xD8 {
        return Some(ImageKind::Jpeg);
    }
    if has_png_signature(data) {
        return Some(ImageKind::Png);
    }
    let n = chars_of(normalize_media_type(media_type).as_str());
    if crate::text::same_chars(&n, &chars_of("image/jpeg")) {
        Some(ImageKind::Jpeg)
    } else if crate::text::same_chars(&n, &chars_of("image/png")) {
        Some(ImageKind::Png)
    } else {
        None
    }
}

/// What stripping a resource yields: the rewritten bytes, or `None` when it
/// is not an image this pass handles or does not parse.
pub open spec fn stripped_resource(media_type: Seq<char>, data: Seq<u8>) -> Option<Seq<u8>> {
    match image_kind_spec(media_type, data) {
        Some(ImageKind::Jpeg) => stripped_jpeg(data),
        Some(ImageKind::Png) => stripped_png(data),
        None => None,
    }
}

/// Strip one resource's image metadata.
pub fn strip_resource(media_type: &str, data: &[u8]) -> (r: Option<Vec<u8>>)
    ensures
        match stripped_resource(media_type@, data@) {
            Some(s) => r matches Some(v) && v@ == s,
            None => r is None,
        },
{
    match image_kind(media_type, data) {
        Some(ImageKind::Jpeg) => strip_jpeg(data),
        Some(ImageKind::Png) => strip_png(data),
        None => None,
    }
}

proof fn lemma_jpeg_from_len(data: Seq<u8>, i: nat, out: Seq<u8>)
    requires
        out.len() <= i <= data.len(),
    ensures
        jpeg_from(data, i, out) matches Some(r) ==> r.len() <= data.len(),
    decreases data.len() - i,
{
    if i < data.len() && data[i as int] == 0xFF {
        lemma_skip_fill(data, i);
        let j = skip_fill(data, i);
        if j < data.len() {
            let marker = data[j as int];
            let k = j + 1;
            if marker != 0xDA && marker != 0xD9 {
                if jpeg_standalone(marker) {
                    if k > i {
                        lemma_jpeg_from_len(data, k, out + data.subrange(i as int, k as int));
                    }
                } else if k + 1 < data.len() {
                    let end = k + (data[k as int] as nat) * 256 + (data[(k + 1) as int] as nat);
                    if end <= data.len() && end > i {
                        if jpeg_dropped(marker) {
                            lemma_jpeg_from_len(data, end, out);
                        } else {
                            lemma_jpeg_from_len(
                                data,
                                end,
                                out + data.subrange(i as int, end as int),
                            );
                        }
                    }
                }
            }
        }
    }
}

proof fn lemma_png_from_len(data: Seq<u8>, i: nat, out: Seq<u8>)
    requires
        out.len() <= i <= data.len(),
    ensures
        png_from(data, i, out) matches Some(r) ==> r.len() <= data.len(),
    decreases data.len() - i,
{
    if i + 8 <= data.len() {
        let end = i + 12 + be32(data, i as int);
        let kind = data.subrange(i + 4int, i + 8int);
        if end <= data.len() && crc32_spec(data.subrange(i + 4int, end - 4int)) == be32(
            data,
            end - 4,
        ) {
            let next = if png_dropped(kind) {
                out
            } else {
                out + data.subrange(i as int, end as int)
            };
            if kind != png_iend() {
                lemma_png_from_len(data, end, next);
            }
        }
    }
}

/// Stripping never makes an image larger.
pub proof fn lemma_stripped_not_larger(media_type: Seq<char>, data: Seq<u8>)
    ensures
        stripped_resource(media_type, data) matches Some(r) ==> r.len() <= data.len(),
{
    if data.len() >= 4 {
        lemma_jpeg_from_len(data, 2, seq![0xFFu8, 0xD8]);
    }
    if data.len() >= 8 {
        lemma_png_from_len(data, 8, png_signature());
    }
}

/// The entries after stripping the image metadata of every entry whose
/// rewrite is shorter.
pub open spec fn stripped_entries(es: Seq<(Seq<char>, Seq<u8>, Seq<char>)>) -> Seq<
    (Seq<char>, Seq<u8>, Seq<char>),
> {
    es.map_values(
        |e: (Seq<char>, Seq<u8>, Seq<char>)|
            match stripped_resource(e.2, e.1) {
                Some(r) => if r.len() != e.1.len() {
                    (e.0, r, e.2)
                } else {
                    e
                },
                None => e,
            },
    )
}

/// The report lines for the first `n` entries: one per image that lost
/// bytes, naming how many.
pub open spec fn strip_reports(es: Seq<(Seq<char>, Seq<u8>, Seq<char>)>, n: int) -> Seq<
    (Seq<char>, nat),
>
    decreases n,
{
    if n <= 0 {
        Seq::empty()
    } else {
        let prev = strip_reports(es, n - 1);
        let e = es[n - 1];
        match stripped_resource(e.2, e.1) {
            Some(r) => if r.len() != e.1.len() {
                prev.push((e.0, (e.1.len() - r.len()) as nat))
            } else {
                prev
            },
            None => prev,
        }
    }
}

/// Strip metadata from every raster image in the book, reporting each
/// image that shrank and by how many bytes.
pub fn strip(book: &mut crate::book::Book, transformations: &mut Vec<Transformation>)
    ensures
        crate::book::resource_entries(final(book).resources) == stripped_entries(
            crate::book::resource_entries(old(book).resources),
        ),
        final(book).metadata == old(book).metadata,
        final(book).spine == old(book).spine,
        final(book).toc == old(book).toc,
        final(book).cover == old(book).cover,
        final(book).opf_path == old(book).opf_path,
        final(book).nav_path == old(book).nav_path,
        final(book).ncx_path == old(book).ncx_path,
        ({
            let es = crate::book::resource_entries(old(book).resources);
            let reports = strip_reports(es, es.len() as int);
            &&& final(transformations)@.len() == old(transformations)@.len() + reports.len()
            &&& final(transformations)@.take(old(transformations)@.len() as int)
                == old(transformations)@
            &&& forall|k: int|
                0 <= k < reports.len() ==> {
                    let t = #[trigger] final(transformations)@[old(transformations)@.len() + k];
                    &&& t.kind@ == "generic-media"@
                    &&& t.detail@ == "stripped "@ + crate::text::decimal(reports[k].1)
                        + " bytes of image metadata"@
                    &&& crate::model::opt_view(t.file) == Some(reports[k].0)
                }
        }),
{
    let ghost es = crate::book::resource_entries(book.resources);
    let ghost t0 = transformations@;
    let keys = crate::book::resource_paths(&book.resources);
    let n = keys.len();
    let mut i: usize = 0;
    while i < n
        invariant
            i <= n,
            n == es.len(),
            keys@.len() == n,
            forall|k: int| 0 <= k < n ==> #[trigger] keys@[k]@ == es[k].0,
            forall|a: int, b: int| 0 <= a < b < n ==> #[trigger] keys@[a]@ != #[trigger] keys@[b]@,
            crate::book::resource_entries(book.resources) == stripped_entries(es.take(i as int))
                + es.skip(i as int),
            transformations@.len() == t0.len() + strip_reports(es, i as int).len(),
            transformations@.take(t0.len() as int) == t0,
            forall|k: int|
                0 <= k < strip_reports(es, i as int).len() ==> {
                    let t = #[trigger] transformations@[t0.len() + k];
                    &&& t.kind@ == "generic-media"@
                    &&& t.detail@ == "stripped "@ + crate::text::decimal(
                        strip_reports(es, i as int)[k].1,
                    ) + " bytes of image metadata"@
                    &&& crate::model::opt_view(t.file) == Some(strip_reports(es, i as int)[k].0)
                },
            book.metadata == old(book).metadata,
            book.spine == old(book).spine,
            book.toc == old(book).toc,
            book.cover == old(book).cover,
            book.opf_path == old(book).opf_path,
            book.nav_path == old(book).nav_path,
            book.ncx_path == old(book).ncx_path,
        decreases n - i,
    {
        let ghost cur = crate::book::resource_entries(book.resources);
        let ghost e = es[i as int];
        assert(cur[i as int] == e);
        proof {
            assert forall|a: int, b: int| 0 <= a < b < cur.len() implies #[trigger] cur[a].0
                != #[trigger] cur[b].0 by {
                assert(cur[a].0 == es[a].0);
                assert(cur[b].0 == es[b].0);
                assert(keys@[a]@ == es[a].0);
                assert(keys@[b]@ == es[b].0);
            }
            crate::book::lemma_key_index_at(cur, i as int);
        }
        let path = &keys[i];
        let found = crate::book::resource_get(&book.resources, path.as_str());
        let (stripped, old_len) = match found {
            Some(res) => {
                assert(crate::book::entry_of(path@, *res) == e);
                (strip_resource(res.media_type.as_str(), res.data.as_slice()), res.data.len())
            },
            None => {
                assert(false);
                (None, 0)
            },
        };
        let ghost prev_reports = strip_reports(es, i as int);
        assert(es.take(i + 1).drop_last() =~= es.take(i as int));
        if let Some(new_data) = stripped {
            if new_data.len() != old_len {
                proof {
                    lemma_stripped_not_larger(e.2, e.1);
                }
                let saved = old_len - new_data.len();
                let media_type = match crate::book::resource_get(&book.resources, path.as_str()) {
                    Some(res) => crate::model::copy_string(&res.media_type),
                    None => String::new(),
                };
                crate::book::resource_insert(
                    &mut book.resources,
                    crate::model::copy_string(path),
                    crate::book::Resource { data: new_data, media_type },
                );
                let mut detail: Vec<char> = Vec::new();
                push_str(&mut detail, "stripped ");
                crate::text::push_decimal(&mut detail, saved as u128);
                push_str(&mut detail, " bytes of image metadata");
                transformations.push(
                    Transformation {
                        kind: "generic-media".to_owned(),
                        detail: string_of(&detail),
                        file: Some(crate::model::copy_string(path)),
                    },
                );
                assert(strip_reports(es, i + 1) == prev_reports.push((e.0, saved as nat)));
            } else {
                assert(strip_reports(es, i + 1) == prev_reports);
            }
        } else {
            assert(strip_reports(es, i + 1) == prev_reports);
        }
        assert(crate::book::resource_entries(book.resources) =~= stripped_entries(
            es.take(i + 1),
        ) + es.skip(i + 1));
        i += 1;
    }
    assert(es.take(n as int) =~= es);
    assert(es.skip(n as int) =~= Seq::<(Seq<char>, Seq<u8>, Seq<char>)>::empty());
    assert(crate::book::resource_entries(book.resources) =~= stripped_entries(es));
}

} // verus!
