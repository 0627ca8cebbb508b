use epub_tailor::images::{is_image_candidate, sniff, sniff_raster_kind, split_href_suffix, InFormat};
use epub_tailor::svg::decode_base64;

#[test]
fn sniff_recognizes_supported_formats() {
    assert_eq!(sniff(&[0xFF, 0xD8, 0xFF, 0xE0]), Some(InFormat::Jpeg));
    assert_eq!(
        sniff(&[0x89, 0x50, 0x4E, 0x47, 0x0D, 0x0A, 0x1A, 0x0A]),
        Some(InFormat::Png)
    );
    assert_eq!(sniff(b"GIF89a...."), Some(InFormat::Gif));
    assert_eq!(sniff(b"RIFF\0\0\0\0WEBPVP8 "), Some(InFormat::Webp));
    assert_eq!(sniff(&[0x49, 0x49, 0x2A, 0x00]), Some(InFormat::Tiff));
    assert_eq!(sniff(b"BM\0\0"), Some(InFormat::Bmp));
}

#[test]
fn sniff_rejects_unknown_and_svg() {
    assert_eq!(sniff(b"<svg xmlns=..."), None);
    assert_eq!(sniff(b"not an image"), None);
    assert_eq!(sniff(&[]), None);
}

#[test]
fn is_candidate_covers_declared_and_sniffed_but_not_svg() {
    assert!(is_image_candidate("image/png", b""));
    assert!(is_image_candidate(
        "application/octet-stream",
        &[0xFF, 0xD8, 0xFF, 0xE0]
    ));
    assert!(!is_image_candidate("image/svg+xml", b"<svg/>"));
    assert!(!is_image_candidate("text/css", b".x{}"));
}

#[test]
fn split_href_suffix_separates_path_from_fragment_and_query() {
    assert_eq!(
        split_href_suffix("a/b.png#x"),
        ("a/b.png".to_string(), "#x".to_string())
    );
    assert_eq!(
        split_href_suffix("a/b.png?v=2"),
        ("a/b.png".to_string(), "?v=2".to_string())
    );
    assert_eq!(
        split_href_suffix("a/b.png"),
        ("a/b.png".to_string(), "".to_string())
    );
}

#[test]
fn raster_kind_names_extension_and_media_type() {
    assert_eq!(
        sniff_raster_kind(&[0xFF, 0xD8, 0xFF, 0x00]),
        Some(("jpg", "image/jpeg"))
    );
    assert_eq!(sniff_raster_kind(b"GIF87a"), Some(("gif", "image/gif")));
    assert_eq!(sniff_raster_kind(b"<svg"), None);
}

fn encode_base64(data: &[u8]) -> String {
    const ALPHABET: &[u8; 64] = b"ABCDEFGHIJKLMNOPQRSTUVWXYZabcdefghijklmnopqrstuvwxyz0123456789+/";
    let mut out = String::new();
    for chunk in data.chunks(3) {
        let b = [
            chunk[0],
            *chunk.get(1).unwrap_or(&0),
            *chunk.get(2).unwrap_or(&0),
        ];
        let n = (u32::from(b[0]) << 16) | (u32::from(b[1]) << 8) | u32::from(b[2]);
        out.push(ALPHABET[(n >> 18) as usize & 63] as char);
        out.push(ALPHABET[(n >> 12) as usize & 63] as char);
        out.push(if chunk.len() > 1 {
            ALPHABET[(n >> 6) as usize & 63] as char
        } else {
            '='
        });
        out.push(if chunk.len() > 2 {
            ALPHABET[n as usize & 63] as char
        } else {
            '='
        });
    }
    out
}

#[test]
fn base64_round_trips() {
    for sample in [&b""[..], b"f", b"fo", b"foo", b"foob", b"fooba", b"foobar"] {
        let encoded = encode_base64(sample);
        assert_eq!(decode_base64(&encoded).unwrap(), sample, "{encoded}");
    }
    assert_eq!(decode_base64("SGVsbG8=").unwrap(), b"Hello");
    assert_eq!(decode_base64("SGVs\nbG8=").unwrap(), b"Hello");
    assert_eq!(decode_base64("not base64!"), None);
}
