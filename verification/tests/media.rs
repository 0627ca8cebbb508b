use epub_tailor::book::{Book, Resource};
use epub_tailor::media::strip;
use epub_tailor::model::Metadata;
use indexmap::IndexMap;
use epub_tailor::media::{
    ImageKind, crc32, image_kind, normalize_media_type, strip_jpeg, strip_png, strip_resource,
};

fn truncated_jpeg_with_a_droppable_segment() -> Vec<u8> {
    let mut out = vec![0xFF, 0xD8];
    let payload = b"Exif\0\0truncated-mid-file";
    out.extend_from_slice(&[0xFF, 0xE1]);
    out.extend_from_slice(&((payload.len() + 2) as u16).to_be_bytes());
    out.extend_from_slice(payload);
    out
}

fn push_png_chunk(out: &mut Vec<u8>, kind: &[u8; 4], data: &[u8]) {
    out.extend_from_slice(&(data.len() as u32).to_be_bytes());
    let mut type_and_data = Vec::with_capacity(4 + data.len());
    type_and_data.extend_from_slice(kind);
    type_and_data.extend_from_slice(data);
    out.extend_from_slice(&type_and_data);
    out.extend_from_slice(&crc32(&type_and_data).to_be_bytes());
}

fn minimal_png_with_text_chunk() -> Vec<u8> {
    let mut out = vec![0x89, b'P', b'N', b'G', 0x0D, 0x0A, 0x1A, 0x0A];
    push_png_chunk(&mut out, b"tEXt", b"comment-data");
    push_png_chunk(&mut out, b"IEND", &[]);
    out
}

fn truncated_png_with_a_droppable_chunk() -> Vec<u8> {
    let mut out = vec![0x89, b'P', b'N', b'G', 0x0D, 0x0A, 0x1A, 0x0A];
    push_png_chunk(&mut out, b"tEXt", b"comment-data");
    out
}

#[test]
fn a_jpeg_truncated_after_a_droppable_segment_is_rejected() {
    assert!(
        strip_jpeg(&truncated_jpeg_with_a_droppable_segment()).is_none(),
        "a truncated JPEG must not be rewritten as if it stripped cleanly"
    );
}

#[test]
fn a_png_truncated_after_a_droppable_chunk_is_rejected() {
    assert!(
        strip_png(&truncated_png_with_a_droppable_chunk()).is_none(),
        "a truncated PNG must not be rewritten as if it stripped cleanly"
    );
}

#[test]
fn crc32_matches_known_good_vectors() {
    assert_eq!(crc32(b""), 0x0000_0000);
    assert_eq!(crc32(b"123456789"), 0xCBF4_3926, "the standard CRC-32 check value");
    assert_eq!(crc32(b"IEND"), 0xAE42_6082, "CRC of a zero-length IEND chunk's type-and-data");
}

const REAL_PNG_WITH_TEXT: &[u8] = &[
    0x89, 0x50, 0x4E, 0x47, 0x0D, 0x0A, 0x1A, 0x0A, 0x00, 0x00, 0x00, 0x0D, 0x49, 0x48, 0x44,
    0x52, 0x00, 0x00, 0x00, 0x01, 0x00, 0x00, 0x00, 0x01, 0x08, 0x00, 0x00, 0x00, 0x00, 0x3A,
    0x7E, 0x9B, 0x55, 0x00, 0x00, 0x00, 0x12, 0x74, 0x45, 0x58, 0x74, 0x43, 0x6F, 0x6D, 0x6D,
    0x65, 0x6E, 0x74, 0x00, 0x42, 0x55, 0x59, 0x45, 0x52, 0x2D, 0x34, 0x37, 0x31, 0x31, 0x40,
    0x76, 0x66, 0x58, 0x00, 0x00, 0x00, 0x0A, 0x49, 0x44, 0x41, 0x54, 0x78, 0x9C, 0x63, 0x60,
    0x00, 0x00, 0x00, 0x02, 0x00, 0x01, 0x48, 0xAF, 0xA4, 0x71, 0x00, 0x00, 0x00, 0x00, 0x49,
    0x45, 0x4E, 0x44, 0xAE, 0x42, 0x60, 0x82,
];

#[test]
fn a_png_built_outside_this_module_round_trips_and_loses_its_text_chunk() {
    let out = strip_png(REAL_PNG_WITH_TEXT).expect("a real PNG with valid CRCs must parse");
    assert!(!out.windows(5).any(|w| w == b"BUYER"), "the tEXt payload must be gone");
    assert!(
        out.windows(4).any(|w| w == b"IHDR") && out.windows(4).any(|w| w == b"IDAT"),
        "the image data must survive"
    );
    assert!(out.ends_with(&[0x49, 0x45, 0x4E, 0x44, 0xAE, 0x42, 0x60, 0x82]));
}

#[test]
fn a_png_with_a_corrupt_chunk_crc_is_left_alone() {
    let mut png = minimal_png_with_text_chunk();
    let len = png.len();
    png[len - 1] ^= 0xFF;
    assert!(strip_png(&png).is_none(), "a bad CRC must not be rewritten");
}

#[test]
fn a_png_with_an_over_long_declared_chunk_length_is_rejected() {
    let mut png = minimal_png_with_text_chunk();
    png[8..12].copy_from_slice(&u32::MAX.to_be_bytes());
    assert!(strip_png(&png).is_none());
}

#[test]
fn jpeg_fill_bytes_before_a_marker_do_not_misparse_the_next_marker() {
    let mut jpeg = vec![0xFF, 0xD8];
    let payload = b"Exif\0\0BUYER-635962014";
    jpeg.extend_from_slice(&[0xFF, 0xFF, 0xFF, 0xE1]);
    jpeg.extend_from_slice(&((payload.len() + 2) as u16).to_be_bytes());
    jpeg.extend_from_slice(payload);
    jpeg.extend_from_slice(&[0xFF, 0xDA, 0x00, 0x02, 0xFF, 0xD9]);

    let stripped = strip_jpeg(&jpeg).expect("still a parseable JPEG");
    assert!(
        !stripped.windows(9).any(|w| w == b"BUYER-635"),
        "the EXIF payload behind the fill bytes must still be dropped"
    );
    assert_eq!(&stripped[..2], &[0xFF, 0xD8]);
    assert!(stripped.ends_with(&[0xFF, 0xD9]));
}

#[test]
fn jpeg_restart_markers_in_scan_data_survive_unchanged() {
    let mut jpeg = vec![0xFF, 0xD8];
    jpeg.extend_from_slice(&[0xFF, 0xE0, 0x00, 0x04, 0x4A, 0x46]);
    jpeg.extend_from_slice(&[0xFF, 0xDA, 0x00, 0x02]);
    jpeg.extend_from_slice(&[0x11, 0x22, 0xFF, 0xD0, 0x33, 0x44]);
    jpeg.extend_from_slice(&[0xFF, 0xD9]);

    let stripped = strip_jpeg(&jpeg).expect("still a parseable JPEG");
    assert_eq!(stripped, jpeg, "kept APP0 plus verbatim scan data is unchanged");
}

#[test]
fn a_standalone_marker_before_the_scan_is_copied_without_a_length_read() {
    let mut jpeg = vec![0xFF, 0xD8];
    jpeg.extend_from_slice(&[0xFF, 0x01]);
    let payload = b"Exif\0\0BUYER-1";
    jpeg.extend_from_slice(&[0xFF, 0xE1]);
    jpeg.extend_from_slice(&((payload.len() + 2) as u16).to_be_bytes());
    jpeg.extend_from_slice(payload);
    jpeg.extend_from_slice(&[0xFF, 0xDA, 0x00, 0x02, 0xFF, 0xD9]);

    let out = strip_jpeg(&jpeg).expect("still parseable with a standalone marker");
    assert!(!out.windows(5).any(|w| w == b"BUYER"), "EXIF must still be stripped");
    assert!(out.windows(2).any(|w| w == [0xFF, 0x01]), "the standalone marker itself must be preserved");
    assert!(out.ends_with(&[0xFF, 0xD9]));
}

#[test]
fn media_types_are_normalized_for_matching() {
    assert_eq!(normalize_media_type(" IMAGE/JPEG ; charset=binary"), "image/jpeg");
    assert_eq!(normalize_media_type("text/css; charset=utf-8"), "text/css");
    assert_eq!(normalize_media_type("image/jpg"), "image/jpg");
}

#[test]
fn the_stripper_is_chosen_by_magic_bytes_before_the_declared_type() {
    assert_eq!(image_kind("application/octet-stream", &[0xFF, 0xD8, 0xFF]), Some(ImageKind::Jpeg));
    assert_eq!(image_kind("image/jpeg", &minimal_png_with_text_chunk()), Some(ImageKind::Png));
    assert_eq!(image_kind("IMAGE/PNG", b"not an image"), Some(ImageKind::Png));
    assert_eq!(image_kind("image/jpg", b"not an image"), None);
}

#[test]
fn a_misdeclared_jpeg_still_loses_its_exif() {
    let payload = b"Exif\0\0BUYER-42";
    let mut jpeg = vec![0xFF, 0xD8, 0xFF, 0xE1];
    jpeg.extend_from_slice(&((payload.len() + 2) as u16).to_be_bytes());
    jpeg.extend_from_slice(payload);
    jpeg.extend_from_slice(&[0xFF, 0xDA, 0x00, 0x02, 0xFF, 0xD9]);
    let out = strip_resource("application/octet-stream", &jpeg).expect("a JPEG by its bytes");
    assert_eq!(out, vec![0xFF, 0xD8, 0xFF, 0xDA, 0x00, 0x02, 0xFF, 0xD9]);
    assert_eq!(strip_resource("text/css", b"body{}"), None);
}

fn one_resource_book(path: &str, data: Vec<u8>, media_type: &str) -> Book {
    let mut resources = IndexMap::new();
    resources.insert(
        path.to_string(),
        Resource {
            data,
            media_type: media_type.to_string(),
        },
    );
    Book {
        metadata: Metadata::default(),
        resources,
        spine: Vec::new(),
        toc: Vec::new(),
        cover: None,
        opf_path: "content.opf".to_string(),
        nav_path: None,
        ncx_path: None,
    }
}

#[test]
fn strip_leaves_truncated_resources_byte_identical() {
    let jpeg = truncated_jpeg_with_a_droppable_segment();
    let png = truncated_png_with_a_droppable_chunk();
    let mut book = one_resource_book("pic.jpg", jpeg.clone(), "image/jpeg");
    book.resources.insert(
        "pic.png".to_string(),
        Resource {
            data: png.clone(),
            media_type: "image/png".to_string(),
        },
    );
    let mut transformations = Vec::new();
    strip(&mut book, &mut transformations);
    assert_eq!(
        book.resources["pic.jpg"].data, jpeg,
        "a truncated JPEG that fails to parse must survive untouched"
    );
    assert_eq!(
        book.resources["pic.png"].data, png,
        "a truncated PNG that fails to parse must survive untouched"
    );
    assert!(
        transformations.is_empty(),
        "no transformation should be recorded when nothing was stripped"
    );
}

fn jpeg_with_exif_payload(payload: &[u8]) -> Vec<u8> {
    let mut out = vec![0xFF, 0xD8];
    out.extend_from_slice(&[0xFF, 0xE1]);
    out.extend_from_slice(&((payload.len() + 2) as u16).to_be_bytes());
    out.extend_from_slice(payload);
    out.extend_from_slice(&[0xFF, 0xDA, 0x00, 0x02, 0xFF, 0xD9]);
    out
}

fn assert_strips_mis_declared_jpeg(media_type: &str) {
    let payload = b"Exif\0\0BUYER-635962014-SECRET";
    let jpeg = jpeg_with_exif_payload(payload);
    let mut book = one_resource_book("pic.jpg", jpeg, media_type);
    let mut transformations = Vec::new();
    strip(&mut book, &mut transformations);
    let out = &book.resources["pic.jpg"].data;
    assert!(
        !out.windows(9).any(|w| w == b"BUYER-635"),
        "{media_type:?}: the EXIF payload must be stripped, not shipped intact"
    );
    assert_eq!(
        transformations.len(),
        1,
        "{media_type:?}: a transformation must be reported, not a silent no-op"
    );
}

#[test]
fn strips_the_common_non_canonical_image_jpg_spelling() {
    assert_strips_mis_declared_jpeg("image/jpg");
}

#[test]
fn strips_an_upper_case_media_type() {
    assert_strips_mis_declared_jpeg("IMAGE/JPEG");
}

#[test]
fn strips_a_media_type_carrying_a_parameter() {
    assert_strips_mis_declared_jpeg("image/jpeg; charset=binary");
}

#[test]
fn strips_a_jpeg_mis_declared_as_a_generic_octet_stream() {
    assert_strips_mis_declared_jpeg("application/octet-stream");
}

fn png_with_text_payload(payload: &[u8]) -> Vec<u8> {
    let mut out = vec![0x89, b'P', b'N', b'G', 0x0D, 0x0A, 0x1A, 0x0A];
    push_png_chunk(&mut out, b"tEXt", payload);
    push_png_chunk(&mut out, b"IEND", &[]);
    out
}

fn assert_strips_mis_declared_png(media_type: &str) {
    let payload = b"Comment\0BUYER-635962014-SECRET";
    let png = png_with_text_payload(payload);
    let mut book = one_resource_book("pic.png", png, media_type);
    let mut transformations = Vec::new();
    strip(&mut book, &mut transformations);
    let out = &book.resources["pic.png"].data;
    assert!(
        !out.windows(9).any(|w| w == b"BUYER-635"),
        "{media_type:?}: the tEXt payload must be stripped, not shipped intact"
    );
    assert_eq!(
        transformations.len(),
        1,
        "{media_type:?}: a transformation must be reported, not a silent no-op"
    );
}

#[test]
fn strips_a_png_mis_declared_as_the_jpeg_extension_spelling() {
    assert_strips_mis_declared_png("image/jpg");
}

#[test]
fn strips_a_png_with_an_upper_case_media_type() {
    assert_strips_mis_declared_png("IMAGE/PNG");
}

#[test]
fn strips_a_png_media_type_carrying_a_parameter() {
    assert_strips_mis_declared_png("image/png; charset=binary");
}

#[test]
fn strips_a_png_mis_declared_as_a_generic_octet_stream() {
    assert_strips_mis_declared_png("application/octet-stream");
}

#[test]
fn a_stripped_jpeg_reports_the_bytes_saved() {
    let payload = b"Exif\0\0XYZ";
    let jpeg = jpeg_with_exif_payload(payload);
    let before = jpeg.len();
    let mut book = one_resource_book("OEBPS/pic.jpg", jpeg, "image/jpeg");
    let mut t = Vec::new();
    strip(&mut book, &mut t);
    let after = book.resources["OEBPS/pic.jpg"].data.len();
    assert_eq!(before - after, payload.len() + 4);
    assert_eq!(t[0].kind, "generic-media");
    assert_eq!(
        t[0].detail,
        format!("stripped {} bytes of image metadata", payload.len() + 4)
    );
    assert_eq!(t[0].file.as_deref(), Some("OEBPS/pic.jpg"));
}
