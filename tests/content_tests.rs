use pdfoverlay::config::FieldSpec;
use pdfoverlay::content::{compress_data, generate_qr_code, ContentBuilder, ContentError};
use pdfoverlay::dimension::Dimension;
use pdfoverlay::object::PdfObject;
use pdfoverlay::store::ObjectStore;
use pdfoverlay::text::{encode_cid_text, escape_pdf_string, needs_cid_font};
use std::io::Read;

fn pt(v: i64) -> Dimension {
    Dimension::from_points(v)
}

fn text_spec(x: i64, y: i64, w: i64, h: i64) -> FieldSpec {
    FieldSpec { x: pt(x), y: pt(y), w: pt(w), h: pt(h), output_type: "Text".to_string(), font_size: None }
}

#[test]
fn test_escape_pdf_string() {
    assert_eq!(escape_pdf_string("hello"), "hello");
    assert_eq!(escape_pdf_string("(hello)"), r"\(hello\)");
    assert_eq!(escape_pdf_string("hello\\world"), r"hello\\world");
    assert_eq!(escape_pdf_string("line1\nline2"), r"line1\nline2");
}

#[test]
fn test_content_builder_new() {
    let builder = ContentBuilder::new("F1".to_string());
    assert!(builder.content_parts.is_empty());
    assert!(builder.xobjects.is_empty());
}

#[test]
fn test_content_builder_add_text() {
    let mut builder = ContentBuilder::new("F1".to_string());
    let spec = text_spec(100, 200, 50, 12);
    builder.add_text("Hello", &spec, pt(800));
    assert_eq!(builder.content_parts.len(), 1);
    assert!(builder.content_parts[0].contains("Hello"));
    assert!(builder.xobjects.is_empty());
}

#[test]
fn escaping_of_each_special_character() {
    assert_eq!(escape_pdf_string("(a)"), r"\(a\)");
    assert_eq!(escape_pdf_string("a\\b"), "a\\\\b");
    assert_eq!(escape_pdf_string("l1\nl2"), "l1\\nl2");
    assert_eq!(escape_pdf_string("a\rb\tc"), "a\\rb\\tc");
    assert_eq!(escape_pdf_string("x-y_z 1é"), "x-y_z 1é");
    assert_eq!(escape_pdf_string(""), "");
}

#[test]
fn text_operator_is_exact() {
    let mut builder = ContentBuilder::new("Helvetica".to_string());
    builder.add_text("Hello", &text_spec(100, 200, 50, 12), pt(800));
    assert_eq!(builder.content_parts[0], "q BT 0 g /Helvetica 12 Tf 100 588 Td (Hello) Tj ET Q ");
}

#[test]
fn font_size_defaults_to_half_the_width_when_smaller() {
    let mut builder = ContentBuilder::new("F1".to_string());
    builder.add_text("A", &text_spec(10, 20, 15, 40), pt(100));
    // size = min(40, 7.5) = 7.5; baseline = 100 - 20 - 7.5
    assert_eq!(builder.content_parts[0], "q BT 0 g /F1 7.5 Tf 10 72.5 Td (A) Tj ET Q ");
}

#[test]
fn explicit_font_size_wins() {
    let mut builder = ContentBuilder::new("F1".to_string());
    let mut spec = text_spec(0, 0, 100, 100);
    spec.font_size = Some(pt(9));
    builder.add_text("x", &spec, pt(50));
    assert_eq!(builder.content_parts[0], "q BT 0 g /F1 9 Tf 0 41 Td (x) Tj ET Q ");
}

#[test]
fn ascii_text_never_uses_the_composite_font() {
    let mut builder = ContentBuilder::new_with_cid_font("F1".to_string(), "Wide".to_string());
    builder.add_text("plain (ascii)", &text_spec(0, 0, 100, 10), pt(100));
    assert_eq!(builder.content_parts[0], "q BT 0 g /F1 10 Tf 0 90 Td (plain \\(ascii\\)) Tj ET Q ");
}

#[test]
fn wide_text_uses_the_composite_font_as_hex() {
    let mut builder = ContentBuilder::new_with_cid_font("F1".to_string(), "Wide".to_string());
    builder.add_text("日本", &text_spec(0, 0, 100, 10), pt(100));
    assert_eq!(builder.content_parts[0], "q BT 0 g /Wide 10 Tf 0 90 Td <65E5672C> Tj ET Q ");
}

#[test]
fn wide_text_without_composite_font_falls_back_to_literal() {
    let mut builder = ContentBuilder::new("F1".to_string());
    builder.add_text("é", &text_spec(0, 0, 100, 10), pt(100));
    assert_eq!(builder.content_parts[0], "q BT 0 g /F1 10 Tf 0 90 Td (é) Tj ET Q ");
}

#[test]
fn hex_encoding_counts_units() {
    assert_eq!(encode_cid_text("A"), "0041");
    assert_eq!(encode_cid_text("é"), "00E9");
    // U+1F600 needs a surrogate pair: two units, four bytes
    let hex = encode_cid_text("a\u{1F600}");
    assert_eq!(hex, "0061D83DDE00");
    assert_eq!((hex.len() / 2) % 2, 0);
    assert_eq!(hex.len() / 2, 2 * 3);
}

#[test]
fn wide_detection() {
    assert!(!needs_cid_font("hello ~"));
    assert!(needs_cid_font("caf\u{e9}"));
    assert!(!needs_cid_font("\u{7f}"));
    assert!(needs_cid_font("\u{80}"));
}

#[test]
fn compression_round_trips() {
    let data: Vec<u8> = (0..1000u32).map(|i| (i % 7) as u8).collect();
    let packed = compress_data(&data).unwrap();
    assert_ne!(packed, data);
    let mut out = Vec::new();
    flate2::read::ZlibDecoder::new(&packed[..]).read_to_end(&mut out).unwrap();
    assert_eq!(out, data);
}

#[test]
fn code_raster_has_requested_size_and_two_shades() {
    let raster = generate_qr_code("hello", 200, 200).unwrap();
    assert_eq!(raster.len(), 200 * 200);
    assert!(raster.iter().all(|&p| p == 0 || p == 255));
    assert!(raster.iter().any(|&p| p == 0));
    assert!(raster.iter().any(|&p| p == 255));
}

#[test]
fn code_too_long_is_an_error() {
    let long = "x".repeat(8000);
    assert!(matches!(generate_qr_code(&long, 200, 200), Err(ContentError::QrCode(_))));
}

#[test]
fn code_field_adds_an_image_object_and_operator() {
    let mut doc = ObjectStore::new();
    let mut builder = ContentBuilder::new("F1".to_string());
    let spec = FieldSpec { x: pt(10), y: pt(20), w: pt(30), h: pt(40), output_type: "QR".to_string(), font_size: None };
    builder.add_field("code", "value", &spec, pt(500), &mut doc).unwrap();
    assert_eq!(doc.max_id, 1);
    assert_eq!(builder.content_parts[0], "q 30 0 0 40 10 440 cm /Im1 Do Q ");
    assert!(matches!(builder.xobjects.get(&b"Im1".to_vec()), Some(PdfObject::Reference(id)) if id.num == 1));
    match doc.objects.get(&(1u64 << 16)) {
        Some(PdfObject::Stream(s)) => {
            let mut out = Vec::new();
            flate2::read::ZlibDecoder::new(&s.content[..]).read_to_end(&mut out).unwrap();
            assert_eq!(out.len(), 200 * 200);
            assert!(matches!(s.dict.get(&b"ColorSpace".to_vec()), Some(PdfObject::Name(n)) if n == b"DeviceGray"));
        }
        _ => panic!("image object missing"),
    }
}

#[test]
fn two_codes_at_the_same_position_get_distinct_names() {
    let mut doc = ObjectStore::new();
    let mut builder = ContentBuilder::new("F1".to_string());
    let spec = FieldSpec { x: pt(10), y: pt(20), w: pt(30), h: pt(40), output_type: "QR".to_string(), font_size: None };
    builder.add_field("a", "one", &spec, pt(500), &mut doc).unwrap();
    builder.add_field("b", "two", &spec, pt(500), &mut doc).unwrap();
    assert_eq!(builder.xobjects.entries.len(), 2);
    assert!(builder.xobjects.get(&b"Im1".to_vec()).is_some());
    assert!(builder.xobjects.get(&b"Im2".to_vec()).is_some());
}

#[test]
fn unknown_output_type_changes_nothing() {
    let mut doc = ObjectStore::new();
    let mut builder = ContentBuilder::new("F1".to_string());
    let spec = FieldSpec { x: pt(10), y: pt(20), w: pt(30), h: pt(40), output_type: "Barcode".to_string(), font_size: None };
    let r = builder.add_field("a", "one", &spec, pt(500), &mut doc);
    assert!(matches!(r, Err(ContentError::UnknownOutputType(t)) if t == "Barcode"));
    assert!(builder.content_parts.is_empty());
    assert_eq!(doc.max_id, 0);
}

#[test]
fn content_bytes_join_the_operators() {
    let mut builder = ContentBuilder::new("F1".to_string());
    builder.add_text("a", &text_spec(0, 0, 100, 10), pt(100));
    builder.add_text("b", &text_spec(0, 0, 100, 10), pt(100));
    let bytes = builder.build_content_bytes();
    assert_eq!(
        String::from_utf8(bytes).unwrap(),
        "q BT 0 g /F1 10 Tf 0 90 Td (a) Tj ET Q q BT 0 g /F1 10 Tf 0 90 Td (b) Tj ET Q "
    );
}

#[test]
fn default_builder_uses_f1() {
    let builder = ContentBuilder::default();
    assert_eq!(builder.font_name, "F1");
    assert!(builder.cid_font_name.is_none());
}
