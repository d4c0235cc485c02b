use pdfoverlay::config::{FieldSpec, field_kind, FieldKind};
use pdfoverlay::dimension::{parse_dimension, Dimension, DimensionError};

fn points(d: Dimension) -> f64 {
    d.micro_points() as f64 / 1_000_000.0
}

fn parse(s: &str) -> Dimension {
    parse_dimension(s).unwrap()
}

#[test]
fn test_dimension_from_number() {
    let dim = Dimension::from_points(100);
    assert_eq!(points(dim), 100.0);
}

#[test]
fn test_dimension_from_f64() {
    let dim = parse("12.5");
    assert_eq!(points(dim), 12.5);
}

#[test]
fn test_dimension_from_mm() {
    let dim = parse("100 mm");
    assert!((points(dim) - 283.46).abs() < 0.01);
}

#[test]
fn test_dimension_from_cm() {
    let dim = parse("10 cm");
    assert!((points(dim) - 283.46).abs() < 0.01);
}

#[test]
fn test_dimension_from_inch() {
    let dim = parse("1 in");
    assert_eq!(points(dim), 72.0);
}

#[test]
fn test_dimension_from_inches() {
    let dim = parse("1 inches");
    assert_eq!(points(dim), 72.0);
}

#[test]
fn test_dimension_from_inch_full_word() {
    let dim = parse("1 inch");
    assert_eq!(points(dim), 72.0);
}

#[test]
fn test_dimension_default_unit() {
    let dim = parse("100");
    assert_eq!(points(dim), 100.0);
}

#[test]
fn test_dimension_from_pt() {
    let dim = parse("100 pt");
    assert_eq!(points(dim), 100.0);
}

#[test]
fn test_dimension_from_points() {
    let dim = parse("100 points");
    assert_eq!(points(dim), 100.0);
}

#[test]
fn test_dimension_whitespace_handling() {
    let dim = parse("  100  mm  ");
    assert!((points(dim) - 283.46).abs() < 0.01);
}

#[test]
fn test_dimension_lowercase_unit() {
    let dim = parse("100 MM");
    assert!((points(dim) - 283.46).abs() < 0.01);
}

#[test]
fn test_dimension_invalid_unit() {
    let result = parse_dimension("100 foo");
    assert!(result.is_err());
}

#[test]
fn test_dimension_invalid_number() {
    let result = parse_dimension("abc mm");
    assert!(result.is_err());
}

fn spec_of(x: &str, y: &str, w: &str, h: &str, t: &str, font_size: Option<&str>) -> FieldSpec {
    FieldSpec {
        x: parse(x),
        y: parse(y),
        w: parse(w),
        h: parse(h),
        output_type: t.to_string(),
        font_size: font_size.map(parse),
    }
}

#[test]
fn test_field_spec_with_units() {
    let spec = spec_of("50 mm", "10 cm", "1 in", "50 pt", "QR", None);
    assert!((points(spec.x) - 141.73).abs() < 0.01);
    assert!((points(spec.y) - 283.46).abs() < 0.01);
    assert_eq!(points(spec.w), 72.0);
    assert_eq!(points(spec.h), 50.0);
    assert!(spec.font_size.is_none());
}

#[test]
fn test_field_spec_with_font_size() {
    let spec = spec_of("50 mm", "10 cm", "1 in", "50 pt", "Text", Some("12 pt"));
    assert_eq!(points(spec.font_size.unwrap()), 12.0);
}

#[test]
fn test_field_spec_with_font_size_mm() {
    let spec = spec_of("50 mm", "10 cm", "1 in", "50 pt", "Text", Some("5 mm"));
    assert!((points(spec.font_size.unwrap()) - 14.17).abs() < 0.01);
}

#[test]
fn millimetres_round_to_the_nearest_millionth() {
    // 100 mm = 100 * 72 / 25.4 pt = 283.464566.. pt
    assert_eq!(parse("100 mm").micro_points(), 283_464_567);
    assert_eq!(parse("10 cm").micro_points(), 283_464_567);
    assert_eq!(parse("-1 in").micro_points(), -72_000_000);
    assert_eq!(parse("+0.5 pt").micro_points(), 500_000);
    assert_eq!(parse(".25").micro_points(), 250_000);
}

#[test]
fn unknown_unit_and_bad_number_errors_carry_the_text() {
    assert_eq!(parse_dimension("100 foo"), Err(DimensionError::UnknownUnit("foo".to_string())));
    assert_eq!(parse_dimension("abc mm"), Err(DimensionError::InvalidNumber("ab".to_string())));
    assert_eq!(parse_dimension("100pt"), Err(DimensionError::InvalidNumber("100pt".to_string())));
    assert!(parse_dimension("").is_err());
    assert!(parse_dimension("1234567890 pt").is_err());
}

#[test]
fn output_type_tags() {
    assert_eq!(field_kind("QR"), Some(FieldKind::Image));
    assert_eq!(field_kind("Text"), Some(FieldKind::Text));
    assert_eq!(field_kind("Barcode"), None);
    assert_eq!(field_kind("text"), None);
}
