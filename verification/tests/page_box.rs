use pdfdown::pdf::PdfObject;
use pdfdown::resolve::parse_page_box;

fn integer(v: i64) -> PdfObject {
    PdfObject::Integer(v)
}

fn fraction(v: f32) -> PdfObject {
    PdfObject::Real(v.to_bits())
}

fn numbers(found: Option<[u64; 4]>) -> Option<[f64; 4]> {
    found.map(|rect| rect.map(f64::from_bits))
}

#[test]
fn meta_parse_page_box_valid_integers() {
    let obj = PdfObject::Array(vec![integer(0), integer(0), integer(612), integer(792)]);
    let result = parse_page_box(&obj);
    assert_eq!(numbers(result), Some([0.0, 0.0, 612.0, 792.0]));
}

#[test]
fn meta_parse_page_box_valid_reals() {
    let obj = PdfObject::Array(vec![fraction(0.0), fraction(0.0), fraction(595.0), fraction(842.0)]);
    let result = parse_page_box(&obj);
    assert_eq!(numbers(result), Some([0.0, 0.0, 595.0, 842.0]));
}

#[test]
fn meta_parse_page_box_mixed_types() {
    let obj = PdfObject::Array(vec![integer(0), fraction(0.5), integer(612), fraction(792.0)]);
    let result = parse_page_box(&obj);
    assert_eq!(numbers(result), Some([0.0, 0.5, 612.0, 792.0]));
}

#[test]
fn meta_parse_page_box_too_short() {
    let obj = PdfObject::Array(vec![integer(0), integer(0)]);
    assert_eq!(numbers(parse_page_box(&obj)), None);
}

#[test]
fn meta_parse_page_box_non_numeric() {
    let obj = PdfObject::Array(vec![integer(0), integer(0), PdfObject::Name(b"bad".to_vec()), integer(792)]);
    assert_eq!(numbers(parse_page_box(&obj)), None);
}

#[test]
fn meta_parse_page_box_not_array() {
    let obj = PdfObject::Integer(42);
    assert_eq!(numbers(parse_page_box(&obj)), None);
}

#[test]
fn meta_parse_page_box_extra_elements_ignored() {
    let obj = PdfObject::Array(vec![integer(0), integer(0), integer(612), integer(792), integer(999)]);
    // Only first 4 used
    assert_eq!(numbers(parse_page_box(&obj)), Some([0.0, 0.0, 612.0, 792.0]));
}

#[test]
fn lib_parse_page_box_valid_integers() {
    let obj = PdfObject::Array(vec![integer(0), integer(0), integer(612), integer(792)]);
    let result = parse_page_box(&obj);
    assert_eq!(numbers(result), Some([0.0, 0.0, 612.0, 792.0]));
}

#[test]
fn lib_parse_page_box_valid_reals() {
    let obj = PdfObject::Array(vec![fraction(0.0), fraction(0.0), fraction(595.0), fraction(842.0)]);
    let result = parse_page_box(&obj);
    assert_eq!(numbers(result), Some([0.0, 0.0, 595.0, 842.0]));
}

#[test]
fn lib_parse_page_box_mixed_types() {
    let obj = PdfObject::Array(vec![integer(0), fraction(0.5), integer(612), fraction(792.0)]);
    let result = parse_page_box(&obj);
    assert_eq!(numbers(result), Some([0.0, 0.5, 612.0, 792.0]));
}

#[test]
fn lib_parse_page_box_too_short() {
    let obj = PdfObject::Array(vec![integer(0), integer(0)]);
    assert_eq!(numbers(parse_page_box(&obj)), None);
}

#[test]
fn lib_parse_page_box_non_numeric() {
    let obj = PdfObject::Array(vec![integer(0), integer(0), PdfObject::Name(b"bad".to_vec()), integer(792)]);
    assert_eq!(numbers(parse_page_box(&obj)), None);
}

#[test]
fn lib_parse_page_box_not_array() {
    let obj = PdfObject::Integer(42);
    assert_eq!(numbers(parse_page_box(&obj)), None);
}

#[test]
fn lib_parse_page_box_extra_elements_ignored() {
    let obj = PdfObject::Array(vec![integer(0), integer(0), integer(612), integer(792), integer(999)]);
    // Only first 4 used
    assert_eq!(numbers(parse_page_box(&obj)), Some([0.0, 0.0, 612.0, 792.0]));
}
