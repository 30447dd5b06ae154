use retrieval_eval::record_line::parse_tokenstring_fast;
use retrieval_eval::record_line::ParseError;
use retrieval_eval::serialize::serialize_token;
use retrieval_eval::Point;
use retrieval_eval::Rectangle;
use retrieval_eval::Relevance;
use retrieval_eval::RelevantToken;
use retrieval_eval::TokenId;

fn record_line(doc: &str, x: u32, y: u32, w: u32, h: u32, extra: &str) -> String {
    format!(
        "<word document=\"{}\" x=\"{}\" y=\"{}\" width=\"{}\" height=\"{}\"{} />",
        doc, x, y, w, h, extra
    )
}

fn bbox_of(tok: &RelevantToken) -> &Rectangle {
    match tok.id {
        TokenId::BoundingBox(ref bb) => bb,
        TokenId::NumericId(_) => panic!("expected a bounding box"),
    }
}

#[test]
fn test_rectangle_and_point() {
    let mut a = Rectangle::new();
    a.set_min(1, 1);
    a.set_size(10, 10);
    assert_eq!(a.width(), 10);
    assert_eq!(a.height(), 10);
    assert_eq!(a.area(), 100);
}

#[test]
fn test_point_accessors() {
    let p = Point { x: Some(7), y: Some(9) };
    assert_eq!(p.get_x(), 7);
    assert_eq!(p.get_y(), 9);
}

#[test]
fn test_rectangle_is_ok() {
    let mut a = Rectangle::new();
    a.set_min(5, 5);
    a.set_max(30, 40);
    assert!(a.is_ok());
    let mut b = Rectangle::new();
    b.set_min(5, 5);
    b.set_size(1, 1);
    assert!(!b.is_ok());
}

#[test]
fn test_relevant_token() {
    let mut tok1 = RelevantToken::new();
    tok1.set_tokenid(TokenId::NumericId(34));
    tok1.set_document(String::from("doc0010"));
    tok1.set_relevance(Relevance { num: 8, places: 1 });
    let tok1 = tok1;

    let mut tok2 = RelevantToken::new();
    tok2.set_tokenid(TokenId::BoundingBox(Rectangle::new()));
    tok2.set_relevance(Relevance { num: 8, places: 1 });
    let tok2 = tok2;

    let mut tok3 = RelevantToken::new();
    tok3.set_tokenid(TokenId::NumericId(34));
    tok3.set_document(String::from("doc0010"));
    tok3.set_transcription(String::from("Hello"));
    let tok3 = tok3;
    println!("{:?}", tok1);
    println!("{:?}", tok2);
    println!("{:?}", tok3);
}

#[test]
fn test_relevance_default_is_one() {
    let tok = RelevantToken::new();
    assert_eq!(tok.get_relevance(), Relevance { num: 1, places: 0 });
}

#[test]
fn test_parse_mandatory_fields() {
    let line = record_line("page03", 120, 340, 56, 78, "");
    let tok = parse_tokenstring_fast(&line).unwrap();
    assert_eq!(tok.document.as_deref(), Some("page03"));
    let bb = bbox_of(&tok);
    assert_eq!(bb.min.get_x(), 120);
    assert_eq!(bb.min.get_y(), 340);
    assert_eq!(bb.width(), 56);
    assert_eq!(bb.height(), 78);
    assert!(tok.relevance.is_none());
    assert!(tok.transcription.is_none());
}

#[test]
fn test_parse_relevance_and_text() {
    let line = record_line("p", 1, 2, 3, 4, " Relevance=\"0.75\" Text=\"ship\"");
    let tok = parse_tokenstring_fast(&line).unwrap();
    assert_eq!(tok.relevance, Some(Relevance { num: 75, places: 2 }));
    assert_eq!(tok.transcription.as_deref(), Some("ship"));
}

#[test]
fn test_parse_text_before_relevance() {
    let line = record_line("p", 1, 2, 3, 4, " Text=\"ship\" Relevance=\"1.0\"");
    let tok = parse_tokenstring_fast(&line).unwrap();
    assert_eq!(tok.relevance, Some(Relevance { num: 10, places: 1 }));
    assert_eq!(tok.transcription.as_deref(), Some("ship"));
}

#[test]
fn test_misspelled_relevance_attribute_still_parses() {
    // The attribute lost its leading letter; the classification reads only
    // the character before the quote, so the field is still a relevance.
    let line = record_line("p", 1, 2, 3, 4, " elevance=\"0.5\"");
    let tok = parse_tokenstring_fast(&line).unwrap();
    assert_eq!(tok.relevance, Some(Relevance { num: 5, places: 1 }));
}

#[test]
fn test_parse_missing_fields() {
    let line = "<word document=\"p\" x=\"1\" y=\"2\" width=\"3\" />";
    assert_eq!(parse_tokenstring_fast(line).unwrap_err(), ParseError::MissingFields);
}

#[test]
fn test_parse_too_many_fields() {
    let line = record_line(
        "p",
        1,
        2,
        3,
        4,
        " Text=\"a\" Text=\"b\" Text=\"c\"",
    );
    assert_eq!(parse_tokenstring_fast(&line).unwrap_err(), ParseError::TooManyFields);
}

#[test]
fn test_parse_malformed_number() {
    let line = "<word document=\"p\" x=\"12a\" y=\"2\" width=\"3\" height=\"4\" />";
    assert_eq!(parse_tokenstring_fast(line).unwrap_err(), ParseError::MalformedNumber);
}

#[test]
fn test_parse_unknown_trailing_field() {
    let line = record_line("p", 1, 2, 3, 4, " Wxyz=\"0.5\"");
    assert_eq!(
        parse_tokenstring_fast(&line).unwrap_err(),
        ParseError::UnknownTrailingField
    );
}

#[test]
fn test_parse_relevance_out_of_range() {
    let line = record_line("p", 1, 2, 3, 4, " Relevance=\"1.5\"");
    assert_eq!(parse_tokenstring_fast(&line).unwrap_err(), ParseError::InvalidRelevance);
    let line = record_line("p", 1, 2, 3, 4, " Relevance=\"0\"");
    assert_eq!(parse_tokenstring_fast(&line).unwrap_err(), ParseError::InvalidRelevance);
}

#[test]
fn test_parse_zero_width_rejected() {
    let line = record_line("p", 1, 2, 0, 4, "");
    assert_eq!(parse_tokenstring_fast(&line).unwrap_err(), ParseError::InvalidDimensions);
}

#[test]
fn test_dangling_quote_ignored() {
    // A lone opening quote after the five mandatory spans never closes, so
    // the span is not counted and the record has no optional fields.
    let line = record_line("p", 1, 2, 3, 4, " Relevance=\"0.5");
    let tok = parse_tokenstring_fast(&line).unwrap();
    assert!(tok.relevance.is_none());
    assert!(tok.transcription.is_none());
}

#[test]
fn test_serialize_exact_line() {
    let line = record_line("page03", 120, 340, 56, 78, " Relevance=\"0.75\" Text=\"ship\"");
    let tok = parse_tokenstring_fast(&line).unwrap();
    let written = serialize_token(&tok);
    assert_eq!(
        written,
        "<word document=\"page03\" x=\"120\" y=\"340\" width=\"56\" height=\"78\" \
         Relevance=\"0.75\" Text=\"ship\" />"
    );
}

#[test]
fn test_roundtrip_preserves_fields() {
    let cases = vec![
        record_line("docA", 0, 0, 1, 1, ""),
        record_line("docB", 4294967294, 7, 2, 2, " Relevance=\"1\""),
        record_line("docC", 10, 20, 30, 40, " Text=\"word\""),
        record_line("docD", 1, 2, 3, 4, " Relevance=\"0.080\" Text=\"x y\""),
    ];
    for line in cases {
        let tok = parse_tokenstring_fast(&line).unwrap();
        let written = serialize_token(&tok);
        let again = parse_tokenstring_fast(&written).unwrap();
        assert_eq!(tok.document, again.document);
        assert_eq!(tok.transcription, again.transcription);
        assert_eq!(tok.relevance, again.relevance);
        let (b1, b2) = (bbox_of(&tok), bbox_of(&again));
        assert_eq!(b1.min.get_x(), b2.min.get_x());
        assert_eq!(b1.min.get_y(), b2.min.get_y());
        assert_eq!(b1.width(), b2.width());
        assert_eq!(b1.height(), b2.height());
    }
}

#[test]
fn test_relevance_validity() {
    assert!(Relevance { num: 1, places: 0 }.is_valid());
    assert!(Relevance { num: 75, places: 2 }.is_valid());
    assert!(!Relevance { num: 0, places: 0 }.is_valid());
    assert!(!Relevance { num: 101, places: 2 }.is_valid());
    assert!(Relevance { num: 100, places: 2 }.is_valid());
}
