use rawcookie::cookie::Mode;
use rawcookie::cookie::ParseError;
use rawcookie::cookie::Quoting;
use rawcookie::cookie::RawCookie;
use rawcookie::parser::parse;
use rawcookie::serializer::serialize;
use rawcookie::serializer::validate;

#[test]
fn strict_simple_pair() {
    let c = parse(b"key=value", Mode::Strict).unwrap();
    assert_eq!(c.name, b"key".to_vec());
    assert_eq!(c.value, b"value".to_vec());
}

#[test]
fn strict_keeps_percent_sequences_in_value() {
    let c = parse(b"key=value%23foobar", Mode::Strict).unwrap();
    assert_eq!(c.name, b"key".to_vec());
    assert_eq!(c.value, b"value%23foobar".to_vec());
}

#[test]
fn strict_keeps_percent_2f_in_value() {
    let c = parse(b"key=value%2Ffoobar", Mode::Strict).unwrap();
    assert_eq!(c.value, b"value%2Ffoobar".to_vec());
}

#[test]
fn strict_keeps_lone_percent_in_value() {
    let c = parse(b"key=value%foobar", Mode::Strict).unwrap();
    assert_eq!(c.value, b"value%foobar".to_vec());
}

#[test]
fn strict_keeps_percent_sequences_in_name() {
    let c = parse(b"key%2Ffoobar=value", Mode::Strict).unwrap();
    assert_eq!(c.name, b"key%2Ffoobar".to_vec());
    assert_eq!(c.value, b"value".to_vec());
}

#[test]
fn strict_keeps_percent_name_and_value() {
    let c = parse(b"ke%y=a%eeb", Mode::Strict).unwrap();
    assert_eq!(c.name, b"ke%y".to_vec());
    assert_eq!(c.value, b"a%eeb".to_vec());
}

#[test]
fn strict_keeps_literal_percent_0a() {
    let c = parse(b"ke%y=a%0Ab", Mode::Strict).unwrap();
    assert_eq!(c.value, b"a%0Ab".to_vec());
}

#[test]
fn strict_strips_structural_quotes() {
    let c = parse(b"key=\"value\"", Mode::Strict).unwrap();
    assert_eq!(c.value, b"value".to_vec());
    let wire = serialize(&c, Quoting::Unquoted);
    assert_eq!(wire, b"key=value".to_vec());
}

#[test]
fn strict_empty_value_ok() {
    let c = parse(b"key=", Mode::Strict).unwrap();
    assert_eq!(c.name, b"key".to_vec());
    assert_eq!(c.value, b"".to_vec());
}

#[test]
fn strict_value_may_contain_equals() {
    let c = parse(b"key=a=b", Mode::Strict).unwrap();
    assert_eq!(c.name, b"key".to_vec());
    assert_eq!(c.value, b"a=b".to_vec());
}

#[test]
fn strict_missing_equals() {
    assert_eq!(
        parse(b"novalue", Mode::Strict),
        Err(ParseError::MissingEquals)
    );
}

#[test]
fn strict_empty_name() {
    assert_eq!(parse(b"=value", Mode::Strict), Err(ParseError::EmptyName));
}

#[test]
fn strict_invalid_name_char_offset() {
    assert_eq!(
        parse(b"ke y=value", Mode::Strict),
        Err(ParseError::InvalidNameChar(2))
    );
}

#[test]
fn strict_unbalanced_quote() {
    assert_eq!(
        parse(b"key=\"value", Mode::Strict),
        Err(ParseError::UnbalancedQuote)
    );
    assert_eq!(
        parse(b"key=value\"", Mode::Strict),
        Err(ParseError::UnbalancedQuote)
    );
}

#[test]
fn strict_single_quote_value_is_invalid_octet() {
    assert_eq!(
        parse(b"key=\"", Mode::Strict),
        Err(ParseError::InvalidValueChar(4))
    );
}

#[test]
fn strict_rejects_newline_in_value() {
    assert_eq!(
        parse(b"key=a\nb", Mode::Strict),
        Err(ParseError::InvalidValueChar(5))
    );
}

#[test]
fn strict_rejects_comma_in_quoted_value() {
    assert_eq!(
        parse(b"k=\",\"", Mode::Strict),
        Err(ParseError::InvalidValueChar(3))
    );
}

#[test]
fn serialize_emits_verbatim() {
    let c = RawCookie::new(b"key".to_vec(), b"value".to_vec());
    assert_eq!(serialize(&c, Quoting::Unquoted), b"key=value".to_vec());
}

#[test]
fn serialize_never_encodes_percent() {
    let c = RawCookie::new(b"key".to_vec(), b"value%2Ffoobar".to_vec());
    assert_eq!(
        serialize(&c, Quoting::Unquoted),
        b"key=value%2Ffoobar".to_vec()
    );
}

#[test]
fn serialize_never_encodes_hash_in_value() {
    let c = RawCookie::new(b"key".to_vec(), b"value#foobar".to_vec());
    assert_eq!(
        serialize(&c, Quoting::Unquoted),
        b"key=value#foobar".to_vec()
    );
}

#[test]
fn serialize_never_encodes_hash_in_name() {
    let c = RawCookie::new(b"key#foobar".to_vec(), b"value".to_vec());
    assert_eq!(
        serialize(&c, Quoting::Unquoted),
        b"key#foobar=value".to_vec()
    );
}

#[test]
fn serialize_quoted_on_request_only() {
    let c = RawCookie::new(b"k".to_vec(), b"v".to_vec());
    assert_eq!(serialize(&c, Quoting::Quoted), b"k=\"v\"".to_vec());
    assert_eq!(serialize(&c, Quoting::Unquoted), b"k=v".to_vec());
}

#[test]
fn round_trip_strict() {
    let c = RawCookie::new(b"key".to_vec(), b"value#foobar".to_vec());
    let wire = serialize(&c, Quoting::Unquoted);
    let back = parse(&wire, Mode::Strict).unwrap();
    assert_eq!(back, c);
}

#[test]
fn round_trip_strict_empty_value() {
    let c = RawCookie::new(b"k".to_vec(), b"".to_vec());
    let wire = serialize(&c, Quoting::Unquoted);
    assert_eq!(parse(&wire, Mode::Strict).unwrap(), c);
}

#[test]
fn validate_accepts_grammatical_pair() {
    let c = RawCookie::new(b"key".to_vec(), b"value".to_vec());
    assert_eq!(validate(&c), Ok(()));
}

#[test]
fn validate_reports_empty_name() {
    let c = RawCookie::new(b"".to_vec(), b"value".to_vec());
    assert_eq!(validate(&c), Err(ParseError::EmptyName));
}

#[test]
fn validate_reports_name_offset() {
    let c = RawCookie::new(b"a;b".to_vec(), b"v".to_vec());
    assert_eq!(validate(&c), Err(ParseError::InvalidNameChar(1)));
}

#[test]
fn validate_reports_value_offset() {
    let c = RawCookie::new(b"a".to_vec(), b"v w".to_vec());
    assert_eq!(validate(&c), Err(ParseError::InvalidValueChar(1)));
}
