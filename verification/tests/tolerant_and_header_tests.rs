use rawcookie::cookie::Mode;
use rawcookie::cookie::ParseError;
use rawcookie::grammar::is_cookie_octet;
use rawcookie::grammar::is_ctl;
use rawcookie::grammar::is_separator;
use rawcookie::grammar::is_token_char;
use rawcookie::parser::parse;
use rawcookie::parser::parse_header;

#[test]
fn tolerant_simple_pair() {
    let c = parse(b"key=value", Mode::Tolerant).unwrap();
    assert_eq!(c.name, b"key".to_vec());
    assert_eq!(c.value, b"value".to_vec());
}

#[test]
fn tolerant_missing_equals_is_value_only() {
    let c = parse(b"justavalue", Mode::Tolerant).unwrap();
    assert_eq!(c.name, b"".to_vec());
    assert_eq!(c.value, b"justavalue".to_vec());
}

#[test]
fn tolerant_preserves_non_utf8_octet() {
    let mut input = b"key=value".to_vec();
    input.push(0xEE);
    input.extend_from_slice(b"foobar");
    let c = parse(&input, Mode::Tolerant).unwrap();
    assert_eq!(c.name, b"key".to_vec());
    let mut expected = b"value".to_vec();
    expected.push(0xEE);
    expected.extend_from_slice(b"foobar");
    assert_eq!(c.value, expected);
}

#[test]
fn tolerant_never_decodes_percent() {
    let c = parse(b"ke%y=a%0Ab", Mode::Tolerant).unwrap();
    assert_eq!(c.name, b"ke%y".to_vec());
    assert_eq!(c.value, b"a%0Ab".to_vec());
}

#[test]
fn tolerant_passes_control_octets_through() {
    let c = parse(b"k=a\x0Ab", Mode::Tolerant).unwrap();
    assert_eq!(c.value, b"a\x0Ab".to_vec());
}

#[test]
fn tolerant_trims_whitespace() {
    let c = parse(b"  key  =  value \t", Mode::Tolerant).unwrap();
    assert_eq!(c.name, b"key".to_vec());
    assert_eq!(c.value, b"value".to_vec());
}

#[test]
fn tolerant_strips_balanced_quotes() {
    let c = parse(b" k = \"v\" ", Mode::Tolerant).unwrap();
    assert_eq!(c.name, b"k".to_vec());
    assert_eq!(c.value, b"v".to_vec());
}

#[test]
fn tolerant_keeps_unbalanced_quote() {
    let c = parse(b"k=\"v", Mode::Tolerant).unwrap();
    assert_eq!(c.value, b"\"v".to_vec());
}

#[test]
fn tolerant_accepts_any_name_octets() {
    let c = parse(b"ke y\x01=v", Mode::Tolerant).unwrap();
    assert_eq!(c.name, b"ke y\x01".to_vec());
    assert_eq!(c.value, b"v".to_vec());
}

#[test]
fn tolerant_value_only_segment_keeps_quotes() {
    let c = parse(b"\"v\"", Mode::Tolerant).unwrap();
    assert_eq!(c.name, b"".to_vec());
    assert_eq!(c.value, b"\"v\"".to_vec());
}

#[test]
fn tolerant_empty_input_is_empty_pair() {
    let c = parse(b"", Mode::Tolerant).unwrap();
    assert_eq!(c.name, b"".to_vec());
    assert_eq!(c.value, b"".to_vec());
}

#[test]
fn header_splits_pairs_in_order() {
    let rs = parse_header(b"a=1; b=2; c=3", Mode::Tolerant);
    assert_eq!(rs.len(), 3);
    let a = rs[0].as_ref().unwrap();
    assert_eq!(a.name, b"a".to_vec());
    assert_eq!(a.value, b"1".to_vec());
    let b = rs[1].as_ref().unwrap();
    assert_eq!(b.name, b"b".to_vec());
    assert_eq!(b.value, b"2".to_vec());
    let c = rs[2].as_ref().unwrap();
    assert_eq!(c.name, b"c".to_vec());
    assert_eq!(c.value, b"3".to_vec());
}

#[test]
fn header_skips_empty_segments() {
    let rs = parse_header(b";; a=1 ;;  ; b", Mode::Tolerant);
    assert_eq!(rs.len(), 2);
    let a = rs[0].as_ref().unwrap();
    assert_eq!(a.name, b"a".to_vec());
    assert_eq!(a.value, b"1".to_vec());
    let b = rs[1].as_ref().unwrap();
    assert_eq!(b.name, b"".to_vec());
    assert_eq!(b.value, b"b".to_vec());
}

#[test]
fn header_empty_input_yields_nothing() {
    let rs = parse_header(b"", Mode::Tolerant);
    assert_eq!(rs.len(), 0);
    let rs = parse_header(b" \t ", Mode::Strict);
    assert_eq!(rs.len(), 0);
}

#[test]
fn header_strict_trims_list_whitespace_only() {
    let rs = parse_header(b"a=1; b=2", Mode::Strict);
    assert_eq!(rs.len(), 2);
    assert!(rs[0].is_ok());
    assert!(rs[1].is_ok());
}

#[test]
fn header_strict_reports_per_segment_errors() {
    let rs = parse_header(b"a=1; bad pair=2; c=3", Mode::Strict);
    assert_eq!(rs.len(), 3);
    assert!(rs[0].is_ok());
    assert_eq!(rs[1], Err(ParseError::InvalidNameChar(3)));
    assert!(rs[2].is_ok());
}

fn reference_cookie_octet(b: u8) -> bool {
    b == 0x21
        || (0x23..=0x2B).contains(&b)
        || (0x2D..=0x3A).contains(&b)
        || (0x3C..=0x5B).contains(&b)
        || (0x5D..=0x7E).contains(&b)
}

fn reference_token_char(b: u8) -> bool {
    let ctl = b <= 0x1F || b == 0x7F;
    let separator = b"()<>@,;:\\\"/[]?={} \t".contains(&b);
    b <= 0x7F && !ctl && !separator
}

#[test]
fn classifiers_agree_with_rfc_for_all_octets() {
    for b in 0..=255u8 {
        assert_eq!(is_cookie_octet(b), reference_cookie_octet(b), "octet {b}");
        assert_eq!(is_token_char(b), reference_token_char(b), "octet {b}");
        assert_eq!(is_ctl(b), b <= 0x1F || b == 0x7F, "octet {b}");
        assert_eq!(
            is_separator(b),
            b"()<>@,;:\\\"/[]?={} \t".contains(&b),
            "octet {b}"
        );
        // every cookie-octet is a token octet except the token separators
        // it readmits; spot the documented relation: cookie-octets are
        // printable ASCII and never CTL.
        if is_cookie_octet(b) {
            assert!(!is_ctl(b));
            assert!(b != b'"' && b != b';' && b != b',' && b != b'\\' && b != b' ');
        }
    }
}
