use spwn_lang::number::Number;
use spwn_lang::text::{parse_u16, push_decimal};

fn written(text: &str) -> Option<String> {
    let mut out = String::new();
    Number::parse(text)?.write(&mut out);
    Some(out)
}

fn decimal(n: u64) -> String {
    let mut out = String::from("x");
    push_decimal(&mut out, n);
    out
}

#[test]
fn whole_numbers_are_written_as_they_are() {
    assert_eq!(written("5"), Some("5".to_string()));
    assert_eq!(written("0"), Some("0".to_string()));
    assert_eq!(written("1234567890123456789012345"), Some("1234567890123456789012345".to_string()));
}

#[test]
fn needless_zeros_are_dropped() {
    assert_eq!(written("007"), Some("7".to_string()));
    assert_eq!(written("000"), Some("0".to_string()));
    assert_eq!(written("5.0"), Some("5".to_string()));
    assert_eq!(written("1.50"), Some("1.5".to_string()));
    assert_eq!(written("00.050"), Some("0.05".to_string()));
}

#[test]
fn sign_is_kept_but_not_on_zero() {
    assert_eq!(written("-2.5"), Some("-2.5".to_string()));
    assert_eq!(written("-0"), Some("0".to_string()));
    assert_eq!(written("-0.00"), Some("0".to_string()));
    assert_eq!(written("-0.01"), Some("-0.01".to_string()));
}

#[test]
fn parsed_number_is_in_canonical_form() {
    assert_eq!(
        Number::parse("-012.340"),
        Some(Number { negative: true, whole: "12".to_string(), fraction: "34".to_string() })
    );
    assert_eq!(Number::parse("0"), Some(Number::zero()));
}

#[test]
fn what_is_no_number_is_refused() {
    for text in ["", "-", ".", "5.", ".5", "1e3", "+5", "1.2.3", "--1", "1 ", "x", "1,5", "٣"] {
        assert_eq!(Number::parse(text), None, "{:?}", text);
    }
}

#[test]
fn identifier_numbers_fit_sixteen_bits() {
    assert_eq!(parse_u16("0"), Some(0));
    assert_eq!(parse_u16("12"), Some(12));
    assert_eq!(parse_u16("+12"), Some(12));
    assert_eq!(parse_u16("00012"), Some(12));
    assert_eq!(parse_u16("65535"), Some(65535));
    assert_eq!(parse_u16("65536"), None);
    assert_eq!(parse_u16("99999999999999999999"), None);
}

#[test]
fn what_is_no_identifier_number_is_refused() {
    for text in ["", "+", "-1", "1.0", "1g", " 1", "++1"] {
        assert_eq!(parse_u16(text), None, "{:?}", text);
    }
}

#[test]
fn integers_are_appended_in_decimal() {
    assert_eq!(decimal(0), "x0");
    assert_eq!(decimal(9), "x9");
    assert_eq!(decimal(10), "x10");
    assert_eq!(decimal(1616), "x1616");
    assert_eq!(decimal(u64::MAX), "x18446744073709551615");
}
