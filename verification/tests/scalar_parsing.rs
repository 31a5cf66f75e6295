//! The scalar field parser family: typed conversion, defaulting on
//! malformed text, and the empty-field rule, over hand-built token streams.

use merc_opinions::scalar::{parsebool, parsei32, parsei64, parseu16, parseu8, parseString};
use merc_opinions::scalar::{parsei16, parsei8, parseu32, parseu64};
use merc_opinions::token::{StreamError, Token};

fn text(s: &str) -> Token {
    Token::Text(String::from(s))
}

fn end(s: &str) -> Token {
    Token::End(String::from(s))
}

#[test]
fn u8_plain_value() {
    let toks = vec![text("42"), end("uiIndex")];
    let (p, next) = parseu8(&toks, 0).unwrap();
    assert_eq!(p.value, 42);
    assert!(!p.malformed);
    assert_eq!(next, 1);
}

#[test]
fn u8_plus_sign_accepted() {
    let toks = vec![text("+7")];
    let (p, _) = parseu8(&toks, 0).unwrap();
    assert_eq!(p.value, 7);
    assert!(!p.malformed);
}

#[test]
fn u8_leading_zeros_accepted() {
    let toks = vec![text("007")];
    let (p, _) = parseu8(&toks, 0).unwrap();
    assert_eq!(p.value, 7);
    assert!(!p.malformed);
}

#[test]
fn u8_malformed_defaults_to_zero() {
    let toks = vec![text("abc")];
    let (p, _) = parseu8(&toks, 0).unwrap();
    assert_eq!(p.value, 0);
    assert!(p.malformed);
}

#[test]
fn u8_overflow_defaults_to_zero() {
    let toks = vec![text("300")];
    let (p, _) = parseu8(&toks, 0).unwrap();
    assert_eq!(p.value, 0);
    assert!(p.malformed);
}

#[test]
fn u8_huge_numeral_defaults_to_zero() {
    let toks = vec![text("99999999999999999999999999")];
    let (p, _) = parseu8(&toks, 0).unwrap();
    assert_eq!(p.value, 0);
    assert!(p.malformed);
}

#[test]
fn u8_negative_rejected() {
    let toks = vec![text("-1")];
    let (p, _) = parseu8(&toks, 0).unwrap();
    assert_eq!(p.value, 0);
    assert!(p.malformed);
}

#[test]
fn u8_empty_field_defaults_silently() {
    let toks = vec![end("uiIndex")];
    let (p, next) = parseu8(&toks, 0).unwrap();
    assert_eq!(p.value, 0);
    assert!(!p.malformed);
    assert_eq!(next, 1);
}

#[test]
fn u8_skips_interleaved_markup() {
    let toks = vec![Token::Other, Token::Start(String::from("stray")), text("9")];
    let (p, next) = parseu8(&toks, 0).unwrap();
    assert_eq!(p.value, 9);
    assert_eq!(next, 3);
}

#[test]
fn u8_truncated_stream_is_fatal() {
    let toks = vec![Token::Other];
    assert_eq!(parseu8(&toks, 0).unwrap_err(), StreamError::Truncated);
}

#[test]
fn u16_u32_u64_bounds() {
    let (p, _) = parseu16(&vec![text("65535")], 0).unwrap();
    assert_eq!(p.value, 65535);
    assert!(!p.malformed);
    let (p, _) = parseu16(&vec![text("65536")], 0).unwrap();
    assert!(p.malformed);
    let (p, _) = parseu32(&vec![text("4294967295")], 0).unwrap();
    assert_eq!(p.value, 4294967295);
    let (p, _) = parseu64(&vec![text("18446744073709551615")], 0).unwrap();
    assert_eq!(p.value, 18446744073709551615);
    let (p, _) = parseu64(&vec![text("18446744073709551616")], 0).unwrap();
    assert!(p.malformed);
}

#[test]
fn i8_i16_bounds() {
    let (p, _) = parsei8(&vec![text("-128")], 0).unwrap();
    assert_eq!(p.value, -128);
    let (p, _) = parsei8(&vec![text("-129")], 0).unwrap();
    assert!(p.malformed);
    let (p, _) = parsei16(&vec![text("32767")], 0).unwrap();
    assert_eq!(p.value, 32767);
    let (p, _) = parsei16(&vec![text("32768")], 0).unwrap();
    assert!(p.malformed);
}

#[test]
fn i32_signs_and_bounds() {
    let (p, _) = parsei32(&vec![text("-5")], 0).unwrap();
    assert_eq!(p.value, -5);
    assert!(!p.malformed);
    let (p, _) = parsei32(&vec![text("+31")], 0).unwrap();
    assert_eq!(p.value, 31);
    let (p, _) = parsei32(&vec![text("-2147483648")], 0).unwrap();
    assert_eq!(p.value, -2147483648);
    let (p, _) = parsei32(&vec![text("2147483647")], 0).unwrap();
    assert_eq!(p.value, 2147483647);
    let (p, _) = parsei32(&vec![text("2147483648")], 0).unwrap();
    assert!(p.malformed);
    let (p, _) = parsei32(&vec![text("-2147483649")], 0).unwrap();
    assert!(p.malformed);
}

#[test]
fn i64_extremes() {
    let (p, _) = parsei64(&vec![text("-9223372036854775808")], 0).unwrap();
    assert_eq!(p.value, -9223372036854775808);
    let (p, _) = parsei64(&vec![text("9223372036854775807")], 0).unwrap();
    assert_eq!(p.value, 9223372036854775807);
    let (p, _) = parsei64(&vec![text("9223372036854775808")], 0).unwrap();
    assert!(p.malformed);
}

#[test]
fn bool_nonzero_is_true() {
    let (p, _) = parsebool(&vec![text("0")], 0).unwrap();
    assert!(!p.value);
    assert!(!p.malformed);
    let (p, _) = parsebool(&vec![text("2")], 0).unwrap();
    assert!(p.value);
    let (p, _) = parsebool(&vec![text("yes")], 0).unwrap();
    assert!(!p.value);
    assert!(p.malformed);
}

#[test]
fn string_verbatim() {
    let toks = vec![text("Fox & Hound")];
    let (v, next) = parseString(&toks, 0).unwrap();
    assert_eq!(v, "Fox & Hound");
    assert_eq!(next, 1);
}

#[test]
fn string_absent_text_is_empty() {
    let toks = vec![end("zNickname")];
    let (v, next) = parseString(&toks, 0).unwrap();
    assert_eq!(v, "");
    assert_eq!(next, 1);
}

#[test]
fn string_truncated_stream_is_fatal() {
    let toks: Vec<Token> = Vec::new();
    assert_eq!(parseString(&toks, 0).unwrap_err(), StreamError::Truncated);
}
