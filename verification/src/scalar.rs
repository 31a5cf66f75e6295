//! The scalar field parser family: given the token stream positioned just
//! after a field's start tag, find its pending text and convert it to the
//! declared type. Malformed text is never fatal: the field takes the type's
//! default and the caller is told so, so it can log a diagnostic and carry
//! on. Only the stream ending before the field is closed is fatal.

use vstd::prelude::*;
use crate::text::{parse_signed, parse_unsigned};
use crate::text::{parse_i16_str, parse_i32_str, parse_i64_str, parse_i8_str};
use crate::text::{parse_u16_str, parse_u32_str, parse_u64_str, parse_u8_str};
use crate::token::{StreamError, Token};

verus! {

/// Scans the stream from position `i` for a field's pending text: the first
/// text token gives the text, the first end tag before any text means the
/// field was empty, and the stream running out first is a truncation. Start
/// tags and other events in between are ignored. The second component is the
/// position just past the consumed token.
pub open spec fn spec_scan(toks: Seq<Token>, i: int) -> Option<(Option<Seq<char>>, int)>
    decreases toks.len() - i,
{
    if i < 0 || i >= toks.len() {
        None
    } else {
        match toks[i] {
            Token::Text(s) => Some((Some(s@), i + 1)),
            Token::End(_) => Some((None, i + 1)),
            _ => spec_scan(toks, i + 1),
        }
    }
}

/// A successful scan always moves forward and stays inside the stream.
pub proof fn lemma_scan_advances(toks: Seq<Token>, i: int)
    ensures
        spec_scan(toks, i) matches Some((t, k)) ==> i < k <= toks.len(),
    decreases toks.len() - i,
{
    if 0 <= i < toks.len() {
        match toks[i] {
            Token::Text(_) => {},
            Token::End(_) => {},
            _ => {
                lemma_scan_advances(toks, i + 1);
            },
        }
    }
}

/// What a scanned field yields for an unsigned 8-bit target: the value, and
/// whether malformed text forced the default. Absent text (an empty field)
/// defaults silently.
pub open spec fn scal_u8(t: Option<Seq<char>>) -> (u8, bool) {
    match t {
        None => (0u8, false),
        Some(s) => match parse_unsigned(s, u8::MAX as nat) {
            Some(v) => (v as u8, false),
            None => (0u8, true),
        },
    }
}

pub open spec fn scal_u16(t: Option<Seq<char>>) -> (u16, bool) {
    match t {
        None => (0u16, false),
        Some(s) => match parse_unsigned(s, u16::MAX as nat) {
            Some(v) => (v as u16, false),
            None => (0u16, true),
        },
    }
}

pub open spec fn scal_u32(t: Option<Seq<char>>) -> (u32, bool) {
    match t {
        None => (0u32, false),
        Some(s) => match parse_unsigned(s, u32::MAX as nat) {
            Some(v) => (v as u32, false),
            None => (0u32, true),
        },
    }
}

pub open spec fn scal_u64(t: Option<Seq<char>>) -> (u64, bool) {
    match t {
        None => (0u64, false),
        Some(s) => match parse_unsigned(s, u64::MAX as nat) {
            Some(v) => (v as u64, false),
            None => (0u64, true),
        },
    }
}

pub open spec fn scal_i8(t: Option<Seq<char>>) -> (i8, bool) {
    match t {
        None => (0i8, false),
        Some(s) => match parse_signed(s, i8::MIN as int, i8::MAX as int) {
            Some(v) => (v as i8, false),
            None => (0i8, true),
        },
    }
}

pub open spec fn scal_i16(t: Option<Seq<char>>) -> (i16, bool) {
    match t {
        None => (0i16, false),
        Some(s) => match parse_signed(s, i16::MIN as int, i16::MAX as int) {
            Some(v) => (v as i16, false),
            None => (0i16, true),
        },
    }
}

pub open spec fn scal_i32(t: Option<Seq<char>>) -> (i32, bool) {
    match t {
        None => (0i32, false),
        Some(s) => match parse_signed(s, i32::MIN as int, i32::MAX as int) {
            Some(v) => (v as i32, false),
            None => (0i32, true),
        },
    }
}

pub open spec fn scal_i64(t: Option<Seq<char>>) -> (i64, bool) {
    match t {
        None => (0i64, false),
        Some(s) => match parse_signed(s, i64::MIN as int, i64::MAX as int) {
            Some(v) => (v as i64, false),
            None => (0i64, true),
        },
    }
}

/// A boolean field is read as an unsigned integer and is true exactly when
/// that integer is non-zero; malformed text defaults to false.
pub open spec fn scal_bool(t: Option<Seq<char>>) -> (bool, bool) {
    match t {
        None => (false, false),
        Some(s) => match parse_unsigned(s, u32::MAX as nat) {
            Some(v) => (v != 0, false),
            None => (false, true),
        },
    }
}

/// A string field is the text verbatim, or empty when no text arrived
/// before the field closed.
pub open spec fn scal_string(t: Option<Seq<char>>) -> Seq<char> {
    match t {
        None => Seq::empty(),
        Some(s) => s,
    }
}

/// A parsed field: the typed value, and whether malformed text forced the
/// type's default (in which case the caller logs a diagnostic).
#[derive(Debug)]
pub struct ParsedField<T> {
    pub value: T,
    pub malformed: bool,
}

/// Finds a field's pending text, exactly as `spec_scan` describes.
#[allow(non_snake_case)]
pub fn scanText(tokens: &Vec<Token>, i: usize) -> (r: Result<(Option<String>, usize), StreamError>)
    requires
        i <= tokens@.len(),
    ensures
        match r {
            Ok(p) => {
                &&& spec_scan(tokens@, i as int) matches Some((t, k))
                &&& t == p.0.deep_view()
                &&& k == p.1 as int
                &&& i < p.1 <= tokens@.len()
            },
            Err(e) => spec_scan(tokens@, i as int) is None && e == StreamError::Truncated,
        },
{
    let n = tokens.len();
    let mut j = i;
    while j < n
        invariant
            i <= j <= n,
            n == tokens@.len(),
            spec_scan(tokens@, i as int) == spec_scan(tokens@, j as int),
        decreases n - j,
    {
        match &tokens[j] {
            Token::Text(s) => {
                let v = s.clone();
                return Ok((Some(v), j + 1));
            },
            Token::End(_) => {
                return Ok((None, j + 1));
            },
            _ => {
                j += 1;
            },
        }
    }
    Err(StreamError::Truncated)
}

/// Reads a field as `u8`; malformed text yields 0 and the malformed mark.
#[allow(non_snake_case)]
pub fn parseu8(tokens: &Vec<Token>, i: usize) -> (r: Result<(ParsedField<u8>, usize), StreamError>)
    requires
        i <= tokens@.len(),
    ensures
        match r {
            Ok(p) => {
                &&& spec_scan(tokens@, i as int) matches Some((t, k))
                &&& (p.0.value, p.0.malformed) == scal_u8(t)
                &&& k == p.1 as int
                &&& i < p.1 <= tokens@.len()
            },
            Err(e) => spec_scan(tokens@, i as int) is None && e == StreamError::Truncated,
        },
{
    match scanText(tokens, i) {
        Err(e) => Err(e),
        Ok((t, k)) => match t {
            None => Ok((ParsedField { value: 0u8, malformed: false }, k)),
            Some(s) => match parse_u8_str(s.as_str()) {
                Some(v) => Ok((ParsedField { value: v, malformed: false }, k)),
                None => Ok((ParsedField { value: 0u8, malformed: true }, k)),
            },
        },
    }
}

/// Reads a field as `u16`.
#[allow(non_snake_case)]
pub fn parseu16(tokens: &Vec<Token>, i: usize) -> (r: Result<
    (ParsedField<u16>, usize),
    StreamError,
>)
    requires
        i <= tokens@.len(),
    ensures
        match r {
            Ok(p) => {
                &&& spec_scan(tokens@, i as int) matches Some((t, k))
                &&& (p.0.value, p.0.malformed) == scal_u16(t)
                &&& k == p.1 as int
                &&& i < p.1 <= tokens@.len()
            },
            Err(e) => spec_scan(tokens@, i as int) is None && e == StreamError::Truncated,
        },
{
    match scanText(tokens, i) {
        Err(e) => Err(e),
        Ok((t, k)) => match t {
            None => Ok((ParsedField { value: 0u16, malformed: false }, k)),
            Some(s) => match parse_u16_str(s.as_str()) {
                Some(v) => Ok((ParsedField { value: v, malformed: false }, k)),
                None => Ok((ParsedField { value: 0u16, malformed: true }, k)),
            },
        },
    }
}

/// Reads a field as `u32`.
#[allow(non_snake_case)]
pub fn parseu32(tokens: &Vec<Token>, i: usize) -> (r: Result<
    (ParsedField<u32>, usize),
    StreamError,
>)
    requires
        i <= tokens@.len(),
    ensures
        match r {
            Ok(p) => {
                &&& spec_scan(tokens@, i as int) matches Some((t, k))
                &&& (p.0.value, p.0.malformed) == scal_u32(t)
                &&& k == p.1 as int
                &&& i < p.1 <= tokens@.len()
            },
            Err(e) => spec_scan(tokens@, i as int) is None && e == StreamError::Truncated,
        },
{
    match scanText(tokens, i) {
        Err(e) => Err(e),
        Ok((t, k)) => match t {
            None => Ok((ParsedField { value: 0u32, malformed: false }, k)),
            Some(s) => match parse_u32_str(s.as_str()) {
                Some(v) => Ok((ParsedField { value: v, malformed: false }, k)),
                None => Ok((ParsedField { value: 0u32, malformed: true }, k)),
            },
        },
    }
}

/// Reads a field as `u64`.
#[allow(non_snake_case)]
pub fn parseu64(tokens: &Vec<Token>, i: usize) -> (r: Result<
    (ParsedField<u64>, usize),
    StreamError,
>)
    requires
        i <= tokens@.len(),
    ensures
        match r {
            Ok(p) => {
                &&& spec_scan(tokens@, i as int) matches Some((t, k))
                &&& (p.0.value, p.0.malformed) == scal_u64(t)
                &&& k == p.1 as int
                &&& i < p.1 <= tokens@.len()
            },
            Err(e) => spec_scan(tokens@, i as int) is None && e == StreamError::Truncated,
        },
{
    match scanText(tokens, i) {
        Err(e) => Err(e),
        Ok((t, k)) => match t {
            None => Ok((ParsedField { value: 0u64, malformed: false }, k)),
            Some(s) => match parse_u64_str(s.as_str()) {
                Some(v) => Ok((ParsedField { value: v, malformed: false }, k)),
                None => Ok((ParsedField { value: 0u64, malformed: true }, k)),
            },
        },
    }
}

/// Reads a field as `i8`.
#[allow(non_snake_case)]
pub fn parsei8(tokens: &Vec<Token>, i: usize) -> (r: Result<(ParsedField<i8>, usize), StreamError>)
    requires
        i <= tokens@.len(),
    ensures
        match r {
            Ok(p) => {
                &&& spec_scan(tokens@, i as int) matches Some((t, k))
                &&& (p.0.value, p.0.malformed) == scal_i8(t)
                &&& k == p.1 as int
                &&& i < p.1 <= tokens@.len()
            },
            Err(e) => spec_scan(tokens@, i as int) is None && e == StreamError::Truncated,
        },
{
    match scanText(tokens, i) {
        Err(e) => Err(e),
        Ok((t, k)) => match t {
            None => Ok((ParsedField { value: 0i8, malformed: false }, k)),
            Some(s) => match parse_i8_str(s.as_str()) {
                Some(v) => Ok((ParsedField { value: v, malformed: false }, k)),
                None => Ok((ParsedField { value: 0i8, malformed: true }, k)),
            },
        },
    }
}

/// Reads a field as `i16`.
#[allow(non_snake_case)]
pub fn parsei16(tokens: &Vec<Token>, i: usize) -> (r: Result<
    (ParsedField<i16>, usize),
    StreamError,
>)
    requires
        i <= tokens@.len(),
    ensures
        match r {
            Ok(p) => {
                &&& spec_scan(tokens@, i as int) matches Some((t, k))
                &&& (p.0.value, p.0.malformed) == scal_i16(t)
                &&& k == p.1 as int
                &&& i < p.1 <= tokens@.len()
            },
            Err(e) => spec_scan(tokens@, i as int) is None && e == StreamError::Truncated,
        },
{
    match scanText(tokens, i) {
        Err(e) => Err(e),
        Ok((t, k)) => match t {
            None => Ok((ParsedField { value: 0i16, malformed: false }, k)),
            Some(s) => match parse_i16_str(s.as_str()) {
                Some(v) => Ok((ParsedField { value: v, malformed: false }, k)),
                None => Ok((ParsedField { value: 0i16, malformed: true }, k)),
            },
        },
    }
}

/// Reads a field as `i32` — the type of every relation modifier.
#[allow(non_snake_case)]
pub fn parsei32(tokens: &Vec<Token>, i: usize) -> (r: Result<
    (ParsedField<i32>, usize),
    StreamError,
>)
    requires
        i <= tokens@.len(),
    ensures
        match r {
            Ok(p) => {
                &&& spec_scan(tokens@, i as int) matches Some((t, k))
                &&& (p.0.value, p.0.malformed) == scal_i32(t)
                &&& k == p.1 as int
                &&& i < p.1 <= tokens@.len()
            },
            Err(e) => spec_scan(tokens@, i as int) is None && e == StreamError::Truncated,
        },
{
    match scanText(tokens, i) {
        Err(e) => Err(e),
        Ok((t, k)) => match t {
            None => Ok((ParsedField { value: 0i32, malformed: false }, k)),
            Some(s) => match parse_i32_str(s.as_str()) {
                Some(v) => Ok((ParsedField { value: v, malformed: false }, k)),
                None => Ok((ParsedField { value: 0i32, malformed: true }, k)),
            },
        },
    }
}

/// Reads a field as `i64`.
#[allow(non_snake_case)]
pub fn parsei64(tokens: &Vec<Token>, i: usize) -> (r: Result<
    (ParsedField<i64>, usize),
    StreamError,
>)
    requires
        i <= tokens@.len(),
    ensures
        match r {
            Ok(p) => {
                &&& spec_scan(tokens@, i as int) matches Some((t, k))
                &&& (p.0.value, p.0.malformed) == scal_i64(t)
                &&& k == p.1 as int
                &&& i < p.1 <= tokens@.len()
            },
            Err(e) => spec_scan(tokens@, i as int) is None && e == StreamError::Truncated,
        },
{
    match scanText(tokens, i) {
        Err(e) => Err(e),
        Ok((t, k)) => match t {
            None => Ok((ParsedField { value: 0i64, malformed: false }, k)),
            Some(s) => match parse_i64_str(s.as_str()) {
                Some(v) => Ok((ParsedField { value: v, malformed: false }, k)),
                None => Ok((ParsedField { value: 0i64, malformed: true }, k)),
            },
        },
    }
}

/// Reads a field as a boolean: an unsigned integer, true iff non-zero.
#[allow(non_snake_case)]
pub fn parsebool(tokens: &Vec<Token>, i: usize) -> (r: Result<
    (ParsedField<bool>, usize),
    StreamError,
>)
    requires
        i <= tokens@.len(),
    ensures
        match r {
            Ok(p) => {
                &&& spec_scan(tokens@, i as int) matches Some((t, k))
                &&& (p.0.value, p.0.malformed) == scal_bool(t)
                &&& k == p.1 as int
                &&& i < p.1 <= tokens@.len()
            },
            Err(e) => spec_scan(tokens@, i as int) is None && e == StreamError::Truncated,
        },
{
    match scanText(tokens, i) {
        Err(e) => Err(e),
        Ok((t, k)) => match t {
            None => Ok((ParsedField { value: false, malformed: false }, k)),
            Some(s) => match parse_u32_str(s.as_str()) {
                Some(v) => Ok((ParsedField { value: v != 0, malformed: false }, k)),
                None => Ok((ParsedField { value: false, malformed: true }, k)),
            },
        },
    }
}

/// Reads a field as text, verbatim; an empty field is the empty string.
#[allow(non_snake_case)]
pub fn parseString(tokens: &Vec<Token>, i: usize) -> (r: Result<(String, usize), StreamError>)
    requires
        i <= tokens@.len(),
    ensures
        match r {
            Ok(p) => {
                &&& spec_scan(tokens@, i as int) matches Some((t, k))
                &&& p.0@ == scal_string(t)
                &&& k == p.1 as int
                &&& i < p.1 <= tokens@.len()
            },
            Err(e) => spec_scan(tokens@, i as int) is None && e == StreamError::Truncated,
        },
{
    match scanText(tokens, i) {
        Err(e) => Err(e),
        Ok((t, k)) => match t {
            None => Ok((String::new(), k)),
            Some(s) => Ok((s, k)),
        },
    }
}

} // verus!
