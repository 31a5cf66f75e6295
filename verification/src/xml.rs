//! The boundary to the XML tokenizer. The outside crate turns raw bytes into
//! structural events; everything after that point — recognizing rows,
//! dispatching fields, converting scalars — is verified code over the plain
//! `Token` stream.

use vstd::prelude::*;
use crate::token::{StreamError, Token};
use quick_xml::events::Event;

verus! {

#[verifier::external_type_specification]
#[verifier::external_body]
#[verifier::reject_recursive_types(R)]
pub struct ExReader<R>(quick_xml::reader::Reader<R>);

/// Relies on quick_xml's `Reader::from_reader` to build a pull parser over a
/// byte slice, and on `Config::trim_text` to drop leading and trailing
/// whitespace of every text event, so that indentation between tags never
/// reaches the scalar parsers.
#[verifier::external_body]
fn xml_reader<'a>(input: &'a [u8]) -> (r: quick_xml::reader::Reader<&'a [u8]>) {
    let mut r = quick_xml::reader::Reader::from_reader(input);
    r.config_mut().trim_text(true);
    r
}

/// Relies on quick_xml's `Reader::read_event` for the next structural event
/// (`None` standing for end of input) and on `BytesText::unescape` to
/// resolve character and entity references in text. Any parse or escape
/// failure is reported as `Malformed` with the byte position; nothing more
/// is assumed about which events arrive.
#[verifier::external_body]
fn next_event(r: &mut quick_xml::reader::Reader<&[u8]>) -> (t: Result<Option<Token>, StreamError>)
    ensures
        t matches Err(e) ==> e is Malformed,
{
    match r.read_event() {
        Ok(Event::Start(e)) => Ok(Some(Token::Start(String::from_utf8_lossy(e.name().as_ref()).into_owned()))),
        Ok(Event::End(e)) => Ok(Some(Token::End(String::from_utf8_lossy(e.name().as_ref()).into_owned()))),
        Ok(Event::Text(e)) => match e.unescape() {
            Ok(s) => Ok(Some(Token::Text(s.into_owned()))),
            Err(_) => Err(StreamError::Malformed(r.buffer_position())),
        },
        Ok(Event::Eof) => Ok(None),
        Ok(_) => Ok(Some(Token::Other)),
        Err(_) => Err(StreamError::Malformed(r.buffer_position())),
    }
}

/// Turns raw XML bytes into the structural token stream, one forward pass.
/// What the tokens are is the tokenizer's business; every claim about what
/// a token stream means is made by the verified reader on the result.
///
/// Every event before end-of-input covers at least one input byte, so the
/// stream holds at most one event per byte; the explicit cap below makes
/// that bound a checked fact rather than a belief about the tokenizer, and
/// a tokenizer that exceeded it would be reported as malformed.
pub fn tokenize(input: &[u8]) -> (r: Result<Vec<Token>, StreamError>)
    ensures
        r matches Err(e) ==> e is Malformed,
{
    let mut rd = xml_reader(input);
    let mut toks: Vec<Token> = Vec::new();
    let mut fuel: usize = input.len();
    loop
        invariant
            true,
        decreases fuel,
    {
        match next_event(&mut rd) {
            Ok(Some(t)) => {
                toks.push(t);
            },
            Ok(None) => {
                return Ok(toks);
            },
            Err(e) => {
                return Err(e);
            },
        }
        if fuel == 0 {
            return Err(StreamError::Malformed(0));
        }
        fuel -= 1;
    }
}

} // verus!
