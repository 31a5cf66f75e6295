//! The structural events of an XML token stream, and the errors and
//! diagnostics a transcode can produce.

use vstd::prelude::*;

verus! {

/// One structural event of the input stream. Tag names and text arrive as
/// plain strings; events the transcoder never reacts to (empty elements,
/// comments, declarations, processing instructions, CDATA, DOCTYPE) are
/// collapsed into `Other`.
#[derive(Debug, PartialEq, Eq)]
pub enum Token {
    Start(String),
    Text(String),
    End(String),
    Other,
}

/// A fatal structural failure: the whole transcode is abandoned.
///
/// `Truncated` is the stream ending in the middle of a row or of a pending
/// field; `Malformed` is a token-level failure of the underlying XML parse,
/// carrying the byte position it was reported at.
#[derive(Debug, Clone, Copy, PartialEq, Eq, Structural)]
pub enum StreamError {
    Truncated,
    Malformed(u64),
}

/// A recoverable field-conversion failure: the text of the named tag did not
/// parse as the expected type, the field took the type's default value, and
/// the transcode continued. `position` is the index of the field's start
/// token in the token stream.
#[derive(Debug, PartialEq, Eq)]
pub struct Diagnostic {
    pub tag: String,
    pub position: usize,
}

/// The mathematical content of a `Diagnostic`.
#[verifier::ext_equal]
pub struct DiagView {
    pub tag: Seq<char>,
    pub position: int,
}

impl View for Diagnostic {
    type V = DiagView;

    open spec fn view(&self) -> DiagView {
        DiagView { tag: self.tag@, position: self.position as int }
    }
}

impl DeepView for Diagnostic {
    type V = DiagView;

    open spec fn deep_view(&self) -> DiagView {
        self.view()
    }
}

} // verus!
