//! Adapter composition: transforming raw byte chunks into items of
//! another type without re-implementing the scanning logic.

use vstd::prelude::*;
use crate::err::RcErr;

verus! {

/// What `String::from_utf8` decodes a byte sequence to: the text, when
/// the bytes are valid UTF-8, or nothing.  The answer is a pure function
/// of the bytes alone.
pub uninterp spec fn utf8_decoded(bytes: Seq<u8>) -> Option<Seq<char>>;

/// Relies on `String::from_utf8`: it succeeds if and only if the bytes
/// are valid UTF-8, and the text it returns depends on the bytes alone.
#[verifier::external_body]
fn string_from_utf8(bytes: Vec<u8>) -> (r: Result<String, std::string::FromUtf8Error>)
    ensures
        r is Ok <==> utf8_decoded(bytes@) is Some,
        r matches Ok(s) ==> utf8_decoded(bytes@) == Some(s@),
{
    String::from_utf8(bytes)
}

/// Decode one chunk as UTF-8 text, or report exactly why it was refused.
/// Succeeds if and only if the bytes are valid UTF-8.
pub fn utf8_chunk(bytes: Vec<u8>) -> (r: Result<String, RcErr>)
    ensures
        r is Ok <==> utf8_decoded(bytes@) is Some,
        r matches Ok(s) ==> utf8_decoded(bytes@) == Some(s@),
        r matches Err(e) ==> e is Utf8,
{
    match string_from_utf8(bytes) {
        Ok(s) => Ok(s),
        Err(e) => Err(RcErr::Utf8(e)),
    }
}

/// A user-supplied transformation from a raw chunk result to an item of
/// the caller's choice.  Returning `None` skips the raw chunk: a chunker
/// composed around the adapter pulls the next raw chunk instead of
/// emitting a gap.
pub trait Adapter {
    /// What the composed chunker yields.
    type Item;

    /// Map one raw chunk result — a chunk, a propagated error, or the end
    /// of the stream — to the next item, or to nothing to skip it.
    fn adapt(&mut self, v: Option<Result<Vec<u8>, RcErr>>) -> Option<Self::Item>;
}

/// The adapter that turns raw byte chunks into owned strings, refusing
/// chunks that are not valid UTF-8.
pub struct StringAdapter;

impl Default for StringAdapter {
    fn default() -> (r: Self)
        ensures
            r == StringAdapter,
    {
        StringAdapter
    }
}

impl Adapter for StringAdapter {
    type Item = Result<String, RcErr>;

    fn adapt(&mut self, v: Option<Result<Vec<u8>, RcErr>>) -> Option<Result<String, RcErr>> {
        match v {
            None => None,
            Some(Ok(bytes)) => Some(utf8_chunk(bytes)),
            Some(Err(e)) => Some(Err(e)),
        }
    }
}

} // verus!
