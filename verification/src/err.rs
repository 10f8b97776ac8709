//! The unified error type of the crate.

use vstd::prelude::*;

verus! {

/// `regex::Error` is the error reported when a fence pattern fails to
/// compile; the library only carries it through.
#[verifier::external_type_specification]
#[verifier::external_body]
pub struct ExRegexError(regex::Error);

/// `std::io::Error` is what a byte source reports; the library only
/// carries it through.
#[verifier::external_type_specification]
#[verifier::external_body]
pub struct ExIoError(std::io::Error);

/// `std::string::FromUtf8Error` is reported when a chunk is not valid
/// UTF-8; the library only carries it through.
#[verifier::external_type_specification]
#[verifier::external_body]
pub struct ExFromUtf8Error(std::string::FromUtf8Error);

/// Everything that can go wrong while chunking a byte stream.
#[derive(Debug)]
pub enum RcErr {
    /// The fence pattern failed to compile.
    Regex(regex::Error),
    /// The underlying byte source reported an error.
    Read(std::io::Error),
    /// A chunk that was expected to be text is not valid UTF-8.
    Utf8(std::string::FromUtf8Error),
}

impl From<std::io::Error> for RcErr {
    fn from(e: std::io::Error) -> (r: RcErr) {
        RcErr::Read(e)
    }
}

impl vstd::std_specs::convert::FromSpecImpl<std::io::Error> for RcErr {
    open spec fn obeys_from_spec() -> bool {
        true
    }

    open spec fn from_spec(e: std::io::Error) -> RcErr {
        RcErr::Read(e)
    }
}

} // verus!
