//! The fence: a compiled pattern over bytes, and the two facts the rest of
//! the library relies on about it.

use vstd::prelude::*;
use crate::err::RcErr;

verus! {

/// Whether `regex::bytes::Regex::new` accepts a pattern.  Compilation is a
/// pure function of the pattern text, so its outcome can be given a name.
pub uninterp spec fn pattern_ok(pat: Seq<char>) -> bool;

/// The answer `regex::bytes::Regex::find_at` gives for a pattern, a
/// haystack and a start offset: `Some((start, end))` of the leftmost match
/// beginning at or after the offset, or `None` when there is none.  The
/// answer is a pure function of these three values.
pub uninterp spec fn fence_find(pat: Seq<char>, hay: Seq<u8>, from: int) -> Option<(int, int)>;

/// `regex::bytes::Regex` is an opaque compiled matcher.
#[verifier::external_type_specification]
#[verifier::external_body]
pub struct ExRegex(regex::bytes::Regex);

/// A compiled fence, kept together with the pattern text it was compiled
/// from, so that contracts can speak of the pattern as a plain value.
pub struct Fence {
    re: regex::bytes::Regex,
    pat: String,
}

/// Relies on `regex::bytes::Regex::new`: whether a pattern compiles depends
/// on the pattern text alone, and the value stored in `pat` is exactly the
/// text the matcher was compiled from.
#[verifier::external_body]
fn compile(pattern: &str) -> (r: Result<Fence, regex::Error>)
    ensures
        r is Ok <==> pattern_ok(pattern@),
        r matches Ok(f) ==> f.pattern() == pattern@,
{
    match regex::bytes::Regex::new(pattern) {
        Ok(re) => Ok(Fence { re, pat: pattern.to_string() }),
        Err(e) => Err(e),
    }
}

impl Fence {
    /// The pattern text this fence was compiled from.
    pub closed spec fn pattern(&self) -> Seq<char> {
        self.pat@
    }

    /// Compile a pattern, or report exactly why it was rejected.
    pub fn new(pattern: &str) -> (r: Result<Fence, RcErr>)
        ensures
            r is Ok <==> pattern_ok(pattern@),
            r matches Ok(f) ==> f.pattern() == pattern@,
            r matches Err(e) ==> e is Regex,
    {
        match compile(pattern) {
            Ok(f) => Ok(f),
            Err(e) => Err(RcErr::Regex(e)),
        }
    }

    /// Relies on `regex::bytes::Regex::find_at`: it reports the leftmost
    /// match beginning at or after `from` as a half-open byte range within
    /// the haystack, it is deterministic in the pattern, the haystack and
    /// the offset, and it panics only when `from` exceeds the haystack
    /// length, which the precondition rules out.
    #[verifier::external_body]
    pub(crate) fn find_at(&self, hay: &[u8], from: usize) -> (r: Option<(usize, usize)>)
        requires
            from <= hay@.len(),
        ensures
            ({
                let f = fence_find(self.pattern(), hay@, from as int);
                match r {
                    None => f is None,
                    Some((s, e)) => {
                        &&& f == Some((s as int, e as int))
                        &&& from <= s <= e <= hay@.len()
                    },
                }
            }),
    {
        match self.re.find_at(hay, from) {
            Some(m) => Some((m.start(), m.end())),
            None => None,
        }
    }
}

} // verus!
