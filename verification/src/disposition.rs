//! The policy for what happens to matched delimiter bytes.

use vstd::prelude::*;

verus! {

/// How the engine treats the delimiter bytes of a fence match relative to
/// the chunk boundary the match creates.
#[derive(Clone, Copy, PartialEq, Eq, Structural, Debug)]
pub enum MatchDisposition {
    /// The delimiter bytes are discarded; they are part of no chunk.
    Drop,
    /// The delimiter bytes end the chunk that precedes them.
    Append,
    /// The delimiter bytes are retained to prefix the next chunk.
    Prepend,
}

impl Default for MatchDisposition {
    fn default() -> (r: Self)
        ensures
            r == MatchDisposition::Drop,
    {
        MatchDisposition::Drop
    }
}

} // verus!
