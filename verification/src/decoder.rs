//! The incremental decoding engine.

use vstd::prelude::*;
use crate::disposition::MatchDisposition;
use crate::err::RcErr;
use crate::fence::{Fence, fence_find, pattern_ok};
use crate::model::{cut_chunk, cut_offset, cut_rest};

verus! {

/// The byte content of an optional chunk.
pub open spec fn opt_bytes(r: Option<Vec<u8>>) -> Option<Seq<u8>> {
    match r {
        Some(c) => Some(c@),
        None => None,
    }
}

/// What one call of [`ByteDecoder::decode`] does: when no match exists at
/// or after the cursor it changes nothing and reports `None`; when the
/// leftmost match lies at `[s, e)` it cuts one chunk off the buffer head
/// and moves the cursor, both as the disposition directs.
pub open spec fn decode_post(
    pat: Seq<char>,
    dispo: MatchDisposition,
    buf0: Seq<u8>,
    off0: int,
    buf1: Seq<u8>,
    off1: int,
    r: Option<Seq<u8>>,
) -> bool {
    match fence_find(pat, buf0, off0) {
        None => {
            &&& r is None
            &&& buf1 == buf0
            &&& off1 == off0
        },
        Some((s, e)) => {
            &&& off0 <= s <= e <= buf0.len()
            &&& r == Some(cut_chunk(dispo, buf0, s, e))
            &&& buf1 == cut_rest(dispo, buf0, s, e)
            &&& off1 == cut_offset(dispo, s, e)
        },
    }
}

/// What one call of [`ByteDecoder::decode_eof`] does, once the source is
/// exhausted: a normal cut if one is still possible; otherwise nothing if
/// the buffer is empty; otherwise the whole remaining buffer as one final,
/// un-delimited chunk, with the cursor returned to the head.
pub open spec fn decode_eof_post(
    pat: Seq<char>,
    dispo: MatchDisposition,
    buf0: Seq<u8>,
    off0: int,
    buf1: Seq<u8>,
    off1: int,
    r: Option<Seq<u8>>,
) -> bool {
    if fence_find(pat, buf0, off0) is Some {
        decode_post(pat, dispo, buf0, off0, buf1, off1, r)
    } else if buf0.len() == 0 {
        r is None && buf1 == buf0 && off1 == off0
    } else {
        r == Some(buf0) && buf1 == Seq::<u8>::empty() && off1 == 0
    }
}

/// Remove and return the first `n` bytes of `v`.
fn take_prefix(v: &mut Vec<u8>, n: usize) -> (r: Vec<u8>)
    requires
        n <= old(v)@.len(),
    ensures
        r@ == old(v)@.subrange(0, n as int),
        final(v)@ == old(v)@.subrange(n as int, old(v)@.len() as int),
{
    let mut tail = v.split_off(n);
    core::mem::swap(v, &mut tail);
    tail
}

/// Remove the first `n` bytes of `v`.
fn discard_prefix(v: &mut Vec<u8>, n: usize)
    requires
        n <= old(v)@.len(),
    ensures
        final(v)@ == old(v)@.subrange(n as int, old(v)@.len() as int),
{
    let tail = v.split_off(n);
    *v = tail;
}

/// The decoding engine: a compiled fence, the disposition of matched
/// delimiter bytes, and the scan cursor marking where the next match
/// search may begin in the caller's buffer.
pub struct ByteDecoder {
    fence: Fence,
    match_dispo: MatchDisposition,
    scan_offset: usize,
}

impl ByteDecoder {
    /// The pattern text the fence was compiled from.
    pub closed spec fn pattern(&self) -> Seq<char> {
        self.fence.pattern()
    }

    /// The current disposition of matched delimiter bytes.
    pub closed spec fn disposition(&self) -> MatchDisposition {
        self.match_dispo
    }

    /// The current scan cursor.
    pub closed spec fn offset(&self) -> int {
        self.scan_offset as int
    }

    /// The current scan cursor, for callers outside the library that must
    /// check it against their own buffer before decoding.
    pub fn scan_offset(&self) -> (r: usize)
        ensures
            r as int == self.offset(),
    {
        self.scan_offset
    }

    /// Build an engine over a freshly compiled fence.  Succeeds exactly
    /// when the pattern compiles; the disposition starts at its default
    /// and the cursor at the buffer head.
    pub fn new(pattern: &str) -> (r: Result<ByteDecoder, RcErr>)
        ensures
            r is Ok <==> pattern_ok(pattern@),
            r matches Ok(d) ==> {
                &&& d.pattern() == pattern@
                &&& d.disposition() == MatchDisposition::Drop
                &&& d.offset() == 0
            },
            r matches Err(e) ==> e is Regex,
    {
        match Fence::new(pattern) {
            Ok(fence) => Ok(ByteDecoder {
                fence,
                match_dispo: MatchDisposition::default(),
                scan_offset: 0,
            }),
            Err(e) => Err(e),
        }
    }

    /// Change the disposition.  `Drop` and `Append` physically remove the
    /// matched bytes, so rescanning from the head is safe and the cursor
    /// is reset; switching into `Prepend` leaves the cursor alone.  Meant
    /// to be called before the first chunk is requested.
    pub fn set_match(&mut self, behavior: MatchDisposition)
        ensures
            final(self).pattern() == old(self).pattern(),
            final(self).disposition() == behavior,
            final(self).offset() == if behavior is Prepend { old(self).offset() } else { 0 },
    {
        self.match_dispo = behavior;
        if !matches!(behavior, MatchDisposition::Prepend) {
            self.scan_offset = 0;
        }
    }

    /// Builder-style form of [`ByteDecoder::set_match`].
    pub fn with_match(self, behavior: MatchDisposition) -> (r: Self)
        ensures
            r.pattern() == self.pattern(),
            r.disposition() == behavior,
            r.offset() == if behavior is Prepend { self.offset() } else { 0 },
    {
        let mut d = self;
        d.set_match(behavior);
        d
    }

    /// One decode attempt on the caller's buffer: cut the chunk up to the
    /// leftmost fence match, or report that more input is needed, leaving
    /// the buffer untouched.
    pub fn decode(&mut self, src: &mut Vec<u8>) -> (r: Option<Vec<u8>>)
        requires
            0 <= old(self).offset() <= old(src)@.len(),
        ensures
            final(self).pattern() == old(self).pattern(),
            final(self).disposition() == old(self).disposition(),
            0 <= final(self).offset() <= final(src)@.len(),
            decode_post(
                old(self).pattern(),
                old(self).disposition(),
                old(src)@,
                old(self).offset(),
                final(src)@,
                final(self).offset(),
                opt_bytes(r),
            ),
    {
        let found = self.fence.find_at(src.as_slice(), self.scan_offset);
        match found {
            None => None,
            Some((s, e)) => {
                let ghost buf0 = src@;
                match self.match_dispo {
                    MatchDisposition::Drop => {
                        let chunk = take_prefix(src, s);
                        discard_prefix(src, e - s);
                        self.scan_offset = 0;
                        proof {
                            assert(src@ =~= buf0.subrange(e as int, buf0.len() as int));
                        }
                        Some(chunk)
                    },
                    MatchDisposition::Append => {
                        let chunk = take_prefix(src, e);
                        self.scan_offset = 0;
                        Some(chunk)
                    },
                    MatchDisposition::Prepend => {
                        let chunk = take_prefix(src, s);
                        self.scan_offset = e - s;
                        Some(chunk)
                    },
                }
            },
        }
    }

    /// The end-of-input flush: a last normal cut if one is possible; else
    /// nothing when the buffer is empty; else the whole remainder as one
    /// final chunk, so that trailing unterminated content is never lost.
    pub fn decode_eof(&mut self, src: &mut Vec<u8>) -> (r: Option<Vec<u8>>)
        requires
            0 <= old(self).offset() <= old(src)@.len(),
        ensures
            final(self).pattern() == old(self).pattern(),
            final(self).disposition() == old(self).disposition(),
            0 <= final(self).offset() <= final(src)@.len(),
            decode_eof_post(
                old(self).pattern(),
                old(self).disposition(),
                old(src)@,
                old(self).offset(),
                final(src)@,
                final(self).offset(),
                opt_bytes(r),
            ),
    {
        match self.decode(src) {
            Some(chunk) => Some(chunk),
            None => {
                if src.len() == 0 {
                    None
                } else {
                    self.scan_offset = 0;
                    let whole = take_prefix(src, src.len());
                    proof {
                        assert(src@ =~= Seq::<u8>::empty());
                        assert(whole@ =~= old(src)@);
                    }
                    Some(whole)
                }
            },
        }
    }
}

} // verus!
