//! The mathematical model of the engine: what one cut does, and what a
//! whole run of the engine over a buffer produces.

use vstd::prelude::*;
use crate::disposition::MatchDisposition;
use crate::fence::fence_find;

verus! {

/// The chunk that a match at `[s, e)` cuts from the front of `buf`.
pub open spec fn cut_chunk(dispo: MatchDisposition, buf: Seq<u8>, s: int, e: int) -> Seq<u8> {
    match dispo {
        MatchDisposition::Drop => buf.subrange(0, s),
        MatchDisposition::Append => buf.subrange(0, e),
        MatchDisposition::Prepend => buf.subrange(0, s),
    }
}

/// What remains of `buf` after a match at `[s, e)` has been cut.
pub open spec fn cut_rest(dispo: MatchDisposition, buf: Seq<u8>, s: int, e: int) -> Seq<u8> {
    match dispo {
        MatchDisposition::Drop => buf.subrange(e, buf.len() as int),
        MatchDisposition::Append => buf.subrange(e, buf.len() as int),
        MatchDisposition::Prepend => buf.subrange(s, buf.len() as int),
    }
}

/// The scan cursor after a match at `[s, e)` has been cut: under `Prepend`
/// the match stays at the buffer head and must not be re-matched, so the
/// cursor advances past it; the other dispositions remove the match, and
/// the cursor returns to the head.
pub open spec fn cut_offset(dispo: MatchDisposition, s: int, e: int) -> int {
    match dispo {
        MatchDisposition::Drop => 0,
        MatchDisposition::Append => 0,
        MatchDisposition::Prepend => e - s,
    }
}

/// A match report that is in range for a buffer of length `len` and a scan
/// cursor at `off`.
pub open spec fn find_ok(len: int, off: int, s: int, e: int) -> bool {
    0 <= off <= s <= e <= len
}

/// Whether cutting at `[s, e)` changes the engine state at all.  A step
/// that does not is repeated verbatim forever by the engine.
pub open spec fn progresses(dispo: MatchDisposition, off: int, s: int, e: int) -> bool {
    match dispo {
        MatchDisposition::Drop => e > 0,
        MatchDisposition::Append => e > 0,
        MatchDisposition::Prepend => s > 0 || e > off,
    }
}

/// The byte content of a sequence of chunks.
pub open spec fn views_of(chunks: Seq<Vec<u8>>) -> Seq<Seq<u8>> {
    chunks.map_values(|c: Vec<u8>| c@)
}

/// Everything a run of the engine over one buffer produces: the chunks, in
/// order; the matched delimiter bytes of each cut, in order; the buffer and
/// cursor the run stops with; and whether it stopped because no further
/// match exists (`complete`) or because a cut stopped making progress.
#[verifier::ext_equal]
pub ghost struct RunResult {
    pub chunks: Seq<Seq<u8>>,
    pub seps: Seq<Seq<u8>>,
    pub buf: Seq<u8>,
    pub off: int,
    pub complete: bool,
}

/// Run the engine over `buf`, starting with the scan cursor at `off`,
/// until no further match exists or a cut stops making progress.
pub open spec fn run(pat: Seq<char>, dispo: MatchDisposition, buf: Seq<u8>, off: int) -> RunResult
    decreases buf.len(), buf.len() - off,
{
    match fence_find(pat, buf, off) {
        None => RunResult { chunks: Seq::empty(), seps: Seq::empty(), buf, off, complete: true },
        Some((s, e)) => {
            if find_ok(buf.len() as int, off, s, e) && progresses(dispo, off, s, e) {
                let rest = run(pat, dispo, cut_rest(dispo, buf, s, e), cut_offset(dispo, s, e));
                RunResult {
                    chunks: seq![cut_chunk(dispo, buf, s, e)] + rest.chunks,
                    seps: seq![buf.subrange(s, e)] + rest.seps,
                    buf: rest.buf,
                    off: rest.off,
                    complete: rest.complete,
                }
            } else {
                RunResult { chunks: Seq::empty(), seps: Seq::empty(), buf, off, complete: false }
            }
        },
    }
}

/// The end-of-stream flush rule applied to a finished run: a non-empty
/// remainder becomes one final, un-delimited chunk; an empty remainder
/// adds nothing.
pub open spec fn eof_flush(r: RunResult) -> Seq<Seq<u8>> {
    if r.buf.len() == 0 {
        r.chunks
    } else {
        r.chunks.push(r.buf)
    }
}

/// Every chunk an exhausted stream holding exactly `input` produces.
pub open spec fn chunks_of(pat: Seq<char>, dispo: MatchDisposition, input: Seq<u8>) -> Seq<Seq<u8>> {
    eof_flush(run(pat, dispo, input, 0))
}

/// Run the engine over input delivered as a sequence of separate pushes:
/// after each push the engine is drained until no further match exists,
/// exactly as a chunker drains its decoder before asking the source for
/// more bytes.
pub open spec fn run_pushes(
    pat: Seq<char>,
    dispo: MatchDisposition,
    buf: Seq<u8>,
    off: int,
    pushes: Seq<Seq<u8>>,
) -> RunResult
    decreases pushes.len(),
{
    if pushes.len() == 0 {
        run(pat, dispo, buf, off)
    } else {
        let first = run(pat, dispo, buf + pushes[0], off);
        if !first.complete {
            first
        } else {
            let rest = run_pushes(pat, dispo, first.buf, first.off, pushes.drop_first());
            RunResult {
                chunks: first.chunks + rest.chunks,
                seps: first.seps + rest.seps,
                buf: rest.buf,
                off: rest.off,
                complete: rest.complete,
            }
        }
    }
}

/// Drain the engine on the current buffer, then go on with the remaining
/// pushes.  This is the future of a chunker that stands mid-drain.
pub open spec fn resume(
    pat: Seq<char>,
    dispo: MatchDisposition,
    buf: Seq<u8>,
    off: int,
    pushes: Seq<Seq<u8>>,
) -> RunResult {
    let first = run(pat, dispo, buf, off);
    if !first.complete {
        first
    } else {
        let rest = run_pushes(pat, dispo, first.buf, first.off, pushes);
        RunResult {
            chunks: first.chunks + rest.chunks,
            seps: first.seps + rest.seps,
            buf: rest.buf,
            off: rest.off,
            complete: rest.complete,
        }
    }
}

} // verus!
