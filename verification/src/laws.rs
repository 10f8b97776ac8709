//! The laws of the engine: what a whole run guarantees about its chunks,
//! and the independence of chunk boundaries from delivery granularity.

use vstd::prelude::*;
use crate::disposition::MatchDisposition;
use crate::fence::fence_find;
use crate::model::{
    chunks_of, cut_chunk, cut_offset, cut_rest, eof_flush, find_ok, progresses, resume, run,
    run_pushes,
};

verus! {

/// The chunks interleaved with the separators again: chunk, separator,
/// chunk, separator, ...
pub open spec fn weave(chunks: Seq<Seq<u8>>, seps: Seq<Seq<u8>>) -> Seq<u8>
    decreases chunks.len(),
{
    if chunks.len() == 0 {
        Seq::empty()
    } else if seps.len() == 0 {
        chunks[0] + weave(chunks.drop_first(), seps)
    } else {
        chunks[0] + seps[0] + weave(chunks.drop_first(), seps.drop_first())
    }
}

/// `m` stands at the front of `c`.
pub open spec fn has_prefix(c: Seq<u8>, m: Seq<u8>) -> bool {
    m.len() <= c.len() && c.subrange(0, m.len() as int) == m
}

/// `m` stands at the end of `c`.
pub open spec fn has_suffix(c: Seq<u8>, m: Seq<u8>) -> bool {
    m.len() <= c.len() && c.subrange(c.len() - m.len(), c.len() as int) == m
}

/// Under `Drop`, nothing is lost and nothing is invented: the buffer is
/// exactly the emitted chunks interleaved with the matched separators,
/// followed by the unconsumed remainder.  Since the remainder is flushed
/// as the final chunk at end of stream, concatenating all emitted chunks
/// reproduces exactly the non-matching residue of the input.
pub proof fn lemma_drop_reassembly(pat: Seq<char>, buf: Seq<u8>, off: int)
    ensures
        ({
            let r = run(pat, MatchDisposition::Drop, buf, off);
            &&& r.chunks.len() == r.seps.len()
            &&& buf == weave(r.chunks, r.seps) + r.buf
        }),
    decreases buf.len(), buf.len() - off,
{
    let dispo = MatchDisposition::Drop;
    let r = run(pat, dispo, buf, off);
    match fence_find(pat, buf, off) {
        None => {
            assert(weave(r.chunks, r.seps) + r.buf =~= buf);
        },
        Some((s, e)) => {
            if find_ok(buf.len() as int, off, s, e) && progresses(dispo, off, s, e) {
                let b2 = cut_rest(dispo, buf, s, e);
                let o2 = cut_offset(dispo, s, e);
                lemma_drop_reassembly(pat, b2, o2);
                let r2 = run(pat, dispo, b2, o2);
                assert(r.chunks.drop_first() =~= r2.chunks);
                assert(r.seps.drop_first() =~= r2.seps);
                assert(weave(r.chunks, r.seps) == r.chunks[0] + r.seps[0] + weave(
                    r2.chunks,
                    r2.seps,
                ));
                assert(buf =~= buf.subrange(0, s) + buf.subrange(s, e) + buf.subrange(
                    e,
                    buf.len() as int,
                ));
                assert(weave(r.chunks, r.seps) + r.buf =~= buf);
            } else {
                assert(weave(r.chunks, r.seps) + r.buf =~= buf);
            }
        },
    }
}

/// Under `Append`, the buffer is exactly the concatenation of the emitted
/// chunks followed by the unconsumed remainder, and every emitted chunk
/// ends exactly with the fence match that cut it.
pub proof fn lemma_append_chunks(pat: Seq<char>, buf: Seq<u8>, off: int)
    ensures
        ({
            let r = run(pat, MatchDisposition::Append, buf, off);
            &&& r.chunks.len() == r.seps.len()
            &&& buf == r.chunks.flatten() + r.buf
            &&& forall|i: int|
                0 <= i < r.chunks.len() ==> has_suffix(#[trigger] r.chunks[i], r.seps[i])
        }),
    decreases buf.len(), buf.len() - off,
{
    let dispo = MatchDisposition::Append;
    let r = run(pat, dispo, buf, off);
    match fence_find(pat, buf, off) {
        None => {
            assert(r.chunks.flatten() + r.buf =~= buf);
        },
        Some((s, e)) => {
            if find_ok(buf.len() as int, off, s, e) && progresses(dispo, off, s, e) {
                let b2 = cut_rest(dispo, buf, s, e);
                let o2 = cut_offset(dispo, s, e);
                lemma_append_chunks(pat, b2, o2);
                let r2 = run(pat, dispo, b2, o2);
                assert(r.chunks.drop_first() =~= r2.chunks);
                assert(r.seps.drop_first() =~= r2.seps);
                assert(r.chunks.first() == cut_chunk(dispo, buf, s, e));
                assert(r.chunks.flatten() == r.chunks.first() + r.chunks.drop_first().flatten());
                assert(buf =~= buf.subrange(0, e) + buf.subrange(e, buf.len() as int));
                assert(r.chunks.flatten() + r.buf =~= buf);
                assert forall|i: int| 0 <= i < r.chunks.len() implies has_suffix(
                    #[trigger] r.chunks[i],
                    r.seps[i],
                ) by {
                    if i == 0 {
                        assert(r.chunks[0] == buf.subrange(0, e));
                        assert(r.seps[0] == buf.subrange(s, e));
                        assert(buf.subrange(0, e).subrange(e - (e - s), e) =~= buf.subrange(s, e));
                    } else {
                        assert(r.chunks[i] == r2.chunks[i - 1]);
                        assert(r.seps[i] == r2.seps[i - 1]);
                        assert(has_suffix(r2.chunks[i - 1], r2.seps[i - 1]));
                    }
                }
            } else {
                assert(r.chunks.flatten() + r.buf =~= buf);
            }
        },
    }
}

/// Under `Prepend`, the buffer is exactly the concatenation of the
/// emitted chunks followed by the unconsumed remainder; every chunk after
/// the first begins exactly with the fence match that ended the chunk
/// before it; and the first chunk begins with whatever match bytes the
/// scan cursor was guarding at entry — none, when the run starts at the
/// buffer head.
pub proof fn lemma_prepend_chunks(pat: Seq<char>, buf: Seq<u8>, off: int)
    requires
        0 <= off <= buf.len(),
    ensures
        ({
            let r = run(pat, MatchDisposition::Prepend, buf, off);
            &&& r.chunks.len() == r.seps.len()
            &&& buf == r.chunks.flatten() + r.buf
            &&& forall|i: int|
                1 <= i < r.chunks.len() ==> has_prefix(#[trigger] r.chunks[i], r.seps[i - 1])
            &&& r.chunks.len() > 0 ==> has_prefix(r.chunks[0], buf.subrange(0, off))
            &&& r.chunks.len() > 0 ==> (fence_find(pat, buf, off) matches Some((s, e))
                && r.chunks[0] == buf.subrange(0, s))
            &&& r.chunks.len() == 0 ==> r.buf == buf
        }),
    decreases buf.len(), buf.len() - off,
{
    let dispo = MatchDisposition::Prepend;
    let r = run(pat, dispo, buf, off);
    match fence_find(pat, buf, off) {
        None => {
            assert(r.chunks.flatten() + r.buf =~= buf);
        },
        Some((s, e)) => {
            if find_ok(buf.len() as int, off, s, e) && progresses(dispo, off, s, e) {
                let b2 = cut_rest(dispo, buf, s, e);
                let o2 = cut_offset(dispo, s, e);
                lemma_prepend_chunks(pat, b2, o2);
                let r2 = run(pat, dispo, b2, o2);
                assert(r.chunks.drop_first() =~= r2.chunks);
                assert(r.seps.drop_first() =~= r2.seps);
                assert(r.chunks.first() == buf.subrange(0, s));
                assert(r.chunks.flatten() == r.chunks.first() + r.chunks.drop_first().flatten());
                assert(buf =~= buf.subrange(0, s) + buf.subrange(s, buf.len() as int));
                assert(r.chunks.flatten() + r.buf =~= buf);
                // The retained match stands at the head of the next buffer.
                assert(b2.subrange(0, o2) =~= buf.subrange(s, e));
                assert forall|i: int| 1 <= i < r.chunks.len() implies has_prefix(
                    #[trigger] r.chunks[i],
                    r.seps[i - 1],
                ) by {
                    if i == 1 {
                        assert(r2.chunks.len() > 0);
                        assert(has_prefix(r2.chunks[0], b2.subrange(0, o2)));
                        assert(r.chunks[1] == r2.chunks[0]);
                        assert(r.seps[0] == buf.subrange(s, e));
                    } else {
                        assert(r.chunks[i] == r2.chunks[i - 1]);
                        assert(r.seps[i - 1] == r2.seps[i - 2]);
                        assert(has_prefix(r2.chunks[i - 1], r2.seps[i - 2]));
                    }
                }
                assert(has_prefix(r.chunks[0], buf.subrange(0, off))) by {
                    assert(r.chunks[0] == buf.subrange(0, s));
                    assert(buf.subrange(0, s).subrange(0, off) =~= buf.subrange(0, off));
                }
            } else {
                assert(r.chunks.flatten() + r.buf =~= buf);
            }
        },
    }
}

/// A matcher is stable under extension when a match it reports does not
/// move, shrink or grow once more bytes arrive after the haystack.  A
/// single-byte delimiter class is stable; a pattern that matches a run of
/// delimiters is not, since a match ending at the buffer tail can grow
/// when the next push begins with another delimiter byte.
pub open spec fn extension_stable(pat: Seq<char>) -> bool {
    forall|hay: Seq<u8>, ext: Seq<u8>, off: int|
        fence_find(pat, hay, off) is Some ==> #[trigger] fence_find(pat, hay + ext, off)
            == fence_find(pat, hay, off)
}

/// A run that completed stopped because no further match exists.
proof fn lemma_run_complete_find_none(pat: Seq<char>, dispo: MatchDisposition, buf: Seq<u8>, off: int)
    requires
        run(pat, dispo, buf, off).complete,
    ensures
        fence_find(pat, run(pat, dispo, buf, off).buf, run(pat, dispo, buf, off).off) is None,
    decreases buf.len(), buf.len() - off,
{
    match fence_find(pat, buf, off) {
        None => {},
        Some((s, e)) => {
            if find_ok(buf.len() as int, off, s, e) && progresses(dispo, off, s, e) {
                lemma_run_complete_find_none(
                    pat,
                    dispo,
                    cut_rest(dispo, buf, s, e),
                    cut_offset(dispo, s, e),
                );
            } else {
                assert(false);
            }
        },
    }
}

/// Extending the buffer of a completed run does not disturb the cuts the
/// run already made: the extended run makes exactly those cuts and then
/// continues on the remainder plus the extension.
proof fn lemma_run_extension(
    pat: Seq<char>,
    dispo: MatchDisposition,
    buf: Seq<u8>,
    off: int,
    ext: Seq<u8>,
)
    requires
        extension_stable(pat),
        run(pat, dispo, buf, off).complete,
    ensures
        ({
            let r1 = run(pat, dispo, buf, off);
            let r2 = run(pat, dispo, r1.buf + ext, r1.off);
            let r = run(pat, dispo, buf + ext, off);
            &&& r.chunks == r1.chunks + r2.chunks
            &&& r.seps == r1.seps + r2.seps
            &&& r.buf == r2.buf
            &&& r.off == r2.off
            &&& r.complete == r2.complete
        }),
    decreases buf.len(), buf.len() - off,
{
    let r1 = run(pat, dispo, buf, off);
    let r2 = run(pat, dispo, r1.buf + ext, r1.off);
    let r = run(pat, dispo, buf + ext, off);
    match fence_find(pat, buf, off) {
        None => {
            assert(r1.chunks + r2.chunks =~= r2.chunks);
            assert(r1.seps + r2.seps =~= r2.seps);
        },
        Some((s, e)) => {
            if find_ok(buf.len() as int, off, s, e) && progresses(dispo, off, s, e) {
                assert(fence_find(pat, buf + ext, off) == fence_find(pat, buf, off));
                assert(find_ok((buf + ext).len() as int, off, s, e));
                assert(cut_chunk(dispo, buf + ext, s, e) =~= cut_chunk(dispo, buf, s, e));
                assert((buf + ext).subrange(s, e) =~= buf.subrange(s, e));
                let b2 = cut_rest(dispo, buf, s, e);
                let o2 = cut_offset(dispo, s, e);
                assert(cut_rest(dispo, buf + ext, s, e) =~= b2 + ext);
                lemma_run_extension(pat, dispo, b2, o2, ext);
                let rA = run(pat, dispo, b2, o2);
                assert(r1.chunks =~= seq![cut_chunk(dispo, buf, s, e)] + rA.chunks);
                assert(rA.buf == r1.buf && rA.off == r1.off);
                assert(r.chunks =~= (seq![cut_chunk(dispo, buf, s, e)] + rA.chunks) + r2.chunks);
                assert(r.seps =~= (seq![buf.subrange(s, e)] + rA.seps) + r2.seps);
            } else {
                assert(false);
            }
        },
    }
}

/// Draining to quiescence after every push and concatenating the pushes
/// up front give the same cuts, when the matcher is stable and the run
/// never gets stuck.
proof fn lemma_run_pushes_concat(
    pat: Seq<char>,
    dispo: MatchDisposition,
    buf: Seq<u8>,
    off: int,
    pushes: Seq<Seq<u8>>,
)
    requires
        extension_stable(pat),
        fence_find(pat, buf, off) is None,
        run_pushes(pat, dispo, buf, off, pushes).complete,
    ensures
        run_pushes(pat, dispo, buf, off, pushes) == run(pat, dispo, buf + pushes.flatten(), off),
    decreases pushes.len(),
{
    let rp = run_pushes(pat, dispo, buf, off, pushes);
    if pushes.len() == 0 {
        assert(pushes.flatten() == Seq::<u8>::empty());
        assert(buf + pushes.flatten() =~= buf);
    } else {
        let p0 = pushes[0];
        let first = run(pat, dispo, buf + p0, off);
        assert(first.complete);
        lemma_run_complete_find_none(pat, dispo, buf + p0, off);
        let rest = run_pushes(pat, dispo, first.buf, first.off, pushes.drop_first());
        lemma_run_pushes_concat(pat, dispo, first.buf, first.off, pushes.drop_first());
        let rest_flat = pushes.drop_first().flatten();
        lemma_run_extension(pat, dispo, buf + p0, off, rest_flat);
        assert(pushes.flatten() == p0 + rest_flat);
        assert(buf + pushes.flatten() =~= (buf + p0) + rest_flat);
        let r = run(pat, dispo, buf + pushes.flatten(), off);
        assert(r.chunks == first.chunks + rest.chunks);
        assert(r.seps == first.seps + rest.seps);
        assert(rp =~= r);
    }
}

/// Chunk boundaries are independent of delivery granularity: delivering
/// the input as any sequence of pushes, draining the engine after each,
/// produces exactly the cuts of one run over the whole input — provided
/// the matcher is stable under extension and the run completes.  The
/// end-of-stream flush then also agrees, so the emitted chunk sequences
/// are identical.
pub proof fn lemma_granularity_independence(
    pat: Seq<char>,
    dispo: MatchDisposition,
    pushes: Seq<Seq<u8>>,
)
    ensures
        extension_stable(pat) ==> ({
            let rp = resume(pat, dispo, Seq::<u8>::empty(), 0, pushes);
            rp.complete ==> {
                &&& rp == run(pat, dispo, pushes.flatten(), 0)
                &&& eof_flush(rp) == chunks_of(pat, dispo, pushes.flatten())
            }
        }),
{
    if extension_stable(pat) {
        let rp = resume(pat, dispo, Seq::<u8>::empty(), 0, pushes);
        if rp.complete {
            let first = run(pat, dispo, Seq::<u8>::empty(), 0);
            assert(first.complete);
            lemma_run_complete_find_none(pat, dispo, Seq::<u8>::empty(), 0);
            let rest = run_pushes(pat, dispo, first.buf, first.off, pushes);
            assert(rest.complete);
            lemma_run_pushes_concat(pat, dispo, first.buf, first.off, pushes);
            lemma_run_extension(pat, dispo, Seq::<u8>::empty(), 0, pushes.flatten());
            assert(Seq::<u8>::empty() + pushes.flatten() =~= pushes.flatten());
            assert(rp =~= run(pat, dispo, pushes.flatten(), 0));
        }
    }
}

} // verus!
