//! Pull-style drivers: replay an in-memory input through the decoding
//! engine and collect every chunk it produces.
//!
//! A pattern that can match the empty string at the scan cursor cuts an
//! empty chunk without consuming anything, and a chunker around it would
//! repeat that cut forever.  The spec-level [`run`] marks such a run as
//! not `complete`; the drivers here stop draining at that point instead
//! of looping, and their contracts say exactly what has been produced
//! either way.

use vstd::prelude::*;
use crate::decoder::ByteDecoder;
use crate::disposition::MatchDisposition;
use crate::err::RcErr;
use crate::fence::{fence_find, pattern_ok};
use crate::model::{
    cut_chunk, cut_offset, cut_rest, eof_flush, find_ok, progresses, resume, run, run_pushes,
    views_of,
};

verus! {

/// Copy a byte slice into a fresh buffer.
fn copy_bytes(src: &[u8]) -> (r: Vec<u8>)
    ensures
        r@ == src@,
{
    let mut out: Vec<u8> = Vec::new();
    let mut i: usize = 0;
    while i < src.len()
        invariant
            i <= src@.len(),
            out@ == src@.subrange(0, i as int),
        decreases src@.len() - i,
    {
        out.push(src[i]);
        i = i + 1;
        proof {
            assert(out@ =~= src@.subrange(0, i as int));
        }
    }
    proof {
        assert(out@ =~= src@);
    }
    out
}

/// Append the bytes of `more` to `buf`.
fn push_bytes(buf: &mut Vec<u8>, more: &Vec<u8>)
    ensures
        final(buf)@ == old(buf)@ + more@,
{
    let mut i: usize = 0;
    proof {
        assert(buf@ =~= old(buf)@ + more@.subrange(0, 0));
    }
    while i < more.len()
        invariant
            i <= more@.len(),
            buf@ == old(buf)@ + more@.subrange(0, i as int),
        decreases more@.len() - i,
    {
        let b = more[i];
        buf.push(b);
        i = i + 1;
        proof {
            assert(buf@ =~= old(buf)@ + more@.subrange(0, i as int));
        }
    }
    proof {
        assert(buf@ =~= old(buf)@ + more@);
    }
}

/// Drain the engine on `buf`: cut chunks until no further match exists,
/// or until a cut stops making progress.  Returns whether the drain ran
/// to quiescence; either way the state and output correspond exactly to
/// the spec-level [`run`] from the entry state.
fn drain(dec: &mut ByteDecoder, buf: &mut Vec<u8>, chunks: &mut Vec<Vec<u8>>) -> (ok: bool)
    requires
        0 <= old(dec).offset() <= old(buf)@.len(),
    ensures
        final(dec).pattern() == old(dec).pattern(),
        final(dec).disposition() == old(dec).disposition(),
        0 <= final(dec).offset() <= final(buf)@.len(),
        ({
            let r0 = run(old(dec).pattern(), old(dec).disposition(), old(buf)@, old(dec).offset());
            &&& ok == r0.complete
            &&& views_of(final(chunks)@) == views_of(old(chunks)@) + r0.chunks
            &&& final(buf)@ == r0.buf
            &&& final(dec).offset() == r0.off
            &&& ok ==> fence_find(old(dec).pattern(), final(buf)@, final(dec).offset()) is None
        }),
{
    let ghost pat = old(dec).pattern();
    let ghost dispo = old(dec).disposition();
    let ghost buf_init = old(buf)@;
    let ghost off_init = old(dec).offset();
    let ghost chunks_init = old(chunks)@;
    let mut quiescent = false;
    loop
        invariant_except_break
            !quiescent,
        invariant
            dec.pattern() == pat,
            dec.disposition() == dispo,
            0 <= dec.offset() <= buf@.len(),
            ({
                let r0 = run(pat, dispo, buf_init, off_init);
                let here = run(pat, dispo, buf@, dec.offset());
                &&& r0.complete == here.complete
                &&& views_of(chunks_init) + r0.chunks == views_of(chunks@) + here.chunks
                &&& r0.buf == here.buf
                &&& r0.off == here.off
            }),
        ensures
            ({
                let here = run(pat, dispo, buf@, dec.offset());
                &&& here.chunks == Seq::<Seq<u8>>::empty()
                &&& here.buf == buf@
                &&& here.off == dec.offset()
                &&& quiescent == here.complete
                &&& quiescent ==> fence_find(pat, buf@, dec.offset()) is None
            }),
        decreases buf@.len(), buf@.len() - dec.offset(),
    {
        let ghost buf0 = buf@;
        let ghost off0 = dec.offset();
        let ghost chunks0 = chunks@;
        let len_before = buf.len();
        let off_before = dec.scan_offset();
        match dec.decode(buf) {
            None => {
                quiescent = true;
                break;
            },
            Some(c) => {
                if buf.len() == len_before && dec.scan_offset() == off_before {
                    // This cut changed nothing; the engine would repeat it
                    // forever.  Stop here; the run is not complete.
                    proof {
                        match fence_find(pat, buf0, off0) {
                            Some((s, e)) => {
                                assert(buf@ == cut_rest(dispo, buf0, s, e));
                                if dispo is Prepend {
                                    assert(buf0.len() - s == buf0.len());
                                    assert(s == 0);
                                    assert(off0 == 0);
                                    assert(dec.offset() == e - s);
                                    assert(e == 0);
                                } else {
                                    assert(buf0.len() - e == buf0.len());
                                    assert(e == 0);
                                    assert(s == 0);
                                    assert(off0 == 0);
                                }
                                assert(!progresses(dispo, off0, s, e));
                                assert(buf@ =~= buf0);
                                assert(dec.offset() == off0);
                                let here = run(pat, dispo, buf@, dec.offset());
                                assert(here == run(pat, dispo, buf0, off0));
                                assert(here.chunks =~= Seq::<Seq<u8>>::empty());
                                assert(here.buf == buf0);
                                assert(here.off == off0);
                                assert(!here.complete);
                            },
                            None => {
                                assert(false);
                            },
                        }
                    }
                    break;
                }
                chunks.push(c);
                proof {
                    match fence_find(pat, buf0, off0) {
                        Some((s, e)) => {
                            assert(off0 <= s <= e <= buf0.len());
                            assert(buf@ == cut_rest(dispo, buf0, s, e));
                            assert(dec.offset() == cut_offset(dispo, s, e));
                            if dispo is Prepend {
                                if s == 0 && e <= off0 {
                                    assert(off0 == 0 && e == 0);
                                    assert(buf@ =~= buf0);
                                    assert(false);
                                }
                            } else {
                                if e == 0 {
                                    assert(s == 0 && off0 == 0);
                                    assert(buf@ =~= buf0);
                                    assert(false);
                                }
                            }
                            assert(progresses(dispo, off0, s, e));
                            assert(find_ok(buf0.len() as int, off0, s, e));
                            let here0 = run(pat, dispo, buf0, off0);
                            let here1 = run(pat, dispo, buf@, dec.offset());
                            assert(here0.chunks == seq![cut_chunk(dispo, buf0, s, e)] + here1.chunks);
                            assert(here0.complete == here1.complete);
                            assert(here0.buf == here1.buf);
                            assert(here0.off == here1.off);
                            assert(c@ == cut_chunk(dispo, buf0, s, e));
                            assert(views_of(chunks@) =~= views_of(chunks0) + seq![c@]);
                            assert((views_of(chunks0) + seq![c@]) + here1.chunks =~= views_of(
                                chunks0,
                            ) + (seq![c@] + here1.chunks));
                        },
                        None => {
                            assert(false);
                        },
                    }
                }
            },
        }
    }
    quiescent
}

/// Cut every chunk out of one complete in-memory input, applying the
/// end-of-stream flush rule at the end: the trailing unterminated
/// content, if any, is the last chunk.  Succeeds exactly when the
/// pattern compiles.
pub fn chunk_all(pattern: &str, input: &[u8], dispo: MatchDisposition) -> (r: Result<
    Vec<Vec<u8>>,
    RcErr,
>)
    ensures
        r is Ok <==> pattern_ok(pattern@),
        r matches Err(e) ==> e is Regex,
        r matches Ok(chunks) ==> ({
            let rr = run(pattern@, dispo, input@, 0);
            views_of(chunks@) == if rr.complete {
                eof_flush(rr)
            } else {
                rr.chunks
            }
        }),
{
    let mut dec = match ByteDecoder::new(pattern) {
        Ok(d) => d,
        Err(e) => {
            return Err(e);
        },
    };
    dec.set_match(dispo);
    let mut buf = copy_bytes(input);
    let mut chunks: Vec<Vec<u8>> = Vec::new();
    let ok = drain(&mut dec, &mut buf, &mut chunks);
    proof {
        assert(views_of(Seq::<Vec<u8>>::empty()) =~= Seq::<Seq<u8>>::empty());
    }
    if !ok {
        return Ok(chunks);
    }
    let ghost rr = run(pattern@, dispo, input@, 0);
    proof {
        assert(Seq::<Seq<u8>>::empty() + rr.chunks =~= rr.chunks);
    }
    match dec.decode_eof(&mut buf) {
        Some(c) => {
            let ghost chunks0 = chunks@;
            chunks.push(c);
            proof {
                assert(views_of(chunks@) =~= views_of(chunks0).push(c@));
            }
        },
        None => {},
    }
    Ok(chunks)
}

/// Cut every chunk out of an input delivered as a sequence of separate
/// pushes, draining the engine to quiescence after each push exactly as a
/// chunker drains its decoder before asking the source for more bytes,
/// then applying the end-of-stream flush rule.  Succeeds exactly when the
/// pattern compiles.
pub fn chunk_pushes(pattern: &str, pushes: &Vec<Vec<u8>>, dispo: MatchDisposition) -> (r: Result<
    Vec<Vec<u8>>,
    RcErr,
>)
    ensures
        r is Ok <==> pattern_ok(pattern@),
        r matches Err(e) ==> e is Regex,
        r matches Ok(chunks) ==> ({
            let rp = resume(pattern@, dispo, Seq::<u8>::empty(), 0, views_of(pushes@));
            views_of(chunks@) == if rp.complete {
                eof_flush(rp)
            } else {
                rp.chunks
            }
        }),
{
    let ghost pat = pattern@;
    let ghost all = views_of(pushes@);
    let mut dec = match ByteDecoder::new(pattern) {
        Ok(d) => d,
        Err(e) => {
            return Err(e);
        },
    };
    dec.set_match(dispo);
    let mut buf: Vec<u8> = Vec::new();
    let mut chunks: Vec<Vec<u8>> = Vec::new();
    let ok0 = drain(&mut dec, &mut buf, &mut chunks);
    proof {
        assert(views_of(Seq::<Vec<u8>>::empty()) =~= Seq::<Seq<u8>>::empty());
        let first = run(pat, dispo, Seq::<u8>::empty(), 0);
        assert(Seq::<Seq<u8>>::empty() + first.chunks =~= first.chunks);
    }
    if !ok0 {
        return Ok(chunks);
    }
    let mut i: usize = 0;
    let mut stuck = false;
    proof {
        let first = run(pat, dispo, Seq::<u8>::empty(), 0);
        let rest = run_pushes(pat, dispo, first.buf, first.off, all);
        assert(first.chunks + rest.chunks =~= views_of(chunks@) + rest.chunks);
        assert(all.skip(0) =~= all);
    }
    while i < pushes.len()
        invariant_except_break
            !stuck,
            fence_find(pat, buf@, dec.offset()) is None,
            i <= pushes@.len(),
            ({
                let rp = resume(pat, dispo, Seq::<u8>::empty(), 0, all);
                let fut = run_pushes(pat, dispo, buf@, dec.offset(), all.skip(i as int));
                &&& rp.complete == fut.complete
                &&& rp.chunks == views_of(chunks@) + fut.chunks
                &&& rp.buf == fut.buf
                &&& rp.off == fut.off
            }),
        invariant
            dec.pattern() == pat,
            dec.disposition() == dispo,
            0 <= dec.offset() <= buf@.len(),
            all == views_of(pushes@),
        ensures
            ({
                let rp = resume(pat, dispo, Seq::<u8>::empty(), 0, all);
                if stuck {
                    &&& !rp.complete
                    &&& rp.chunks == views_of(chunks@)
                } else {
                    let fut = run_pushes(pat, dispo, buf@, dec.offset(), all.skip(i as int));
                    &&& i == pushes@.len()
                    &&& rp.complete == fut.complete
                    &&& rp.chunks == views_of(chunks@) + fut.chunks
                    &&& rp.buf == fut.buf
                    &&& rp.off == fut.off
                    &&& fence_find(pat, buf@, dec.offset()) is None
                }
            }),
        decreases pushes@.len() - i,
    {
        let ghost buf_before = buf@;
        let ghost off_before = dec.offset();
        let ghost chunks_before = chunks@;
        let ghost rem = all.skip(i as int);
        push_bytes(&mut buf, &pushes[i]);
        proof {
            assert(rem[0] == all[i as int]);
            assert(buf@ == buf_before + rem[0]);
        }
        let ok = drain(&mut dec, &mut buf, &mut chunks);
        proof {
            let r1 = run(pat, dispo, buf_before + rem[0], off_before);
            let fut_here = run_pushes(pat, dispo, buf_before, off_before, rem);
            assert(fut_here.chunks == r1.chunks + run_pushes(
                pat,
                dispo,
                r1.buf,
                r1.off,
                rem.drop_first(),
            ).chunks || !r1.complete);
            assert(rem.drop_first() =~= all.skip(i as int + 1));
        }
        if !ok {
            stuck = true;
            proof {
                let rp = resume(pat, dispo, Seq::<u8>::empty(), 0, all);
                let r1 = run(pat, dispo, buf_before + rem[0], off_before);
                let fut_here = run_pushes(pat, dispo, buf_before, off_before, rem);
                assert(fut_here == r1);
                assert(rp.chunks =~= views_of(chunks@));
            }
            break;
        }
        i = i + 1;
        proof {
            let rp = resume(pat, dispo, Seq::<u8>::empty(), 0, all);
            let r1 = run(pat, dispo, buf_before + rem[0], off_before);
            let fut_here = run_pushes(pat, dispo, buf_before, off_before, rem);
            let fut_next = run_pushes(pat, dispo, buf@, dec.offset(), all.skip(i as int));
            assert(fut_here.chunks == r1.chunks + fut_next.chunks);
            assert((views_of(chunks_before) + r1.chunks) + fut_next.chunks =~= views_of(
                chunks_before,
            ) + (r1.chunks + fut_next.chunks));
            assert(views_of(chunks@) + fut_next.chunks =~= views_of(chunks_before) + fut_here.chunks);
        }
    }
    if stuck {
        return Ok(chunks);
    }
    let ghost rp = resume(pat, dispo, Seq::<u8>::empty(), 0, all);
    proof {
        assert(all.skip(pushes@.len() as int) =~= Seq::<Seq<u8>>::empty());
        let fut = run_pushes(pat, dispo, buf@, dec.offset(), all.skip(pushes@.len() as int));
        assert(fut == run(pat, dispo, buf@, dec.offset()));
        assert(fut.chunks == Seq::<Seq<u8>>::empty());
        assert(views_of(chunks@) + fut.chunks =~= views_of(chunks@));
        assert(rp.complete && rp.chunks == views_of(chunks@) && rp.buf == buf@ && rp.off == dec.offset());
    }
    match dec.decode_eof(&mut buf) {
        Some(c) => {
            let ghost chunks0 = chunks@;
            chunks.push(c);
            proof {
                assert(views_of(chunks@) =~= views_of(chunks0).push(c@));
            }
        },
        None => {},
    }
    Ok(chunks)
}

} // verus!
