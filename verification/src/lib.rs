//! Incremental segmentation of a byte stream into chunks, where the chunk
//! boundaries are occurrences of a compiled pattern (the "fence") rather
//! than a fixed delimiter byte.
//!
//! The heart of the crate is the [`decoder::ByteDecoder`]: a small state
//! machine that owns a compiled fence and a scan cursor, and cuts chunks
//! off the front of an externally owned byte buffer.  What happens to the
//! matched delimiter bytes is governed by a [`disposition::MatchDisposition`]
//! policy.  The drivers in [`chunk`] replay an in-memory input through the
//! engine; asynchronous sources are wired up outside the library around the
//! same decoder.

pub mod adapter;
pub mod chunk;
pub mod decoder;
pub mod disposition;
pub mod err;
pub mod fence;
pub mod laws;
pub mod model;
