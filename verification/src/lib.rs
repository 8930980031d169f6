//! An append-only, indexed container of captured request/response frames,
//! with a verified writer, reader, fork operation and replay cache. Each
//! frame is keyed by the SHA-256 digest of its raw request body, so a
//! byte-identical request replays to the identical captured response.

pub mod compress;
pub mod config;
pub mod container;
pub mod digest;
pub mod fork;
pub mod frame;
pub mod laws;
pub mod msgpack;
pub mod numfmt;
pub mod reader;
pub mod record;
pub mod replay;
pub mod wire;
pub mod writer;

use vstd::prelude::*;

verus! {

/// Failures surfaced by the container format and its codecs.
#[derive(Clone, Copy, Debug, PartialEq, Eq, Structural)]
pub enum GhostError {
    /// The first eight bytes of a container are not the magic literal.
    BadMagic,
    /// The container's version field differs from the current format version.
    UnsupportedVersion,
    /// The container's header, footer or index is inconsistent.
    Malformed,
    /// A frame index or fork step beyond the last frame.
    OutOfRange,
    /// A frame blob whose decompression or decoding failed.
    MalformedFrame,
    /// A failure of the underlying sink; compression failures surface here too.
    IOError,
}

} // verus!
