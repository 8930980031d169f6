use crate::GhostError;
use vstd::prelude::*;

verus! {

/// The zstd block compression of a byte sequence at level 3, as
/// zstd::bulk::compress computes it: a pure function of the input bytes for
/// the level and library built here.
pub uninterp spec fn zstd_compress_of(s: Seq<u8>) -> Seq<u8>;

/// What zstd::bulk::decompress returns for a compressed block and a capacity:
/// `Some` of the decompressed bytes when the input is a well-formed block
/// whose content fits in `cap` bytes, `None` when the call fails.
pub uninterp spec fn zstd_decompress_of(s: Seq<u8>, cap: nat) -> Option<Seq<u8>>;

/// Relies on zstd::bulk::compress at level 3: block compression is a pure
/// function of the input bytes, and zstd::bulk::decompress returns the
/// original input from its output whenever the capacity admits it (zstd's
/// documented lossless round trip).
#[verifier::external_body]
pub fn zstd_compress(data: &[u8]) -> (r: Result<Vec<u8>, GhostError>)
    ensures
        r matches Ok(c) ==> c@ == zstd_compress_of(data@),
        r matches Ok(c) ==> forall|cap: nat|
            data@.len() <= cap ==> zstd_decompress_of(c@, cap) == Some(data@),
{
    match zstd::bulk::compress(data, 3) {
        Ok(v) => Ok(v),
        Err(_) => Err(GhostError::IOError),
    }
}

/// Relies on zstd::bulk::decompress: deterministic in its two arguments; on
/// success the result holds at most `capacity` bytes.
#[verifier::external_body]
pub fn zstd_decompress(data: &[u8], capacity: usize) -> (r: Result<Vec<u8>, GhostError>)
    ensures
        r matches Ok(d) ==> zstd_decompress_of(data@, capacity as nat) == Some(d@)
            && d@.len() <= capacity,
        r matches Err(e) ==> zstd_decompress_of(data@, capacity as nat) is None
            && e == GhostError::MalformedFrame,
{
    match zstd::bulk::decompress(data, capacity) {
        Ok(v) => Ok(v),
        Err(_) => Err(GhostError::MalformedFrame),
    }
}

} // verus!
