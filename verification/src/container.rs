use crate::compress::{zstd_compress_of, zstd_decompress_of};
use crate::frame::{spec_frame_enc, FrameView};
use vstd::bytes::{spec_u32_to_le_bytes, spec_u64_to_le_bytes};
use vstd::prelude::*;

verus! {

// The container layout, bit-exact:
//
//   magic "GHSTLINE" (8) | version u32 LE | started_at u64 LE
//   | git_sha flag (1) [+ 20] | parent_run_id flag (1) [+ 32]
//   | fork_at_step flag (1) [+ u32 LE]
//   | frame blobs: [compressed_len u32 LE][zstd block] each
//   | index: [hash 32][offset u64 LE] per frame, in append order
//   | count u32 LE | index_start u64 LE
//
// Everything below is the specification of that layout; the writer produces
// exactly these bytes and the reader accepts exactly them.

/// Current format version.
pub const FORMAT_VERSION: u32 = 1;

/// Decompressed frames are capped at 10 MiB on read.
pub const MAX_FRAME_DECOMPRESSED: usize = 10 * 1024 * 1024;

/// The ASCII bytes of the magic literal "GHSTLINE".
pub open spec fn spec_magic() -> Seq<u8> {
    seq![0x47u8, 0x48u8, 0x53u8, 0x54u8, 0x4cu8, 0x49u8, 0x4eu8, 0x45u8]
}

/// The magic literal as a vector.
pub fn magic() -> (v: Vec<u8>)
    ensures
        v@ == spec_magic(),
{
    let mut v: Vec<u8> = Vec::new();
    v.push(0x47);
    v.push(0x48);
    v.push(0x53);
    v.push(0x54);
    v.push(0x4c);
    v.push(0x49);
    v.push(0x4e);
    v.push(0x45);
    proof {
        assert(v@ =~= spec_magic());
    }
    v
}

/// The mathematical content of a container header.
#[verifier::ext_equal]
pub ghost struct HeaderView {
    pub started_at: u64,
    pub git_sha: Option<Seq<u8>>,
    pub parent_run_id: Option<Seq<u8>>,
    pub fork_at_step: Option<u32>,
}

impl HeaderView {
    pub open spec fn wf(self) -> bool {
        &&& (self.git_sha matches Some(g) ==> g.len() == 20)
        &&& (self.parent_run_id matches Some(p) ==> p.len() == 32)
    }
}

/// The bytes a header occupies at the start of a container.
pub open spec fn spec_header_bytes(h: HeaderView) -> Seq<u8> {
    spec_magic() + spec_u32_to_le_bytes(FORMAT_VERSION) + spec_u64_to_le_bytes(h.started_at) + (
    match h.git_sha {
        Some(g) => seq![1u8] + g,
        None => seq![0u8],
    }) + (match h.parent_run_id {
        Some(p) => seq![1u8] + p,
        None => seq![0u8],
    }) + (match h.fork_at_step {
        Some(k) => seq![1u8] + spec_u32_to_le_bytes(k),
        None => seq![0u8],
    })
}

/// The compressed encoding of one frame.
pub open spec fn spec_comp(f: FrameView) -> Seq<u8> {
    zstd_compress_of(spec_frame_enc(f))
}

/// One length-prefixed frame blob.
pub open spec fn spec_blob(f: FrameView) -> Seq<u8>
    recommends
        spec_comp(f).len() < 0x1_0000_0000,
{
    spec_u32_to_le_bytes(spec_comp(f).len() as u32) + spec_comp(f)
}

/// All frame blobs, in append order.
pub open spec fn spec_frames_bytes(frames: Seq<FrameView>) -> Seq<u8>
    decreases frames.len(),
{
    if frames.len() == 0 {
        Seq::empty()
    } else {
        spec_frames_bytes(frames.drop_last()) + spec_blob(frames.last())
    }
}

/// The absolute byte offset of frame `i`'s blob within the container.
pub open spec fn spec_offset(h: HeaderView, frames: Seq<FrameView>, i: int) -> int
    recommends
        0 <= i <= frames.len(),
{
    spec_header_bytes(h).len() + spec_frames_bytes(frames.take(i)).len() as int
}

/// The footer index: one `[hash 32][offset u64 LE]` entry per frame.
pub open spec fn spec_index_bytes(h: HeaderView, frames: Seq<FrameView>) -> Seq<u8>
    decreases frames.len(),
{
    if frames.len() == 0 {
        Seq::empty()
    } else {
        spec_index_bytes(h, frames.drop_last()) + frames.last().request_hash
            + spec_u64_to_le_bytes(spec_offset(h, frames, frames.len() - 1) as u64)
    }
}

/// What a stored frame satisfies: well-formed, its compressed blob
/// representable by a u32 length, and — when its encoding fits the read cap —
/// decompressing the blob returns the encoding (recorded at compression
/// time from the zstd round-trip contract).
pub open spec fn frame_stored_ok(f: FrameView) -> bool {
    &&& f.wf()
    &&& spec_comp(f).len() < 0x1_0000_0000
    &&& (spec_frame_enc(f).len() <= MAX_FRAME_DECOMPRESSED
        ==> zstd_decompress_of(spec_comp(f), MAX_FRAME_DECOMPRESSED as nat) == Some(
        spec_frame_enc(f),
    ))
}

pub open spec fn frames_stored_ok(frames: Seq<FrameView>) -> bool {
    forall|i: int| 0 <= i < frames.len() ==> #[trigger] frame_stored_ok(frames[i])
}

/// A complete, finalized container.
pub open spec fn spec_container_bytes(h: HeaderView, frames: Seq<FrameView>) -> Seq<u8>
    recommends
        frames.len() < 0x1_0000_0000,
{
    let body = spec_header_bytes(h) + spec_frames_bytes(frames);
    body + spec_index_bytes(h, frames) + spec_u32_to_le_bytes(frames.len() as u32)
        + spec_u64_to_le_bytes(body.len() as u64)
}

/// Appending one frame extends the blob region by that frame's blob.
pub proof fn lemma_frames_bytes_push(frames: Seq<FrameView>, f: FrameView)
    ensures
        spec_frames_bytes(frames.push(f)) == spec_frames_bytes(frames) + spec_blob(f),
{
    assert(frames.push(f).drop_last() =~= frames);
    assert(frames.push(f).last() == f);
}

/// Extending the frame sequence does not move existing offsets.
pub proof fn lemma_offset_push(h: HeaderView, frames: Seq<FrameView>, f: FrameView, i: int)
    requires
        0 <= i <= frames.len(),
    ensures
        spec_offset(h, frames.push(f), i) == spec_offset(h, frames, i),
{
    assert(frames.push(f).take(i) =~= frames.take(i));
}

/// One step of the footer index: the first `i + 1` frames' index bytes are
/// the first `i` frames' bytes plus frame `i`'s entry.
pub proof fn lemma_index_bytes_step(h: HeaderView, frames: Seq<FrameView>, i: int)
    requires
        0 <= i < frames.len(),
    ensures
        spec_index_bytes(h, frames.take(i + 1)) == spec_index_bytes(h, frames.take(i))
            + frames[i].request_hash + spec_u64_to_le_bytes(spec_offset(h, frames, i) as u64),
{
    let pre = frames.take(i + 1);
    assert(pre.drop_last() =~= frames.take(i));
    assert(pre.last() == frames[i]);
    assert(pre.take(i) =~= frames.take(i));
    assert(spec_offset(h, pre, i) == spec_offset(h, frames, i));
}

/// A subrange that falls inside the left part of a concatenation.
pub proof fn lemma_subrange_prefix(a: Seq<u8>, b: Seq<u8>, i: int, j: int)
    requires
        0 <= i <= j <= a.len(),
    ensures
        (a + b).subrange(i, j) == a.subrange(i, j),
{
    assert((a + b).subrange(i, j) =~= a.subrange(i, j));
}

/// A subrange that falls inside the right part of a concatenation.
pub proof fn lemma_subrange_suffix(a: Seq<u8>, b: Seq<u8>, i: int, j: int)
    requires
        a.len() <= i <= j <= a.len() + b.len(),
    ensures
        (a + b).subrange(i, j) == b.subrange(i - a.len(), j - a.len()),
{
    assert((a + b).subrange(i, j) =~= b.subrange(i - a.len(), j - a.len()));
}

/// One step of the blob region: the first `i + 1` frames' bytes are the
/// first `i` frames' bytes plus frame `i`'s blob.
pub proof fn lemma_frames_bytes_take_succ(frames: Seq<FrameView>, i: int)
    requires
        0 <= i < frames.len(),
    ensures
        spec_frames_bytes(frames.take(i + 1)) == spec_frames_bytes(frames.take(i)) + spec_blob(
            frames[i],
        ),
{
    let pre = frames.take(i + 1);
    assert(pre.drop_last() =~= frames.take(i));
    assert(pre.last() == frames[i]);
}

/// The whole blob region is the blob region of all frames taken together.
pub proof fn lemma_frames_bytes_take_all(frames: Seq<FrameView>)
    ensures
        spec_frames_bytes(frames.take(frames.len() as int)) == spec_frames_bytes(frames),
{
    assert(frames.take(frames.len() as int) =~= frames);
}

/// Each blob is a four-byte length prefix plus the compressed bytes.
pub proof fn lemma_blob_len(f: FrameView)
    ensures
        spec_blob(f).len() == 4 + spec_comp(f).len(),
{
    vstd::bytes::lemma_auto_spec_u32_to_from_le_bytes();
}

/// A prefix of the blob region never outgrows the whole, and leaves room for
/// the next frame's blob.
pub proof fn lemma_frames_bytes_prefix_len(frames: Seq<FrameView>, i: int)
    requires
        0 <= i <= frames.len(),
    ensures
        spec_frames_bytes(frames.take(i)).len() <= spec_frames_bytes(frames).len(),
        i < frames.len() ==> spec_frames_bytes(frames.take(i)).len() + spec_blob(frames[i]).len()
            <= spec_frames_bytes(frames).len(),
        i < frames.len() ==> spec_frames_bytes(frames.take(i)).len() + 4 <= spec_frames_bytes(
            frames,
        ).len(),
    decreases frames.len() - i,
{
    if i < frames.len() {
        lemma_frames_bytes_take_succ(frames, i);
        lemma_blob_len(frames[i]);
        lemma_frames_bytes_prefix_len(frames, i + 1);
    } else {
        lemma_frames_bytes_take_all(frames);
    }
}

/// The byte length of the footer index: forty bytes per frame.
pub proof fn lemma_index_bytes_len(h: HeaderView, frames: Seq<FrameView>)
    requires
        frames_stored_ok(frames),
    ensures
        spec_index_bytes(h, frames).len() == 40 * frames.len(),
    decreases frames.len(),
{
    vstd::bytes::lemma_auto_spec_u64_to_from_le_bytes();
    if frames.len() > 0 {
        let prev = frames.drop_last();
        assert(frames_stored_ok(prev)) by {
            assert(forall|i: int| 0 <= i < prev.len() ==> prev[i] == frames[i]);
        }
        lemma_index_bytes_len(h, prev);
        assert(frames.last().request_hash.len() == 32) by {
            assert(frame_stored_ok(frames[frames.len() - 1]));
        }
    }
}

/// Where entry `i` sits inside the footer index: its hash bytes, then its
/// offset in little-endian form.
pub proof fn lemma_index_bytes_at(h: HeaderView, frames: Seq<FrameView>, i: int)
    requires
        frames_stored_ok(frames),
        0 <= i < frames.len(),
    ensures
        spec_index_bytes(h, frames).subrange(40 * i, 40 * i + 32) == frames[i].request_hash,
        spec_index_bytes(h, frames).subrange(40 * i + 32, 40 * i + 40) == spec_u64_to_le_bytes(
            spec_offset(h, frames, i) as u64,
        ),
    decreases frames.len(),
{
    vstd::bytes::lemma_auto_spec_u64_to_from_le_bytes();
    let prev = frames.drop_last();
    let last = frames.last();
    assert(frames_stored_ok(prev)) by {
        assert(forall|j: int| 0 <= j < prev.len() ==> prev[j] == frames[j]);
    }
    assert(frame_stored_ok(frames[frames.len() - 1]));
    lemma_index_bytes_len(h, prev);
    let ib = spec_index_bytes(h, frames);
    let ibp = spec_index_bytes(h, prev);
    let off8 = spec_u64_to_le_bytes(spec_offset(h, frames, frames.len() - 1) as u64);
    assert(ib =~= ibp + (last.request_hash + off8));
    if i < frames.len() - 1 {
        lemma_index_bytes_at(h, prev, i);
        lemma_subrange_prefix(ibp, last.request_hash + off8, 40 * i, 40 * i + 32);
        lemma_subrange_prefix(ibp, last.request_hash + off8, 40 * i + 32, 40 * i + 40);
        assert(prev.take(i) =~= frames.take(i));
        assert(spec_offset(h, prev, i) == spec_offset(h, frames, i));
    } else {
        lemma_subrange_suffix(ibp, last.request_hash + off8, 40 * i, 40 * i + 32);
        lemma_subrange_suffix(ibp, last.request_hash + off8, 40 * i + 32, 40 * i + 40);
        lemma_subrange_prefix(last.request_hash, off8, 0, 32);
        lemma_subrange_suffix(last.request_hash, off8, 32, 40);
        assert(last.request_hash.subrange(0, 32) =~= last.request_hash);
        assert(off8.subrange(0, 8) =~= off8);
    }
}

/// Where frame `i`'s blob sits inside the blob region.
pub proof fn lemma_blob_at(frames: Seq<FrameView>, i: int)
    requires
        0 <= i < frames.len(),
    ensures
        spec_frames_bytes(frames).subrange(
            spec_frames_bytes(frames.take(i)).len() as int,
            spec_frames_bytes(frames.take(i)).len() + spec_blob(frames[i]).len() as int,
        ) == spec_blob(frames[i]),
    decreases frames.len(),
{
    let fb = spec_frames_bytes(frames);
    let prev = frames.drop_last();
    let last = frames.last();
    let p = spec_frames_bytes(frames.take(i)).len() as int;
    let bl = spec_blob(frames[i]).len() as int;
    if i < frames.len() - 1 {
        assert(prev.take(i) =~= frames.take(i));
        lemma_blob_at(prev, i);
        lemma_frames_bytes_prefix_len(prev, i + 1);
        lemma_frames_bytes_take_succ(prev, i);
        lemma_subrange_prefix(spec_frames_bytes(prev), spec_blob(last), p, p + bl);
    } else {
        assert(frames.take(i) =~= prev);
        lemma_subrange_suffix(spec_frames_bytes(prev), spec_blob(last), p, p + bl);
        assert(spec_blob(last).subrange(0, bl) =~= spec_blob(last));
    }
}

/// The whole index is the index of all frames taken together.
pub proof fn lemma_index_bytes_take_all(h: HeaderView, frames: Seq<FrameView>)
    ensures
        spec_index_bytes(h, frames.take(frames.len() as int)) == spec_index_bytes(h, frames),
{
    assert(frames.take(frames.len() as int) =~= frames);
}

} // verus!
