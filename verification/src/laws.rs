use crate::compress::zstd_decompress_of;
use crate::container::{
    frame_stored_ok, frames_stored_ok, lemma_blob_at, lemma_blob_len,
    lemma_frames_bytes_prefix_len, lemma_index_bytes_at, lemma_index_bytes_len,
    lemma_subrange_prefix, lemma_subrange_suffix, spec_blob, spec_comp, spec_container_bytes,
    spec_frames_bytes, spec_header_bytes, spec_index_bytes, spec_magic, spec_offset, HeaderView,
    FORMAT_VERSION, MAX_FRAME_DECOMPRESSED,
};
use crate::frame::{lemma_frame_round_trip, spec_frame_enc, FrameView};
use crate::reader::{
    lemma_find_hash_skip, spec_entries_at, spec_find_hash, spec_frame_at, spec_open,
};
use vstd::bytes::{
    lemma_auto_spec_u32_to_from_le_bytes, lemma_auto_spec_u64_to_from_le_bytes,
    spec_u32_to_le_bytes, spec_u64_to_le_bytes,
};
use vstd::prelude::*;

verus! {

// The laws tying the writer's output to the reader: a finalized container
// opens cleanly, its index points at the frames that were appended, and each
// offset yields the frame written there.

/// Opening the bytes of a finalized container succeeds and recovers the
/// header and the index: entry `i` carries frame `i`'s request hash and the
/// offset at which its blob was written.
#[verifier::rlimit(60)]
pub proof fn lemma_open_container(h: HeaderView, frames: Seq<FrameView>)
    requires
        h.wf(),
        frames_stored_ok(frames),
        frames.len() < 0x1_0000_0000,
        spec_container_bytes(h, frames).len() <= 0xffff_ffff_ffff_ffff,
    ensures
        spec_open(spec_container_bytes(h, frames)) matches Ok(rv) && {
            &&& rv.header == h
            &&& rv.header_end == spec_header_bytes(h).len()
            &&& rv.index_offset as int == spec_header_bytes(h).len() + spec_frames_bytes(
                frames,
            ).len()
            &&& rv.entries.len() == frames.len()
            &&& forall|i: int| 0 <= i < frames.len() ==> {
                &&& (#[trigger] rv.entries[i]).request_hash == frames[i].request_hash
                &&& rv.entries[i].offset as int == spec_offset(h, frames, i)
            }
        },
{
    lemma_auto_spec_u32_to_from_le_bytes();
    lemma_auto_spec_u64_to_from_le_bytes();
    let s = spec_container_bytes(h, frames);
    let hb = spec_header_bytes(h);
    let fb = spec_frames_bytes(frames);
    let ib = spec_index_bytes(h, frames);
    let body = hb + fb;
    let cnt = frames.len() as int;
    let c4 = spec_u32_to_le_bytes(frames.len() as u32);
    let io8 = spec_u64_to_le_bytes(body.len() as u64);
    lemma_index_bytes_len(h, frames);
    assert(s == body + ib + c4 + io8);
    assert(s.len() == body.len() + 40 * cnt + 12);

    // The header region.
    let p: int = if h.git_sha is Some {
        41
    } else {
        21
    };
    let q: int = if h.parent_run_id is Some {
        p + 33
    } else {
        p + 1
    };
    let he: int = if h.fork_at_step is Some {
        q + 5
    } else {
        q + 1
    };
    assert(hb.len() == he);
    lemma_subrange_prefix(body, ib, 0, hb.len() as int);
    lemma_subrange_prefix(body + ib, c4, 0, hb.len() as int);
    lemma_subrange_prefix(body + ib + c4, io8, 0, hb.len() as int);
    lemma_subrange_prefix(hb, fb, 0, hb.len() as int);
    assert(hb.subrange(0, hb.len() as int) =~= hb);
    assert(s.subrange(0, he) == hb);
    assert forall|j: int| 0 <= j < he implies s[j] == hb[j] by {
        assert(s.subrange(0, he)[j] == s[j]);
    }
    assert(s.subrange(0, 8) =~= spec_magic());
    assert(s.subrange(8, 12) =~= spec_u32_to_le_bytes(FORMAT_VERSION));
    assert(s.subrange(12, 20) =~= spec_u64_to_le_bytes(h.started_at));
    if h.git_sha is Some {
        assert(s[20] == 1);
        assert(s.subrange(21, 41) =~= h.git_sha->0);
    } else {
        assert(s[20] == 0);
    }
    if h.parent_run_id is Some {
        assert(s[p] == 1);
        assert(s.subrange(p + 1, p + 33) =~= h.parent_run_id->0);
    } else {
        assert(s[p] == 0);
    }
    if h.fork_at_step is Some {
        assert(s[q] == 1);
        assert(s.subrange(q + 1, q + 5) =~= spec_u32_to_le_bytes(h.fork_at_step->0));
    } else {
        assert(s[q] == 0);
    }

    // The footer: the last eight bytes give the index offset, the four
    // before them the entry count.
    lemma_subrange_suffix(body + ib + c4, io8, s.len() - 8, s.len() as int);
    assert(io8.subrange(0, 8) =~= io8);
    assert(s.subrange(s.len() - 8, s.len() as int) == io8);
    assert(s == (body + ib) + (c4 + io8));
    lemma_subrange_suffix(body + ib, c4 + io8, s.len() - 12, s.len() - 8);
    lemma_subrange_prefix(c4, io8, 0, 4);
    assert(c4.subrange(0, 4) =~= c4);
    assert(s.subrange(s.len() - 12, s.len() - 8) == c4);

    // The index region: entry `i` occupies bytes `io + 40 i .. io + 40 i + 40`.
    let io = body.len() as int;
    assert forall|i: int| 0 <= i < cnt implies {
        &&& s.subrange(io + 40 * i, io + 40 * i + 32) == frames[i].request_hash
        &&& s.subrange(io + 40 * i + 32, io + 40 * i + 40) == spec_u64_to_le_bytes(
            spec_offset(h, frames, i) as u64,
        )
    } by {
        assert(40 * i + 40 <= 40 * cnt) by (nonlinear_arith)
            requires i < cnt;
        assert(40 * i >= 0) by (nonlinear_arith)
            requires i >= 0;
        lemma_subrange_suffix(body, ib + c4 + io8, io + 40 * i, io + 40 * i + 32);
        lemma_subrange_suffix(body, ib + c4 + io8, io + 40 * i + 32, io + 40 * i + 40);
        assert(s == body + (ib + c4 + io8));
        lemma_subrange_prefix(ib, c4, 40 * i, 40 * i + 32);
        lemma_subrange_prefix(ib + c4, io8, 40 * i, 40 * i + 32);
        lemma_subrange_prefix(ib, c4, 40 * i + 32, 40 * i + 40);
        lemma_subrange_prefix(ib + c4, io8, 40 * i + 32, 40 * i + 40);
        assert((ib + c4 + io8).subrange(40 * i, 40 * i + 32) == ib.subrange(
            40 * i,
            40 * i + 32,
        ));
        assert((ib + c4 + io8).subrange(40 * i + 32, 40 * i + 40) == ib.subrange(
            40 * i + 32,
            40 * i + 40,
        ));
        lemma_index_bytes_at(h, frames, i);
    }

    // Every offset lies inside the frame region, and parses back exactly.
    assert forall|i: int| 0 <= i < cnt implies he <= #[trigger] spec_offset(h, frames, i)
        < io by {
        lemma_frames_bytes_prefix_len(frames, i);
    }
    let entries = spec_entries_at(s, io, cnt);
    assert forall|i: int| 0 <= i < cnt implies {
        &&& (#[trigger] entries[i]).request_hash == frames[i].request_hash
        &&& entries[i].offset as int == spec_offset(h, frames, i)
    } by {
        assert(entries[i].request_hash == s.subrange(io + 40 * i, io + 40 * i + 32));
        lemma_frames_bytes_prefix_len(frames, i);
    }
    assert(spec_open(s) is Ok);
    let rv = spec_open(s)->Ok_0;
    assert(rv.header =~= h);
}

/// Reading at frame `i`'s offset in a finalized container yields frame `i`
/// itself, provided its encoding fits the 10 MiB read cap.
#[verifier::rlimit(60)]
pub proof fn lemma_frame_at_container(h: HeaderView, frames: Seq<FrameView>, i: int)
    requires
        h.wf(),
        frames_stored_ok(frames),
        frames.len() < 0x1_0000_0000,
        0 <= i < frames.len(),
        spec_frame_enc(frames[i]).len() <= MAX_FRAME_DECOMPRESSED,
    ensures
        spec_frame_at(spec_container_bytes(h, frames), spec_offset(h, frames, i)) == Some(
            frames[i],
        ),
{
    lemma_auto_spec_u32_to_from_le_bytes();
    let s = spec_container_bytes(h, frames);
    let hb = spec_header_bytes(h);
    let fb = spec_frames_bytes(frames);
    let body = hb + fb;
    let f = frames[i];
    let blob = spec_blob(f);
    let comp = spec_comp(f);
    let p = spec_frames_bytes(frames.take(i)).len() as int;
    let off = spec_offset(h, frames, i);
    let bl = blob.len() as int;
    assert(frame_stored_ok(f));
    lemma_blob_len(f);
    lemma_blob_at(frames, i);
    lemma_frames_bytes_prefix_len(frames, i);
    assert(s == body + (spec_index_bytes(h, frames) + spec_u32_to_le_bytes(frames.len() as u32)
        + spec_u64_to_le_bytes(body.len() as u64)));
    lemma_subrange_prefix(
        body,
        spec_index_bytes(h, frames) + spec_u32_to_le_bytes(frames.len() as u32)
            + spec_u64_to_le_bytes(body.len() as u64),
        off,
        off + bl,
    );
    lemma_subrange_suffix(hb, fb, off, off + bl);
    assert(s.subrange(off, off + bl) == blob);
    assert forall|j: int| 0 <= j < bl implies s[off + j] == blob[j] by {
        assert(s.subrange(off, off + bl)[j] == s[off + j]);
    }
    assert(s.subrange(off, off + 4) =~= spec_u32_to_le_bytes(comp.len() as u32)) by {
        assert forall|j: int| 0 <= j < 4 implies (#[trigger] s.subrange(off, off + 4)[j])
            == spec_u32_to_le_bytes(comp.len() as u32)[j] by {
            assert(s.subrange(off, off + 4)[j] == s[off + j]);
            assert(blob[j] == spec_u32_to_le_bytes(comp.len() as u32)[j]);
        }
    }
    let clen = comp.len() as int;
    assert(s.subrange(off + 4, off + 4 + clen) =~= comp) by {
        assert forall|j: int| 0 <= j < clen implies (#[trigger] s.subrange(off + 4, off + 4
            + clen)[j]) == comp[j] by {
            assert(s.subrange(off + 4, off + 4 + clen)[j] == s[off + 4 + j]);
            assert(blob[4 + j] == comp[j]);
        }
    }
    assert(zstd_decompress_of(comp, MAX_FRAME_DECOMPRESSED as nat) == Some(spec_frame_enc(f)));
    lemma_frame_round_trip(f);
}

/// Container round trip: finalizing frames `f_0 .. f_{N-1}` behind header
/// `h` and opening the resulting bytes yields a container with `N` frames in
/// which reading index `i` returns `f_i`, field for field.
pub proof fn lemma_container_round_trip(h: HeaderView, frames: Seq<FrameView>)
    requires
        h.wf(),
        frames_stored_ok(frames),
        frames.len() < 0x1_0000_0000,
        spec_container_bytes(h, frames).len() <= 0xffff_ffff_ffff_ffff,
        forall|i: int| 0 <= i < frames.len() ==> (#[trigger] spec_frame_enc(frames[i])).len()
            <= MAX_FRAME_DECOMPRESSED,
    ensures
        spec_open(spec_container_bytes(h, frames)) matches Ok(rv) && {
            &&& rv.header == h
            &&& rv.entries.len() == frames.len()
            &&& forall|i: int| 0 <= i < frames.len() ==> spec_frame_at(
                spec_container_bytes(h, frames),
                (#[trigger] rv.entries[i]).offset as int,
            ) == Some(frames[i])
        },
{
    lemma_open_container(h, frames);
    let s = spec_container_bytes(h, frames);
    let rv = spec_open(s)->Ok_0;
    assert forall|i: int| 0 <= i < frames.len() implies spec_frame_at(
        s,
        (#[trigger] rv.entries[i]).offset as int,
    ) == Some(frames[i]) by {
        lemma_frame_at_container(h, frames, i);
    }
}

/// Index integrity: in any container that opens successfully, every index
/// offset lies inside the frame region — at or past the header's end and
/// before the index start.
pub proof fn lemma_index_integrity(s: Seq<u8>)
    requires
        spec_open(s) is Ok,
    ensures
        spec_open(s) matches Ok(rv) && forall|i: int| 0 <= i < rv.entries.len() ==> rv.header_end
            <= ((#[trigger] rv.entries[i]).offset as int) < (rv.index_offset as int),
{
}

/// Hash lookup: when frame `i`'s request hash is unique within the
/// container, scanning the index for it finds exactly position `i`.
pub proof fn lemma_hash_lookup_unique(h: HeaderView, frames: Seq<FrameView>, i: int)
    requires
        h.wf(),
        frames_stored_ok(frames),
        frames.len() < 0x1_0000_0000,
        spec_container_bytes(h, frames).len() <= 0xffff_ffff_ffff_ffff,
        0 <= i < frames.len(),
        forall|j: int| 0 <= j < frames.len() && j != i ==> (#[trigger] frames[j]).request_hash
            != frames[i].request_hash,
    ensures
        spec_open(spec_container_bytes(h, frames)) matches Ok(rv) && spec_find_hash(
            rv.entries,
            frames[i].request_hash,
            0,
        ) == Some(i),
{
    lemma_open_container(h, frames);
    let s = spec_container_bytes(h, frames);
    let rv = spec_open(s)->Ok_0;
    assert forall|k: int| 0 <= k < i implies (#[trigger] rv.entries[k]).request_hash
        != frames[i].request_hash by {
        assert(rv.entries[k].request_hash == frames[k].request_hash);
    }
    lemma_find_hash_skip(rv.entries, frames[i].request_hash, i);
    assert(rv.entries[i].request_hash == frames[i].request_hash);
}

} // verus!
