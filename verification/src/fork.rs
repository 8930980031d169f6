use crate::container::{frames_stored_ok, spec_container_bytes, HeaderView, MAX_FRAME_DECOMPRESSED};
use crate::digest::{sha256, sha256_of};
use crate::frame::{spec_frame_enc, FrameView};
use crate::laws::lemma_container_round_trip;
use crate::reader::{lemma_open_bounds, spec_frame_at, spec_open, GhostlineReader, IndexEntryView};
use crate::wire::{push_u64_le, read_bytes};
use crate::writer::{GhostlineWriter, Header};
use crate::GhostError;
use vstd::bytes::spec_u64_to_le_bytes;
use vstd::prelude::*;

verus! {

/// The derived identifier of a fork's parent: the SHA-256 digest of the
/// source's start time (little-endian) followed by its first frame's
/// request hash.
pub open spec fn spec_parent_run_id(started_at: u64, first_hash: Seq<u8>) -> Seq<u8> {
    sha256_of(spec_u64_to_le_bytes(started_at) + first_hash)
}

/// The header a fork writes: start time and git SHA copied from the source,
/// provenance fields set.
pub open spec fn spec_fork_header(src: HeaderView, pid: Seq<u8>, k: u32) -> HeaderView {
    HeaderView {
        started_at: src.started_at,
        git_sha: src.git_sha,
        parent_run_id: Some(pid),
        fork_at_step: Some(k),
    }
}

/// The frame stored at entry `i` of an opened container.
pub open spec fn spec_source_frame(data: Seq<u8>, entries: Seq<IndexEntryView>, i: int)
    -> FrameView {
    spec_frame_at(data, entries[i].offset as int)->Some_0
}

/// The source's frames `0 ..= k`, as a fork copies them.
pub open spec fn spec_fork_frames(data: Seq<u8>, entries: Seq<IndexEntryView>, k: int) -> Seq<
    FrameView,
> {
    Seq::new((k + 1) as nat, |i: int| spec_source_frame(data, entries, i))
}

/// Produce a new container image holding the source's frames `0 ..= k`,
/// with the provenance recorded in its header. The source is never
/// modified; frames are copied through the frame type, re-encoded.
#[verifier::rlimit(100)]
pub fn fork_frames(reader: &GhostlineReader, k: usize) -> (r: Result<Vec<u8>, GhostError>)
    requires
        reader.wf(),
    ensures
        k >= reader.spec_entries().len() ==> r == Err::<Vec<u8>, GhostError>(
            GhostError::OutOfRange,
        ),
        k < reader.spec_entries().len() ==> match r {
            Ok(out) => {
                let pid = spec_parent_run_id(
                    reader.spec_header().started_at,
                    spec_source_frame(reader.spec_data(), reader.spec_entries(), 0).request_hash,
                );
                let fh = spec_fork_header(reader.spec_header(), pid, k as u32);
                let ff = spec_fork_frames(reader.spec_data(), reader.spec_entries(), k as int);
                &&& out@ == spec_container_bytes(fh, ff)
                &&& fh.wf()
                &&& frames_stored_ok(ff)
                &&& ff.len() == k + 1 < 0x1_0000_0000
                &&& forall|i: int| 0 <= i <= k ==> spec_frame_at(
                    reader.spec_data(),
                    (#[trigger] reader.spec_entries()[i]).offset as int,
                ) is Some
            },
            Err(e) => {
                &&& (e == GhostError::MalformedFrame || e == GhostError::IOError)
                &&& e == GhostError::MalformedFrame ==> exists|i: int| 0 <= i <= k
                    && spec_frame_at(
                    reader.spec_data(),
                    (#[trigger] reader.spec_entries()[i]).offset as int,
                ) is None
            },
        },
{
    let count = reader.frame_count();
    if k >= count {
        return Err(GhostError::OutOfRange);
    }
    proof {
        lemma_open_bounds(reader.spec_data());
    }
    let first = match reader.get_frame(0) {
        Ok(f) => f,
        Err(_) => { return Err(GhostError::MalformedFrame) },
    };
    let mut seed: Vec<u8> = Vec::new();
    push_u64_le(&mut seed, reader.started_at);
    let mut hash_copy = read_bytes(first.request_hash.as_slice(), 0, first.request_hash.len());
    proof {
        assert(hash_copy@ =~= first@.request_hash);
    }
    seed.append(&mut hash_copy);
    let parent_run_id = sha256(seed.as_slice());
    proof {
        assert(seed@ =~= spec_u64_to_le_bytes(reader.started_at)
            + spec_source_frame(reader.spec_data(), reader.spec_entries(), 0).request_hash);
    }
    let git_sha: Option<Vec<u8>> = match &reader.git_sha {
        Some(g) => {
            let c = read_bytes(g.as_slice(), 0, g.len());
            proof {
                assert(c@ =~= g@);
            }
            Some(c)
        },
        None => None,
    };
    let header = Header {
        started_at: reader.started_at,
        git_sha,
        parent_run_id: Some(parent_run_id),
        fork_at_step: Some(k as u32),
    };
    let ghost fh = spec_fork_header(
        reader.spec_header(),
        spec_parent_run_id(
            reader.spec_header().started_at,
            spec_source_frame(reader.spec_data(), reader.spec_entries(), 0).request_hash,
        ),
        k as u32,
    );
    proof {
        assert(header@ =~= fh);
    }
    let mut writer = GhostlineWriter::new(&header);
    let ghost ff = spec_fork_frames(reader.spec_data(), reader.spec_entries(), k as int);
    let mut i: usize = 0;
    while i <= k
        invariant
            reader.wf(),
            i <= k + 1,
            k < reader.spec_entries().len(),
            writer.wf(),
            writer.spec_header() == fh,
            ff == spec_fork_frames(reader.spec_data(), reader.spec_entries(), k as int),
            writer.spec_frames() == ff.take(i as int),
            forall|j: int| 0 <= j < i ==> spec_frame_at(
                reader.spec_data(),
                (#[trigger] reader.spec_entries()[j]).offset as int,
            ) is Some,
        decreases k + 1 - i,
    {
        let frame = match reader.get_frame(i) {
            Ok(f) => f,
            Err(_) => { return Err(GhostError::MalformedFrame) },
        };
        proof {
            assert(frame@ == ff[i as int]);
        }
        match writer.append(&frame) {
            Ok(()) => {},
            Err(_) => { return Err(GhostError::IOError) },
        }
        proof {
            assert(ff.take(i as int).push(frame@) =~= ff.take(i + 1));
        }
        i += 1;
    }
    proof {
        assert(ff.take(k + 1) =~= ff);
    }
    match writer.finish() {
        Ok(out) => Ok(out),
        Err(_) => {
            proof {
                assert(false);
            }
            Err(GhostError::IOError)
        },
    }
}

/// Fork provenance: the image a fork produces opens as a container of
/// `k + 1` frames, each field-equal to the source frame at the same index,
/// whose header copies the source's start time and git SHA and records the
/// parent run identifier and the fork step.
pub proof fn lemma_fork_provenance(
    src: HeaderView,
    data: Seq<u8>,
    entries: Seq<IndexEntryView>,
    out: Seq<u8>,
    k: int,
)
    requires
        0 <= k,
        k + 1 < 0x1_0000_0000,
        k < entries.len(),
        out == spec_container_bytes(
            spec_fork_header(
                src,
                spec_parent_run_id(src.started_at, spec_source_frame(data, entries, 0).request_hash),
                k as u32,
            ),
            spec_fork_frames(data, entries, k),
        ),
        spec_fork_header(
            src,
            spec_parent_run_id(src.started_at, spec_source_frame(data, entries, 0).request_hash),
            k as u32,
        ).wf(),
        frames_stored_ok(spec_fork_frames(data, entries, k)),
        out.len() <= 0xffff_ffff_ffff_ffff,
        forall|i: int| 0 <= i <= k ==> spec_frame_enc(
            #[trigger] spec_source_frame(data, entries, i),
        ).len() <= MAX_FRAME_DECOMPRESSED,
    ensures
        spec_open(out) matches Ok(frv) && {
            &&& frv.entries.len() == k + 1
            &&& frv.header.started_at == src.started_at
            &&& frv.header.git_sha == src.git_sha
            &&& frv.header.parent_run_id == Some(
                spec_parent_run_id(src.started_at, spec_source_frame(data, entries, 0).request_hash),
            )
            &&& frv.header.fork_at_step == Some(k as u32)
            &&& forall|i: int| 0 <= i <= k ==> spec_frame_at(
                out,
                (#[trigger] frv.entries[i]).offset as int,
            ) == Some(spec_source_frame(data, entries, i))
        },
{
    let ff = spec_fork_frames(data, entries, k);
    let fh = spec_fork_header(
        src,
        spec_parent_run_id(src.started_at, spec_source_frame(data, entries, 0).request_hash),
        k as u32,
    );
    assert(forall|i: int| 0 <= i < ff.len() ==> (#[trigger] spec_frame_enc(ff[i])).len()
        <= MAX_FRAME_DECOMPRESSED) by {
        assert(forall|i: int| 0 <= i < ff.len() ==> ff[i] == spec_source_frame(data, entries, i));
    }
    lemma_container_round_trip(fh, ff);
}

} // verus!
