use crate::compress::{zstd_compress, zstd_decompress_of};
use crate::container::{
    frame_stored_ok, frames_stored_ok, lemma_frames_bytes_push, lemma_index_bytes_step,
    lemma_index_bytes_take_all, lemma_offset_push, magic, spec_blob, spec_comp,
    spec_container_bytes, spec_frames_bytes, spec_header_bytes, spec_index_bytes, spec_offset,
    HeaderView, FORMAT_VERSION, MAX_FRAME_DECOMPRESSED,
};
use crate::frame::{spec_frame_enc, Frame, FrameView};
use crate::reader::IndexEntry;
use crate::wire::{push_u32_le, push_u64_le, read_bytes};
use crate::GhostError;
use vstd::prelude::*;

verus! {

/// File header written at the start of every container.
#[derive(Debug)]
pub struct Header {
    /// Unix timestamp (ms) when the recording started.
    pub started_at: u64,
    /// Optional git SHA of the recorded project (20 bytes).
    pub git_sha: Option<Vec<u8>>,
    /// Optional parent run identifier (32 bytes), present iff forked.
    pub parent_run_id: Option<Vec<u8>>,
    /// Optional fork step, present iff forked.
    pub fork_at_step: Option<u32>,
}

impl View for Header {
    type V = HeaderView;

    open spec fn view(&self) -> HeaderView {
        HeaderView {
            started_at: self.started_at,
            git_sha: match self.git_sha {
                Some(g) => Some(g@),
                None => None,
            },
            parent_run_id: match self.parent_run_id {
                Some(p) => Some(p@),
                None => None,
            },
            fork_at_step: self.fork_at_step,
        }
    }
}

impl Header {
    /// Appends the header's on-disk form to `out`.
    pub fn write_to(&self, out: &mut Vec<u8>)
        requires
            self@.wf(),
        ensures
            final(out)@ == old(out)@ + spec_header_bytes(self@),
    {
        let mut m = magic();
        out.append(&mut m);
        push_u32_le(out, FORMAT_VERSION);
        push_u64_le(out, self.started_at);
        match &self.git_sha {
            Some(sha) => {
                out.push(1);
                let mut copy = read_bytes(sha.as_slice(), 0, sha.len());
                out.append(&mut copy);
            },
            None => {
                out.push(0);
            },
        }
        match &self.parent_run_id {
            Some(pid) => {
                out.push(1);
                let mut copy = read_bytes(pid.as_slice(), 0, pid.len());
                out.append(&mut copy);
            },
            None => {
                out.push(0);
            },
        }
        match &self.fork_at_step {
            Some(step) => {
                out.push(1);
                push_u32_le(out, *step);
            },
            None => {
                out.push(0);
            },
        }
        proof {
            assert(out@ =~= old(out)@ + spec_header_bytes(self@));
        }
    }
}

/// Appends frames to an in-memory container image, keeping the index
/// consistent with the written blobs; `finish` seals the image with the
/// footer. The caller persists the returned bytes.
pub struct GhostlineWriter {
    buf: Vec<u8>,
    index: Vec<IndexEntry>,
    bytes_written: u64,
    header: Ghost<HeaderView>,
    frames: Ghost<Seq<FrameView>>,
}

impl GhostlineWriter {
    /// The header this writer opened with.
    pub closed spec fn spec_header(self) -> HeaderView {
        self.header@
    }

    /// The frames appended so far, in order.
    pub closed spec fn spec_frames(self) -> Seq<FrameView> {
        self.frames@
    }

    /// The writer's invariant: the buffer holds exactly the header followed
    /// by the appended frames' blobs, and the in-memory index mirrors them.
    pub closed spec fn wf(self) -> bool {
        &&& self.header@.wf()
        &&& frames_stored_ok(self.frames@)
        &&& self.buf@ == spec_header_bytes(self.header@) + spec_frames_bytes(self.frames@)
        &&& self.bytes_written == self.buf@.len()
        &&& self.index@.len() == self.frames@.len()
        &&& forall|i: int| 0 <= i < self.frames@.len() ==> {
            &&& (#[trigger] self.index@[i]).request_hash@ == self.frames@[i].request_hash
            &&& self.index@[i].offset as int == spec_offset(self.header@, self.frames@, i)
        }
    }

    /// Create a new writer, immediately writing the file header.
    pub fn new(header: &Header) -> (w: GhostlineWriter)
        requires
            header@.wf(),
        ensures
            w.wf(),
            w.spec_header() == header@,
            w.spec_frames() == Seq::<FrameView>::empty(),
    {
        let mut buf: Vec<u8> = Vec::new();
        header.write_to(&mut buf);
        let bytes_written = buf.len() as u64;
        let w = GhostlineWriter {
            buf,
            index: Vec::new(),
            bytes_written,
            header: Ghost(header@),
            frames: Ghost(Seq::empty()),
        };
        proof {
            assert(spec_frames_bytes(Seq::<FrameView>::empty()) =~= Seq::<u8>::empty());
            assert(w.buf@ =~= spec_header_bytes(header@) + spec_frames_bytes(
                Seq::<FrameView>::empty(),
            ));
        }
        w
    }

    /// Append a frame: encode it, compress the encoding with zstd, write the
    /// length-prefixed blob and push its index entry. On error nothing
    /// changes; the frame was not recorded.
    pub fn append(&mut self, frame: &Frame) -> (r: Result<(), GhostError>)
        requires
            old(self).wf(),
            frame@.wf(),
        ensures
            final(self).wf(),
            final(self).spec_header() == old(self).spec_header(),
            match r {
                Ok(()) => final(self).spec_frames() == old(self).spec_frames().push(frame@),
                Err(e) => final(self).spec_frames() == old(self).spec_frames() && e
                    == GhostError::IOError,
            },
    {
        let enc = frame.to_msgpack();
        let mut comp = match zstd_compress(enc.as_slice()) {
            Ok(c) => c,
            Err(_) => { return Err(GhostError::IOError) },
        };
        if (comp.len() as u64) >= 0x1_0000_0000u64 {
            return Err(GhostError::IOError);
        }
        let ghost comp_view = comp@;
        let ghost h = self.header@;
        let ghost fs = self.frames@;
        let ghost f = frame@;
        proof {
            assert(comp_view == spec_comp(f));
            if spec_frame_enc(f).len() <= MAX_FRAME_DECOMPRESSED {
                assert(zstd_decompress_of(comp_view, MAX_FRAME_DECOMPRESSED as nat) == Some(
                    enc@,
                ));
            }
            assert(frame_stored_ok(f));
        }
        let offset = self.bytes_written;
        let len32 = comp.len() as u32;
        push_u32_le(&mut self.buf, len32);
        self.buf.append(&mut comp);
        self.bytes_written = self.buf.len() as u64;
        let hash_copy = read_bytes(frame.request_hash.as_slice(), 0, frame.request_hash.len());
        self.index.push(IndexEntry { request_hash: hash_copy, offset });
        self.frames = Ghost(fs.push(f));
        proof {
            lemma_frames_bytes_push(fs, f);
            assert(spec_blob(f) == vstd::bytes::spec_u32_to_le_bytes(len32) + comp_view);
            assert(self.buf@ =~= spec_header_bytes(h) + spec_frames_bytes(fs.push(f)));
            assert(hash_copy@ =~= f.request_hash);
            assert(fs.push(f).take(fs.len() as int) =~= fs);
            assert(offset as int == spec_offset(h, fs.push(f), fs.len() as int));
            assert forall|i: int| 0 <= i < fs.push(f).len() implies {
                &&& (#[trigger] self.index@[i]).request_hash@ == fs.push(f)[i].request_hash
                &&& self.index@[i].offset as int == spec_offset(h, fs.push(f), i)
            } by {
                if i < fs.len() {
                    assert(old(self).index@[i].request_hash@ == fs[i].request_hash);
                    lemma_offset_push(h, fs, f, i);
                }
            }
        }
        Ok(())
    }

    /// Number of frames written so far.
    pub fn frame_count(&self) -> (n: usize)
        requires
            self.wf(),
        ensures
            n == self.spec_frames().len(),
    {
        self.index.len()
    }

    /// Write the footer — every index entry, the entry count and the index
    /// start offset — and hand back the complete container image. Fails only
    /// when the frame count does not fit the footer's 32-bit counter.
    pub fn finish(self) -> (r: Result<Vec<u8>, GhostError>)
        requires
            self.wf(),
        ensures
            match r {
                Ok(out) => {
                    &&& out@ == spec_container_bytes(self.spec_header(), self.spec_frames())
                    &&& self.spec_frames().len() < 0x1_0000_0000
                    &&& frames_stored_ok(self.spec_frames())
                },
                Err(e) => self.spec_frames().len() >= 0x1_0000_0000 && e == GhostError::IOError,
            },
    {
        let GhostlineWriter { mut buf, index, bytes_written, header, frames } = self;
        let count = index.len();
        if (count as u64) >= 0x1_0000_0000u64 {
            return Err(GhostError::IOError);
        }
        let index_offset = bytes_written;
        let ghost h = header@;
        let ghost fs = frames@;
        let ghost body = spec_header_bytes(h) + spec_frames_bytes(fs);
        proof {
            assert(spec_index_bytes(h, fs.take(0)) =~= Seq::<u8>::empty());
            assert(buf@ =~= body + spec_index_bytes(h, fs.take(0)));
        }
        let mut i: usize = 0;
        while i < count
            invariant
                i <= count,
                count == fs.len(),
                count < 0x1_0000_0000,
                index@.len() == count,
                forall|j: int| 0 <= j < fs.len() ==> {
                    &&& (#[trigger] index@[j]).request_hash@ == fs[j].request_hash
                    &&& index@[j].offset as int == spec_offset(h, fs, j)
                },
                buf@ == body + spec_index_bytes(h, fs.take(i as int)),
            decreases count - i,
        {
            let entry_hash_len = index[i].request_hash.len();
            let mut hash_copy = read_bytes(index[i].request_hash.as_slice(), 0, entry_hash_len);
            proof {
                assert(hash_copy@ =~= fs[i as int].request_hash);
            }
            buf.append(&mut hash_copy);
            push_u64_le(&mut buf, index[i].offset);
            proof {
                lemma_index_bytes_step(h, fs, i as int);
                assert(buf@ =~= body + spec_index_bytes(h, fs.take(i + 1)));
            }
            i += 1;
        }
        proof {
            lemma_index_bytes_take_all(h, fs);
        }
        push_u32_le(&mut buf, count as u32);
        push_u64_le(&mut buf, index_offset);
        proof {
            assert(buf@ =~= spec_container_bytes(h, fs));
        }
        Ok(buf)
    }
}

} // verus!
