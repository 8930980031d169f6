use crate::compress::{zstd_decompress, zstd_decompress_of};
use crate::container::{spec_magic, HeaderView, FORMAT_VERSION, MAX_FRAME_DECOMPRESSED};
use crate::frame::{spec_parse_frame, Frame, FrameView};
use crate::wire::{bytes_eq, read_bytes, read_u32_le, read_u64_le};
use crate::GhostError;
use vstd::bytes::{spec_u32_from_le_bytes, spec_u64_from_le_bytes};
use vstd::prelude::*;

verus! {

/// One footer index entry: the frame's request hash and the absolute byte
/// offset of its length-prefixed blob.
#[derive(Debug, Clone)]
pub struct IndexEntry {
    pub request_hash: Vec<u8>,
    pub offset: u64,
}

/// The mathematical content of an index entry.
#[verifier::ext_equal]
pub ghost struct IndexEntryView {
    pub request_hash: Seq<u8>,
    pub offset: u64,
}

impl View for IndexEntry {
    type V = IndexEntryView;

    open spec fn view(&self) -> IndexEntryView {
        IndexEntryView { request_hash: self.request_hash@, offset: self.offset }
    }
}

/// Everything `spec_open` recovers from a container image.
#[verifier::ext_equal]
pub ghost struct ReaderView {
    pub header: HeaderView,
    pub header_end: int,
    pub index_offset: u64,
    pub entries: Seq<IndexEntryView>,
}

/// The index entries encoded starting at `io`: entry `i` is 32 hash bytes
/// followed by a little-endian u64 offset.
pub open spec fn spec_entries_at(s: Seq<u8>, io: int, count: int) -> Seq<IndexEntryView> {
    Seq::new(
        count as nat,
        |i: int|
            IndexEntryView {
                request_hash: s.subrange(io + 40 * i, io + 40 * i + 32),
                offset: spec_u64_from_le_bytes(s.subrange(io + 40 * i + 32, io + 40 * i + 40)),
            },
    )
}

/// Opens a container image: checks magic and version, reads the header
/// fields, locates the footer, materializes the index and validates that
/// every offset falls inside the frame region.
pub open spec fn spec_open(s: Seq<u8>) -> Result<ReaderView, GhostError> {
    if s.len() < 8 {
        Err(GhostError::Malformed)
    } else if s.subrange(0, 8) != spec_magic() {
        Err(GhostError::BadMagic)
    } else if s.len() < 12 {
        Err(GhostError::Malformed)
    } else if spec_u32_from_le_bytes(s.subrange(8, 12)) != FORMAT_VERSION {
        Err(GhostError::UnsupportedVersion)
    } else if s.len() < 21 {
        Err(GhostError::Malformed)
    } else {
        let started_at = spec_u64_from_le_bytes(s.subrange(12, 20));
        let gflag = s[20];
        if gflag != 0 && gflag != 1 {
            Err(GhostError::Malformed)
        } else if gflag == 1 && s.len() < 41 {
            Err(GhostError::Malformed)
        } else {
            let git_sha = if gflag == 1 {
                Some(s.subrange(21, 41))
            } else {
                None
            };
            let p = if gflag == 1 {
                41int
            } else {
                21int
            };
            if s.len() < p + 1 {
                Err(GhostError::Malformed)
            } else if s[p] == 1 && s.len() < p + 33 {
                Err(GhostError::Malformed)
            } else {
                let parent_run_id = if s[p] == 1 {
                    Some(s.subrange(p + 1, p + 33))
                } else {
                    None
                };
                let q = if s[p] == 1 {
                    p + 33
                } else {
                    p + 1
                };
                if s.len() < q + 1 {
                    Err(GhostError::Malformed)
                } else if s[q] == 1 && s.len() < q + 5 {
                    Err(GhostError::Malformed)
                } else {
                    let fork_at_step = if s[q] == 1 {
                        Some(spec_u32_from_le_bytes(s.subrange(q + 1, q + 5)))
                    } else {
                        None
                    };
                    let header_end = if s[q] == 1 {
                        q + 5
                    } else {
                        q + 1
                    };
                    let header = HeaderView { started_at, git_sha, parent_run_id, fork_at_step };
                    if s.len() < header_end + 12 {
                        Err(GhostError::Malformed)
                    } else {
                        let index_offset = spec_u64_from_le_bytes(
                            s.subrange(s.len() - 8, s.len() as int),
                        );
                        let count = spec_u32_from_le_bytes(
                            s.subrange(s.len() - 12, s.len() - 8),
                        ) as int;
                        if ((index_offset as int) < header_end) || ((index_offset as int) + 40
                            * count > s.len() - 12) {
                            Err(GhostError::Malformed)
                        } else {
                            let entries = spec_entries_at(s, index_offset as int, count);
                            if forall|i: int| 0 <= i < count ==> header_end <= ((
                            #[trigger] entries[i]).offset as int) < (index_offset as int) {
                                Ok(ReaderView { header, header_end, index_offset, entries })
                            } else {
                                Err(GhostError::Malformed)
                            }
                        }
                    }
                }
            }
        }
    }
}

/// The frame stored at byte offset `off`: a u32 little-endian length, that
/// many compressed bytes, decompressed under the 10 MiB cap and decoded.
pub open spec fn spec_frame_at(s: Seq<u8>, off: int) -> Option<FrameView> {
    if 0 <= off && off + 4 <= s.len() {
        let clen = spec_u32_from_le_bytes(s.subrange(off, off + 4)) as int;
        if off + 4 + clen <= s.len() {
            match zstd_decompress_of(
                s.subrange(off + 4, off + 4 + clen),
                MAX_FRAME_DECOMPRESSED as nat,
            ) {
                Some(enc) => spec_parse_frame(enc),
                None => None,
            }
        } else {
            None
        }
    } else {
        None
    }
}

/// The least index at or after `from` whose entry carries `hash`.
pub open spec fn spec_find_hash(entries: Seq<IndexEntryView>, hash: Seq<u8>, from: int) -> Option<
    int,
>
    recommends
        0 <= from,
    decreases entries.len() - from
        when 0 <= from <= entries.len()
{
    if from >= entries.len() {
        None
    } else if entries[from].request_hash == hash {
        Some(from)
    } else {
        spec_find_hash(entries, hash, from + 1)
    }
}

/// Scanning from the start is the same as scanning from `i` when nothing
/// before `i` matches.
pub proof fn lemma_find_hash_skip(entries: Seq<IndexEntryView>, hash: Seq<u8>, i: int)
    requires
        0 <= i <= entries.len(),
        forall|k: int| 0 <= k < i ==> (#[trigger] entries[k]).request_hash != hash,
    ensures
        spec_find_hash(entries, hash, 0) == spec_find_hash(entries, hash, i),
    decreases i,
{
    if i > 0 {
        lemma_find_hash_skip(entries, hash, i - 1);
    }
}

/// Bounds that hold of every container that opens: the header is
/// well-formed and the frame count fits the footer's 32-bit counter.
pub proof fn lemma_open_bounds(s: Seq<u8>)
    requires
        spec_open(s) is Ok,
    ensures
        spec_open(s)->Ok_0.header.wf(),
        spec_open(s)->Ok_0.entries.len() < 0x1_0000_0000,
{
}

/// Random-access reader over a complete container image.
pub struct GhostlineReader {
    /// The complete container image the reader was opened on.
    pub data: Vec<u8>,
    /// Unix timestamp (ms) when the recording started.
    pub started_at: u64,
    /// The container's format version.
    pub version: u32,
    /// Optional git SHA recorded in the header.
    pub git_sha: Option<Vec<u8>>,
    /// Optional parent run identifier, present iff this container is a fork.
    pub parent_run_id: Option<Vec<u8>>,
    /// Optional fork step, present iff this container is a fork.
    pub fork_at_step: Option<u32>,
    /// The footer index, in append order.
    pub index: Vec<IndexEntry>,
    /// Absolute byte offset at which the footer index begins.
    pub index_offset: u64,
}

impl GhostlineReader {
    /// The container image this reader was opened on.
    pub open spec fn spec_data(self) -> Seq<u8> {
        self.data@
    }

    /// The index entries, in append order.
    pub open spec fn spec_entries(self) -> Seq<IndexEntryView> {
        Seq::new(self.index@.len(), |i: int| self.index@[i]@)
    }

    /// The header recovered from the image.
    pub open spec fn spec_header(self) -> HeaderView {
        HeaderView {
            started_at: self.started_at,
            git_sha: match self.git_sha {
                Some(g) => Some(g@),
                None => None,
            },
            parent_run_id: match self.parent_run_id {
                Some(p) => Some(p@),
                None => None,
            },
            fork_at_step: self.fork_at_step,
        }
    }

    /// The reader's invariant: its fields are exactly what `spec_open`
    /// recovers from its image.
    pub open spec fn wf(self) -> bool {
        &&& spec_open(self.data@) matches Ok(rv) && {
            &&& rv.header == self.spec_header()
            &&& rv.index_offset == self.index_offset
            &&& rv.entries == self.spec_entries()
            &&& self.version == FORMAT_VERSION
        }
    }

    /// Parse a container image. Consumes the byte vector; the reader serves
    /// all later reads from it.
    #[verifier::loop_isolation(false)]
    pub fn from_bytes(data: Vec<u8>) -> (r: Result<GhostlineReader, GhostError>)
        ensures
            match r {
                Ok(reader) => {
                    &&& reader.wf()
                    &&& reader.spec_data() == data@
                    &&& spec_open(data@) matches Ok(rv) && {
                        &&& rv.header == reader.spec_header()
                        &&& rv.entries == reader.spec_entries()
                        &&& reader.version == FORMAT_VERSION
                    }
                },
                Err(e) => spec_open(data@) == Err::<ReaderView, GhostError>(e),
            },
    {
        let n = data.len();
        if n < 8 {
            return Err(GhostError::Malformed);
        }
        let m = magic_check(data.as_slice());
        if !m {
            return Err(GhostError::BadMagic);
        }
        if n < 12 {
            return Err(GhostError::Malformed);
        }
        let version = read_u32_le(data.as_slice(), 8);
        if version != FORMAT_VERSION {
            return Err(GhostError::UnsupportedVersion);
        }
        if n < 21 {
            return Err(GhostError::Malformed);
        }
        let started_at = read_u64_le(data.as_slice(), 12);
        let gflag = *vstd::slice::slice_index_get(data.as_slice(), 20);
        if gflag != 0 && gflag != 1 {
            return Err(GhostError::Malformed);
        }
        if gflag == 1 && n < 41 {
            return Err(GhostError::Malformed);
        }
        let git_sha: Option<Vec<u8>> = if gflag == 1 {
            Some(read_bytes(data.as_slice(), 21, 20))
        } else {
            None
        };
        let p: usize = if gflag == 1 {
            41
        } else {
            21
        };
        if n < p + 1 {
            return Err(GhostError::Malformed);
        }
        let pflag = *vstd::slice::slice_index_get(data.as_slice(), p);
        if pflag == 1 && n < p + 33 {
            return Err(GhostError::Malformed);
        }
        let parent_run_id: Option<Vec<u8>> = if pflag == 1 {
            Some(read_bytes(data.as_slice(), p + 1, 32))
        } else {
            None
        };
        let q: usize = if pflag == 1 {
            p + 33
        } else {
            p + 1
        };
        if n < q + 1 {
            return Err(GhostError::Malformed);
        }
        let qflag = *vstd::slice::slice_index_get(data.as_slice(), q);
        if qflag == 1 && n < q + 5 {
            return Err(GhostError::Malformed);
        }
        let fork_at_step: Option<u32> = if qflag == 1 {
            Some(read_u32_le(data.as_slice(), q + 1))
        } else {
            None
        };
        let header_end: usize = if qflag == 1 {
            q + 5
        } else {
            q + 1
        };
        if n < header_end + 12 {
            return Err(GhostError::Malformed);
        }
        let index_offset = read_u64_le(data.as_slice(), n - 8);
        let count32 = read_u32_le(data.as_slice(), n - 12);
        let count = count32 as usize;
        if index_offset < header_end as u64 {
            return Err(GhostError::Malformed);
        }
        if index_offset > (n as u64) - 12 {
            return Err(GhostError::Malformed);
        }
        if (40u64 * (count32 as u64)) > (n as u64) - 12 - index_offset {
            return Err(GhostError::Malformed);
        }
        let io = index_offset as usize;
        let ghost entries = spec_entries_at(data@, io as int, count as int);
        let mut index: Vec<IndexEntry> = Vec::new();
        let mut i: usize = 0;
        while i < count
            invariant
                i <= count,
                40 * count <= n - 12 - io,
                io + 40 * count <= n - 12,
                header_end <= io,
                index_offset == io as u64,
                n == data@.len(),
                index@.len() == i,
                entries == spec_entries_at(data@, io as int, count as int),
                forall|j: int| 0 <= j < i ==> #[trigger] index@[j]@ == entries[j],
                forall|j: int| 0 <= j < i ==> header_end <= ((#[trigger] entries[j]).offset as int)
                    < (io as int),
            decreases count - i,
        {
            let pos = io + 40 * i;
            proof {
                assert(40 * (i as int) + 40 <= 40 * (count as int)) by (nonlinear_arith)
                    requires i < count;
            }
            let hash = read_bytes(data.as_slice(), pos, 32);
            let offset = read_u64_le(data.as_slice(), pos + 32);
            proof {
                assert(entries[i as int].request_hash =~= data@.subrange(
                    pos as int,
                    pos + 32,
                ));
                assert(entries[i as int].offset == offset);
            }
            if offset < header_end as u64 || offset >= index_offset {
                proof {
                    assert(!(header_end <= ((entries[i as int]).offset as int) < (io as int)));
                }
                return Err(GhostError::Malformed);
            }
            index.push(IndexEntry { request_hash: hash, offset });
            proof {
                assert(index@[i as int]@ =~= entries[i as int]);
            }
            i += 1;
        }
        let reader = GhostlineReader {
            data,
            started_at,
            version,
            git_sha,
            parent_run_id,
            fork_at_step,
            index,
            index_offset,
        };
        proof {
            let s = reader.data@;
            let rv = spec_open(s) ->Ok_0;
            assert(spec_open(s) is Ok);
            assert(reader.spec_entries() =~= entries);
            assert(rv.entries == entries);
            assert(rv.header =~= reader.spec_header());
        }
        Ok(reader)
    }

    /// Number of frames in the container.
    pub fn frame_count(&self) -> (c: usize)
        ensures
            c == self.spec_entries().len(),
    {
        self.index.len()
    }

    /// Access raw index entries, in append order.
    pub fn index_entries(&self) -> (r: &Vec<IndexEntry>)
        ensures
            r@.len() == self.spec_entries().len(),
            forall|i: int| 0 <= i < r@.len() ==> #[trigger] r@[i]@ == self.spec_entries()[i],
    {
        &self.index
    }

    /// Read, decompress and decode the frame at index `i`.
    pub fn get_frame(&self, i: usize) -> (r: Result<Frame, GhostError>)
        requires
            self.wf(),
        ensures
            i >= self.spec_entries().len() ==> r == Err::<Frame, GhostError>(
                GhostError::OutOfRange,
            ),
            i < self.spec_entries().len() ==> match r {
                Ok(f) => spec_frame_at(self.spec_data(), self.spec_entries()[i as int].offset as int)
                    == Some(f@) && f@.wf(),
                Err(e) => spec_frame_at(
                    self.spec_data(),
                    self.spec_entries()[i as int].offset as int,
                ) is None && e == GhostError::MalformedFrame,
            },
    {
        let n = self.data.len();
        if i >= self.index.len() {
            return Err(GhostError::OutOfRange);
        }
        let off64 = self.index[i].offset;
        proof {
            assert(self.spec_entries()[i as int].offset == off64);
            let rv = spec_open(self.data@) ->Ok_0;
            assert((rv.entries[i as int].offset as int) < (rv.index_offset as int));
            assert(rv.index_offset as int + 36 * rv.entries.len() <= self.data@.len() - 12);
            assert(36 * rv.entries.len() >= 0) by (nonlinear_arith)
                requires rv.entries.len() >= 0;
        }
        let off = off64 as usize;
        if n - off < 4 {
            return Err(GhostError::MalformedFrame);
        }
        let clen32 = read_u32_le(self.data.as_slice(), off);
        let clen = clen32 as usize;
        if (clen32 as u64) > ((n - (off + 4)) as u64) {
            return Err(GhostError::MalformedFrame);
        }
        let comp = vstd::slice::slice_subrange(self.data.as_slice(), off + 4, off + 4 + clen);
        let dec = match zstd_decompress(comp, MAX_FRAME_DECOMPRESSED) {
            Ok(d) => d,
            Err(_) => { return Err(GhostError::MalformedFrame) },
        };
        match Frame::from_msgpack(dec.as_slice()) {
            Ok(f) => {
                proof {
                    crate::frame::lemma_parse_frame_wf(dec@);
                }
                Ok(f)
            },
            Err(_) => Err(GhostError::MalformedFrame),
        }
    }

    /// Find the first frame in append order whose request hash equals
    /// `hash`, and read it.
    pub fn lookup_by_hash(&self, hash: &[u8]) -> (r: Result<Option<Frame>, GhostError>)
        requires
            self.wf(),
        ensures
            match spec_find_hash(self.spec_entries(), hash@, 0) {
                None => r == Ok::<Option<Frame>, GhostError>(None),
                Some(j) => match r {
                    Ok(Some(f)) => spec_frame_at(
                        self.spec_data(),
                        self.spec_entries()[j].offset as int,
                    ) == Some(f@),
                    Ok(None) => false,
                    Err(e) => spec_frame_at(self.spec_data(), self.spec_entries()[j].offset as int)
                        is None && e == GhostError::MalformedFrame,
                },
            },
    {
        let count = self.index.len();
        let mut i: usize = 0;
        while i < count
            invariant
                self.wf(),
                i <= count,
                count == self.spec_entries().len(),
                forall|k: int| 0 <= k < i ==> (#[trigger] self.spec_entries()[k]).request_hash
                    != hash@,
            decreases count - i,
        {
            let eq = bytes_eq(self.index[i].request_hash.as_slice(), hash);
            if eq {
                proof {
                    lemma_find_hash_skip(self.spec_entries(), hash@, i as int);
                }
                let got = self.get_frame(i);
                return match got {
                    Ok(f) => Ok(Some(f)),
                    Err(e) => Err(e),
                };
            }
            proof {
                assert(self.spec_entries()[i as int].request_hash == self.index@[i as int]@
                    .request_hash);
            }
            i += 1;
        }
        proof {
            lemma_find_hash_skip(self.spec_entries(), hash@, count as int);
        }
        Ok(None)
    }
}

/// True when the first eight bytes of `s` are the magic literal.
fn magic_check(s: &[u8]) -> (r: bool)
    requires
        s@.len() >= 8,
    ensures
        r == (s@.subrange(0, 8) == spec_magic()),
{
    let m = crate::container::magic();
    let r = bytes_eq(vstd::slice::slice_subrange(s, 0, 8), m.as_slice());
    r
}

} // verus!
