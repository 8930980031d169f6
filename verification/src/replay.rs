use crate::digest::{hex_encode, sha256_of, spec_hex_of};
use crate::fork::spec_source_frame;
use crate::frame::{Frame, FrameView};
use crate::numfmt::{spec_dec_of, u64_to_string};
use crate::reader::{spec_frame_at, GhostlineReader};
use crate::wire::bytes_eq;
use crate::GhostError;
use vstd::prelude::*;
use vstd::string::StringExecFns;

verus! {

/// The mathematical content of a sequence of frames.
pub open spec fn frame_views(frames: Seq<Frame>) -> Seq<FrameView> {
    Seq::new(frames.len(), |i: int| frames[i]@)
}

/// Whether some frame in the sequence carries `h` as its request hash.
pub open spec fn spec_has_hash(frames: Seq<FrameView>, h: Seq<u8>) -> bool {
    exists|i: int| 0 <= i < frames.len() && (#[trigger] frames[i]).request_hash == h
}

/// The least index at or after `from` whose frame carries `h`.
pub open spec fn spec_cache_find(frames: Seq<FrameView>, h: Seq<u8>, from: int) -> Option<int>
    recommends
        0 <= from,
    decreases frames.len() - from
        when 0 <= from <= frames.len()
{
    if from >= frames.len() {
        None
    } else if frames[from].request_hash == h {
        Some(from)
    } else {
        spec_cache_find(frames, h, from + 1)
    }
}

/// The frames with every repeated request hash dropped, keeping the
/// earliest occurrence of each, in order.
pub open spec fn spec_dedup(frames: Seq<FrameView>) -> Seq<FrameView>
    decreases frames.len(),
{
    if frames.len() == 0 {
        Seq::empty()
    } else {
        let pre = spec_dedup(frames.drop_last());
        if spec_has_hash(frames.drop_last(), frames.last().request_hash) {
            pre
        } else {
            pre.push(frames.last())
        }
    }
}

/// Pairwise-distinct request hashes.
pub open spec fn spec_distinct_hashes(frames: Seq<FrameView>) -> bool {
    forall|i: int, j: int| 0 <= i < j < frames.len() ==> (#[trigger] frames[i]).request_hash != (
    #[trigger] frames[j]).request_hash
}

/// What `spec_cache_find` returns: the first match, or nothing when no
/// frame matches.
pub proof fn lemma_cache_find_props(frames: Seq<FrameView>, h: Seq<u8>, from: int)
    requires
        0 <= from <= frames.len(),
    ensures
        match spec_cache_find(frames, h, from) {
            Some(j) => from <= j < frames.len() && frames[j].request_hash == h && forall|k: int|
                from <= k < j ==> (#[trigger] frames[k]).request_hash != h,
            None => forall|k: int| from <= k < frames.len() ==> (
            #[trigger] frames[k]).request_hash != h,
        },
    decreases frames.len() - from,
{
    if from < frames.len() && frames[from].request_hash != h {
        lemma_cache_find_props(frames, h, from + 1);
    }
}

/// A match at `j` with no earlier match is what the scan finds.
pub proof fn lemma_cache_find_unique(frames: Seq<FrameView>, h: Seq<u8>, j: int)
    requires
        0 <= j < frames.len(),
        frames[j].request_hash == h,
        forall|k: int| 0 <= k < j ==> (#[trigger] frames[k]).request_hash != h,
    ensures
        spec_cache_find(frames, h, 0) == Some(j),
    decreases j,
{
    lemma_cache_find_skip(frames, h, j);
}

/// Scanning from the start equals scanning from `i` when nothing before
/// `i` matches.
pub proof fn lemma_cache_find_skip(frames: Seq<FrameView>, h: Seq<u8>, i: int)
    requires
        0 <= i <= frames.len(),
        forall|k: int| 0 <= k < i ==> (#[trigger] frames[k]).request_hash != h,
    ensures
        spec_cache_find(frames, h, 0) == spec_cache_find(frames, h, i),
    decreases i,
{
    if i > 0 {
        lemma_cache_find_skip(frames, h, i - 1);
    }
}

/// Deduplication keeps exactly the hashes that were present.
pub proof fn lemma_dedup_hashes(frames: Seq<FrameView>, h: Seq<u8>)
    ensures
        spec_has_hash(spec_dedup(frames), h) == spec_has_hash(frames, h),
    decreases frames.len(),
{
    if frames.len() > 0 {
        let pre = frames.drop_last();
        let last = frames.last();
        lemma_dedup_hashes(pre, h);
        let dp = spec_dedup(pre);
        assert(spec_has_hash(frames, h) == (spec_has_hash(pre, h) || last.request_hash == h)) by {
            if spec_has_hash(pre, h) {
                let i = choose|i: int| 0 <= i < pre.len() && pre[i].request_hash == h;
                assert(frames[i].request_hash == h);
            }
            if last.request_hash == h {
                assert(frames[frames.len() - 1].request_hash == h);
            }
            if spec_has_hash(frames, h) {
                let i = choose|i: int|
                    0 <= i < frames.len() && (#[trigger] frames[i]).request_hash == h;
                if i < pre.len() {
                    assert(pre[i].request_hash == h);
                }
            }
        }
        if spec_has_hash(pre, last.request_hash) {
        } else {
            assert(spec_has_hash(dp.push(last), h) == (spec_has_hash(dp, h) || last.request_hash
                == h)) by {
                if spec_has_hash(dp, h) {
                    let i = choose|i: int| 0 <= i < dp.len() && dp[i].request_hash == h;
                    assert(dp.push(last)[i].request_hash == h);
                }
                if last.request_hash == h {
                    assert(dp.push(last)[dp.len() as int].request_hash == h);
                }
                if spec_has_hash(dp.push(last), h) {
                    let i = choose|i: int|
                        0 <= i < dp.push(last).len() && (#[trigger] dp.push(
                            last,
                        )[i]).request_hash == h;
                    if i < dp.len() {
                        assert(dp[i].request_hash == h);
                    }
                }
            }
        }
    }
}

/// Deduplicated frames carry pairwise-distinct hashes.
pub proof fn lemma_dedup_distinct(frames: Seq<FrameView>)
    ensures
        spec_distinct_hashes(spec_dedup(frames)),
    decreases frames.len(),
{
    if frames.len() > 0 {
        let pre = frames.drop_last();
        let last = frames.last();
        lemma_dedup_distinct(pre);
        let dp = spec_dedup(pre);
        if !spec_has_hash(pre, last.request_hash) {
            lemma_dedup_hashes(pre, last.request_hash);
            assert forall|i: int, j: int| 0 <= i < j < dp.push(last).len() implies (
            #[trigger] dp.push(last)[i]).request_hash != (#[trigger] dp.push(
                last,
            )[j]).request_hash by {
                if j < dp.len() {
                    assert(dp[i].request_hash != dp[j].request_hash);
                } else {
                    if dp[i].request_hash == last.request_hash {
                        assert(spec_has_hash(dp, last.request_hash));
                    }
                }
            }
        }
    }
}

/// The earliest frame with a given hash survives deduplication unchanged.
pub proof fn lemma_dedup_contains_first(frames: Seq<FrameView>, i: int)
    requires
        0 <= i < frames.len(),
        forall|k: int| 0 <= k < i ==> (#[trigger] frames[k]).request_hash
            != frames[i].request_hash,
    ensures
        exists|j: int| 0 <= j < spec_dedup(frames).len() && #[trigger] spec_dedup(frames)[j]
            == frames[i],
    decreases frames.len(),
{
    let pre = frames.drop_last();
    let last = frames.last();
    let dp = spec_dedup(pre);
    let d = spec_dedup(frames);
    if i < frames.len() - 1 {
        lemma_dedup_contains_first(pre, i);
        let j = choose|j: int| 0 <= j < dp.len() && #[trigger] dp[j] == pre[i];
        assert(pre[i] == frames[i]);
        if spec_has_hash(pre, last.request_hash) {
            assert(d == dp);
            assert(0 <= j < d.len() && d[j] == frames[i]);
        } else {
            assert(d == dp.push(last));
            assert(d[j] == dp[j]);
            assert(0 <= j < d.len() && d[j] == frames[i]);
        }
    } else {
        assert(!spec_has_hash(pre, last.request_hash)) by {
            if spec_has_hash(pre, last.request_hash) {
                let k = choose|k: int|
                    0 <= k < pre.len() && (#[trigger] pre[k]).request_hash == last.request_hash;
                assert(frames[k].request_hash == frames[i].request_hash);
            }
        }
        assert(d == dp.push(last));
        let j = dp.len() as int;
        assert(0 <= j < d.len() && d[j] == frames[i]);
    }
}

/// Replay determinism: for a request body that appears in the source
/// frames, the deduplicated cache finds exactly the earliest source frame
/// whose hash matches the body's digest — so a replay answers with that
/// frame's response, every time.
pub proof fn lemma_replay_determinism(srcs: Seq<FrameView>, b: Seq<u8>, i: int)
    requires
        0 <= i < srcs.len(),
        srcs[i].request_bytes == b,
        forall|j: int| 0 <= j < srcs.len() ==> (#[trigger] srcs[j]).hash_ok(),
    ensures
        spec_cache_find(srcs, sha256_of(b), 0) matches Some(fi) && spec_cache_find(
            spec_dedup(srcs),
            sha256_of(b),
            0,
        ) matches Some(j) && spec_dedup(srcs)[j] == srcs[fi],
{
    let h = sha256_of(b);
    assert(srcs[i].request_hash == h);
    lemma_cache_find_props(srcs, h, 0);
    assert(spec_cache_find(srcs, h, 0) is Some) by {
        if spec_cache_find(srcs, h, 0) is None {
            assert(srcs[i].request_hash != h);
        }
    }
    let fi = spec_cache_find(srcs, h, 0)->Some_0;
    lemma_dedup_contains_first(srcs, fi);
    let d = spec_dedup(srcs);
    let j = choose|j: int| 0 <= j < d.len() && #[trigger] d[j] == srcs[fi];
    lemma_dedup_distinct(srcs);
    assert forall|k: int| 0 <= k < j implies (#[trigger] d[k]).request_hash != h by {
        assert(d[k].request_hash != d[j].request_hash);
    }
    lemma_cache_find_unique(d, h, j);
}

/// What a replay answers for one request body.
pub enum ReplayResponse {
    /// A cached frame matched: its response body and recorded latency.
    Hit { response_bytes: Vec<u8>, latency_ms: u64 },
    /// No cached frame matched: the body's digest, in hexadecimal.
    Miss { request_hash_hex: String },
}

/// Pre-loaded frame cache keyed by request hash, with hit and miss
/// counters. Duplicate hashes keep the earliest-appended frame.
pub struct ReplayCache {
    pub frames: Vec<Frame>,
    pub hits: u64,
    pub misses: u64,
}

impl ReplayCache {
    /// The cached frames, in append order.
    pub open spec fn views(self) -> Seq<FrameView> {
        frame_views(self.frames@)
    }

    /// Find the cached frame whose request hash equals `hash`, counting the
    /// outcome. The cached frames themselves never change.
    pub fn lookup(&mut self, hash: &[u8]) -> (r: Option<Frame>)
        ensures
            final(self).frames == old(self).frames,
            match spec_cache_find(old(self).views(), hash@, 0) {
                Some(j) => {
                    &&& r matches Some(f) && f@ == old(self).views()[j]
                    &&& final(self).hits == (if old(self).hits < u64::MAX {
                        old(self).hits + 1
                    } else {
                        old(self).hits as int
                    })
                    &&& final(self).misses == old(self).misses
                },
                None => {
                    &&& r is None
                    &&& final(self).misses == (if old(self).misses < u64::MAX {
                        old(self).misses + 1
                    } else {
                        old(self).misses as int
                    })
                    &&& final(self).hits == old(self).hits
                },
            },
    {
        let n = self.frames.len();
        let mut i: usize = 0;
        while i < n
            invariant
                i <= n,
                n == self.frames@.len(),
                self.frames == old(self).frames,
                self.hits == old(self).hits,
                self.misses == old(self).misses,
                forall|k: int| 0 <= k < i ==> (#[trigger] self.views()[k]).request_hash != hash@,
            decreases n - i,
        {
            let matched = bytes_eq(self.frames[i].request_hash.as_slice(), hash);
            if matched {
                proof {
                    lemma_cache_find_skip(self.views(), hash@, i as int);
                }
                let f = self.frames[i].duplicate();
                if self.hits < u64::MAX {
                    self.hits = self.hits + 1;
                }
                return Some(f);
            }
            i += 1;
        }
        proof {
            lemma_cache_find_skip(self.views(), hash@, n as int);
        }
        if self.misses < u64::MAX {
            self.misses = self.misses + 1;
        }
        None
    }

    /// Serve one request body: hash it, look it up, and shape the answer.
    /// A miss only counts; it never changes the cached frames.
    pub fn respond(&mut self, body: &[u8]) -> (r: ReplayResponse)
        ensures
            final(self).frames == old(self).frames,
            match spec_cache_find(old(self).views(), sha256_of(body@), 0) {
                Some(j) => {
                    &&& r matches ReplayResponse::Hit { response_bytes, latency_ms }
                        && response_bytes@ == old(self).views()[j].response_bytes && latency_ms
                        == old(self).views()[j].latency_ms
                    &&& final(self).hits == (if old(self).hits < u64::MAX {
                        old(self).hits + 1
                    } else {
                        old(self).hits as int
                    })
                    &&& final(self).misses == old(self).misses
                },
                None => {
                    &&& r matches ReplayResponse::Miss { request_hash_hex }
                        && request_hash_hex@ == spec_hex_of(sha256_of(body@))
                    &&& final(self).misses == (if old(self).misses < u64::MAX {
                        old(self).misses + 1
                    } else {
                        old(self).misses as int
                    })
                    &&& final(self).hits == old(self).hits
                },
            },
    {
        let hash = Frame::hash_request(body);
        match self.lookup(hash.as_slice()) {
            Some(f) => ReplayResponse::Hit {
                response_bytes: f.response_bytes,
                latency_ms: f.latency_ms,
            },
            None => ReplayResponse::Miss { request_hash_hex: hex_encode(hash.as_slice()) },
        }
    }
}

/// Load every frame of a container into a fresh cache, keeping the
/// earliest frame for each request hash.
pub fn load_cache(reader: &GhostlineReader) -> (r: Result<ReplayCache, GhostError>)
    requires
        reader.wf(),
    ensures
        match r {
            Ok(cache) => {
                &&& cache.views() == spec_dedup(spec_reader_frames(*reader))
                &&& cache.hits == 0
                &&& cache.misses == 0
                &&& forall|i: int| 0 <= i < reader.spec_entries().len() ==> spec_frame_at(
                    reader.spec_data(),
                    (#[trigger] reader.spec_entries()[i]).offset as int,
                ) is Some
            },
            Err(e) => e == GhostError::MalformedFrame && exists|i: int| 0 <= i
                < reader.spec_entries().len() && spec_frame_at(
                reader.spec_data(),
                (#[trigger] reader.spec_entries()[i]).offset as int,
            ) is None,
        },
{
    let count = reader.frame_count();
    let ghost srcs = spec_reader_frames(*reader);
    let mut frames: Vec<Frame> = Vec::new();
    let mut i: usize = 0;
    while i < count
        invariant
            reader.wf(),
            i <= count,
            count == reader.spec_entries().len(),
            srcs == spec_reader_frames(*reader),
            srcs.len() == count,
            frame_views(frames@) == spec_dedup(srcs.take(i as int)),
            forall|j: int| 0 <= j < i ==> spec_frame_at(
                reader.spec_data(),
                (#[trigger] reader.spec_entries()[j]).offset as int,
            ) is Some,
            forall|j: int| 0 <= j < i ==> #[trigger] srcs.take(i as int)[j] == srcs[j],
        decreases count - i,
    {
        let frame = match reader.get_frame(i) {
            Ok(f) => f,
            Err(_) => { return Err(GhostError::MalformedFrame) },
        };
        proof {
            assert(frame@ == srcs[i as int]);
        }
        let mut present = false;
        let m = frames.len();
        let mut j: usize = 0;
        while j < m
            invariant
                j <= m,
                m == frames@.len(),
                present == spec_has_hash(frame_views(frames@).take(j as int), frame@.request_hash),
            decreases m - j,
        {
            let eq = bytes_eq(frames[j].request_hash.as_slice(), frame.request_hash.as_slice());
            proof {
                if eq {
                    assert(frame_views(frames@).take(j + 1)[j as int].request_hash
                        == frame@.request_hash);
                } else {
                    if spec_has_hash(frame_views(frames@).take(j + 1), frame@.request_hash) {
                        let w = choose|w: int|
                            0 <= w < j + 1 && (#[trigger] frame_views(frames@).take(
                                j + 1,
                            )[w]).request_hash == frame@.request_hash;
                        if w < j {
                            assert(frame_views(frames@).take(j as int)[w].request_hash
                                == frame@.request_hash);
                        }
                    }
                    if spec_has_hash(frame_views(frames@).take(j as int), frame@.request_hash) {
                        let w = choose|w: int|
                            0 <= w < j && (#[trigger] frame_views(frames@).take(
                                j as int,
                            )[w]).request_hash == frame@.request_hash;
                        assert(frame_views(frames@).take(j + 1)[w].request_hash
                            == frame@.request_hash);
                    }
                }
            }
            if eq {
                present = true;
            }
            j += 1;
        }
        proof {
            assert(frame_views(frames@).take(m as int) =~= frame_views(frames@));
            lemma_dedup_hashes(srcs.take(i as int), frame@.request_hash);
            assert(srcs.take(i + 1).drop_last() =~= srcs.take(i as int));
            assert(srcs.take(i + 1).last() == srcs[i as int]);
        }
        if !present {
            frames.push(frame);
            proof {
                assert(frame_views(frames@) =~= spec_dedup(srcs.take(i + 1)));
            }
        } else {
            proof {
                assert(frame_views(frames@) =~= spec_dedup(srcs.take(i + 1)));
            }
        }
        i += 1;
    }
    proof {
        assert(srcs.take(count as int) =~= srcs);
    }
    Ok(ReplayCache { frames, hits: 0, misses: 0 })
}

/// The frames a container's index points at, in append order.
pub open spec fn spec_reader_frames(reader: GhostlineReader) -> Seq<FrameView> {
    Seq::new(
        reader.spec_entries().len(),
        |i: int| spec_source_frame(reader.spec_data(), reader.spec_entries(), i),
    )
}

/// The JSON body a replay returns on a miss.
pub fn miss_body(request_hash_hex: &str) -> (r: String)
    ensures
        r@ == "{\"error\":\"no cached response for this request\",\"request_hash\":\""@
            + request_hash_hex@ + "\"}"@,
{
    let s = String::from_str("{\"error\":\"no cached response for this request\",\"request_hash\":\"");
    let s = s.concat(request_hash_hex);
    let s = s.concat("\"}");
    proof {
        assert(s@ =~= "{\"error\":\"no cached response for this request\",\"request_hash\":\""@
            + request_hash_hex@ + "\"}"@);
    }
    s
}

/// The JSON body of the replay status endpoint.
pub fn status_body(cached_frames: u64, hits: u64, misses: u64) -> (r: String)
    ensures
        r@ == "{\"ok\":true,\"cached_frames\":"@ + spec_dec_of(cached_frames as int)
            + ",\"hits\":"@ + spec_dec_of(hits as int) + ",\"misses\":"@ + spec_dec_of(
            misses as int,
        ) + "}"@,
{
    let s = String::from_str("{\"ok\":true,\"cached_frames\":");
    let s = s.concat(u64_to_string(cached_frames).as_str());
    let s = s.concat(",\"hits\":");
    let s = s.concat(u64_to_string(hits).as_str());
    let s = s.concat(",\"misses\":");
    let s = s.concat(u64_to_string(misses).as_str());
    let s = s.concat("}");
    proof {
        assert(s@ =~= "{\"ok\":true,\"cached_frames\":"@ + spec_dec_of(cached_frames as int)
            + ",\"hits\":"@ + spec_dec_of(hits as int) + ",\"misses\":"@ + spec_dec_of(
            misses as int,
        ) + "}"@);
    }
    s
}

} // verus!
