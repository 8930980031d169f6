use crate::digest::{sha256, sha256_of};
use crate::msgpack::{
    lemma_parse_bin_enc, lemma_parse_uint_enc, parse_bin, parse_uint, push_bin, push_uint,
    spec_bin_enc, spec_parse_bin, spec_parse_uint, spec_uint_enc,
};
use crate::GhostError;
use vstd::prelude::*;

verus! {

/// The mathematical content of a frame: what a `Frame` stands for in every
/// contract of this crate.
#[verifier::ext_equal]
pub ghost struct FrameView {
    pub request_hash: Seq<u8>,
    pub request_bytes: Seq<u8>,
    pub response_bytes: Seq<u8>,
    pub latency_ms: u64,
    pub timestamp: u64,
}

impl FrameView {
    /// Structural soundness: a 32-byte hash, and byte fields the frame
    /// encoding can represent (MessagePack bin items carry at most
    /// 2^32 - 1 bytes).
    pub open spec fn wf(self) -> bool {
        &&& self.request_hash.len() == 32
        &&& self.request_bytes.len() < 0x1_0000_0000
        &&& self.response_bytes.len() < 0x1_0000_0000
    }

    /// The hash field really is the SHA-256 digest of the request bytes.
    pub open spec fn hash_ok(self) -> bool {
        self.request_hash == sha256_of(self.request_bytes)
    }
}

/// A single captured request/response pair.
#[derive(Debug)]
pub struct Frame {
    /// SHA-256 hash of the raw request body bytes (32 bytes).
    pub request_hash: Vec<u8>,
    /// Raw request body as received by the proxy.
    pub request_bytes: Vec<u8>,
    /// Raw response body as produced upstream.
    pub response_bytes: Vec<u8>,
    /// Round-trip latency in milliseconds.
    pub latency_ms: u64,
    /// Unix timestamp (milliseconds) when the frame was captured.
    pub timestamp: u64,
}

impl View for Frame {
    type V = FrameView;

    open spec fn view(&self) -> FrameView {
        FrameView {
            request_hash: self.request_hash@,
            request_bytes: self.request_bytes@,
            response_bytes: self.response_bytes@,
            latency_ms: self.latency_ms,
            timestamp: self.timestamp,
        }
    }
}

/// The MessagePack encoding of a frame: a five-element array of the fields in
/// declared order — hash, request, response, latency, timestamp.
pub open spec fn spec_frame_enc(f: FrameView) -> Seq<u8>
    recommends
        f.wf(),
{
    seq![0x95u8] + spec_bin_enc(f.request_hash) + spec_bin_enc(f.request_bytes) + spec_bin_enc(
        f.response_bytes,
    ) + spec_uint_enc(f.latency_ms) + spec_uint_enc(f.timestamp)
}

/// Parses a complete frame encoding: exactly one five-element array holding
/// three byte fields (the first 32 bytes long) and two unsigned integers,
/// with nothing left over.
pub open spec fn spec_parse_frame(s: Seq<u8>) -> Option<FrameView> {
    if s.len() > 0 && s[0] == 0x95 {
        match spec_parse_bin(s, 1) {
            Some((hash, i1)) => match spec_parse_bin(s, i1) {
                Some((req, i2)) => match spec_parse_bin(s, i2) {
                    Some((resp, i3)) => match spec_parse_uint(s, i3) {
                        Some((lat, i4)) => match spec_parse_uint(s, i4) {
                            Some((ts, i5)) => {
                                if i5 == s.len() && hash.len() == 32 {
                                    Some(
                                        FrameView {
                                            request_hash: hash,
                                            request_bytes: req,
                                            response_bytes: resp,
                                            latency_ms: lat,
                                            timestamp: ts,
                                        },
                                    )
                                } else {
                                    None
                                }
                            },
                            None => None,
                        },
                        None => None,
                    },
                    None => None,
                },
                None => None,
            },
            None => None,
        }
    } else {
        None
    }
}

impl Frame {
    /// Create a new frame, computing the request hash from the request bytes.
    pub fn new(request_bytes: Vec<u8>, response_bytes: Vec<u8>, latency_ms: u64, timestamp: u64)
        -> (f: Frame)
        ensures
            f@ == (FrameView {
                request_hash: sha256_of(request_bytes@),
                request_bytes: request_bytes@,
                response_bytes: response_bytes@,
                latency_ms,
                timestamp,
            }),
            f@.request_hash.len() == 32,
            f@.hash_ok(),
    {
        let request_hash = Self::hash_request(request_bytes.as_slice());
        Frame { request_hash, request_bytes, response_bytes, latency_ms, timestamp }
    }

    /// Compute the SHA-256 hash of raw request bytes.
    pub fn hash_request(data: &[u8]) -> (r: Vec<u8>)
        ensures
            r@ == sha256_of(data@),
            r@.len() == 32,
    {
        sha256(data)
    }

    /// A field-wise copy of this frame.
    pub fn duplicate(&self) -> (f: Frame)
        ensures
            f@ == self@,
    {
        let f = Frame {
            request_hash: crate::wire::read_bytes(self.request_hash.as_slice(), 0,
                self.request_hash.len()),
            request_bytes: crate::wire::read_bytes(self.request_bytes.as_slice(), 0,
                self.request_bytes.len()),
            response_bytes: crate::wire::read_bytes(self.response_bytes.as_slice(), 0,
                self.response_bytes.len()),
            latency_ms: self.latency_ms,
            timestamp: self.timestamp,
        };
        proof {
            assert(f@.request_hash =~= self@.request_hash);
            assert(f@.request_bytes =~= self@.request_bytes);
            assert(f@.response_bytes =~= self@.response_bytes);
            assert(f@ =~= self@);
        }
        f
    }

    /// Serialize this frame to MessagePack bytes.
    pub fn to_msgpack(&self) -> (out: Vec<u8>)
        requires
            self@.wf(),
        ensures
            out@ == spec_frame_enc(self@),
    {
        let mut out: Vec<u8> = Vec::new();
        out.push(0x95);
        push_bin(&mut out, self.request_hash.as_slice());
        push_bin(&mut out, self.request_bytes.as_slice());
        push_bin(&mut out, self.response_bytes.as_slice());
        push_uint(&mut out, self.latency_ms);
        push_uint(&mut out, self.timestamp);
        proof {
            assert(out@ =~= spec_frame_enc(self@));
        }
        out
    }

    /// Deserialize a frame from MessagePack bytes.
    pub fn from_msgpack(data: &[u8]) -> (r: Result<Frame, GhostError>)
        ensures
            match r {
                Ok(f) => spec_parse_frame(data@) == Some(f@),
                Err(e) => spec_parse_frame(data@) is None && e == GhostError::MalformedFrame,
            },
    {
        let n = data.len();
        if n == 0 || *vstd::slice::slice_index_get(data, 0) != 0x95 {
            return Err(GhostError::MalformedFrame);
        }
        let (request_hash, i1) = match parse_bin(data, 1) {
            Some(p) => p,
            None => { return Err(GhostError::MalformedFrame) },
        };
        let (request_bytes, i2) = match parse_bin(data, i1) {
            Some(p) => p,
            None => { return Err(GhostError::MalformedFrame) },
        };
        let (response_bytes, i3) = match parse_bin(data, i2) {
            Some(p) => p,
            None => { return Err(GhostError::MalformedFrame) },
        };
        let (latency_ms, i4) = match parse_uint(data, i3) {
            Some(p) => p,
            None => { return Err(GhostError::MalformedFrame) },
        };
        let (timestamp, i5) = match parse_uint(data, i4) {
            Some(p) => p,
            None => { return Err(GhostError::MalformedFrame) },
        };
        if i5 != n || request_hash.len() != 32 {
            return Err(GhostError::MalformedFrame);
        }
        Ok(Frame { request_hash, request_bytes, response_bytes, latency_ms, timestamp })
    }
}

/// A frame parsed from fewer than 2^32 bytes is well-formed: its hash is 32
/// bytes and its byte fields fit the encoding's length fields.
pub proof fn lemma_parse_frame_wf(s: Seq<u8>)
    requires
        spec_parse_frame(s) is Some,
        s.len() < 0x1_0000_0000,
    ensures
        spec_parse_frame(s)->Some_0.wf(),
{
}

/// Every well-formed frame survives the codec unchanged: parsing its encoding
/// yields the frame itself, field for field.
pub proof fn lemma_frame_round_trip(f: FrameView)
    requires
        f.wf(),
    ensures
        spec_parse_frame(spec_frame_enc(f)) == Some(f),
{
    let s = spec_frame_enc(f);
    let a = spec_bin_enc(f.request_hash);
    let b = spec_bin_enc(f.request_bytes);
    let c = spec_bin_enc(f.response_bytes);
    let d = spec_uint_enc(f.latency_ms);
    let e = spec_uint_enc(f.timestamp);
    let i1 = 1 + a.len() as int;
    let i2 = i1 + b.len() as int;
    let i3 = i2 + c.len() as int;
    let i4 = i3 + d.len() as int;
    let i5 = i4 + e.len() as int;
    assert(s.len() == i5);
    assert(s[0] == 0x95);
    assert(s.subrange(1, i1) =~= a);
    lemma_parse_bin_enc(s, 1, f.request_hash);
    assert(s.subrange(i1, i2) =~= b);
    lemma_parse_bin_enc(s, i1, f.request_bytes);
    assert(s.subrange(i2, i3) =~= c);
    lemma_parse_bin_enc(s, i2, f.response_bytes);
    assert(s.subrange(i3, i4) =~= d);
    lemma_parse_uint_enc(s, i3, f.latency_ms);
    assert(s.subrange(i4, i5) =~= e);
    lemma_parse_uint_enc(s, i4, f.timestamp);
    assert(spec_parse_frame(s) == Some(f));
}

} // verus!
