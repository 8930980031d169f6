use crate::digest::sha256_of;
use crate::frame::{Frame, FrameView};
use crate::writer::GhostlineWriter;
use crate::GhostError;
use vstd::prelude::*;
use vstd::string::StringExecFns;

verus! {

// The recording proxy's decisions, apart from the container itself: which
// request headers travel upstream, which response headers travel back, and
// how a captured exchange becomes a frame.

/// Request headers the proxy never forwards: `host` is recomputed and
/// `connection` / `transfer-encoding` are hop-by-hop.
pub open spec fn spec_dropped_on_forward(name: Seq<char>) -> bool {
    name == "host"@ || name == "connection"@ || name == "transfer-encoding"@
}

/// Response headers the proxy never relays back.
pub open spec fn spec_dropped_on_relay(name: Seq<char>) -> bool {
    name == "connection"@ || name == "transfer-encoding"@
}

/// The headers kept by a filter: order preserved, pairs untouched.
pub open spec fn spec_kept(hs: Seq<(String, String)>, dropped: spec_fn(Seq<char>) -> bool) -> Seq<
    (String, String),
>
    decreases hs.len(),
{
    if hs.len() == 0 {
        Seq::empty()
    } else {
        let pre = spec_kept(hs.drop_last(), dropped);
        if dropped(hs.last().0@) {
            pre
        } else {
            pre.push(hs.last())
        }
    }
}

/// The request headers an exchange forwards upstream, in order.
pub fn headers_to_forward(headers: &Vec<(String, String)>) -> (r: Vec<(String, String)>)
    ensures
        r@ == spec_kept(headers@, |name: Seq<char>| spec_dropped_on_forward(name)),
{
    filter_headers(headers, true)
}

/// The response headers relayed back to the client, in order, with the
/// proxy's marker header appended.
pub fn headers_to_relay(headers: &Vec<(String, String)>) -> (r: Vec<(String, String)>)
    ensures
        r@.len() > 0,
        r@.drop_last() == spec_kept(headers@, |name: Seq<char>| spec_dropped_on_relay(name)),
        r@.last().0@ == "x-ghostline-proxy"@,
        r@.last().1@ == "true"@,
{
    let mut r = filter_headers(headers, false);
    let marker = (String::from_str("x-ghostline-proxy"), String::from_str("true"));
    r.push(marker);
    proof {
        assert(r@.drop_last() =~= spec_kept(
            headers@,
            |name: Seq<char>| spec_dropped_on_relay(name),
        ));
    }
    r
}

/// Keeps the headers a filter admits, copying each pair.
fn filter_headers(headers: &Vec<(String, String)>, forward: bool) -> (r: Vec<(String, String)>)
    ensures
        forward ==> r@ == spec_kept(headers@, |name: Seq<char>| spec_dropped_on_forward(name)),
        !forward ==> r@ == spec_kept(headers@, |name: Seq<char>| spec_dropped_on_relay(name)),
{
    let ghost dropped: spec_fn(Seq<char>) -> bool = if forward {
        |name: Seq<char>| spec_dropped_on_forward(name)
    } else {
        |name: Seq<char>| spec_dropped_on_relay(name)
    };
    let host = String::from_str("host");
    let connection = String::from_str("connection");
    let transfer_encoding = String::from_str("transfer-encoding");
    let n = headers.len();
    let mut r: Vec<(String, String)> = Vec::new();
    let mut i: usize = 0;
    while i < n
        invariant
            i <= n,
            n == headers@.len(),
            host@ == "host"@,
            connection@ == "connection"@,
            transfer_encoding@ == "transfer-encoding"@,
            dropped == (if forward {
                |name: Seq<char>| spec_dropped_on_forward(name)
            } else {
                |name: Seq<char>| spec_dropped_on_relay(name)
            }),
            r@ == spec_kept(headers@.take(i as int), dropped),
        decreases n - i,
    {
        let name_matches_host = forward && headers[i].0 == host;
        let drop_this = name_matches_host || headers[i].0 == connection || headers[i].0
            == transfer_encoding;
        proof {
            assert(headers@.take(i + 1).drop_last() =~= headers@.take(i as int));
            assert(headers@.take(i + 1).last() == headers@[i as int]);
            assert(drop_this == dropped(headers@[i as int].0@));
        }
        if !drop_this {
            let pair = (headers[i].0.clone(), headers[i].1.clone());
            proof {
                assert(pair == headers@[i as int]);
            }
            r.push(pair);
        }
        i += 1;
    }
    proof {
        assert(headers@.take(n as int) =~= headers@);
    }
    r
}

/// Record one captured exchange: build the frame from the raw bodies and
/// append it. On error the container is unchanged and the exchange is lost,
/// never half-written.
pub fn record_exchange(
    writer: &mut GhostlineWriter,
    request_body: Vec<u8>,
    response_body: Vec<u8>,
    latency_ms: u64,
    timestamp: u64,
) -> (r: Result<(), GhostError>)
    requires
        old(writer).wf(),
        request_body@.len() < 0x1_0000_0000,
        response_body@.len() < 0x1_0000_0000,
    ensures
        final(writer).wf(),
        final(writer).spec_header() == old(writer).spec_header(),
        match r {
            Ok(()) => final(writer).spec_frames() == old(writer).spec_frames().push(
                FrameView {
                    request_hash: sha256_of(request_body@),
                    request_bytes: request_body@,
                    response_bytes: response_body@,
                    latency_ms,
                    timestamp,
                },
            ),
            Err(e) => final(writer).spec_frames() == old(writer).spec_frames() && e
                == GhostError::IOError,
        },
{
    let frame = Frame::new(request_body, response_body, latency_ms, timestamp);
    writer.append(&frame)
}

} // verus!
