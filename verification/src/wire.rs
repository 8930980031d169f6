use vstd::bytes::{
    spec_u32_to_le_bytes, spec_u64_to_le_bytes, u32_from_le_bytes, u32_to_le_bytes,
    u64_from_le_bytes, u64_to_le_bytes,
};
use vstd::prelude::*;

verus! {

// The container layout is little-endian throughout; the helpers for that come
// from vstd::bytes. MessagePack stores its multi-byte integers big-endian, so
// the big-endian forms are defined here.

pub open spec fn spec_u16_to_be_bytes(x: u16) -> Seq<u8> {
    seq![((x >> 8) & 0xff) as u8, (x & 0xff) as u8]
}

pub open spec fn spec_u16_from_be_bytes(s: Seq<u8>) -> u16
    recommends
        s.len() == 2,
{
    ((s[0] as u16) << 8) | (s[1] as u16)
}

pub open spec fn spec_u32_to_be_bytes(x: u32) -> Seq<u8> {
    seq![
        ((x >> 24) & 0xff) as u8,
        ((x >> 16) & 0xff) as u8,
        ((x >> 8) & 0xff) as u8,
        (x & 0xff) as u8,
    ]
}

pub open spec fn spec_u32_from_be_bytes(s: Seq<u8>) -> u32
    recommends
        s.len() == 4,
{
    ((s[0] as u32) << 24) | ((s[1] as u32) << 16) | ((s[2] as u32) << 8) | (s[3] as u32)
}

pub open spec fn spec_u64_to_be_bytes(x: u64) -> Seq<u8> {
    seq![
        ((x >> 56) & 0xff) as u8,
        ((x >> 48) & 0xff) as u8,
        ((x >> 40) & 0xff) as u8,
        ((x >> 32) & 0xff) as u8,
        ((x >> 24) & 0xff) as u8,
        ((x >> 16) & 0xff) as u8,
        ((x >> 8) & 0xff) as u8,
        (x & 0xff) as u8,
    ]
}

pub open spec fn spec_u64_from_be_bytes(s: Seq<u8>) -> u64
    recommends
        s.len() == 8,
{
    ((s[0] as u64) << 56) | ((s[1] as u64) << 48) | ((s[2] as u64) << 40) | ((s[3] as u64) << 32)
        | ((s[4] as u64) << 24) | ((s[5] as u64) << 16) | ((s[6] as u64) << 8) | (s[7] as u64)
}

pub proof fn lemma_u16_be_round_trip(x: u16)
    ensures
        spec_u16_to_be_bytes(x).len() == 2,
        spec_u16_from_be_bytes(spec_u16_to_be_bytes(x)) == x,
{
    assert((((((x >> 8) & 0xff) as u8 as u16) << 8) | ((x & 0xff) as u8 as u16)) == x)
        by (bit_vector);
}

pub proof fn lemma_u32_be_round_trip(x: u32)
    ensures
        spec_u32_to_be_bytes(x).len() == 4,
        spec_u32_from_be_bytes(spec_u32_to_be_bytes(x)) == x,
{
    assert(((((x >> 24) & 0xff) as u8 as u32) << 24) | ((((x >> 16) & 0xff) as u8 as u32) << 16)
        | ((((x >> 8) & 0xff) as u8 as u32) << 8) | ((x & 0xff) as u8 as u32) == x)
        by (bit_vector);
}

pub proof fn lemma_u64_be_round_trip(x: u64)
    ensures
        spec_u64_to_be_bytes(x).len() == 8,
        spec_u64_from_be_bytes(spec_u64_to_be_bytes(x)) == x,
{
    assert(((((x >> 56) & 0xff) as u8 as u64) << 56) | ((((x >> 48) & 0xff) as u8 as u64) << 48)
        | ((((x >> 40) & 0xff) as u8 as u64) << 40) | ((((x >> 32) & 0xff) as u8 as u64) << 32)
        | ((((x >> 24) & 0xff) as u8 as u64) << 24) | ((((x >> 16) & 0xff) as u8 as u64) << 16)
        | ((((x >> 8) & 0xff) as u8 as u64) << 8) | ((x & 0xff) as u8 as u64) == x)
        by (bit_vector);
}

pub fn push_u16_be(out: &mut Vec<u8>, x: u16)
    ensures
        final(out)@ == old(out)@ + spec_u16_to_be_bytes(x),
{
    proof {
        assert(((x >> 8) & 0xff) < 256 && (x & 0xff) < 256) by (bit_vector);
    }
    out.push(((x >> 8) & 0xff) as u8);
    out.push((x & 0xff) as u8);
    proof {
        assert(out@ =~= old(out)@ + spec_u16_to_be_bytes(x));
    }
}

pub fn push_u32_be(out: &mut Vec<u8>, x: u32)
    ensures
        final(out)@ == old(out)@ + spec_u32_to_be_bytes(x),
{
    proof {
        assert(((x >> 24) & 0xff) < 256 && ((x >> 16) & 0xff) < 256 && ((x >> 8) & 0xff) < 256
            && (x & 0xff) < 256) by (bit_vector);
    }
    out.push(((x >> 24) & 0xff) as u8);
    out.push(((x >> 16) & 0xff) as u8);
    out.push(((x >> 8) & 0xff) as u8);
    out.push((x & 0xff) as u8);
    proof {
        assert(out@ =~= old(out)@ + spec_u32_to_be_bytes(x));
    }
}

pub fn push_u64_be(out: &mut Vec<u8>, x: u64)
    ensures
        final(out)@ == old(out)@ + spec_u64_to_be_bytes(x),
{
    proof {
        assert(((x >> 56) & 0xff) < 256 && ((x >> 48) & 0xff) < 256 && ((x >> 40) & 0xff) < 256
            && ((x >> 32) & 0xff) < 256 && ((x >> 24) & 0xff) < 256 && ((x >> 16) & 0xff) < 256
            && ((x >> 8) & 0xff) < 256 && (x & 0xff) < 256) by (bit_vector);
    }
    out.push(((x >> 56) & 0xff) as u8);
    out.push(((x >> 48) & 0xff) as u8);
    out.push(((x >> 40) & 0xff) as u8);
    out.push(((x >> 32) & 0xff) as u8);
    out.push(((x >> 24) & 0xff) as u8);
    out.push(((x >> 16) & 0xff) as u8);
    out.push(((x >> 8) & 0xff) as u8);
    out.push((x & 0xff) as u8);
    proof {
        assert(out@ =~= old(out)@ + spec_u64_to_be_bytes(x));
    }
}

pub fn read_u16_be(s: &[u8], pos: usize) -> (x: u16)
    requires
        pos + 2 <= s@.len(),
    ensures
        x == spec_u16_from_be_bytes(s@.subrange(pos as int, pos + 2)),
{
    let _n: usize = s.len();
    let b0 = *vstd::slice::slice_index_get(s, pos);
    let b1 = *vstd::slice::slice_index_get(s, pos + 1);
    let x: u16 = ((b0 as u16) << 8) | (b1 as u16);
    proof {
        let sub = s@.subrange(pos as int, pos + 2);
        assert(sub[0] == b0 && sub[1] == b1);
    }
    x
}

pub fn read_u32_be(s: &[u8], pos: usize) -> (x: u32)
    requires
        pos + 4 <= s@.len(),
    ensures
        x == spec_u32_from_be_bytes(s@.subrange(pos as int, pos + 4)),
{
    let _n: usize = s.len();
    let b0 = *vstd::slice::slice_index_get(s, pos);
    let b1 = *vstd::slice::slice_index_get(s, pos + 1);
    let b2 = *vstd::slice::slice_index_get(s, pos + 2);
    let b3 = *vstd::slice::slice_index_get(s, pos + 3);
    let x: u32 = ((b0 as u32) << 24) | ((b1 as u32) << 16) | ((b2 as u32) << 8) | (b3 as u32);
    proof {
        let sub = s@.subrange(pos as int, pos + 4);
        assert(sub[0] == b0 && sub[1] == b1 && sub[2] == b2 && sub[3] == b3);
    }
    x
}

pub fn read_u64_be(s: &[u8], pos: usize) -> (x: u64)
    requires
        pos + 8 <= s@.len(),
    ensures
        x == spec_u64_from_be_bytes(s@.subrange(pos as int, pos + 8)),
{
    let _n: usize = s.len();
    let b0 = *vstd::slice::slice_index_get(s, pos);
    let b1 = *vstd::slice::slice_index_get(s, pos + 1);
    let b2 = *vstd::slice::slice_index_get(s, pos + 2);
    let b3 = *vstd::slice::slice_index_get(s, pos + 3);
    let b4 = *vstd::slice::slice_index_get(s, pos + 4);
    let b5 = *vstd::slice::slice_index_get(s, pos + 5);
    let b6 = *vstd::slice::slice_index_get(s, pos + 6);
    let b7 = *vstd::slice::slice_index_get(s, pos + 7);
    let x: u64 = ((b0 as u64) << 56) | ((b1 as u64) << 48) | ((b2 as u64) << 40)
        | ((b3 as u64) << 32) | ((b4 as u64) << 24) | ((b5 as u64) << 16) | ((b6 as u64) << 8)
        | (b7 as u64);
    proof {
        let sub = s@.subrange(pos as int, pos + 8);
        assert(sub[0] == b0 && sub[1] == b1 && sub[2] == b2 && sub[3] == b3 && sub[4] == b4
            && sub[5] == b5 && sub[6] == b6 && sub[7] == b7);
    }
    x
}

pub fn push_u32_le(out: &mut Vec<u8>, x: u32)
    ensures
        final(out)@ == old(out)@ + spec_u32_to_le_bytes(x),
{
    let mut bytes = u32_to_le_bytes(x);
    out.append(&mut bytes);
}

pub fn push_u64_le(out: &mut Vec<u8>, x: u64)
    ensures
        final(out)@ == old(out)@ + spec_u64_to_le_bytes(x),
{
    let mut bytes = u64_to_le_bytes(x);
    out.append(&mut bytes);
}

pub fn read_u32_le(s: &[u8], pos: usize) -> (x: u32)
    requires
        pos + 4 <= s@.len(),
    ensures
        x == vstd::bytes::spec_u32_from_le_bytes(s@.subrange(pos as int, pos + 4)),
{
    let _n: usize = s.len();
    let part = vstd::slice::slice_subrange(s, pos, pos + 4);
    u32_from_le_bytes(part)
}

pub fn read_u64_le(s: &[u8], pos: usize) -> (x: u64)
    requires
        pos + 8 <= s@.len(),
    ensures
        x == vstd::bytes::spec_u64_from_le_bytes(s@.subrange(pos as int, pos + 8)),
{
    let _n: usize = s.len();
    let part = vstd::slice::slice_subrange(s, pos, pos + 8);
    u64_from_le_bytes(part)
}

/// Byte-for-byte equality of two slices.
pub fn bytes_eq(a: &[u8], b: &[u8]) -> (r: bool)
    ensures
        r == (a@ == b@),
{
    let n = a.len();
    if n != b.len() {
        proof {
            assert(a@ != b@);
        }
        return false;
    }
    let mut i: usize = 0;
    while i < n
        invariant
            i <= n,
            n == a@.len() == b@.len(),
            forall|k: int| 0 <= k < i ==> a@[k] == b@[k],
        decreases n - i,
    {
        if *vstd::slice::slice_index_get(a, i) != *vstd::slice::slice_index_get(b, i) {
            proof {
                assert(a@[i as int] != b@[i as int]);
            }
            return false;
        }
        i += 1;
    }
    proof {
        assert(a@ =~= b@);
    }
    true
}

/// Copies `count` bytes of `s` starting at `pos` into a fresh vector.
pub fn read_bytes(s: &[u8], pos: usize, count: usize) -> (out: Vec<u8>)
    requires
        pos + count <= s@.len(),
    ensures
        out@ == s@.subrange(pos as int, pos + count),
{
    let _n: usize = s.len();
    let part = vstd::slice::slice_subrange(s, pos, pos + count);
    vstd::slice::slice_to_vec(part)
}

} // verus!
