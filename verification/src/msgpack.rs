use crate::wire::{
    lemma_u16_be_round_trip, lemma_u32_be_round_trip, lemma_u64_be_round_trip, push_u16_be,
    push_u32_be, push_u64_be, read_bytes, read_u16_be, read_u32_be, read_u64_be,
    spec_u16_from_be_bytes, spec_u16_to_be_bytes, spec_u32_from_be_bytes, spec_u32_to_be_bytes,
    spec_u64_from_be_bytes, spec_u64_to_be_bytes,
};
use vstd::prelude::*;

verus! {

// The frame codec stores byte fields as MessagePack bin items (tags 0xc4,
// 0xc5, 0xc6) and integer fields as MessagePack unsigned items (positive
// fixint, 0xcc, 0xcd, 0xce, 0xcf). Encoders always emit the shortest form;
// parsers accept every well-formed form.

/// The MessagePack bin encoding of a byte string.
pub open spec fn spec_bin_enc(payload: Seq<u8>) -> Seq<u8>
    recommends
        payload.len() < 0x1_0000_0000,
{
    if payload.len() < 0x100 {
        seq![0xc4u8, payload.len() as u8] + payload
    } else if payload.len() < 0x10000 {
        seq![0xc5u8] + spec_u16_to_be_bytes(payload.len() as u16) + payload
    } else {
        seq![0xc6u8] + spec_u32_to_be_bytes(payload.len() as u32) + payload
    }
}

/// The shortest MessagePack encoding of an unsigned 64-bit integer.
pub open spec fn spec_uint_enc(n: u64) -> Seq<u8> {
    if n < 0x80 {
        seq![n as u8]
    } else if n < 0x100 {
        seq![0xccu8, n as u8]
    } else if n < 0x10000 {
        seq![0xcdu8] + spec_u16_to_be_bytes(n as u16)
    } else if n < 0x1_0000_0000 {
        seq![0xceu8] + spec_u32_to_be_bytes(n as u32)
    } else {
        seq![0xcfu8] + spec_u64_to_be_bytes(n)
    }
}

/// Parses a MessagePack bin item at position `i`; returns the payload and the
/// position just past the item.
pub open spec fn spec_parse_bin(s: Seq<u8>, i: int) -> Option<(Seq<u8>, int)>
    recommends
        0 <= i,
{
    if 0 <= i < s.len() {
        let tag = s[i];
        if tag == 0xc4 {
            if i + 2 <= s.len() {
                let len = s[i + 1] as int;
                if i + 2 + len <= s.len() {
                    Some((s.subrange(i + 2, i + 2 + len), i + 2 + len))
                } else {
                    None
                }
            } else {
                None
            }
        } else if tag == 0xc5 {
            if i + 3 <= s.len() {
                let len = spec_u16_from_be_bytes(s.subrange(i + 1, i + 3)) as int;
                if i + 3 + len <= s.len() {
                    Some((s.subrange(i + 3, i + 3 + len), i + 3 + len))
                } else {
                    None
                }
            } else {
                None
            }
        } else if tag == 0xc6 {
            if i + 5 <= s.len() {
                let len = spec_u32_from_be_bytes(s.subrange(i + 1, i + 5)) as int;
                if i + 5 + len <= s.len() {
                    Some((s.subrange(i + 5, i + 5 + len), i + 5 + len))
                } else {
                    None
                }
            } else {
                None
            }
        } else {
            None
        }
    } else {
        None
    }
}

/// Parses a MessagePack unsigned integer at position `i`; returns the value
/// and the position just past the item.
pub open spec fn spec_parse_uint(s: Seq<u8>, i: int) -> Option<(u64, int)>
    recommends
        0 <= i,
{
    if 0 <= i < s.len() {
        let tag = s[i];
        if tag < 0x80 {
            Some((tag as u64, i + 1))
        } else if tag == 0xcc {
            if i + 2 <= s.len() {
                Some((s[i + 1] as u64, i + 2))
            } else {
                None
            }
        } else if tag == 0xcd {
            if i + 3 <= s.len() {
                Some((spec_u16_from_be_bytes(s.subrange(i + 1, i + 3)) as u64, i + 3))
            } else {
                None
            }
        } else if tag == 0xce {
            if i + 5 <= s.len() {
                Some((spec_u32_from_be_bytes(s.subrange(i + 1, i + 5)) as u64, i + 5))
            } else {
                None
            }
        } else if tag == 0xcf {
            if i + 9 <= s.len() {
                Some((spec_u64_from_be_bytes(s.subrange(i + 1, i + 9)), i + 9))
            } else {
                None
            }
        } else {
            None
        }
    } else {
        None
    }
}

/// An encoded bin item embedded in a longer sequence parses back to its
/// payload.
pub proof fn lemma_parse_bin_enc(s: Seq<u8>, i: int, payload: Seq<u8>)
    requires
        0 <= i,
        payload.len() < 0x1_0000_0000,
        i + spec_bin_enc(payload).len() <= s.len(),
        s.subrange(i, i + spec_bin_enc(payload).len()) == spec_bin_enc(payload),
    ensures
        spec_parse_bin(s, i) == Some((payload, i + spec_bin_enc(payload).len())),
{
    let enc = spec_bin_enc(payload);
    let sub = s.subrange(i, i + enc.len());
    let plen = payload.len() as int;
    if payload.len() < 0x100 {
        let head: int = 2;
        assert(s[i] == sub[0] && s[i + 1] == sub[1]);
        assert(sub[0] == 0xc4 && sub[1] == payload.len() as u8);
        assert(s[i + 1] as int == plen);
        assert forall|j: int| 0 <= j < plen implies s.subrange(i + head, i + head + plen)[j]
            == payload[j] by {
            assert(s.subrange(i + head, i + head + plen)[j] == s[i + head + j]);
            assert(sub[head + j] == s[i + head + j]);
            assert(enc[head + j] == payload[j]);
        }
        assert(s.subrange(i + head, i + head + plen) =~= payload);
    } else if payload.len() < 0x10000 {
        let head: int = 3;
        let lb = spec_u16_to_be_bytes(payload.len() as u16);
        lemma_u16_be_round_trip(payload.len() as u16);
        assert(s[i] == sub[0] && sub[0] == 0xc5);
        assert(s[i + 1] == sub[1] && s[i + 2] == sub[2]);
        assert(sub[1] == lb[0] && sub[2] == lb[1]);
        assert(s.subrange(i + 1, i + 3) =~= lb);
        assert(spec_u16_from_be_bytes(s.subrange(i + 1, i + 3)) as int == plen);
        assert forall|j: int| 0 <= j < plen implies s.subrange(i + head, i + head + plen)[j]
            == payload[j] by {
            assert(s.subrange(i + head, i + head + plen)[j] == s[i + head + j]);
            assert(sub[head + j] == s[i + head + j]);
            assert(enc[head + j] == payload[j]);
        }
        assert(s.subrange(i + head, i + head + plen) =~= payload);
    } else {
        let head: int = 5;
        let lb = spec_u32_to_be_bytes(payload.len() as u32);
        lemma_u32_be_round_trip(payload.len() as u32);
        assert(s[i] == sub[0] && sub[0] == 0xc6);
        assert(s[i + 1] == sub[1] && s[i + 2] == sub[2] && s[i + 3] == sub[3] && s[i + 4]
            == sub[4]);
        assert(sub[1] == lb[0] && sub[2] == lb[1] && sub[3] == lb[2] && sub[4] == lb[3]);
        assert(s.subrange(i + 1, i + 5) =~= lb);
        assert(spec_u32_from_be_bytes(s.subrange(i + 1, i + 5)) as int == plen);
        assert forall|j: int| 0 <= j < plen implies s.subrange(i + head, i + head + plen)[j]
            == payload[j] by {
            assert(s.subrange(i + head, i + head + plen)[j] == s[i + head + j]);
            assert(sub[head + j] == s[i + head + j]);
            assert(enc[head + j] == payload[j]);
        }
        assert(s.subrange(i + head, i + head + plen) =~= payload);
    }
}

/// An encoded unsigned item embedded in a longer sequence parses back to its
/// value.
pub proof fn lemma_parse_uint_enc(s: Seq<u8>, i: int, n: u64)
    requires
        0 <= i,
        i + spec_uint_enc(n).len() <= s.len(),
        s.subrange(i, i + spec_uint_enc(n).len()) == spec_uint_enc(n),
    ensures
        spec_parse_uint(s, i) == Some((n, i + spec_uint_enc(n).len())),
{
    let enc = spec_uint_enc(n);
    let sub = s.subrange(i, i + enc.len());
    if n < 0x80 {
        assert(s[i] == sub[0] && sub[0] == n as u8);
        assert(n < 0x80 ==> (n as u8) < 0x80 && (n as u8) as u64 == n) by (bit_vector);
    } else if n < 0x100 {
        assert(s[i] == sub[0] && sub[0] == 0xcc);
        assert(s[i + 1] == sub[1] && sub[1] == n as u8);
        assert(n < 0x100 ==> (n as u8) as u64 == n) by (bit_vector);
    } else if n < 0x10000 {
        let lb = spec_u16_to_be_bytes(n as u16);
        lemma_u16_be_round_trip(n as u16);
        assert(s[i] == sub[0] && sub[0] == 0xcd);
        assert(s[i + 1] == sub[1] && s[i + 2] == sub[2]);
        assert(sub[1] == lb[0] && sub[2] == lb[1]);
        assert(s.subrange(i + 1, i + 3) =~= lb);
        assert(0x100 <= n < 0x10000 ==> (n as u16) as u64 == n) by (bit_vector);
    } else if n < 0x1_0000_0000 {
        let lb = spec_u32_to_be_bytes(n as u32);
        lemma_u32_be_round_trip(n as u32);
        assert(s[i] == sub[0] && sub[0] == 0xce);
        assert(s[i + 1] == sub[1] && s[i + 2] == sub[2] && s[i + 3] == sub[3] && s[i + 4]
            == sub[4]);
        assert(sub[1] == lb[0] && sub[2] == lb[1] && sub[3] == lb[2] && sub[4] == lb[3]);
        assert(s.subrange(i + 1, i + 5) =~= lb);
        assert(0x10000 <= n < 0x1_0000_0000 ==> (n as u32) as u64 == n) by (bit_vector);
    } else {
        let lb = spec_u64_to_be_bytes(n);
        lemma_u64_be_round_trip(n);
        assert(s[i] == sub[0] && sub[0] == 0xcf);
        assert(s[i + 1] == sub[1] && s[i + 2] == sub[2] && s[i + 3] == sub[3] && s[i + 4] == sub[4]
            && s[i + 5] == sub[5] && s[i + 6] == sub[6] && s[i + 7] == sub[7] && s[i + 8]
            == sub[8]);
        assert(sub[1] == lb[0] && sub[2] == lb[1] && sub[3] == lb[2] && sub[4] == lb[3] && sub[5]
            == lb[4] && sub[6] == lb[5] && sub[7] == lb[6] && sub[8] == lb[7]);
        assert(s.subrange(i + 1, i + 9) =~= lb);
    }
}

/// Appends the bin encoding of `payload` to `out`.
pub fn push_bin(out: &mut Vec<u8>, payload: &[u8])
    requires
        payload@.len() < 0x1_0000_0000,
    ensures
        final(out)@ == old(out)@ + spec_bin_enc(payload@),
{
    let len = payload.len();
    if len < 0x100 {
        out.push(0xc4);
        out.push(len as u8);
    } else if len < 0x10000 {
        out.push(0xc5);
        push_u16_be(out, len as u16);
    } else {
        out.push(0xc6);
        push_u32_be(out, len as u32);
    }
    let mut tail = vstd::slice::slice_to_vec(payload);
    out.append(&mut tail);
    proof {
        assert(out@ =~= old(out)@ + spec_bin_enc(payload@));
    }
}

/// Appends the shortest unsigned encoding of `n` to `out`.
pub fn push_uint(out: &mut Vec<u8>, n: u64)
    ensures
        final(out)@ == old(out)@ + spec_uint_enc(n),
{
    if n < 0x80 {
        out.push(n as u8);
    } else if n < 0x100 {
        out.push(0xcc);
        out.push(n as u8);
    } else if n < 0x10000 {
        out.push(0xcd);
        push_u16_be(out, n as u16);
    } else if n < 0x1_0000_0000 {
        out.push(0xce);
        push_u32_be(out, n as u32);
    } else {
        out.push(0xcf);
        push_u64_be(out, n);
    }
    proof {
        assert(out@ =~= old(out)@ + spec_uint_enc(n));
    }
}

/// Reads a bin item at `pos`, mirroring `spec_parse_bin`.
pub fn parse_bin(s: &[u8], pos: usize) -> (r: Option<(Vec<u8>, usize)>)
    ensures
        match r {
            Some((v, next)) => spec_parse_bin(s@, pos as int) == Some((v@, next as int))
                && pos < next <= s@.len(),
            None => spec_parse_bin(s@, pos as int) is None,
        },
{
    let n = s.len();
    if pos >= n {
        return None;
    }
    let rem = n - pos;
    let tag = *vstd::slice::slice_index_get(s, pos);
    if tag == 0xc4 {
        if rem >= 2 {
            let len = *vstd::slice::slice_index_get(s, pos + 1) as usize;
            if len <= n - (pos + 2) {
                let v = read_bytes(s, pos + 2, len);
                Some((v, pos + 2 + len))
            } else {
                None
            }
        } else {
            None
        }
    } else if tag == 0xc5 {
        if rem >= 3 {
            let len = read_u16_be(s, pos + 1) as usize;
            if len <= n - (pos + 3) {
                let v = read_bytes(s, pos + 3, len);
                Some((v, pos + 3 + len))
            } else {
                None
            }
        } else {
            None
        }
    } else if tag == 0xc6 {
        if rem >= 5 {
            let len32 = read_u32_be(s, pos + 1);
            if (len32 as u64) <= ((n - (pos + 5)) as u64) {
                let len = len32 as usize;
                let v = read_bytes(s, pos + 5, len);
                Some((v, pos + 5 + len))
            } else {
                None
            }
        } else {
            None
        }
    } else {
        None
    }
}

/// Reads an unsigned item at `pos`, mirroring `spec_parse_uint`.
pub fn parse_uint(s: &[u8], pos: usize) -> (r: Option<(u64, usize)>)
    ensures
        match r {
            Some((v, next)) => spec_parse_uint(s@, pos as int) == Some((v, next as int))
                && pos < next <= s@.len(),
            None => spec_parse_uint(s@, pos as int) is None,
        },
{
    let n = s.len();
    if pos >= n {
        return None;
    }
    let rem = n - pos;
    let tag = *vstd::slice::slice_index_get(s, pos);
    if tag < 0x80 {
        Some((tag as u64, pos + 1))
    } else if tag == 0xcc {
        if rem >= 2 {
            let b = *vstd::slice::slice_index_get(s, pos + 1);
            Some((b as u64, pos + 2))
        } else {
            None
        }
    } else if tag == 0xcd {
        if rem >= 3 {
            Some((read_u16_be(s, pos + 1) as u64, pos + 3))
        } else {
            None
        }
    } else if tag == 0xce {
        if rem >= 5 {
            Some((read_u32_be(s, pos + 1) as u64, pos + 5))
        } else {
            None
        }
    } else if tag == 0xcf {
        if rem >= 9 {
            Some((read_u64_be(s, pos + 1), pos + 9))
        } else {
            None
        }
    } else {
        None
    }
}

} // verus!
