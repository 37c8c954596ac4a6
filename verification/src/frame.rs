//! The length framing of the byte stream.
//!
//! A frame is a 4-byte big-endian length prefix followed by exactly that
//! many payload bytes, so partial reads never corrupt framing. The codec
//! of [`crate::codec`] serializes messages into the payload.
use vstd::prelude::*;

use crate::codec::copy_range;
use crate::codec::push_bytes;

verus! {

/// The 4-byte big-endian representation of a frame length.
pub open spec fn u32_be(n: u32) -> Seq<u8> {
    seq![(n >> 24) as u8, (n >> 16) as u8, (n >> 8) as u8, n as u8]
}

/// The frame length read back from 4 big-endian bytes.
pub open spec fn u32_val(b: Seq<u8>) -> u32
    recommends
        b.len() == 4,
{
    ((b[0] as u32) << 24 | (b[1] as u32) << 16 | (b[2] as u32) << 8 | (b[3] as u32)) as u32
}

/// Reading back the big-endian bytes of a frame length yields it.
pub proof fn lemma_u32_roundtrip(n: u32)
    ensures
        u32_val(u32_be(n)) == n,
{
    assert((((n >> 24) as u8) as u32) << 24 | (((n >> 16) as u8) as u32) << 16 | (((n
        >> 8) as u8) as u32) << 8 | ((n as u8) as u32) == n) by (bit_vector);
}

/// One frame: the payload's length, then the payload.
pub open spec fn spec_frame(p: Seq<u8>) -> Seq<u8>
    recommends
        p.len() <= u32::MAX,
{
    u32_be(p.len() as u32) + p
}

/// The first frame of a buffer, with how many bytes it spans, when the
/// buffer holds one completely.
pub open spec fn spec_extract(b: Seq<u8>) -> Option<(Seq<u8>, int)> {
    if b.len() >= 4 {
        let n = u32_val(b.subrange(0, 4)) as int;
        if 4 + n <= b.len() {
            Option::Some((b.subrange(4, 4 + n), 4 + n))
        } else {
            Option::None
        }
    } else {
        Option::None
    }
}

/// Round-trip: a framed payload at the head of a buffer is extracted
/// unchanged, whatever follows it.
pub proof fn lemma_frame_roundtrip(p: Seq<u8>, rest: Seq<u8>)
    requires
        p.len() <= u32::MAX,
    ensures
        spec_extract(spec_frame(p) + rest) == Option::Some((p, 4 + p.len() as int)),
{
    let b = spec_frame(p) + rest;
    assert(b.subrange(0, 4) =~= u32_be(p.len() as u32));
    lemma_u32_roundtrip(p.len() as u32);
    assert(b.subrange(4, 4 + p.len() as int) =~= p);
}

/// Wraps one payload into a frame. Fails exactly when the payload is too
/// long for the 4-byte length prefix.
pub fn frame_message(payload: &Vec<u8>) -> (r: Option<Vec<u8>>)
    ensures
        match r {
            Option::Some(f) => payload@.len() <= u32::MAX && f@ == spec_frame(payload@),
            Option::None => payload@.len() > u32::MAX,
        },
{
    let len = payload.len();
    if len > u32::MAX as usize {
        return Option::None;
    }
    let n = len as u32;
    let mut out: Vec<u8> = Vec::new();
    out.push((n >> 24) as u8);
    out.push((n >> 16) as u8);
    out.push((n >> 8) as u8);
    out.push(n as u8);
    push_bytes(&mut out, payload.as_slice());
    proof {
        assert(out@ =~= spec_frame(payload@));
    }
    Option::Some(out)
}

/// Takes the first complete frame off the head of a buffer, returning its
/// payload and how many bytes to consume; `None` while the buffer holds
/// no complete frame yet.
pub fn extract_frame(buf: &Vec<u8>) -> (r: Option<(Vec<u8>, usize)>)
    ensures
        match r {
            Option::Some(p) => spec_extract(buf@) == Option::Some((p.0@, p.1 as int)) && p.1
                <= buf@.len(),
            Option::None => spec_extract(buf@) is None,
        },
{
    let total = buf.len();
    if total < 4 {
        return Option::None;
    }
    let n = ((buf[0] as u32) << 24) | ((buf[1] as u32) << 16) | ((buf[2] as u32) << 8) | (
    buf[3] as u32);
    proof {
        let s = buf@.subrange(0, 4);
        assert(s[0] == buf@[0]);
        assert(s[1] == buf@[1]);
        assert(s[2] == buf@[2]);
        assert(s[3] == buf@[3]);
    }
    let avail = total - 4;
    if n as usize > avail {
        proof {
            assert(4 + u32_val(buf@.subrange(0, 4)) > buf@.len());
        }
        return Option::None;
    }
    let m = n as usize;
    let payload = copy_range(buf, 4, m);
    Option::Some((payload, 4 + m))
}

} // verus!
