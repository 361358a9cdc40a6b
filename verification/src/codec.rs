//! Wire format of one frame and the pure encode/decode functions.
//!
//! A frame is the 4-byte big-endian encoding of the payload length, followed
//! by exactly that many payload bytes. Decoding parses one frame starting at
//! offset 0 of a byte slice and never mutates its input; the caller advances
//! past `4 + length` bytes itself.

use vstd::prelude::*;

verus! {

/// The four bytes of `n` in big-endian order.
pub open spec fn be32(n: u32) -> Seq<u8> {
    seq![
        (((n >> 24) & 0xff) as u8),
        (((n >> 16) & 0xff) as u8),
        (((n >> 8) & 0xff) as u8),
        ((n & 0xff) as u8),
    ]
}

/// The unsigned value of the big-endian length field at the front of `b`.
pub open spec fn be32_value(b: Seq<u8>) -> int
    recommends
        b.len() >= 4,
{
    b[0] * 0x100_0000 + b[1] * 0x1_0000 + b[2] * 0x100 + b[3]
}

/// The complete wire frame for a payload `data` declared as `len` bytes long.
pub open spec fn spec_frame(len: u32, data: Seq<u8>) -> Seq<u8> {
    be32(len) + data
}

/// Whether `b` holds at least the 4-byte length field.
pub open spec fn header_readable(b: Seq<u8>) -> bool {
    b.len() >= 4
}

/// Size of the frame announced at the front of `b`: header plus payload.
pub open spec fn spec_frame_size(b: Seq<u8>) -> int
    recommends
        header_readable(b),
{
    4 + be32_value(b)
}

/// Whether one whole frame lies at the front of `b`.
pub open spec fn frame_complete(b: Seq<u8>) -> bool {
    header_readable(b) && spec_frame_size(b) <= b.len()
}

/// The payload of the frame at the front of `b`.
pub open spec fn spec_payload(b: Seq<u8>) -> Seq<u8>
    recommends
        frame_complete(b),
{
    b.subrange(4, spec_frame_size(b))
}

/// Reading the length field back out of its encoding gives the length.
pub proof fn lemma_be32_value_of_be32(n: u32)
    ensures
        be32_value(be32(n)) == n,
{
    assert((((n >> 24) & 0xff) as u8) * 0x100_0000 + (((n >> 16) & 0xff) as u8) * 0x1_0000
        + (((n >> 8) & 0xff) as u8) * 0x100 + ((n & 0xff) as u8) == n) by (bit_vector);
}

/// Decoding a frame at the front of a longer byte sequence finds exactly the
/// frame's own payload: whatever follows the frame does not disturb it.
pub proof fn lemma_decode_frame_with_suffix(len: u32, data: Seq<u8>, rest: Seq<u8>)
    requires
        data.len() == len,
    ensures
        frame_complete(spec_frame(len, data) + rest),
        be32_value(spec_frame(len, data) + rest) == len,
        spec_frame_size(spec_frame(len, data) + rest) == 4 + len,
        spec_payload(spec_frame(len, data) + rest) == data,
        (spec_frame(len, data) + rest).skip(4 + len as int) == rest,
{
    lemma_be32_value_of_be32(len);
    let b = spec_frame(len, data) + rest;
    assert(b[0] == be32(len)[0]);
    assert(b[1] == be32(len)[1]);
    assert(b[2] == be32(len)[2]);
    assert(b[3] == be32(len)[3]);
    assert(be32_value(b) == len);
    assert(spec_payload(b) =~= data);
    assert(b.skip(4 + len as int) =~= rest);
}

/// Round trip: decoding the encoding of a message reconstructs it exactly.
/// In terms of the executable pair, `decode` applied to the bytes `encode`
/// appended returns `Ok` with the same declared length and the same payload.
pub proof fn lemma_round_trip(len: u32, data: Seq<u8>)
    requires
        data.len() == len,
    ensures
        frame_complete(spec_frame(len, data)),
        be32_value(spec_frame(len, data)) == len,
        spec_frame_size(spec_frame(len, data)) == 4 + len,
        spec_payload(spec_frame(len, data)) == data,
{
    lemma_decode_frame_with_suffix(len, data, Seq::<u8>::empty());
    assert(spec_frame(len, data) + Seq::<u8>::empty() =~= spec_frame(len, data));
}

/// Partial-read resilience: any strict prefix of a frame fails to decode —
/// with a short length field if the cut falls inside the first 4 bytes, and
/// with an incomplete payload otherwise — while the whole frame decodes.
/// So a frame split at any offset into two reads yields an error after the
/// first read and the original message after the second.
pub proof fn lemma_prefix_of_frame_incomplete(len: u32, data: Seq<u8>, k: int)
    requires
        data.len() == len,
        0 <= k < spec_frame(len, data).len(),
    ensures
        k < 4 ==> !header_readable(spec_frame(len, data).take(k)),
        k >= 4 ==> header_readable(spec_frame(len, data).take(k)) && !frame_complete(
            spec_frame(len, data).take(k),
        ),
        frame_complete(spec_frame(len, data)),
        spec_payload(spec_frame(len, data)) == data,
{
    lemma_round_trip(len, data);
    let b = spec_frame(len, data);
    let p = b.take(k);
    if k >= 4 {
        assert(p[0] == b[0] && p[1] == b[1] && p[2] == b[2] && p[3] == b[3]);
        assert(be32_value(p) == be32_value(b));
        assert(spec_frame_size(p) == 4 + len > k == p.len());
    }
}

/// Multi-frame drain: two frames laid back to back decode in order — the
/// first from the front, the second from the bytes past the first frame's
/// size — and what is left after both is empty, so a third attempt fails
/// for want of a length field.
pub proof fn lemma_two_frames_drain(len1: u32, data1: Seq<u8>, len2: u32, data2: Seq<u8>)
    requires
        data1.len() == len1,
        data2.len() == len2,
    ensures
        ({
            let b = spec_frame(len1, data1) + spec_frame(len2, data2);
            let after_first = b.skip(spec_frame_size(b));
            &&& frame_complete(b)
            &&& spec_frame_size(b) == 4 + len1
            &&& spec_payload(b) == data1
            &&& frame_complete(after_first)
            &&& spec_frame_size(after_first) == 4 + len2
            &&& spec_payload(after_first) == data2
            &&& !header_readable(after_first.skip(spec_frame_size(after_first)))
        }),
{
    lemma_decode_frame_with_suffix(len1, data1, spec_frame(len2, data2));
    lemma_round_trip(len2, data2);
    let b = spec_frame(len1, data1) + spec_frame(len2, data2);
    let after_first = b.skip(spec_frame_size(b));
    assert(after_first == spec_frame(len2, data2));
    assert(after_first.skip(spec_frame_size(after_first)) =~= Seq::<u8>::empty());
}

/// A logical message: a declared length and a payload of that many bytes.
#[derive(Debug, Clone)]
pub struct Message {
    pub len: u32,
    pub data: Vec<u8>,
}

/// Why a decode attempt failed; both cases are cured by reading more bytes.
#[derive(Debug, Clone, Copy, PartialEq, Eq, Structural)]
pub enum DecodeError {
    /// Fewer than 4 bytes available: the length field itself is incomplete.
    LenError,
    /// The length field is readable but the payload has not fully arrived.
    NotEnoughData,
}

impl Message {
    /// The declared length matches the payload it carries.
    pub open spec fn wf(&self) -> bool {
        self.len as int == self.data@.len()
    }

    /// Size of this message on the wire: 4 header bytes plus the payload.
    pub fn encode_len(&self) -> (r: usize)
        requires
            self.data@.len() + 4 <= usize::MAX,
        ensures
            r == self.data@.len() + 4,
    {
        self.data.len() + 4
    }

    /// Appends this message's wire frame to `buf`: the 4-byte big-endian
    /// length, then the payload. Never fails.
    pub fn encode(&self, buf: &mut Vec<u8>)
        requires
            self.wf(),
            old(buf)@.len() + 4 + self.data@.len() <= usize::MAX,
        ensures
            final(buf)@ == old(buf)@ + spec_frame(self.len, self.data@),
    {
        let n = self.len;
        buf.push(((n >> 24) & 0xff) as u8);
        buf.push(((n >> 16) & 0xff) as u8);
        buf.push(((n >> 8) & 0xff) as u8);
        buf.push((n & 0xff) as u8);
        let ghost with_header = buf@;
        assert(with_header =~= old(buf)@ + be32(n));
        let mut i: usize = 0;
        while i < self.data.len()
            invariant
                i <= self.data@.len(),
                buf@ == with_header + self.data@.subrange(0, i as int),
            decreases self.data@.len() - i,
        {
            buf.push(self.data[i]);
            assert(buf@ =~= with_header + self.data@.subrange(0, i + 1));
            i = i + 1;
        }
        assert(buf@ =~= old(buf)@ + spec_frame(self.len, self.data@));
    }

    /// Parses exactly one frame starting at offset 0 of `buf`, copying the
    /// payload out; the input is not consumed. Succeeds if and only if one
    /// whole frame lies at the front of `buf`.
    pub fn decode(buf: &[u8]) -> (r: Result<Message, DecodeError>)
        ensures
            match r {
                Ok(m) => {
                    &&& frame_complete(buf@)
                    &&& m.wf()
                    &&& m.len as int == be32_value(buf@)
                    &&& m.data@ == spec_payload(buf@)
                },
                Err(DecodeError::LenError) => !header_readable(buf@),
                Err(DecodeError::NotEnoughData) => header_readable(buf@) && !frame_complete(
                    buf@,
                ),
            },
    {
        if buf.len() < 4 {
            return Err(DecodeError::LenError);
        }
        let b0 = *vstd::slice::slice_index_get(buf, 0);
        let b1 = *vstd::slice::slice_index_get(buf, 1);
        let b2 = *vstd::slice::slice_index_get(buf, 2);
        let b3 = *vstd::slice::slice_index_get(buf, 3);
        let len = (b0 as u32) * 0x100_0000 + (b1 as u32) * 0x1_0000 + (b2 as u32) * 0x100
            + (b3 as u32);
        assert(len as int == be32_value(buf@));
        if len as usize > buf.len() - 4 {
            return Err(DecodeError::NotEnoughData);
        }
        let payload = vstd::slice::slice_subrange(buf, 4, 4 + len as usize);
        let data = vstd::slice::slice_to_vec(payload);
        Ok(Message { len, data })
    }
}

} // verus!
