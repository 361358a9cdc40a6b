//! Streaming receiver: a fixed-capacity buffer with read/consume cursors.
//!
//! `RecvState` turns a sequence of arbitrarily-sized read results into a
//! sequence of complete messages. `fill` appends one read's worth of bytes
//! after any leftover from the previous cycle; repeated `consume` calls drain
//! every complete frame from the filled region; a failed `consume` compacts
//! the unconsumed tail to the front of the buffer, so the buffer never needs
//! to grow and nothing is lost across reads.

use vstd::prelude::*;

use crate::codec::DecodeError;
use crate::codec::Message;
use crate::codec::be32_value;
use crate::codec::frame_complete;
use crate::codec::header_readable;
use crate::codec::spec_frame_size;
use crate::codec::spec_payload;

verus! {

/// Capacity of the receive buffer; a frame larger than this can never be
/// decoded.
pub const BUF_SIZE: usize = 8192;

/// Per-connection receive state: a fixed buffer and three cursors.
///
/// `remain` counts leftover bytes carried from a previous fill; the region
/// `[consume_start, consume_end)` holds the bytes not yet decoded.
pub struct RecvState {
    buf: Vec<u8>,
    remain: usize,
    consume_start: usize,
    consume_end: usize,
}

/// The relation a failed `consume` establishes: the unconsumed region of
/// `pre` — and only those bytes — now sits verbatim at the front of the
/// buffer, the leftover count equals its length, and the cursors bracket it
/// from the start. Bytes past the region keep their old values.
pub open spec fn compacted(pre: RecvState, post: RecvState) -> bool {
    let region = pre.pending();
    &&& post.spec_remain() == region.len()
    &&& post.spec_start() == 0
    &&& post.spec_end() == region.len()
    &&& post.spec_buf().len() == pre.spec_buf().len()
    &&& post.spec_buf().subrange(0, region.len() as int) == region
    &&& post.spec_buf().skip(region.len() as int) == pre.spec_buf().skip(region.len() as int)
}

impl RecvState {
    /// The buffer's contents.
    pub closed spec fn spec_buf(&self) -> Seq<u8> {
        self.buf@
    }

    /// Leftover bytes carried from the previous cycle.
    pub closed spec fn spec_remain(&self) -> int {
        self.remain as int
    }

    /// Start of the not-yet-decoded region.
    pub closed spec fn spec_start(&self) -> int {
        self.consume_start as int
    }

    /// End of the valid filled region.
    pub closed spec fn spec_end(&self) -> int {
        self.consume_end as int
    }

    /// The bytes filled but not yet decoded.
    pub open spec fn pending(&self) -> Seq<u8> {
        self.spec_buf().subrange(self.spec_start(), self.spec_end())
    }

    /// The buffer has its fixed capacity and every cursor stays within it.
    pub open spec fn wf(&self) -> bool {
        &&& self.spec_buf().len() == BUF_SIZE
        &&& 0 <= self.spec_start() <= BUF_SIZE
        &&& 0 <= self.spec_end() <= BUF_SIZE
        &&& 0 <= self.spec_remain() <= BUF_SIZE
    }

    /// Bytes the buffer can still take after the leftover: how much the next
    /// read may hand to `fill`. Zero right after a failed `consume` means the
    /// buffer is full of one incomplete frame that can never complete —
    /// callers should fail fast rather than read on.
    pub fn free_space(&self) -> (r: usize)
        requires
            self.wf(),
        ensures
            r == BUF_SIZE - self.spec_remain(),
    {
        BUF_SIZE - self.remain
    }

    /// Whether the pending bytes announce a frame that can never fit the
    /// buffer: the length field is readable and `4 + length` exceeds the
    /// capacity. Such a frame can never become decodable, however often the
    /// caller reads and compacts, so a driver should fail fast — drop the
    /// connection — instead of reading on.
    pub fn stalled(&self) -> (r: bool)
        requires
            self.wf(),
            self.spec_start() <= self.spec_end(),
        ensures
            r == (header_readable(self.pending()) && spec_frame_size(self.pending()) > BUF_SIZE),
    {
        if self.consume_end - self.consume_start < 4 {
            return false;
        }
        let s = self.consume_start;
        let b0 = self.buf[s];
        let b1 = self.buf[s + 1];
        let b2 = self.buf[s + 2];
        let b3 = self.buf[s + 3];
        let len = (b0 as u32) * 0x100_0000 + (b1 as u32) * 0x1_0000 + (b2 as u32) * 0x100
            + (b3 as u32);
        assert(len as int == be32_value(self.pending()));
        len as usize > BUF_SIZE - 4
    }

    /// Records one read's worth of bytes: copies `chunk` into the buffer
    /// right after the leftover bytes and marks the end of the valid region.
    /// The consume cursor is not touched; only a failed `consume` resets it.
    /// An empty `chunk` models a read of zero bytes: the peer closed the
    /// connection, and the caller should stop reading.
    pub fn fill(&mut self, chunk: &[u8])
        requires
            old(self).wf(),
            chunk@.len() <= BUF_SIZE - old(self).spec_remain(),
        ensures
            final(self).wf(),
            final(self).spec_remain() == old(self).spec_remain(),
            final(self).spec_start() == old(self).spec_start(),
            final(self).spec_end() == old(self).spec_remain() + chunk@.len(),
            final(self).spec_buf() == old(self).spec_buf().subrange(
                0,
                old(self).spec_remain(),
            ) + chunk@ + old(self).spec_buf().skip(old(self).spec_remain() + chunk@.len()),
    {
        let ghost prev = self.buf@;
        let ghost r = self.remain as int;
        let mut i: usize = 0;
        while i < chunk.len()
            invariant
                i <= chunk@.len(),
                r + chunk@.len() <= BUF_SIZE,
                self.remain as int == r,
                self.consume_start == old(self).consume_start,
                self.consume_end == old(self).consume_end,
                self.buf@.len() == prev.len() == BUF_SIZE,
                forall|j: int| 0 <= j < i ==> self.buf@[r + j] == chunk@[j],
                forall|j: int| 0 <= j < r ==> self.buf@[j] == prev[j],
                forall|j: int| r + i <= j < BUF_SIZE ==> self.buf@[j] == prev[j],
            decreases chunk@.len() - i,
        {
            let b = *vstd::slice::slice_index_get(chunk, i);
            self.buf.set(self.remain + i, b);
            i = i + 1;
        }
        self.consume_end = self.remain + i;
        proof {
            assert(self.buf@ =~= prev.subrange(0, r) + chunk@ + prev.skip(r + chunk@.len()));
        }
    }

    /// Attempts to decode one frame from the pending region.
    ///
    /// On success the consume cursor advances past the frame and the buffer
    /// is untouched; the region may still hold further complete frames, so
    /// the caller calls `consume` again until it fails. On failure the
    /// pending bytes are compacted to the front of the buffer — nothing is
    /// discarded — and the error says what was missing: the length field
    /// (`LenError`) or part of the payload (`NotEnoughData`).
    pub fn consume(&mut self) -> (r: Result<Message, DecodeError>)
        requires
            old(self).wf(),
            old(self).spec_start() <= old(self).spec_end(),
        ensures
            final(self).wf(),
            final(self).spec_start() <= final(self).spec_end(),
            match r {
                Ok(m) => {
                    &&& frame_complete(old(self).pending())
                    &&& m.wf()
                    &&& m.len as int == be32_value(old(self).pending())
                    &&& m.data@ == spec_payload(old(self).pending())
                    &&& final(self).spec_buf() == old(self).spec_buf()
                    &&& final(self).spec_remain() == old(self).spec_remain()
                    &&& final(self).spec_end() == old(self).spec_end()
                    &&& final(self).spec_start() == old(self).spec_start() + spec_frame_size(
                        old(self).pending(),
                    )
                },
                Err(DecodeError::LenError) => {
                    &&& !header_readable(old(self).pending())
                    &&& compacted(*old(self), *final(self))
                },
                Err(DecodeError::NotEnoughData) => {
                    &&& header_readable(old(self).pending())
                    &&& !frame_complete(old(self).pending())
                    &&& compacted(*old(self), *final(self))
                },
            },
    {
        let region = vstd::slice::slice_subrange(
            self.buf.as_slice(),
            self.consume_start,
            self.consume_end,
        );
        match Message::decode(region) {
            Ok(msg) => {
                let offset = msg.encode_len();
                self.consume_start = self.consume_start + offset;
                Ok(msg)
            },
            Err(e) => {
                let ghost prev = self.buf@;
                let s = self.consume_start;
                let n = self.consume_end - self.consume_start;
                let mut i: usize = 0;
                while i < n
                    invariant
                        i <= n,
                        s + n <= BUF_SIZE,
                        self.consume_start == s,
                        self.buf@.len() == prev.len() == BUF_SIZE,
                        forall|j: int| 0 <= j < i ==> self.buf@[j] == prev[s + j],
                        forall|j: int| i <= j < BUF_SIZE ==> self.buf@[j] == prev[j],
                    decreases n - i,
                {
                    let b = self.buf[s + i];
                    self.buf.set(i, b);
                    i = i + 1;
                }
                self.remain = n;
                self.consume_start = 0;
                self.consume_end = n;
                proof {
                    let region_g = old(self).pending();
                    assert(self.buf@.subrange(0, region_g.len() as int) =~= region_g);
                    assert(self.buf@.skip(region_g.len() as int) =~= prev.skip(
                        region_g.len() as int,
                    ));
                }
                Err(e)
            },
        }
    }
}

impl Default for RecvState {
    /// A fresh receiver: a zeroed buffer of the fixed capacity, with no
    /// leftover bytes and an empty pending region.
    fn default() -> (r: Self)
        ensures
            r.wf(),
            r.spec_remain() == 0,
            r.spec_start() == 0,
            r.spec_end() == 0,
            r.spec_buf() == Seq::new(BUF_SIZE as nat, |i: int| 0u8),
    {
        let buf = vec![0u8; BUF_SIZE];
        proof {
            assert(buf@ =~= Seq::new(BUF_SIZE as nat, |i: int| 0u8));
        }
        RecvState { buf, remain: 0, consume_start: 0, consume_end: 0 }
    }
}

} // verus!
