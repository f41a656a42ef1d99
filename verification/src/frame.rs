//! Length-prefixed framing over a byte stream.
//!
//! Every message travels as `[4-byte little-endian length][payload]`. Frames
//! are reassembled from whatever chunks the transport happens to deliver: a
//! [`FrameBuffer`] carries the bytes received so far, and a complete frame can
//! be taken off its front whenever one is present. Feeding depends only on
//! the concatenation of the chunks fed, so an arbitrary split into partial
//! reads never changes what is decoded.
use vstd::prelude::*;
use crate::wire::{le32_bytes, le32_value, lemma_le32_round_trip, encode_le32, decode_le32};

verus! {

/// One frame on the wire: the little-endian length of the payload, then the
/// payload itself.
pub open spec fn frame_bytes(payload: Seq<u8>) -> Seq<u8>
    recommends
        payload.len() <= 0xffff_ffff,
{
    le32_bytes(payload.len() as u32) + payload
}

/// The payload length announced by the first four bytes of `b`.
pub open spec fn announced_len(b: Seq<u8>) -> int
    recommends
        b.len() >= 4,
{
    le32_value(b.subrange(0, 4)) as int
}

/// Whether `b` starts with one complete frame.
pub open spec fn has_frame(b: Seq<u8>) -> bool {
    b.len() >= 4 && b.len() >= 4 + announced_len(b)
}

/// The payload of the first complete frame of `b`.
pub open spec fn frame_payload(b: Seq<u8>) -> Seq<u8>
    recommends
        has_frame(b),
{
    b.subrange(4, 4 + announced_len(b))
}

/// What remains of `b` after its first complete frame.
pub open spec fn frame_rest(b: Seq<u8>) -> Seq<u8>
    recommends
        has_frame(b),
{
    b.subrange(4 + announced_len(b), b.len() as int)
}

/// A buffer that begins with the frame for `payload` parses back to exactly
/// that payload, whatever else follows. Together with the fact that feeding a
/// [`FrameBuffer`] depends only on the concatenation of the chunks fed, this
/// says that a frame split across arbitrarily many partial reads decodes to
/// the payload it was encoded from.
pub proof fn lemma_parse_frame(payload: Seq<u8>, rest: Seq<u8>)
    requires
        payload.len() <= 0xffff_ffff,
    ensures
        has_frame(frame_bytes(payload) + rest),
        frame_payload(frame_bytes(payload) + rest) == payload,
        frame_rest(frame_bytes(payload) + rest) == rest,
{
    let b = frame_bytes(payload) + rest;
    assert(b.subrange(0, 4) =~= le32_bytes(payload.len() as u32));
    lemma_le32_round_trip(payload.len() as u32);
    assert(announced_len(b) == payload.len());
    assert(frame_payload(b) =~= payload);
    assert(frame_rest(b) =~= rest);
}

/// The payloads of the complete frames at the front of `b`, in stream order.
pub open spec fn frames_of(b: Seq<u8>) -> Seq<Seq<u8>>
    decreases b.len(),
{
    if has_frame(b) {
        seq![frame_payload(b)] + frames_of(frame_rest(b))
    } else {
        Seq::empty()
    }
}

/// What remains of `b` after every complete frame at its front.
pub open spec fn frames_residue(b: Seq<u8>) -> Seq<u8>
    decreases b.len(),
{
    if has_frame(b) {
        frames_residue(frame_rest(b))
    } else {
        b
    }
}

/// The concatenation of the frames for each payload in `ps`, in order.
pub open spec fn frame_all(ps: Seq<Seq<u8>>) -> Seq<u8>
    decreases ps.len(),
{
    if ps.len() == 0 {
        Seq::empty()
    } else {
        frame_bytes(ps.first()) + frame_all(ps.drop_first())
    }
}

/// Frames arrive in first-in-first-out order: a stream carrying the frames
/// for the payloads `ps` decodes back to exactly `ps`, in the same order,
/// with nothing left over.
#[verifier::rlimit(30)]
pub proof fn lemma_frames_in_order(ps: Seq<Seq<u8>>)
    requires
        forall|i: int| 0 <= i < ps.len() ==> #[trigger] ps[i].len() <= 0xffff_ffff,
    ensures
        frames_of(frame_all(ps)) == ps,
        frames_residue(frame_all(ps)) == Seq::<u8>::empty(),
    decreases ps.len(),
{
    if ps.len() == 0 {
        assert(!has_frame(frame_all(ps)));
        assert(frames_of(frame_all(ps)) =~= ps);
    } else {
        let b = frame_all(ps);
        lemma_parse_frame(ps.first(), frame_all(ps.drop_first()));
        lemma_frames_in_order(ps.drop_first());
        assert(has_frame(b));
        assert(frame_payload(b) == ps.first());
        assert(frame_rest(b) == frame_all(ps.drop_first()));
        assert(frames_of(b) == seq![frame_payload(b)] + frames_of(frame_rest(b)));
        assert(frames_of(b) =~= ps);
        assert(frames_residue(b) == frames_residue(frame_rest(b)));
    }
}

/// Wraps `payload` in one frame.
pub fn encode_frame(payload: &[u8]) -> (r: Vec<u8>)
    requires
        payload@.len() <= 0xffff_ffff,
    ensures
        r@ == frame_bytes(payload@),
{
    let mut r = encode_le32(payload.len() as u32);
    r.extend_from_slice(payload);
    proof {
        assert(r@ =~= frame_bytes(payload@));
    }
    r
}

/// The carried buffer of a framed byte stream: bytes already received but
/// not yet decoded, complete frames first, then at most one partial frame.
#[derive(Debug)]
pub struct FrameBuffer {
    bytes: Vec<u8>,
}

impl View for FrameBuffer {
    type V = Seq<u8>;

    closed spec fn view(&self) -> Seq<u8> {
        self.bytes@
    }
}

impl FrameBuffer {
    /// An empty carried buffer.
    pub fn new() -> (r: FrameBuffer)
        ensures
            r@ == Seq::<u8>::empty(),
    {
        FrameBuffer { bytes: Vec::new() }
    }

    /// How many undecoded bytes are carried.
    pub fn len(&self) -> (r: usize)
        ensures
            r == self@.len(),
    {
        self.bytes.len()
    }

    /// Whether no undecoded bytes are carried.
    pub fn is_empty(&self) -> (r: bool)
        ensures
            r == (self@.len() == 0),
    {
        self.bytes.len() == 0
    }

    /// Appends one received chunk. Only the concatenation of the fed chunks
    /// matters, never how the stream was cut into chunks.
    pub fn feed(&mut self, chunk: &[u8])
        ensures
            final(self)@ == old(self)@ + chunk@,
    {
        self.bytes.extend_from_slice(chunk);
    }

    /// Takes the first complete frame off the buffer, if one is present, and
    /// keeps every byte after it for the next call.
    pub fn try_take_frame(&mut self) -> (r: Option<Vec<u8>>)
        ensures
            has_frame(old(self)@) ==> r is Some && r.unwrap()@ == frame_payload(old(self)@)
                && final(self)@ == frame_rest(old(self)@),
            !has_frame(old(self)@) ==> r is None && final(self)@ == old(self)@,
    {
        if self.bytes.len() < 4 {
            return None;
        }
        let len32 = decode_le32(self.bytes[0], self.bytes[1], self.bytes[2], self.bytes[3]);
        proof {
            assert(self.bytes@.subrange(0, 4) =~= seq![
                self.bytes@[0],
                self.bytes@[1],
                self.bytes@[2],
                self.bytes@[3],
            ]);
            assert(len32 == announced_len(self@));
        }
        let need: u64 = 4u64 + len32 as u64;
        if (self.bytes.len() as u64) < need {
            return None;
        }
        let total: usize = need as usize;
        let payload = vstd::slice::slice_to_vec(vstd::slice::slice_subrange(
            self.bytes.as_slice(),
            4,
            total,
        ));
        let tail = self.bytes.split_off(total);
        self.bytes = tail;
        proof {
            assert(payload@ =~= frame_payload(old(self)@));
            assert(self@ =~= frame_rest(old(self)@));
        }
        Some(payload)
    }
}

} // verus!
