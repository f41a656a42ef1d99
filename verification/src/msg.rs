//! The two message kinds of the transport and their payload encoding.
//!
//! A request asks the server to open or close one file, named by its
//! canonical path (a byte string, as paths are on the wire). A reply carries
//! the NUL-terminated name of the shared-memory region holding the file
//! bytes, the byte length of the region, and the opaque per-file user data
//! supplied by the virtual-file-system collaborator, already serialized to
//! bytes by the caller.
//!
//! The payload encoding is deliberately plain: a request is one tag byte
//! followed by the path; a reply is the region name (terminated by its NUL),
//! then the little-endian 32-bit region length, then the user data to the end
//! of the payload. Framing (the outer length prefix) lives in [`crate::frame`].
use vstd::prelude::*;
use crate::frame::{frame_bytes, frame_payload, frame_rest, has_frame, lemma_parse_frame};
use crate::wire::{le32_bytes, le32_value, lemma_le32_round_trip, encode_le32, decode_le32};

verus! {

/// A client request: open or close one file by canonical path.
#[derive(Debug)]
pub enum VfsRequestMsg {
    OpenFile(Vec<u8>),
    CloseFile(Vec<u8>),
}

/// The mathematical value of a request.
#[verifier::ext_equal]
pub enum VfsRequestView {
    OpenFile(Seq<u8>),
    CloseFile(Seq<u8>),
}

impl View for VfsRequestMsg {
    type V = VfsRequestView;

    open spec fn view(&self) -> VfsRequestView {
        match self {
            VfsRequestMsg::OpenFile(p) => VfsRequestView::OpenFile(p@),
            VfsRequestMsg::CloseFile(p) => VfsRequestView::CloseFile(p@),
        }
    }
}

/// A server reply to an open request.
#[derive(Debug)]
pub struct VfsReplyMsg {
    /// Name of the shared-memory region, including its terminating NUL byte.
    pub path: Vec<u8>,
    /// Byte length of the region, equal to the length of the file snapshot.
    pub length: u32,
    /// Opaque per-file user data, already serialized to bytes.
    pub user_data: Vec<u8>,
}

/// The mathematical value of a reply.
#[verifier::ext_equal]
pub struct VfsReplyView {
    pub path: Seq<u8>,
    pub length: u32,
    pub user_data: Seq<u8>,
}

impl View for VfsReplyMsg {
    type V = VfsReplyView;

    open spec fn view(&self) -> VfsReplyView {
        VfsReplyView { path: self.path@, length: self.length, user_data: self.user_data@ }
    }
}

/// A reply is well formed when its region name is a NUL-terminated byte
/// string with no interior NUL, as the wire format requires.
pub open spec fn wf_reply(r: VfsReplyView) -> bool {
    &&& r.path.len() >= 1
    &&& r.path.last() == 0
    &&& forall|i: int| 0 <= i < r.path.len() - 1 ==> #[trigger] r.path[i] != 0
}

pub open spec fn spec_encode_request(m: VfsRequestView) -> Seq<u8> {
    match m {
        VfsRequestView::OpenFile(p) => seq![0u8] + p,
        VfsRequestView::CloseFile(p) => seq![1u8] + p,
    }
}

pub open spec fn spec_decode_request(b: Seq<u8>) -> Option<VfsRequestView> {
    if b.len() < 1 {
        None
    } else if b.first() == 0 {
        Some(VfsRequestView::OpenFile(b.drop_first()))
    } else if b.first() == 1 {
        Some(VfsRequestView::CloseFile(b.drop_first()))
    } else {
        None
    }
}

pub open spec fn spec_encode_reply(r: VfsReplyView) -> Seq<u8> {
    r.path + le32_bytes(r.length) + r.user_data
}

/// Index of the first NUL byte of `b`, or `b.len()` when there is none.
pub open spec fn nul_pos(b: Seq<u8>) -> int
    decreases b.len(),
{
    if b.len() == 0 {
        0
    } else if b.first() == 0 {
        0
    } else {
        1 + nul_pos(b.drop_first())
    }
}

pub open spec fn spec_decode_reply(b: Seq<u8>) -> Option<VfsReplyView> {
    let k = nul_pos(b);
    if k < b.len() && b.len() >= k + 5 {
        Some(
            VfsReplyView {
                path: b.subrange(0, k + 1),
                length: le32_value(b.subrange(k + 1, k + 5)),
                user_data: b.subrange(k + 5, b.len() as int),
            },
        )
    } else {
        None
    }
}

/// `nul_pos` finds exactly the first NUL.
pub proof fn lemma_nul_pos(b: Seq<u8>, k: int)
    requires
        0 <= k < b.len(),
        b[k] == 0,
        forall|i: int| 0 <= i < k ==> #[trigger] b[i] != 0,
    ensures
        nul_pos(b) == k,
    decreases k,
{
    if k > 0 {
        lemma_nul_pos(b.drop_first(), k - 1);
    }
}

/// Decoding an encoded request yields the request back, whatever the path.
pub proof fn lemma_request_round_trip(m: VfsRequestView)
    ensures
        spec_decode_request(spec_encode_request(m)) == Some(m),
{
    match m {
        VfsRequestView::OpenFile(p) => {
            assert(spec_encode_request(m).drop_first() =~= p);
        },
        VfsRequestView::CloseFile(p) => {
            assert(spec_encode_request(m).drop_first() =~= p);
        },
    }
}

/// Decoding an encoded well-formed reply yields the reply back.
pub proof fn lemma_reply_round_trip(r: VfsReplyView)
    requires
        wf_reply(r),
    ensures
        spec_decode_reply(spec_encode_reply(r)) == Some(r),
{
    let b = spec_encode_reply(r);
    let k = r.path.len() - 1;
    assert forall|i: int| 0 <= i < k implies #[trigger] b[i] != 0 by {
        assert(b[i] == r.path[i]);
    }
    lemma_nul_pos(b, k);
    lemma_le32_round_trip(r.length);
    assert(b.subrange(0, k + 1) =~= r.path);
    assert(b.subrange(k + 1, k + 5) =~= le32_bytes(r.length));
    assert(b.subrange(k + 5, b.len() as int) =~= r.user_data);
    assert(spec_decode_reply(b).unwrap() =~= r);
}

/// A framed request at the front of a byte stream decodes back to itself,
/// whatever bytes follow it. The stream may have arrived in arbitrarily many
/// partial reads: [`crate::frame::FrameBuffer::feed`] guarantees that only
/// the concatenation of the chunks matters, and this lemma speaks of that
/// concatenation.
pub proof fn lemma_framed_request_round_trip(m: VfsRequestView, rest: Seq<u8>)
    requires
        spec_encode_request(m).len() <= 0xffff_ffff,
    ensures
        has_frame(frame_bytes(spec_encode_request(m)) + rest),
        spec_decode_request(frame_payload(frame_bytes(spec_encode_request(m)) + rest)) == Some(m),
        frame_rest(frame_bytes(spec_encode_request(m)) + rest) == rest,
{
    lemma_parse_frame(spec_encode_request(m), rest);
    lemma_request_round_trip(m);
}

/// A framed well-formed reply at the front of a byte stream decodes back to
/// itself, whatever bytes follow it, however the stream was cut into reads.
pub proof fn lemma_framed_reply_round_trip(r: VfsReplyView, rest: Seq<u8>)
    requires
        wf_reply(r),
        spec_encode_reply(r).len() <= 0xffff_ffff,
    ensures
        has_frame(frame_bytes(spec_encode_reply(r)) + rest),
        spec_decode_reply(frame_payload(frame_bytes(spec_encode_reply(r)) + rest)) == Some(r),
        frame_rest(frame_bytes(spec_encode_reply(r)) + rest) == rest,
{
    lemma_parse_frame(spec_encode_reply(r), rest);
    lemma_reply_round_trip(r);
}

/// Encodes a request payload.
pub fn encode_request(m: &VfsRequestMsg) -> (r: Vec<u8>)
    ensures
        r@ == spec_encode_request(m@),
{
    let mut r: Vec<u8> = Vec::new();
    match m {
        VfsRequestMsg::OpenFile(p) => {
            r.push(0);
            r.extend_from_slice(p.as_slice());
        },
        VfsRequestMsg::CloseFile(p) => {
            r.push(1);
            r.extend_from_slice(p.as_slice());
        },
    }
    proof {
        assert(r@ =~= spec_encode_request(m@));
    }
    r
}

/// Decodes a request payload.
pub fn decode_request(b: &[u8]) -> (r: Option<VfsRequestMsg>)
    ensures
        r is Some <==> spec_decode_request(b@) is Some,
        r is Some ==> r.unwrap()@ == spec_decode_request(b@).unwrap(),
{
    if b.len() < 1 {
        return None;
    }
    let tag = *vstd::slice::slice_index_get(b, 0);
    let path = vstd::slice::slice_to_vec(vstd::slice::slice_subrange(b, 1, b.len()));
    proof {
        assert(path@ =~= b@.drop_first());
    }
    if tag == 0 {
        Some(VfsRequestMsg::OpenFile(path))
    } else if tag == 1 {
        Some(VfsRequestMsg::CloseFile(path))
    } else {
        None
    }
}

/// Encodes a reply payload.
pub fn encode_reply(r: &VfsReplyMsg) -> (out: Vec<u8>)
    ensures
        out@ == spec_encode_reply(r@),
{
    let mut out: Vec<u8> = Vec::new();
    out.extend_from_slice(r.path.as_slice());
    let len_bytes = encode_le32(r.length);
    out.extend_from_slice(len_bytes.as_slice());
    out.extend_from_slice(r.user_data.as_slice());
    proof {
        assert(out@ =~= spec_encode_reply(r@));
    }
    out
}

/// Decodes a reply payload. A decoded reply is always well formed: its
/// region name is exactly the bytes up to and including the first NUL.
pub fn decode_reply(b: &[u8]) -> (r: Option<VfsReplyMsg>)
    ensures
        r is Some <==> spec_decode_reply(b@) is Some,
        r is Some ==> r.unwrap()@ == spec_decode_reply(b@).unwrap(),
        r is Some ==> wf_reply(r.unwrap()@),
{
    let len = b.len();
    let mut k: usize = 0;
    while k < len && *vstd::slice::slice_index_get(b, k) != 0
        invariant
            0 <= k <= len,
            len == b@.len(),
            forall|i: int| 0 <= i < k ==> #[trigger] b@[i] != 0,
        decreases len - k,
    {
        k = k + 1;
    }
    if k >= len {
        proof {
            if nul_pos(b@) < b@.len() {
                lemma_nul_pos_found(b@);
            }
        }
        return None;
    }
    proof {
        lemma_nul_pos(b@, k as int);
    }
    if len - k < 5 {
        return None;
    }
    let path = vstd::slice::slice_to_vec(vstd::slice::slice_subrange(b, 0, k + 1));
    let length = decode_le32(
        *vstd::slice::slice_index_get(b, k + 1),
        *vstd::slice::slice_index_get(b, k + 2),
        *vstd::slice::slice_index_get(b, k + 3),
        *vstd::slice::slice_index_get(b, k + 4),
    );
    let user_data = vstd::slice::slice_to_vec(vstd::slice::slice_subrange(b, k + 5, len));
    proof {
        let kk = k as int;
        assert(b@.subrange(kk + 1, kk + 5) =~= seq![b@[kk + 1], b@[kk + 2], b@[kk + 3], b@[kk + 4]]);
        assert(path@ =~= b@.subrange(0, kk + 1));
        assert(user_data@ =~= b@.subrange(kk + 5, b@.len() as int));
    }
    Some(VfsReplyMsg { path, length, user_data })
}

/// When `nul_pos` lands inside `b`, the byte there is a NUL.
pub proof fn lemma_nul_pos_found(b: Seq<u8>)
    requires
        nul_pos(b) < b.len(),
    ensures
        0 <= nul_pos(b),
        b[nul_pos(b)] == 0,
    decreases b.len(),
{
    if b.len() > 0 && b.first() != 0 {
        lemma_nul_pos_found(b.drop_first());
    }
}

} // verus!
