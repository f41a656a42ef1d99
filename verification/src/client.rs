//! The client's side of the transport: synchronous request/reply framing
//! and the mapped-file handle.
//!
//! The client blocks on its pipe: it frames one request, writes it fully,
//! then reads until one full reply frame has arrived. The byte-level loops
//! belong to the embedding process; this module builds the exact bytes to
//! send and decodes whatever bytes arrive, through the same carried
//! [`FrameBuffer`] discipline the server uses, so partial reads never
//! change what is decoded.
use vstd::prelude::*;
use crate::error::{LibcError, SyscallId, VfsIpcError, EBADF};
use crate::frame::{
    frame_bytes, frame_payload, frame_rest, has_frame, encode_frame, FrameBuffer,
};
use crate::msg::{
    spec_decode_reply, spec_encode_reply, spec_encode_request, VfsReplyMsg, VfsRequestMsg,
};

verus! {

/// The path a request names.
pub open spec fn request_path(m: crate::msg::VfsRequestView) -> Seq<u8> {
    match m {
        crate::msg::VfsRequestView::OpenFile(p) => p,
        crate::msg::VfsRequestView::CloseFile(p) => p,
    }
}

/// Builds the one frame that carries `req`: length prefix, then the encoded
/// request. The caller must write all of it, in order, with its blocking
/// write loop.
pub fn build_request_frame(req: &VfsRequestMsg) -> (r: Vec<u8>)
    requires
        request_path(req@).len() <= 0x7fff_ffff,
    ensures
        r@ == frame_bytes(spec_encode_request(req@)),
{
    let payload = crate::msg::encode_request(req);
    encode_frame(payload.as_slice())
}

/// Builds the one frame that carries `rep`, for the blocking reply path.
pub fn build_reply_frame(rep: &VfsReplyMsg) -> (r: Vec<u8>)
    requires
        rep.path@.len() <= 0x7fff_fffd,
        rep.user_data@.len() <= 0x7fff_fffd,
    ensures
        r@ == frame_bytes(spec_encode_reply(rep@)),
{
    let payload = crate::msg::encode_reply(rep);
    encode_frame(payload.as_slice())
}

/// Takes the next complete reply off the carried buffer, if one is there.
/// `Ok(None)` asks the caller to read more bytes from the pipe and feed
/// them in. A frame that does not decode to a reply is a protocol-fatal
/// error. Surplus bytes after the frame stay buffered for the next call.
pub fn take_reply(buf: &mut FrameBuffer) -> (r: Result<Option<VfsReplyMsg>, VfsIpcError>)
    ensures
        !has_frame(old(buf)@) ==> r == Ok::<Option<VfsReplyMsg>, VfsIpcError>(None)
            && final(buf)@ == old(buf)@,
        has_frame(old(buf)@) ==> final(buf)@ == frame_rest(old(buf)@) && match spec_decode_reply(
            frame_payload(old(buf)@),
        ) {
            Some(m) => r is Ok && r->Ok_0 is Some && r->Ok_0.unwrap()@ == m,
            None => r == Err::<Option<VfsReplyMsg>, VfsIpcError>(VfsIpcError::DeserializeError),
        },
{
    match buf.try_take_frame() {
        None => Ok(None),
        Some(payload) => {
            match crate::msg::decode_reply(payload.as_slice()) {
                Some(m) => Ok(Some(m)),
                None => Err(VfsIpcError::DeserializeError),
            }
        },
    }
}

/// The client's view of one opened file: a read-only mapping of the named
/// region, of exactly the length the server reported. The mapping itself
/// lives in the embedding process; this handle owns its lifecycle, and
/// must be closed exactly once — the close hands back the length to unmap.
#[derive(Debug)]
pub enum VfsIpcFileHandle {
    Open { length: u32 },
    Closed,
}

impl VfsIpcFileHandle {
    /// Adopts the mapping the caller just attached for `reply`: the caller
    /// attached the shared region named in the reply read-only and must
    /// keep it exactly `reply.length` bytes long. Returns the handle and
    /// the opaque per-file user data that travelled with the reply.
    pub fn from_reply(reply: VfsReplyMsg) -> (r: (VfsIpcFileHandle, Vec<u8>))
        ensures
            r.0 == (VfsIpcFileHandle::Open { length: reply.length }),
            r.1 == reply.user_data,
    {
        (VfsIpcFileHandle::Open { length: reply.length }, reply.user_data)
    }

    /// How many bytes the mapping holds. Asking a closed handle is an
    /// error: the bytes are gone.
    pub fn mapped_len(&self) -> (r: Result<u32, VfsIpcError>)
        ensures
            self is Open ==> r == Ok::<u32, VfsIpcError>(self->length),
            self is Closed ==> r == Err::<u32, VfsIpcError>(VfsIpcError::GetFileFromClosedHandle),
    {
        match self {
            VfsIpcFileHandle::Open { length } => Ok(*length),
            VfsIpcFileHandle::Closed => Err(VfsIpcError::GetFileFromClosedHandle),
        }
    }

    /// Closes the handle. The caller must unmap exactly the returned number
    /// of bytes. Closing twice is an error, reported as the OS reports a
    /// bad descriptor.
    pub fn close(&mut self) -> (r: Result<u32, LibcError>)
        ensures
            (*old(self)) is Open ==> r == Ok::<u32, LibcError>((*old(self))->length)
                && *final(self) == VfsIpcFileHandle::Closed,
            (*old(self)) is Closed ==> r == Err::<u32, LibcError>(
                LibcError { call: SyscallId::HandleClose, errno: EBADF },
            ) && *final(self) == VfsIpcFileHandle::Closed,
    {
        match *self {
            VfsIpcFileHandle::Open { length } => {
                *self = VfsIpcFileHandle::Closed;
                Ok(length)
            },
            VfsIpcFileHandle::Closed => Err(LibcError::bad_fd(SyscallId::HandleClose)),
        }
    }
}

} // verus!
