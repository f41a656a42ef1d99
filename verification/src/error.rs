//! Error taxonomy of the transport.
//!
//! Operating-system failures carry the system call that failed and its error
//! number. Protocol failures (malformed frames, a stream closed in the middle
//! of a message) are fatal to the affected connection. Application-level
//! failures (closing a file that was never opened) are recoverable values.
use vstd::prelude::*;

verus! {

/// Error number a closed descriptor reports, as the operating system defines
/// it for a bad file descriptor.
pub const EBADF: i32 = 9;

/// The system call, or descriptor operation, that an OS-level error came
/// from.
#[derive(Clone, Copy, PartialEq, Eq, Structural, Debug)]
pub enum SyscallId {
    Close,
    Dup,
    Read,
    Write,
    Pipe2,
    Fcntl,
    ShmOpen,
    Ftruncate,
    Mmap,
    Munmap,
    ShmUnlink,
    GetFd,
    TakeRaw,
    EndPointNew,
    HandleClose,
}

/// An OS-level failure: which call failed and the error number it reported.
/// A closed-descriptor misuse is reported with the same shape, carrying
/// [`EBADF`], so the error hierarchy stays uniform.
#[derive(Clone, Copy, PartialEq, Eq, Structural, Debug)]
pub struct LibcError {
    pub call: SyscallId,
    pub errno: i32,
}

impl LibcError {
    /// The error a descriptor operation reports when the descriptor is
    /// already closed.
    pub fn bad_fd(call: SyscallId) -> (r: LibcError)
        ensures
            r == (LibcError { call, errno: EBADF }),
    {
        LibcError { call, errno: EBADF }
    }
}

/// Every failure the transport can report.
#[derive(Clone, Copy, PartialEq, Eq, Structural, Debug)]
pub enum VfsIpcError {
    /// A system call failed, or a closed descriptor was used.
    Libc(LibcError),
    /// An inbound payload did not decode to a message.
    DeserializeError,
    /// A peer closed its stream in the middle of a frame.
    PipeCloseMiddle,
    /// A readiness event named a connection the server does not know.
    TokenNotFound,
    /// A connection was removed that was never added, or already removed.
    RemoveUnknownClient,
    /// A close request named a file the connection had not opened.
    CloseNonOpenedFile,
    /// The bytes of an already-closed file handle were asked for.
    GetFileFromClosedHandle,
}

} // verus!
