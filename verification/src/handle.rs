//! Ownership state machines for raw OS resources.
//!
//! An [`Fd`] wraps one raw file descriptor and tracks whether it is still
//! owned. Every transition that gives up the descriptor hands the raw value
//! back to the caller, who must perform the matching system call (`close`,
//! and so on): this crate decides, the embedding process acts. A descriptor
//! can never be released twice, and taking it out leaves the handle closed,
//! so responsibility is transferred exactly once.
use vstd::prelude::*;
use crate::error::{LibcError, SyscallId, EBADF};

verus! {

/// One raw file descriptor with explicit ownership: either still owned
/// (`Open`) or already released or transferred (`Closed`).
#[derive(PartialEq, Eq, Structural, Debug)]
pub enum Fd {
    Closed,
    Open(i32),
}

impl Fd {
    /// Takes ownership of a raw descriptor the OS just handed out.
    pub fn from_raw(raw: i32) -> (r: Fd)
        ensures
            r == Fd::Open(raw),
    {
        Fd::Open(raw)
    }

    /// Whether the handle still owns its descriptor.
    pub fn is_open(&self) -> (r: bool)
        ensures
            r == (self is Open),
    {
        match self {
            Fd::Open(_) => true,
            Fd::Closed => false,
        }
    }

    /// Gives up the descriptor for release. The caller must close the raw
    /// descriptor it receives. Closing an already-closed handle is an error,
    /// reported as the OS would report a bad descriptor.
    pub fn close(&mut self) -> (r: Result<i32, LibcError>)
        ensures
            (*old(self)) is Open ==> r == Ok::<i32, LibcError>((*old(self))->Open_0)
                && *final(self) == Fd::Closed,
            (*old(self)) is Closed ==> r == Err::<i32, LibcError>(
                LibcError { call: SyscallId::Close, errno: EBADF },
            ) && *final(self) == Fd::Closed,
    {
        match *self {
            Fd::Open(raw) => {
                *self = Fd::Closed;
                Ok(raw)
            },
            Fd::Closed => Err(LibcError::bad_fd(SyscallId::Close)),
        }
    }

    /// Like [`Fd::close`], but succeeds silently when the handle is already
    /// closed. `None` means there is nothing to release.
    pub fn try_close(&mut self) -> (r: Option<i32>)
        ensures
            (*old(self)) is Open ==> r == Some((*old(self))->Open_0),
            (*old(self)) is Closed ==> r is None,
            *final(self) == Fd::Closed,
    {
        match *self {
            Fd::Open(raw) => {
                *self = Fd::Closed;
                Some(raw)
            },
            Fd::Closed => None,
        }
    }

    /// The raw descriptor, for performing a call that does not transfer
    /// ownership.
    pub fn get_fd(&self) -> (r: Result<i32, LibcError>)
        ensures
            self is Open ==> r == Ok::<i32, LibcError>(self->Open_0),
            self is Closed ==> r == Err::<i32, LibcError>(
                LibcError { call: SyscallId::GetFd, errno: EBADF },
            ),
    {
        match *self {
            Fd::Open(raw) => Ok(raw),
            Fd::Closed => Err(LibcError::bad_fd(SyscallId::GetFd)),
        }
    }

    /// Transfers the responsibility of closing the descriptor to the caller
    /// without releasing it.
    pub fn take_raw(&mut self) -> (r: Result<i32, LibcError>)
        ensures
            (*old(self)) is Open ==> r == Ok::<i32, LibcError>((*old(self))->Open_0)
                && *final(self) == Fd::Closed,
            (*old(self)) is Closed ==> r == Err::<i32, LibcError>(
                LibcError { call: SyscallId::TakeRaw, errno: EBADF },
            ) && *final(self) == Fd::Closed,
    {
        match *self {
            Fd::Open(raw) => {
                *self = Fd::Closed;
                Ok(raw)
            },
            Fd::Closed => Err(LibcError::bad_fd(SyscallId::TakeRaw)),
        }
    }

    /// A second handle on the same underlying resource, made from the raw
    /// descriptor the OS returned for a `dup` of this one. Duplicating a
    /// closed handle yields another closed handle, and needs no OS call.
    pub fn duplicated(&self, dup_raw: i32) -> (r: Fd)
        ensures
            self is Open ==> r == Fd::Open(dup_raw),
            self is Closed ==> r == Fd::Closed,
    {
        match *self {
            Fd::Open(_) => Fd::Open(dup_raw),
            Fd::Closed => Fd::Closed,
        }
    }
}

/// One unidirectional pipe: the reading and the writing descriptor, each
/// individually owned.
#[derive(PartialEq, Eq, Structural, Debug)]
pub struct Pipe {
    pub read_fd: Fd,
    pub write_fd: Fd,
}

impl Pipe {
    /// Wraps the two raw descriptors a `pipe` call just produced.
    pub fn from_raw(read_raw: i32, write_raw: i32) -> (r: Pipe)
        ensures
            r == (Pipe { read_fd: Fd::Open(read_raw), write_fd: Fd::Open(write_raw) }),
    {
        Pipe { read_fd: Fd::from_raw(read_raw), write_fd: Fd::from_raw(write_raw) }
    }

    /// Gives up the writing descriptor for release.
    pub fn close_write(&mut self) -> (r: Result<i32, LibcError>)
        ensures
            final(self).read_fd == old(self).read_fd,
            final(self).write_fd == Fd::Closed,
            old(self).write_fd is Open ==> r == Ok::<i32, LibcError>(old(self).write_fd->Open_0),
            old(self).write_fd is Closed ==> r is Err,
    {
        self.write_fd.close()
    }

    /// Gives up the reading descriptor for release.
    pub fn close_read(&mut self) -> (r: Result<i32, LibcError>)
        ensures
            final(self).write_fd == old(self).write_fd,
            final(self).read_fd == Fd::Closed,
            old(self).read_fd is Open ==> r == Ok::<i32, LibcError>(old(self).read_fd->Open_0),
            old(self).read_fd is Closed ==> r is Err,
    {
        self.read_fd.close()
    }

    /// Gives up both descriptors, writing end first. On an error the
    /// remaining state tells which descriptor is still owned.
    pub fn close(&mut self) -> (r: Result<(i32, i32), LibcError>)
        ensures
            r is Ok ==> old(self).write_fd is Open && old(self).read_fd is Open
                && r == Ok::<(i32, i32), LibcError>(
                (old(self).write_fd->Open_0, old(self).read_fd->Open_0),
            ) && final(self).write_fd == Fd::Closed && final(self).read_fd == Fd::Closed,
            r is Err ==> (old(self).write_fd is Closed || old(self).read_fd is Closed),
    {
        let w = self.close_write()?;
        let r = self.close_read()?;
        Ok((w, r))
    }

    /// Takes the reading half out, leaving it closed here.
    pub fn take_read(&mut self) -> (r: Fd)
        ensures
            r == old(self).read_fd,
            final(self).read_fd == Fd::Closed,
            final(self).write_fd == old(self).write_fd,
    {
        let mut taken = Fd::Closed;
        core::mem::swap(&mut taken, &mut self.read_fd);
        taken
    }

    /// Takes the writing half out, leaving it closed here.
    pub fn take_write(&mut self) -> (r: Fd)
        ensures
            r == old(self).write_fd,
            final(self).write_fd == Fd::Closed,
            final(self).read_fd == old(self).read_fd,
    {
        let mut taken = Fd::Closed;
        core::mem::swap(&mut taken, &mut self.write_fd);
        taken
    }
}

} // verus!
