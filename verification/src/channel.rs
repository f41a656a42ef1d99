//! The duplex byte channel and its two post-fork endpoints.
//!
//! Before the process split, a channel owns two unidirectional pipes — four
//! descriptors in all. After the split each side keeps exactly the two
//! halves it needs and must close the other two: the server reads the
//! client-to-server pipe and writes the server-to-client pipe, the client
//! the other way round. Each conversion reports which raw descriptors the
//! caller must now close, and the server endpoint reports which it must
//! switch to non-blocking mode, so no descriptor is ever leaked or released
//! twice.
use vstd::prelude::*;
use crate::error::{LibcError, SyscallId, EBADF};
use crate::handle::{Fd, Pipe};

verus! {

/// A bidirectional channel as it exists before the process split: both
/// pipes, all four descriptors owned.
#[derive(Debug)]
pub struct DuplexChannel {
    /// Server-to-client pipe.
    pub s2c_pipe: Pipe,
    /// Client-to-server pipe.
    pub c2s_pipe: Pipe,
}

/// The server's side of a split channel. Its descriptors are meant to run in
/// non-blocking mode, so the event loop can multiplex many of them.
#[derive(Debug)]
pub struct ServerEndPoint {
    pub read_fd: Fd,
    pub write_fd: Fd,
}

/// The client's side of a split channel. Its descriptors stay blocking, for
/// synchronous call-and-response use.
#[derive(Debug)]
pub struct ClientEndPoint {
    pub read_fd: Fd,
    pub write_fd: Fd,
}

impl DuplexChannel {
    /// Wraps the two freshly created pipes, before any process split.
    pub fn new_prefork(s2c_pipe: Pipe, c2s_pipe: Pipe) -> (r: DuplexChannel)
        ensures
            r.s2c_pipe == s2c_pipe,
            r.c2s_pipe == c2s_pipe,
    {
        DuplexChannel { s2c_pipe, c2s_pipe }
    }

    /// The server side keeps the read half of the client-to-server pipe and
    /// the write half of the server-to-client pipe. On success the first
    /// returned pair holds the two raw descriptors the caller must close
    /// (the halves belonging to the client side), and the second pair the
    /// endpoint's own raw descriptors, which the caller must switch to
    /// non-blocking mode; a failure to do either is a fatal setup error.
    pub fn into_server_end_point_postfork(self) -> (r: Result<
        (ServerEndPoint, (i32, i32), (i32, i32)),
        LibcError,
    >)
        ensures
            r is Ok ==> ({
                let (ep, to_close, to_unblock) = r->Ok_0;
                &&& self.s2c_pipe.read_fd is Open
                &&& self.s2c_pipe.write_fd is Open
                &&& self.c2s_pipe.read_fd is Open
                &&& self.c2s_pipe.write_fd is Open
                &&& ep.read_fd == self.c2s_pipe.read_fd
                &&& ep.write_fd == self.s2c_pipe.write_fd
                &&& to_close == (self.s2c_pipe.read_fd->Open_0, self.c2s_pipe.write_fd->Open_0)
                &&& to_unblock == (self.c2s_pipe.read_fd->Open_0, self.s2c_pipe.write_fd->Open_0)
            }),
            r is Err ==> (self.s2c_pipe.read_fd is Closed || self.s2c_pipe.write_fd is Closed
                || self.c2s_pipe.read_fd is Closed || self.c2s_pipe.write_fd is Closed),
    {
        let mut this = self;
        let close_read = this.s2c_pipe.close_read()?;
        let close_write = this.c2s_pipe.close_write()?;
        let read_fd = this.c2s_pipe.take_read();
        let write_fd = this.s2c_pipe.take_write();
        let (ep, to_unblock) = ServerEndPoint::new(read_fd, write_fd)?;
        Ok((ep, (close_read, close_write), to_unblock))
    }

    /// The client side keeps the read half of the server-to-client pipe and
    /// the write half of the client-to-server pipe. The returned pair holds
    /// the two raw descriptors the caller must close (the halves belonging
    /// to the server side).
    pub fn into_client_end_point_postfork(self) -> (r: Result<
        (ClientEndPoint, (i32, i32)),
        LibcError,
    >)
        ensures
            r is Ok ==> ({
                let (ep, to_close) = r->Ok_0;
                &&& self.s2c_pipe.write_fd is Open
                &&& self.c2s_pipe.read_fd is Open
                &&& ep.read_fd == self.s2c_pipe.read_fd
                &&& ep.write_fd == self.c2s_pipe.write_fd
                &&& to_close == (self.s2c_pipe.write_fd->Open_0, self.c2s_pipe.read_fd->Open_0)
            }),
            r is Err ==> (self.s2c_pipe.write_fd is Closed || self.c2s_pipe.read_fd is Closed),
    {
        let mut this = self;
        let close_write = this.s2c_pipe.close_write()?;
        let close_read = this.c2s_pipe.close_read()?;
        let read_fd = this.s2c_pipe.take_read();
        let write_fd = this.c2s_pipe.take_write();
        Ok((ClientEndPoint::new(read_fd, write_fd), (close_write, close_read)))
    }

    /// Takes the whole channel out, leaving a channel that owns nothing.
    pub fn take(&mut self) -> (r: DuplexChannel)
        ensures
            r == *old(self),
            final(self).s2c_pipe.read_fd == Fd::Closed,
            final(self).s2c_pipe.write_fd == Fd::Closed,
            final(self).c2s_pipe.read_fd == Fd::Closed,
            final(self).c2s_pipe.write_fd == Fd::Closed,
    {
        let mut taken = DuplexChannel {
            s2c_pipe: Pipe { read_fd: Fd::Closed, write_fd: Fd::Closed },
            c2s_pipe: Pipe { read_fd: Fd::Closed, write_fd: Fd::Closed },
        };
        core::mem::swap(&mut taken, self);
        taken
    }

    /// Gives up all four descriptors for release, server-to-client pipe
    /// first, each pipe writing end first.
    pub fn close(&mut self) -> (r: Result<((i32, i32), (i32, i32)), LibcError>)
        ensures
            r is Ok ==> ({
                &&& old(self).s2c_pipe.read_fd is Open
                &&& old(self).s2c_pipe.write_fd is Open
                &&& old(self).c2s_pipe.read_fd is Open
                &&& old(self).c2s_pipe.write_fd is Open
                &&& r->Ok_0 == (
                    (old(self).s2c_pipe.write_fd->Open_0, old(self).s2c_pipe.read_fd->Open_0),
                    (old(self).c2s_pipe.write_fd->Open_0, old(self).c2s_pipe.read_fd->Open_0),
                )
                &&& final(self).s2c_pipe.read_fd == Fd::Closed
                &&& final(self).s2c_pipe.write_fd == Fd::Closed
                &&& final(self).c2s_pipe.read_fd == Fd::Closed
                &&& final(self).c2s_pipe.write_fd == Fd::Closed
            }),
    {
        let first = self.s2c_pipe.close()?;
        let second = self.c2s_pipe.close()?;
        Ok((first, second))
    }
}

impl ServerEndPoint {
    /// Builds the server endpoint from the two halves it keeps. Both must
    /// still be owned; the returned raw pair (read, write) must be switched
    /// to non-blocking mode by the caller.
    pub fn new(read_fd: Fd, write_fd: Fd) -> (r: Result<(ServerEndPoint, (i32, i32)), LibcError>)
        ensures
            read_fd is Open && write_fd is Open ==> r is Ok && ({
                let (ep, to_unblock) = r->Ok_0;
                &&& ep.read_fd == read_fd
                &&& ep.write_fd == write_fd
                &&& to_unblock == (read_fd->Open_0, write_fd->Open_0)
            }),
            !(read_fd is Open && write_fd is Open) ==> r == Err::<
                (ServerEndPoint, (i32, i32)),
                LibcError,
            >(LibcError { call: SyscallId::EndPointNew, errno: EBADF }),
    {
        let read_raw = match read_fd.get_fd() {
            Ok(raw) => raw,
            Err(_) => {
                return Err(LibcError::bad_fd(SyscallId::EndPointNew));
            },
        };
        let write_raw = match write_fd.get_fd() {
            Ok(raw) => raw,
            Err(_) => {
                return Err(LibcError::bad_fd(SyscallId::EndPointNew));
            },
        };
        Ok((ServerEndPoint { read_fd, write_fd }, (read_raw, write_raw)))
    }

    /// The raw descriptor the event loop reads from, also used as this
    /// connection's readiness token.
    pub fn read_raw(&self) -> (r: Result<i32, LibcError>)
        ensures
            self.read_fd is Open ==> r == Ok::<i32, LibcError>(self.read_fd->Open_0),
            self.read_fd is Closed ==> r is Err,
    {
        self.read_fd.get_fd()
    }

    /// The raw descriptor the event loop writes to.
    pub fn write_raw(&self) -> (r: Result<i32, LibcError>)
        ensures
            self.write_fd is Open ==> r == Ok::<i32, LibcError>(self.write_fd->Open_0),
            self.write_fd is Closed ==> r is Err,
    {
        self.write_fd.get_fd()
    }

    /// Gives up both descriptors for release, writing end first.
    pub fn close(&mut self) -> (r: Result<(i32, i32), LibcError>)
        ensures
            r is Ok ==> old(self).write_fd is Open && old(self).read_fd is Open && r == Ok::<
                (i32, i32),
                LibcError,
            >((old(self).write_fd->Open_0, old(self).read_fd->Open_0))
                && final(self).write_fd == Fd::Closed && final(self).read_fd == Fd::Closed,
            r is Err ==> (old(self).write_fd is Closed || old(self).read_fd is Closed),
    {
        let w = self.write_fd.close()?;
        let r = self.read_fd.close()?;
        Ok((w, r))
    }
}

impl ClientEndPoint {
    /// Builds the client endpoint from the two halves it keeps.
    pub fn new(read_fd: Fd, write_fd: Fd) -> (r: ClientEndPoint)
        ensures
            r.read_fd == read_fd,
            r.write_fd == write_fd,
    {
        ClientEndPoint { read_fd, write_fd }
    }

    /// The raw descriptor the client reads replies from.
    pub fn read_raw(&self) -> (r: Result<i32, LibcError>)
        ensures
            self.read_fd is Open ==> r == Ok::<i32, LibcError>(self.read_fd->Open_0),
            self.read_fd is Closed ==> r is Err,
    {
        self.read_fd.get_fd()
    }

    /// The raw descriptor the client writes requests to.
    pub fn write_raw(&self) -> (r: Result<i32, LibcError>)
        ensures
            self.write_fd is Open ==> r == Ok::<i32, LibcError>(self.write_fd->Open_0),
            self.write_fd is Closed ==> r is Err,
    {
        self.write_fd.get_fd()
    }

    /// Gives up both descriptors for release, writing end first.
    pub fn close(&mut self) -> (r: Result<(i32, i32), LibcError>)
        ensures
            r is Ok ==> old(self).write_fd is Open && old(self).read_fd is Open && r == Ok::<
                (i32, i32),
                LibcError,
            >((old(self).write_fd->Open_0, old(self).read_fd->Open_0))
                && final(self).write_fd == Fd::Closed && final(self).read_fd == Fd::Closed,
            r is Err ==> (old(self).write_fd is Closed || old(self).read_fd is Closed),
    {
        let w = self.write_fd.close()?;
        let r = self.read_fd.close()?;
        Ok((w, r))
    }
}

} // verus!
