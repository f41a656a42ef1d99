//! The event-driven server: per-connection bookkeeping, the path-keyed
//! region registry with reference counts, and the request handlers.
//!
//! The server is single threaded. The embedding process runs the readiness
//! loop and the system calls; every decision — which bytes form a request,
//! what reply to queue, when a shared-memory region is created or retired,
//! when write interest must be registered or dropped — is made here, under
//! contract.
//!
//! The registry invariant is the heart of it: at most one live region per
//! canonical path, and each region's reference count equals the number of
//! connections holding that path in their open-files table. A region is
//! retired exactly when its last reference is dropped.
use vstd::prelude::*;
use crate::channel::ServerEndPoint;
use crate::error::VfsIpcError;
use crate::frame::{
    frame_bytes, frame_payload, frame_rest, has_frame, FrameBuffer, encode_frame,
};
use crate::msg::{
    spec_decode_request, spec_encode_reply, VfsReplyMsg, VfsReplyView, VfsRequestMsg,
};
use crate::region::{generate_shm_name, lemma_region_name_fresh, region_name_bytes};
use crate::wire::bytes_eq;

verus! {

/// One live shared-memory region: the registry entry for one canonical path.
#[derive(Debug)]
pub struct RegionEntry {
    /// The canonical file path this region snapshots.
    pub path: Vec<u8>,
    /// The published region name, NUL terminated.
    pub shm_name: Vec<u8>,
    /// Byte length of the snapshot.
    pub length: u32,
    /// The generation the name was minted with; never reused by this server.
    pub generation: u64,
    /// How many connections hold this path open.
    pub refs: u64,
}

/// Per-connection bookkeeping kept by the server.
#[derive(Debug)]
pub struct ConnectionInfo {
    /// This connection's side of the channel.
    pub end_point: ServerEndPoint,
    /// Inbound bytes not yet decoded: complete frames, then a partial one.
    pub read_buf: FrameBuffer,
    /// Outbound bytes not yet accepted by the pipe.
    pub write_buf: Vec<u8>,
    /// The canonical paths this connection has open, each exactly once.
    pub open_files: Vec<Vec<u8>>,
    /// Whether the peer has closed its sending side.
    pub read_finished: bool,
}

/// The server: connection table, region registry, and name-generation state.
pub struct VfsIpcServer {
    /// Connection slots, indexed by token; a removed connection leaves
    /// `None` behind so tokens stay stable.
    pub connections: Vec<Option<ConnectionInfo>>,
    /// The path-keyed registry of live regions.
    pub regions: Vec<RegionEntry>,
    /// Process id of the server, part of every region name.
    pub server_pid: u32,
    /// Next generation to mint; strictly above every generation in use.
    pub next_generation: u64,
}

/// Whether the open-files table `files` holds the path `p`.
pub open spec fn files_hold(files: Seq<Vec<u8>>, p: Seq<u8>) -> bool {
    exists|k: int| 0 <= k < files.len() && (#[trigger] files[k])@ == p
}

/// Whether connection `c` has `p` open.
pub open spec fn conn_holds(c: ConnectionInfo, p: Seq<u8>) -> bool {
    files_hold(c.open_files@, p)
}

/// Whether the connection in slot `s`, if any, has `p` open.
pub open spec fn slot_holds(s: Option<ConnectionInfo>, p: Seq<u8>) -> bool {
    match s {
        Some(c) => conn_holds(c, p),
        None => false,
    }
}

/// How many connections hold `p` open: the reference count of `p`'s region.
pub open spec fn ref_count(conns: Seq<Option<ConnectionInfo>>, p: Seq<u8>) -> nat
    decreases conns.len(),
{
    if conns.len() == 0 {
        0
    } else {
        ref_count(conns.drop_last(), p) + if slot_holds(conns.last(), p) {
            1nat
        } else {
            0nat
        }
    }
}

/// Whether the registry has a live region for `p`.
pub open spec fn has_region(regions: Seq<RegionEntry>, p: Seq<u8>) -> bool {
    exists|i: int| 0 <= i < regions.len() && (#[trigger] regions[i]).path@ == p
}

/// The open-files table holds each path at most once.
pub open spec fn files_distinct(files: Seq<Vec<u8>>) -> bool {
    forall|k1: int, k2: int|
        #![trigger files[k1], files[k2]]
        0 <= k1 < k2 < files.len() ==> files[k1]@ != files[k2]@
}

/// A connection is well formed against the registry: its open files are
/// pairwise distinct and each is backed by a live region.
pub open spec fn wf_conn(c: ConnectionInfo, regions: Seq<RegionEntry>) -> bool {
    &&& files_distinct(c.open_files@)
    &&& forall|k: int|
        0 <= k < c.open_files@.len() ==> has_region(regions, (#[trigger] c.open_files@[k])@)
}

impl VfsIpcServer {
    /// The registry invariant. At most one region per canonical path; every
    /// region name follows the naming convention with a generation below the
    /// counter, generations never shared; every reference count equals the
    /// number of connections holding that path, and is positive — the
    /// registry holds exactly the regions that are still referenced.
    pub open spec fn wf(&self) -> bool {
        &&& forall|i: int, j: int|
            #![trigger self.regions@[i], self.regions@[j]]
            0 <= i < j < self.regions@.len() ==> self.regions@[i].path@ != self.regions@[j].path@
                && self.regions@[i].generation != self.regions@[j].generation
        &&& forall|i: int|
            0 <= i < self.regions@.len() ==> (#[trigger] self.regions@[i]).generation
                < self.next_generation
        &&& forall|i: int|
            0 <= i < self.regions@.len() ==> (#[trigger] self.regions@[i]).shm_name@
                == region_name_bytes(
                self.server_pid,
                self.regions@[i].path@,
                self.regions@[i].generation,
            )
        &&& forall|i: int|
            0 <= i < self.regions@.len() ==> (#[trigger] self.regions@[i]).refs == ref_count(
                self.connections@,
                self.regions@[i].path@,
            ) && self.regions@[i].refs >= 1
        &&& forall|ci: int|
            0 <= ci < self.connections@.len() && self.connections@[ci] is Some ==> wf_conn(
                (#[trigger] self.connections@[ci]).unwrap(),
                self.regions@,
            )
    }

    /// Whether `tok` names a live connection.
    pub open spec fn live_token(&self, tok: int) -> bool {
        0 <= tok < self.connections@.len() && self.connections@[tok] is Some
    }
}

/// Replacing slot `j` changes the count of `p` exactly by the difference of
/// the two slots' contributions.
proof fn lemma_ref_count_update(
    conns: Seq<Option<ConnectionInfo>>,
    j: int,
    s: Option<ConnectionInfo>,
    p: Seq<u8>,
)
    requires
        0 <= j < conns.len(),
    ensures
        ref_count(conns.update(j, s), p) + (if slot_holds(conns[j], p) {
            1nat
        } else {
            0nat
        }) == ref_count(conns, p) + (if slot_holds(s, p) {
            1nat
        } else {
            0nat
        }),
    decreases conns.len(),
{
    let upd = conns.update(j, s);
    if j == conns.len() - 1 {
        assert(upd.drop_last() =~= conns.drop_last());
        assert(upd.last() == s);
    } else {
        assert(upd.drop_last() =~= conns.drop_last().update(j, s));
        assert(upd.last() == conns.last());
        lemma_ref_count_update(conns.drop_last(), j, s, p);
    }
}

/// Appending a slot adds exactly its contribution to the count of `p`.
proof fn lemma_ref_count_push(conns: Seq<Option<ConnectionInfo>>, s: Option<ConnectionInfo>, p: Seq<u8>)
    ensures
        ref_count(conns.push(s), p) == ref_count(conns, p) + (if slot_holds(s, p) {
            1nat
        } else {
            0nat
        }),
{
    assert(conns.push(s).drop_last() =~= conns);
    assert(conns.push(s).last() == s);
}

/// A count never exceeds the number of slots.
proof fn lemma_ref_count_bound(conns: Seq<Option<ConnectionInfo>>, p: Seq<u8>)
    ensures
        ref_count(conns, p) <= conns.len(),
    decreases conns.len(),
{
    if conns.len() > 0 {
        lemma_ref_count_bound(conns.drop_last(), p);
    }
}

/// A count stays below the number of slots when some slot does not hold `p`.
proof fn lemma_ref_count_bound_missing(conns: Seq<Option<ConnectionInfo>>, j: int, p: Seq<u8>)
    requires
        0 <= j < conns.len(),
        !slot_holds(conns[j], p),
    ensures
        ref_count(conns, p) < conns.len(),
    decreases conns.len(),
{
    if j == conns.len() - 1 {
        lemma_ref_count_bound(conns.drop_last(), p);
    } else {
        lemma_ref_count_bound_missing(conns.drop_last(), j, p);
    }
}

/// When no slot holds `p`, the count of `p` is zero.
proof fn lemma_ref_count_zero(conns: Seq<Option<ConnectionInfo>>, p: Seq<u8>)
    requires
        forall|i: int| 0 <= i < conns.len() ==> !slot_holds(#[trigger] conns[i], p),
    ensures
        ref_count(conns, p) == 0,
    decreases conns.len(),
{
    if conns.len() > 0 {
        assert(conns.drop_last() =~= conns.subrange(0, conns.len() - 1));
        assert forall|i: int| 0 <= i < conns.drop_last().len() implies !slot_holds(
            #[trigger] conns.drop_last()[i],
            p,
        ) by {
            assert(conns.drop_last()[i] == conns[i]);
        }
        lemma_ref_count_zero(conns.drop_last(), p);
        assert(!slot_holds(conns.last(), p));
    }
}

/// Opening one more path extends exactly what the table holds.
proof fn lemma_files_hold_push(files: Seq<Vec<u8>>, v: Vec<u8>, q: Seq<u8>)
    ensures
        files_hold(files.push(v), q) <==> (files_hold(files, q) || v@ == q),
{
    let pushed = files.push(v);
    if files_hold(files, q) {
        let k = choose|k: int| 0 <= k < files.len() && (#[trigger] files[k])@ == q;
        assert(pushed[k] == files[k]);
        assert(files_hold(pushed, q));
    }
    if v@ == q {
        assert(pushed[files.len() as int] == v);
        assert(files_hold(pushed, q));
    }
    if files_hold(pushed, q) {
        let k = choose|k: int| 0 <= k < pushed.len() && (#[trigger] pushed[k])@ == q;
        if k < files.len() {
            assert(files[k] == pushed[k]);
            assert(files_hold(files, q));
        } else {
            assert(pushed[k] == v);
        }
    }
}

/// Closing one path removes exactly that path from what a distinct table
/// holds.
proof fn lemma_files_hold_remove(files: Seq<Vec<u8>>, k: int, q: Seq<u8>)
    requires
        files_distinct(files),
        0 <= k < files.len(),
    ensures
        files_hold(files.remove(k), q) <==> (files_hold(files, q) && q != files[k]@),
{
    let rem = files.remove(k);
    files.remove_ensures(k);
    if files_hold(rem, q) {
        let m = choose|m: int| 0 <= m < rem.len() && (#[trigger] rem[m])@ == q;
        if m < k {
            assert(rem[m] == files[m]);
            assert(files_hold(files, q));
            assert(files[m]@ != files[k]@);
        } else {
            assert(rem[m] == files[m + 1]);
            assert(files_hold(files, q));
            assert(files[k]@ != files[m + 1]@);
        }
    }
    if files_hold(files, q) && q != files[k]@ {
        let m = choose|m: int| 0 <= m < files.len() && (#[trigger] files[m])@ == q;
        if m < k {
            assert(rem[m] == files[m]);
            assert(files_hold(rem, q));
        } else {
            assert(m > k);
            assert(rem[m - 1] == files[m]);
            assert(files_hold(rem, q));
        }
    }
}

/// Replacing one connection by another with the same open-files table keeps
/// the whole invariant.
proof fn lemma_wf_update_conn_same_files(pre: VfsIpcServer, post: VfsIpcServer, tok: int)
    requires
        pre.wf(),
        pre.live_token(tok),
        post.regions == pre.regions,
        post.server_pid == pre.server_pid,
        post.next_generation == pre.next_generation,
        post.connections@.len() == pre.connections@.len(),
        forall|i: int|
            0 <= i < pre.connections@.len() && i != tok ==> #[trigger] post.connections@[i]
                == pre.connections@[i],
        post.connections@[tok] is Some,
        post.connections@[tok].unwrap().open_files == pre.connections@[tok].unwrap().open_files,
    ensures
        post.wf(),
{
    assert(post.connections@ =~= pre.connections@.update(tok, post.connections@[tok]));
    assert forall|i: int| 0 <= i < post.regions@.len() implies (#[trigger] post.regions@[i]).refs
        == ref_count(post.connections@, post.regions@[i].path@) && post.regions@[i].refs >= 1 by {
        let p = post.regions@[i].path@;
        lemma_ref_count_update(pre.connections@, tok, post.connections@[tok], p);
        assert(slot_holds(pre.connections@[tok], p) == slot_holds(post.connections@[tok], p));
    }
    assert forall|ci: int|
        0 <= ci < post.connections@.len() && post.connections@[ci] is Some implies wf_conn(
        (#[trigger] post.connections@[ci]).unwrap(),
        post.regions@,
    ) by {
        if ci != tok {
            assert(post.connections@[ci] == pre.connections@[ci]);
        } else {
            assert(wf_conn(pre.connections@[tok].unwrap(), pre.regions@));
        }
    }
}

impl VfsIpcServer {
    /// A fresh server with no connections and an empty registry.
    pub fn new(server_pid: u32) -> (r: VfsIpcServer)
        ensures
            r.wf(),
            r.connections@.len() == 0,
            r.regions@.len() == 0,
            r.server_pid == server_pid,
            r.next_generation == 0,
    {
        VfsIpcServer {
            connections: Vec::new(),
            regions: Vec::new(),
            server_pid,
            next_generation: 0,
        }
    }

    /// Registers a connection and returns its token. The caller must have
    /// switched the endpoint to non-blocking mode and must register its read
    /// descriptor for readiness events under this token.
    pub fn add_connection(&mut self, end_point: ServerEndPoint) -> (tok: usize)
        requires
            old(self).wf(),
        ensures
            final(self).wf(),
            tok == old(self).connections@.len(),
            final(self).connections@.len() == tok + 1,
            forall|i: int|
                0 <= i < tok ==> #[trigger] final(self).connections@[i]
                    == old(self).connections@[i],
            final(self).live_token(tok as int),
            ({
                let c = final(self).connections@[tok as int].unwrap();
                &&& c.end_point == end_point
                &&& c.read_buf@ == Seq::<u8>::empty()
                &&& c.write_buf@ == Seq::<u8>::empty()
                &&& c.open_files@.len() == 0
                &&& !c.read_finished
            }),
            final(self).regions == old(self).regions,
            final(self).server_pid == old(self).server_pid,
            final(self).next_generation == old(self).next_generation,
    {
        let tok = self.connections.len();
        let conn = ConnectionInfo {
            end_point,
            read_buf: FrameBuffer::new(),
            write_buf: Vec::new(),
            open_files: Vec::new(),
            read_finished: false,
        };
        self.connections.push(Some(conn));
        proof {
            let post = self.connections@;
            assert forall|i: int| 0 <= i < self.regions@.len() implies (
            #[trigger] self.regions@[i]).refs == ref_count(post, self.regions@[i].path@)
                && self.regions@[i].refs >= 1 by {
                let p = self.regions@[i].path@;
                lemma_ref_count_push(old(self).connections@, post.last(), p);
            }
            assert forall|ci: int| 0 <= ci < post.len() && post[ci] is Some implies wf_conn(
                (#[trigger] post[ci]).unwrap(),
                self.regions@,
            ) by {
                if ci < post.len() - 1 {
                    assert(post[ci] == old(self).connections@[ci]);
                }
            }
        }
        tok
    }

    /// Hands the connection one chunk the event loop just read. Only the
    /// concatenation of the chunks matters, never the cut into reads.
    pub fn feed_connection(&mut self, tok: usize, chunk: &[u8]) -> (r: Result<(), VfsIpcError>)
        requires
            old(self).wf(),
        ensures
            final(self).wf(),
            final(self).regions == old(self).regions,
            final(self).server_pid == old(self).server_pid,
            final(self).next_generation == old(self).next_generation,
            !old(self).live_token(tok as int) ==> r == Err::<(), VfsIpcError>(
                VfsIpcError::TokenNotFound,
            ) && final(self).connections@ == old(self).connections@,
            old(self).live_token(tok as int) ==> r is Ok && final(self).connections@.len() == old(
                self,
            ).connections@.len() && (forall|i: int|
                0 <= i < old(self).connections@.len() && i != tok
                    ==> #[trigger] final(self).connections@[i] == old(self).connections@[i])
                && final(self).live_token(tok as int) && ({
                let c0 = old(self).connections@[tok as int].unwrap();
                let c1 = final(self).connections@[tok as int].unwrap();
                &&& c1.end_point == c0.end_point
                &&& c1.read_buf@ == c0.read_buf@ + chunk@
                &&& c1.write_buf == c0.write_buf
                &&& c1.open_files == c0.open_files
                &&& c1.read_finished == c0.read_finished
            }),
    {
        if tok >= self.connections.len() {
            return Err(VfsIpcError::TokenNotFound);
        }
        let slot = self.connections[tok].take();
        match slot {
            None => {
                proof {
                    assert(self.connections@ =~= old(self).connections@);
                }
                Err(VfsIpcError::TokenNotFound)
            },
            Some(mut c) => {
                c.read_buf.feed(chunk);
                self.connections[tok] = Some(c);
                proof {
                    assert(self.connections@ =~= old(self).connections@.update(
                        tok as int,
                        self.connections@[tok as int],
                    ));
                    lemma_wf_update_conn_same_files(*old(self), *self, tok as int);
                }
                Ok(())
            },
        }
    }

    /// Takes the next complete request frame off the connection, if any.
    /// `Ok(None)` means no complete frame is buffered yet. A frame that does
    /// not decode to a request is a protocol-fatal error; the caller must
    /// tear the connection down.
    pub fn take_request(&mut self, tok: usize) -> (r: Result<Option<VfsRequestMsg>, VfsIpcError>)
        requires
            old(self).wf(),
        ensures
            final(self).wf(),
            final(self).regions == old(self).regions,
            final(self).server_pid == old(self).server_pid,
            final(self).next_generation == old(self).next_generation,
            !old(self).live_token(tok as int) ==> r == Err::<
                Option<VfsRequestMsg>,
                VfsIpcError,
            >(VfsIpcError::TokenNotFound) && final(self).connections@ == old(self).connections@,
            old(self).live_token(tok as int) ==> final(self).connections@.len() == old(
                self,
            ).connections@.len() && (forall|i: int|
                0 <= i < old(self).connections@.len() && i != tok
                    ==> #[trigger] final(self).connections@[i] == old(self).connections@[i])
                && final(self).live_token(tok as int) && ({
                let c0 = old(self).connections@[tok as int].unwrap();
                let c1 = final(self).connections@[tok as int].unwrap();
                &&& c1.end_point == c0.end_point
                &&& c1.write_buf == c0.write_buf
                &&& c1.open_files == c0.open_files
                &&& c1.read_finished == c0.read_finished
                &&& if !has_frame(c0.read_buf@) {
                    r == Ok::<Option<VfsRequestMsg>, VfsIpcError>(None)
                        && c1.read_buf@ == c0.read_buf@
                } else {
                    c1.read_buf@ == frame_rest(c0.read_buf@) && match spec_decode_request(
                        frame_payload(c0.read_buf@),
                    ) {
                        Some(m) => r is Ok && r->Ok_0 is Some && r->Ok_0.unwrap()@ == m,
                        None => r == Err::<Option<VfsRequestMsg>, VfsIpcError>(
                            VfsIpcError::DeserializeError,
                        ),
                    }
                }
            }),
    {
        if tok >= self.connections.len() {
            return Err(VfsIpcError::TokenNotFound);
        }
        let slot = self.connections[tok].take();
        match slot {
            None => {
                proof {
                    assert(self.connections@ =~= old(self).connections@);
                }
                Err(VfsIpcError::TokenNotFound)
            },
            Some(mut c) => {
                let frame = c.read_buf.try_take_frame();
                let out = match frame {
                    None => Ok(None),
                    Some(payload) => {
                        match crate::msg::decode_request(payload.as_slice()) {
                            Some(m) => Ok(Some(m)),
                            None => Err(VfsIpcError::DeserializeError),
                        }
                    },
                };
                self.connections[tok] = Some(c);
                proof {
                    assert(self.connections@ =~= old(self).connections@.update(
                        tok as int,
                        self.connections@[tok as int],
                    ));
                    lemma_wf_update_conn_same_files(*old(self), *self, tok as int);
                }
                out
            },
        }
    }

    /// Notes that the peer closed its sending side. An end of stream in the
    /// middle of a frame is a protocol-fatal error; with a clean buffer the
    /// read side is finished while queued replies may still be written.
    pub fn note_read_eof(&mut self, tok: usize) -> (r: Result<(), VfsIpcError>)
        requires
            old(self).wf(),
        ensures
            final(self).wf(),
            final(self).regions == old(self).regions,
            final(self).server_pid == old(self).server_pid,
            final(self).next_generation == old(self).next_generation,
            !old(self).live_token(tok as int) ==> r == Err::<(), VfsIpcError>(
                VfsIpcError::TokenNotFound,
            ) && final(self).connections@ == old(self).connections@,
            old(self).live_token(tok as int) ==> final(self).connections@.len() == old(
                self,
            ).connections@.len() && (forall|i: int|
                0 <= i < old(self).connections@.len() && i != tok
                    ==> #[trigger] final(self).connections@[i] == old(self).connections@[i])
                && final(self).live_token(tok as int) && ({
                let c0 = old(self).connections@[tok as int].unwrap();
                let c1 = final(self).connections@[tok as int].unwrap();
                &&& c1.end_point == c0.end_point
                &&& c1.read_buf@ == c0.read_buf@
                &&& c1.write_buf == c0.write_buf
                &&& c1.open_files == c0.open_files
                &&& if c0.read_buf@.len() == 0 {
                    r is Ok && c1.read_finished
                } else {
                    r == Err::<(), VfsIpcError>(VfsIpcError::PipeCloseMiddle)
                        && c1.read_finished == c0.read_finished
                }
            }),
    {
        if tok >= self.connections.len() {
            return Err(VfsIpcError::TokenNotFound);
        }
        let slot = self.connections[tok].take();
        match slot {
            None => {
                proof {
                    assert(self.connections@ =~= old(self).connections@);
                }
                Err(VfsIpcError::TokenNotFound)
            },
            Some(mut c) => {
                let out = if c.read_buf.is_empty() {
                    c.read_finished = true;
                    Ok(())
                } else {
                    Err(VfsIpcError::PipeCloseMiddle)
                };
                self.connections[tok] = Some(c);
                proof {
                    assert(self.connections@ =~= old(self).connections@.update(
                        tok as int,
                        self.connections@[tok as int],
                    ));
                    lemma_wf_update_conn_same_files(*old(self), *self, tok as int);
                }
                out
            },
        }
    }

    /// A copy of at most `max` outbound bytes, oldest first, for the event
    /// loop to offer to the pipe.
    pub fn peek_output(&self, tok: usize, max: usize) -> (r: Result<Vec<u8>, VfsIpcError>)
        ensures
            !self.live_token(tok as int) ==> r == Err::<Vec<u8>, VfsIpcError>(
                VfsIpcError::TokenNotFound,
            ),
            self.live_token(tok as int) ==> r is Ok && ({
                let b = self.connections@[tok as int].unwrap().write_buf@;
                r->Ok_0@ == b.take(
                    if b.len() <= max {
                        b.len() as int
                    } else {
                        max as int
                    },
                )
            }),
    {
        if tok >= self.connections.len() {
            return Err(VfsIpcError::TokenNotFound);
        }
        match self.connections[tok].as_ref() {
            None => Err(VfsIpcError::TokenNotFound),
            Some(c) => {
                let n = if c.write_buf.len() <= max {
                    c.write_buf.len()
                } else {
                    max
                };
                Ok(vstd::slice::slice_to_vec(vstd::slice::slice_subrange(
                    c.write_buf.as_slice(),
                    0,
                    n,
                )))
            },
        }
    }

    /// Records that the pipe accepted the first `n` outbound bytes. Returns
    /// whether the outbound buffer is now drained, in which case the event
    /// loop must drop its write-readiness registration.
    pub fn advance_output(&mut self, tok: usize, n: usize) -> (r: Result<bool, VfsIpcError>)
        requires
            old(self).wf(),
            old(self).live_token(tok as int) ==> n <= old(self).connections@[tok as int].unwrap()
                .write_buf@.len(),
        ensures
            final(self).wf(),
            final(self).regions == old(self).regions,
            final(self).server_pid == old(self).server_pid,
            final(self).next_generation == old(self).next_generation,
            !old(self).live_token(tok as int) ==> r == Err::<bool, VfsIpcError>(
                VfsIpcError::TokenNotFound,
            ) && final(self).connections@ == old(self).connections@,
            old(self).live_token(tok as int) ==> final(self).connections@.len() == old(
                self,
            ).connections@.len() && (forall|i: int|
                0 <= i < old(self).connections@.len() && i != tok
                    ==> #[trigger] final(self).connections@[i] == old(self).connections@[i])
                && final(self).live_token(tok as int) && ({
                let c0 = old(self).connections@[tok as int].unwrap();
                let c1 = final(self).connections@[tok as int].unwrap();
                &&& c1.end_point == c0.end_point
                &&& c1.read_buf@ == c0.read_buf@
                &&& c1.write_buf@ == c0.write_buf@.skip(n as int)
                &&& c1.open_files == c0.open_files
                &&& c1.read_finished == c0.read_finished
                &&& r == Ok::<bool, VfsIpcError>(c1.write_buf@.len() == 0)
            }),
    {
        if tok >= self.connections.len() {
            return Err(VfsIpcError::TokenNotFound);
        }
        let slot = self.connections[tok].take();
        match slot {
            None => {
                proof {
                    assert(self.connections@ =~= old(self).connections@);
                }
                Err(VfsIpcError::TokenNotFound)
            },
            Some(mut c) => {
                let tail = c.write_buf.split_off(n);
                c.write_buf = tail;
                let drained = c.write_buf.len() == 0;
                self.connections[tok] = Some(c);
                proof {
                    assert(self.connections@ =~= old(self).connections@.update(
                        tok as int,
                        self.connections@[tok as int],
                    ));
                    lemma_wf_update_conn_same_files(*old(self), *self, tok as int);
                }
                Ok(drained)
            },
        }
    }
}

/// Entries that agree on everything except the reference count.
pub open spec fn region_same(a: RegionEntry, b: RegionEntry) -> bool {
    &&& a.path@ == b.path@
    &&& a.shm_name@ == b.shm_name@
    &&& a.generation == b.generation
    &&& a.length == b.length
}

/// Whether `orig` holds an entry like `e`, reference counts aside.
pub open spec fn has_entry_like(orig: Seq<RegionEntry>, e: RegionEntry) -> bool {
    exists|j: int| 0 <= j < orig.len() && region_same(e, #[trigger] orig[j])
}

/// Every entry of `cur` is an entry of `orig`, reference counts aside.
pub open spec fn regions_within(cur: Seq<RegionEntry>, orig: Seq<RegionEntry>) -> bool
    decreases cur.len(),
{
    cur.len() == 0 || (regions_within(cur.drop_last(), orig) && has_entry_like(orig, cur.last()))
}

/// Whether `orig` holds an entry published under `name`.
pub open spec fn has_name_in(orig: Seq<RegionEntry>, name: Seq<u8>) -> bool {
    exists|j: int| 0 <= j < orig.len() && name == (#[trigger] orig[j]).shm_name@
}

/// Every name in `retired` is the shared-memory name of some entry of
/// `orig`.
pub open spec fn names_from(retired: Seq<Vec<u8>>, orig: Seq<RegionEntry>) -> bool
    decreases retired.len(),
{
    retired.len() == 0 || (names_from(retired.drop_last(), orig) && has_name_in(
        orig,
        retired.last()@,
    ))
}

/// Builds `regions_within` from a per-entry witness.
proof fn lemma_regions_within_intro(cur: Seq<RegionEntry>, orig: Seq<RegionEntry>)
    requires
        forall|i: int| 0 <= i < cur.len() ==> has_entry_like(orig, #[trigger] cur[i]),
    ensures
        regions_within(cur, orig),
    decreases cur.len(),
{
    if cur.len() > 0 {
        assert forall|i: int| 0 <= i < cur.drop_last().len() implies has_entry_like(
            orig,
            #[trigger] cur.drop_last()[i],
        ) by {
            assert(cur.drop_last()[i] == cur[i]);
        }
        lemma_regions_within_intro(cur.drop_last(), orig);
        assert(has_entry_like(orig, cur.last()));
    }
}

/// Reads one entry's witness back out of `regions_within`.
proof fn lemma_regions_within_at(cur: Seq<RegionEntry>, orig: Seq<RegionEntry>, i: int)
    requires
        regions_within(cur, orig),
        0 <= i < cur.len(),
    ensures
        has_entry_like(orig, cur[i]),
    decreases cur.len(),
{
    if i < cur.len() - 1 {
        lemma_regions_within_at(cur.drop_last(), orig, i);
        assert(cur.drop_last()[i] == cur[i]);
    }
}

/// A registry is within itself.
proof fn lemma_regions_within_refl(r: Seq<RegionEntry>)
    ensures
        regions_within(r, r),
{
    assert forall|i: int| 0 <= i < r.len() implies has_entry_like(r, #[trigger] r[i]) by {
        assert(region_same(r[i], r[i]));
    }
    lemma_regions_within_intro(r, r);
}

/// Being within is transitive.
proof fn lemma_regions_within_trans(a: Seq<RegionEntry>, b: Seq<RegionEntry>, c: Seq<RegionEntry>)
    requires
        regions_within(a, b),
        regions_within(b, c),
    ensures
        regions_within(a, c),
{
    assert forall|i: int| 0 <= i < a.len() implies has_entry_like(c, #[trigger] a[i]) by {
        lemma_regions_within_at(a, b, i);
        let jb = choose|jb: int| 0 <= jb < b.len() && region_same(a[i], #[trigger] b[jb]);
        lemma_regions_within_at(b, c, jb);
        let jc = choose|jc: int| 0 <= jc < c.len() && region_same(b[jb], #[trigger] c[jc]);
        assert(region_same(a[i], c[jc]));
    }
    lemma_regions_within_intro(a, c);
}

/// Retiring one more name stays within the original registry.
proof fn lemma_names_from_push(retired: Seq<Vec<u8>>, nm: Vec<u8>, orig: Seq<RegionEntry>, j: int)
    requires
        names_from(retired, orig),
        0 <= j < orig.len(),
        nm@ == orig[j].shm_name@,
    ensures
        names_from(retired.push(nm), orig),
{
    let pushed = retired.push(nm);
    assert(pushed.drop_last() =~= retired);
    assert(pushed.last() == nm);
    assert(has_name_in(orig, nm@));
}


/// What the event loop must do after an open request was handled.
#[derive(Debug)]
pub struct OpenAction {
    /// `Some(name)`: a region was created; the caller must publish a
    /// shared-memory segment under `name` and copy the file bytes into it.
    /// `None`: the live region was reused.
    pub publish: Option<Vec<u8>>,
    /// The outbound buffer was empty before the reply was queued: the
    /// caller should attempt an immediate opportunistic write, and register
    /// write interest only for what the pipe does not accept.
    pub attempt_write: bool,
}

/// Index of the registry entry for `path`, if one is live.
fn find_region(regions: &Vec<RegionEntry>, path: &[u8]) -> (r: Option<usize>)
    ensures
        r is Some ==> 0 <= r.unwrap() < regions@.len() && regions@[r.unwrap() as int].path@
            == path@,
        r is None ==> !has_region(regions@, path@),
{
    let len = regions.len();
    let mut i: usize = 0;
    while i < len
        invariant
            0 <= i <= len,
            len == regions@.len(),
            forall|j: int| 0 <= j < i ==> (#[trigger] regions@[j]).path@ != path@,
        decreases len - i,
    {
        if bytes_eq(regions[i].path.as_slice(), path) {
            return Some(i);
        }
        i = i + 1;
    }
    None
}

/// Index of `path` in an open-files table.
fn find_file(files: &Vec<Vec<u8>>, path: &[u8]) -> (r: Option<usize>)
    ensures
        r is Some ==> 0 <= r.unwrap() < files@.len() && files@[r.unwrap() as int]@ == path@,
        r is None ==> !files_hold(files@, path@),
{
    let len = files.len();
    let mut i: usize = 0;
    while i < len
        invariant
            0 <= i <= len,
            len == files@.len(),
            forall|j: int| 0 <= j < i ==> (#[trigger] files@[j])@ != path@,
        decreases len - i,
    {
        if bytes_eq(files[i].as_slice(), path) {
            return Some(i);
        }
        i = i + 1;
    }
    None
}

impl VfsIpcServer {
    /// Handles `OpenFile(path)`. The caller has canonicalized the path and
    /// asked the virtual-file-system collaborator for the file: `contents_len`
    /// is the byte length of the snapshot and `user_data` its serialized
    /// per-file metadata. When the path already has a live region that
    /// region is reused — no second segment is ever created for a path — and
    /// only its reference count can grow. Otherwise a region is minted under
    /// a fresh generation, which no earlier name of this server can collide
    /// with. Either way the reply frame is queued on the connection and the
    /// path is recorded in its open-files table.
    pub fn handle_open_request(
        &mut self,
        tok: usize,
        path: &[u8],
        contents_len: u32,
        user_data: Vec<u8>,
    ) -> (r: Result<OpenAction, VfsIpcError>)
        requires
            old(self).wf(),
            path@.len() <= 0x3fff_ffff,
            user_data@.len() <= 0x3fff_ffff,
            old(self).next_generation < u64::MAX,
            forall|i: int| 0 <= i < path@.len() ==> #[trigger] path@[i] != 0,
        ensures
            final(self).wf(),
            final(self).server_pid == old(self).server_pid,
            !old(self).live_token(tok as int) ==> r == Err::<OpenAction, VfsIpcError>(
                VfsIpcError::TokenNotFound,
            ) && final(self).connections@ == old(self).connections@ && final(self).regions == old(
                self,
            ).regions && final(self).next_generation == old(self).next_generation,
            old(self).live_token(tok as int) ==> r is Ok && final(self).live_token(tok as int)
                && final(self).connections@.len() == old(self).connections@.len() && (forall|
                i: int,
            |
                0 <= i < old(self).connections@.len() && i != tok
                    ==> #[trigger] final(self).connections@[i] == old(self).connections@[i]) && ({
                let c0 = old(self).connections@[tok as int].unwrap();
                let c1 = final(self).connections@[tok as int].unwrap();
                let act = r->Ok_0;
                &&& act.attempt_write == (c0.write_buf@.len() == 0)
                &&& c1.end_point == c0.end_point
                &&& c1.read_buf@ == c0.read_buf@
                &&& c1.read_finished == c0.read_finished
                &&& conn_holds(c1, path@)
                &&& forall|q: Seq<u8>|
                    q != path@ ==> #[trigger] conn_holds(c1, q) == conn_holds(c0, q)
                &&& if has_region(old(self).regions@, path@) {
                    // The live region is reused: no new segment, no new name.
                    &&& final(self).regions@.len() == old(self).regions@.len()
                    &&& final(self).next_generation == old(self).next_generation
                    &&& act.publish is None
                    &&& forall|i: int|
                        0 <= i < old(self).regions@.len() ==> region_same(
                            #[trigger] final(self).regions@[i],
                            old(self).regions@[i],
                        )
                    &&& forall|i: int|
                        0 <= i < old(self).regions@.len() && old(self).regions@[i].path@ != path@
                            ==> (#[trigger] final(self).regions@[i]).refs == old(
                            self,
                        ).regions@[i].refs
                    &&& exists|j: int|
                        0 <= j < old(self).regions@.len() && (#[trigger] old(
                            self,
                        ).regions@[j]).path@ == path@ && c1.write_buf@ == c0.write_buf@
                            + frame_bytes(
                            spec_encode_reply(
                                VfsReplyView {
                                    path: old(self).regions@[j].shm_name@,
                                    length: old(self).regions@[j].length,
                                    user_data: user_data@,
                                },
                            ),
                        )
                } else {
                    // A fresh region: new generation, a name never used
                    // before by this server.
                    let name = region_name_bytes(
                        old(self).server_pid,
                        path@,
                        old(self).next_generation,
                    );
                    &&& final(self).next_generation == old(self).next_generation + 1
                    &&& final(self).regions@.len() == old(self).regions@.len() + 1
                    &&& forall|i: int|
                        0 <= i < old(self).regions@.len() ==> #[trigger] final(self).regions@[i]
                            == old(self).regions@[i]
                    &&& ({
                        let e = final(self).regions@.last();
                        &&& e.path@ == path@
                        &&& e.shm_name@ == name
                        &&& e.generation == old(self).next_generation
                        &&& e.length == contents_len
                        &&& e.refs == 1
                    })
                    &&& act.publish is Some && act.publish.unwrap()@ == name
                    &&& forall|i: int|
                        0 <= i < old(self).regions@.len() ==> (#[trigger] old(
                            self,
                        ).regions@[i]).shm_name@ != name
                    &&& c1.write_buf@ == c0.write_buf@ + frame_bytes(
                        spec_encode_reply(
                            VfsReplyView { path: name, length: contents_len, user_data: user_data@ },
                        ),
                    )
                }
            }),
    {
        if tok >= self.connections.len() {
            return Err(VfsIpcError::TokenNotFound);
        }
        let ghost pre = *self;
        let nconn = self.connections.len();
        let slot = self.connections[tok].take();
        let mut c = match slot {
            None => {
                proof {
                    assert(self.connections@ =~= old(self).connections@);
                }
                return Err(VfsIpcError::TokenNotFound);
            },
            Some(c) => c,
        };
        let ghost c0 = c;
        let ghost mid = *self;
        let (name, length, publish): (Vec<u8>, u32, Option<Vec<u8>>) = match find_region(
            &self.regions,
            path,
        ) {
            Some(ridx) => {
                let name = vstd::slice::slice_to_vec(self.regions[ridx].shm_name.as_slice());
                let length = self.regions[ridx].length;
                match find_file(&c.open_files, path) {
                    Some(_) => {
                        // Already open on this connection: nothing to count.
                    },
                    None => {
                        proof {
                            lemma_ref_count_bound_missing(
                                pre.connections@,
                                tok as int,
                                self.regions@[ridx as int].path@,
                            );
                        }
                        let mut e = self.regions.remove(ridx);
                        e.refs = e.refs + 1;
                        self.regions.insert(ridx, e);
                        proof {
                            assert(self.regions@ =~= pre.regions@.update(
                                ridx as int,
                                self.regions@[ridx as int],
                            ));
                        }
                        c.open_files.push(vstd::slice::slice_to_vec(path));
                        proof {
                            lemma_files_hold_push(
                                c0.open_files@,
                                c.open_files@.last(),
                                path@,
                            );
                        }
                    },
                }
                (name, length, None)
            },
            None => {
                let generation = self.next_generation;
                self.next_generation = generation + 1;
                let name = generate_shm_name(self.server_pid, path, generation);
                let published = vstd::slice::slice_to_vec(name.as_slice());
                let entry = RegionEntry {
                    path: vstd::slice::slice_to_vec(path),
                    shm_name: vstd::slice::slice_to_vec(name.as_slice()),
                    length: contents_len,
                    generation,
                    refs: 1,
                };
                self.regions.push(entry);
                c.open_files.push(vstd::slice::slice_to_vec(path));
                proof {
                    lemma_files_hold_push(c0.open_files@, c.open_files@.last(), path@);
                }
                (name, contents_len, Some(published))
            },
        };
        let reply = VfsReplyMsg { path: name, length, user_data };
        let payload = crate::msg::encode_reply(&reply);
        proof {
            crate::region::lemma_region_name_len(
                pre.server_pid,
                path@,
                pre.next_generation,
            );
            if has_region(pre.regions@, path@) {
                let j = choose|j: int|
                    0 <= j < pre.regions@.len() && (#[trigger] pre.regions@[j]).path@ == path@;
                crate::region::lemma_region_name_len(
                    pre.server_pid,
                    pre.regions@[j].path@,
                    pre.regions@[j].generation,
                );
            }
        }
        let frame = encode_frame(payload.as_slice());
        let attempt_write = c.write_buf.len() == 0;
        let mut frame_bytes_vec = frame;
        c.write_buf.append(&mut frame_bytes_vec);
        let ghost c1 = c;
        self.connections[tok] = Some(c);
        proof {
            assert(self.connections@ =~= pre.connections@.update(tok as int, Some(c1)));
            let conns0 = pre.connections@;
            let conns1 = self.connections@;
            if has_region(pre.regions@, path@) {
                let ridx = choose|j: int|
                    0 <= j < pre.regions@.len() && (#[trigger] pre.regions@[j]).path@ == path@;
                assert forall|i: int|
                    0 <= i < self.regions@.len() implies (#[trigger] self.regions@[i]).refs
                    == ref_count(conns1, self.regions@[i].path@) && self.regions@[i].refs >= 1 by {
                    let p = self.regions@[i].path@;
                    lemma_ref_count_update(conns0, tok as int, Some(c1), p);
                    if conn_holds(c0, path@) {
                        // Nothing was pushed; the tables agree everywhere.
                        assert(conn_holds(c1, p) == conn_holds(c0, p));
                    } else {
                        lemma_files_hold_push(c0.open_files@, c1.open_files@.last(), p);
                    }
                    if p != path@ {
                        assert(slot_holds(Some(c1), p) == slot_holds(conns0[tok as int], p));
                    }
                }
                assert forall|ci: int|
                    0 <= ci < conns1.len() && conns1[ci] is Some implies wf_conn(
                    (#[trigger] conns1[ci]).unwrap(),
                    self.regions@,
                ) by {
                    assert forall|q: Seq<u8>| has_region(pre.regions@, q) implies has_region(
                        self.regions@,
                        q,
                    ) by {
                        let w = choose|w: int|
                            0 <= w < pre.regions@.len() && (#[trigger] pre.regions@[w]).path@ == q;
                        assert(self.regions@[w].path@ == q);
                    }
                    if ci != tok {
                        assert(conns1[ci] == conns0[ci]);
                        assert(wf_conn(conns0[ci].unwrap(), pre.regions@));
                    } else {
                        assert(wf_conn(c0, pre.regions@));
                        if !conn_holds(c0, path@) {
                            assert(c1.open_files@ == c0.open_files@.push(c1.open_files@.last()));
                            assert forall|k1: int, k2: int|
                                #![trigger c1.open_files@[k1], c1.open_files@[k2]]
                                0 <= k1 < k2 < c1.open_files@.len() implies c1.open_files@[k1]@
                                != c1.open_files@[k2]@ by {
                                if k2 == c1.open_files@.len() - 1 {
                                    assert(c1.open_files@[k1] == c0.open_files@[k1]);
                                    assert(files_hold(c0.open_files@, c0.open_files@[k1]@));
                                }
                            }
                        }
                    }
                }
            } else {
                // Fresh region: the new entry's count is exactly one.
                assert forall|i: int|
                    0 <= i < conns0.len() implies !slot_holds(#[trigger] conns0[i], path@) by {
                    if conns0[i] is Some {
                        assert(wf_conn(conns0[i].unwrap(), pre.regions@));
                        if conn_holds(conns0[i].unwrap(), path@) {
                            let k = choose|k: int|
                                0 <= k < conns0[i].unwrap().open_files@.len() && (
                                #[trigger] conns0[i].unwrap().open_files@[k])@ == path@;
                            assert(has_region(pre.regions@, path@));
                        }
                    }
                }
                lemma_ref_count_zero(conns0, path@);
                assert forall|i: int|
                    0 <= i < self.regions@.len() implies (#[trigger] self.regions@[i]).refs
                    == ref_count(conns1, self.regions@[i].path@) && self.regions@[i].refs >= 1 by {
                    let p = self.regions@[i].path@;
                    lemma_ref_count_update(conns0, tok as int, Some(c1), p);
                    lemma_files_hold_push(c0.open_files@, c1.open_files@.last(), p);
                    if i < self.regions@.len() - 1 {
                        assert(self.regions@[i] == pre.regions@[i]);
                        if p == path@ {
                            assert(has_region(pre.regions@, path@));
                        }
                    }
                }
                assert forall|i: int|
                    0 <= i < pre.regions@.len() implies (#[trigger] pre.regions@[i]).shm_name@
                    != region_name_bytes(pre.server_pid, path@, pre.next_generation) by {
                    lemma_region_name_fresh(
                        pre.server_pid,
                        pre.regions@[i].path@,
                        pre.regions@[i].generation,
                        path@,
                        pre.next_generation,
                    );
                }
                assert forall|ci: int|
                    0 <= ci < conns1.len() && conns1[ci] is Some implies wf_conn(
                    (#[trigger] conns1[ci]).unwrap(),
                    self.regions@,
                ) by {
                    assert forall|q: Seq<u8>| has_region(pre.regions@, q) implies has_region(
                        self.regions@,
                        q,
                    ) by {
                        let w = choose|w: int|
                            0 <= w < pre.regions@.len() && (#[trigger] pre.regions@[w]).path@ == q;
                        assert(self.regions@[w].path@ == q);
                    }
                    assert(has_region(self.regions@, path@)) by {
                        assert(self.regions@.last().path@ == path@);
                    }
                    if ci != tok {
                        assert(conns1[ci] == conns0[ci]);
                        assert(wf_conn(conns0[ci].unwrap(), pre.regions@));
                    } else {
                        assert(wf_conn(c0, pre.regions@));
                        assert(c1.open_files@ == c0.open_files@.push(c1.open_files@.last()));
                        assert forall|k1: int, k2: int|
                            #![trigger c1.open_files@[k1], c1.open_files@[k2]]
                            0 <= k1 < k2 < c1.open_files@.len() implies c1.open_files@[k1]@
                            != c1.open_files@[k2]@ by {
                            if k2 == c1.open_files@.len() - 1 {
                                assert(c1.open_files@[k1] == c0.open_files@[k1]);
                                assert(files_hold(c0.open_files@, c0.open_files@[k1]@));
                                if c0.open_files@[k1]@ == path@ {
                                    assert(has_region(pre.regions@, path@));
                                }
                            }
                        }
                    }
                }
            }
            assert forall|q: Seq<u8>| q != path@ implies #[trigger] conn_holds(c1, q)
                == conn_holds(c0, q) by {
                if c1.open_files@.len() == c0.open_files@.len() + 1 {
                    lemma_files_hold_push(c0.open_files@, c1.open_files@.last(), q);
                }
            }
        }
        Ok(OpenAction { publish, attempt_write })
    }
}

/// A slot that holds `p` contributes at least one to the count.
proof fn lemma_ref_count_one(conns: Seq<Option<ConnectionInfo>>, i: int, p: Seq<u8>)
    requires
        0 <= i < conns.len(),
        slot_holds(conns[i], p),
    ensures
        ref_count(conns, p) >= 1,
    decreases conns.len(),
{
    if i < conns.len() - 1 {
        lemma_ref_count_one(conns.drop_last(), i, p);
    }
}

/// Two distinct slots that both hold `p` make the count at least two.
proof fn lemma_ref_count_two(conns: Seq<Option<ConnectionInfo>>, i: int, j: int, p: Seq<u8>)
    requires
        0 <= i < j < conns.len(),
        slot_holds(conns[i], p),
        slot_holds(conns[j], p),
    ensures
        ref_count(conns, p) >= 2,
    decreases conns.len(),
{
    if j == conns.len() - 1 {
        lemma_ref_count_one(conns.drop_last(), i, p);
    } else {
        lemma_ref_count_two(conns.drop_last(), i, j, p);
    }
}

impl VfsIpcServer {
    /// Handles `CloseFile(path)`. Closing a path the connection never
    /// opened is an application-level error that leaves the server exactly
    /// as it was — the connection and its other open files are unaffected.
    /// Otherwise the connection's reference is dropped; when it was the
    /// last one the region is retired and its name returned, and the caller
    /// must unpublish that shared-memory name (already-attached mappings
    /// stay valid).
    #[verifier::rlimit(60)]
    pub fn handle_close_request(&mut self, tok: usize, path: &[u8]) -> (r: Result<
        Option<Vec<u8>>,
        VfsIpcError,
    >)
        requires
            old(self).wf(),
        ensures
            final(self).wf(),
            final(self).server_pid == old(self).server_pid,
            final(self).next_generation == old(self).next_generation,
            !old(self).live_token(tok as int) ==> r == Err::<Option<Vec<u8>>, VfsIpcError>(
                VfsIpcError::TokenNotFound,
            ) && final(self).connections@ == old(self).connections@ && final(self).regions == old(
                self,
            ).regions,
            old(self).live_token(tok as int) ==> ({
                let c0 = old(self).connections@[tok as int].unwrap();
                &&& !conn_holds(c0, path@) ==> r == Err::<Option<Vec<u8>>, VfsIpcError>(
                    VfsIpcError::CloseNonOpenedFile,
                ) && final(self).connections@ == old(self).connections@ && final(self).regions
                    == old(self).regions
                &&& conn_holds(c0, path@) ==> r is Ok && final(self).live_token(tok as int) && (
                forall|i: int|
                    0 <= i < old(self).connections@.len() && i != tok
                        ==> #[trigger] final(self).connections@[i] == old(self).connections@[i])
                    && final(self).connections@.len() == old(self).connections@.len() && ({
                    let c1 = final(self).connections@[tok as int].unwrap();
                    &&& c1.end_point == c0.end_point
                    &&& c1.read_buf@ == c0.read_buf@
                    &&& c1.write_buf == c0.write_buf
                    &&& c1.read_finished == c0.read_finished
                    &&& c1.open_files@.len() == c0.open_files@.len() - 1
                    &&& !conn_holds(c1, path@)
                    &&& forall|q: Seq<u8>|
                        q != path@ ==> #[trigger] conn_holds(c1, q) == conn_holds(c0, q)
                    &&& regions_within(final(self).regions@, old(self).regions@)
                    &&& forall|q: Seq<u8>|
                        q != path@ ==> #[trigger] has_region(final(self).regions@, q)
                            == has_region(old(self).regions@, q)
                    &&& match r->Ok_0 {
                        Some(name) => !has_region(final(self).regions@, path@) && exists|j: int|
                            0 <= j < old(self).regions@.len() && (#[trigger] old(
                                self,
                            ).regions@[j]).path@ == path@ && old(self).regions@[j].refs == 1
                                && name@ == old(self).regions@[j].shm_name@
                                && final(self).regions@ == old(self).regions@.remove(j),
                        None => final(self).regions@.len() == old(self).regions@.len()
                            && has_region(final(self).regions@, path@) && exists|j: int|
                            0 <= j < old(self).regions@.len() && (#[trigger] old(
                                self,
                            ).regions@[j]).path@ == path@ && old(self).regions@[j].refs >= 2,
                    }
                })
            }),
    {
        if tok >= self.connections.len() {
            return Err(VfsIpcError::TokenNotFound);
        }
        let ghost pre = *self;
        let slot = self.connections[tok].take();
        let mut c = match slot {
            None => {
                proof {
                    assert(self.connections@ =~= old(self).connections@);
                }
                return Err(VfsIpcError::TokenNotFound);
            },
            Some(c) => c,
        };
        let ghost c0 = c;
        let ridx = match find_region(&self.regions, path) {
            None => {
                // No live region, so no connection holds this path.
                proof {
                    assert(wf_conn(c0, pre.regions@));
                    if conn_holds(c0, path@) {
                        let k = choose|k: int|
                            0 <= k < c0.open_files@.len() && (#[trigger] c0.open_files@[k])@
                                == path@;
                        assert(has_region(pre.regions@, path@));
                    }
                }
                self.connections[tok] = Some(c);
                proof {
                    assert(self.connections@ =~= old(self).connections@);
                }
                return Err(VfsIpcError::CloseNonOpenedFile);
            },
            Some(ridx) => ridx,
        };
        let k = match find_file(&c.open_files, path) {
            None => {
                self.connections[tok] = Some(c);
                proof {
                    assert(self.connections@ =~= old(self).connections@);
                }
                return Err(VfsIpcError::CloseNonOpenedFile);
            },
            Some(k) => k,
        };
        let _removed_path = c.open_files.remove(k);
        proof {
            assert(wf_conn(c0, pre.regions@));
            lemma_files_hold_remove(c0.open_files@, k as int, path@);
        }
        let refs = self.regions[ridx].refs;
        let out: Option<Vec<u8>>;
        if refs == 1 {
            let entry = self.regions.remove(ridx);
            proof {
                pre.regions@.remove_ensures(ridx as int);
            }
            out = Some(entry.shm_name);
        } else {
            let mut entry = self.regions.remove(ridx);
            entry.refs = refs - 1;
            self.regions.insert(ridx, entry);
            proof {
                assert(self.regions@ =~= pre.regions@.update(
                    ridx as int,
                    self.regions@[ridx as int],
                ));
            }
            out = None;
        }
        let ghost c1 = c;
        self.connections[tok] = Some(c);
        proof {
            let conns0 = pre.connections@;
            let conns1 = self.connections@;
            assert(conns1 =~= conns0.update(tok as int, Some(c1)));
            assert(conn_holds(c0, path@)) by {
                assert((c0.open_files@[k as int])@ == path@);
            }
            // What each path's count becomes.
            assert forall|q: Seq<u8>| true implies #[trigger] ref_count(conns1, q) + (if q
                == path@ {
                1nat
            } else {
                0nat
            }) == ref_count(conns0, q) by {
                lemma_ref_count_update(conns0, tok as int, Some(c1), q);
                lemma_files_hold_remove(c0.open_files@, k as int, q);
                if q != path@ {
                    assert(conn_holds(c1, q) == conn_holds(c0, q));
                }
            }
            if refs == 1 {
                // The sole reference went away; the entry is gone.
                assert forall|i: int|
                    0 <= i < self.regions@.len() implies (#[trigger] self.regions@[i]).refs
                    == ref_count(conns1, self.regions@[i].path@) && self.regions@[i].refs
                    >= 1 by {
                    let p = self.regions@[i].path@;
                    if i < ridx {
                        assert(self.regions@[i] == pre.regions@[i]);
                    } else {
                        assert(self.regions@[i] == pre.regions@[i + 1]);
                    }
                    assert(p != path@);
                }
                assert(!has_region(self.regions@, path@)) by {
                    if has_region(self.regions@, path@) {
                        let w = choose|w: int|
                            0 <= w < self.regions@.len() && (#[trigger] self.regions@[w]).path@
                                == path@;
                        if w < ridx {
                            assert(pre.regions@[w].path@ == path@);
                        } else {
                            assert(pre.regions@[w + 1].path@ == path@);
                        }
                    }
                }
            } else {
                assert forall|i: int|
                    0 <= i < self.regions@.len() implies (#[trigger] self.regions@[i]).refs
                    == ref_count(conns1, self.regions@[i].path@) && self.regions@[i].refs
                    >= 1 by {
                    let p = self.regions@[i].path@;
                    if i != ridx {
                        assert(self.regions@[i] == pre.regions@[i]);
                        assert(p != path@);
                    }
                }
            }
            // Every connection still points at live regions.
            assert forall|ci: int|
                0 <= ci < conns1.len() && conns1[ci] is Some implies wf_conn(
                (#[trigger] conns1[ci]).unwrap(),
                self.regions@,
            ) by {
                let cc = conns1[ci].unwrap();
                assert(wf_conn(conns0[ci].unwrap(), pre.regions@));
                if ci == tok {
                    pre.regions@.remove_ensures(ridx as int);
                    c0.open_files@.remove_ensures(k as int);
                    assert forall|k1: int, k2: int|
                        #![trigger c1.open_files@[k1], c1.open_files@[k2]]
                        0 <= k1 < k2 < c1.open_files@.len() implies c1.open_files@[k1]@
                        != c1.open_files@[k2]@ by {
                        let a1: int = if k1 < k { k1 } else { k1 + 1 };
                        let a2: int = if k2 < k { k2 } else { k2 + 1 };
                        assert(c1.open_files@[k1] == c0.open_files@[a1]);
                        assert(c1.open_files@[k2] == c0.open_files@[a2]);
                    }
                }
                assert forall|m: int| 0 <= m < cc.open_files@.len() implies has_region(
                    self.regions@,
                    (#[trigger] cc.open_files@[m])@,
                ) by {
                    let q = cc.open_files@[m]@;
                    if ci == tok {
                        c0.open_files@.remove_ensures(k as int);
                        let a: int = if m < k { m } else { m + 1 };
                        assert(cc.open_files@[m] == c0.open_files@[a]);
                        assert(files_hold(c0.open_files@, q));
                        assert(has_region(pre.regions@, q));
                        assert(q != path@) by {
                            lemma_files_hold_remove(c0.open_files@, k as int, q);
                            assert(files_hold(c1.open_files@, q));
                        }
                    } else {
                        assert(has_region(pre.regions@, q));
                        if q == path@ {
                            // Another holder would have made the count at
                            // least two, so the region cannot be retiring;
                            // and with refs >= 2 the entry is still there.
                            if refs == 1 {
                                if ci < tok {
                                    lemma_ref_count_two(conns0, ci, tok as int, path@);
                                } else {
                                    lemma_ref_count_two(conns0, tok as int, ci, path@);
                                }
                            }
                        }
                    }
                    let w = choose|w: int|
                        0 <= w < pre.regions@.len() && (#[trigger] pre.regions@[w]).path@ == q;
                    if refs == 1 {
                        pre.regions@.remove_ensures(ridx as int);
                        if w < ridx {
                            assert(self.regions@[w].path@ == q);
                        } else {
                            assert(w != ridx);
                            assert(self.regions@[w - 1].path@ == q);
                        }
                    } else {
                        assert(self.regions@[w].path@ == q);
                    }
                }
            }
            // Region presence for other paths is unchanged.
            assert forall|q: Seq<u8>| q != path@ implies #[trigger] has_region(self.regions@, q)
                == has_region(pre.regions@, q) by {
                if refs == 1 {
                    pre.regions@.remove_ensures(ridx as int);
                    if has_region(pre.regions@, q) {
                        let w = choose|w: int|
                            0 <= w < pre.regions@.len() && (#[trigger] pre.regions@[w]).path@ == q;
                        if w < ridx {
                            assert(self.regions@[w].path@ == q);
                        } else {
                            assert(w != ridx);
                            assert(self.regions@[w - 1].path@ == q);
                        }
                    }
                    if has_region(self.regions@, q) {
                        let w = choose|w: int|
                            0 <= w < self.regions@.len() && (#[trigger] self.regions@[w]).path@
                                == q;
                        if w < ridx {
                            assert(pre.regions@[w].path@ == q);
                        } else {
                            assert(pre.regions@[w + 1].path@ == q);
                        }
                    }
                } else {
                    if has_region(pre.regions@, q) {
                        let w = choose|w: int|
                            0 <= w < pre.regions@.len() && (#[trigger] pre.regions@[w]).path@ == q;
                        assert(self.regions@[w].path@ == q);
                    }
                    if has_region(self.regions@, q) {
                        let w = choose|w: int|
                            0 <= w < self.regions@.len() && (#[trigger] self.regions@[w]).path@
                                == q;
                        assert(pre.regions@[w].path@ == q);
                    }
                }
            }
            // The entry mapping for callers that track regions across calls.
            assert forall|i: int| 0 <= i < self.regions@.len() implies has_entry_like(
                pre.regions@,
                #[trigger] self.regions@[i],
            ) by {
                if refs == 1 {
                    pre.regions@.remove_ensures(ridx as int);
                    if i < ridx {
                        assert(region_same(self.regions@[i], pre.regions@[i]));
                    } else {
                        assert(region_same(self.regions@[i], pre.regions@[i + 1]));
                    }
                } else {
                    assert(region_same(self.regions@[i], pre.regions@[i]));
                }
            }
            lemma_regions_within_intro(self.regions@, pre.regions@);
            lemma_files_hold_remove(c0.open_files@, k as int, path@);
            assert forall|q: Seq<u8>| q != path@ implies #[trigger] conn_holds(c1, q)
                == conn_holds(c0, q) by {
                lemma_files_hold_remove(c0.open_files@, k as int, q);
            }
            if refs != 1 {
                assert(self.regions@[ridx as int].path@ == path@);
            }
        }
        Ok(out)
    }
}

/// What connection teardown leaves in the caller's hands.
#[derive(Debug)]
pub struct RemovedConnection {
    /// The endpoint, to deregister from the event loop and close.
    pub end_point: ServerEndPoint,
    /// Names of the regions this removal retired; the caller must unpublish
    /// each shared-memory name.
    pub retired: Vec<Vec<u8>>,
    /// Whether outbound bytes were still pending, in which case a
    /// write-readiness registration exists and must be dropped too.
    pub had_pending_output: bool,
}

impl VfsIpcServer {
    /// How many files a live connection has open.
    fn open_count(&self, tok: usize) -> (n: usize)
        requires
            self.live_token(tok as int),
        ensures
            n == self.connections@[tok as int].unwrap().open_files@.len(),
    {
        match self.connections[tok].as_ref() {
            Some(c) => c.open_files.len(),
            None => {
                proof {
                    assert(false);
                }
                0
            },
        }
    }

    /// Tears a connection down: drops every region reference its open-files
    /// table holds — retiring each region that loses its last reference —
    /// and frees the slot. Removing an unknown connection is an error that
    /// changes nothing; it signals misuse by the caller.
    #[verifier::rlimit(60)]
    pub fn remove_connection(&mut self, tok: usize) -> (r: Result<
        RemovedConnection,
        VfsIpcError,
    >)
        requires
            old(self).wf(),
        ensures
            final(self).wf(),
            final(self).server_pid == old(self).server_pid,
            final(self).next_generation == old(self).next_generation,
            !old(self).live_token(tok as int) ==> r == Err::<RemovedConnection, VfsIpcError>(
                VfsIpcError::RemoveUnknownClient,
            ) && final(self).connections@ == old(self).connections@ && final(self).regions == old(
                self,
            ).regions,
            old(self).live_token(tok as int) ==> r is Ok && ({
                let c0 = old(self).connections@[tok as int].unwrap();
                let out = r->Ok_0;
                &&& out.end_point == c0.end_point
                &&& out.had_pending_output == (c0.write_buf@.len() > 0)
                &&& final(self).connections@.len() == old(self).connections@.len()
                &&& final(self).connections@[tok as int] is None
                &&& forall|i: int|
                    0 <= i < old(self).connections@.len() && i != tok
                        ==> #[trigger] final(self).connections@[i] == old(self).connections@[i]
                &&& regions_within(final(self).regions@, old(self).regions@)
                &&& names_from(out.retired@, old(self).regions@)
            }),
    {
        if tok >= self.connections.len() {
            return Err(VfsIpcError::RemoveUnknownClient);
        }
        let had_pending_output: bool;
        match self.connections[tok].as_ref() {
            None => {
                return Err(VfsIpcError::RemoveUnknownClient);
            },
            Some(c) => {
                had_pending_output = c.write_buf.len() > 0;
            },
        }
        let ghost regions0: Seq<RegionEntry> = self.regions@;
        let ghost conns0: Seq<Option<ConnectionInfo>> = self.connections@;
        let ghost c_entry: ConnectionInfo = self.connections@[tok as int].unwrap();
        let mut retired: Vec<Vec<u8>> = Vec::new();
        proof {
            lemma_regions_within_refl(regions0);
        }
        while self.open_count(tok) > 0
            invariant
                self.wf(),
                self.live_token(tok as int),
                tok < self.connections@.len(),
                self.connections@.len() == conns0.len(),
                self.server_pid == old(self).server_pid,
                self.next_generation == old(self).next_generation,
                forall|i: int|
                    0 <= i < conns0.len() && i != tok ==> #[trigger] self.connections@[i]
                        == conns0[i],
                ({
                    let cc = self.connections@[tok as int].unwrap();
                    &&& cc.end_point == c_entry.end_point
                    &&& cc.write_buf == c_entry.write_buf
                    &&& cc.read_buf@ == c_entry.read_buf@
                    &&& cc.read_finished == c_entry.read_finished
                }),
                regions_within(self.regions@, regions0),
                names_from(retired@, regions0),
            decreases self.connections@[tok as int].unwrap().open_files@.len(),
        {
            let p: Vec<u8> = match self.connections[tok].as_ref() {
                None => {
                    proof {
                        assert(false);
                    }
                    Vec::new()
                },
                Some(c) => {
                    let m = c.open_files.len();
                    vstd::slice::slice_to_vec(c.open_files[m - 1].as_slice())
                },
            };
            {
                {
                    let ghost regions_before: Seq<RegionEntry> = self.regions@;
                    proof {
                        let cc = self.connections@[tok as int].unwrap();
                        assert((cc.open_files@[cc.open_files@.len() - 1])@ == p@);
                        assert(conn_holds(cc, p@));
                        assert(regions_within(regions_before, regions0));
                    }
                    let res = self.handle_close_request(tok, p.as_slice());
                    match res {
                        Ok(Some(nm)) => {
                            let ghost retired_pre = retired@;
                            let ghost nm_snap: Vec<u8> = nm;
                            proof {
                                assert(names_from(retired_pre, regions0));
                            }
                            retired.push(nm);
                            proof {
                                let j = choose|j: int|
                                    0 <= j < regions_before.len() && (
                                    #[trigger] regions_before[j]).path@ == p@
                                        && regions_before[j].refs == 1 && nm_snap@
                                        == regions_before[j].shm_name@ && self.regions@
                                        == regions_before.remove(j);
                                lemma_regions_within_at(regions_before, regions0, j);
                                let j2 = choose|j2: int|
                                    0 <= j2 < regions0.len() && region_same(
                                        regions_before[j],
                                        #[trigger] regions0[j2],
                                    );
                                lemma_names_from_push(retired_pre, nm_snap, regions0, j2);
                                assert(retired@ == retired_pre.push(nm_snap));
                            }
                        },
                        Ok(None) => {},
                        Err(_) => {
                            proof {
                                assert(false);
                            }
                        },
                    }
                    proof {
                        lemma_regions_within_trans(self.regions@, regions_before, regions0);
                    }
                }
            }
        }
        let ghost conns_drained: Seq<Option<ConnectionInfo>> = self.connections@;
        proof {
            assert(conns_drained[tok as int] is Some);
        }
        let slot = self.connections[tok].take();
        match slot {
            None => {
                proof {
                    assert(false);
                }
                Err(VfsIpcError::RemoveUnknownClient)
            },
            Some(c) => {
                proof {
                    // Freeing a connection with an empty open-files table
                    // changes no reference count.
                    assert(self.connections@ =~= conns_drained.update(tok as int, None));
                    assert(conns_drained[tok as int] == Some(c));
                    assert forall|i: int|
                        0 <= i < self.regions@.len() implies (#[trigger] self.regions@[i]).refs
                        == ref_count(self.connections@, self.regions@[i].path@)
                        && self.regions@[i].refs >= 1 by {
                        let p = self.regions@[i].path@;
                        lemma_ref_count_update(conns_drained, tok as int, None, p);
                        assert(!conn_holds(c, p));
                    }
                    assert forall|ci: int|
                        0 <= ci < self.connections@.len() && self.connections@[ci] is Some
                        implies wf_conn(
                        (#[trigger] self.connections@[ci]).unwrap(),
                        self.regions@,
                    ) by {
                        assert(self.connections@[ci] == conns_drained[ci]);
                    }
                }
                Ok(RemovedConnection { end_point: c.end_point, retired, had_pending_output })
            },
        }
    }
}

/// The registry is exact: it holds a region for a path exactly while some
/// connection holds that path open, and every entry's count says how many.
pub proof fn lemma_registry_exactly_referenced(s: &VfsIpcServer)
    requires
        s.wf(),
    ensures
        forall|i: int|
            0 <= i < s.regions@.len() ==> ref_count(s.connections@, (
            #[trigger] s.regions@[i]).path@) >= 1,
        forall|p: Seq<u8>|
            !has_region(s.regions@, p) ==> #[trigger] ref_count(s.connections@, p) == 0,
{
    assert forall|p: Seq<u8>| !has_region(s.regions@, p) implies #[trigger] ref_count(
        s.connections@,
        p,
    ) == 0 by {
        assert forall|i: int| 0 <= i < s.connections@.len() implies !slot_holds(
            #[trigger] s.connections@[i],
            p,
        ) by {
            if s.connections@[i] is Some {
                assert(wf_conn(s.connections@[i].unwrap(), s.regions@));
                if conn_holds(s.connections@[i].unwrap(), p) {
                    let k = choose|k: int|
                        0 <= k < s.connections@[i].unwrap().open_files@.len() && (
                        #[trigger] s.connections@[i].unwrap().open_files@[k])@ == p;
                    assert(has_region(s.regions@, p));
                }
            }
        }
        lemma_ref_count_zero(s.connections@, p);
    }
}

/// Once every connection is gone, the registry is empty: no shared-memory
/// name outlives its last reference.
pub proof fn lemma_registry_empty_when_no_connections(s: &VfsIpcServer)
    requires
        s.wf(),
        forall|i: int| 0 <= i < s.connections@.len() ==> (#[trigger] s.connections@[i]) is None,
    ensures
        s.regions@.len() == 0,
{
    if s.regions@.len() > 0 {
        let p = s.regions@[0].path@;
        assert forall|i: int| 0 <= i < s.connections@.len() implies !slot_holds(
            #[trigger] s.connections@[i],
            p,
        ) by {}
        lemma_ref_count_zero(s.connections@, p);
        assert(s.regions@[0].refs >= 1);
        assert(false);
    }
}

} // verus!
