//! The byte-stream model of a pipe, and the accumulating transfer loops.
//!
//! A pipe is a first-in-first-out byte queue: a write appends at the tail,
//! a read removes from the head, and the kernel is free to accept or deliver
//! any positive number of bytes per call. [`ByteQueue`] is that queue, with
//! the kernel's partiality made explicit: a partial write names how many
//! bytes were accepted, a partial read how many were delivered. The laws
//! below say that none of this partiality can lose, duplicate, or reorder a
//! byte.
use vstd::prelude::*;

verus! {

/// The bytes in flight inside one unidirectional pipe, oldest first.
pub struct ByteQueue {
    data: Vec<u8>,
}

impl View for ByteQueue {
    type V = Seq<u8>;

    closed spec fn view(&self) -> Seq<u8> {
        self.data@
    }
}

impl ByteQueue {
    /// An empty pipe.
    pub fn new() -> (r: ByteQueue)
        ensures
            r@ == Seq::<u8>::empty(),
    {
        ByteQueue { data: Vec::new() }
    }

    /// How many bytes are in flight.
    pub fn len(&self) -> (r: usize)
        ensures
            r == self@.len(),
    {
        self.data.len()
    }

    /// Whether the pipe is drained.
    pub fn is_empty(&self) -> (r: bool)
        ensures
            r == (self@.len() == 0),
    {
        self.data.len() == 0
    }

    /// A complete write: every byte of `chunk` enters the pipe, in order.
    pub fn write_all(&mut self, chunk: &[u8])
        ensures
            final(self)@ == old(self)@ + chunk@,
    {
        self.data.extend_from_slice(chunk);
    }

    /// A partial write: the pipe accepts the first `n` bytes of `chunk`,
    /// where `n` is the lesser of the chunk length and `room`, the space the
    /// kernel happens to offer this time.
    pub fn write_some(&mut self, chunk: &[u8], room: usize) -> (n: usize)
        ensures
            n == if chunk@.len() <= room {
                chunk@.len() as int
            } else {
                room as int
            },
            final(self)@ == old(self)@ + chunk@.take(n as int),
    {
        let n = if chunk.len() <= room {
            chunk.len()
        } else {
            room
        };
        let accepted = vstd::slice::slice_subrange(chunk, 0, n);
        self.data.extend_from_slice(accepted);
        proof {
            assert(accepted@ =~= chunk@.take(n as int));
        }
        n
    }

    /// A partial read: delivers the oldest `n` bytes, where `n` is the
    /// lesser of `max` and what is in flight.
    pub fn read_upto(&mut self, max: usize) -> (r: Vec<u8>)
        ensures
            r@ == old(self)@.take(
                if old(self)@.len() <= max {
                    old(self)@.len() as int
                } else {
                    max as int
                },
            ),
            final(self)@ == old(self)@.skip(
                if old(self)@.len() <= max {
                    old(self)@.len() as int
                } else {
                    max as int
                },
            ),
    {
        let n = if self.data.len() <= max {
            self.data.len()
        } else {
            max
        };
        let r = vstd::slice::slice_to_vec(vstd::slice::slice_subrange(self.data.as_slice(), 0, n));
        let tail = self.data.split_off(n);
        self.data = tail;
        proof {
            assert(r@ =~= old(self)@.take(n as int));
            assert(self@ =~= old(self)@.skip(n as int));
        }
        r
    }
}

/// Sends all of `src` through a pipe whose kernel buffer accepts at most
/// `room` bytes per write — the accumulating write loop: write as much as
/// the pipe takes, drain the pipe into `sink`, repeat until every byte has
/// moved. However small `room` is and however many partial transfers it
/// takes, `sink` receives exactly the bytes of `src`, in order, none lost
/// and none duplicated.
pub fn pump_through(pipe: &mut ByteQueue, src: &[u8], sink: &mut Vec<u8>, room: usize)
    requires
        old(pipe)@.len() == 0,
        room >= 1,
    ensures
        final(sink)@ == old(sink)@ + src@,
        final(pipe)@.len() == 0,
{
    let len = src.len();
    let mut pos: usize = 0;
    while pos < len
        invariant
            pos <= len,
            len == src@.len(),
            room >= 1,
            pipe@.len() == 0,
            sink@ == old(sink)@ + src@.take(pos as int),
        decreases len - pos,
    {
        let remaining = vstd::slice::slice_subrange(src, pos, len);
        let n = pipe.write_some(remaining, room);
        proof {
            assert(remaining@.take(n as int) =~= src@.subrange(pos as int, pos + n));
        }
        let delivered = pipe.read_upto(n);
        sink.extend_from_slice(delivered.as_slice());
        proof {
            assert(src@.take(pos + n) =~= src@.take(pos as int) + src@.subrange(
                pos as int,
                pos + n,
            ));
            assert(pipe@ =~= Seq::<u8>::empty());
        }
        pos = pos + n;
    }
    proof {
        assert(src@.take(len as int) =~= src@);
    }
}

/// The total of a list of read counts.
pub open spec fn total_of(counts: Seq<int>) -> int
    decreases counts.len(),
{
    if counts.len() == 0 {
        0
    } else {
        counts.first() + total_of(counts.drop_first())
    }
}

/// The concatenation of successive reads of the given sizes from the front
/// of `q`.
pub open spec fn reads_concat(q: Seq<u8>, counts: Seq<int>) -> Seq<u8>
    decreases counts.len(),
{
    if counts.len() == 0 {
        Seq::empty()
    } else {
        q.take(counts.first()) + reads_concat(q.skip(counts.first()), counts.drop_first())
    }
}

/// Round-trip identity of the byte channel: writing a byte sequence `b`
/// through one end — in whatever chunks, since a write appends exactly its
/// chunk, the pipe then holds the concatenation `b` — and reading the same
/// total length back from the other end, cut into whatever positive pieces
/// the kernel delivers, yields exactly `b`.
pub proof fn lemma_channel_round_trip(b: Seq<u8>, counts: Seq<int>)
    requires
        forall|i: int| 0 <= i < counts.len() ==> #[trigger] counts[i] >= 0,
        total_of(counts) == b.len(),
    ensures
        reads_concat(b, counts) == b,
    decreases counts.len(),
{
    if counts.len() == 0 {
        assert(reads_concat(b, counts) =~= b);
    } else {
        let c = counts.first();
        assert(total_of(counts.drop_first()) >= 0) by {
            lemma_total_nonneg(counts.drop_first());
        }
        lemma_channel_round_trip(b.skip(c), counts.drop_first());
        assert(reads_concat(b, counts) =~= b.take(c) + b.skip(c));
        assert(b.take(c) + b.skip(c) =~= b);
    }
}

/// A list of nonnegative counts has a nonnegative total.
pub proof fn lemma_total_nonneg(counts: Seq<int>)
    requires
        forall|i: int| 0 <= i < counts.len() ==> #[trigger] counts[i] >= 0,
    ensures
        total_of(counts) >= 0,
    decreases counts.len(),
{
    if counts.len() > 0 {
        lemma_total_nonneg(counts.drop_first());
    }
}

} // verus!
