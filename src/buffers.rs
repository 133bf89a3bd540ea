use vstd::prelude::*;
use vstd::slice::slice_subrange;

use crate::codec::{ControlPacket, PacketView};

verus! {

/// Bound on the bytes waiting in one direction of a stream.
pub const STREAM_BUFFER_BYTES: usize = 65536;

/// Bound on the frames waiting to go out on one control link.
pub const OUTBOUND_FRAMES: usize = 1024;

/// Bytes that the client sent for one stream and the end user has not read
/// yet. Every byte accepted is either still pending or was delivered, in
/// order: nothing is dropped or reordered.
pub struct StreamBuffer {
    pending: Vec<u8>,
    /// Every byte accepted so far.
    received: Ghost<Seq<u8>>,
    /// Every byte handed to the end user so far.
    delivered: Ghost<Seq<u8>>,
    delivered_count: u64,
    received_count: u64,
}

impl StreamBuffer {
    pub closed spec fn pending_view(&self) -> Seq<u8> {
        self.pending@
    }

    pub closed spec fn received_view(&self) -> Seq<u8> {
        self.received@
    }

    pub closed spec fn delivered_view(&self) -> Seq<u8> {
        self.delivered@
    }

    /// What was received is what was delivered followed by what is pending,
    /// and the pending bytes stay within their bound.
    pub closed spec fn wf(&self) -> bool {
        &&& self.received@ == self.delivered@ + self.pending@
        &&& self.pending@.len() <= STREAM_BUFFER_BYTES
        &&& self.received_count == self.received@.len()
        &&& self.delivered_count == self.delivered@.len()
    }

    pub fn new() -> (r: StreamBuffer)
        ensures
            r.wf(),
            r.received_view() == Seq::<u8>::empty(),
            r.delivered_view() == Seq::<u8>::empty(),
            r.pending_view() == Seq::<u8>::empty(),
    {
        let r = StreamBuffer {
            pending: Vec::new(),
            received: Ghost(Seq::empty()),
            delivered: Ghost(Seq::empty()),
            delivered_count: 0,
            received_count: 0,
        };
        assert(r.received@ =~= r.delivered@ + r.pending@);
        r
    }

    pub fn received_count(&self) -> (r: u64)
        requires
            self.wf(),
        ensures
            r == self.received_view().len(),
    {
        self.received_count
    }

    pub fn delivered_count(&self) -> (r: u64)
        requires
            self.wf(),
        ensures
            r == self.delivered_view().len(),
    {
        self.delivered_count
    }

    pub fn pending_len(&self) -> (r: usize)
        requires
            self.wf(),
        ensures
            r == self.pending_view().len(),
    {
        self.pending.len()
    }

    /// Accepts a chunk when it fits beside what is pending; otherwise leaves
    /// everything as it was, and the producer waits for the end user to read.
    pub fn push(&mut self, data: &[u8]) -> (accepted: bool)
        requires
            old(self).wf(),
        ensures
            final(self).wf(),
            accepted == (old(self).pending_view().len() + data@.len() <= STREAM_BUFFER_BYTES
                && old(self).received_view().len() + data@.len() <= u64::MAX),
            accepted ==> final(self).received_view() == old(self).received_view() + data@
                && final(self).pending_view() == old(self).pending_view() + data@
                && final(self).delivered_view() == old(self).delivered_view(),
            !accepted ==> *final(self) == *old(self),
    {
        if data.len() > STREAM_BUFFER_BYTES - self.pending.len() {
            return false;
        }
        if data.len() as u64 > u64::MAX - self.received_count {
            return false;
        }
        let ghost p0 = self.pending@;
        self.pending.extend_from_slice(data);
        proof {
            assert forall|i: int| 0 <= i < data@.len() implies self.pending@[p0.len() + i]
                == data@[i] by {
                assert(self.pending@[p0.len() + i] == data@[i]);
            }
            assert(self.pending@ =~= p0 + data@);
            self.received@ = self.received@ + data@;
            assert(self.received@ =~= self.delivered@ + self.pending@);
        }
        self.received_count = self.received_count + data.len() as u64;
        true
    }

    /// Hands the end user up to `max` of the oldest pending bytes.
    pub fn take(&mut self, max: usize) -> (out: Vec<u8>)
        requires
            old(self).wf(),
        ensures
            final(self).wf(),
            out@.len() == (if max < old(self).pending_view().len() {
                max as int
            } else {
                old(self).pending_view().len() as int
            }),
            out@ == old(self).pending_view().take(out@.len() as int),
            final(self).pending_view() == old(self).pending_view().skip(out@.len() as int),
            final(self).delivered_view() == old(self).delivered_view() + out@,
            final(self).received_view() == old(self).received_view(),
    {
        let n = if max < self.pending.len() {
            max
        } else {
            self.pending.len()
        };
        let out = vstd::slice::slice_to_vec(slice_subrange(self.pending.as_slice(), 0, n));
        let rest = vstd::slice::slice_to_vec(
            slice_subrange(self.pending.as_slice(), n, self.pending.len()),
        );
        let ghost p0 = self.pending@;
        self.pending = rest;
        proof {
            assert(out@ =~= p0.take(n as int));
            assert(self.pending@ =~= p0.skip(n as int));
            assert(p0 =~= out@ + self.pending@);
            self.delivered@ = self.delivered@ + out@;
            assert(self.received@ =~= self.delivered@ + self.pending@);
        }
        self.delivered_count = self.delivered_count + n as u64;
        out
    }
}

/// Once a stream's buffer is drained, the end user has received exactly the
/// bytes that the client sent, in order; before that, what it received is a
/// prefix of them.
pub proof fn lemma_delivered_is_prefix(b: StreamBuffer)
    requires
        b.wf(),
    ensures
        b.delivered_view() == b.received_view().take(b.delivered_view().len() as int),
        b.pending_view().len() == 0 ==> b.delivered_view() == b.received_view(),
        b.received_view().len() == b.delivered_view().len() + b.pending_view().len(),
{
    assert(b.received_view().take(b.delivered_view().len() as int) =~= b.delivered_view());
    if b.pending_view().len() == 0 {
        assert(b.received_view() =~= b.delivered_view());
    }
}

/// The frames waiting to go out on one control link, first in first out, at
/// most `OUTBOUND_FRAMES` of them.
#[derive(Debug)]
pub struct OutboundQueue {
    frames: Vec<ControlPacket>,
}

impl View for OutboundQueue {
    type V = Seq<PacketView>;

    closed spec fn view(&self) -> Seq<PacketView> {
        self.frames@.map_values(|p: ControlPacket| p@)
    }
}

impl OutboundQueue {
    pub open spec fn wf(&self) -> bool {
        self@.len() <= OUTBOUND_FRAMES
    }

    pub fn new() -> (r: OutboundQueue)
        ensures
            r@ == Seq::<PacketView>::empty(),
            r.wf(),
    {
        let r = OutboundQueue { frames: Vec::new() };
        assert(r@ =~= Seq::<PacketView>::empty());
        r
    }

    pub fn len(&self) -> (r: usize)
        ensures
            r == self@.len(),
    {
        self.frames.len()
    }

    pub fn is_full(&self) -> (r: bool)
        ensures
            r == (self@.len() >= OUTBOUND_FRAMES),
    {
        self.frames.len() >= OUTBOUND_FRAMES
    }

    /// Queues a frame behind the others. When the queue is full the frame is
    /// handed back untouched, for the producer to offer again once the
    /// queue drains: it is never dropped.
    pub fn push(&mut self, p: ControlPacket) -> (r: Result<(), ControlPacket>)
        requires
            old(self).wf(),
        ensures
            final(self).wf(),
            r.is_ok() == (old(self)@.len() < OUTBOUND_FRAMES),
            r.is_ok() ==> final(self)@ == old(self)@.push(p@),
            r matches Err(q) ==> q@ == p@ && final(self)@ == old(self)@,
    {
        if self.frames.len() >= OUTBOUND_FRAMES {
            return Err(p);
        }
        let ghost before = self@;
        self.frames.push(p);
        assert(self@ =~= before.push(p@));
        Ok(())
    }

    /// Takes the oldest frame.
    pub fn pop(&mut self) -> (r: Option<ControlPacket>)
        requires
            old(self).wf(),
        ensures
            final(self).wf(),
            r.is_none() == (old(self)@.len() == 0),
            r matches Some(p) ==> p@ == old(self)@[0] && final(self)@ == old(self)@.skip(1),
            r.is_none() ==> final(self)@ == old(self)@,
    {
        if self.frames.len() == 0 {
            return None;
        }
        let ghost before = self@;
        let p = self.frames.remove(0);
        assert(self@ =~= before.skip(1));
        Some(p)
    }
}

} // verus!
