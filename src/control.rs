use vstd::prelude::*;
use crate::description::ControlPoint;

verus! {

/// How many messages a channel holds before senders are told it is full.
pub const CHANNEL_CAPACITY: usize = 64;

/// What a control message asks of its node.
#[derive(Clone, Copy, Debug, PartialEq, Eq, Structural)]
pub enum ControlPayload {
    /// Move to the anchor at the next safe musical boundary.
    SeekWhenIdeal { anchor: u64 },
}

/// A request addressed to one node of a compiled graph.
#[derive(Clone, Copy, Debug, PartialEq, Eq, Structural)]
pub struct ControlMessage {
    pub target: u64,
    pub payload: ControlPayload,
}

/// Why a message was not accepted; the sender gets it back and decides.
#[derive(Clone, Copy, Debug, PartialEq, Eq, Structural)]
pub enum ChannelError {
    Full,
    Closed,
}

/// The abstract state of a control channel and the node state it steers.
pub struct ChannelState {
    pub point: ControlPoint,
    pub queue: Seq<ControlMessage>,
    pub pending: Option<u64>,
    pub applied: Seq<u64>,
    pub closed: bool,
}

/// An inbound queue bound to one compiled node. Messages are consumed in the
/// order they were sent; a seek to a node with boundaries waits, and a later
/// seek replaces a waiting one.
pub struct ControlChannel {
    point: ControlPoint,
    queue: Vec<ControlMessage>,
    pending: Option<u64>,
    applied: Vec<u64>,
    closed: bool,
}

impl View for ControlChannel {
    type V = ChannelState;

    closed spec fn view(&self) -> ChannelState {
        ChannelState {
            point: self.point,
            queue: self.queue@,
            pending: self.pending,
            applied: self.applied@,
            closed: self.closed,
        }
    }
}

/// A channel as it comes out of a compile: empty, open, nothing applied.
pub open spec fn is_fresh(s: ChannelState, point: ControlPoint) -> bool {
    &&& s.point == point
    &&& s.queue.len() == 0
    &&& s.pending is None
    &&& s.applied.len() == 0
    &&& !s.closed
}

/// Whether a send into this state is accepted.
pub open spec fn accepts(s: ChannelState) -> bool {
    !s.closed && s.queue.len() < CHANNEL_CAPACITY
}

/// The state after a message is accepted.
pub open spec fn enqueue(s: ChannelState, m: ControlMessage) -> ChannelState {
    ChannelState { queue: s.queue.push(m), ..s }
}

/// What consuming one message does. A message for another node is ignored;
/// a seek waits where the node has boundaries and applies at once elsewhere.
pub open spec fn deliver(s: ChannelState, m: ControlMessage) -> ChannelState {
    if m.target != s.point.node_id {
        s
    } else {
        match m.payload {
            ControlPayload::SeekWhenIdeal { anchor } => if s.point.deferred {
                ChannelState { pending: Some(anchor), ..s }
            } else {
                ChannelState { applied: s.applied.push(anchor), ..s }
            },
        }
    }
}

/// Consuming a sequence of messages in order.
pub open spec fn deliver_all(s: ChannelState, q: Seq<ControlMessage>) -> ChannelState
    decreases q.len(),
{
    if q.len() == 0 {
        s
    } else {
        deliver(deliver_all(s, q.drop_last()), q.last())
    }
}

/// Consuming everything queued: the queue empties.
pub open spec fn drain(s: ChannelState) -> ChannelState {
    ChannelState { queue: Seq::empty(), ..deliver_all(s, s.queue) }
}

/// What reaching a musical boundary does: a waiting seek is applied.
pub open spec fn at_boundary(s: ChannelState) -> ChannelState {
    match s.pending {
        Some(a) => ChannelState { pending: None, applied: s.applied.push(a), ..s },
        None => s,
    }
}

impl ControlChannel {
    /// A fresh channel for the given node.
    pub fn new(point: ControlPoint) -> (r: ControlChannel)
        ensures
            is_fresh(r@, point),
    {
        ControlChannel { point, queue: Vec::new(), pending: None, applied: Vec::new(), closed: false }
    }

    /// The node this channel steers.
    pub fn point(&self) -> (r: ControlPoint)
        ensures
            r == self@.point,
    {
        self.point
    }

    /// The seek that waits for the next boundary, if any.
    pub fn pending(&self) -> (r: Option<u64>)
        ensures
            r == self@.pending,
    {
        self.pending
    }

    /// The anchors applied so far, oldest first.
    pub fn applied(&self) -> (r: &Vec<u64>)
        ensures
            r@ == self@.applied,
    {
        &self.applied
    }

    /// Number of messages sent and not yet consumed.
    pub fn queued(&self) -> (r: usize)
        ensures
            r == self@.queue.len(),
    {
        self.queue.len()
    }

    /// Whether the owning node was torn down.
    pub fn is_closed(&self) -> (r: bool)
        ensures
            r == self@.closed,
    {
        self.closed
    }

    /// Queues a message. Fails, leaving the channel as it was, when the
    /// channel is closed or full.
    pub fn send(&mut self, m: ControlMessage) -> (r: Result<(), ChannelError>)
        ensures
            r is Ok <==> accepts(old(self)@),
            r == Err::<(), ChannelError>(ChannelError::Closed) <==> old(self)@.closed,
            r is Ok ==> final(self)@ == enqueue(old(self)@, m),
            r is Err ==> final(self)@ == old(self)@,
    {
        if self.closed {
            Err(ChannelError::Closed)
        } else if self.queue.len() >= CHANNEL_CAPACITY {
            Err(ChannelError::Full)
        } else {
            self.queue.push(m);
            Ok(())
        }
    }

    /// Marks the channel closed: its node is gone and later sends fail.
    pub fn close(&mut self)
        ensures
            final(self)@ == (ChannelState { closed: true, ..old(self)@ }),
    {
        self.closed = true;
    }

    fn deliver_one(&mut self, m: ControlMessage)
        ensures
            final(self)@ == deliver(old(self)@, m),
    {
        if m.target == self.point.node_id {
            match m.payload {
                ControlPayload::SeekWhenIdeal { anchor } => {
                    if self.point.deferred {
                        self.pending = Some(anchor);
                    } else {
                        self.applied.push(anchor);
                    }
                },
            }
        }
    }

    /// Consumes every queued message in send order, as the node does before
    /// producing its next block of samples.
    pub fn process(&mut self)
        ensures
            final(self)@ == drain(old(self)@),
    {
        let mut q: Vec<ControlMessage> = Vec::new();
        std::mem::swap(&mut q, &mut self.queue);
        let ghost s0 = old(self)@;
        let mut i: usize = 0;
        while i < q.len()
            invariant
                0 <= i <= q.len(),
                q@ == s0.queue,
                self@ == (ChannelState { queue: Seq::empty(), ..deliver_all(s0, q@.take(i as int)) }),
            decreases q.len() - i,
        {
            proof {
                assert(q@.take(i + 1).drop_last() =~= q@.take(i as int));
            }
            self.deliver_one(q[i]);
            i += 1;
        }
        proof {
            assert(q@.take(q@.len() as int) =~= q@);
        }
    }

    /// Called when the node reaches a safe musical boundary.
    pub fn reach_boundary(&mut self)
        ensures
            final(self)@ == at_boundary(old(self)@),
    {
        if let Some(a) = self.pending {
            self.pending = None;
            self.applied.push(a);
        }
    }
}

/// Two seeks sent to a node with boundaries before it reaches one: only the
/// later anchor is applied, once, at the boundary.
pub proof fn lemma_latest_seek_wins(s: ChannelState, a: ControlMessage, b: ControlMessage)
    requires
        s.point.deferred,
        !s.closed,
        s.queue.len() == 0,
        a.target == s.point.node_id,
        b.target == s.point.node_id,
    ensures
        accepts(s),
        accepts(enqueue(s, a)),
        at_boundary(drain(enqueue(enqueue(s, a), b))).applied == s.applied.push(
            match b.payload {
                ControlPayload::SeekWhenIdeal { anchor } => anchor,
            },
        ),
        at_boundary(drain(enqueue(enqueue(s, a), b))).pending is None,
{
    let s2 = enqueue(enqueue(s, a), b);
    let q = s2.queue;
    assert(q.drop_last() =~= seq![a]);
    assert(q.drop_last().drop_last() =~= Seq::<ControlMessage>::empty());
    assert(deliver_all(s2, q.drop_last().drop_last()) == s2);
    assert(deliver_all(s2, q.drop_last()) == deliver(s2, a));
    assert(deliver_all(s2, q) == deliver(deliver(s2, a), b));
}

/// A seek sent to a node without boundaries is applied as soon as it is
/// consumed, with nothing left waiting.
pub proof fn lemma_seek_without_boundary_is_immediate(s: ChannelState, a: ControlMessage)
    requires
        !s.point.deferred,
        !s.closed,
        s.queue.len() == 0,
        s.pending is None,
        a.target == s.point.node_id,
    ensures
        accepts(s),
        drain(enqueue(s, a)).applied == s.applied.push(
            match a.payload {
                ControlPayload::SeekWhenIdeal { anchor } => anchor,
            },
        ),
        drain(enqueue(s, a)).pending is None,
{
    let s1 = enqueue(s, a);
    assert(s1.queue.drop_last() =~= Seq::<ControlMessage>::empty());
    assert(deliver_all(s1, s1.queue.drop_last()) == s1);
    assert(deliver_all(s1, s1.queue) == deliver(s1, a));
}

} // verus!
