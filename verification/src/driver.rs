//! A driver that contains frame queues only, and requires external code
//! to actually send and receive frames.
//!
//! The transmit side is the verified priority queue; the receive side is
//! a bounded FIFO backed by `heapless::Deque`, filled by external code
//! (say an interrupt handler) and drained through `receive`. The current
//! subscription list is stored for external code to apply to the CAN
//! peripheral's filters.

use vstd::prelude::*;
use crate::frame::Frame;
use crate::queue::{return_insert, sorted_by_id, stable_insert, FrameQueue};
use crate::types::{OutOfMemoryError, WouldBlock};

verus! {

/// What kind of transfers a subscription asks for.
#[derive(Clone, Copy, Debug, PartialEq, Eq, Structural)]
pub enum SubscriptionKind {
    /// Broadcast messages on a subject.
    Message,
    /// Service requests addressed to this node.
    Request,
    /// Service responses addressed to this node.
    Response,
}

/// One entry of the filter list handed to the CAN peripheral: the port a
/// node wants to hear, and the reassembly timeout to use for it.
#[derive(Clone, Copy, Debug, PartialEq, Eq, Structural)]
pub struct Subscription {
    /// The kind of transfer subscribed to.
    pub kind: SubscriptionKind,
    /// The subject id, or the service id.
    pub port: u16,
    /// The session inactivity timeout for this port.
    pub timeout: u64,
}

/// How many received frames the driver buffers before refusing more.
pub const RX_QUEUE_CAPACITY: usize = 16;

/// The plain value of a frame: timestamp, identifier, payload bytes.
pub open spec fn frame_parts(f: Frame) -> (u64, u32, Seq<u8>) {
    (f.timestamp, f.id, f.payload@)
}

/// A bounded FIFO of received frames, backed by `heapless::Deque`.
#[verifier::external_body]
pub struct FrameDeque {
    inner: heapless::Deque<Frame, RX_QUEUE_CAPACITY>,
}

/// What the receive FIFO holds, front first, each frame as its plain
/// parts.
pub uninterp spec fn frame_deque_contents(q: &FrameDeque) -> Seq<(u64, u32, Seq<u8>)>;

/// Relies on heapless::Deque::new: creates an empty deque.
#[verifier::external_body]
fn frame_deque_new() -> (q: FrameDeque)
    ensures
        frame_deque_contents(&q) == Seq::<(u64, u32, Seq<u8>)>::empty(),
{
    FrameDeque { inner: heapless::Deque::new() }
}

/// Relies on heapless::Deque::push_back: appends the item unless the
/// deque already holds its capacity of items, in which case it is
/// returned and nothing changes.
#[verifier::external_body]
fn frame_deque_push_back(q: &mut FrameDeque, f: Frame) -> (r: Result<(), OutOfMemoryError>)
    ensures
        r is Ok <==> frame_deque_contents(old(q)).len() < RX_QUEUE_CAPACITY,
        r is Ok ==> frame_deque_contents(final(q)) == frame_deque_contents(old(q)).push(
            frame_parts(f),
        ),
        r is Err ==> frame_deque_contents(final(q)) == frame_deque_contents(old(q)),
{
    q.inner.push_back(f).map(|_| ()).map_err(|_| OutOfMemoryError)
}

/// Relies on heapless::Deque::pop_front: removes and returns the front
/// item, or `None` when empty.
#[verifier::external_body]
fn frame_deque_pop_front(q: &mut FrameDeque) -> (r: Option<Frame>)
    ensures
        r is Some <==> frame_deque_contents(old(q)).len() > 0,
        r is Some ==> frame_parts(r.unwrap()) == frame_deque_contents(old(q))[0]
            && frame_deque_contents(final(q)) == frame_deque_contents(old(q)).drop_first(),
        r is None ==> frame_deque_contents(final(q)) == frame_deque_contents(old(q)),
{
    q.inner.pop_front()
}

/// Relies on fallible_collections::FallibleVec::try_push: appends the
/// element, or reports the allocation failure with the vector unchanged.
#[verifier::external_body]
fn try_push_subscription(v: &mut Vec<Subscription>, s: Subscription) -> (r: Result<
    (),
    OutOfMemoryError,
>)
    ensures
        r is Ok ==> final(v)@ == old(v)@.push(s),
        r is Err ==> final(v)@ == old(v)@,
{
    fallible_collections::FallibleVec::try_push(v, s).map_err(|_| OutOfMemoryError)
}

/// Relies on std's Vec::shrink_to_fit: drops spare capacity only, the
/// elements stay as they are.
#[verifier::external_body]
fn shrink_subscriptions(v: &mut Vec<Subscription>)
    ensures
        final(v)@ == old(v)@,
{
    v.shrink_to_fit()
}

/// A driver made of queues: external code moves frames between them and
/// the CAN peripheral.
pub struct QueueOnlyDriver {
    tx_queue: FrameQueue,
    rx_queue: FrameDeque,
    subscriptions: Vec<Subscription>,
}

impl QueueOnlyDriver {
    /// The outgoing frames, in priority order, front first.
    pub closed spec fn tx_view(&self) -> Seq<Frame> {
        self.tx_queue@
    }

    /// The buffered received frames, front first, as plain parts.
    pub closed spec fn rx_view(&self) -> Seq<(u64, u32, Seq<u8>)> {
        frame_deque_contents(&self.rx_queue)
    }

    /// The stored subscription list.
    pub closed spec fn spec_subscriptions(&self) -> Seq<Subscription> {
        self.subscriptions@
    }

    /// The fixed transmit queue capacity.
    pub closed spec fn spec_tx_capacity(&self) -> usize {
        self.tx_queue.spec_capacity()
    }

    /// The transmit queue invariant: within capacity and sorted by
    /// identifier, so the front frame wins bus arbitration.
    pub open spec fn wf(&self) -> bool {
        self.tx_view().len() <= self.spec_tx_capacity() && sorted_by_id(self.tx_view())
    }

    /// Creates a driver whose transmit queue holds at most `tx_capacity`
    /// frames.
    pub fn new(tx_capacity: usize) -> (d: QueueOnlyDriver)
        ensures
            d.wf(),
            d.tx_view() =~= Seq::<Frame>::empty(),
            d.rx_view() == Seq::<(u64, u32, Seq<u8>)>::empty(),
            d.spec_subscriptions() =~= Seq::<Subscription>::empty(),
            d.spec_tx_capacity() == tx_capacity,
    {
        QueueOnlyDriver {
            tx_queue: FrameQueue::new(tx_capacity),
            rx_queue: frame_deque_new(),
            subscriptions: Vec::new(),
        }
    }

    /// Pushes a received frame onto the back of the receive queue, to be
    /// retrieved by `receive`; fails exactly when the queue is full.
    pub fn push_rx_frame(&mut self, frame: Frame) -> (r: Result<(), OutOfMemoryError>)
        requires
            old(self).wf(),
        ensures
            final(self).wf(),
            final(self).tx_view() == old(self).tx_view(),
            final(self).spec_subscriptions() == old(self).spec_subscriptions(),
            final(self).spec_tx_capacity() == old(self).spec_tx_capacity(),
            r is Ok <==> old(self).rx_view().len() < RX_QUEUE_CAPACITY,
            r is Ok ==> final(self).rx_view() == old(self).rx_view().push(frame_parts(frame)),
            r is Err ==> final(self).rx_view() == old(self).rx_view(),
    {
        frame_deque_push_back(&mut self.rx_queue, frame)
    }

    /// Removes and returns the frame at the front of the transmit queue:
    /// the one that wins bus arbitration.
    pub fn pop_tx_frame(&mut self) -> (r: Option<Frame>)
        requires
            old(self).wf(),
        ensures
            final(self).wf(),
            final(self).rx_view() == old(self).rx_view(),
            final(self).spec_subscriptions() == old(self).spec_subscriptions(),
            final(self).spec_tx_capacity() == old(self).spec_tx_capacity(),
            old(self).tx_view().len() == 0 ==> r is None && final(self).tx_view() == old(self)
                .tx_view(),
            old(self).tx_view().len() > 0 ==> r == Some(old(self).tx_view()[0]) && final(self)
                .tx_view() == old(self).tx_view().drop_first(),
    {
        self.tx_queue.pop_frame()
    }

    /// Returns a frame to the transmit queue after a failed transmission:
    /// it goes behind frames of strictly higher priority already queued,
    /// but ahead of frames of equal identifier.
    pub fn return_tx_frame(&mut self, frame: Frame) -> (r: Result<(), OutOfMemoryError>)
        requires
            old(self).wf(),
        ensures
            final(self).wf(),
            final(self).rx_view() == old(self).rx_view(),
            final(self).spec_subscriptions() == old(self).spec_subscriptions(),
            final(self).spec_tx_capacity() == old(self).spec_tx_capacity(),
            r is Ok <==> old(self).tx_view().len() < old(self).spec_tx_capacity(),
            r is Ok ==> final(self).tx_view() == return_insert(old(self).tx_view(), frame),
            r is Err ==> final(self).tx_view() == old(self).tx_view(),
    {
        self.tx_queue.return_frame(frame)
    }

    /// The subscriptions stored by the last `apply_filters` call; empty
    /// if it was never called, or its allocation failed.
    pub fn subscriptions(&self) -> (r: &[Subscription])
        ensures
            r@ == self.spec_subscriptions(),
    {
        self.subscriptions.as_slice()
    }

    /// Checks that `frames` more frames fit in the transmit queue, so a
    /// multi-frame send either fully succeeds or enqueues nothing.
    pub fn try_reserve(&mut self, frames: usize) -> (r: Result<(), OutOfMemoryError>)
        requires
            old(self).wf(),
        ensures
            *final(self) == *old(self),
            r is Ok <==> old(self).tx_view().len() + frames <= old(self).spec_tx_capacity(),
    {
        self.tx_queue.try_reserve(frames)
    }

    /// Enqueues one outgoing frame at its priority position. A queue at
    /// capacity is reported explicitly as `OutOfMemoryError`, never
    /// silently; the queued frames are then unchanged.
    pub fn transmit(&mut self, frame: Frame, now: u64) -> (r: Result<
        Option<Frame>,
        OutOfMemoryError,
    >)
        requires
            old(self).wf(),
        ensures
            final(self).wf(),
            final(self).rx_view() == old(self).rx_view(),
            final(self).spec_subscriptions() == old(self).spec_subscriptions(),
            final(self).spec_tx_capacity() == old(self).spec_tx_capacity(),
            r is Ok <==> old(self).tx_view().len() < old(self).spec_tx_capacity(),
            r is Ok ==> final(self).tx_view() == stable_insert(old(self).tx_view(), frame) && r
                == Ok::<Option<Frame>, OutOfMemoryError>(None),
            r is Err ==> final(self).tx_view() == old(self).tx_view(),
    {
        let _ = now;
        match self.tx_queue.push_frame(frame) {
            Ok(()) => Ok(None),
            Err(e) => Err(e),
        }
    }

    /// Nothing to flush: frames leave through `pop_tx_frame` only.
    pub fn flush(&mut self, now: u64) -> (r: Result<(), WouldBlock>)
        ensures
            *final(self) == *old(self),
            r is Ok,
    {
        let _ = now;
        Ok(())
    }

    /// Takes the oldest buffered received frame, or `WouldBlock` when
    /// none is waiting.
    pub fn receive(&mut self, now: u64) -> (r: Result<Frame, WouldBlock>)
        requires
            old(self).wf(),
        ensures
            final(self).wf(),
            final(self).tx_view() == old(self).tx_view(),
            final(self).spec_subscriptions() == old(self).spec_subscriptions(),
            final(self).spec_tx_capacity() == old(self).spec_tx_capacity(),
            r is Ok <==> old(self).rx_view().len() > 0,
            r is Ok ==> frame_parts(r.unwrap()) == old(self).rx_view()[0] && final(self).rx_view()
                == old(self).rx_view().drop_first(),
            r is Err ==> final(self).rx_view() == old(self).rx_view(),
    {
        let _ = now;
        match frame_deque_pop_front(&mut self.rx_queue) {
            Some(f) => Ok(f),
            None => Err(WouldBlock),
        }
    }

    /// Stores the current subscription list for external code to apply
    /// to the peripheral's filters.
    ///
    /// Fail-open on allocation failure: the stored list is then left
    /// empty — external code filters nothing rather than something
    /// partial — and its spare capacity is released.
    pub fn apply_filters(&mut self, local_node: Option<u8>, subscriptions: &Vec<Subscription>)
        requires
            old(self).wf(),
        ensures
            final(self).wf(),
            final(self).tx_view() == old(self).tx_view(),
            final(self).rx_view() == old(self).rx_view(),
            final(self).spec_tx_capacity() == old(self).spec_tx_capacity(),
            final(self).spec_subscriptions() == subscriptions@ || final(self).spec_subscriptions()
                =~= Seq::<Subscription>::empty(),
    {
        let _ = local_node;
        self.subscriptions.clear();
        let n = subscriptions.len();
        let mut i: usize = 0;
        let mut failed = false;
        while i < n && !failed
            invariant
                i <= n,
                n == subscriptions@.len(),
                self.tx_queue == old(self).tx_queue,
                self.rx_queue == old(self).rx_queue,
                !failed ==> self.subscriptions@ =~= subscriptions@.take(i as int),
                failed ==> self.subscriptions@.len() == 0,
            decreases n - i,
        {
            let s = subscriptions[i];
            match try_push_subscription(&mut self.subscriptions, s) {
                Ok(()) => {
                    proof {
                        assert(subscriptions@.take(i as int).push(s) =~= subscriptions@.take(
                            i as int + 1,
                        ));
                    }
                },
                Err(_) => {
                    // No memory: leave the list empty, keeping no stale
                    // or partial filter set.
                    self.subscriptions.clear();
                    shrink_subscriptions(&mut self.subscriptions);
                    failed = true;
                },
            }
            i = i + 1;
        }
        proof {
            if !failed {
                assert(subscriptions@.take(n as int) =~= subscriptions@);
            }
        }
    }
}

} // verus!
