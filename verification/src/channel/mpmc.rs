//! The state machine of an asynchronously awaitable multi producer multi
//! consumer channel.
//!
//! Values travel through a ring buffer. A sender that finds the buffer full
//! waits in a queue while keeping its value; a receiver that finds nothing to
//! take waits in a queue of its own. Values are handed out first-in,
//! first-out, counting the values of waiting senders behind the buffered
//! ones.

use crate::buffer::RingBuf;
use crate::task::{clone_waker, wake, wake_by_ref, Poll};
use std::task::Waker;
use vstd::prelude::*;

verus! {

/// Tracks how a receive attempt had interacted with the channel.
#[derive(Debug, PartialEq, Eq, Structural, Clone, Copy)]
pub enum RecvPollState {
    /// The attempt is not waiting at the channel (anymore).
    Unregistered,
    /// The attempt waits in the queue of receivers.
    Registered,
    /// The attempt was taken out of the queue, because a value arrived.
    Notified,
}

/// Tracks how a send attempt had interacted with the channel.
#[derive(Debug, PartialEq, Eq, Structural, Clone, Copy)]
pub enum SendPollState {
    /// The attempt is not waiting at the channel (anymore).
    Unregistered,
    /// The attempt waits in the queue of senders, with its value.
    Registered,
    /// The value of the attempt was taken by the channel.
    SendComplete,
}

/// The handle of a receive attempt, owned by the receiving task.
#[derive(Debug)]
pub struct RecvWaitNode {
    /// Identifies the attempt; distinct from the ids of all other receive
    /// attempts registered at the same channel.
    pub id: u64,
    /// Whether the channel keeps a record of the attempt.
    pub registered: bool,
}

/// The handle of a send attempt, owned by the sending task.
#[derive(Debug)]
pub struct SendWaitNode<T> {
    /// Identifies the attempt; distinct from the ids of all other send
    /// attempts registered at the same channel.
    pub id: u64,
    /// Whether the channel keeps a record of the attempt.
    pub registered: bool,
    /// The value to send, while the task still holds it.
    pub value: Option<T>,
}

impl RecvWaitNode {
    /// Creates a new receive attempt.
    pub fn new(id: u64) -> (node: RecvWaitNode)
        ensures
            node.id == id,
            !node.registered,
    {
        RecvWaitNode { id, registered: false }
    }
}

impl<T> SendWaitNode<T> {
    /// Creates a new attempt to send `value`.
    pub fn new(id: u64, value: T) -> (node: SendWaitNode<T>)
        ensures
            node.id == id,
            !node.registered,
            node.value == Some(value),
    {
        SendWaitNode { id, registered: false, value: Some(value) }
    }
}

/// A receive attempt as the channel records it.
struct RecvEntry {
    id: u64,
    state: RecvPollState,
    task: Option<Waker>,
}

/// A send attempt as the channel records it.
struct SendEntry<T> {
    id: u64,
    state: SendPollState,
    value: Option<T>,
    task: Option<Waker>,
}

/// The abstract view of a recorded receive attempt.
pub struct RecvWaiterView {
    pub id: u64,
    pub state: RecvPollState,
}

/// The abstract view of a recorded send attempt.
pub struct SendWaiterView<T> {
    pub id: u64,
    pub state: SendPollState,
    pub value: Option<T>,
}

/// The abstract state of a channel.
///
/// `receivers` and `senders` list the recorded attempts, oldest first; the
/// `Registered` ones form the wait queues. A record stays until its task
/// comes back to the channel.
#[verifier::ext_equal]
pub struct ChannelView<T> {
    pub is_closed: bool,
    /// The buffered values, oldest first.
    pub items: Seq<T>,
    /// The capacity of the buffer.
    pub cap: nat,
    pub receivers: Seq<RecvWaiterView>,
    pub senders: Seq<SendWaiterView<T>>,
    /// The id that the next send or receive attempt gets.
    pub next_id: nat,
}

/// The values of the waiting senders, oldest first.
pub open spec fn queued_values<T>(ss: Seq<SendWaiterView<T>>) -> Seq<T>
    decreases ss.len(),
{
    if ss.len() == 0 {
        Seq::empty()
    } else {
        (if ss[0].state == SendPollState::Registered {
            seq![ss[0].value->Some_0]
        } else {
            Seq::empty()
        }) + queued_values(ss.drop_first())
    }
}

impl<T> ChannelView<T> {
    /// All values that receivers will get, in the order they will get them:
    /// the buffered ones, then those of the waiting senders.
    pub open spec fn pending(self) -> Seq<T> {
        self.items + queued_values(self.senders)
    }

    /// Whether a receive attempt with the given id is recorded.
    pub open spec fn has_receiver(self, id: u64) -> bool {
        exists|i: int| 0 <= i < self.receivers.len() && self.receivers[i].id == id
    }

    /// The position of the recorded receive attempt with the given id.
    pub open spec fn receiver_pos(self, id: u64) -> int {
        choose|i: int| 0 <= i < self.receivers.len() && self.receivers[i].id == id
    }

    /// Whether a send attempt with the given id is recorded.
    pub open spec fn has_sender(self, id: u64) -> bool {
        exists|i: int| 0 <= i < self.senders.len() && self.senders[i].id == id
    }

    /// The position of the recorded send attempt with the given id.
    pub open spec fn sender_pos(self, id: u64) -> int {
        choose|i: int| 0 <= i < self.senders.len() && self.senders[i].id == id
    }

    /// Whether some sender waits.
    pub open spec fn has_waiting_sender(self) -> bool {
        exists|i: int| 0 <= i < self.senders.len() && self.senders[i].state == SendPollState::Registered
    }

    /// Whether the receive attempt at position `i` is the oldest waiting one.
    pub open spec fn first_receiver(self, i: int) -> bool {
        &&& self.receivers[i].state == RecvPollState::Registered
        &&& forall|j: int| 0 <= j < i ==> self.receivers[j].state != RecvPollState::Registered
    }

    /// Whether the send attempt at position `i` is the oldest waiting one.
    pub open spec fn first_sender(self, i: int) -> bool {
        &&& self.senders[i].state == SendPollState::Registered
        &&& forall|j: int| 0 <= j < i ==> self.senders[j].state != SendPollState::Registered
    }

    /// The view after the oldest waiting receiver (if any) was notified.
    pub open spec fn after_receiver_wakeup(self) -> ChannelView<T> {
        ChannelView {
            receivers: Seq::new(
                self.receivers.len(),
                |i: int|
                    if self.first_receiver(i) {
                        RecvWaiterView { id: self.receivers[i].id, state: RecvPollState::Notified }
                    } else {
                        self.receivers[i]
                    },
            ),
            ..self
        }
    }

    /// The view after the oldest waiting sender at position `i` handed its
    /// value over, to the end of the buffer if `to_buffer`.
    pub open spec fn complete_sender(self, i: int, to_buffer: bool) -> ChannelView<T> {
        ChannelView {
            items: if to_buffer {
                self.items.push(self.senders[i].value->Some_0)
            } else {
                self.items
            },
            senders: self.senders.update(
                i,
                SendWaiterView {
                    id: self.senders[i].id,
                    state: SendPollState::SendComplete,
                    value: None,
                },
            ),
            ..self
        }
    }

    /// The view after the oldest waiting sender (if any) moved its value to
    /// the end of the buffer.
    pub open spec fn after_sender_handover(self) -> ChannelView<T> {
        if self.has_waiting_sender() {
            let i = choose|i: int| 0 <= i < self.senders.len() && self.first_sender(i);
            self.complete_sender(i, true)
        } else {
            self
        }
    }

    /// The view with the receive record at position `i` dropped.
    pub open spec fn drop_receiver(self, i: int) -> ChannelView<T> {
        ChannelView { receivers: self.receivers.remove(i), ..self }
    }

    /// The view with the send record at position `i` dropped.
    pub open spec fn drop_sender(self, i: int) -> ChannelView<T> {
        ChannelView { senders: self.senders.remove(i), ..self }
    }

    /// The view after the channel was closed: every waiting attempt leaves
    /// its queue, senders keeping their values.
    pub open spec fn after_close(self) -> ChannelView<T> {
        ChannelView {
            is_closed: true,
            receivers: Seq::new(
                self.receivers.len(),
                |i: int|
                    if self.receivers[i].state == RecvPollState::Registered {
                        RecvWaiterView { id: self.receivers[i].id, state: RecvPollState::Unregistered }
                    } else {
                        self.receivers[i]
                    },
            ),
            senders: Seq::new(
                self.senders.len(),
                |i: int|
                    if self.senders[i].state == SendPollState::Registered {
                        SendWaiterView {
                            id: self.senders[i].id,
                            state: SendPollState::Unregistered,
                            value: self.senders[i].value,
                        }
                    } else {
                        self.senders[i]
                    },
            ),
            ..self
        }
    }

    /// The channel invariant: besides `inv_core`, senders only wait while
    /// the buffer is full.
    pub open spec fn inv(self) -> bool {
        &&& self.inv_core()
        &&& self.has_waiting_sender() ==> self.items.len() >= self.cap
    }

    /// Whether a value of a waiting sender fits into the buffer once a
    /// buffered value was taken out. It fails only when senders wait while
    /// the buffer holds more values than its capacity, which a channel can
    /// only reach when it was created around such a buffer.
    pub open spec fn room_for_waiting_value(self) -> bool {
        self.has_waiting_sender() ==> self.items.len() <= self.cap
    }

    /// Ids are distinct; a send
    /// record holds its value until the value was taken; senders only wait,
    /// and only get unregistered, while the channel is open resp. once it is
    /// closed; a closed channel has no waiting receivers.
    pub open spec fn inv_core(self) -> bool {
        &&& forall|i: int| 0 <= i < self.receivers.len() ==> (#[trigger] self.receivers[i]).id < self.next_id
        &&& forall|i: int| 0 <= i < self.senders.len() ==> (#[trigger] self.senders[i]).id < self.next_id
        &&& forall|i: int, j: int|
            0 <= i < j < self.receivers.len() ==> self.receivers[i].id != self.receivers[j].id
        &&& forall|i: int, j: int|
            0 <= i < j < self.senders.len() ==> self.senders[i].id != self.senders[j].id
        &&& forall|i: int|
            0 <= i < self.senders.len() ==> ((#[trigger] self.senders[i]).value is Some <==> self.senders[i].state
                != SendPollState::SendComplete)
        &&& self.has_waiting_sender() ==> !self.is_closed
        &&& forall|i: int|
            0 <= i < self.senders.len() && (#[trigger] self.senders[i]).state
                == SendPollState::Unregistered ==> self.is_closed
        &&& self.is_closed ==> forall|i: int|
            0 <= i < self.receivers.len() ==> (#[trigger] self.receivers[i]).state
                != RecvPollState::Registered
    }
}

/// Internal state of the channel
#[verifier::reject_recursive_types(T)]
pub struct ChannelState<T, A> where A: RingBuf<Item = T> {
    /// Whether the channel had been closed
    is_closed: bool,
    /// The values which are stored inside the channel
    buffer: A,
    /// Recorded receive attempts, oldest first
    receive_waiters: Vec<RecvEntry>,
    /// Recorded send attempts, oldest first
    send_waiters: Vec<SendEntry<T>>,
    /// The id that the next send or receive attempt gets.
    next_id: u64,
}

impl RecvEntry {
    spec fn view(self) -> RecvWaiterView {
        RecvWaiterView { id: self.id, state: self.state }
    }

    /// Moves the attempt to the given state and wakes its task.
    fn wake_with(&mut self, state: RecvPollState)
        ensures
            final(self).id == old(self).id,
            final(self).state == state,
            final(self).task is None,
    {
        self.state = state;
        if let Some(handle) = self.task.take() {
            wake(handle);
        }
    }
}

impl<T> SendEntry<T> {
    spec fn view(self) -> SendWaiterView<T> {
        SendWaiterView { id: self.id, state: self.state, value: self.value }
    }

    /// Moves the attempt to the given state and wakes its task.
    fn wake_with(&mut self, state: SendPollState)
        ensures
            final(self).id == old(self).id,
            final(self).value == old(self).value,
            final(self).state == state,
            final(self).task is None,
    {
        self.state = state;
        if let Some(handle) = self.task.take() {
            wake(handle);
        }
    }
}

impl<T, A> View for ChannelState<T, A> where A: RingBuf<Item = T> {
    type V = ChannelView<T>;

    closed spec fn view(&self) -> ChannelView<T> {
        ChannelView {
            is_closed: self.is_closed,
            items: self.buffer.items(),
            cap: self.buffer.cap(),
            receivers: self.receive_waiters@.map_values(|e: RecvEntry| e.view()),
            senders: self.send_waiters@.map_values(|e: SendEntry<T>| e.view()),
            next_id: self.next_id as nat,
        }
    }
}

impl<T, A> ChannelState<T, A> where A: RingBuf<Item = T> {
    /// Well-formedness: the buffer is well-formed and the channel
    /// invariant holds.
    pub closed spec fn wf(&self) -> bool {
        &&& self.buffer.wf()
        &&& self@.inv()
        &&& self.wakers_kept()
    }

    /// A waiting receive attempt holds the waker of its task, and only a
    /// waiting one: notifying it or closing the channel takes the waker to
    /// wake the task. A waiting send attempt holds the waker of its task; one
    /// that was unregistered by closing the channel no longer does.
    closed spec fn wakers_kept(&self) -> bool {
        &&& forall|i: int|
            0 <= i < self.receive_waiters@.len() ==> ((#[trigger] self.receive_waiters@[i]).task is Some
                <==> self.receive_waiters@[i].state == RecvPollState::Registered)
        &&& forall|i: int|
            0 <= i < self.send_waiters@.len() ==> ((#[trigger] self.send_waiters@[i]).state
                == SendPollState::Registered ==> self.send_waiters@[i].task is Some) && (
            self.send_waiters@[i].state == SendPollState::Unregistered ==> self.send_waiters@[i].task is None)
    }

    /// Whether the receive attempt recorded at position `i` holds a waker of
    /// its task.
    pub closed spec fn receiver_holds_waker(&self, i: int) -> bool {
        self.receive_waiters@[i].task is Some
    }

    /// Whether the send attempt recorded at position `i` holds a waker of
    /// its task.
    pub closed spec fn sender_holds_waker(&self, i: int) -> bool {
        self.send_waiters@[i].task is Some
    }

    /// Creates the state of an open channel around the given buffer, whose
    /// values are the first ones that receivers get.
    pub fn new(buffer: A) -> (state: Self)
        requires
            buffer.wf(),
        ensures
            state.wf(),
            state@ == (ChannelView::<T> {
                is_closed: false,
                items: buffer.items(),
                cap: buffer.cap(),
                receivers: Seq::empty(),
                senders: Seq::empty(),
                next_id: 0,
            }),
    {
        let state = ChannelState {
            is_closed: false,
            buffer,
            receive_waiters: Vec::new(),
            send_waiters: Vec::new(),
            next_id: 0,
        };
        assert(state@.receivers =~= Seq::<RecvWaiterView>::empty());
        assert(state@.senders =~= Seq::<SendWaiterView<T>>::empty());
        state
    }
}


impl<T, A> ChannelState<T, A> where A: RingBuf<Item = T> {
    /// Finds the position of the receive record with the given id.
    fn receiver_position(&self, id: u64) -> (i: usize)
        requires
            self.wf(),
            self@.has_receiver(id),
        ensures
            i == self@.receiver_pos(id),
            i < self@.receivers.len(),
    {
        let ghost v = self@;
        let mut i: usize = 0;
        while i < self.receive_waiters.len()
            invariant
                v == self@,
                v.has_receiver(id),
                v.inv(),
                i <= self.receive_waiters@.len(),
                forall|j: int| 0 <= j < i ==> self.receive_waiters@[j].id != id,
            decreases self.receive_waiters@.len() - i,
        {
            if self.receive_waiters[i].id == id {
                assert(v.receivers[i as int].id == id);
                assert(v.receivers[v.receiver_pos(id)].id == id);
                return i;
            }
            i = i + 1;
        }
        assert(v.receivers[v.receiver_pos(id)].id == id);
        0
    }

    /// Finds the position of the send record with the given id.
    fn sender_position(&self, id: u64) -> (i: usize)
        requires
            self.wf(),
            self@.has_sender(id),
        ensures
            i == self@.sender_pos(id),
            i < self@.senders.len(),
    {
        let ghost v = self@;
        let mut i: usize = 0;
        while i < self.send_waiters.len()
            invariant
                v == self@,
                v.has_sender(id),
                v.inv(),
                i <= self.send_waiters@.len(),
                forall|j: int| 0 <= j < i ==> self.send_waiters@[j].id != id,
            decreases self.send_waiters@.len() - i,
        {
            if self.send_waiters[i].id == id {
                assert(v.senders[i as int].id == id);
                assert(v.senders[v.sender_pos(id)].id == id);
                return i;
            }
            i = i + 1;
        }
        assert(v.senders[v.sender_pos(id)].id == id);
        0
    }

    /// Wakes up the oldest waiting receiver and removes it from the wait
    /// queue.
    fn wakeup_last_receive_waiter(&mut self)
        requires
            old(self).wf(),
        ensures
            final(self).wf(),
            final(self)@ == old(self)@.after_receiver_wakeup(),
    {
        let ghost o = self@;
        let len = self.receive_waiters.len();
        let mut i: usize = 0;
        while i < len
            invariant
                self@ == o,
                o == old(self)@,
                self.wf(),
                len == self.receive_waiters@.len(),
                i <= len,
                forall|j: int| 0 <= j < i ==> o.receivers[j].state != RecvPollState::Registered,
            decreases len - i,
        {
            if self.receive_waiters[i].state == RecvPollState::Registered {
                let ghost before = self.receive_waiters@;
                assert(o.first_receiver(i as int));
                self.receive_waiters[i].wake_with(RecvPollState::Notified);
                assert forall|j: int| 0 <= j < len implies self@.receivers[j]
                    == o.after_receiver_wakeup().receivers[j] by {
                    if j != i {
                        assert(self.receive_waiters@[j] == before[j]);
                        if j > i {
                            assert(!o.first_receiver(j));
                        }
                    }
                }
                assert(self@ =~= o.after_receiver_wakeup());
                return;
            }
            i = i + 1;
        }
        assert(self@ =~= o.after_receiver_wakeup());
    }

    /// Closes the channel.
    ///
    /// All waiting attempts leave their queues and are woken up, since they
    /// are now guaranteed to make progress: senders get their values back,
    /// receivers take the buffered values or learn that the channel is closed.
    pub fn close(&mut self)
        requires
            old(self).wf(),
        ensures
            final(self).wf(),
            final(self)@ == if old(self)@.is_closed {
                old(self)@
            } else {
                old(self)@.after_close()
            },
            final(self)@.pending() == old(self)@.items,
    {
        if self.is_closed {
            proof {
                lemma_queued_values_empty(self@.senders);
            }
            assert(self@.items + queued_values(self@.senders) =~= self@.items);
            return;
        }
        let ghost o = self@;
        self.is_closed = true;
        // Wakeup all send and receive waiters, oldest first, since they are now
        // guaranteed to make progress.
        let rlen = self.receive_waiters.len();
        let mut i: usize = 0;
        while i < rlen
            invariant
                rlen == self.receive_waiters@.len(),
                rlen == o.receivers.len(),
                i <= rlen,
                self.buffer == old(self).buffer,
                self.send_waiters == old(self).send_waiters,
                self.next_id == old(self).next_id,
                self.is_closed,
                self.wakers_kept(),
                forall|j: int|
                    0 <= j < rlen ==> (#[trigger] self@.receivers[j]) == if j < i {
                        o.after_close().receivers[j]
                    } else {
                        o.receivers[j]
                    },
            decreases rlen - i,
        {
            let ghost before = self.receive_waiters@;
            let ghost pre = self@;
            assert(pre.receivers[i as int] == o.receivers[i as int]);
            if self.receive_waiters[i].state == RecvPollState::Registered {
                self.receive_waiters[i].wake_with(RecvPollState::Unregistered);
            }
            assert forall|j: int| 0 <= j < rlen && j != i implies self.receive_waiters@[j]
                == before[j] by {}
            assert(self@.receivers[i as int] == o.after_close().receivers[i as int]);
            assert forall|j: int| 0 <= j < rlen implies (#[trigger] self@.receivers[j]) == if j
                < i + 1 {
                o.after_close().receivers[j]
            } else {
                o.receivers[j]
            } by {
                if j != i {
                    assert(self@.receivers[j] == pre.receivers[j]);
                }
            }
            i = i + 1;
        }
        let slen = self.send_waiters.len();
        let mut k: usize = 0;
        while k < slen
            invariant
                slen == self.send_waiters@.len(),
                slen == o.senders.len(),
                k <= slen,
                self.buffer == old(self).buffer,
                self.next_id == old(self).next_id,
                self.is_closed,
                self@.receivers =~= o.after_close().receivers,
                self.wakers_kept(),
                forall|j: int|
                    0 <= j < slen ==> (#[trigger] self@.senders[j]) == if j < k {
                        o.after_close().senders[j]
                    } else {
                        o.senders[j]
                    },
            decreases slen - k,
        {
            let ghost before = self.send_waiters@;
            let ghost pre = self@;
            assert(pre.senders[k as int] == o.senders[k as int]);
            if self.send_waiters[k].state == SendPollState::Registered {
                self.send_waiters[k].wake_with(SendPollState::Unregistered);
            }
            assert forall|j: int| 0 <= j < slen && j != k implies self.send_waiters@[j]
                == before[j] by {}
            assert(self@.senders[k as int] == o.after_close().senders[k as int]);
            assert forall|j: int| 0 <= j < slen implies (#[trigger] self@.senders[j]) == if j < k
                + 1 {
                o.after_close().senders[j]
            } else {
                o.senders[j]
            } by {
                if j != k {
                    assert(self@.senders[j] == pre.senders[j]);
                }
            }
            k = k + 1;
        }
        assert(self@ =~= o.after_close());
        proof {
            let n = self@;
            lemma_queued_values_empty(n.senders);
            assert forall|j: int| 0 <= j < n.senders.len() implies (
            #[trigger] n.senders[j]).state != SendPollState::Registered by {}
            assert(n.pending() =~= n.items);
            assert(!n.has_waiting_sender());
            assert forall|a: int, b: int| 0 <= a < b < n.senders.len() implies n.senders[a].id
                != n.senders[b].id by {
                assert(n.senders[a].id == o.senders[a].id);
                assert(n.senders[b].id == o.senders[b].id);
            }
            assert forall|a: int, b: int| 0 <= a < b < n.receivers.len() implies n.receivers[a].id
                != n.receivers[b].id by {
                assert(n.receivers[a].id == o.receivers[a].id);
                assert(n.receivers[b].id == o.receivers[b].id);
            }
            assert forall|j: int| 0 <= j < n.senders.len() implies ((#[trigger] n.senders[j]).value is Some
                <==> n.senders[j].state != SendPollState::SendComplete) by {
                assert(o.senders[j].value is Some <==> o.senders[j].state
                    != SendPollState::SendComplete);
            }
        }
    }
}

impl<T, A> ChannelState<T, A> where A: RingBuf<Item = T> {
    /// Finds the oldest waiting sender.
    fn first_waiting_sender(&self) -> (first: Option<usize>)
        requires
            self@.inv_core(),
        ensures
            match first {
                Some(i) => i < self@.senders.len() && self@.first_sender(i as int),
                None => !self@.has_waiting_sender(),
            },
    {
        let mut i: usize = 0;
        while i < self.send_waiters.len()
            invariant
                i <= self.send_waiters@.len(),
                forall|j: int|
                    0 <= j < i ==> self@.senders[j].state != SendPollState::Registered,
            decreases self.send_waiters@.len() - i,
        {
            if self.send_waiters[i].state == SendPollState::Registered {
                return Some(i);
            }
            i = i + 1;
        }
        None
    }

    /// Takes the value of the oldest waiting sender at position `i` and
    /// completes its attempt.
    fn complete_sender_at(&mut self, i: usize) -> (value: T)
        requires
            old(self)@.inv_core(),
            old(self).wakers_kept(),
            i < old(self)@.senders.len(),
            old(self)@.first_sender(i as int),
        ensures
            final(self).wakers_kept(),
            final(self).buffer == old(self).buffer,
            final(self).is_closed == old(self).is_closed,
            final(self)@ == old(self)@.complete_sender(i as int, false),
            value == old(self)@.senders[i as int].value->Some_0,
            queued_values(final(self)@.senders) == queued_values(old(self)@.senders).drop_first(),
            queued_values(old(self)@.senders).len() > 0,
            queued_values(old(self)@.senders)[0] == value,
            final(self)@.inv_core(),
    {
        let ghost o = self@;
        let ghost before = self.send_waiters@;
        let value = self.send_waiters[i].value.take();
        self.send_waiters[i].state = SendPollState::SendComplete;
        if let Some(handle) = &self.send_waiters[i].task {
            wake_by_ref(handle);
        }
        assert forall|j: int| 0 <= j < before.len() && j != i implies self.send_waiters@[j]
            == before[j] by {}
        assert(self@ =~= o.complete_sender(i as int, false));
        proof {
            let w = SendWaiterView {
                id: o.senders[i as int].id,
                state: SendPollState::SendComplete,
                value: None,
            };
            lemma_queued_values_first(o.senders, i as int, w);
            let n = self@;
            assert forall|a: int, b: int| 0 <= a < b < n.senders.len() implies n.senders[a].id
                != n.senders[b].id by {
                assert(n.senders[a].id == o.senders[a].id);
                assert(n.senders[b].id == o.senders[b].id);
            }
            assert forall|j: int|
                0 <= j < n.senders.len() && (#[trigger] n.senders[j]).state
                    == SendPollState::Unregistered implies n.is_closed by {
                assert(n.senders[j] == o.senders[j]);
            }
            assert forall|j: int| 0 <= j < n.senders.len() implies ((#[trigger] n.senders[j]).value is Some
                <==> n.senders[j].state != SendPollState::SendComplete) by {
                if j != i {
                    assert(n.senders[j] == o.senders[j]);
                }
            }
            if n.has_waiting_sender() {
                let k = choose|k: int|
                    0 <= k < n.senders.len() && n.senders[k].state == SendPollState::Registered;
                assert(o.senders[k].state == SendPollState::Registered);
            }
        }
        value.unwrap()
    }

    /// If there is a send waiter, copy its value into the channel buffer and
    /// complete it. There must be space for the value in the buffer.
    fn try_copy_value_from_last_waiter(&mut self)
        requires
            old(self).buffer.wf(),
            old(self)@.inv_core(),
            old(self).wakers_kept(),
            old(self)@.has_waiting_sender() ==> old(self)@.items.len() < old(self)@.cap,
        ensures
            final(self).wakers_kept(),
            final(self).buffer.wf(),
            final(self)@.inv_core(),
            final(self)@ == old(self)@.after_sender_handover(),
            final(self)@.pending() == old(self)@.pending(),
    {
        let ghost o = self@;
        match self.first_waiting_sender() {
            Some(i) => {
                let value = self.complete_sender_at(i);
                self.buffer.push(value);
                proof {
                    let c = choose|c: int| 0 <= c < o.senders.len() && o.first_sender(c);
                    assert(o.first_sender(i as int));
                    if c != i {
                        if c < i {
                            assert(o.senders[c].state != SendPollState::Registered);
                        } else {
                            assert(o.senders[i as int].state != SendPollState::Registered);
                        }
                    }
                    assert(self@ =~= o.complete_sender(i as int, true));
                    assert(self@.pending() =~= o.pending());
                }
            },
            None => {
                assert(self@ =~= o.after_sender_handover());
            },
        }
    }

    /// Tries to send the value of `node` to the channel (see `send_step`).
    ///
    /// If the value can not be buffered yet, the attempt gets added to the
    /// wait queue at the channel, and will be signalled once ready. If the
    /// channel is already closed, the value to send is returned.
    pub fn try_send(&mut self, node: &mut SendWaitNode<T>, waker: &Waker) -> (res: (
        Poll<()>,
        Option<T>,
    ))
        requires
            old(self).wf(),
            old(node).registered == old(self)@.has_sender(old(node).id),
            old(node).id < old(self)@.next_id,
            !old(node).registered ==> old(node).value is Some,
        ensures
            final(self).wf(),
            final(node).registered == final(self)@.has_sender(final(node).id),
            final(self)@ == send_step(old(self)@, *old(node)).0,
            *final(node) == send_step(old(self)@, *old(node)).1,
            res.0 == send_step(old(self)@, *old(node)).2,
            res.1 == send_step(old(self)@, *old(node)).3,
            // A new attempt on an open channel queues its value behind all
            // pending ones; on a closed channel it gets its value back.
            !old(node).registered && !old(self)@.is_closed ==> final(self)@.pending() == old(
                self,
            )@.pending().push(old(node).value->Some_0),
            !old(node).registered && old(self)@.is_closed ==> res.1 == old(node).value
                && final(self)@.pending() == old(self)@.pending(),
    {
        let ghost o = self@;
        let ghost n0 = *node;
        if !node.registered {
            if self.is_closed {
                let value = node.value.take();
                return (Poll::Ready(()), value);
            }
            if !self.buffer.can_push() {
                // If the capacity is exhausted, register a waiter
                let ghost w = SendWaiterView {
                    id: node.id,
                    state: SendPollState::Registered,
                    value: node.value,
                };
                let entry = SendEntry {
                    id: node.id,
                    state: SendPollState::Registered,
                    value: node.value.take(),
                    task: Some(clone_waker(waker)),
                };
                self.send_waiters.push(entry);
                node.registered = true;
                proof {
                    assert(self@.senders =~= o.senders.push(w));
                    lemma_queued_values_push(o.senders, w);
                    let n = self@;
                    assert(n.senders[o.senders.len() as int].id == node.id);
                    assert forall|a: int| 0 <= a < n.senders.len() implies (#[trigger] n.senders[a]).id
                        < n.next_id by {
                        if a < o.senders.len() {
                            assert(n.senders[a] == o.senders[a]);
                        }
                    }
                    assert forall|a: int, b: int| 0 <= a < b < n.senders.len() implies n.senders[a].id
                        != n.senders[b].id by {
                        assert(n.senders[a] == o.senders[a]);
                        if b < o.senders.len() {
                            assert(n.senders[b] == o.senders[b]);
                        }
                    }
                    assert forall|j: int|
                        0 <= j < n.senders.len() && (#[trigger] n.senders[j]).state
                            == SendPollState::Unregistered implies n.is_closed by {
                        assert(n.senders[j] == o.senders[j]);
                    }
                    assert(n.pending() =~= o.pending().push(n0.value->Some_0));
                }
                // Wakeup the oldest receive waiter
                self.wakeup_last_receive_waiter();
                proof {
                    assert(self@.has_sender(node.id)) by {
                        assert(self@.senders[o.senders.len() as int].id == node.id);
                    }
                }
                (Poll::Pending, None)
            } else {
                // Otherwise copy the value directly into the channel
                let value = node.value.take().unwrap();
                self.buffer.push(value);
                proof {
                    assert(self@ =~= ChannelView { items: o.items.push(value), ..o });
                    assert(!o.has_waiting_sender());
                    lemma_queued_values_empty(o.senders);
                    assert(queued_values(o.senders) =~= Seq::<T>::empty());
                    assert(self@.pending() =~= o.pending().push(value));
                }
                // Wakeup the oldest receive waiter
                self.wakeup_last_receive_waiter();
                (Poll::Ready(()), None)
            }
        } else {
            let i = self.sender_position(node.id);
            if self.send_waiters[i].state == SendPollState::Registered {
                // The value still waits for space in the channel.
                (Poll::Pending, None)
            } else {
                // The transfer is complete, or the channel was closed before it could happen.
                let entry = self.send_waiters.remove(i);
                node.registered = false;
                proof {
                    assert(self@ =~= o.drop_sender(i as int));
                    lemma_queued_values_remove_idle(o.senders, i as int);
                    let n = self@;
                    assert forall|j: int| 0 <= j < n.senders.len() implies n.senders[j]
                        == o.senders[if j < i {
                        j
                    } else {
                        j + 1
                    }] by {}
                    assert(!n.has_sender(node.id)) by {
                        if n.has_sender(node.id) {
                            let k = choose|k: int| 0 <= k < n.senders.len() && n.senders[k].id == node.id;
                            assert(n.senders[k] == o.senders[if k < i {
                                k
                            } else {
                                k + 1
                            }]);
                        }
                    }
                    if n.has_waiting_sender() {
                        let k = choose|k: int|
                            0 <= k < n.senders.len() && n.senders[k].state
                                == SendPollState::Registered;
                        assert(n.senders[k] == o.senders[if k < i {
                            k
                        } else {
                            k + 1
                        }]);
                    }
                }
                (Poll::Ready(()), entry.value)
            }
        }
    }
}

impl<T, A> ChannelState<T, A> where A: RingBuf<Item = T> {
    /// Drops the receive record at position `i`, which does not wait.
    fn forget_receiver(&mut self, i: usize)
        requires
            old(self).wf(),
            i < old(self)@.receivers.len(),
            old(self)@.receivers[i as int].state != RecvPollState::Registered || !old(self)@.is_closed,
        ensures
            final(self).wf(),
            final(self)@ == old(self)@.drop_receiver(i as int),
            !final(self)@.has_receiver(old(self)@.receivers[i as int].id),
    {
        let ghost o = self@;
        let _entry = self.receive_waiters.remove(i);
        proof {
            assert(self@ =~= o.drop_receiver(i as int));
            let n = self@;
            assert forall|j: int| 0 <= j < n.receivers.len() implies n.receivers[j]
                == o.receivers[if j < i {
                j
            } else {
                j + 1
            }] by {}
            let id = o.receivers[i as int].id;
            if n.has_receiver(id) {
                let k = choose|k: int| 0 <= k < n.receivers.len() && n.receivers[k].id == id;
                assert(n.receivers[k] == o.receivers[if k < i {
                    k
                } else {
                    k + 1
                }]);
            }
        }
    }

    /// Adds the receive attempt `node` to the queue of receivers.
    fn register_receiver(&mut self, node: &mut RecvWaitNode, waker: &Waker)
        requires
            old(self).wf(),
            !old(self)@.is_closed,
            !old(node).registered,
            !old(self)@.has_receiver(old(node).id),
            old(node).id < old(self)@.next_id,
        ensures
            final(self).wf(),
            final(self)@ == (ChannelView {
                receivers: old(self)@.receivers.push(
                    RecvWaiterView { id: old(node).id, state: RecvPollState::Registered },
                ),
                ..old(self)@
            }),
            *final(node) == (RecvWaitNode { registered: true, ..*old(node) }),
            final(self)@.has_receiver(old(node).id),
    {
        let ghost v1 = self@;
        let ghost w = RecvWaiterView { id: node.id, state: RecvPollState::Registered };
        self.receive_waiters.push(
            RecvEntry { id: node.id, state: RecvPollState::Registered, task: Some(clone_waker(waker)) },
        );
        node.registered = true;
        proof {
            let n = self@;
            assert(n.receivers =~= v1.receivers.push(w));
            assert(n.receivers[v1.receivers.len() as int].id == node.id);
            assert forall|a: int| 0 <= a < n.receivers.len() implies (
            #[trigger] n.receivers[a]).id < n.next_id by {
                if a < v1.receivers.len() {
                    assert(n.receivers[a] == v1.receivers[a]);
                }
            }
            assert forall|a: int, b: int| 0 <= a < b < n.receivers.len() implies n.receivers[a].id
                != n.receivers[b].id by {
                assert(n.receivers[a] == v1.receivers[a]);
                if b < v1.receivers.len() {
                    assert(n.receivers[b] == v1.receivers[b]);
                }
            }
            assert forall|a: int|
                0 <= a < n.receivers.len() implies (#[trigger] n.receivers[a]).state
                    != RecvPollState::Registered || !n.is_closed by {}
        }
    }

    /// Takes the first pending value, if there is one: the oldest buffered
    /// value (after which the oldest waiting sender moves its value into the
    /// buffer), or else the value of the oldest waiting sender.
    fn take_pending(&mut self) -> (res: Option<T>)
        requires
            old(self).wf(),
            old(self)@.room_for_waiting_value(),
        ensures
            final(self).wf(),
            old(self)@.items.len() > 0 ==> res == Some(old(self)@.items[0]) && final(self)@ == (
            ChannelView { items: old(self)@.items.drop_first(), ..old(self)@ }).after_sender_handover(),
            old(self)@.items.len() == 0 && old(self)@.has_waiting_sender() ==> ({
                let i = choose|i: int| 0 <= i < old(self)@.senders.len() && old(self)@.first_sender(i);
                &&& res == Some(old(self)@.senders[i].value->Some_0)
                &&& final(self)@ == old(self)@.complete_sender(i, false)
            }),
            old(self)@.items.len() == 0 && !old(self)@.has_waiting_sender() ==> res is None
                && final(self)@ == old(self)@,
            res matches Some(x) ==> old(self)@.pending().len() > 0 && x == old(self)@.pending()[0]
                && final(self)@.pending() == old(self)@.pending().drop_first(),
            res is None ==> old(self)@.pending().len() == 0,
    {
        let ghost v1 = self@;
        if !self.buffer.is_empty() {
            // A value is available - grab it.
            let val = self.buffer.pop();
            let ghost v2 = self@;
            assert(v2 =~= ChannelView { items: v1.items.drop_first(), ..v1 });
            // Since this means a space in the buffer had been freed,
            // try to copy a value from a potential waiter into the channel.
            self.try_copy_value_from_last_waiter();
            assert(v2.pending() =~= v1.pending().drop_first());
            Some(val)
        } else {
            match self.first_waiting_sender() {
                Some(i) => {
                    // This path is only taken by channels without capacity: the
                    // value is taken directly from the oldest waiting sender.
                    let val = self.complete_sender_at(i);
                    proof {
                        let c = choose|c: int| 0 <= c < v1.senders.len() && v1.first_sender(c);
                        if c != i {
                            if c < i {
                                assert(v1.senders[c].state != SendPollState::Registered);
                            } else {
                                assert(v1.senders[i as int].state != SendPollState::Registered);
                            }
                        }
                        assert(v1.items.len() == 0);
                        assert(self@.pending() =~= v1.pending().drop_first());
                        assert(v1.pending() =~= queued_values(v1.senders));
                    }
                    Some(val)
                },
                None => {
                    proof {
                        lemma_queued_values_empty(v1.senders);
                        assert(v1.pending() =~= Seq::<T>::empty());
                    }
                    None
                },
            }
        }
    }

    /// Tries to read a value from the channel (see `recv_step`).
    ///
    /// If no value is available yet, the attempt gets added to the wait queue
    /// at the channel, and will be signalled once ready.
    pub fn try_receive(&mut self, node: &mut RecvWaitNode, waker: &Waker) -> (res: Poll<
        Option<T>,
    >)
        requires
            old(self).wf(),
            old(node).registered == old(self)@.has_receiver(old(node).id),
            old(node).id < old(self)@.next_id,
            // Else the buffer could not take the value of the waiting sender
            // after a value was taken out.
            old(self)@.room_for_waiting_value(),
        ensures
            final(self).wf(),
            final(node).registered == final(self)@.has_receiver(final(node).id),
            final(self)@ == recv_step(old(self)@, *old(node)).0,
            *final(node) == recv_step(old(self)@, *old(node)).1,
            res == recv_step(old(self)@, *old(node)).2,
            // Values come out in the order in which they went in; `None`
            // only comes once the channel is closed and drained.
            res matches Poll::Ready(Some(x)) ==> old(self)@.pending().len() > 0 && x == old(
                self,
            )@.pending()[0] && final(self)@.pending() == old(self)@.pending().drop_first(),
            res == Poll::<Option<T>>::Ready(None) ==> old(self)@.pending().len() == 0 && old(
                self,
            )@.is_closed,
            res is Pending ==> final(self)@.pending() == old(self)@.pending(),
    {
        let ghost o = self@;
        if node.registered {
            let i = self.receiver_position(node.id);
            if self.receive_waiters[i].state == RecvPollState::Registered {
                // The channel notifies waiters when a value arrives, so there can't be
                // a value for this attempt yet.
                return Poll::Pending;
            }
            self.forget_receiver(i);
            node.registered = false;
        }
        let ghost v1 = self@;
        assert(v1.pending() =~= o.pending());
        match self.take_pending() {
            Some(val) => Poll::Ready(Some(val)),
            None => {
                if self.is_closed {
                    Poll::Ready(None)
                } else {
                    // Add the task to the wait queue
                    self.register_receiver(node, waker);
                    Poll::Pending
                }
            },
        }
    }

    /// Forgets the send attempt `node`, when its task gives up. A value
    /// that the attempt still keeps at the channel is dropped.
    pub fn remove_send_waiter(&mut self, node: &mut SendWaitNode<T>)
        requires
            old(self).wf(),
            old(node).registered == old(self)@.has_sender(old(node).id),
        ensures
            final(self).wf(),
            final(node).id == old(node).id,
            final(node).value == old(node).value,
            !final(node).registered,
            !final(self)@.has_sender(old(node).id),
            final(self)@ == if old(node).registered {
                old(self)@.drop_sender(old(self)@.sender_pos(old(node).id))
            } else {
                old(self)@
            },
            // A waiting sender takes its value back out of the queue.
            final(self)@.items == old(self)@.items,
    {
        if node.registered {
            let ghost o = self@;
            let i = self.sender_position(node.id);
            let _entry = self.send_waiters.remove(i);
            node.registered = false;
            proof {
                assert(self@ =~= o.drop_sender(i as int));
                let n = self@;
                assert forall|j: int| 0 <= j < n.senders.len() implies n.senders[j]
                    == o.senders[if j < i {
                    j
                } else {
                    j + 1
                }] by {}
                if n.has_sender(node.id) {
                    let k = choose|k: int| 0 <= k < n.senders.len() && n.senders[k].id == node.id;
                    assert(n.senders[k] == o.senders[if k < i {
                        k
                    } else {
                        k + 1
                    }]);
                }
                if n.has_waiting_sender() {
                    let k = choose|k: int|
                        0 <= k < n.senders.len() && n.senders[k].state == SendPollState::Registered;
                    assert(n.senders[k] == o.senders[if k < i {
                        k
                    } else {
                        k + 1
                    }]);
                }
            }
        }
    }

    /// Forgets the receive attempt `node`, when its task gives up. If the
    /// attempt had been notified of a value, the next waiting receiver is
    /// notified in its place.
    pub fn remove_receive_waiter(&mut self, node: &mut RecvWaitNode)
        requires
            old(self).wf(),
            old(node).registered == old(self)@.has_receiver(old(node).id),
        ensures
            final(self).wf(),
            final(node).id == old(node).id,
            !final(node).registered,
            !final(self)@.has_receiver(old(node).id),
            final(self)@ == if old(node).registered {
                let i = old(self)@.receiver_pos(old(node).id);
                if old(self)@.receivers[i].state == RecvPollState::Notified {
                    old(self)@.drop_receiver(i).after_receiver_wakeup()
                } else {
                    old(self)@.drop_receiver(i)
                }
            } else {
                old(self)@
            },
    {
        if node.registered {
            let i = self.receiver_position(node.id);
            let notified = self.receive_waiters[i].state == RecvPollState::Notified;
            self.forget_receiver(i);
            node.registered = false;
            if notified {
                // wakeup another receive waiter instead
                let ghost v = self@;
                self.wakeup_last_receive_waiter();
                proof {
                    if self@.has_receiver(node.id) {
                        let k = choose|k: int|
                            0 <= k < self@.receivers.len() && self@.receivers[k].id == node.id;
                        assert(self@.receivers[k].id == v.receivers[k].id);
                    }
                }
            }
        }
    }
}

impl<T, A> ChannelState<T, A> where A: RingBuf<Item = T> {
    /// Creates a new attempt to send `value`, with an id that no attempt at
    /// this channel had before.
    pub fn new_send_node(&mut self, value: T) -> (node: SendWaitNode<T>)
        requires
            old(self).wf(),
            old(self)@.next_id < u64::MAX,
        ensures
            final(self).wf(),
            final(self)@ == (ChannelView { next_id: old(self)@.next_id + 1, ..old(self)@ }),
            node.id == old(self)@.next_id,
            !node.registered,
            node.value == Some(value),
            !final(self)@.has_sender(node.id),
    {
        let id = self.next_id;
        self.next_id = self.next_id + 1;
        SendWaitNode::new(id, value)
    }

    /// Returns the id that the next attempt would get.
    pub fn next_id(&self) -> (id: u64)
        ensures
            id == self@.next_id,
    {
        self.next_id
    }

    /// Whether a value of a waiting sender fits into the buffer once a
    /// buffered value was taken out (see `ChannelView::room_for_waiting_value`).
    pub fn has_room_for_waiting_value(&self) -> (ok: bool)
        requires
            self.wf(),
        ensures
            ok == self@.room_for_waiting_value(),
    {
        match self.first_waiting_sender() {
            Some(_) => self.buffer.len() <= self.buffer.capacity(),
            None => true,
        }
    }

    /// Creates a new receive attempt, with an id that no attempt at this
    /// channel had before.
    pub fn new_recv_node(&mut self) -> (node: RecvWaitNode)
        requires
            old(self).wf(),
            old(self)@.next_id < u64::MAX,
        ensures
            final(self).wf(),
            final(self)@ == (ChannelView { next_id: old(self)@.next_id + 1, ..old(self)@ }),
            node.id == old(self)@.next_id,
            !node.registered,
            !final(self)@.has_receiver(node.id),
    {
        let id = self.next_id;
        self.next_id = self.next_id + 1;
        RecvWaitNode::new(id)
    }
}

/// The outcome of polling the send attempt `node` on a channel in state
/// `v`: the new state of the channel and of the attempt, whether the send
/// is complete, and the value handed back to the sender.
///
/// A new attempt on a closed channel gets its value back. Else its value is
/// buffered, or, when the buffer is full, the attempt waits in the queue of
/// senders with its value; either way the oldest waiting receiver is
/// notified. A waiting attempt keeps waiting; a recorded attempt that is no
/// longer waiting completes, getting its value back if the channel was
/// closed before the value was taken.
pub open spec fn send_step<T>(v: ChannelView<T>, node: SendWaitNode<T>) -> (
    ChannelView<T>,
    SendWaitNode<T>,
    Poll<()>,
    Option<T>,
) {
    if !node.registered {
        if v.is_closed {
            (v, SendWaitNode { value: None, ..node }, Poll::Ready(()), node.value)
        } else if v.items.len() >= v.cap {
            let w = SendWaiterView { id: node.id, state: SendPollState::Registered, value: node.value };
            (
                ChannelView { senders: v.senders.push(w), ..v }.after_receiver_wakeup(),
                SendWaitNode { registered: true, value: None, ..node },
                Poll::Pending,
                None,
            )
        } else {
            (
                ChannelView { items: v.items.push(node.value->Some_0), ..v }.after_receiver_wakeup(),
                SendWaitNode { value: None, ..node },
                Poll::Ready(()),
                None,
            )
        }
    } else {
        let i = v.sender_pos(node.id);
        let r = v.senders[i];
        if r.state == SendPollState::Registered {
            (v, node, Poll::Pending, None)
        } else {
            (v.drop_sender(i), SendWaitNode { registered: false, ..node }, Poll::Ready(()), r.value)
        }
    }
}

/// The outcome of polling the receive attempt `node` on a channel in state
/// `v`: the new state of the channel and of the attempt, and the result.
///
/// A waiting attempt keeps waiting. Otherwise the attempt (forgetting its
/// record, if any) takes the oldest buffered value, after which the oldest
/// waiting sender moves its value into the buffer; or, with an empty buffer,
/// the value of the oldest waiting sender; or, on a closed channel, gets
/// `None`; or else it waits in the queue of receivers.
pub open spec fn recv_step<T>(v: ChannelView<T>, node: RecvWaitNode) -> (
    ChannelView<T>,
    RecvWaitNode,
    Poll<Option<T>>,
) {
    if node.registered && v.receivers[v.receiver_pos(node.id)].state
        == RecvPollState::Registered {
        (v, node, Poll::Pending)
    } else {
        let v1 = if node.registered {
            v.drop_receiver(v.receiver_pos(node.id))
        } else {
            v
        };
        let node1 = RecvWaitNode { registered: false, ..node };
        if v1.items.len() > 0 {
            (
                ChannelView { items: v1.items.drop_first(), ..v1 }.after_sender_handover(),
                node1,
                Poll::Ready(Some(v1.items[0])),
            )
        } else if v1.has_waiting_sender() {
            let i = choose|i: int| 0 <= i < v1.senders.len() && v1.first_sender(i);
            (v1.complete_sender(i, false), node1, Poll::Ready(Some(v1.senders[i].value->Some_0)))
        } else if v1.is_closed {
            (v1, node1, Poll::Ready(None))
        } else {
            let w = RecvWaiterView { id: node.id, state: RecvPollState::Registered };
            (
                ChannelView { receivers: v1.receivers.push(w), ..v1 },
                RecvWaitNode { registered: true, ..node },
                Poll::Pending,
            )
        }
    }
}

proof fn lemma_queued_values_push<T>(ss: Seq<SendWaiterView<T>>, w: SendWaiterView<T>)
    ensures
        queued_values(ss.push(w)) == queued_values(ss) + (if w.state == SendPollState::Registered {
            seq![w.value->Some_0]
        } else {
            Seq::empty()
        }),
    decreases ss.len(),
{
    if ss.len() == 0 {
        assert(ss.push(w).drop_first() =~= ss);
        assert(queued_values(ss) =~= Seq::<T>::empty());
        assert(queued_values(ss.push(w)) =~= queued_values(ss) + (if w.state
            == SendPollState::Registered {
            seq![w.value->Some_0]
        } else {
            Seq::empty()
        }));
    } else {
        lemma_queued_values_push(ss.drop_first(), w);
        assert(ss.push(w).drop_first() =~= ss.drop_first().push(w));
        assert(ss.push(w)[0] == ss[0]);
        let head = if ss[0].state == SendPollState::Registered {
            seq![ss[0].value->Some_0]
        } else {
            Seq::<T>::empty()
        };
        let tail = if w.state == SendPollState::Registered {
            seq![w.value->Some_0]
        } else {
            Seq::<T>::empty()
        };
        assert(head + (queued_values(ss.drop_first()) + tail) =~= (head + queued_values(
            ss.drop_first(),
        )) + tail);
    }
}

/// Removing a record that is not waiting leaves the queued values alone.
proof fn lemma_queued_values_remove_idle<T>(ss: Seq<SendWaiterView<T>>, i: int)
    requires
        0 <= i < ss.len(),
        ss[i].state != SendPollState::Registered,
    ensures
        queued_values(ss.remove(i)) == queued_values(ss),
    decreases ss.len(),
{
    if i == 0 {
        assert(ss.remove(i) =~= ss.drop_first());
        assert(queued_values(ss) =~= queued_values(ss.drop_first()));
    } else {
        lemma_queued_values_remove_idle(ss.drop_first(), i - 1);
        assert(ss.remove(i).drop_first() =~= ss.drop_first().remove(i - 1));
        assert(ss.remove(i)[0] == ss[0]);
    }
}

/// The oldest waiting sender holds the first queued value; once it hands
/// its value over, the remaining values are queued.
proof fn lemma_queued_values_first<T>(ss: Seq<SendWaiterView<T>>, i: int, w: SendWaiterView<T>)
    requires
        0 <= i < ss.len(),
        ss[i].state == SendPollState::Registered,
        forall|j: int| 0 <= j < i ==> ss[j].state != SendPollState::Registered,
        w.state != SendPollState::Registered,
    ensures
        queued_values(ss).len() > 0,
        queued_values(ss)[0] == ss[i].value->Some_0,
        queued_values(ss.update(i, w)) == queued_values(ss).drop_first(),
    decreases ss.len(),
{
    if i == 0 {
        assert(ss.update(i, w).drop_first() =~= ss.drop_first());
        assert(queued_values(ss.update(i, w)) =~= queued_values(ss.drop_first()));
        assert(queued_values(ss) =~= seq![ss[0].value->Some_0] + queued_values(ss.drop_first()));
        assert(queued_values(ss).drop_first() =~= queued_values(ss.drop_first()));
    } else {
        lemma_queued_values_first(ss.drop_first(), i - 1, w);
        assert(ss.update(i, w).drop_first() =~= ss.drop_first().update(i - 1, w));
        assert(queued_values(ss) =~= queued_values(ss.drop_first()));
        assert(queued_values(ss.update(i, w)) =~= queued_values(ss.drop_first().update(i - 1, w)));
    }
}

/// Without waiting senders there are no queued values, and the other way
/// round.
proof fn lemma_queued_values_empty<T>(ss: Seq<SendWaiterView<T>>)
    ensures
        (queued_values(ss).len() == 0) == (forall|i: int|
            0 <= i < ss.len() ==> (#[trigger] ss[i]).state != SendPollState::Registered),
    decreases ss.len(),
{
    if ss.len() > 0 {
        lemma_queued_values_empty(ss.drop_first());
        if forall|i: int| 0 <= i < ss.len() ==> (#[trigger] ss[i]).state != SendPollState::Registered {
            assert forall|i: int| 0 <= i < ss.drop_first().len() implies (
            #[trigger] ss.drop_first()[i]).state != SendPollState::Registered by {
                assert(ss[i + 1].state != SendPollState::Registered);
            }
        } else {
            let k = choose|i: int| 0 <= i < ss.len() && (#[trigger] ss[i]).state == SendPollState::Registered;
            if k > 0 {
                assert(ss.drop_first()[k - 1].state == SendPollState::Registered);
            }
        }
    }
}

/// A waiting receive attempt holds the waker of its task, and a notified
/// or unregistered one does not; a waiting send attempt holds the waker of
/// its task, and one unregistered by closing the channel does not.
pub proof fn waiting_attempts_hold_wakers<T, A: RingBuf<Item = T>>(s: &ChannelState<T, A>)
    requires
        s.wf(),
    ensures
        forall|i: int|
            0 <= i < s@.receivers.len() ==> (#[trigger] s.receiver_holds_waker(i))
                == (s@.receivers[i].state == RecvPollState::Registered),
        forall|i: int|
            0 <= i < s@.senders.len() && s@.senders[i].state == SendPollState::Registered
                ==> #[trigger] s.sender_holds_waker(i),
        forall|i: int|
            0 <= i < s@.senders.len() && s@.senders[i].state == SendPollState::Unregistered
                ==> !#[trigger] s.sender_holds_waker(i),
{
    assert forall|i: int| 0 <= i < s@.receivers.len() implies (#[trigger] s.receiver_holds_waker(i))
        == (s@.receivers[i].state == RecvPollState::Registered) by {
        assert(s@.receivers[i] == s.receive_waiters@[i].view());
    }
    assert forall|i: int|
        0 <= i < s@.senders.len() && s@.senders[i].state == SendPollState::Registered implies #[trigger] s.sender_holds_waker(i) by {
        assert(s@.senders[i] == s.send_waiters@[i].view());
    }
    assert forall|i: int|
        0 <= i < s@.senders.len() && s@.senders[i].state == SendPollState::Unregistered implies !#[trigger] s.sender_holds_waker(i) by {
        assert(s@.senders[i] == s.send_waiters@[i].view());
    }
}

/// The channel invariant (see `ChannelView::inv`) holds in every
/// well-formed state.
pub proof fn channel_invariant<T, A: RingBuf<Item = T>>(s: &ChannelState<T, A>)
    requires
        s.wf(),
    ensures
        s@.inv(),
{
}

/// A value sent into an open channel without pending values is what the
/// next receive attempt gets, whether the channel buffers it or hands it
/// over from the waiting sender.
pub proof fn send_then_receive<T>(v: ChannelView<T>, s: SendWaitNode<T>, r: RecvWaitNode)
    requires
        v.inv(),
        !v.is_closed,
        v.pending().len() == 0,
        !s.registered,
        s.value is Some,
        !v.has_sender(s.id),
        !r.registered,
    ensures
        send_step(v, s).2 == (if v.cap > 0 {
            Poll::Ready(())
        } else {
            Poll::<()>::Pending
        }),
        recv_step(send_step(v, s).0, r).2 == Poll::Ready(s.value),
{
    let x = s.value->Some_0;
    lemma_queued_values_empty(v.senders);
    assert(v.items.len() == 0);
    let v1 = send_step(v, s).0;
    if v.cap > 0 {
        assert(v1.items =~= seq![x]);
    } else {
        let w = SendWaiterView { id: s.id, state: SendPollState::Registered, value: s.value };
        let n = v.senders.len() as int;
        assert(v1.senders =~= v.senders.push(w));
        assert(v1.items.len() == 0);
        assert(v1.first_sender(n));
        assert(v1.has_waiting_sender());
        let i = choose|i: int| 0 <= i < v1.senders.len() && v1.first_sender(i);
        if i != n {
            assert(v1.senders[i] == v.senders[i]);
        }
    }
}

/// A closed channel hands every new send attempt its value back and stays
/// as it is.
pub proof fn closed_channel_refuses_sends<T>(v: ChannelView<T>, s: SendWaitNode<T>)
    requires
        v.is_closed,
        !s.registered,
    ensures
        send_step(v, s).0 == v,
        send_step(v, s).2 == Poll::<()>::Ready(()),
        send_step(v, s).3 == s.value,
{
}

/// On a closed channel, a new receive attempt gets the next buffered value
/// as long as there is one, and `None` after that.
pub proof fn closed_channel_drains<T>(v: ChannelView<T>, r: RecvWaitNode)
    requires
        v.inv(),
        v.is_closed,
        !r.registered,
    ensures
        v.items.len() > 0 ==> recv_step(v, r).2 == Poll::Ready(Some(v.items[0])),
        v.items.len() == 0 ==> recv_step(v, r).2 == Poll::<Option<T>>::Ready(None) && recv_step(
            v,
            r,
        ).0 == v,
{
}

/// Closing the channel fails every send attempt that waits for room: the
/// attempt gets its value back when its task comes back.
pub proof fn close_fails_waiting_sends<T>(v: ChannelView<T>, s: SendWaitNode<T>)
    requires
        v.inv(),
        !v.is_closed,
        s.registered,
        v.has_sender(s.id),
        v.senders[v.sender_pos(s.id)].state == SendPollState::Registered,
    ensures
        send_step(v.after_close(), s).2 == Poll::<()>::Ready(()),
        send_step(v.after_close(), s).3 == v.senders[v.sender_pos(s.id)].value,
        send_step(v.after_close(), s).3 is Some,
{
    let c = v.after_close();
    let p = v.sender_pos(s.id);
    assert(c.senders[p].id == s.id);
    assert(c.has_sender(s.id));
    let q = c.sender_pos(s.id);
    assert(c.senders[q].id == v.senders[q].id);
    assert(q == p);
}

/// A send attempt that has to wait and then gives up takes its value back
/// out of the channel: the buffered values, the waiting senders and thus the
/// pending values are as they were.
pub proof fn waiting_send_then_giving_up_restores<T>(v: ChannelView<T>, s: SendWaitNode<T>)
    requires
        v.inv(),
        !v.is_closed,
        v.items.len() >= v.cap,
        !s.registered,
        s.value is Some,
        !v.has_sender(s.id),
    ensures
        ({
            let v1 = send_step(v, s).0;
            let v2 = v1.drop_sender(v1.sender_pos(s.id));
            &&& v2.items == v.items
            &&& v2.senders == v.senders
            &&& v2.pending() == v.pending()
        }),
{
    let w = SendWaiterView { id: s.id, state: SendPollState::Registered, value: s.value };
    let v1 = send_step(v, s).0;
    let n = v.senders.len() as int;
    assert(v1.senders =~= v.senders.push(w));
    assert(v1.senders[n].id == s.id);
    assert(v1.has_sender(s.id));
    let p = v1.sender_pos(s.id);
    if p != n {
        assert(v1.senders[p] == v.senders[p]);
    }
    assert(v1.senders.remove(p) =~= v.senders);
}


/// A new send attempt on an open channel notifies the oldest waiting
/// receiver, whether its value is buffered or has to wait for room; all
/// other receive records stay as they were.
pub proof fn send_notifies_oldest_receiver<T>(v: ChannelView<T>, node: SendWaitNode<T>)
    requires
        !node.registered,
        !v.is_closed,
    ensures
        send_step(v, node).0.receivers.len() == v.receivers.len(),
        forall|i: int|
            0 <= i < v.receivers.len() ==> #[trigger] send_step(v, node).0.receivers[i] == if v.receivers[i].state
                == RecvPollState::Registered && (forall|j: int|
                0 <= j < i ==> (#[trigger] v.receivers[j]).state != RecvPollState::Registered) {
                RecvWaiterView { id: v.receivers[i].id, state: RecvPollState::Notified }
            } else {
                v.receivers[i]
            },
{
}


/// A receive attempt that does not wait in the queue gets the first pending
/// value whenever there is one (a buffered value, or else the value of the
/// oldest waiting sender); without pending values it gets `None` from a
/// closed channel and waits in the queue of an open one.
pub proof fn receive_gets_first_pending<T>(v: ChannelView<T>, node: RecvWaitNode)
    requires
        v.inv(),
        node.registered ==> v.has_receiver(node.id) && v.receivers[v.receiver_pos(node.id)].state
            != RecvPollState::Registered,
    ensures
        v.pending().len() > 0 ==> recv_step(v, node).2 == Poll::Ready(Some(v.pending()[0])),
        v.pending().len() == 0 && v.is_closed ==> recv_step(v, node).2 == Poll::<Option<T>>::Ready(
            None,
        ),
        v.pending().len() == 0 && !v.is_closed ==> recv_step(v, node).2 is Pending && recv_step(
            v,
            node,
        ).1.registered,
{
    let v1 = if node.registered {
        v.drop_receiver(v.receiver_pos(node.id))
    } else {
        v
    };
    assert(v1.items == v.items && v1.senders == v.senders && v1.is_closed == v.is_closed);
    assert(v1.pending() == v.pending());
    lemma_queued_values_empty(v.senders);
    if v.items.len() == 0 {
        assert(v.pending() =~= queued_values(v.senders));
        if v1.has_waiting_sender() {
            lemma_first_queued_value(v1);
        } else {
            assert forall|j: int| 0 <= j < v.senders.len() implies (
            #[trigger] v.senders[j]).state != SendPollState::Registered by {}
        }
    } else {
        assert(v.pending()[0] == v.items[0]);
    }
}

/// The oldest waiting sender exists and holds the first queued value.
proof fn lemma_first_queued_value<T>(v: ChannelView<T>)
    requires
        v.has_waiting_sender(),
    ensures
        ({
            let i = choose|i: int| 0 <= i < v.senders.len() && v.first_sender(i);
            &&& 0 <= i < v.senders.len()
            &&& v.first_sender(i)
            &&& queued_values(v.senders).len() > 0
            &&& queued_values(v.senders)[0] == v.senders[i].value->Some_0
        }),
{
    let k = choose|k: int| 0 <= k < v.senders.len() && v.senders[k].state == SendPollState::Registered;
    lemma_first_sender_exists(v.senders, k);
    let i0 = choose|i: int|
        0 <= i < v.senders.len() && v.senders[i].state == SendPollState::Registered && forall|j: int|
            0 <= j < i ==> v.senders[j].state != SendPollState::Registered;
    assert(v.first_sender(i0));
    let i = choose|i: int| 0 <= i < v.senders.len() && v.first_sender(i);
    let w = SendWaiterView { id: v.senders[i].id, state: SendPollState::SendComplete, value: None };
    lemma_queued_values_first(v.senders, i, w);
}

/// A queue of send records with a waiting sender has an oldest waiting one.
proof fn lemma_first_sender_exists<T>(ss: Seq<SendWaiterView<T>>, k: int)
    requires
        0 <= k < ss.len(),
        ss[k].state == SendPollState::Registered,
    ensures
        exists|i: int|
            0 <= i < ss.len() && ss[i].state == SendPollState::Registered && forall|j: int|
                0 <= j < i ==> ss[j].state != SendPollState::Registered,
    decreases k,
{
    if exists|j: int| 0 <= j < k && ss[j].state == SendPollState::Registered {
        let j = choose|j: int| 0 <= j < k && ss[j].state == SendPollState::Registered;
        lemma_first_sender_exists(ss, j);
    } else {
        assert(forall|j: int| 0 <= j < k ==> ss[j].state != SendPollState::Registered);
    }
}

/// A new send attempt completes at once exactly when the channel is closed
/// (the value comes back) or its buffer has room (the value is buffered);
/// otherwise it waits in the queue of senders, keeping its value there.
pub proof fn send_completes_when_room<T>(v: ChannelView<T>, node: SendWaitNode<T>)
    requires
        !node.registered,
    ensures
        (send_step(v, node).2 is Ready) == (v.is_closed || v.items.len() < v.cap),
        !v.is_closed && v.items.len() < v.cap ==> send_step(v, node).0.items == v.items.push(
            node.value->Some_0,
        ) && send_step(v, node).0.senders == v.senders,
        !v.is_closed && v.items.len() >= v.cap ==> send_step(v, node).0.items == v.items
            && send_step(v, node).0.senders == v.senders.push(
            SendWaiterView { id: node.id, state: SendPollState::Registered, value: node.value },
        ) && send_step(v, node).1.registered,
{
}

} // verus!
