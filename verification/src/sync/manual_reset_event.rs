//! The state machine of an asynchronously awaitable event for signalization
//! between tasks.
//!
//! The recorded waits are kept in a `Vec`, each identified by an integer id.
//! A `pin_list::PinList` can not stand here: it links nodes that the waiting
//! futures own, taking them as `Pin<&mut pin_list::Node<_>>`, and Verus
//! supports neither `Pin` nor a declaration of `pin_list::Node` or
//! `pin_list::PinList`, whose parameter is bounded by `pin_list::Types`.

use crate::task::{clone_waker, update_waker_ref, wake, Poll};
use std::task::Waker;
use vstd::prelude::*;

verus! {

/// The handle of one wait for the event, owned by the waiting task.
#[derive(Debug)]
pub struct EventWaitNode {
    /// Identifies the wait; distinct from the ids of all other waits
    /// registered at the same event.
    pub id: u64,
    /// Whether the event keeps a record of the wait.
    pub registered: bool,
}

impl EventWaitNode {
    /// Creates a new wait.
    pub fn new(id: u64) -> (node: EventWaitNode)
        ensures
            node.id == id,
            !node.registered,
    {
        EventWaitNode { id, registered: false }
    }
}

/// A wait as the event records it.
struct Waiter {
    id: u64,
    /// Whether the event was set since the wait was registered; a woken
    /// wait has left the list of waiters and is only remembered until its
    /// task comes back.
    woken: bool,
    task: Option<Waker>,
}

/// The abstract view of a recorded wait.
pub struct EventWaiterView {
    pub id: u64,
    pub woken: bool,
}

/// The abstract state of the event: whether it is set, and the recorded
/// waits, oldest first.
#[verifier::ext_equal]
pub struct EventView {
    pub is_set: bool,
    pub waiters: Seq<EventWaiterView>,
    /// The id that the next wait gets.
    pub next_id: nat,
}

impl EventView {
    /// Whether a wait with the given id is recorded.
    pub open spec fn has(self, id: u64) -> bool {
        exists|i: int| 0 <= i < self.waiters.len() && self.waiters[i].id == id
    }

    /// The position of the recorded wait with the given id.
    pub open spec fn pos(self, id: u64) -> int {
        choose|i: int| 0 <= i < self.waiters.len() && self.waiters[i].id == id
    }

    /// The ids of the recorded waits are distinct, and no wait waits for an
    /// event that is set.
    pub open spec fn inv(self) -> bool {
        &&& forall|i: int| 0 <= i < self.waiters.len() ==> (#[trigger] self.waiters[i]).id < self.next_id
        &&& forall|i: int, j: int|
            0 <= i < j < self.waiters.len() ==> self.waiters[i].id != self.waiters[j].id
        &&& self.is_set ==> forall|i: int|
            0 <= i < self.waiters.len() ==> (#[trigger] self.waiters[i]).woken
    }

    /// The view after the event was set: all waits are woken.
    pub open spec fn after_set(self) -> EventView {
        EventView {
            is_set: true,
            waiters: Seq::new(
                self.waiters.len(),
                |i: int| EventWaiterView { id: self.waiters[i].id, woken: true },
            ),
            ..self
        }
    }
}

/// The outcome of polling the wait `node` on an event in state `v`: the new
/// state of the event and of the wait, and whether the wait is over.
///
/// A new wait is over at once if the event is set, else it is recorded. A
/// recorded wait is over once the event was set after it was recorded (even
/// if the event was reset since); its record is then dropped.
pub open spec fn wait_step(v: EventView, node: EventWaitNode) -> (EventView, bool, bool) {
    if !node.registered {
        if v.is_set {
            (v, false, true)
        } else {
            (
                EventView {
                    waiters: v.waiters.push(EventWaiterView { id: node.id, woken: false }),
                    ..v
                },
                true,
                false,
            )
        }
    } else {
        let i = v.pos(node.id);
        if v.waiters[i].woken {
            (EventView { waiters: v.waiters.remove(i), ..v }, false, true)
        } else {
            (v, true, false)
        }
    }
}

/// Internal state of the event
pub struct EventState {
    is_set: bool,
    /// The recorded waits, oldest first
    waiters: Vec<Waiter>,
    /// The id that the next wait gets.
    next_id: u64,
}

impl Waiter {
    spec fn view(self) -> EventWaiterView {
        EventWaiterView { id: self.id, woken: self.woken }
    }
}

impl View for EventState {
    type V = EventView;

    closed spec fn view(&self) -> EventView {
        EventView {
            is_set: self.is_set,
            waiters: self.waiters@.map_values(|w: Waiter| w.view()),
            next_id: self.next_id as nat,
        }
    }
}

impl EventState {
    /// Well-formedness: the event invariant holds, and a recorded wait holds
    /// the waker of its task until setting the event takes the waker to wake
    /// the task.
    pub closed spec fn wf(&self) -> bool {
        &&& self@.inv()
        &&& forall|i: int|
            0 <= i < self.waiters@.len() ==> ((#[trigger] self.waiters@[i]).task is Some
                <==> !self.waiters@[i].woken)
    }

    /// Whether the wait recorded at position `i` holds a waker of its task.
    pub closed spec fn holds_waker(&self, i: int) -> bool {
        self.waiters@[i].task is Some
    }

    /// Creates the state of an event in the given state, without waits.
    pub fn new(is_set: bool) -> (state: EventState)
        ensures
            state.wf(),
            state@ == (EventView { is_set, waiters: Seq::empty(), next_id: 0 }),
    {
        let state = EventState { is_set, waiters: Vec::new(), next_id: 0 };
        assert(state@.waiters =~= Seq::<EventWaiterView>::empty());
        state
    }

    /// Resets the event.
    pub fn reset(&mut self)
        requires
            old(self).wf(),
        ensures
            final(self).wf(),
            final(self)@ == (EventView { is_set: false, ..old(self)@ }),
    {
        self.is_set = false;
    }

    /// Sets the event, waking all waiting tasks.
    pub fn set(&mut self)
        requires
            old(self).wf(),
        ensures
            final(self).wf(),
            final(self)@ == if old(self)@.is_set {
                old(self)@
            } else {
                old(self)@.after_set()
            },
    {
        if self.is_set != true {
            let ghost o = self@;
            self.is_set = true;
            // Wakeup all waiters, oldest first
            let len = self.waiters.len();
            let mut i: usize = 0;
            while i < len
                invariant
                    len == self.waiters@.len(),
                    len == o.waiters.len(),
                    i <= len,
                    self.is_set,
                    self.next_id == o.next_id,
                    forall|j: int|
                        0 <= j < len ==> ((#[trigger] self.waiters@[j]).task is Some
                            <==> !self.waiters@[j].woken),
                    forall|j: int|
                        0 <= j < len ==> (#[trigger] self@.waiters[j]) == if j < i {
                            o.after_set().waiters[j]
                        } else {
                            o.waiters[j]
                        },
                decreases len - i,
            {
                let ghost pre = self@;
                let ghost before = self.waiters@;
                assert(pre.waiters[i as int] == o.waiters[i as int]);
                if !self.waiters[i].woken {
                    self.waiters[i].woken = true;
                    if let Some(waker) = self.waiters[i].task.take() {
                        wake(waker);
                    }
                }
                assert forall|j: int| 0 <= j < len && j != i implies self.waiters@[j]
                    == before[j] by {}
                assert forall|j: int| 0 <= j < len implies (#[trigger] self@.waiters[j]) == if j
                    < i + 1 {
                    o.after_set().waiters[j]
                } else {
                    o.waiters[j]
                } by {
                    if j != i {
                        assert(self@.waiters[j] == pre.waiters[j]);
                    }
                }
                i = i + 1;
            }
            assert(self@ =~= o.after_set());
            proof {
                let n = self@;
                assert forall|a: int, b: int| 0 <= a < b < n.waiters.len() implies n.waiters[a].id
                    != n.waiters[b].id by {
                    assert(n.waiters[a].id == o.waiters[a].id);
                    assert(n.waiters[b].id == o.waiters[b].id);
                }
            }
        }
    }

    /// Creates a new wait, with an id that no wait at this event had before.
    pub fn new_node(&mut self) -> (node: EventWaitNode)
        requires
            old(self).wf(),
            old(self)@.next_id < u64::MAX,
        ensures
            final(self).wf(),
            final(self)@ == (EventView { next_id: old(self)@.next_id + 1, ..old(self)@ }),
            node.id == old(self)@.next_id,
            !node.registered,
            !final(self)@.has(node.id),
    {
        let id = self.next_id;
        self.next_id = self.next_id + 1;
        EventWaitNode::new(id)
    }

    /// Returns the id that the next wait would get.
    pub fn next_id(&self) -> (id: u64)
        ensures
            id == self@.next_id,
    {
        self.next_id
    }

    /// Returns whether the event is set
    pub fn is_set(&self) -> (set: bool)
        ensures
            set == self@.is_set,
    {
        self.is_set
    }

    /// Finds the position of the recorded wait with the given id.
    fn position(&self, id: u64) -> (i: usize)
        requires
            self.wf(),
            self@.has(id),
        ensures
            i == self@.pos(id),
            i < self@.waiters.len(),
    {
        let ghost v = self@;
        let mut i: usize = 0;
        while i < self.waiters.len()
            invariant
                v == self@,
                v.has(id),
                v.inv(),
                i <= self.waiters@.len(),
                forall|j: int| 0 <= j < i ==> self.waiters@[j].id != id,
            decreases self.waiters@.len() - i,
        {
            if self.waiters[i].id == id {
                assert(v.waiters[i as int].id == id);
                assert(v.waiters[v.pos(id)].id == id);
                return i;
            }
            i = i + 1;
        }
        assert(v.waiters[v.pos(id)].id == id);
        0
    }

    /// Drops the record at position `i`.
    fn forget(&mut self, i: usize)
        requires
            old(self).wf(),
            i < old(self)@.waiters.len(),
        ensures
            final(self).wf(),
            final(self)@ == (EventView { waiters: old(self)@.waiters.remove(i as int), ..old(self)@ }),
            !final(self)@.has(old(self)@.waiters[i as int].id),
    {
        let ghost o = self@;
        let _waiter = self.waiters.remove(i);
        proof {
            let n = self@;
            assert(n.waiters =~= o.waiters.remove(i as int));
            assert forall|j: int| 0 <= j < n.waiters.len() implies n.waiters[j]
                == o.waiters[if j < i {
                j
            } else {
                j + 1
            }] by {}
            let id = o.waiters[i as int].id;
            if n.has(id) {
                let k = choose|k: int| 0 <= k < n.waiters.len() && n.waiters[k].id == id;
                assert(n.waiters[k] == o.waiters[if k < i {
                    k
                } else {
                    k + 1
                }]);
            }
        }
    }

    /// Checks if the event is set. If it is, this returns immediately.
    /// If the event isn't set, the wait gets added to the wait
    /// queue at the event, and will be signalled once ready (see
    /// `wait_step`).
    pub fn try_wait(&mut self, node: &mut EventWaitNode, waker: &Waker) -> (res: Poll<()>)
        requires
            old(self).wf(),
            old(node).registered == old(self)@.has(old(node).id),
            old(node).id < old(self)@.next_id,
        ensures
            final(self).wf(),
            final(node).id == old(node).id,
            final(node).registered == final(self)@.has(final(node).id),
            final(self)@ == wait_step(old(self)@, *old(node)).0,
            final(node).registered == wait_step(old(self)@, *old(node)).1,
            (res is Ready) == wait_step(old(self)@, *old(node)).2,
    {
        if !node.registered {
            // We haven't started waiting yet
            if self.is_set {
                // The event is already signaled
                Poll::Ready(())
            } else {
                // Added the task to the wait queue
                let ghost o = self@;
                let ghost w = EventWaiterView { id: node.id, woken: false };
                self.waiters.push(Waiter { id: node.id, woken: false, task: Some(clone_waker(waker)) });
                node.registered = true;
                proof {
                    let n = self@;
                    assert(n.waiters =~= o.waiters.push(w));
                    assert(n.waiters[o.waiters.len() as int].id == node.id);
                    assert forall|a: int| 0 <= a < n.waiters.len() implies (#[trigger] n.waiters[a]).id
                        < n.next_id by {
                        if a < o.waiters.len() {
                            assert(n.waiters[a] == o.waiters[a]);
                        }
                    }
                    assert forall|a: int, b: int| 0 <= a < b < n.waiters.len() implies n.waiters[a].id
                        != n.waiters[b].id by {
                        assert(n.waiters[a] == o.waiters[a]);
                        if b < o.waiters.len() {
                            assert(n.waiters[b] == o.waiters[b]);
                        }
                    }
                }
                Poll::Pending
            }
        } else {
            // We are in the middle of waiting, or we have been woken
            let i = self.position(node.id);
            if self.waiters[i].woken {
                // We have been woken up by the event.
                // This does not guarantee that the event is still set. It could
                // have been reset it in the meantime.
                self.forget(i);
                node.registered = false;
                Poll::Ready(())
            } else {
                // The wait is still in the queue. The event can't have been set,
                // since this would have woken the wait. However the caller might have
                // passed a different `Waker`. In this case we need to update it.
                let ghost before = self.waiters@;
                update_waker_ref(&mut self.waiters[i].task, waker);
                assert(self.waiters@.map_values(|w: Waiter| w.view()) =~= before.map_values(
                    |w: Waiter| w.view(),
                ));
                Poll::Pending
            }
        }
    }

    /// Forgets the wait `node`, when its task gives up.
    pub fn remove_waiter(&mut self, node: &mut EventWaitNode)
        requires
            old(self).wf(),
            old(node).registered == old(self)@.has(old(node).id),
        ensures
            final(self).wf(),
            final(node).id == old(node).id,
            !final(node).registered,
            !final(self)@.has(old(node).id),
            final(self)@ == if old(node).registered {
                EventView {
                    waiters: old(self)@.waiters.remove(old(self)@.pos(old(node).id)),
                    ..old(self)@
                }
            } else {
                old(self)@
            },
    {
        // The wait only needs to get removed if it has been added to the
        // wait queue of the event.
        if node.registered {
            let i = self.position(node.id);
            self.forget(i);
            node.registered = false;
        }
    }
}

/// The event invariant (see `EventView::inv`) holds in every well-formed
/// state.
pub proof fn event_invariant(s: &EventState)
    requires
        s.wf(),
    ensures
        s@.inv(),
{
}

/// A recorded wait holds the waker of its task exactly until it was woken.
pub proof fn waits_hold_wakers_until_woken(s: &EventState)
    requires
        s.wf(),
    ensures
        forall|i: int| 0 <= i < s@.waiters.len() ==> (#[trigger] s.holds_waker(i)) == !s@.waiters[i].woken,
{
    assert forall|i: int| 0 <= i < s@.waiters.len() implies (#[trigger] s.holds_waker(i))
        == !s@.waiters[i].woken by {
        assert(s@.waiters[i] == s.waiters@[i].view());
    }
}

/// Setting the event ends every recorded wait, even if the event is reset
/// again before the waiting task comes back.
pub proof fn set_ends_every_wait(v: EventView, node: EventWaitNode, reset_after: bool)
    requires
        v.inv(),
        node.registered,
        v.has(node.id),
    ensures
        ({
            let set = if v.is_set {
                v
            } else {
                v.after_set()
            };
            let s = if reset_after {
                EventView { is_set: false, ..set }
            } else {
                set
            };
            wait_step(s, node).2
        }),
{
    let set = if v.is_set {
        v
    } else {
        v.after_set()
    };
    let s = if reset_after {
        EventView { is_set: false, ..set }
    } else {
        set
    };
    let k = choose|k: int| 0 <= k < v.waiters.len() && v.waiters[k].id == node.id;
    assert(s.waiters[k].id == node.id);
    assert(s.has(node.id));
    let p = s.pos(node.id);
    assert(s.waiters[p].woken);
}

/// A wait on a set event ends at once; a new wait on an event that is not
/// set does not.
pub proof fn wait_follows_event_state(v: EventView, node: EventWaitNode)
    requires
        !node.registered,
    ensures
        wait_step(v, node).2 == v.is_set,
        v.is_set ==> wait_step(v, node).0 == v,
{
}

/// A wait on an event that is not set, given up before the event is set,
/// leaves the event as it was.
pub proof fn waiting_then_giving_up_restores(v: EventView, node: EventWaitNode)
    requires
        v.inv(),
        !v.is_set,
        !node.registered,
        !v.has(node.id),
    ensures
        ({
            let v1 = wait_step(v, node).0;
            EventView { waiters: v1.waiters.remove(v1.pos(node.id)), ..v1 } == v
        }),
{
    let v1 = wait_step(v, node).0;
    let n = v.waiters.len() as int;
    assert(v1.waiters[n].id == node.id);
    assert(v1.has(node.id));
    let p = v1.pos(node.id);
    if p != n {
        assert(v1.waiters[p] == v.waiters[p]);
    }
    assert(v1.waiters.remove(p) =~= v.waiters);
}

} // verus!
