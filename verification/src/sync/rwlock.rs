//! The state machine of an asynchronously awaitable reader-writer lock.
//!
//! The lock hands out shared read access, exclusive write access and
//! upgradable read access (a shared access that can later be turned into
//! exclusive access, held by at most one task at a time). Tasks which can
//! not acquire the access they ask for wait in a queue and are notified once
//! the access might be available.

use crate::task::{clone_waker, update_waker_ref, wake, Poll};
use std::task::Waker;
use vstd::prelude::*;

verus! {

/// Tracks how a registered waiter had interacted with the lock.
#[derive(Debug, PartialEq, Eq, Structural, Clone, Copy)]
pub enum PollState {
    /// The task has never interacted with the lock.
    New,
    /// The task was added to the wait queue at the lock.
    Waiting,
    /// The task had previously waited on the lock, but was notified
    /// that the lock was released in the meantime.
    Notified,
    /// The task had been polled to completion.
    Done,
}

/// The kind of access.
#[derive(Debug, PartialEq, Eq, Structural, Clone, Copy)]
pub enum EntryKind {
    /// An exclusive write access.
    Write,
    /// A shared read access.
    Read,
    /// A upgradable shared read access.
    UpgradeRead,
}

/// Where a lock attempt stands, as its owner sees it.
#[derive(Debug, PartialEq, Eq, Structural, Clone, Copy)]
pub enum NodeState {
    /// The attempt has not been made yet.
    New,
    /// The attempt is registered at the lock, which tracks whether it has
    /// been notified.
    Registered,
    /// The access has been acquired, or the attempt was given up.
    Done,
}

/// The handle of one lock attempt, owned by the task that makes it.
#[derive(Debug)]
pub struct WaitNode {
    /// Identifies the attempt; distinct from the ids of all other attempts
    /// registered at the same lock.
    pub id: u64,
    /// The kind of access that is requested.
    pub kind: EntryKind,
    /// Set for the write attempt of an upgradable reader, which is queued
    /// ahead of all other waiters.
    pub is_upgrade: bool,
    /// Where the attempt stands.
    pub state: NodeState,
}

impl WaitNode {
    /// Creates a new attempt for the given kind of access.
    pub fn new(id: u64, kind: EntryKind) -> (node: WaitNode)
        ensures
            node.id == id,
            node.kind == kind,
            !node.is_upgrade,
            node.state == NodeState::New,
    {
        WaitNode { id, kind, is_upgrade: false, state: NodeState::New }
    }

    /// Creates the write attempt of an upgradable reader.
    pub fn for_upgrade(id: u64) -> (node: WaitNode)
        ensures
            node.id == id,
            node.kind == EntryKind::Write,
            node.is_upgrade,
            node.state == NodeState::New,
    {
        WaitNode { id, kind: EntryKind::Write, is_upgrade: true, state: NodeState::New }
    }
}

/// A waiter as the lock records it.
struct Entry {
    /// The id of the attempt
    id: u64,
    /// The kind of entry.
    kind: EntryKind,
    /// Current polling state (`Waiting` or `Notified`)
    state: PollState,
    /// The task handle of the waiting task
    task: Option<Waker>,
}

/// The abstract view of a registered waiter.
pub struct WaiterView {
    pub id: u64,
    pub kind: EntryKind,
    pub notified: bool,
}

/// The abstract state of the lock.
///
/// `waiters` lists the registered waiters, oldest first. In a fair lock all
/// of them form the wait queue. In an unfair lock a notified waiter leaves
/// the queue and is only remembered until its task comes back, so the
/// queue is formed by the waiters that are not notified.
#[verifier::ext_equal]
pub struct MutexView {
    pub is_fair: bool,
    pub nb_reads: nat,
    pub has_upgrade_read: bool,
    pub has_write: bool,
    pub waiters: Seq<WaiterView>,
    pub nb_waiting_writes: nat,
    pub nb_waiting_reads: nat,
    pub nb_waiting_upgrade_reads: nat,
    /// The id that the next lock attempt gets.
    pub next_id: nat,
}

/// The number of waiters of the given kind that are in the queue.
pub open spec fn count_queued(ws: Seq<WaiterView>, is_fair: bool, kind: EntryKind) -> nat
    decreases ws.len(),
{
    if ws.len() == 0 {
        0
    } else {
        count_queued(ws.drop_last(), is_fair, kind) + if counts(ws.last(), is_fair, kind) {
            1nat
        } else {
            0nat
        }
    }
}

/// Whether the waiter is in the queue and of the given kind.
pub open spec fn counts(w: WaiterView, is_fair: bool, kind: EntryKind) -> bool {
    w.kind == kind && (is_fair || !w.notified)
}

/// The waiter, notified if `b` holds.
pub open spec fn notified_if(w: WaiterView, b: bool) -> WaiterView {
    WaiterView { notified: w.notified || b, ..w }
}

impl MutexView {
    /// The lock invariant: a writer excludes everybody else, and the
    /// upgradable reader is one of the readers. The counters of waiting
    /// tasks are exact in a fair lock; an unfair lock only uses them as
    /// upper bounds.
    pub open spec fn inv(self) -> bool {
        &&& self.has_write ==> self.nb_reads == 0 && !self.has_upgrade_read
        &&& self.has_upgrade_read ==> self.nb_reads >= 1
        &&& forall|i: int, j: int|
            0 <= i < j < self.waiters.len() ==> self.waiters[i].id != self.waiters[j].id
        &&& self.count(EntryKind::Write) <= self.nb_waiting_writes
        &&& self.count(EntryKind::Read) <= self.nb_waiting_reads
        &&& self.count(EntryKind::UpgradeRead) <= self.nb_waiting_upgrade_reads
        &&& forall|i: int| 0 <= i < self.waiters.len() ==> (#[trigger] self.waiters[i]).id < self.next_id
        &&& self.is_fair ==> self.count(EntryKind::Write) == self.nb_waiting_writes
            && self.count(EntryKind::Read) == self.nb_waiting_reads
            && self.count(EntryKind::UpgradeRead) == self.nb_waiting_upgrade_reads
    }

    /// The number of queued waiters of a kind.
    pub open spec fn count(self, kind: EntryKind) -> nat {
        count_queued(self.waiters, self.is_fair, kind)
    }

    /// The counter of waiting tasks of a kind.
    pub open spec fn counter(self, kind: EntryKind) -> nat {
        match kind {
            EntryKind::Write => self.nb_waiting_writes,
            EntryKind::Read => self.nb_waiting_reads,
            EntryKind::UpgradeRead => self.nb_waiting_upgrade_reads,
        }
    }

    /// The view with the counter of a kind set to `n`.
    pub open spec fn with_counter(self, kind: EntryKind, n: nat) -> MutexView {
        match kind {
            EntryKind::Write => MutexView { nb_waiting_writes: n, ..self },
            EntryKind::Read => MutexView { nb_waiting_reads: n, ..self },
            EntryKind::UpgradeRead => MutexView { nb_waiting_upgrade_reads: n, ..self },
        }
    }

    /// Whether the waiter at position `i` is in the queue.
    pub open spec fn queued(self, i: int) -> bool {
        self.is_fair || !self.waiters[i].notified
    }

    /// Whether a waiter with the given id is registered.
    pub open spec fn has(self, id: u64) -> bool {
        exists|i: int| 0 <= i < self.waiters.len() && self.waiters[i].id == id
    }

    /// The position of the registered waiter with the given id.
    pub open spec fn pos(self, id: u64) -> int {
        choose|i: int| 0 <= i < self.waiters.len() && self.waiters[i].id == id
    }

    /// Whether the access of a kind is free of conflicting holders.
    pub open spec fn free_for(self, kind: EntryKind) -> bool {
        match kind {
            EntryKind::Read => !self.has_write,
            EntryKind::UpgradeRead => !self.has_write && !self.has_upgrade_read,
            EntryKind::Write => !self.has_write && self.nb_reads == 0,
        }
    }

    /// Whether a new attempt of a kind may take the access right away: the
    /// access is free, and in a fair lock no task that it would exclude is
    /// waiting.
    pub open spec fn sync_ok(self, kind: EntryKind) -> bool {
        &&& self.free_for(kind)
        &&& self.is_fair ==> match kind {
            EntryKind::Read => self.nb_waiting_writes == 0,
            _ => self.nb_waiting_writes == 0 && self.nb_waiting_upgrade_reads == 0,
        }
    }

    /// The view after the access of a kind has been granted.
    pub open spec fn acquire(self, kind: EntryKind) -> MutexView {
        match kind {
            EntryKind::Read => MutexView { nb_reads: self.nb_reads + 1, ..self },
            EntryKind::UpgradeRead => MutexView {
                nb_reads: self.nb_reads + 1,
                has_upgrade_read: true,
                ..self
            },
            EntryKind::Write => MutexView { has_write: true, ..self },
        }
    }

    /// The view after a waiter has been added to the queue, as the newest
    /// one, or as the oldest one if `first`.
    pub open spec fn enqueue(self, w: WaiterView, first: bool) -> MutexView {
        MutexView {
            waiters: if first {
                seq![w] + self.waiters
            } else {
                self.waiters.push(w)
            },
            ..self.with_counter(w.kind, self.counter(w.kind) + 1)
        }
    }

    /// The view after the queued waiter at position `i` has left the queue.
    pub open spec fn dequeue(self, i: int) -> MutexView {
        let kind = self.waiters[i].kind;
        MutexView {
            waiters: self.waiters.remove(i),
            ..self.with_counter(kind, (self.counter(kind) - 1) as nat)
        }
    }

    /// The view after the record of the waiter at position `i` has been
    /// dropped without touching the counters.
    pub open spec fn detach(self, i: int) -> MutexView {
        MutexView { waiters: self.waiters.remove(i), ..self }
    }

    /// The view after the waiter at position `i` has given up: a queued
    /// waiter leaves the queue, a notified one of an unfair lock only
    /// forgets its record.
    pub open spec fn unregister(self, i: int) -> MutexView {
        if self.queued(i) {
            self.dequeue(i)
        } else {
            self.detach(i)
        }
    }

    /// The state of the wakeup scan before position `i`: whether a reader
    /// holds or was granted access, whether the upgradable access is held
    /// or was granted, and whether the scan has stopped.
    pub open spec fn scan(self, i: int) -> (bool, bool, bool)
        decreases i,
    {
        if i <= 0 {
            (self.nb_reads > 0, self.has_upgrade_read, false)
        } else {
            self.scan_step(self.scan(i - 1), i - 1)
        }
    }

    /// One step of the wakeup scan, over the waiter at position `i`.
    pub open spec fn scan_step(self, s: (bool, bool, bool), i: int) -> (bool, bool, bool) {
        if s.2 || !self.queued(i) {
            s
        } else {
            match self.waiters[i].kind {
                EntryKind::Read => (true, s.1, false),
                EntryKind::UpgradeRead => if !s.1 {
                    (true, true, false)
                } else {
                    s
                },
                EntryKind::Write => if !s.0 {
                    (s.0, s.1, true)
                } else {
                    s
                },
            }
        }
    }

    /// Whether the scan over the queue, oldest first, notifies the waiter at
    /// position `i`: all readers, one upgradable reader unless one already
    /// holds the lock, and a writer only if it comes before every reader and
    /// no reader holds the lock (the scan stops there).
    pub open spec fn wakes(self, i: int) -> bool {
        let s = self.scan(i);
        &&& !s.2
        &&& self.queued(i)
        &&& match self.waiters[i].kind {
            EntryKind::Read => true,
            EntryKind::UpgradeRead => !s.1,
            EntryKind::Write => !s.0,
        }
    }

    /// The view after the scan has notified the waiters at positions below
    /// `k`.
    pub open spec fn woken_below(self, k: int) -> MutexView {
        MutexView {
            waiters: Seq::new(
                self.waiters.len(),
                |i: int| notified_if(self.waiters[i], i < k && self.wakes(i)),
            ),
            ..self
        }
    }

    /// The view after all waiters that can make progress were notified.
    pub open spec fn after_wakeup(self) -> MutexView {
        self.woken_below(self.waiters.len() as int)
    }

    /// Whether the waiter at position `i` is the oldest queued writer.
    pub open spec fn first_writer(self, i: int) -> bool {
        &&& self.queued(i)
        &&& self.waiters[i].kind == EntryKind::Write
        &&& forall|j: int|
            0 <= j < i ==> !(self.queued(j) && self.waiters[j].kind == EntryKind::Write)
    }

    /// The view after the oldest queued writer was notified.
    pub open spec fn after_writer_wakeup(self) -> MutexView {
        MutexView {
            waiters: Seq::new(
                self.waiters.len(),
                |i: int| notified_if(self.waiters[i], self.first_writer(i)),
            ),
            ..self
        }
    }

    /// Whether the upgradable reader may turn its access into exclusive
    /// access right away: it is the only reader, and in a fair lock no
    /// writer or upgradable reader is waiting.
    pub open spec fn upgrade_sync_ok(self) -> bool {
        &&& !self.has_write
        &&& self.nb_reads == 1
        &&& self.is_fair ==> self.nb_waiting_writes == 0 && self.nb_waiting_upgrade_reads == 0
    }

    /// The view after a plain reader released its access: once no reader is
    /// left, the oldest queued writer is notified.
    pub open spec fn release_read(self) -> MutexView {
        let v = MutexView { nb_reads: (self.nb_reads - 1) as nat, ..self };
        if v.nb_reads == 0 {
            v.after_writer_wakeup()
        } else {
            v
        }
    }

    /// The view after the writer released its access.
    pub open spec fn release_write(self) -> MutexView {
        MutexView { has_write: false, ..self }.after_wakeup()
    }

    /// The view after the upgradable reader released its access.
    pub open spec fn release_upgrade_read(self) -> MutexView {
        MutexView {
            has_upgrade_read: false,
            nb_reads: (self.nb_reads - 1) as nat,
            ..self
        }.after_wakeup()
    }

    /// What polling `node` needs beyond consistency: the attempt was not
    /// completed yet, the counters can still grow, and a notified attempt of
    /// a fair lock finds its access free.
    pub open spec fn pollable(self, node: WaitNode) -> bool {
        &&& node.state != NodeState::Done
        &&& node.kind != EntryKind::Write ==> self.nb_reads < usize::MAX
        &&& self.counter(node.kind) < usize::MAX
        &&& node.state == NodeState::Registered && self.is_fair && self.waiters[self.pos(
            node.id,
        )].notified ==> self.free_for(node.kind)
    }

    /// Whether `node` is consistent with the lock: a new attempt is not
    /// registered yet, a registered one is recorded with its kind.
    pub open spec fn node_ok(self, node: WaitNode) -> bool {
        &&& node.id < self.next_id
        &&& node.state == NodeState::New ==> !self.has(node.id)
        &&& node.state == NodeState::Registered ==> self.has(node.id)
            && self.waiters[self.pos(node.id)].kind == node.kind
    }
}

/// Internal state of the lock
pub struct MutexState {
    is_fair: bool,
    nb_reads: usize,
    has_upgrade_read: bool,
    has_write: bool,
    /// The registered waiters, oldest first.
    waiters: Vec<Entry>,
    nb_waiting_writes: usize,
    nb_waiting_reads: usize,
    nb_waiting_upgrade_reads: usize,
    /// The id that the next lock attempt gets.
    next_id: u64,
}

impl Entry {
    spec fn view(self) -> WaiterView {
        WaiterView { id: self.id, kind: self.kind, notified: self.state == PollState::Notified }
    }

    /// Update the state & wakeup if possible.
    fn notify(&mut self)
        ensures
            final(self).id == old(self).id,
            final(self).kind == old(self).kind,
            final(self).state == PollState::Notified,
            final(self).task is None,
    {
        self.state = PollState::Notified;
        if let Some(waker) = self.task.take() {
            wake(waker);
        }
    }
}

impl View for MutexState {
    type V = MutexView;

    closed spec fn view(&self) -> MutexView {
        MutexView {
            is_fair: self.is_fair,
            nb_reads: self.nb_reads as nat,
            has_upgrade_read: self.has_upgrade_read,
            has_write: self.has_write,
            waiters: self.waiters@.map_values(|e: Entry| e.view()),
            nb_waiting_writes: self.nb_waiting_writes as nat,
            nb_waiting_reads: self.nb_waiting_reads as nat,
            nb_waiting_upgrade_reads: self.nb_waiting_upgrade_reads as nat,
            next_id: self.next_id as nat,
        }
    }
}


/// The outcome of polling a lock attempt `node` on a lock in state `v`:
/// the new state of the lock, the new state of the attempt, and whether the
/// access was granted.
///
/// A new attempt takes the access right away if it may (see `sync_ok`),
/// else it is queued. A waiting attempt of a fair lock keeps waiting until
/// it is notified; one of an unfair lock takes the access as soon as it is
/// free. A notified attempt takes the access if it is free, else (which can
/// only happen in an unfair lock) it is queued again as the newest waiter.
pub open spec fn lock_step(v: MutexView, node: WaitNode) -> (MutexView, NodeState, bool) {
    let kind = node.kind;
    let fresh = WaiterView { id: node.id, kind: kind, notified: false };
    if node.state == NodeState::New {
        if v.sync_ok(kind) {
            (v.acquire(kind), NodeState::Done, true)
        } else {
            (v.enqueue(fresh, node.is_upgrade), NodeState::Registered, false)
        }
    } else {
        let i = v.pos(node.id);
        if !v.waiters[i].notified {
            if !v.is_fair && v.free_for(kind) {
                (v.dequeue(i).acquire(kind), NodeState::Done, true)
            } else {
                (v, NodeState::Registered, false)
            }
        } else if v.free_for(kind) {
            (v.unregister(i).acquire(kind), NodeState::Done, true)
        } else {
            (v.detach(i).enqueue(fresh, node.is_upgrade), NodeState::Registered, false)
        }
    }
}

/// How polling the attempt `node` on a lock in state `v` relates to its
/// result: the lock in state `n`, the attempt in state `st`, and whether the
/// access was `granted`. A granted access was free, is held now, and the
/// attempt leaves no record at the lock; otherwise the holders of the lock
/// are as they were and the attempt waits in the queue.
pub open spec fn attempt_outcome(
    v: MutexView,
    node: WaitNode,
    n: MutexView,
    st: NodeState,
    granted: bool,
) -> bool {
    let a = v.acquire(node.kind);
    &&& granted ==> v.free_for(node.kind) && st == NodeState::Done && !n.has(node.id)
        && n.has_write == a.has_write && n.nb_reads == a.nb_reads && n.has_upgrade_read
        == a.has_upgrade_read
    &&& !granted ==> st == NodeState::Registered && n.has(node.id) && n.has_write == v.has_write
        && n.nb_reads == v.nb_reads && n.has_upgrade_read == v.has_upgrade_read
}

/// The state of the lock after the attempt `node` was given up. A waiting
/// attempt just leaves; a notified one passes its notification on to the
/// waiters that can now make progress.
pub open spec fn give_up_step(v: MutexView, node: WaitNode) -> MutexView {
    if node.state == NodeState::Registered {
        let i = v.pos(node.id);
        if v.waiters[i].notified {
            v.unregister(i).after_wakeup()
        } else {
            v.unregister(i)
        }
    } else {
        v
    }
}

proof fn lemma_count_remove(ws: Seq<WaiterView>, is_fair: bool, kind: EntryKind, i: int)
    requires
        0 <= i < ws.len(),
    ensures
        count_queued(ws, is_fair, kind) == count_queued(ws.remove(i), is_fair, kind) + if counts(
            ws[i],
            is_fair,
            kind,
        ) {
            1nat
        } else {
            0nat
        },
    decreases ws.len(),
{
    if i == ws.len() - 1 {
        assert(ws.remove(i) =~= ws.drop_last());
    } else {
        lemma_count_remove(ws.drop_last(), is_fair, kind, i);
        assert(ws.remove(i).drop_last() =~= ws.drop_last().remove(i));
        assert(ws.remove(i).last() == ws.last());
    }
}

proof fn lemma_count_push(ws: Seq<WaiterView>, is_fair: bool, kind: EntryKind, w: WaiterView)
    ensures
        count_queued(ws.push(w), is_fair, kind) == count_queued(ws, is_fair, kind) + if counts(
            w,
            is_fair,
            kind,
        ) {
            1nat
        } else {
            0nat
        },
{
    assert(ws.push(w).drop_last() =~= ws);
}

proof fn lemma_count_prepend(ws: Seq<WaiterView>, is_fair: bool, kind: EntryKind, w: WaiterView)
    ensures
        count_queued(seq![w] + ws, is_fair, kind) == count_queued(ws, is_fair, kind) + if counts(
            w,
            is_fair,
            kind,
        ) {
            1nat
        } else {
            0nat
        },
    decreases ws.len(),
{
    if ws.len() == 0 {
        assert((seq![w] + ws).drop_last() =~= ws);
    } else {
        lemma_count_prepend(ws.drop_last(), is_fair, kind, w);
        assert((seq![w] + ws).drop_last() =~= seq![w] + ws.drop_last());
        assert((seq![w] + ws).last() == ws.last());
    }
}

/// Fewer counted waiters, position by position, give a smaller count.
proof fn lemma_count_le(ws1: Seq<WaiterView>, ws2: Seq<WaiterView>, is_fair: bool, kind: EntryKind)
    requires
        ws1.len() == ws2.len(),
        forall|i: int|
            0 <= i < ws1.len() && #[trigger] counts(ws2[i], is_fair, kind) ==> counts(
                ws1[i],
                is_fair,
                kind,
            ),
    ensures
        count_queued(ws2, is_fair, kind) <= count_queued(ws1, is_fair, kind),
        (forall|i: int|
            0 <= i < ws1.len() ==> #[trigger] counts(ws2[i], is_fair, kind) == counts(
                ws1[i],
                is_fair,
                kind,
            )) ==> count_queued(ws2, is_fair, kind) == count_queued(ws1, is_fair, kind),
    decreases ws1.len(),
{
    if ws1.len() > 0 {
        let n = ws1.len() - 1;
        assert(counts(ws2[n], is_fair, kind) ==> counts(ws1[n], is_fair, kind));
        lemma_count_le(ws1.drop_last(), ws2.drop_last(), is_fair, kind);
        if forall|i: int|
            0 <= i < ws1.len() ==> #[trigger] counts(ws2[i], is_fair, kind) == counts(
                ws1[i],
                is_fair,
                kind,
            ) {
            assert(counts(ws2[n], is_fair, kind) == counts(ws1[n], is_fair, kind));
            assert forall|i: int| 0 <= i < ws1.drop_last().len() implies #[trigger] counts(
                ws2.drop_last()[i],
                is_fair,
                kind,
            ) == counts(ws1.drop_last()[i], is_fair, kind) by {
                assert(counts(ws2[i], is_fair, kind) == counts(ws1[i], is_fair, kind));
            }
        }
    }
}

/// Once the wakeup scan has stopped, it stays stopped.
proof fn lemma_scan_stopped(v: MutexView, i: int, j: int)
    requires
        0 <= i <= j,
        v.scan(i).2,
    ensures
        v.scan(j).2,
    decreases j - i,
{
    if j > i {
        lemma_scan_stopped(v, i, j - 1);
    }
}


/// Marking waiters as notified keeps the lock invariant.
proof fn lemma_marking_keeps_inv(v: MutexView, ws: Seq<WaiterView>)
    requires
        v.inv(),
        ws.len() == v.waiters.len(),
        forall|i: int|
            0 <= i < ws.len() ==> (#[trigger] ws[i]).id == v.waiters[i].id && ws[i].kind
                == v.waiters[i].kind && (v.waiters[i].notified ==> ws[i].notified),
    ensures
        (MutexView { waiters: ws, ..v }).inv(),
{
    let u = MutexView { waiters: ws, ..v };
    assert forall|k: EntryKind| #[trigger] u.count(k) <= v.count(k) && (v.is_fair ==> u.count(k)
        == v.count(k)) by {
        assert forall|i: int| 0 <= i < ws.len() && #[trigger] counts(ws[i], v.is_fair, k) implies counts(
            v.waiters[i],
            v.is_fair,
            k,
        ) by {}
        if v.is_fair {
            assert forall|i: int| 0 <= i < ws.len() implies #[trigger] counts(ws[i], v.is_fair, k)
                == counts(v.waiters[i], v.is_fair, k) by {}
        }
        lemma_count_le(v.waiters, ws, v.is_fair, k);
    }
    assert(u.count(EntryKind::Write) <= v.count(EntryKind::Write));
    assert(u.count(EntryKind::Read) <= v.count(EntryKind::Read));
    assert(u.count(EntryKind::UpgradeRead) <= v.count(EntryKind::UpgradeRead));
}

impl MutexState {
    /// Well-formedness: the lock invariant holds, and each recorded waiter
    /// is either waiting, holding the waker of its task, or notified, its
    /// waker having been taken to wake the task.
    pub closed spec fn wf(&self) -> bool {
        &&& self@.inv()
        &&& forall|i: int|
            0 <= i < self.waiters@.len() ==> ((#[trigger] self.waiters@[i]).state
                == PollState::Waiting && self.waiters@[i].task is Some) || (
            self.waiters@[i].state == PollState::Notified && self.waiters@[i].task is None)
    }

    /// Whether the waiter at position `i` holds a waker of its task.
    pub closed spec fn holds_waker(&self, i: int) -> bool {
        self.waiters@[i].task is Some
    }

    /// Creates the state of an unlocked lock without waiters.
    pub fn new(is_fair: bool) -> (state: Self)
        ensures
            state.wf(),
            state@ == (MutexView {
                is_fair,
                nb_reads: 0,
                has_upgrade_read: false,
                has_write: false,
                waiters: Seq::empty(),
                nb_waiting_writes: 0,
                nb_waiting_reads: 0,
                nb_waiting_upgrade_reads: 0,
                next_id: 0,
            }),
    {
        let state = MutexState {
            is_fair,
            nb_reads: 0,
            has_upgrade_read: false,
            has_write: false,
            waiters: Vec::new(),
            nb_waiting_writes: 0,
            nb_waiting_reads: 0,
            nb_waiting_upgrade_reads: 0,
            next_id: 0,
        };
        assert(state@.waiters =~= Seq::<WaiterView>::empty());
        state
    }

    /// Returns whether the lock is held for exclusive access.
    pub fn is_exclusive(&self) -> (exclusive: bool)
        ensures
            exclusive == self@.has_write,
    {
        self.has_write
    }

    /// Returns the number of shared read accesses currently held.
    pub fn nb_readers(&self) -> (readers: usize)
        ensures
            readers == self@.nb_reads,
    {
        self.nb_reads
    }

    /// Returns whether the lock is fair.
    pub fn is_fair(&self) -> (fair: bool)
        ensures
            fair == self@.is_fair,
    {
        self.is_fair
    }

    /// Notifies every waiter that can make progress now, scanning the queue
    /// from the oldest waiter on (see `MutexView::wakes`).
    fn wakeup_any_waiters(&mut self)
        requires
            old(self).wf(),
        ensures
            final(self).wf(),
            final(self)@ == old(self)@.after_wakeup(),
    {
        let ghost o = self@;
        let len = self.waiters.len();
        let mut readers = self.nb_reads > 0;
        let mut upgrade = self.has_upgrade_read;
        let mut stopped = false;
        let mut i: usize = 0;
        assert(self@ =~= o.woken_below(0));
        while i < len && !stopped
            invariant
                len == self.waiters@.len(),
                len == o.waiters.len(),
                i <= len,
                (readers, upgrade, stopped) == o.scan(i as int),
                self@ == o.woken_below(i as int),
                forall|j: int|
                    0 <= j < self.waiters@.len() ==> ((#[trigger] self.waiters@[j]).state
                        == PollState::Waiting && self.waiters@[j].task is Some) || (
                    self.waiters@[j].state == PollState::Notified && self.waiters@[j].task is None),
            decreases len - i,
        {
            let queued = self.is_fair || self.waiters[i].state == PollState::Waiting;
            let ghost before = self@;
            assert(before.waiters[i as int] == o.waiters[i as int]);
            let mut notify = false;
            if queued {
                match self.waiters[i].kind {
                    EntryKind::Read => {
                        notify = true;
                        readers = true;
                    },
                    EntryKind::UpgradeRead => {
                        if !upgrade {
                            notify = true;
                            readers = true;
                            upgrade = true;
                        }
                    },
                    EntryKind::Write => {
                        if !readers {
                            notify = true;
                            stopped = true;
                        }
                    },
                }
            }
            assert(notify == o.wakes(i as int));
            let ghost before_w = self.waiters@;
            if notify {
                self.waiters[i].notify();
            }
            assert(self.waiters@.len() == before_w.len());
            assert forall|j: int| 0 <= j < len && j != i implies self.waiters@[j] == before_w[j] by {}
            assert(self.waiters@[i as int].view() == notified_if(o.waiters[i as int], notify));
            i = i + 1;
            assert forall|j: int| 0 <= j < len implies self@.waiters[j] == o.woken_below(
                i as int,
            ).waiters[j] by {
                if j != i - 1 {
                    assert(self.waiters@[j] == before_w[j]);
                    assert(before.waiters[j] == o.woken_below(i - 1).waiters[j]);
                }
            }
            assert(self@.waiters =~= o.woken_below(i as int).waiters);
        }
        if stopped {
            assert forall|j: int| i <= j < len implies !o.wakes(j) by {
                lemma_scan_stopped(o, i as int, j);
            }
        }
        assert(self@ =~= o.after_wakeup());
        proof {
            lemma_marking_keeps_inv(o, o.after_wakeup().waiters);
        }
    }

    /// Notifies the oldest queued writer, if there is one.
    fn wakeup_first_writer(&mut self)
        requires
            old(self).wf(),
        ensures
            final(self).wf(),
            final(self)@ == old(self)@.after_writer_wakeup(),
    {
        let ghost o = self@;
        let len = self.waiters.len();
        let mut i: usize = 0;
        while i < len
            invariant
                self@ == o,
                o == old(self)@,
                self.wf(),
                len == self.waiters@.len(),
                i <= len,
                forall|j: int|
                    0 <= j < i ==> !(o.queued(j) && o.waiters[j].kind == EntryKind::Write),
            decreases len - i,
        {
            if (self.is_fair || self.waiters[i].state == PollState::Waiting)
                && self.waiters[i].kind == EntryKind::Write {
                let ghost before_w = self.waiters@;
                assert(o.first_writer(i as int));
                self.waiters[i].notify();
                assert forall|j: int| 0 <= j < len implies self@.waiters[j]
                    == o.after_writer_wakeup().waiters[j] by {
                    if j != i {
                        assert(self.waiters@[j] == before_w[j]);
                        if j > i {
                            assert(!o.first_writer(j));
                        }
                    }
                }
                assert(self@ =~= o.after_writer_wakeup());
                proof {
                    lemma_marking_keeps_inv(o, o.after_writer_wakeup().waiters);
                }
                return;
            }
            i = i + 1;
        }
        assert(self@ =~= o.after_writer_wakeup());
    }

    /// Reduce the number of reads on the lock by one, waking
    /// up the oldest waiting writer if no reader is left.
    pub fn unlock_read(&mut self)
        requires
            old(self).wf(),
            old(self)@.nb_reads > (if old(self)@.has_upgrade_read {
                1nat
            } else {
                0nat
            }),
        ensures
            final(self).wf(),
            final(self)@ == old(self)@.release_read(),
    {
        self.nb_reads = self.nb_reads - 1;
        if self.nb_reads == 0 {
            // Wakeup the next write in line.
            self.wakeup_first_writer();
        }
    }

    /// Release the exclusive writer lock, waking up the waiters that can
    /// make progress.
    pub fn unlock_write(&mut self)
        requires
            old(self).wf(),
            old(self)@.has_write,
        ensures
            final(self).wf(),
            final(self)@ == old(self)@.release_write(),
    {
        self.has_write = false;
        self.wakeup_any_waiters()
    }

    /// Release the upgradable reader lock, waking up the waiters that can
    /// make progress, among them the next upgradable reader.
    pub fn unlock_upgrade_read(&mut self)
        requires
            old(self).wf(),
            old(self)@.has_upgrade_read,
        ensures
            final(self).wf(),
            final(self)@ == old(self)@.release_upgrade_read(),
    {
        self.has_upgrade_read = false;
        self.nb_reads = self.nb_reads - 1;
        self.wakeup_any_waiters();
    }

    /// Release the upgradable reader lock to upgrade it into a writer lock.
    /// A fair lock wakes up waiters if no reader is left; an unfair one does
    /// not wake up anyone.
    pub fn unlock_upgrade_read_for_upgrade(&mut self)
        requires
            old(self).wf(),
            old(self)@.has_upgrade_read,
        ensures
            final(self).wf(),
            final(self)@ == ({
                let v = MutexView {
                    has_upgrade_read: false,
                    nb_reads: (old(self)@.nb_reads - 1) as nat,
                    ..old(self)@
                };
                if v.nb_reads == 0 && v.is_fair {
                    v.after_wakeup()
                } else {
                    v
                }
            }),
    {
        self.has_upgrade_read = false;
        self.nb_reads = self.nb_reads - 1;
        if self.nb_reads == 0 && self.is_fair {
            self.wakeup_any_waiters();
        }
    }

    /// Attempt To gain shared read access.
    ///
    /// Returns true if the access is obtained.
    pub fn try_lock_read_sync(&mut self) -> (locked: bool)
        requires
            old(self).wf(),
            old(self)@.sync_ok(EntryKind::Read) ==> old(self)@.nb_reads < usize::MAX,
        ensures
            final(self).wf(),
            locked == old(self)@.sync_ok(EntryKind::Read),
            final(self)@ == if locked {
                old(self)@.acquire(EntryKind::Read)
            } else {
                old(self)@
            },
    {
        // The lock can only be obtained synchronously if
        // - has no write
        // - the lock is either not fair, or there are no waiting writes.
        if !self.has_write && (!self.is_fair || self.nb_waiting_writes == 0) {
            self.nb_reads = self.nb_reads + 1;
            true
        } else {
            false
        }
    }

    /// Attempt To gain upgradable shared read access.
    ///
    /// Returns true if the access is obtained.
    pub fn try_lock_upgrade_read_sync(&mut self) -> (locked: bool)
        requires
            old(self).wf(),
            old(self)@.sync_ok(EntryKind::UpgradeRead) ==> old(self)@.nb_reads < usize::MAX,
        ensures
            final(self).wf(),
            locked == old(self)@.sync_ok(EntryKind::UpgradeRead),
            final(self)@ == if locked {
                old(self)@.acquire(EntryKind::UpgradeRead)
            } else {
                old(self)@
            },
    {
        // The lock can only be obtained synchronously if
        // - has no write
        // - the lock is either not fair, or there are no waiting writes
        //   or upgradable reads
        if !self.has_write && !self.has_upgrade_read && (!self.is_fair || (self.nb_waiting_writes
            == 0 && self.nb_waiting_upgrade_reads == 0)) {
            self.nb_reads = self.nb_reads + 1;
            self.has_upgrade_read = true;
            true
        } else {
            false
        }
    }

    /// Attempt to gain exclusive write access.
    ///
    /// Returns true if the access is obtained.
    pub fn try_lock_write_sync(&mut self) -> (locked: bool)
        requires
            old(self).wf(),
        ensures
            final(self).wf(),
            locked == old(self)@.sync_ok(EntryKind::Write),
            final(self)@ == if locked {
                old(self)@.acquire(EntryKind::Write)
            } else {
                old(self)@
            },
    {
        // The lock can only be obtained synchronously if
        // - has no write
        // - has no read
        // - the lock is either not fair, or there are no waiting writes.
        if !self.has_write && self.nb_reads == 0 && (!self.is_fair || (self.nb_waiting_writes == 0
            && self.nb_waiting_upgrade_reads == 0)) {
            self.has_write = true;
            true
        } else {
            false
        }
    }

    /// Attempt to turn the upgradable read access, which the caller holds,
    /// into exclusive write access.
    ///
    /// Returns true if the access is obtained.
    pub fn try_upgrade_read_sync(&mut self) -> (upgraded: bool)
        requires
            old(self).wf(),
            old(self)@.has_upgrade_read,
        ensures
            final(self).wf(),
            upgraded == old(self)@.upgrade_sync_ok(),
            final(self)@ == if upgraded {
                MutexView {
                    has_write: true,
                    nb_reads: 0,
                    has_upgrade_read: false,
                    ..old(self)@
                }
            } else {
                old(self)@
            },
    {
        // The lock can only be obtained synchronously if
        // - has no write
        // - has 1 read (the caller)
        // - the lock is either not fair, or there are no waiting writes.
        if !self.has_write && self.nb_reads == 1 && (!self.is_fair || (self.nb_waiting_writes == 0
            && self.nb_waiting_upgrade_reads == 0)) {
            self.has_write = true;
            self.nb_reads = self.nb_reads - 1;
            self.has_upgrade_read = false;
            true
        } else {
            false
        }
    }

    /// Finds the position of the registered waiter with the given id.
    fn position(&self, id: u64) -> (i: usize)
        requires
            self.wf(),
            self@.has(id),
        ensures
            i == self@.pos(id),
            i < self@.waiters.len(),
    {
        let ghost v = self@;
        let mut i: usize = 0;
        while i < self.waiters.len()
            invariant
                v == self@,
                v.has(id),
                v.inv(),
                i <= self.waiters@.len(),
                forall|j: int| 0 <= j < i ==> self.waiters@[j].id != id,
            decreases self.waiters@.len() - i,
        {
            if self.waiters[i].id == id {
                assert(v.waiters[i as int].id == id);
                let ghost p = v.pos(id);
                assert(v.waiters[p].id == id);
                return i;
            }
            i = i + 1;
        }
        assert(v.waiters[v.pos(id)].id == id);
        assert(false);
        0
    }

    /// Adds a waiter to the wait queue: as the newest waiter, or as the
    /// oldest one if it is the write attempt of an upgradable reader.
    #[verifier::rlimit(30)]
    fn add_waiter(&mut self, node: &WaitNode, waker: &Waker)
        requires
            old(self).wf(),
            !old(self)@.has(node.id),
            node.id < old(self)@.next_id,
            old(self)@.counter(node.kind) < usize::MAX,
        ensures
            final(self).wf(),
            final(self)@ == old(self)@.enqueue(
                WaiterView { id: node.id, kind: node.kind, notified: false },
                node.is_upgrade,
            ),
    {
        let ghost o = self@;
        let ghost w = WaiterView { id: node.id, kind: node.kind, notified: false };
        let entry = Entry {
            id: node.id,
            kind: node.kind,
            state: PollState::Waiting,
            task: Some(clone_waker(waker)),
        };
        assert(entry.view() == w);
        if node.is_upgrade {
            self.waiters.insert(0, entry);
            assert(self@.waiters =~= seq![w] + o.waiters);
        } else {
            self.waiters.push(entry);
            assert(self@.waiters =~= o.waiters.push(w));
        }
        match node.kind {
            EntryKind::Write => self.nb_waiting_writes = self.nb_waiting_writes + 1,
            EntryKind::Read => self.nb_waiting_reads = self.nb_waiting_reads + 1,
            EntryKind::UpgradeRead => self.nb_waiting_upgrade_reads = self.nb_waiting_upgrade_reads
                + 1,
        }
        assert(self@ =~= o.enqueue(w, node.is_upgrade));
        proof {
            let n = self@;
            assert forall|k: EntryKind| #[trigger] n.count(k) == o.count(k) + if counts(
                w,
                o.is_fair,
                k,
            ) {
                1nat
            } else {
                0nat
            } by {
                if node.is_upgrade {
                    lemma_count_prepend(o.waiters, o.is_fair, k, w);
                } else {
                    lemma_count_push(o.waiters, o.is_fair, k, w);
                }
            }
            assert forall|a: int| 0 <= a < n.waiters.len() implies (#[trigger] n.waiters[a]).id < n.next_id by {
                if node.is_upgrade {
                    if a > 0 {
                        assert(n.waiters[a] == o.waiters[a - 1]);
                    }
                } else if a < o.waiters.len() {
                    assert(n.waiters[a] == o.waiters[a]);
                }
            }
            assert forall|a: int, b: int| 0 <= a < b < n.waiters.len() implies n.waiters[a].id
                != n.waiters[b].id by {
                if node.is_upgrade {
                    if a > 0 {
                        assert(n.waiters[a] == o.waiters[a - 1]);
                    }
                    assert(n.waiters[b] == o.waiters[b - 1]);
                } else {
                    if b < o.waiters.len() {
                        assert(n.waiters[b] == o.waiters[b]);
                    }
                    assert(n.waiters[a] == o.waiters[a]);
                }
            }
        }
    }

    /// Removes the queued waiter at position `i` from the wait queue.
    fn force_remove(&mut self, i: usize)
        requires
            old(self).wf(),
            i < old(self)@.waiters.len(),
            old(self)@.queued(i as int),
        ensures
            final(self).wf(),
            final(self)@ == old(self)@.dequeue(i as int),
    {
        let ghost o = self@;
        let entry = self.waiters.remove(i);
        assert(self@.waiters =~= o.waiters.remove(i as int));
        proof {
            assert forall|k: EntryKind| true implies #[trigger] o.count(k) == self@.count(k) + if counts(
                o.waiters[i as int],
                o.is_fair,
                k,
            ) {
                1nat
            } else {
                0nat
            } by {
                lemma_count_remove(o.waiters, o.is_fair, k, i as int);
            }
        }
        match entry.kind {
            EntryKind::Write => {
                assert(o.count(EntryKind::Write) >= 1);
                self.nb_waiting_writes = self.nb_waiting_writes - 1;
            },
            EntryKind::Read => {
                assert(o.count(EntryKind::Read) >= 1);
                self.nb_waiting_reads = self.nb_waiting_reads - 1;
            },
            EntryKind::UpgradeRead => {
                assert(o.count(EntryKind::UpgradeRead) >= 1);
                self.nb_waiting_upgrade_reads = self.nb_waiting_upgrade_reads - 1;
            },
        }
        assert(self@ =~= o.dequeue(i as int));
    }

    /// Drops the record of the notified waiter at position `i` of an unfair
    /// lock, which is no longer part of the queue.
    fn detach(&mut self, i: usize)
        requires
            old(self).wf(),
            i < old(self)@.waiters.len(),
            !old(self)@.queued(i as int),
        ensures
            final(self).wf(),
            final(self)@ == old(self)@.detach(i as int),
    {
        let ghost o = self@;
        let _entry = self.waiters.remove(i);
        assert(self@.waiters =~= o.waiters.remove(i as int));
        assert(self@ =~= o.detach(i as int));
        proof {
            assert forall|k: EntryKind| true implies #[trigger] o.count(k) == self@.count(k) by {
                lemma_count_remove(o.waiters, o.is_fair, k, i as int);
            }
        }
    }

    /// Grants the access of a kind.
    fn acquire(&mut self, kind: EntryKind)
        requires
            old(self).wf(),
            old(self)@.free_for(kind),
            kind != EntryKind::Write ==> old(self)@.nb_reads < usize::MAX,
        ensures
            final(self).wf(),
            final(self)@ == old(self)@.acquire(kind),
    {
        match kind {
            EntryKind::Read => {
                self.nb_reads = self.nb_reads + 1;
            },
            EntryKind::UpgradeRead => {
                self.nb_reads = self.nb_reads + 1;
                self.has_upgrade_read = true;
            },
            EntryKind::Write => {
                self.has_write = true;
            },
        }
    }

    /// Tries to acquire the access that `node` asks for.
    ///
    /// If it isn't available, the attempt gets added to the wait queue at the
    /// lock, and will be signalled once ready.
    fn try_lock(&mut self, node: &mut WaitNode, waker: &Waker) -> (res: Poll<()>)
        requires
            old(self).wf(),
            old(self)@.node_ok(*old(node)),
            old(self)@.pollable(*old(node)),
        ensures
            final(self).wf(),
            final(self)@.node_ok(*final(node)),
            final(node).id == old(node).id,
            final(node).kind == old(node).kind,
            final(node).is_upgrade == old(node).is_upgrade,
            final(self)@ == lock_step(old(self)@, *old(node)).0,
            final(node).state == lock_step(old(self)@, *old(node)).1,
            (res is Ready) == lock_step(old(self)@, *old(node)).2,
            final(self)@.inv(),
            attempt_outcome(old(self)@, *old(node), final(self)@, final(node).state, res is Ready),
    {
        let ghost o = self@;
        proof {
            lock_attempt_outcome(o, *node);
        }
        let kind = node.kind;
        match node.state {
            NodeState::New => {
                // The fast path - the lock isn't held by anyone else.
                // If the lock is fair, noone must be in the wait list before us.
                let locked = match kind {
                    EntryKind::Read => self.try_lock_read_sync(),
                    EntryKind::UpgradeRead => self.try_lock_upgrade_read_sync(),
                    EntryKind::Write => self.try_lock_write_sync(),
                };
                if locked {
                    node.state = NodeState::Done;
                    Poll::Ready(())
                } else {
                    // Add the task to the wait queue
                    self.add_waiter(node, waker);
                    node.state = NodeState::Registered;
                    proof {
                        assert(self@.waiters[self@.pos(node.id)].id == node.id);
                        if node.is_upgrade {
                            assert(self@.waiters[0].id == node.id);
                        } else {
                            assert(self@.waiters[o.waiters.len() as int].id == node.id);
                        }
                    }
                    Poll::Pending
                }
            },
            NodeState::Registered => {
                let i = self.position(node.id);
                let free = match kind {
                    EntryKind::Read => !self.has_write,
                    EntryKind::UpgradeRead => !self.has_write && !self.has_upgrade_read,
                    EntryKind::Write => !self.has_write && self.nb_reads == 0,
                };
                if self.waiters[i].state == PollState::Waiting {
                    // The attempt is already in the queue.
                    if !self.is_fair && free {
                        // For throughput improvement purposes, grab the lock immediately
                        // if it's available.
                        self.force_remove(i);
                        self.acquire(kind);
                        node.state = NodeState::Done;
                        Poll::Ready(())
                    } else {
                        // The task needs to wait until it gets notified. However the caller
                        // might have passed a different `Waker`. In this case we need to
                        // update it.
                        let ghost before_w = self.waiters@;
                        update_waker_ref(&mut self.waiters[i].task, waker);
                        assert(self.waiters@.map_values(|e: Entry| e.view()) =~= before_w.map_values(
                            |e: Entry| e.view(),
                        ));
                        Poll::Pending
                    }
                } else if free {
                    // We had been woken by the lock, since the lock is available again.
                    if self.is_fair {
                        // In a fair lock, the entry is kept in the queue and must be removed
                        // here.
                        self.force_remove(i);
                    } else {
                        self.detach(i);
                    }
                    self.acquire(kind);
                    node.state = NodeState::Done;
                    Poll::Ready(())
                } else {
                    // Only an unfair lock gets here: the access was taken by somebody
                    // else after the notification. Queue again.
                    self.detach(i);
                    proof {
                        assert forall|j: int| 0 <= j < self@.waiters.len() implies self@.waiters[j].id
                            != node.id by {
                            if j < i {
                                assert(self@.waiters[j] == o.waiters[j]);
                            } else {
                                assert(self@.waiters[j] == o.waiters[j + 1]);
                            }
                        }
                    }
                    self.add_waiter(node, waker);
                    proof {
                        if node.is_upgrade {
                            assert(self@.waiters[0].id == node.id);
                        } else {
                            assert(self@.waiters[self@.waiters.len() - 1].id == node.id);
                        }
                    }
                    Poll::Pending
                }
            },
            NodeState::Done => {
                // The future had been polled to completion before: excluded by the
                // precondition.
                Poll::Pending
            },
        }
    }

    /// Tries to acquire the shared read access for `node`.
    ///
    /// If it isn't available, the attempt gets added to the wait queue at the
    /// lock, and will be signalled once ready. See `lock_step` for the exact
    /// outcome.
    pub fn try_lock_read(&mut self, node: &mut WaitNode, waker: &Waker) -> (res: Poll<()>)
        requires
            old(self).wf(),
            old(node).kind == EntryKind::Read,
            old(self)@.node_ok(*old(node)),
            old(self)@.pollable(*old(node)),
        ensures
            final(self).wf(),
            final(self)@.node_ok(*final(node)),
            final(node).id == old(node).id,
            final(node).kind == old(node).kind,
            final(node).is_upgrade == old(node).is_upgrade,
            final(self)@ == lock_step(old(self)@, *old(node)).0,
            final(node).state == lock_step(old(self)@, *old(node)).1,
            (res is Ready) == lock_step(old(self)@, *old(node)).2,
            final(self)@.inv(),
            attempt_outcome(old(self)@, *old(node), final(self)@, final(node).state, res is Ready),
    {
        self.try_lock(node, waker)
    }

    /// Tries to acquire the exclusive write access for `node`.
    ///
    /// If it isn't available, the attempt gets added to the wait queue at the
    /// lock, and will be signalled once ready. See `lock_step` for the exact
    /// outcome.
    pub fn try_lock_write(&mut self, node: &mut WaitNode, waker: &Waker) -> (res: Poll<()>)
        requires
            old(self).wf(),
            old(node).kind == EntryKind::Write,
            old(self)@.node_ok(*old(node)),
            old(self)@.pollable(*old(node)),
        ensures
            final(self).wf(),
            final(self)@.node_ok(*final(node)),
            final(node).id == old(node).id,
            final(node).kind == old(node).kind,
            final(node).is_upgrade == old(node).is_upgrade,
            final(self)@ == lock_step(old(self)@, *old(node)).0,
            final(node).state == lock_step(old(self)@, *old(node)).1,
            (res is Ready) == lock_step(old(self)@, *old(node)).2,
            final(self)@.inv(),
            attempt_outcome(old(self)@, *old(node), final(self)@, final(node).state, res is Ready),
    {
        self.try_lock(node, waker)
    }

    /// Tries to acquire the upgradable shared read access for `node`.
    ///
    /// If it isn't available, the attempt gets added to the wait queue at the
    /// lock, and will be signalled once ready. See `lock_step` for the exact
    /// outcome.
    pub fn try_lock_upgrade_read(&mut self, node: &mut WaitNode, waker: &Waker) -> (res: Poll<
        (),
    >)
        requires
            old(self).wf(),
            old(node).kind == EntryKind::UpgradeRead,
            old(self)@.node_ok(*old(node)),
            old(self)@.pollable(*old(node)),
        ensures
            final(self).wf(),
            final(self)@.node_ok(*final(node)),
            final(node).id == old(node).id,
            final(node).kind == old(node).kind,
            final(node).is_upgrade == old(node).is_upgrade,
            final(self)@ == lock_step(old(self)@, *old(node)).0,
            final(node).state == lock_step(old(self)@, *old(node)).1,
            (res is Ready) == lock_step(old(self)@, *old(node)).2,
            final(self)@.inv(),
            attempt_outcome(old(self)@, *old(node), final(self)@, final(node).state, res is Ready),
    {
        self.try_lock(node, waker)
    }

    /// Removes the attempt `node` from the lock, when its task gives up.
    /// If the attempt had been notified, the waiters that can now make
    /// progress are notified instead.
    fn remove_waiter(&mut self, node: &mut WaitNode)
        requires
            old(self).wf(),
            old(self)@.node_ok(*old(node)),
        ensures
            final(self).wf(),
            final(self)@ == give_up_step(old(self)@, *old(node)),
            final(node).id == old(node).id,
            final(node).kind == old(node).kind,
            final(node).is_upgrade == old(node).is_upgrade,
            final(node).state == if old(node).state == NodeState::Registered {
                NodeState::Done
            } else {
                old(node).state
            },
    {
        match node.state {
            NodeState::Registered => {
                let i = self.position(node.id);
                if self.waiters[i].state == PollState::Waiting {
                    // Remove the entry from the queue
                    self.force_remove(i);
                } else {
                    if self.is_fair {
                        // In a fair lock, the entry is kept in the queue and must be
                        // removed here
                        self.force_remove(i);
                    } else {
                        self.detach(i);
                    }
                    // Since the task was notified but did not take the access,
                    // other tasks get the chance to run.
                    self.wakeup_any_waiters();
                }
                node.state = NodeState::Done;
            },
            NodeState::New | NodeState::Done => {},
        }
    }

    /// Removes the read attempt `node` from the wait queue, when its task gives up.
    pub fn remove_read(&mut self, node: &mut WaitNode)
        requires
            old(self).wf(),
            old(node).kind == EntryKind::Read,
            old(self)@.node_ok(*old(node)),
        ensures
            final(self).wf(),
            final(self)@ == give_up_step(old(self)@, *old(node)),
            final(node).id == old(node).id,
            final(node).kind == old(node).kind,
            final(node).is_upgrade == old(node).is_upgrade,
            final(node).state == if old(node).state == NodeState::Registered {
                NodeState::Done
            } else {
                old(node).state
            },
    {
        self.remove_waiter(node)
    }

    /// Removes the write attempt `node` from the wait queue, when its task gives up.
    pub fn remove_write(&mut self, node: &mut WaitNode)
        requires
            old(self).wf(),
            old(node).kind == EntryKind::Write,
            old(self)@.node_ok(*old(node)),
        ensures
            final(self).wf(),
            final(self)@ == give_up_step(old(self)@, *old(node)),
            final(node).id == old(node).id,
            final(node).kind == old(node).kind,
            final(node).is_upgrade == old(node).is_upgrade,
            final(node).state == if old(node).state == NodeState::Registered {
                NodeState::Done
            } else {
                old(node).state
            },
    {
        self.remove_waiter(node)
    }

    /// Removes the upgradable read attempt `node` from the wait queue, when
    /// its task gives up.
    pub fn remove_upgrade_read(&mut self, node: &mut WaitNode)
        requires
            old(self).wf(),
            old(node).kind == EntryKind::UpgradeRead,
            old(self)@.node_ok(*old(node)),
        ensures
            final(self).wf(),
            final(self)@ == give_up_step(old(self)@, *old(node)),
            final(node).id == old(node).id,
            final(node).kind == old(node).kind,
            final(node).is_upgrade == old(node).is_upgrade,
            final(node).state == if old(node).state == NodeState::Registered {
                NodeState::Done
            } else {
                old(node).state
            },
    {
        self.remove_waiter(node)
    }

    /// Creates a new attempt for the given kind of access, with an id that
    /// no attempt at this lock had before.
    pub fn new_node(&mut self, kind: EntryKind) -> (node: WaitNode)
        requires
            old(self).wf(),
            old(self)@.next_id < u64::MAX,
        ensures
            final(self).wf(),
            final(self)@ == (MutexView { next_id: old(self)@.next_id + 1, ..old(self)@ }),
            node.id == old(self)@.next_id,
            node.kind == kind,
            !node.is_upgrade,
            node.state == NodeState::New,
            final(self)@.node_ok(node),
    {
        let id = self.next_id;
        self.next_id = self.next_id + 1;
        WaitNode::new(id, kind)
    }

    /// Creates the write attempt of the upgradable reader, with an id that
    /// no attempt at this lock had before.
    pub fn new_upgrade_node(&mut self) -> (node: WaitNode)
        requires
            old(self).wf(),
            old(self)@.next_id < u64::MAX,
        ensures
            final(self).wf(),
            final(self)@ == (MutexView { next_id: old(self)@.next_id + 1, ..old(self)@ }),
            node.id == old(self)@.next_id,
            node.kind == EntryKind::Write,
            node.is_upgrade,
            node.state == NodeState::New,
            final(self)@.node_ok(node),
    {
        let id = self.next_id;
        self.next_id = self.next_id + 1;
        WaitNode::for_upgrade(id)
    }

    /// Returns the id that the next attempt would get.
    pub fn next_id(&self) -> (id: u64)
        ensures
            id == self@.next_id,
    {
        self.next_id
    }

    /// Returns whether `node` may be polled (see `MutexView::pollable`).
    pub fn can_poll(&self, node: &WaitNode) -> (ok: bool)
        requires
            self.wf(),
            self@.node_ok(*node),
        ensures
            ok == self@.pollable(*node),
    {
        if node.state == NodeState::Done || (node.kind != EntryKind::Write && self.nb_reads
            == usize::MAX) {
            return false;
        }
        let counter = match node.kind {
            EntryKind::Write => self.nb_waiting_writes,
            EntryKind::Read => self.nb_waiting_reads,
            EntryKind::UpgradeRead => self.nb_waiting_upgrade_reads,
        };
        if counter == usize::MAX {
            return false;
        }
        if node.state == NodeState::Registered && self.is_fair {
            let i = self.position(node.id);
            if self.waiters[i].state == PollState::Notified {
                return match node.kind {
                    EntryKind::Read => !self.has_write,
                    EntryKind::UpgradeRead => !self.has_write && !self.has_upgrade_read,
                    EntryKind::Write => !self.has_write && self.nb_reads == 0,
                };
            }
        }
        true
    }
} // impl MutexState

/// Once the wakeup scan has seen a reader, it keeps that in mind; the same
/// holds for the upgradable reader.
proof fn lemma_scan_flags_persist(v: MutexView, i: int, j: int)
    requires
        0 <= i <= j,
    ensures
        v.scan(i).0 ==> v.scan(j).0,
        v.scan(i).1 ==> v.scan(j).1,
    decreases j - i,
{
    if j > i {
        lemma_scan_flags_persist(v, i, j - 1);
    }
}

/// A writer excludes all readers and the upgradable reader, and the
/// upgradable reader is one of the readers.
pub proof fn exclusive_access(s: &MutexState)
    requires
        s.wf(),
    ensures
        s@.has_write ==> s@.nb_reads == 0 && !s@.has_upgrade_read,
        s@.has_upgrade_read ==> s@.nb_reads >= 1,
{
}

/// The lock invariant (see `MutexView::inv`) holds in every well-formed
/// state.
pub proof fn lock_invariant(s: &MutexState)
    requires
        s.wf(),
    ensures
        s@.inv(),
{
}

/// The record of the waiter at position `i` is the only one with its id,
/// so dropping it forgets the id.
proof fn lemma_remove_forgets(ws: Seq<WaiterView>, i: int)
    requires
        0 <= i < ws.len(),
        forall|a: int, b: int| 0 <= a < b < ws.len() ==> ws[a].id != ws[b].id,
    ensures
        forall|j: int| 0 <= j < ws.remove(i).len() ==> (#[trigger] ws.remove(i)[j]).id != ws[i].id,
{
    assert forall|j: int| 0 <= j < ws.remove(i).len() implies (#[trigger] ws.remove(i)[j]).id
        != ws[i].id by {
        if j < i {
            assert(ws.remove(i)[j] == ws[j]);
        } else {
            assert(ws.remove(i)[j] == ws[j + 1]);
        }
    }
}

/// A waiting waiter holds the waker of its task; a notified one does not,
/// since notifying takes the waker to wake the task.
pub proof fn waiters_hold_wakers_until_notified(s: &MutexState)
    requires
        s.wf(),
    ensures
        forall|i: int| 0 <= i < s@.waiters.len() ==> (#[trigger] s.holds_waker(i)) == !s@.waiters[i].notified,
{
    assert forall|i: int| 0 <= i < s@.waiters.len() implies (#[trigger] s.holds_waker(i))
        == !s@.waiters[i].notified by {
        assert(s@.waiters[i] == s.waiters@[i].view());
    }
}

/// A lock attempt that gets its access found that access free, holds it
/// now and leaves no record at the lock; one that does not get it leaves
/// the holders of the lock as they were and waits in the queue. Either way
/// a writer excludes everybody else, and the upgradable reader is one of
/// the readers.
pub proof fn lock_attempt_outcome(v: MutexView, node: WaitNode)
    requires
        v.inv(),
        v.node_ok(node),
        node.state != NodeState::Done,
    ensures
        attempt_outcome(v, node, lock_step(v, node).0, lock_step(v, node).1, lock_step(v, node).2),
        lock_step(v, node).0.has_write ==> lock_step(v, node).0.nb_reads == 0
            && !lock_step(v, node).0.has_upgrade_read,
        lock_step(v, node).0.has_upgrade_read ==> lock_step(v, node).0.nb_reads >= 1,
{
    let kind = node.kind;
    let fresh = WaiterView { id: node.id, kind: kind, notified: false };
    if node.state == NodeState::New {
        if !v.sync_ok(kind) {
            let e = v.enqueue(fresh, node.is_upgrade);
            if node.is_upgrade {
                assert(e.waiters[0].id == node.id);
            } else {
                assert(e.waiters[v.waiters.len() as int].id == node.id);
            }
        }
    } else {
        let i = v.pos(node.id);
        assert(v.waiters[i].id == node.id);
        lemma_remove_forgets(v.waiters, i);
        if v.waiters[i].notified && !v.free_for(kind) {
            let e = v.detach(i).enqueue(fresh, node.is_upgrade);
            if node.is_upgrade {
                assert(e.waiters[0].id == node.id);
            } else {
                assert(e.waiters[v.waiters.len() - 1].id == node.id);
            }
        }
    }
}

/// A wakeup notifies at most one upgradable reader.
pub proof fn wakeup_notifies_one_upgradable_reader(v: MutexView, i: int, j: int)
    requires
        0 <= i < j < v.waiters.len(),
        v.waiters[i].kind == EntryKind::UpgradeRead,
        v.waiters[j].kind == EntryKind::UpgradeRead,
    ensures
        !(v.wakes(i) && v.wakes(j)),
{
    if v.wakes(i) {
        assert(v.scan(i + 1).1);
        lemma_scan_flags_persist(v, i + 1, j);
    }
}

/// While the upgradable access is held, a wakeup notifies no upgradable
/// reader.
pub proof fn wakeup_spares_upgradable_readers_while_one_holds(v: MutexView, i: int)
    requires
        0 <= i < v.waiters.len(),
        v.has_upgrade_read,
        v.waiters[i].kind == EntryKind::UpgradeRead,
    ensures
        !v.wakes(i),
{
    lemma_scan_flags_persist(v, 0, i);
}

/// A wakeup notifies a writer only while no reader holds the lock, and then
/// notifies nobody else.
pub proof fn wakeup_notifies_writer_alone(v: MutexView, i: int, j: int)
    requires
        0 <= i < v.waiters.len(),
        0 <= j < v.waiters.len(),
        i != j,
        v.wakes(i),
        v.waiters[i].kind == EntryKind::Write,
    ensures
        v.nb_reads == 0,
        !v.wakes(j),
{
    lemma_scan_flags_persist(v, 0, i);
    if j < i {
        if v.wakes(j) {
            if v.waiters[j].kind == EntryKind::Write {
                assert(v.scan(j + 1).2);
                lemma_scan_stopped(v, j + 1, i);
            } else {
                assert(v.scan(j + 1).0);
                lemma_scan_flags_persist(v, j + 1, i);
            }
        }
    } else {
        assert(v.scan(i + 1).2);
        lemma_scan_stopped(v, i + 1, j);
    }
}

/// In a fair lock, no new attempt overtakes a waiting writer.
pub proof fn fair_lock_keeps_writers_first(v: MutexView, kind: EntryKind)
    requires
        v.inv(),
        v.is_fair,
        v.count(EntryKind::Write) > 0,
    ensures
        !v.sync_ok(kind),
{
}

/// Without waiters, taking an access and releasing it again leaves the lock
/// as it was.
pub proof fn acquire_then_release_restores(v: MutexView, kind: EntryKind)
    requires
        v.inv(),
        v.waiters.len() == 0,
        v.free_for(kind),
    ensures
        kind == EntryKind::Read ==> v.acquire(kind).release_read() == v,
        kind == EntryKind::Write ==> v.acquire(kind).release_write() == v,
        kind == EntryKind::UpgradeRead ==> v.acquire(kind).release_upgrade_read() == v,
{
    let a = v.acquire(kind);
    match kind {
        EntryKind::Read => {
            let r = MutexView { nb_reads: (a.nb_reads - 1) as nat, ..a };
            assert(r.after_writer_wakeup() =~= v);
            assert(r =~= v);
        },
        EntryKind::Write => {
            assert(MutexView { has_write: false, ..a }.after_wakeup() =~= v);
        },
        EntryKind::UpgradeRead => {
            assert(MutexView {
                has_upgrade_read: false,
                nb_reads: (a.nb_reads - 1) as nat,
                ..a
            }.after_wakeup() =~= v);
        },
    }
}

/// An attempt that had to wait and then gives up before it is notified
/// leaves the lock as it was.
pub proof fn waiting_then_giving_up_restores(v: MutexView, node: WaitNode)
    requires
        v.inv(),
        v.node_ok(node),
        node.state == NodeState::New,
        !v.sync_ok(node.kind),
    ensures
        give_up_step(lock_step(v, node).0, WaitNode { state: NodeState::Registered, ..node }) == v,
{
    let fresh = WaiterView { id: node.id, kind: node.kind, notified: false };
    let v1 = v.enqueue(fresh, node.is_upgrade);
    assert(lock_step(v, node).0 == v1);
    let k: int = if node.is_upgrade {
        0
    } else {
        v.waiters.len() as int
    };
    assert(v1.waiters[k].id == node.id);
    assert(v1.has(node.id));
    let p = v1.pos(node.id);
    assert(v1.waiters[p].id == node.id);
    assert forall|j: int| 0 <= j < v.waiters.len() implies v.waiters[j].id != node.id by {}
    if p != k {
        if node.is_upgrade {
            assert(v1.waiters[p] == v.waiters[p - 1]);
        } else {
            assert(v1.waiters[p] == v.waiters[p]);
        }
    }
    assert(p == k);
    assert(v1.waiters.remove(p) =~= v.waiters);
    assert(v1.unregister(p) =~= v);
}

/// In a fair lock, a waiting attempt that comes back before it was notified
/// keeps waiting and changes nothing, even if the access is free.
pub proof fn fair_lock_waiters_wait_for_notification(v: MutexView, node: WaitNode)
    requires
        v.is_fair,
        node.state == NodeState::Registered,
        !v.waiters[v.pos(node.id)].notified,
    ensures
        lock_step(v, node) == (v, NodeState::Registered, false),
{
}


/// A read access is granted without waiting exactly when no writer holds
/// the lock and, in a fair lock, no writer waits; holding the upgradable
/// read access does not exclude plain readers. The reader is counted.
pub proof fn read_without_waiting(v: MutexView)
    ensures
        v.sync_ok(EntryKind::Read) == (!v.has_write && (v.is_fair ==> v.nb_waiting_writes == 0)),
        v.has_upgrade_read && !v.has_write && !v.is_fair ==> v.sync_ok(EntryKind::Read),
        v.acquire(EntryKind::Read) == (MutexView { nb_reads: v.nb_reads + 1, ..v }),
{
}

/// The upgradable read access is granted without waiting exactly when
/// neither a writer nor another upgradable reader holds the lock and, in a
/// fair lock, neither kind waits. It counts as one more reader.
pub proof fn upgradable_read_without_waiting(v: MutexView)
    ensures
        v.sync_ok(EntryKind::UpgradeRead) == (!v.has_write && !v.has_upgrade_read && (v.is_fair
            ==> v.nb_waiting_writes == 0 && v.nb_waiting_upgrade_reads == 0)),
        v.acquire(EntryKind::UpgradeRead) == (MutexView {
            nb_reads: v.nb_reads + 1,
            has_upgrade_read: true,
            ..v
        }),
{
}

/// The write access is granted without waiting exactly when nobody holds
/// the lock and, in a fair lock, neither writers nor upgradable readers
/// wait.
pub proof fn write_without_waiting(v: MutexView)
    ensures
        v.sync_ok(EntryKind::Write) == (!v.has_write && v.nb_reads == 0 && (v.is_fair
            ==> v.nb_waiting_writes == 0 && v.nb_waiting_upgrade_reads == 0)),
        v.acquire(EntryKind::Write) == (MutexView { has_write: true, ..v }),
{
}

/// The upgradable reader turns its access into write access without
/// waiting exactly when no writer holds the lock and it is the only reader;
/// only a fair lock also lets waiting writers and upgradable readers go
/// first.
pub proof fn upgrade_without_waiting(v: MutexView)
    ensures
        !v.is_fair ==> (v.upgrade_sync_ok() == (!v.has_write && v.nb_reads == 1)),
        v.is_fair ==> (v.upgrade_sync_ok() == (!v.has_write && v.nb_reads == 1
            && v.nb_waiting_writes == 0 && v.nb_waiting_upgrade_reads == 0)),
{
}

/// What the wakeup scan has seen before position `i`: a reader holds the
/// lock or one was notified; the upgradable access is held or one was
/// notified; a writer was notified, which ends the scan.
proof fn lemma_scan_meaning(v: MutexView, i: int)
    requires
        0 <= i <= v.waiters.len(),
    ensures
        v.scan(i).0 == (v.nb_reads > 0 || exists|j: int|
            0 <= j < i && #[trigger] v.wakes(j) && v.waiters[j].kind != EntryKind::Write),
        v.scan(i).1 == (v.has_upgrade_read || exists|j: int|
            0 <= j < i && #[trigger] v.wakes(j) && v.waiters[j].kind == EntryKind::UpgradeRead),
        v.scan(i).2 == (exists|j: int|
            0 <= j < i && #[trigger] v.wakes(j) && v.waiters[j].kind == EntryKind::Write),
    decreases i,
{
    if i > 0 {
        let k = i - 1;
        lemma_scan_meaning(v, k);
        let s = v.scan(k);
        assert(v.scan(i) == v.scan_step(s, k));
        if v.wakes(k) {
            assert(!s.2);
        } else {
            assert forall|j: int| 0 <= j < i && #[trigger] v.wakes(j) implies j < k by {}
        }
        if exists|j: int| 0 <= j < i && #[trigger] v.wakes(j) && v.waiters[j].kind != EntryKind::Write {
            let j = choose|j: int| 0 <= j < i && #[trigger] v.wakes(j) && v.waiters[j].kind != EntryKind::Write;
            if j < k {
                lemma_scan_flags_persist(v, j + 1, k);
            }
        }
        if exists|j: int| 0 <= j < i && #[trigger] v.wakes(j) && v.waiters[j].kind == EntryKind::UpgradeRead {
            let j = choose|j: int| 0 <= j < i && #[trigger] v.wakes(j) && v.waiters[j].kind == EntryKind::UpgradeRead;
            if j < k {
                lemma_scan_flags_persist(v, j + 1, k);
            }
        }
        if exists|j: int| 0 <= j < i && #[trigger] v.wakes(j) && v.waiters[j].kind == EntryKind::Write {
            let j = choose|j: int| 0 <= j < i && #[trigger] v.wakes(j) && v.waiters[j].kind == EntryKind::Write;
            if j < k {
                lemma_scan_stopped(v, j + 1, k);
            }
        }
    }
}

/// Which waiters a wakeup notifies, oldest first: only queued ones; every
/// queued reader, unless a notified writer came before it; a queued
/// upgradable reader, if the upgradable access is not held and no
/// upgradable reader or writer was notified before it; and a queued writer
/// only if no reader holds the lock and nobody was notified before it.
pub proof fn wakeup_notifies(v: MutexView, i: int)
    requires
        0 <= i < v.waiters.len(),
    ensures
        v.wakes(i) ==> v.is_fair || !v.waiters[i].notified,
        (v.is_fair || !v.waiters[i].notified) && v.waiters[i].kind == EntryKind::Read ==> (v.wakes(
            i,
        ) <==> forall|j: int|
            0 <= j < i ==> !(#[trigger] v.wakes(j) && v.waiters[j].kind == EntryKind::Write)),
        (v.is_fair || !v.waiters[i].notified) && v.waiters[i].kind == EntryKind::UpgradeRead ==> (
        v.wakes(i) <==> !v.has_upgrade_read && forall|j: int|
            0 <= j < i ==> !(#[trigger] v.wakes(j) && v.waiters[j].kind != EntryKind::Read)),
        (v.is_fair || !v.waiters[i].notified) && v.waiters[i].kind == EntryKind::Write ==> (v.wakes(
            i,
        ) <==> v.nb_reads == 0 && forall|j: int| 0 <= j < i ==> !#[trigger] v.wakes(j)),
        v.after_wakeup().waiters.len() == v.waiters.len(),
        v.after_wakeup().waiters[i] == (WaiterView {
            notified: v.waiters[i].notified || v.wakes(i),
            ..v.waiters[i]
        }),
{
    lemma_scan_meaning(v, i);
}


/// Giving up an attempt that was notified but did not take its access
/// passes the notification on, whatever kind of access it asked for: the
/// lock notifies the waiters that a release of the write access would
/// notify. Giving up an attempt that still waits notifies nobody.
pub proof fn giving_up_passes_notification_on(v: MutexView, node: WaitNode)
    requires
        node.state == NodeState::Registered,
        v.has(node.id),
    ensures
        v.waiters[v.pos(node.id)].notified ==> give_up_step(v, node) == v.unregister(
            v.pos(node.id),
        ).after_wakeup(),
        v.waiters[v.pos(node.id)].notified && !v.has_write ==> give_up_step(v, node) == (MutexView {
            has_write: true,
            ..v.unregister(v.pos(node.id))
        }).release_write(),
        !v.waiters[v.pos(node.id)].notified ==> give_up_step(v, node) == v.unregister(
            v.pos(node.id),
        ),
{
    let u = v.unregister(v.pos(node.id));
    if !v.has_write {
        assert(MutexView { has_write: false, ..MutexView { has_write: true, ..u } } =~= u);
    }
}

/// When an attempt that was notified gives up, every reader that waits in
/// the queue with no writer queued before it is notified.
pub proof fn giving_up_notification_reaches_readers(v: MutexView, node: WaitNode, k: int)
    requires
        node.state == NodeState::Registered,
        v.has(node.id),
        v.waiters[v.pos(node.id)].notified,
        0 <= k < v.unregister(v.pos(node.id)).waiters.len(),
        v.unregister(v.pos(node.id)).waiters[k].kind == EntryKind::Read,
        v.is_fair || !v.unregister(v.pos(node.id)).waiters[k].notified,
        forall|j: int|
            0 <= j < k ==> !((#[trigger] v.unregister(v.pos(node.id)).waiters[j]).kind == EntryKind::Write
                && (v.is_fair || !v.unregister(v.pos(node.id)).waiters[j].notified)),
    ensures
        give_up_step(v, node).waiters[k].notified,
{
    let u = v.unregister(v.pos(node.id));
    assert forall|j: int| 0 <= j < k implies !(#[trigger] u.wakes(j) && u.waiters[j].kind
        == EntryKind::Write) by {
        wakeup_notifies(u, j);
        assert(u.waiters[j] == v.unregister(v.pos(node.id)).waiters[j]);
    }
    wakeup_notifies(u, k);
}


/// An access is free when no holder conflicts with it: readers only
/// conflict with a writer, the upgradable reader also with another
/// upgradable reader, and a writer with everybody.
pub proof fn access_free(v: MutexView)
    ensures
        v.free_for(EntryKind::Read) == !v.has_write,
        v.free_for(EntryKind::UpgradeRead) == (!v.has_write && !v.has_upgrade_read),
        v.free_for(EntryKind::Write) == (!v.has_write && v.nb_reads == 0),
{
}

/// A registered attempt takes its access exactly when the access is free
/// and, in a fair lock, the attempt was notified; it then leaves its record.
/// A notified attempt that finds its access taken (only possible in an
/// unfair lock) waits again as the newest waiter, or as the oldest one if it
/// is the write attempt of an upgradable reader.
pub proof fn registered_attempt_outcome(v: MutexView, node: WaitNode)
    requires
        node.state == NodeState::Registered,
        v.has(node.id),
    ensures
        lock_step(v, node).2 == (v.free_for(node.kind) && (!v.is_fair || v.waiters[v.pos(
            node.id,
        )].notified)),
        lock_step(v, node).2 ==> lock_step(v, node).0.waiters == v.waiters.remove(v.pos(node.id)),
        v.waiters[v.pos(node.id)].notified && !v.free_for(node.kind) ==> lock_step(v, node).0.waiters
            == if node.is_upgrade {
            seq![WaiterView { id: node.id, kind: node.kind, notified: false }] + v.waiters.remove(
                v.pos(node.id),
            )
        } else {
            v.waiters.remove(v.pos(node.id)).push(
                WaiterView { id: node.id, kind: node.kind, notified: false },
            )
        },
        !v.waiters[v.pos(node.id)].notified && !lock_step(v, node).2 ==> lock_step(v, node).0 == v,
{
}

/// A new attempt that may not take its access right away waits as the
/// newest waiter, or as the oldest one if it is the write attempt of an
/// upgradable reader, and is counted among the waiting tasks of its kind.
pub proof fn new_attempt_waits(v: MutexView, node: WaitNode)
    requires
        node.state == NodeState::New,
        !v.sync_ok(node.kind),
    ensures
        lock_step(v, node).0.waiters == if node.is_upgrade {
            seq![WaiterView { id: node.id, kind: node.kind, notified: false }] + v.waiters
        } else {
            v.waiters.push(WaiterView { id: node.id, kind: node.kind, notified: false })
        },
        lock_step(v, node).0.counter(node.kind) == v.counter(node.kind) + 1,
        lock_step(v, node).0.nb_reads == v.nb_reads,
        lock_step(v, node).0.has_write == v.has_write,
        lock_step(v, node).0.has_upgrade_read == v.has_upgrade_read,
        lock_step(v, node).1 == NodeState::Registered,
        !lock_step(v, node).2,
{
}

/// Releasing a plain read access counts the reader out; when it was the
/// last reader, the oldest queued writer is notified, and nobody else.
pub proof fn releasing_read_notifies_first_writer(v: MutexView, i: int)
    requires
        v.nb_reads >= 1,
        0 <= i < v.waiters.len(),
    ensures
        v.release_read().nb_reads == v.nb_reads - 1,
        v.release_read().has_write == v.has_write,
        v.release_read().has_upgrade_read == v.has_upgrade_read,
        v.release_read().waiters.len() == v.waiters.len(),
        v.release_read().waiters[i].id == v.waiters[i].id,
        v.release_read().waiters[i].kind == v.waiters[i].kind,
        v.release_read().waiters[i].notified == (v.waiters[i].notified || (v.nb_reads == 1 && (
        v.is_fair || !v.waiters[i].notified) && v.waiters[i].kind == EntryKind::Write && forall|j: int|
            0 <= j < i ==> !((v.is_fair || !(#[trigger] v.waiters[j]).notified) && v.waiters[j].kind
                == EntryKind::Write))),
{
    let r = MutexView { nb_reads: (v.nb_reads - 1) as nat, ..v };
    if v.nb_reads == 1 {
        let c = forall|j: int|
            0 <= j < i ==> !((v.is_fair || !(#[trigger] v.waiters[j]).notified) && v.waiters[j].kind
                == EntryKind::Write);
        if c {
            assert forall|j: int| 0 <= j < i implies !(r.queued(j) && r.waiters[j].kind
                == EntryKind::Write) by {
                assert(!((v.is_fair || !v.waiters[j].notified) && v.waiters[j].kind
                    == EntryKind::Write));
            }
        } else {
            let j = choose|j: int|
                0 <= j < i && ((v.is_fair || !(#[trigger] v.waiters[j]).notified) && v.waiters[j].kind
                    == EntryKind::Write);
            assert(r.queued(j) && r.waiters[j].kind == EntryKind::Write);
            assert(!r.first_writer(i));
        }
    }
}

/// Releasing the write access or the upgradable read access frees it and
/// runs a wakeup (see `wakeup_notifies`) on the lock without that access.
pub proof fn releasing_exclusive_access_wakes(v: MutexView)
    ensures
        v.release_write() == (MutexView { has_write: false, ..v }).after_wakeup(),
        v.release_write().has_write == false,
        v.release_write().nb_reads == v.nb_reads,
        v.release_upgrade_read() == (MutexView {
            has_upgrade_read: false,
            nb_reads: (v.nb_reads - 1) as nat,
            ..v
        }).after_wakeup(),
        v.release_upgrade_read().has_upgrade_read == false,
{
}

} // verus!
