use futures_intrusive::sync::rwlock::{EntryKind, MutexState, NodeState, WaitNode};
use std::sync::atomic::{AtomicUsize, Ordering};
use std::sync::Arc;
use std::task::{Wake, Waker};

struct Counter(AtomicUsize);

impl Wake for Counter {
    fn wake(self: Arc<Self>) {
        self.0.fetch_add(1, Ordering::SeqCst);
    }
}

fn count_waker() -> (Waker, Arc<Counter>) {
    let counter = Arc::new(Counter(AtomicUsize::new(0)));
    (Waker::from(counter.clone()), counter)
}

fn count(counter: &Arc<Counter>) -> usize {
    counter.0.load(Ordering::SeqCst)
}

fn attempt(lock: &mut MutexState, kind: EntryKind) -> WaitNode {
    lock.new_node(kind)
}

fn poll(lock: &mut MutexState, node: &mut WaitNode, waker: &Waker) -> bool {
    let res = match node.kind {
        EntryKind::Read => lock.try_lock_read(node, waker),
        EntryKind::Write => lock.try_lock_write(node, waker),
        EntryKind::UpgradeRead => lock.try_lock_upgrade_read(node, waker),
    };
    res.is_ready()
}

fn give_up(lock: &mut MutexState, node: &mut WaitNode) {
    match node.kind {
        EntryKind::Read => lock.remove_read(node),
        EntryKind::Write => lock.remove_write(node),
        EntryKind::UpgradeRead => lock.remove_upgrade_read(node),
    }
}

#[test]
fn uncontended_read() {
    for is_fair in [true, false] {
        let (waker, _) = count_waker();
        let mut lock = MutexState::new(is_fair);
        assert_eq!(false, lock.is_exclusive());
        for n in 1..=3 {
            let mut node = attempt(&mut lock, EntryKind::Read);
            assert!(poll(&mut lock, &mut node, &waker));
            assert_eq!(NodeState::Done, node.state);
            assert_eq!(false, lock.is_exclusive());
            assert_eq!(n, lock.nb_readers());
        }
        lock.unlock_read();
        assert_eq!(2, lock.nb_readers());
        lock.unlock_read();
        assert_eq!(1, lock.nb_readers());
        lock.unlock_read();
        assert_eq!(0, lock.nb_readers());
    }
}

#[test]
fn uncontended_write() {
    for is_fair in [true, false] {
        let (waker, _) = count_waker();
        let mut lock = MutexState::new(is_fair);
        let mut node = attempt(&mut lock, EntryKind::Write);
        assert!(poll(&mut lock, &mut node, &waker));
        assert_eq!(true, lock.is_exclusive());
        lock.unlock_write();
        assert_eq!(false, lock.is_exclusive());
        let mut node = attempt(&mut lock, EntryKind::Write);
        assert!(poll(&mut lock, &mut node, &waker));
        assert_eq!(true, lock.is_exclusive());
        lock.unlock_write();
        assert_eq!(false, lock.is_exclusive());
    }
}

#[test]
fn uncontended_upgradable_read() {
    for is_fair in [true, false] {
        let (waker, _) = count_waker();
        let mut lock = MutexState::new(is_fair);
        let mut node = attempt(&mut lock, EntryKind::UpgradeRead);
        assert!(poll(&mut lock, &mut node, &waker));
        assert_eq!(false, lock.is_exclusive());
        assert_eq!(1, lock.nb_readers());
        // upgrade
        lock.unlock_upgrade_read_for_upgrade();
        let mut upgrade = lock.new_upgrade_node();
        assert!(poll(&mut lock, &mut upgrade, &waker));
        assert_eq!(true, lock.is_exclusive());
        assert_eq!(0, lock.nb_readers());
        lock.unlock_write();
        assert_eq!(false, lock.is_exclusive());
    }
}

#[test]
fn contended_read() {
    for is_fair in [true, false] {
        let (waker, _) = count_waker();
        let mut lock = MutexState::new(is_fair);
        assert!(lock.try_lock_write_sync());
        assert!(!lock.try_lock_read_sync());
        let mut node = attempt(&mut lock, EntryKind::Read);
        assert!(!poll(&mut lock, &mut node, &waker));
        assert_eq!(NodeState::Registered, node.state);
        give_up(&mut lock, &mut node);
        assert!(!lock.try_lock_read_sync());
        let mut node = attempt(&mut lock, EntryKind::Read);
        assert!(!poll(&mut lock, &mut node, &waker));
    }
}

#[test]
fn contended_write() {
    for is_fair in [true, false] {
        let (waker, _) = count_waker();
        let mut lock = MutexState::new(is_fair);
        assert!(lock.try_lock_read_sync());
        assert!(!lock.try_lock_write_sync());
        let mut node = attempt(&mut lock, EntryKind::Write);
        assert!(!poll(&mut lock, &mut node, &waker));
        assert_eq!(NodeState::Registered, node.state);
    }
}

#[test]
fn contended_upgrade_read() {
    for is_fair in [true, false] {
        let (waker, _) = count_waker();
        let mut lock = MutexState::new(is_fair);
        assert!(lock.try_lock_upgrade_read_sync());
        assert!(!lock.try_lock_upgrade_read_sync());
        let mut node = attempt(&mut lock, EntryKind::UpgradeRead);
        assert!(!poll(&mut lock, &mut node, &waker));
        give_up(&mut lock, &mut node);
        lock.unlock_upgrade_read();

        assert!(lock.try_lock_write_sync());
        assert!(!lock.try_lock_upgrade_read_sync());
        let mut node = attempt(&mut lock, EntryKind::UpgradeRead);
        assert!(!poll(&mut lock, &mut node, &waker));
    }
}

#[test]
fn dropping_reader_wakes_up_writer() {
    for is_fair in [true, false] {
        let (waker, counter) = count_waker();
        let mut lock = MutexState::new(is_fair);
        assert!(lock.try_lock_read_sync());
        let mut node = attempt(&mut lock, EntryKind::Write);
        assert!(!poll(&mut lock, &mut node, &waker));
        assert_eq!(0, count(&counter));
        lock.unlock_read();
        assert_eq!(1, count(&counter));
        assert!(poll(&mut lock, &mut node, &waker));
        assert_eq!(NodeState::Done, node.state);
    }
}

#[test]
fn dropping_writer_wakes_up_readers() {
    for is_fair in [true, false] {
        let (waker, counter) = count_waker();
        let mut lock = MutexState::new(is_fair);
        assert!(lock.try_lock_write_sync());
        let mut fut1 = attempt(&mut lock, EntryKind::Read);
        assert!(!poll(&mut lock, &mut fut1, &waker));
        let mut fut2 = attempt(&mut lock, EntryKind::UpgradeRead);
        assert!(!poll(&mut lock, &mut fut2, &waker));
        assert_eq!(0, count(&counter));
        lock.unlock_write();
        assert_eq!(2, count(&counter));
        assert!(poll(&mut lock, &mut fut1, &waker));
        assert!(poll(&mut lock, &mut fut2, &waker));
    }
}

#[test]
fn dropping_guard_follows_queue_order_for_wakeup() {
    for is_fair in [true, false] {
        let (waker, counter) = count_waker();
        let mut lock = MutexState::new(is_fair);
        assert!(lock.try_lock_write_sync());

        let mut read_fut1 = attempt(&mut lock, EntryKind::Read);
        assert!(!poll(&mut lock, &mut read_fut1, &waker));
        let mut read_fut2 = attempt(&mut lock, EntryKind::Read);
        assert!(!poll(&mut lock, &mut read_fut2, &waker));
        let mut write_fut1 = attempt(&mut lock, EntryKind::Write);
        assert!(!poll(&mut lock, &mut write_fut1, &waker));
        let mut upgrade_read_fut1 = attempt(&mut lock, EntryKind::UpgradeRead);
        assert!(!poll(&mut lock, &mut upgrade_read_fut1, &waker));
        let mut write_fut2 = attempt(&mut lock, EntryKind::Write);
        assert!(!poll(&mut lock, &mut write_fut2, &waker));
        let mut read_fut3 = attempt(&mut lock, EntryKind::Read);
        assert!(!poll(&mut lock, &mut read_fut3, &waker));
        let mut upgrade_read_fut2 = attempt(&mut lock, EntryKind::UpgradeRead);
        assert!(!poll(&mut lock, &mut upgrade_read_fut2, &waker));
        assert_eq!(0, count(&counter));

        lock.unlock_write();
        // Wakeup the three readers and 1 upgradable_read.
        assert_eq!(4, count(&counter));

        assert!(poll(&mut lock, &mut read_fut1, &waker));
        assert!(poll(&mut lock, &mut read_fut2, &waker));
        assert!(poll(&mut lock, &mut upgrade_read_fut1, &waker));
        assert!(poll(&mut lock, &mut read_fut3, &waker));
        assert!(!poll(&mut lock, &mut upgrade_read_fut2, &waker));
        assert!(!poll(&mut lock, &mut write_fut1, &waker));
        assert!(!poll(&mut lock, &mut write_fut2, &waker));
        assert_eq!(4, count(&counter));

        lock.unlock_read(); // guard1
        assert_eq!(4, count(&counter));
        // Wakeup the other upgradable_read
        lock.unlock_upgrade_read(); // guard3
        assert_eq!(5, count(&counter));

        assert!(poll(&mut lock, &mut upgrade_read_fut2, &waker));
        assert!(!poll(&mut lock, &mut write_fut1, &waker));
        assert!(!poll(&mut lock, &mut write_fut2, &waker));

        lock.unlock_read(); // guard2
        assert_eq!(5, count(&counter));
        lock.unlock_upgrade_read(); // guard5
        assert_eq!(5, count(&counter));
        // Now that we dropped all readers, wakeup one writer.
        lock.unlock_read(); // guard4
        assert_eq!(6, count(&counter));

        assert!(poll(&mut lock, &mut write_fut1, &waker));
        assert!(!poll(&mut lock, &mut write_fut2, &waker));

        // Wakeup the other writer.
        lock.unlock_write(); // guard6
        assert_eq!(7, count(&counter));
        assert!(poll(&mut lock, &mut write_fut2, &waker));
        assert_eq!(7, count(&counter));
    }
}

#[test]
fn cancel_wait_for_lock() {
    for is_fair in [true, false] {
        let (waker, counter) = count_waker();
        let mut lock = MutexState::new(is_fair);
        assert!(lock.try_lock_write_sync());

        let mut fut1 = attempt(&mut lock, EntryKind::Write);
        let mut fut2 = attempt(&mut lock, EntryKind::Read);
        let mut fut3 = attempt(&mut lock, EntryKind::UpgradeRead);
        let mut fut4 = attempt(&mut lock, EntryKind::Write);
        assert!(!poll(&mut lock, &mut fut1, &waker));
        assert!(!poll(&mut lock, &mut fut2, &waker));
        assert!(!poll(&mut lock, &mut fut3, &waker));
        assert!(!poll(&mut lock, &mut fut4, &waker));

        // Before the lock gets available, cancel a bunch of futures.
        give_up(&mut lock, &mut fut1);
        give_up(&mut lock, &mut fut2);
        give_up(&mut lock, &mut fut3);
        assert_eq!(0, count(&counter));

        lock.unlock_write();
        assert_eq!(1, count(&counter));
        assert!(poll(&mut lock, &mut fut4, &waker));
    }
}

#[test]
fn unlock_next_when_notification_is_not_used() {
    for is_fair in [true, false] {
        let (waker, counter) = count_waker();
        let mut lock = MutexState::new(is_fair);
        assert!(lock.try_lock_write_sync());

        let mut fut2 = attempt(&mut lock, EntryKind::Write);
        let mut fut3 = attempt(&mut lock, EntryKind::Write);
        let mut fut4 = attempt(&mut lock, EntryKind::UpgradeRead);
        let mut fut5 = attempt(&mut lock, EntryKind::UpgradeRead);
        assert!(!poll(&mut lock, &mut fut2, &waker));
        assert!(!poll(&mut lock, &mut fut3, &waker));
        assert!(!poll(&mut lock, &mut fut4, &waker));
        assert!(!poll(&mut lock, &mut fut5, &waker));
        assert_eq!(0, count(&counter));

        // Unlock, notifying the next waiter in line.
        lock.unlock_write();
        assert_eq!(1, count(&counter));

        // Ignore the notification.
        give_up(&mut lock, &mut fut2);
        assert_eq!(2, count(&counter));

        assert!(poll(&mut lock, &mut fut3, &waker));
        lock.unlock_write(); // guard3
        assert_eq!(3, count(&counter));
        give_up(&mut lock, &mut fut4);
        assert_eq!(4, count(&counter));

        assert!(poll(&mut lock, &mut fut5, &waker));
        lock.unlock_upgrade_read();

        // We also test cancelling read locks.
        assert!(lock.try_lock_write_sync());
        let mut fut6 = attempt(&mut lock, EntryKind::UpgradeRead);
        let mut fut7 = attempt(&mut lock, EntryKind::UpgradeRead);
        assert!(!poll(&mut lock, &mut fut6, &waker));
        assert!(!poll(&mut lock, &mut fut7, &waker));
        assert_eq!(4, count(&counter));
        lock.unlock_write();
        assert_eq!(5, count(&counter));
        give_up(&mut lock, &mut fut6);
        assert_eq!(6, count(&counter));
        assert!(poll(&mut lock, &mut fut7, &waker));
    }
}

#[test]
fn new_waiters_on_unfair_lock_can_acquire_future_while_another_task_is_notified() {
    let (waker, counter) = count_waker();
    let mut lock = MutexState::new(false);
    assert!(lock.try_lock_write_sync());

    let mut fut2 = attempt(&mut lock, EntryKind::Write);
    let mut fut3 = attempt(&mut lock, EntryKind::UpgradeRead);
    let mut fut4 = attempt(&mut lock, EntryKind::Read);
    let mut fut5 = attempt(&mut lock, EntryKind::Write);
    assert!(!poll(&mut lock, &mut fut2, &waker));
    assert!(!poll(&mut lock, &mut fut3, &waker));
    assert!(!poll(&mut lock, &mut fut4, &waker));

    // Notify fut2.
    lock.unlock_write();
    assert_eq!(1, count(&counter));

    // Steal the lock.
    assert!(poll(&mut lock, &mut fut5, &waker));
    // This future must requeue.
    assert!(!poll(&mut lock, &mut fut2, &waker));
    // ...but the other one preserve their old position in the queue.
    assert!(!poll(&mut lock, &mut fut3, &waker));
    assert!(!poll(&mut lock, &mut fut4, &waker));

    assert_eq!(1, count(&counter));
    lock.unlock_write(); // guard5
    assert_eq!(3, count(&counter));

    // We steal the lock again.
    assert!(poll(&mut lock, &mut fut2, &waker));
    // The two notified futures must register again.
    assert!(!poll(&mut lock, &mut fut3, &waker));
    assert!(!poll(&mut lock, &mut fut4, &waker));

    // Now we notify the two futures.
    lock.unlock_write(); // guard2
    assert_eq!(5, count(&counter));
    assert!(poll(&mut lock, &mut fut3, &waker));
    assert!(poll(&mut lock, &mut fut4, &waker));
}

#[test]
fn new_waiters_on_fair_mutex_cant_acquire_future_while_another_task_is_notified() {
    let (waker, counter) = count_waker();
    let mut lock = MutexState::new(true);
    assert!(lock.try_lock_write_sync());

    let mut fut2 = attempt(&mut lock, EntryKind::Write);
    let mut fut3 = attempt(&mut lock, EntryKind::UpgradeRead);
    let mut fut4 = attempt(&mut lock, EntryKind::Read);
    let mut fut5 = attempt(&mut lock, EntryKind::Write);
    assert!(!poll(&mut lock, &mut fut2, &waker));

    // Notify fut2.
    lock.unlock_write();
    assert_eq!(1, count(&counter));

    // Try to steal the lock.
    assert!(!poll(&mut lock, &mut fut3, &waker));
    assert!(!poll(&mut lock, &mut fut4, &waker));
    assert!(!poll(&mut lock, &mut fut5, &waker));

    // Take the lock (and release it right away).
    assert!(poll(&mut lock, &mut fut2, &waker));
    lock.unlock_write();

    // Now fut3 & fut4 should have been signaled and be lockable
    assert_eq!(3, count(&counter));
    assert!(!poll(&mut lock, &mut fut5, &waker));

    assert!(poll(&mut lock, &mut fut3, &waker));
    lock.unlock_upgrade_read();
    assert!(poll(&mut lock, &mut fut4, &waker));
    lock.unlock_read();

    // Now fut5 should have been signaled and be lockable
    assert_eq!(4, count(&counter));
    assert!(poll(&mut lock, &mut fut5, &waker));
}

#[test]
fn waiters_on_fair_mutex_cant_acquire_future_while_another_task_is_notified() {
    let (waker, counter) = count_waker();
    let mut lock = MutexState::new(true);
    assert!(lock.try_lock_write_sync());

    let mut fut2 = attempt(&mut lock, EntryKind::Write);
    let mut fut3 = attempt(&mut lock, EntryKind::UpgradeRead);
    let mut fut4 = attempt(&mut lock, EntryKind::Read);
    let mut fut5 = attempt(&mut lock, EntryKind::Write);
    assert!(!poll(&mut lock, &mut fut2, &waker));
    assert!(!poll(&mut lock, &mut fut3, &waker));
    assert!(!poll(&mut lock, &mut fut4, &waker));

    lock.unlock_write();
    assert_eq!(1, count(&counter));

    assert!(!poll(&mut lock, &mut fut3, &waker));
    assert!(!poll(&mut lock, &mut fut4, &waker));
    assert!(!poll(&mut lock, &mut fut5, &waker));

    assert!(poll(&mut lock, &mut fut2, &waker));
    lock.unlock_write();
    assert_eq!(3, count(&counter));

    assert!(!poll(&mut lock, &mut fut5, &waker));
    assert!(poll(&mut lock, &mut fut3, &waker));
    lock.unlock_upgrade_read();
    assert!(poll(&mut lock, &mut fut4, &waker));
    lock.unlock_read();
    assert_eq!(4, count(&counter));
    assert!(poll(&mut lock, &mut fut5, &waker));
}

#[test]
fn poll_from_multiple_executors() {
    for is_fair in [true, false] {
        let (waker_1, count_1) = count_waker();
        let (waker_2, count_2) = count_waker();
        let mut lock = MutexState::new(is_fair);
        assert!(lock.try_lock_write_sync());

        let mut fut1 = attempt(&mut lock, EntryKind::Read);
        assert!(!poll(&mut lock, &mut fut1, &waker_1));
        assert!(!poll(&mut lock, &mut fut1, &waker_2));
        lock.unlock_write();
        assert_eq!(0, count(&count_1));
        assert_eq!(1, count(&count_2));
        assert!(poll(&mut lock, &mut fut1, &waker_2));

        let mut fut2 = attempt(&mut lock, EntryKind::Write);
        assert!(!poll(&mut lock, &mut fut2, &waker_1));
        assert!(!poll(&mut lock, &mut fut2, &waker_2));
        lock.unlock_read();
        assert_eq!(0, count(&count_1));
        assert_eq!(2, count(&count_2));
        assert!(poll(&mut lock, &mut fut2, &waker_2));

        let mut fut3 = attempt(&mut lock, EntryKind::UpgradeRead);
        assert!(!poll(&mut lock, &mut fut3, &waker_1));
        assert!(!poll(&mut lock, &mut fut3, &waker_2));
        lock.unlock_write();
        assert_eq!(0, count(&count_1));
        assert_eq!(3, count(&count_2));
        assert!(poll(&mut lock, &mut fut3, &waker_2));
    }
}

#[test]
fn upgrade_guard_has_priority_over_writer() {
    for is_fair in [true, false] {
        let (waker, counter) = count_waker();
        let mut lock = MutexState::new(is_fair);
        assert!(lock.try_lock_read_sync()); // guard1
        assert!(lock.try_lock_upgrade_read_sync()); // guard2

        let mut fut3 = attempt(&mut lock, EntryKind::Write);
        assert!(!poll(&mut lock, &mut fut3, &waker));

        // We can't upgrade because of the other reader.
        assert!(!lock.try_upgrade_read_sync());

        // Add contention for the write lock.
        lock.unlock_upgrade_read_for_upgrade();
        let mut fut4 = lock.new_upgrade_node();
        assert!(!poll(&mut lock, &mut fut4, &waker));
        assert_eq!(0, count(&counter));

        // This should wakeup the upgrading upgradable_read because it has priority.
        lock.unlock_read(); // guard1
        assert_eq!(1, count(&counter));

        // We got the write lock first because of priority.
        assert!(poll(&mut lock, &mut fut4, &waker));
        lock.unlock_write();
        assert_eq!(2, count(&counter));

        // Make sure the lock is released properly.
        assert!(poll(&mut lock, &mut fut3, &waker));
    }
}

#[test]
fn upgrade_guard_sync_contention() {
    for is_fair in [true, false] {
        let mut lock = MutexState::new(is_fair);
        assert!(lock.try_lock_read_sync()); // guard1
        assert!(lock.try_lock_upgrade_read_sync()); // guard2

        // We can't upgrade because of the other reader.
        assert!(!lock.try_upgrade_read_sync());
        lock.unlock_read();

        // Can't acquire a write lock because of the upgradable_read.
        assert!(!lock.try_lock_write_sync());

        // Now we can upgrade.
        assert!(lock.try_upgrade_read_sync());
        assert!(lock.is_exclusive());
        assert_eq!(0, lock.nb_readers());
    }
}

#[test]
fn fair_lock_queues_new_readers_behind_waiting_writer() {
    let (waker, _) = count_waker();
    let mut fair = MutexState::new(true);
    assert!(fair.try_lock_read_sync());
    let mut writer = attempt(&mut fair, EntryKind::Write);
    assert!(!poll(&mut fair, &mut writer, &waker));
    assert!(!fair.try_lock_read_sync());
    assert!(!fair.try_lock_upgrade_read_sync());

    let mut unfair = MutexState::new(false);
    assert!(unfair.try_lock_read_sync());
    let mut writer = attempt(&mut unfair, EntryKind::Write);
    assert!(!poll(&mut unfair, &mut writer, &waker));
    assert!(unfair.try_lock_read_sync());
    assert_eq!(2, unfair.nb_readers());
}

#[test]
fn giving_up_before_notification_wakes_nobody() {
    for is_fair in [true, false] {
        let (waker, counter) = count_waker();
        let mut lock = MutexState::new(is_fair);
        assert!(lock.try_lock_write_sync());
        let mut reader = attempt(&mut lock, EntryKind::Read);
        assert!(!poll(&mut lock, &mut reader, &waker));
        give_up(&mut lock, &mut reader);
        assert_eq!(NodeState::Done, reader.state);
        lock.unlock_write();
        assert_eq!(0, count(&counter));
        assert!(lock.try_lock_write_sync());
    }
}

#[test]
fn write_attempt_waits_without_touching_holders_then_takes_free_lock() {
    for is_fair in [true, false] {
        let (waker, _) = count_waker();
        let mut lock = MutexState::new(is_fair);
        assert!(lock.try_lock_read_sync());
        assert!(lock.try_lock_read_sync());
        let mut writer = attempt(&mut lock, EntryKind::Write);
        // The access is not free: the attempt waits, the readers stay.
        assert!(!poll(&mut lock, &mut writer, &waker));
        assert_eq!(NodeState::Registered, writer.state);
        assert_eq!(2, lock.nb_readers());
        assert!(!lock.is_exclusive());
        lock.unlock_read();
        assert!(!poll(&mut lock, &mut writer, &waker));
        assert_eq!(1, lock.nb_readers());
        lock.unlock_read();
        // Now the access is free: the writer holds it, and no reader does.
        assert!(poll(&mut lock, &mut writer, &waker));
        assert_eq!(NodeState::Done, writer.state);
        assert!(lock.is_exclusive());
        assert_eq!(0, lock.nb_readers());
        assert!(!lock.try_lock_read_sync());
    }
}
