use futures_intrusive::sync::manual_reset_event::EventState;
use futures_intrusive::task::Poll;
use futures_intrusive::tracking::{NoopTracker, Tracker};
use futures_intrusive::NoopLock;
use std::sync::atomic::{AtomicUsize, Ordering};
use std::sync::Arc;
use std::task::{Wake, Waker};

struct Counter(AtomicUsize);

impl Wake for Counter {
    fn wake(self: Arc<Self>) {
        self.0.fetch_add(1, Ordering::SeqCst);
    }
}

fn count_waker() -> (Waker, Arc<Counter>) {
    let counter = Arc::new(Counter(AtomicUsize::new(0)));
    (Waker::from(counter.clone()), counter)
}

fn count(counter: &Arc<Counter>) -> usize {
    counter.0.load(Ordering::SeqCst)
}

#[test]
fn wait_on_set_event_completes_at_once() {
    let (waker, _) = count_waker();
    let mut ev = EventState::new(true);
    assert!(ev.is_set());
    let mut node = ev.new_node();
    assert_eq!(Poll::Ready(()), ev.try_wait(&mut node, &waker));
    assert!(!node.registered);
}

#[test]
fn set_wakes_all_waiters() {
    let (waker1, counter1) = count_waker();
    let (waker2, counter2) = count_waker();
    let mut ev = EventState::new(false);
    let mut n1 = ev.new_node();
    let mut n2 = ev.new_node();
    assert_eq!(Poll::Pending, ev.try_wait(&mut n1, &waker1));
    assert_eq!(Poll::Pending, ev.try_wait(&mut n2, &waker2));
    assert_eq!(Poll::Pending, ev.try_wait(&mut n1, &waker1));
    ev.set();
    assert_eq!(1, count(&counter1));
    assert_eq!(1, count(&counter2));
    assert_eq!(Poll::Ready(()), ev.try_wait(&mut n1, &waker1));
    assert_eq!(Poll::Ready(()), ev.try_wait(&mut n2, &waker2));
    // Setting again does not wake anybody.
    ev.set();
    assert_eq!(1, count(&counter1));
}

#[test]
fn woken_waiter_completes_after_reset() {
    let (waker, _) = count_waker();
    let mut ev = EventState::new(false);
    let mut node = ev.new_node();
    assert_eq!(Poll::Pending, ev.try_wait(&mut node, &waker));
    ev.set();
    ev.reset();
    assert!(!ev.is_set());
    assert_eq!(Poll::Ready(()), ev.try_wait(&mut node, &waker));
    // A new wait after the reset waits again.
    let mut node = ev.new_node();
    assert_eq!(Poll::Pending, ev.try_wait(&mut node, &waker));
}

#[test]
fn latest_waker_is_woken() {
    let (waker1, counter1) = count_waker();
    let (waker2, counter2) = count_waker();
    let mut ev = EventState::new(false);
    let mut node = ev.new_node();
    assert_eq!(Poll::Pending, ev.try_wait(&mut node, &waker1));
    assert_eq!(Poll::Pending, ev.try_wait(&mut node, &waker2));
    ev.set();
    assert_eq!(0, count(&counter1));
    assert_eq!(1, count(&counter2));
}

#[test]
fn removed_waiter_is_not_woken() {
    let (waker, counter) = count_waker();
    let mut ev = EventState::new(false);
    let mut node = ev.new_node();
    assert_eq!(Poll::Pending, ev.try_wait(&mut node, &waker));
    ev.remove_waiter(&mut node);
    assert!(!node.registered);
    ev.set();
    assert_eq!(0, count(&counter));
}

#[test]
fn noop_lock_always_locks() {
    let lock = NoopLock::init();
    lock.lock();
    assert!(lock.try_lock());
    lock.unlock();
    assert!(lock.try_lock());
}

#[test]
fn noop_tracker_reports_nothing() {
    let mut tracker = NoopTracker::default();
    Tracker::<u32>::track_incoming(&mut tracker, &1);
    Tracker::<u32>::track_outgoing(&mut tracker, &1);
    let report: () = Tracker::<u32>::report(&mut tracker);
    assert_eq!((), report);
    assert_eq!(NoopTracker, tracker);
}

#[test]
fn poll_reports_readiness() {
    let ready: Poll<u32> = Poll::Ready(3);
    let pending: Poll<u32> = Poll::Pending;
    assert!(ready.is_ready());
    assert!(!ready.is_pending());
    assert!(pending.is_pending());
    assert!(!pending.is_ready());
}
