use futures_intrusive::buffer::{AdjustableRingBuffer, ArrayBuf, FixedHeapBuf, GrowingHeapBuf, RingBuf};
use futures_intrusive::channel::mpmc::{ChannelState, RecvWaitNode, SendWaitNode};
use futures_intrusive::channel::shared::{exceeds_max_refcount, is_last_handle};
use futures_intrusive::channel::ChannelSendError;
use futures_intrusive::task::Poll;
use std::sync::atomic::{AtomicUsize, Ordering};
use std::sync::Arc;
use std::task::{Wake, Waker};

struct Counter(AtomicUsize);

impl Wake for Counter {
    fn wake(self: Arc<Self>) {
        self.0.fetch_add(1, Ordering::SeqCst);
    }
}

fn count_waker() -> (Waker, Arc<Counter>) {
    let counter = Arc::new(Counter(AtomicUsize::new(0)));
    (Waker::from(counter.clone()), counter)
}

fn count(counter: &Arc<Counter>) -> usize {
    counter.0.load(Ordering::SeqCst)
}

fn send<A: RingBuf<Item = u32>>(
    ch: &mut ChannelState<u32, A>,
    node: &mut SendWaitNode<u32>,
    waker: &Waker,
) -> (bool, Option<u32>) {
    let (poll, value) = ch.try_send(node, waker);
    (poll.is_ready(), value)
}

#[test]
fn buffered_values_come_out_in_order() {
    let (waker, _) = count_waker();
    let mut ch = ChannelState::new(FixedHeapBuf::<u32>::with_capacity(2));
    let mut s1 = ch.new_send_node(1);
    let mut s2 = ch.new_send_node(2);
    let mut s3 = ch.new_send_node(3);
    assert_eq!((true, None), send(&mut ch, &mut s1, &waker));
    assert_eq!((true, None), send(&mut ch, &mut s2, &waker));
    // The buffer is full: the third sender waits with its value.
    assert_eq!((false, None), send(&mut ch, &mut s3, &waker));
    assert!(s3.registered);

    let mut r = ch.new_recv_node();
    assert_eq!(Poll::Ready(Some(1)), ch.try_receive(&mut r, &waker));
    // The waiting sender moved its value into the buffer.
    assert_eq!((true, None), send(&mut ch, &mut s3, &waker));
    assert!(!s3.registered);
    let mut r = ch.new_recv_node();
    assert_eq!(Poll::Ready(Some(2)), ch.try_receive(&mut r, &waker));
    let mut r = ch.new_recv_node();
    assert_eq!(Poll::Ready(Some(3)), ch.try_receive(&mut r, &waker));
    let mut r = ch.new_recv_node();
    assert_eq!(Poll::Pending, ch.try_receive(&mut r, &waker));
    assert!(r.registered);
}

#[test]
fn unbuffered_channel_hands_values_over_directly() {
    let (waker, counter) = count_waker();
    let mut ch = ChannelState::new(ArrayBuf::<u32, 0>::new());
    let mut r = ch.new_recv_node();
    assert_eq!(Poll::Pending, ch.try_receive(&mut r, &waker));

    let mut s = ch.new_send_node(42);
    assert_eq!((false, None), send(&mut ch, &mut s, &waker));
    // The waiting receiver got notified.
    assert_eq!(1, count(&counter));
    assert_eq!(Poll::Ready(Some(42)), ch.try_receive(&mut r, &waker));
    // The sender got notified that its value was taken.
    assert_eq!(2, count(&counter));
    assert_eq!((true, None), send(&mut ch, &mut s, &waker));
}

#[test]
fn receivers_are_notified_oldest_first() {
    let (waker1, counter1) = count_waker();
    let (waker2, counter2) = count_waker();
    let mut ch = ChannelState::new(GrowingHeapBuf::<u32>::with_capacity(4));
    let mut r1 = ch.new_recv_node();
    let mut r2 = ch.new_recv_node();
    assert_eq!(Poll::Pending, ch.try_receive(&mut r1, &waker1));
    assert_eq!(Poll::Pending, ch.try_receive(&mut r2, &waker2));
    // A waiting receiver stays pending until notified.
    assert_eq!(Poll::Pending, ch.try_receive(&mut r1, &waker1));

    let mut s = ch.new_send_node(5);
    assert_eq!((true, None), send(&mut ch, &mut s, &waker1));
    assert_eq!(1, count(&counter1));
    assert_eq!(0, count(&counter2));

    // The notified receiver gives up: the next one is notified instead.
    ch.remove_receive_waiter(&mut r1);
    assert!(!r1.registered);
    assert_eq!(1, count(&counter2));
    assert_eq!(Poll::Ready(Some(5)), ch.try_receive(&mut r2, &waker2));
}

#[test]
fn close_returns_values_of_waiting_senders() {
    let (waker, counter) = count_waker();
    let mut ch = ChannelState::new(ArrayBuf::<u32, 1>::new());
    let mut s1 = ch.new_send_node(10);
    let mut s2 = ch.new_send_node(20);
    assert_eq!((true, None), send(&mut ch, &mut s1, &waker));
    assert_eq!((false, None), send(&mut ch, &mut s2, &waker));

    ch.close();
    assert_eq!(1, count(&counter));
    // The waiting sender gets its value back.
    assert_eq!((true, Some(20)), send(&mut ch, &mut s2, &waker));
    // New senders fail.
    let mut s3 = ch.new_send_node(30);
    assert_eq!((true, Some(30)), send(&mut ch, &mut s3, &waker));

    // The buffered value can still be received, then the channel reports
    // that it is closed.
    let mut r = ch.new_recv_node();
    assert_eq!(Poll::Ready(Some(10)), ch.try_receive(&mut r, &waker));
    let mut r = ch.new_recv_node();
    assert_eq!(Poll::Ready(None), ch.try_receive(&mut r, &waker));

    // Closing twice changes nothing.
    ch.close();
    let mut r = ch.new_recv_node();
    assert_eq!(Poll::Ready(None), ch.try_receive(&mut r, &waker));
}

#[test]
fn close_wakes_waiting_receivers() {
    let (waker, counter) = count_waker();
    let mut ch = ChannelState::new(FixedHeapBuf::<u32>::with_capacity(3));
    let mut r1 = ch.new_recv_node();
    let mut r2 = ch.new_recv_node();
    assert_eq!(Poll::Pending, ch.try_receive(&mut r1, &waker));
    assert_eq!(Poll::Pending, ch.try_receive(&mut r2, &waker));
    ch.close();
    assert_eq!(2, count(&counter));
    assert_eq!(Poll::Ready(None), ch.try_receive(&mut r1, &waker));
    assert_eq!(Poll::Ready(None), ch.try_receive(&mut r2, &waker));
}

#[test]
fn cancelled_sender_takes_its_value_out_of_the_queue() {
    let (waker, _) = count_waker();
    let mut ch = ChannelState::new(ArrayBuf::<u32, 1>::new());
    let mut s1 = ch.new_send_node(1);
    let mut s2 = ch.new_send_node(2);
    let mut s3 = ch.new_send_node(3);
    assert_eq!((true, None), send(&mut ch, &mut s1, &waker));
    assert_eq!((false, None), send(&mut ch, &mut s2, &waker));
    assert_eq!((false, None), send(&mut ch, &mut s3, &waker));
    ch.remove_send_waiter(&mut s2);
    assert!(!s2.registered);
    let mut r = ch.new_recv_node();
    assert_eq!(Poll::Ready(Some(1)), ch.try_receive(&mut r, &waker));
    let mut r = ch.new_recv_node();
    assert_eq!(Poll::Ready(Some(3)), ch.try_receive(&mut r, &waker));
}

#[test]
fn send_error_recovers_the_value() {
    let err = ChannelSendError(7u32);
    assert_eq!(ChannelSendError(7u32), err);
    assert_eq!(7, err.0);
}

#[test]
fn shared_channel_handle_rules() {
    assert!(is_last_handle(1));
    assert!(!is_last_handle(2));
    assert!(!is_last_handle(0));
    assert!(!exceeds_max_refcount(isize::MAX as usize));
    assert!(exceeds_max_refcount(isize::MAX as usize + 1));
    assert!(!exceeds_max_refcount(0));
}

#[test]
fn channel_hands_out_the_values_of_its_initial_buffer_first() {
    let (waker, _) = count_waker();
    let mut buf = FixedHeapBuf::<u32>::with_capacity(3);
    buf.push(7);
    buf.push(8);
    let mut ch = ChannelState::new(buf);
    let mut s = ch.new_send_node(9);
    assert_eq!((true, None), send(&mut ch, &mut s, &waker));
    for expected in [7, 8, 9] {
        let mut r = ch.new_recv_node();
        assert!(ch.has_room_for_waiting_value());
        assert_eq!(Poll::Ready(Some(expected)), ch.try_receive(&mut r, &waker));
    }
}

#[test]
fn overfull_initial_buffer_leaves_no_room_for_waiting_values() {
    let (waker, _) = count_waker();
    let mut buf = FixedHeapBuf::<u32>::with_capacity(3);
    buf.push(1);
    buf.push(2);
    buf.push(3);
    buf.set_capacity(1);
    let mut ch = ChannelState::new(buf);
    // No sender waits yet: values can be taken.
    assert!(ch.has_room_for_waiting_value());
    let mut s = ch.new_send_node(4);
    assert_eq!((false, None), send(&mut ch, &mut s, &waker));
    assert!(!ch.has_room_for_waiting_value());
}
