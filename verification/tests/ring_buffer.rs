use futures_intrusive::buffer::{
    AdjustableRingBuffer, ArrayBuf, FixedHeapBuf, GrowingHeapBuf, RingBuf,
};

fn test_ring_buf<Buf: RingBuf<Item = u32>>(mut buf: Buf) {
    assert_eq!(5, buf.capacity());
    assert_eq!(0, buf.len());
    assert_eq!(true, buf.is_empty());
    assert_eq!(true, buf.can_push());

    buf.push(1);
    buf.push(2);
    buf.push(3);
    assert_eq!(5, buf.capacity());
    assert_eq!(3, buf.len());
    assert_eq!(false, buf.is_empty());
    assert_eq!(true, buf.can_push());

    assert_eq!(1, buf.pop());
    assert_eq!(2, buf.pop());
    assert_eq!(1, buf.len());
    assert_eq!(false, buf.is_empty());
    assert_eq!(3, buf.pop());
    assert_eq!(0, buf.len());
    assert_eq!(true, buf.is_empty());

    for (i, val) in [4, 5, 6, 7, 8].iter().enumerate() {
        buf.push(*val);
        assert_eq!(i + 1, buf.len());
        assert_eq!(i != 4, buf.can_push());
        assert_eq!(false, buf.is_empty());
    }

    for (i, val) in [4, 5, 6, 7, 8].iter().enumerate() {
        assert_eq!(*val, buf.pop());
        assert_eq!(4 - i, buf.len());
        assert_eq!(true, buf.can_push());
        assert_eq!(i == 4, buf.is_empty());
    }
}

fn test_ring_buf_set_capacity<Buf: RingBuf<Item = u32> + AdjustableRingBuffer>(mut buf: Buf) {
    assert_eq!(5, buf.capacity());
    assert_eq!(0, buf.len());
    assert_eq!(true, buf.is_empty());
    assert_eq!(true, buf.can_push());
    assert_eq!(false, buf.is_capacity_exceeded());

    buf.push(1);
    buf.push(2);
    buf.push(3);

    buf.set_capacity(2);
    assert_eq!(false, buf.can_push());
    assert_eq!(true, buf.is_capacity_exceeded());

    assert_eq!(1, buf.pop());
    assert_eq!(false, buf.is_capacity_exceeded());
    assert_eq!(2, buf.pop());
    assert_eq!(true, buf.can_push());
    buf.push(4);

    buf.set_capacity(2);
    assert_eq!(false, buf.is_capacity_exceeded());
    assert_eq!(false, buf.can_push());
    buf.set_capacity(5);
    assert_eq!(true, buf.can_push());
    assert_eq!(false, buf.is_capacity_exceeded());
    buf.set_capacity(2);
}

#[test]
fn test_array_ring_buf() {
    let buf = ArrayBuf::<u32, 5>::new();
    test_ring_buf(buf);
}

#[test]
fn test_heap_ring_buf() {
    let buf = FixedHeapBuf::<u32>::with_capacity(5);
    test_ring_buf(buf);
}

#[test]
fn test_growing_ring_buf() {
    let buf = GrowingHeapBuf::<u32>::with_capacity(5);
    test_ring_buf(buf);
}

#[test]
fn test_heap_ring_buf_set_capacity() {
    let buf = FixedHeapBuf::<u32>::with_capacity(5);
    test_ring_buf_set_capacity(buf);
}

#[test]
fn test_growing_ring_buf_set_capacity() {
    let buf = GrowingHeapBuf::<u32>::with_capacity(5);
    test_ring_buf_set_capacity(buf);
}

#[test]
fn array_buf_wraps_around_many_times() {
    let mut buf = ArrayBuf::<u32, 3>::new();
    for round in 0..10u32 {
        buf.push(round * 2);
        buf.push(round * 2 + 1);
        assert_eq!(round * 2, buf.pop());
        assert_eq!(round * 2 + 1, buf.pop());
        assert!(buf.is_empty());
    }
    buf.push(7);
    buf.push(8);
    buf.push(9);
    assert!(!buf.can_push());
    assert_eq!(7, buf.pop());
    buf.push(10);
    assert_eq!(vec![8, 9, 10], vec![buf.pop(), buf.pop(), buf.pop()]);
}

#[test]
fn zero_sized_array_buf_can_never_push() {
    let buf = ArrayBuf::<u32, 0>::with_capacity(10);
    assert_eq!(0, buf.capacity());
    assert!(buf.is_empty());
    assert!(!buf.can_push());
}

#[test]
fn array_buf_ignores_capacity_hint() {
    let buf = ArrayBuf::<u32, 4>::with_capacity(100);
    assert_eq!(4, buf.capacity());
}

#[test]
fn heap_bufs_default_to_zero_capacity() {
    let fixed = FixedHeapBuf::<u32>::new();
    let growing = GrowingHeapBuf::<u32>::new();
    assert_eq!(0, fixed.capacity());
    assert_eq!(0, growing.capacity());
    assert!(!fixed.can_push());
    assert!(!growing.can_push());
}

#[test]
fn set_capacity_reports_increase_only() {
    let mut fixed = FixedHeapBuf::<u32>::with_capacity(3);
    assert_eq!(false, fixed.set_capacity(3));
    assert_eq!(true, fixed.set_capacity(4));
    assert_eq!(4, fixed.capacity());
    assert_eq!(false, fixed.set_capacity(1));
    assert_eq!(1, fixed.capacity());

    let mut growing = GrowingHeapBuf::<u32>::with_capacity(3);
    assert_eq!(false, growing.set_capacity(3));
    assert_eq!(true, growing.set_capacity(8));
    assert_eq!(false, growing.set_capacity(0));
    assert_eq!(0, growing.capacity());
}

#[test]
fn shrinking_keeps_items_in_order() {
    let mut buf = GrowingHeapBuf::<u32>::with_capacity(4);
    for v in 1..=4 {
        buf.push(v);
    }
    buf.set_capacity(1);
    assert!(buf.is_capacity_exceeded());
    assert_eq!(1, buf.pop());
    assert_eq!(2, buf.pop());
    assert!(buf.is_capacity_exceeded());
    assert_eq!(3, buf.pop());
    assert!(!buf.is_capacity_exceeded());
    assert!(!buf.can_push());
    assert_eq!(4, buf.pop());
    assert!(buf.can_push());
}
