use std::collections::VecDeque;
use vstd::prelude::*;

verus! {

/// A Ring Buffer of items.
///
/// The abstract state of a buffer is the sequence of stored items, oldest
/// first (`items`), together with its capacity (`cap`).
pub trait RingBuf: Sized {
    /// The type of stored items inside the Ring Buffer
    type Item;

    /// The stored items, from the oldest to the most recently pushed one.
    spec fn items(&self) -> Seq<Self::Item>;

    /// The capacity of the buffer.
    spec fn cap(&self) -> nat;

    /// Well-formedness of the internal representation.
    spec fn wf(&self) -> bool;

    /// Creates a new instance of the Ring Buffer
    fn new() -> (buf: Self)
        ensures
            buf.wf(),
            buf.items() == Seq::<Self::Item>::empty(),
    ;

    /// Creates a new instance of the Ring Buffer with the given capacity.
    /// `RingBuf` implementations are allowed to ignore the `capacity` hint and
    /// utilize their default capacity.
    fn with_capacity(cap: usize) -> (buf: Self)
        ensures
            buf.wf(),
            buf.items() == Seq::<Self::Item>::empty(),
    ;

    /// The capacity of the buffer
    fn capacity(&self) -> (cap: usize)
        requires
            self.wf(),
        ensures
            cap == self.cap(),
    ;

    /// The amount of stored items in the buffer
    fn len(&self) -> (len: usize)
        requires
            self.wf(),
        ensures
            len == self.items().len(),
    ;

    /// Returns true if no item is stored inside the buffer.
    fn is_empty(&self) -> (empty: bool)
        requires
            self.wf(),
        ensures
            empty == (self.items().len() == 0),
    {
        self.len() == 0
    }

    /// Returns true if there is enough space in the buffer to
    /// store another item.
    fn can_push(&self) -> (ok: bool)
        requires
            self.wf(),
        ensures
            ok == (self.items().len() < self.cap()),
    ;

    /// Stores the item at the end of the buffer.
    /// There must be free space for it.
    fn push(&mut self, item: Self::Item)
        requires
            old(self).wf(),
            old(self).items().len() < old(self).cap(),
        ensures
            final(self).wf(),
            final(self).items() == old(self).items().push(item),
            final(self).cap() == old(self).cap(),
    ;

    /// Returns the oldest item inside the buffer.
    /// There must be an available item.
    fn pop(&mut self) -> (item: Self::Item)
        requires
            old(self).wf(),
            old(self).items().len() > 0,
        ensures
            final(self).wf(),
            item == old(self).items()[0],
            final(self).items() == old(self).items().drop_first(),
            final(self).cap() == old(self).cap(),
    ;
}

/// A Ring Buffer with the capability to change the capacity at runtime
pub trait AdjustableRingBuffer: RingBuf {
    /// Whether `set_capacity(new_cap)` can run without exhausting the
    /// platform's size limits.
    spec fn can_set_capacity(&self, new_cap: usize) -> bool;

    /// Change the capacity. Return `true` if capacity increased
    fn set_capacity(&mut self, new_cap: usize) -> (increased: bool)
        requires
            old(self).wf(),
            old(self).can_set_capacity(new_cap),
        ensures
            final(self).wf(),
            increased == (new_cap > old(self).cap()),
            final(self).cap() == new_cap,
            final(self).items() == old(self).items(),
    ;

    /// Returns `true` if buffer needs to be shrunk, typically after
    /// capacity decrease
    fn is_capacity_exceeded(&self) -> (exceeded: bool)
        requires
            self.wf(),
        ensures
            exceeded == (self.items().len() > self.cap()),
    ;
}

/// An array-backed Ring Buffer with room for exactly `N` items.
///
/// ```
/// use futures_intrusive::buffer::{ArrayBuf, RingBuf};
///
/// type Buffer5 = ArrayBuf<i32, 5>;
/// let buffer = Buffer5::new();
/// ```
#[derive(Debug)]
pub struct ArrayBuf<T, const N: usize> {
    buffer: Vec<Option<T>>,
    size: usize,
    recv_idx: usize,
    send_idx: usize,
}

impl<T, const N: usize> ArrayBuf<T, N> {
    /// The slot that holds the `i`-th oldest item.
    spec fn slot(&self, i: int) -> int {
        if self.recv_idx + i < N {
            self.recv_idx + i
        } else {
            self.recv_idx + i - N
        }
    }

    /// The index that follows `last_idx` when going around the array.
    pub fn next_idx(&self, last_idx: usize) -> (next: usize)
        requires
            last_idx < N,
        ensures
            next == (if last_idx + 1 == N { 0 } else { last_idx + 1 }),
    {
        if last_idx + 1 == N {
            return 0;
        }
        last_idx + 1
    }
}

impl<T, const N: usize> RingBuf for ArrayBuf<T, N> {
    type Item = T;

    closed spec fn items(&self) -> Seq<T> {
        Seq::new(self.size as nat, |i: int| self.buffer@[self.slot(i)]->Some_0)
    }

    closed spec fn cap(&self) -> nat {
        N as nat
    }

    closed spec fn wf(&self) -> bool {
        &&& self.buffer@.len() == N
        &&& self.size <= N
        &&& (N == 0 ==> self.recv_idx == 0 && self.send_idx == 0)
        &&& (N > 0 ==> self.recv_idx < N && self.send_idx < N)
        &&& (N > 0 ==> self.send_idx == self.slot(self.size as int) || self.size == N
            && self.send_idx == self.recv_idx)
        &&& forall|i: int| 0 <= i < self.size ==> (#[trigger] self.buffer@[self.slot(i)]) is Some
    }

    fn new() -> (buf: Self)
        ensures
            buf.wf(),
            buf.items() == Seq::<T>::empty(),
            buf.cap() == N,
    {
        let mut buffer: Vec<Option<T>> = Vec::new();
        let mut i: usize = 0;
        while i < N
            invariant
                i <= N,
                buffer@.len() == i,
            decreases N - i,
        {
            buffer.push(None);
            i = i + 1;
        }
        let buf = ArrayBuf { buffer, size: 0, recv_idx: 0, send_idx: 0 };
        assert(buf.items() =~= Seq::<T>::empty());
        buf
    }

    fn with_capacity(_cap: usize) -> (buf: Self)
        ensures
            buf.wf(),
            buf.items() == Seq::<T>::empty(),
            buf.cap() == N,
    {
        // The fixed size array backed Ring Buffer doesn't support an adjustable
        // capacity. Therefore only the default capacity is utilized.
        Self::new()
    }

    fn capacity(&self) -> (cap: usize) {
        N
    }

    fn len(&self) -> (len: usize) {
        self.size
    }

    fn can_push(&self) -> (ok: bool) {
        self.size != N
    }

    fn push(&mut self, value: T) {
        let ghost old_items = self.items();
        let ghost old_self = *self;
        let idx = self.send_idx;
        assert(idx == self.slot(self.size as int));
        let mut slot_value = Some(value);
        self.buffer.set_and_swap(idx, &mut slot_value);
        self.send_idx = self.next_idx(self.send_idx);
        self.size = self.size + 1;
        assert forall|i: int| 0 <= i < self.size implies (#[trigger] self.buffer@[self.slot(
            i,
        )]) is Some by {
            if i < self.size - 1 {
                assert(self.slot(i) == old_self.slot(i) && self.slot(i) != idx);
                assert(old_self.buffer@[old_self.slot(i)] is Some);
            } else {
                assert(self.slot(i) == idx);
            }
        }
        assert(self.items() =~= old_items.push(value)) by {
            assert forall|i: int| 0 <= i < old_items.len() implies self.items()[i]
                == old_items[i] by {
                assert(self.slot(i) == old_self.slot(i) && self.slot(i) != idx);
            }
        }
    }

    fn pop(&mut self) -> (item: T) {
        let ghost old_self = *self;
        let idx = self.recv_idx;
        assert(idx == self.slot(0));
        let mut slot_value: Option<T> = None;
        self.buffer.set_and_swap(idx, &mut slot_value);
        self.recv_idx = self.next_idx(self.recv_idx);
        self.size = self.size - 1;
        assert forall|i: int| 0 <= i < self.size implies self.slot(i) == old_self.slot(i + 1)
            && self.slot(i) != idx by {}
        assert(self.items() =~= old_self.items().drop_first());
        assert(slot_value is Some);
        slot_value.unwrap()
    }
}

/// An array-backed buffer never holds more than `N` items.
pub proof fn array_buf_holds_at_most_n<T, const N: usize>(buf: &ArrayBuf<T, N>)
    requires
        buf.wf(),
    ensures
        buf.items().len() <= buf.cap(),
        buf.cap() == N,
{
}

/// A Ring Buffer which stores all items on the heap.
///
/// The `FixedHeapBuf` will allocate its capacity ahead of time. This is good
/// fit when you have a constant latency between two components.
#[derive(Debug)]
pub struct FixedHeapBuf<T> {
    buffer: VecDeque<T>,
    /// The capacity is stored extra, since VecDeque can allocate space for
    /// more elements than specified.
    cap: usize,
    needs_shrinking: bool,
}

impl<T> RingBuf for FixedHeapBuf<T> {
    type Item = T;

    closed spec fn items(&self) -> Seq<T> {
        self.buffer@
    }

    closed spec fn cap(&self) -> nat {
        self.cap as nat
    }

    closed spec fn wf(&self) -> bool {
        self.needs_shrinking == (self.buffer@.len() > self.cap)
    }

    fn new() -> (buf: Self)
        ensures
            buf.wf(),
            buf.items() == Seq::<T>::empty(),
            buf.cap() == 0,
    {
        FixedHeapBuf { buffer: VecDeque::new(), cap: 0, needs_shrinking: false }
    }

    fn with_capacity(cap: usize) -> (buf: Self)
        ensures
            buf.wf(),
            buf.items() == Seq::<T>::empty(),
            buf.cap() == cap,
    {
        FixedHeapBuf { buffer: VecDeque::with_capacity(cap), cap, needs_shrinking: false }
    }

    fn capacity(&self) -> (cap: usize) {
        self.cap
    }

    fn len(&self) -> (len: usize) {
        self.buffer.len()
    }

    fn can_push(&self) -> (ok: bool) {
        self.buffer.len() < self.cap
    }

    fn push(&mut self, value: T) {
        self.buffer.push_back(value);
    }

    fn pop(&mut self) -> (item: T) {
        let element = self.buffer.pop_front().unwrap();
        self.try_shrink();
        element
    }
}

impl<T> FixedHeapBuf<T> {
    /// Whether the buffer is marked for shrinking once it fits into its
    /// capacity again.
    pub closed spec fn shrink_pending(&self) -> bool {
        self.needs_shrinking
    }

    /// In a well-formed buffer, shrinking is pending exactly while the
    /// buffer holds more items than its capacity.
    pub proof fn shrink_pending_while_over_capacity(&self)
        requires
            self.wf(),
        ensures
            self.shrink_pending() == (self.items().len() > self.cap()),
    {
    }

    /// Gives back excess memory once the stored items fit into the
    /// requested capacity again.
    pub fn try_shrink(&mut self)
        requires
            old(self).items().len() > old(self).cap() ==> old(self).shrink_pending(),
        ensures
            final(self).wf(),
            final(self).items() == old(self).items(),
            final(self).cap() == old(self).cap(),
            final(self).shrink_pending() == (final(self).items().len() > final(self).cap()),
    {
        if self.needs_shrinking {
            let buffer_len = self.buffer.len();
            // we must reduce the size of the buffer once we reach the desired capacity
            if buffer_len <= self.cap {
                shrink_to_fit(&mut self.buffer);
                self.buffer.reserve(self.cap - buffer_len);
                self.needs_shrinking = false;
            }
        }
    }
}

impl<T> AdjustableRingBuffer for FixedHeapBuf<T> {
    /// Growing reserves the extra room at once, so the stored items plus the
    /// growth must fit into `usize`.
    open spec fn can_set_capacity(&self, new_cap: usize) -> bool {
        new_cap > self.cap() ==> self.items().len() + (new_cap - self.cap()) <= usize::MAX
    }

    /// Changes the capacity of the channel. If it increased, additional capacity
    /// will immediately be reserved. If it decreased, the buffer will be shrunk
    /// immediately (in case there are no excessive elements), or after reaching
    /// the desired length.
    fn set_capacity(&mut self, new_cap: usize) -> (increased: bool) {
        if self.cap == new_cap {
            return false;
        }
        let ret = if new_cap < self.cap {
            // current capacity is bigger than requested. we need to shrink buffer once it
            // reaches the new capacity
            self.needs_shrinking = true;
            false
        } else {
            reserve_exact(&mut self.buffer, new_cap - self.cap);
            true
        };
        self.cap = new_cap;
        self.try_shrink();
        ret
    }

    fn is_capacity_exceeded(&self) -> (exceeded: bool) {
        self.needs_shrinking
    }
}

/// A Ring Buffer which stores all items on the heap but grows dynamically.
///
/// A `GrowingHeapBuf` does not allocate the capacity ahead of time, as
/// opposed to the `FixedHeapBuf`. This makes it a good fit when you have
/// unpredictable latency between two components, when you want to
/// amortize your allocation costs or when you are using an external
/// back-pressure mechanism.
#[derive(Debug)]
pub struct GrowingHeapBuf<T> {
    buffer: VecDeque<T>,
    /// The maximum number of elements in the buffer.
    limit: usize,
    needs_shrinking: bool,
}

impl<T> RingBuf for GrowingHeapBuf<T> {
    type Item = T;

    closed spec fn items(&self) -> Seq<T> {
        self.buffer@
    }

    closed spec fn cap(&self) -> nat {
        self.limit as nat
    }

    closed spec fn wf(&self) -> bool {
        self.needs_shrinking == (self.buffer@.len() > self.limit)
    }

    fn new() -> (buf: Self)
        ensures
            buf.wf(),
            buf.items() == Seq::<T>::empty(),
            buf.cap() == 0,
    {
        GrowingHeapBuf { buffer: VecDeque::new(), limit: 0, needs_shrinking: false }
    }

    fn with_capacity(limit: usize) -> (buf: Self)
        ensures
            buf.wf(),
            buf.items() == Seq::<T>::empty(),
            buf.cap() == limit,
    {
        GrowingHeapBuf { buffer: VecDeque::new(), limit, needs_shrinking: false }
    }

    fn capacity(&self) -> (cap: usize) {
        self.limit
    }

    fn len(&self) -> (len: usize) {
        self.buffer.len()
    }

    fn can_push(&self) -> (ok: bool) {
        self.buffer.len() < self.limit
    }

    fn push(&mut self, value: T) {
        self.buffer.push_back(value);
    }

    fn pop(&mut self) -> (item: T) {
        let element = self.buffer.pop_front().unwrap();
        self.try_shrink();
        element
    }
}

impl<T> GrowingHeapBuf<T> {
    /// Whether the buffer is marked for shrinking once it fits into its
    /// limit again.
    pub closed spec fn shrink_pending(&self) -> bool {
        self.needs_shrinking
    }

    /// In a well-formed buffer, shrinking is pending exactly while the
    /// buffer holds more items than its limit.
    pub proof fn shrink_pending_while_over_limit(&self)
        requires
            self.wf(),
        ensures
            self.shrink_pending() == (self.items().len() > self.cap()),
    {
    }

    /// Gives back excess memory once the stored items fit into the
    /// limit again.
    pub fn try_shrink(&mut self)
        requires
            old(self).items().len() > old(self).cap() ==> old(self).shrink_pending(),
        ensures
            final(self).wf(),
            final(self).items() == old(self).items(),
            final(self).cap() == old(self).cap(),
            final(self).shrink_pending() == (final(self).items().len() > final(self).cap()),
    {
        if self.needs_shrinking {
            // we must reduce the size of the buffer once we reach the desired capacity
            if self.buffer.len() <= self.limit {
                shrink_to_fit(&mut self.buffer);
                self.needs_shrinking = false;
            }
        }
    }
}

impl<T> AdjustableRingBuffer for GrowingHeapBuf<T> {
    /// Nothing is reserved ahead of time, so any limit can be set.
    open spec fn can_set_capacity(&self, new_cap: usize) -> bool {
        true
    }

    /// Changes the capacity of the channel. If it increased, no immediate reservation
    /// will happen. If it decreased, the buffer will be shrunk immediately (in case
    /// there are no excessive elements), or after reaching the desired length.
    fn set_capacity(&mut self, new_limit: usize) -> (increased: bool) {
        if self.limit == new_limit {
            return false;
        }
        let ret = if new_limit < self.limit {
            // current capacity is bigger than requested. we need to shrink buffer once it
            // reaches the new capacity
            self.needs_shrinking = true;
            false
        } else {
            true
        };
        self.limit = new_limit;
        self.try_shrink();
        ret
    }

    fn is_capacity_exceeded(&self) -> (exceeded: bool) {
        self.needs_shrinking
    }
}

/// Calls `VecDeque::shrink_to_fit`, which releases unused memory; the
/// documentation states that the stored elements are left as they are.
#[verifier::external_body]
fn shrink_to_fit<T>(buffer: &mut VecDeque<T>)
    ensures
        final(buffer)@ == old(buffer)@,
{
    buffer.shrink_to_fit();
}

/// Calls `VecDeque::reserve_exact`, which only allocates; the stored elements
/// are left as they are. It panics when the new capacity overflows `usize`,
/// which the precondition rules out.
#[verifier::external_body]
fn reserve_exact<T>(buffer: &mut VecDeque<T>, additional: usize)
    requires
        old(buffer)@.len() + additional <= usize::MAX,
    ensures
        final(buffer)@ == old(buffer)@,
{
    buffer.reserve_exact(additional);
}

} // verus!
