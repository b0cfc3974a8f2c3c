# futures_intrusive

Futures-aware synchronization primitives, built around verified state machines.

- `src/` is the verified library:
  - `buffer`: ring buffers (`ArrayBuf`, `FixedHeapBuf`, `GrowingHeapBuf`) behind the
    `RingBuf` and `AdjustableRingBuffer` traits, specified as first-in, first-out
    sequences with a capacity.
  - `channel::mpmc`: the state machine of a multi producer multi consumer channel.
    Values leave the channel in the order in which they entered it, counting the
    values of waiting senders behind the buffered ones.
  - `sync::rwlock`: the state machine of a fair or unfair reader-writer lock with
    upgradable readers, including which waiters a release marks as notified. A
    notified waiter gives up the waker it held; that the waker then schedules its
    task is up to the executor and is not specified.
  - `sync::manual_reset_event`: the state machine of an event that tasks wait for.
    Its waits are kept in a `Vec` with integer ids rather than in a
    `pin_list::PinList`: that list links nodes that the waiting futures own and
    hands them over as `Pin<&mut pin_list::Node<_>>`, and Verus supports neither
    `Pin` nor a declaration of `pin_list::Node` or `pin_list::PinList`, whose
    parameter is bounded by the trait `pin_list::Types`.
  - `task`: the `Poll` outcome and the calls into `std::task::Waker`.
- `app/` holds the asynchronous layer: futures, guards and handles that keep each
  state machine behind a `lock_api` mutex and poll it with the current task's waker.
- `tests/` exercises the library on concrete scenarios.
