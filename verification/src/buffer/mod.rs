//! Buffer types

mod ring_buffer;

pub use ring_buffer::{AdjustableRingBuffer, ArrayBuf, FixedHeapBuf, GrowingHeapBuf, RingBuf};
