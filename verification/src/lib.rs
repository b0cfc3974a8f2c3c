//! Synchronization primitives for asynchronous tasks, built around
//! verified state machines and ring buffers.

pub mod buffer;
pub mod channel;
mod noop_lock;
pub mod sync;
pub mod task;
pub mod tracking;

pub use noop_lock::NoopLock;
