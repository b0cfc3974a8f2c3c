//! Asynchronous synchronization primitives.
//!
//! This module provides the state machines behind primitives for
//! synchronizing concurrently executing futures.

pub mod manual_reset_event;
pub mod rwlock;
