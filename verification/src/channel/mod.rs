//! Asynchronous channels.
//!
//! This module provides the state machine behind an asynchronously awaitable
//! multi producer multi consumer channel.

mod error;
pub use self::error::ChannelSendError;

pub mod mpmc;

pub mod shared;
