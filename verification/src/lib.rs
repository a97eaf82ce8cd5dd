//! Bridges a TCP listener and its accepted connections into one event
//! stream for a reactive UI loop.
//!
//! The crate holds the decisions of that bridge: which peer addresses have
//! an active receive loop, what a receiver emits for each read outcome, what
//! a listener emits for each accept outcome, and which staged sockets become
//! receivers on a tick. A socket is an opaque value of a type parameter: it
//! is moved from the listener's status into the staging area and from there
//! into the one receiver that owns it. Binding, accepting and reading are
//! done by the caller, which hands the outcomes in as plain values.

pub mod address;
pub mod events;
pub mod listener;
pub mod receiver;
pub mod registry;
pub mod router;
