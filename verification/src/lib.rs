//! Fan-out of raw input events to network subscribers.
//!
//! The crate holds the logic of an input-event broadcast service: the wire
//! format of one event ([`wire`], [`frame`]), the bounded broadcast bus
//! ([`bus`]), the device listener's control state machine ([`listener`]), the
//! per-connection protocol ([`connection`]) and the bookkeeping of a fixed
//! worker pool ([`pool`]). Device access, sockets and threads are left to the
//! program built on top of it.

pub mod event;
pub mod wire;
pub mod frame;
pub mod bus;
pub mod listener;
pub mod connection;
pub mod pool;
