//! The session side of a tempo-synchronisation protocol.
//!
//! Nodes on a network share a tempo and a beat by being in the same session. A
//! node measures the clock of a session by exchanging pings and pongs with one of
//! its members, and decides from the measurements which session to be in.
//!
//! - [`link::sessions`]: the sessions that a node knows, and when it switches.
//! - [`link::measurement`]: a measurement in progress, its data and its timer.
//! - [`link::pingresponder`]: messages, and the node that answers pings.
//! - [`link::payload`]: the entries of a message.
//! - [`duration`], [`encoding`], [`sync`]: spans of time, bytes, and locks.
//!
//! What the operations give for what they are given is stated, as laws that are
//! proved, in [`link::session_laws`], [`link::measurement_laws`] and
//! [`link::message_laws`].
//!
//! Nothing here reads a clock or a socket: times, datagrams and addresses come in
//! as values, and what to send goes out as values.

pub mod duration;
pub mod encoding;
pub mod link;
pub mod sync;
