//! Sessions, their measurement, and the messages that measure them.

pub mod error;
pub mod ghostxform;
pub mod measurement;
pub mod measurement_laws;
pub mod message_laws;
pub mod node;
pub mod payload;
pub mod peers;
pub mod pingresponder;
pub mod session_laws;
pub mod sessions;
pub mod timeline;
