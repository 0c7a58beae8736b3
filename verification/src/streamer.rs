//! The live streaming server's side of a session.
pub mod session;
pub mod alis;
pub mod forwarder;
