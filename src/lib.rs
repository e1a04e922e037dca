//! A TFTP (RFC 1350) transfer engine with a sliding-window reliability layer.
//!
//! The wire codec, the send-side window and the receive-side reassembly are
//! plain state machines with proved contracts; sockets, files and clocks stay
//! with the caller, which feeds events in and performs the returned actions.
pub mod bits;
pub mod error;
pub mod header;
pub mod wire;
pub mod send;
pub mod receive;
pub mod session;
pub mod types;
