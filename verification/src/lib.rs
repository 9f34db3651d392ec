//! Point-to-point transport core: length-delimited framing, a tagged message
//! protocol, and correlation of asynchronous responses to their callers.
//!
//! The crate holds the byte-level and state-machine logic of the transport;
//! socket handling, task scheduling and channel plumbing live outside it and
//! drive these functions with plain values.

pub mod codec;
pub mod message;
pub mod registry;
pub mod handler;
pub mod session;
pub mod session_factory;
pub mod socket_server;

pub use codec::Decoder;
