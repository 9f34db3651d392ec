//! The acceptor's shared state: one server owns one session factory and is
//! handed out behind an `Arc`, so every accepted stream's thread can reach
//! the factory. Listening and accepting live in the surrounding runtime.

use vstd::prelude::*;
use std::sync::Arc;

verus! {

use crate::session_factory::SessionFactory;

/// Accepts incoming streams and hands each to the session factory.
pub struct SocketServer {
    session_factory: SessionFactory,
}

impl SocketServer {
    /// A server around the given factory, shared for the accept loop and
    /// its per-stream threads.
    pub fn new(session_factory: SessionFactory) -> (s: Arc<SocketServer>) {
        Arc::new(SocketServer { session_factory })
    }

    /// The factory a freshly accepted stream's session is created by.
    pub fn session_factory(&self) -> (f: &SessionFactory) {
        &self.session_factory
    }
}

} // verus!
