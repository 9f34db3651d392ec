//! Creation of echo sessions on freshly accepted streams.
//!
//! The factory's session loop — read a frame, print it, answer with an
//! echo of it under the same framing — runs in the surrounding runtime;
//! the reply it sends for each received payload is fixed here.

use vstd::prelude::*;

verus! {

use crate::codec::push_range;

/// The bytes an echo reply puts before the received payload.
pub open spec fn echo_prefix() -> Seq<u8> {
    seq![69u8, 99u8, 104u8, 111u8, 58u8, 32u8]
}

/// Creates one echo session per accepted stream.
pub struct SessionFactory {}

impl SessionFactory {
    pub fn new() -> (f: SessionFactory) {
        SessionFactory {  }
    }

    /// The payload an echo session answers with: the received payload
    /// behind an `Echo: ` marker.
    pub fn echo_reply(&self, payload: &Vec<u8>) -> (r: Vec<u8>)
        ensures
            r@ == echo_prefix() + payload@,
    {
        let mut r: Vec<u8> = Vec::new();
        r.push(69u8);
        r.push(99u8);
        r.push(104u8);
        r.push(111u8);
        r.push(58u8);
        r.push(32u8);
        push_range(&mut r, payload.as_slice(), 0, payload.len());
        proof {
            assert(payload@.subrange(0, payload@.len() as int) =~= payload@);
            assert(r@ =~= echo_prefix() + payload@);
        }
        r
    }
}

} // verus!
