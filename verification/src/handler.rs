//! Per-message decisions of the connection's reader path: interpret a
//! decoded payload and say what the runtime must do with it.
//!
//! The handler owns the session registry and performs the correlation
//! itself; everything that needs the outside world — running a dispatch
//! handler, writing a reply, delivering a result through a channel — is
//! returned as an `Action` for the surrounding runtime to perform.

use vstd::prelude::*;

verus! {

use vstd::arithmetic::div_mod::{
    lemma_fundamental_div_mod,
    lemma_div_denominator,
    lemma_multiply_divide_lt,
    lemma_mod_division_less_than_divisor,
    lemma_div_pos_is_pos,
    lemma_small_mod,
};
use crate::message::{Message, MessageView, msg_parse, decode_message};
use crate::registry::{SessionRegistry, RegistryError};

/// The value of an 8-byte big-endian correlation id.
pub open spec fn session_id_val(s: Seq<u8>) -> int
    recommends
        s.len() == 8,
{
    s[0] * 0x100000000000000 + s[1] * 0x1000000000000 + s[2] * 0x10000000000 + s[3] * 0x100000000
        + s[4] * 0x1000000 + s[5] * 0x10000 + s[6] * 0x100 + s[7]
}

/// The registry id a wire session id stands for: exactly the 8-byte
/// big-endian encodings carry one.
pub open spec fn wire_id(s: Seq<u8>) -> Option<u64> {
    if s.len() == 8 {
        Some(session_id_val(s) as u64)
    } else {
        None
    }
}

/// The mathematical shape of a result: its payloads as byte sequences.
pub open spec fn result_view(r: Result<Vec<u8>, Vec<u8>>) -> Result<Seq<u8>, Seq<u8>> {
    match r {
        Ok(payload) => Ok(payload@),
        Err(description) => Err(description@),
    }
}

/// Writes a registry id in its wire form: 8 big-endian bytes.
pub fn encode_session_id(id: u64) -> (r: Vec<u8>)
    ensures
        r@.len() == 8,
        session_id_val(r@) == id,
        wire_id(r@) == Some(id),
{
    proof {
        lemma_div_pos_is_pos(id as int, 0x100000000000000);
        lemma_multiply_divide_lt(id as int, 0x100000000000000, 0x100);
        lemma_small_mod((id as int / 0x100000000000000) as nat, 0x100);
        lemma_mod_division_less_than_divisor(id as int, 0x100);
        lemma_mod_division_less_than_divisor(id as int / 0x100, 0x100);
        lemma_mod_division_less_than_divisor(id as int / 0x10000, 0x100);
        lemma_mod_division_less_than_divisor(id as int / 0x1000000, 0x100);
        lemma_mod_division_less_than_divisor(id as int / 0x100000000, 0x100);
        lemma_mod_division_less_than_divisor(id as int / 0x10000000000, 0x100);
        lemma_mod_division_less_than_divisor(id as int / 0x1000000000000, 0x100);
        lemma_fundamental_div_mod(id as int, 0x100);
        lemma_fundamental_div_mod(id as int / 0x100, 0x100);
        lemma_fundamental_div_mod(id as int / 0x10000, 0x100);
        lemma_fundamental_div_mod(id as int / 0x1000000, 0x100);
        lemma_fundamental_div_mod(id as int / 0x100000000, 0x100);
        lemma_fundamental_div_mod(id as int / 0x10000000000, 0x100);
        lemma_fundamental_div_mod(id as int / 0x1000000000000, 0x100);
        lemma_div_denominator(id as int, 0x100, 0x100);
        lemma_div_denominator(id as int, 0x10000, 0x100);
        lemma_div_denominator(id as int, 0x1000000, 0x100);
        lemma_div_denominator(id as int, 0x100000000, 0x100);
        lemma_div_denominator(id as int, 0x10000000000, 0x100);
        lemma_div_denominator(id as int, 0x1000000000000, 0x100);
    }
    let mut r: Vec<u8> = Vec::new();
    r.push((id / 0x100000000000000) as u8);
    r.push(((id / 0x1000000000000) % 0x100) as u8);
    r.push(((id / 0x10000000000) % 0x100) as u8);
    r.push(((id / 0x100000000) % 0x100) as u8);
    r.push(((id / 0x1000000) % 0x100) as u8);
    r.push(((id / 0x10000) % 0x100) as u8);
    r.push(((id / 0x100) % 0x100) as u8);
    r.push((id % 0x100) as u8);
    r
}

/// Reads a wire session id back as a registry id; anything but 8 bytes
/// stands for no registry id.
pub fn decode_session_id(b: &Vec<u8>) -> (r: Option<u64>)
    ensures
        r == wire_id(b@),
{
    if b.len() != 8 {
        return None;
    }
    let id: u64 = (b[0] as u64) * 0x100000000000000 + (b[1] as u64) * 0x1000000000000 + (b[2]
        as u64) * 0x10000000000 + (b[3] as u64) * 0x100000000 + (b[4] as u64) * 0x1000000 + (b[5]
        as u64) * 0x10000 + (b[6] as u64) * 0x100 + (b[7] as u64);
    Some(id)
}

/// What the runtime must do with one decoded payload.
pub enum Action<T> {
    /// An invocation request arrived: run the named operation through the
    /// dispatch collaborator, then wrap its result with `handle_request`
    /// and send the response.
    Dispatch { session_id: Vec<u8>, method: Vec<u8>, params: Vec<u8> },
    /// A response matched a pending invocation: deliver the result through
    /// the caller's handle.
    Deliver { receiver: T, result: Result<Vec<u8>, Vec<u8>> },
    /// A push arrived: forward it to the application layer and send the ack
    /// built by `handle_server_push`.
    Push { session_id: Vec<u8>, event: Vec<u8>, data: Vec<u8> },
    /// The peer acknowledged the push with this id.
    AckReceived { session_id: Vec<u8> },
    /// The payload is not a well-formed message: report it and carry on —
    /// the connection survives.
    ReportMalformed,
    /// A response correlates with nothing pending — stale or duplicate:
    /// report it; no other pending invocation is affected.
    ReportUnknownSession { session_id: Vec<u8> },
}

/// Interprets each decoded payload and correlates responses with pending
/// invocations through its registry.
pub struct MessageHandler<T> {
    /// The pending-invocation table this handler fulfills and cancels.
    pub registry: SessionRegistry<T>,
}

impl<T> MessageHandler<T> {
    /// A handler with an empty registry.
    pub fn new() -> (h: MessageHandler<T>)
        ensures
            h.registry.wf(),
            h.registry.counter() == 0,
            h.registry.entries() == Seq::<(u64, T)>::empty(),
    {
        MessageHandler { registry: SessionRegistry::new() }
    }

    /// Wraps a dispatch collaborator's result into the single response owed
    /// for the request with this id.
    pub fn handle_request(&self, session_id: Vec<u8>, result: Result<Vec<u8>, Vec<u8>>) -> (m:
        Message)
        ensures
            m == (Message::InvocationResponse { session_id, result }),
    {
        Message::InvocationResponse { session_id, result }
    }

    /// Builds the ack owed for a push with this id; acks are independent
    /// per push id.
    pub fn handle_server_push(&self, session_id: Vec<u8>) -> (m: Message)
        ensures
            m == (Message::ServerPushAck { session_id }),
    {
        Message::ServerPushAck { session_id }
    }

    /// Removes and returns the pending handle a response's wire id selects:
    /// `UnknownSession` when the id is not 8 bytes or nothing is pending
    /// under it.
    pub fn handle_response(&mut self, session_id: &Vec<u8>) -> (r: Result<T, RegistryError>)
        requires
            old(self).registry.wf(),
        ensures
            final(self).registry.wf(),
            final(self).registry.counter() == old(self).registry.counter(),
            match wire_id(session_id@) {
                Some(id) => {
                    &&& old(self).registry.pending_map().dom().contains(id) ==> {
                        &&& r matches Ok(tx)
                        &&& old(self).registry.pending_map().contains_pair(id, tx)
                        &&& final(self).registry.pending_map() == old(self).registry.pending_map().remove(id)
                    }
                    &&& !old(self).registry.pending_map().dom().contains(id) ==> {
                        &&& r == Err::<T, RegistryError>(RegistryError::UnknownSession)
                        &&& final(self).registry.entries() == old(self).registry.entries()
                    }
                },
                None => {
                    &&& r == Err::<T, RegistryError>(RegistryError::UnknownSession)
                    &&& final(self).registry.entries() == old(self).registry.entries()
                },
            },
    {
        match decode_session_id(session_id) {
            Some(id) => self.registry.complete(id),
            None => Err(RegistryError::UnknownSession),
        }
    }

    /// One step of the reader path: interpret a decoded payload, correlate
    /// it if it is a response, and say what the runtime does next.
    pub fn on_payload(&mut self, payload: &Vec<u8>) -> (a: Action<T>)
        requires
            old(self).registry.wf(),
        ensures
            final(self).registry.wf(),
            final(self).registry.counter() == old(self).registry.counter(),
            match msg_parse(payload@) {
                None => {
                    &&& a is ReportMalformed
                    &&& final(self).registry.entries() == old(self).registry.entries()
                },
                Some(m) => match m {
                    MessageView::InvocationRequest { session_id, method, params } => {
                        &&& a matches Action::Dispatch { session_id: s, method: me, params: p }
                            && s@ == session_id && me@ == method && p@ == params
                        &&& final(self).registry.entries() == old(self).registry.entries()
                    },
                    MessageView::InvocationResponse { session_id, result } => match wire_id(session_id) {
                        Some(id) => {
                            &&& old(self).registry.pending_map().dom().contains(id) ==> {
                                &&& a matches Action::Deliver { receiver, result: res }
                                    && old(self).registry.pending_map().contains_pair(id, receiver)
                                    && result_view(res) == result
                                &&& final(self).registry.pending_map() == old(self).registry.pending_map().remove(id)
                            }
                            &&& !old(self).registry.pending_map().dom().contains(id) ==> {
                                &&& a matches Action::ReportUnknownSession { session_id: s }
                                    && s@ == session_id
                                &&& final(self).registry.entries() == old(self).registry.entries()
                            }
                        },
                        None => {
                            &&& a matches Action::ReportUnknownSession { session_id: s } && s@
                                == session_id
                            &&& final(self).registry.entries() == old(self).registry.entries()
                        },
                    },
                    MessageView::ServerPush { session_id, event, data } => {
                        &&& a matches Action::Push { session_id: s, event: e, data: d } && s@
                            == session_id && e@ == event && d@ == data
                        &&& final(self).registry.entries() == old(self).registry.entries()
                    },
                    MessageView::ServerPushAck { session_id } => {
                        &&& a matches Action::AckReceived { session_id: s } && s@ == session_id
                        &&& final(self).registry.entries() == old(self).registry.entries()
                    },
                },
            },
    {
        match decode_message(payload) {
            Err(_) => Action::ReportMalformed,
            Ok(m) => match m {
                Message::InvocationRequest { session_id, method, params } => (
                    Action::Dispatch { session_id, method, params }
                ),
                Message::InvocationResponse { session_id, result } => {
                    match self.handle_response(&session_id) {
                        Ok(receiver) => Action::Deliver { receiver, result },
                        Err(_) => Action::ReportUnknownSession { session_id },
                    }
                },
                Message::ServerPush { session_id, event, data } => (
                    Action::Push { session_id, event, data }
                ),
                Message::ServerPushAck { session_id } => Action::AckReceived { session_id },
            },
        }
    }
}

} // verus!
