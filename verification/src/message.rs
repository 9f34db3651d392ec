//! The tagged-union payload format exchanged once framing is removed:
//! invocation requests and responses, server pushes and their acks, each
//! carrying an opaque correlation id.
//!
//! A payload is self-describing: a one-byte kind tag followed by the
//! variant's fields, each field a 4-byte big-endian length and that many
//! bytes. An invocation response additionally carries a one-byte result tag:
//! success with a payload or failure with a description, never both. A
//! payload that deviates from this shape in any way fails the decode with
//! `MalformedMessage`; such a failure is reported and never tears down the
//! connection.

use vstd::prelude::*;

verus! {

use crate::codec::{be32_val, be32_bytes, be32_encode, push_range, lemma_be32_round};

/// Decoding failure: the payload is not a well-formed message.
#[derive(Clone, Copy, Debug, PartialEq, Eq, Structural)]
pub enum MessageError {
    MalformedMessage,
}

/// A protocol message. Every variant carries the correlation id that links
/// a request to its response or a push to its ack; ids, method and event
/// names, and parameter or result bytes are all opaque to the transport.
#[derive(Debug, PartialEq, Eq)]
pub enum Message {
    /// Caller requests execution of a named operation.
    InvocationRequest { session_id: Vec<u8>, method: Vec<u8>, params: Vec<u8> },
    /// The single expected answer to a request: a success payload or a
    /// failure description.
    InvocationResponse { session_id: Vec<u8>, result: Result<Vec<u8>, Vec<u8>> },
    /// Unsolicited notification; the recipient is expected to ack it.
    ServerPush { session_id: Vec<u8>, event: Vec<u8>, data: Vec<u8> },
    /// Acknowledges the push with the same id.
    ServerPushAck { session_id: Vec<u8> },
}

/// The mathematical shape of a message: its fields as byte sequences.
pub enum MessageView {
    InvocationRequest { session_id: Seq<u8>, method: Seq<u8>, params: Seq<u8> },
    InvocationResponse { session_id: Seq<u8>, result: Result<Seq<u8>, Seq<u8>> },
    ServerPush { session_id: Seq<u8>, event: Seq<u8>, data: Seq<u8> },
    ServerPushAck { session_id: Seq<u8> },
}

impl View for Message {
    type V = MessageView;

    open spec fn view(&self) -> MessageView {
        match self {
            Message::InvocationRequest { session_id, method, params } => (
                MessageView::InvocationRequest {
                    session_id: session_id@,
                    method: method@,
                    params: params@,
                }
            ),
            Message::InvocationResponse { session_id, result } => (
                MessageView::InvocationResponse {
                    session_id: session_id@,
                    result: match result {
                        Ok(payload) => Ok(payload@),
                        Err(description) => Err(description@),
                    },
                }
            ),
            Message::ServerPush { session_id, event, data } => (
                MessageView::ServerPush { session_id: session_id@, event: event@, data: data@ }
            ),
            Message::ServerPushAck { session_id } => (
                MessageView::ServerPushAck { session_id: session_id@ }
            ),
        }
    }
}

/// Every field of the message is small enough for a 4-byte length prefix.
pub open spec fn msg_wf(m: MessageView) -> bool {
    match m {
        MessageView::InvocationRequest { session_id, method, params } => {
            session_id.len() < 0x100000000 && method.len() < 0x100000000 && params.len()
                < 0x100000000
        },
        MessageView::InvocationResponse { session_id, result } => {
            session_id.len() < 0x100000000 && (match result {
                Ok(payload) => payload.len() < 0x100000000,
                Err(description) => description.len() < 0x100000000,
            })
        },
        MessageView::ServerPush { session_id, event, data } => {
            session_id.len() < 0x100000000 && event.len() < 0x100000000 && data.len()
                < 0x100000000
        },
        MessageView::ServerPushAck { session_id } => session_id.len() < 0x100000000,
    }
}

/// A length-prefixed field: 4-byte big-endian length, then the bytes.
pub open spec fn field_bytes(b: Seq<u8>) -> Seq<u8>
    recommends
        b.len() < 0x100000000,
{
    be32_bytes(b.len() as int) + b
}

/// The canonical encoding of a message.
pub open spec fn message_bytes(m: MessageView) -> Seq<u8>
    recommends
        msg_wf(m),
{
    match m {
        MessageView::InvocationRequest { session_id, method, params } => {
            seq![1u8] + field_bytes(session_id) + field_bytes(method) + field_bytes(params)
        },
        MessageView::InvocationResponse { session_id, result } => {
            match result {
                Ok(payload) => seq![2u8] + field_bytes(session_id) + seq![0u8] + field_bytes(
                    payload,
                ),
                Err(description) => seq![2u8] + field_bytes(session_id) + seq![1u8] + field_bytes(
                    description,
                ),
            }
        },
        MessageView::ServerPush { session_id, event, data } => {
            seq![3u8] + field_bytes(session_id) + field_bytes(event) + field_bytes(data)
        },
        MessageView::ServerPushAck { session_id } => seq![4u8] + field_bytes(session_id),
    }
}

/// Splits one length-prefixed field off the front of `b`, or nothing when
/// `b` is too short for the length header or the declared bytes.
pub open spec fn parse_field(b: Seq<u8>) -> Option<(Seq<u8>, Seq<u8>)> {
    if b.len() < 4 {
        None
    } else {
        let n = be32_val(b.take(4));
        if b.len() < 4 + n {
            None
        } else {
            Some((b.subrange(4, 4 + n), b.skip(4 + n)))
        }
    }
}

/// What a payload decodes to: the unique message it encodes, or nothing when
/// it is malformed — wrong tag, truncated field, or trailing bytes.
pub open spec fn msg_parse(b: Seq<u8>) -> Option<MessageView> {
    if b.len() < 1 {
        None
    } else {
        let tag = b[0];
        let rest = b.skip(1);
        if tag == 1 {
            match parse_field(rest) {
                None => None,
                Some((session_id, r1)) => match parse_field(r1) {
                    None => None,
                    Some((method, r2)) => match parse_field(r2) {
                        None => None,
                        Some((params, r3)) => if r3.len() == 0 {
                            Some(MessageView::InvocationRequest { session_id, method, params })
                        } else {
                            None
                        },
                    },
                },
            }
        } else if tag == 2 {
            match parse_field(rest) {
                None => None,
                Some((session_id, r1)) => if r1.len() < 1 {
                    None
                } else {
                    let result_tag = r1[0];
                    let r2 = r1.skip(1);
                    if result_tag == 0 {
                        match parse_field(r2) {
                            None => None,
                            Some((payload, r3)) => if r3.len() == 0 {
                                Some(MessageView::InvocationResponse {
                                    session_id,
                                    result: Ok(payload),
                                })
                            } else {
                                None
                            },
                        }
                    } else if result_tag == 1 {
                        match parse_field(r2) {
                            None => None,
                            Some((description, r3)) => if r3.len() == 0 {
                                Some(MessageView::InvocationResponse {
                                    session_id,
                                    result: Err(description),
                                })
                            } else {
                                None
                            },
                        }
                    } else {
                        None
                    }
                },
            }
        } else if tag == 3 {
            match parse_field(rest) {
                None => None,
                Some((session_id, r1)) => match parse_field(r1) {
                    None => None,
                    Some((event, r2)) => match parse_field(r2) {
                        None => None,
                        Some((data, r3)) => if r3.len() == 0 {
                            Some(MessageView::ServerPush { session_id, event, data })
                        } else {
                            None
                        },
                    },
                },
            }
        } else if tag == 4 {
            match parse_field(rest) {
                None => None,
                Some((session_id, r1)) => if r1.len() == 0 {
                    Some(MessageView::ServerPushAck { session_id })
                } else {
                    None
                },
            }
        } else {
            None
        }
    }
}

/// Appends one length-prefixed field to an encoding under construction.
fn push_field(out: &mut Vec<u8>, field: &Vec<u8>)
    requires
        field@.len() < 0x100000000,
    ensures
        final(out)@ == old(out)@ + field_bytes(field@),
{
    let mut header = be32_encode(field.len() as u32);
    out.append(&mut header);
    push_range(out, field.as_slice(), 0, field.len());
    proof {
        assert(field@.subrange(0, field@.len() as int) =~= field@);
        assert(out@ =~= old(out)@ + field_bytes(field@));
    }
}

/// Serializes a message into its canonical payload bytes.
pub fn encode_message(m: &Message) -> (r: Vec<u8>)
    requires
        msg_wf(m@),
    ensures
        r@ == message_bytes(m@),
{
    let mut out: Vec<u8> = Vec::new();
    match m {
        Message::InvocationRequest { session_id, method, params } => {
            out.push(1u8);
            push_field(&mut out, session_id);
            push_field(&mut out, method);
            push_field(&mut out, params);
        },
        Message::InvocationResponse { session_id, result } => {
            out.push(2u8);
            push_field(&mut out, session_id);
            match result {
                Ok(payload) => {
                    out.push(0u8);
                    push_field(&mut out, payload);
                },
                Err(description) => {
                    out.push(1u8);
                    push_field(&mut out, description);
                },
            }
        },
        Message::ServerPush { session_id, event, data } => {
            out.push(3u8);
            push_field(&mut out, session_id);
            push_field(&mut out, event);
            push_field(&mut out, data);
        },
        Message::ServerPushAck { session_id } => {
            out.push(4u8);
            push_field(&mut out, session_id);
        },
    }
    proof {
        assert(out@ =~= message_bytes(m@));
    }
    out
}

/// Reads one length-prefixed field of `bytes` starting at `pos`, returning
/// the field and the position just past it.
fn read_field(bytes: &Vec<u8>, pos: usize) -> (r: Option<(Vec<u8>, usize)>)
    requires
        pos <= bytes@.len(),
    ensures
        match r {
            Some((field, end)) => {
                &&& pos < end <= bytes@.len()
                &&& parse_field(bytes@.skip(pos as int)) == Some((field@, bytes@.skip(end as int)))
            },
            None => parse_field(bytes@.skip(pos as int)) is None,
        },
{
    let len = bytes.len();
    if len - pos < 4 {
        return None;
    }
    let n32: u32 = (bytes[pos] as u32) * 0x1000000 + (bytes[pos + 1] as u32) * 0x10000 + (bytes[pos
        + 2] as u32) * 0x100 + (bytes[pos + 3] as u32);
    proof {
        assert(bytes@.skip(pos as int).take(4) =~= seq![
            bytes@[pos as int],
            bytes@[pos as int + 1],
            bytes@[pos as int + 2],
            bytes@[pos as int + 3],
        ]);
    }
    let n = n32 as usize;
    if n > len - pos - 4 {
        return None;
    }
    let end = pos + 4 + n;
    let mut field: Vec<u8> = Vec::new();
    push_range(&mut field, bytes.as_slice(), pos + 4, end);
    proof {
        assert(field@ =~= bytes@.skip(pos as int).subrange(4, 4 + n as int));
        assert(bytes@.skip(pos as int).skip(4 + n as int) =~= bytes@.skip(end as int));
    }
    Some((field, end))
}

/// Deserializes a payload: the unique message it encodes, or
/// `MalformedMessage` exactly when no message has this encoding.
#[verifier::rlimit(60)]
pub fn decode_message(bytes: &Vec<u8>) -> (r: Result<Message, MessageError>)
    ensures
        match r {
            Ok(m) => msg_parse(bytes@) == Some(m@),
            Err(e) => e == MessageError::MalformedMessage && msg_parse(bytes@) is None,
        },
{
    let len = bytes.len();
    if len < 1 {
        return Err(MessageError::MalformedMessage);
    }
    let tag = bytes[0];
    proof {
        assert(bytes@[0] == tag);
    }
    if tag == 1 || tag == 3 {
        let (session_id, p1) = match read_field(bytes, 1) {
            None => {
                return Err(MessageError::MalformedMessage);
            },
            Some(x) => x,
        };
        let (second, p2) = match read_field(bytes, p1) {
            None => {
                return Err(MessageError::MalformedMessage);
            },
            Some(x) => x,
        };
        let (third, p3) = match read_field(bytes, p2) {
            None => {
                return Err(MessageError::MalformedMessage);
            },
            Some(x) => x,
        };
        if p3 != len {
            return Err(MessageError::MalformedMessage);
        }
        proof {
            assert(bytes@.skip(p3 as int) =~= Seq::<u8>::empty());
        }
        if tag == 1 {
            Ok(Message::InvocationRequest { session_id, method: second, params: third })
        } else {
            Ok(Message::ServerPush { session_id, event: second, data: third })
        }
    } else if tag == 2 {
        let (session_id, p1) = match read_field(bytes, 1) {
            None => {
                return Err(MessageError::MalformedMessage);
            },
            Some(x) => x,
        };
        if p1 == len {
            return Err(MessageError::MalformedMessage);
        }
        let result_tag = bytes[p1];
        proof {
            assert(bytes@.skip(p1 as int)[0] == result_tag);
            assert(bytes@.skip(p1 as int).skip(1) =~= bytes@.skip(p1 as int + 1));
        }
        if result_tag > 1 {
            return Err(MessageError::MalformedMessage);
        }
        let (body, p2) = match read_field(bytes, p1 + 1) {
            None => {
                return Err(MessageError::MalformedMessage);
            },
            Some(x) => x,
        };
        if p2 != len {
            return Err(MessageError::MalformedMessage);
        }
        proof {
            assert(bytes@.skip(p2 as int) =~= Seq::<u8>::empty());
        }
        if result_tag == 0 {
            Ok(Message::InvocationResponse { session_id, result: Ok(body) })
        } else {
            Ok(Message::InvocationResponse { session_id, result: Err(body) })
        }
    } else if tag == 4 {
        let (session_id, p1) = match read_field(bytes, 1) {
            None => {
                return Err(MessageError::MalformedMessage);
            },
            Some(x) => x,
        };
        if p1 != len {
            return Err(MessageError::MalformedMessage);
        }
        proof {
            assert(bytes@.skip(p1 as int) =~= Seq::<u8>::empty());
        }
        Ok(Message::ServerPushAck { session_id })
    } else {
        Err(MessageError::MalformedMessage)
    }
}

/// A length-prefixed field followed by anything splits back into exactly
/// that field and the rest.
pub proof fn lemma_parse_field_prepend(x: Seq<u8>, rest: Seq<u8>)
    requires
        x.len() < 0x100000000,
    ensures
        parse_field(field_bytes(x) + rest) == Some((x, rest)),
{
    lemma_be32_round(x.len() as int);
    let b = field_bytes(x) + rest;
    assert(b.take(4) =~= be32_bytes(x.len() as int));
    assert(b.subrange(4, 4 + x.len() as int) =~= x);
    assert(b.skip(4 + x.len() as int) =~= rest);
}

/// Round trip of a three-field message: the request and push layouts share
/// one shape, distinguished only by the tag.
proof fn lemma_three_field_round_trip(m: MessageView)
    requires
        msg_wf(m),
        m is InvocationRequest || m is ServerPush,
    ensures
        msg_parse(message_bytes(m)) == Some(m),
{
    let b = message_bytes(m);
    let empty = Seq::<u8>::empty();
    match m {
        MessageView::InvocationRequest { session_id, method, params } => {
            assert(b.skip(1) =~= field_bytes(session_id) + (field_bytes(method) + (field_bytes(
                params,
            ) + empty)));
            lemma_parse_field_prepend(
                session_id,
                field_bytes(method) + (field_bytes(params) + empty),
            );
            lemma_parse_field_prepend(method, field_bytes(params) + empty);
            lemma_parse_field_prepend(params, empty);
        },
        MessageView::ServerPush { session_id, event, data } => {
            assert(b.skip(1) =~= field_bytes(session_id) + (field_bytes(event) + (field_bytes(
                data,
            ) + empty)));
            lemma_parse_field_prepend(
                session_id,
                field_bytes(event) + (field_bytes(data) + empty),
            );
            lemma_parse_field_prepend(event, field_bytes(data) + empty);
            lemma_parse_field_prepend(data, empty);
        },
        _ => {},
    }
}

/// Round trip of a response: its result tag byte sits between the id and
/// the body.
proof fn lemma_response_round_trip(m: MessageView)
    requires
        msg_wf(m),
        m is InvocationResponse,
    ensures
        msg_parse(message_bytes(m)) == Some(m),
{
    let b = message_bytes(m);
    let empty = Seq::<u8>::empty();
    match m {
        MessageView::InvocationResponse { session_id, result } => {
            match result {
                Ok(payload) => {
                    assert(b.skip(1) =~= field_bytes(session_id) + (seq![0u8] + (field_bytes(
                        payload,
                    ) + empty)));
                    lemma_parse_field_prepend(
                        session_id,
                        seq![0u8] + (field_bytes(payload) + empty),
                    );
                    assert((seq![0u8] + (field_bytes(payload) + empty)).skip(1) =~= field_bytes(
                        payload,
                    ) + empty);
                    lemma_parse_field_prepend(payload, empty);
                },
                Err(description) => {
                    assert(b.skip(1) =~= field_bytes(session_id) + (seq![1u8] + (field_bytes(
                        description,
                    ) + empty)));
                    lemma_parse_field_prepend(
                        session_id,
                        seq![1u8] + (field_bytes(description) + empty),
                    );
                    assert((seq![1u8] + (field_bytes(description) + empty)).skip(1) =~= field_bytes(
                        description,
                    ) + empty);
                    lemma_parse_field_prepend(description, empty);
                },
            }
        },
        _ => {},
    }
}

/// Round-trip: every well-formed message decodes from its own encoding —
/// the encoding is unambiguous.
pub proof fn lemma_message_round_trip(m: MessageView)
    requires
        msg_wf(m),
    ensures
        msg_parse(message_bytes(m)) == Some(m),
{
    let b = message_bytes(m);
    let empty = Seq::<u8>::empty();
    match m {
        MessageView::InvocationRequest { .. } => {
            lemma_three_field_round_trip(m);
        },
        MessageView::InvocationResponse { .. } => {
            lemma_response_round_trip(m);
        },
        MessageView::ServerPush { .. } => {
            lemma_three_field_round_trip(m);
        },
        MessageView::ServerPushAck { session_id } => {
            assert(b.skip(1) =~= field_bytes(session_id) + empty);
            lemma_parse_field_prepend(session_id, empty);
        },
    }
}

} // verus!
