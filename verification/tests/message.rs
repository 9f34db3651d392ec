use webview_host::codec::{Decoder, encode_frame};
use webview_host::message::{Message, MessageError, encode_message, decode_message};

#[test]
fn request_round_trip() {
    let m = Message::InvocationRequest {
        session_id: b"r1".to_vec(),
        method: b"ping".to_vec(),
        params: vec![1, 2, 3],
    };
    let bytes = encode_message(&m);
    assert_eq!(decode_message(&bytes), Ok(m));
}

#[test]
fn response_success_round_trip() {
    let m = Message::InvocationResponse {
        session_id: b"abc".to_vec(),
        result: Ok(vec![9, 8, 7]),
    };
    let bytes = encode_message(&m);
    assert_eq!(decode_message(&bytes), Ok(m));
}

#[test]
fn response_failure_round_trip() {
    let m = Message::InvocationResponse {
        session_id: b"abc".to_vec(),
        result: Err(b"no such method".to_vec()),
    };
    let bytes = encode_message(&m);
    assert_eq!(decode_message(&bytes), Ok(m));
}

#[test]
fn push_round_trip() {
    let m = Message::ServerPush {
        session_id: b"p9".to_vec(),
        event: b"updated".to_vec(),
        data: vec![],
    };
    let bytes = encode_message(&m);
    assert_eq!(decode_message(&bytes), Ok(m));
}

#[test]
fn ack_round_trip() {
    let m = Message::ServerPushAck { session_id: b"p9".to_vec() };
    let bytes = encode_message(&m);
    assert_eq!(decode_message(&bytes), Ok(m));
}

#[test]
fn ack_exact_encoding() {
    let m = Message::ServerPushAck { session_id: b"r1".to_vec() };
    assert_eq!(encode_message(&m), vec![4, 0, 0, 0, 2, b'r', b'1']);
}

#[test]
fn request_exact_encoding() {
    let m = Message::InvocationRequest {
        session_id: b"r1".to_vec(),
        method: b"ping".to_vec(),
        params: vec![],
    };
    let expected = vec![
        1, // kind tag
        0, 0, 0, 2, b'r', b'1', // session id
        0, 0, 0, 4, b'p', b'i', b'n', b'g', // method
        0, 0, 0, 0, // empty params
    ];
    assert_eq!(encode_message(&m), expected);
}

#[test]
fn empty_payload_is_malformed() {
    assert_eq!(decode_message(&vec![]), Err(MessageError::MalformedMessage));
}

#[test]
fn unknown_tag_is_malformed() {
    assert_eq!(decode_message(&vec![5, 0, 0, 0, 0]), Err(MessageError::MalformedMessage));
    assert_eq!(decode_message(&vec![0, 0, 0, 0, 0]), Err(MessageError::MalformedMessage));
}

#[test]
fn truncated_field_is_malformed() {
    // ack whose session id declares 2 bytes but carries only 1
    assert_eq!(decode_message(&vec![4, 0, 0, 0, 2, b'r']), Err(MessageError::MalformedMessage));
    // header itself cut short
    assert_eq!(decode_message(&vec![4, 0, 0]), Err(MessageError::MalformedMessage));
}

#[test]
fn trailing_bytes_are_malformed() {
    let m = Message::ServerPushAck { session_id: b"r1".to_vec() };
    let mut bytes = encode_message(&m);
    bytes.push(0);
    assert_eq!(decode_message(&bytes), Err(MessageError::MalformedMessage));
}

#[test]
fn bad_result_tag_is_malformed() {
    // response with result tag 2: neither success nor failure
    let bytes = vec![2, 0, 0, 0, 1, b'x', 2, 0, 0, 0, 0];
    assert_eq!(decode_message(&bytes), Err(MessageError::MalformedMessage));
}

#[test]
fn missing_result_tag_is_malformed() {
    // response that ends right after the session id
    let bytes = vec![2, 0, 0, 0, 1, b'x'];
    assert_eq!(decode_message(&bytes), Err(MessageError::MalformedMessage));
}

#[test]
fn malformed_frame_does_not_poison_decoder() {
    // a frame whose payload is garbage decodes as a frame, fails as a
    // message, and the next frame is still processed normally
    let garbage = vec![99u8, 1, 2];
    let good = Message::ServerPushAck { session_id: b"ok".to_vec() };
    let mut stream = encode_frame(&garbage).unwrap();
    stream.extend_from_slice(&encode_frame(&encode_message(&good)).unwrap());

    let mut d = Decoder::new();
    let payloads = d.on_received(&stream).unwrap();
    assert_eq!(payloads.len(), 2);
    assert_eq!(decode_message(&payloads[0]), Err(MessageError::MalformedMessage));
    assert_eq!(decode_message(&payloads[1]), Ok(good));
}
