use webview_host::codec::Decoder;
use webview_host::codec::encode_frame;
use webview_host::handler::{MessageHandler, Action, encode_session_id, decode_session_id};
use webview_host::message::{Message, encode_message, decode_message};
use webview_host::registry::RegistryError;

#[test]
fn session_id_wire_round_trip() {
    for id in [0u64, 1, 255, 256, 0xDEAD_BEEF, u64::MAX] {
        let bytes = encode_session_id(id);
        assert_eq!(bytes.len(), 8);
        assert_eq!(decode_session_id(&bytes), Some(id));
    }
    assert_eq!(encode_session_id(1), vec![0, 0, 0, 0, 0, 0, 0, 1]);
}

#[test]
fn session_id_wrong_length_decodes_to_nothing() {
    assert_eq!(decode_session_id(&b"r1".to_vec()), None);
    assert_eq!(decode_session_id(&vec![]), None);
    assert_eq!(decode_session_id(&vec![0; 9]), None);
}

#[test]
fn request_payload_becomes_dispatch() {
    let mut h: MessageHandler<()> = MessageHandler::new();
    let payload = encode_message(&Message::InvocationRequest {
        session_id: b"r1".to_vec(),
        method: b"ping".to_vec(),
        params: vec![1, 2],
    });
    match h.on_payload(&payload) {
        Action::Dispatch { session_id, method, params } => {
            assert_eq!(session_id, b"r1".to_vec());
            assert_eq!(method, b"ping".to_vec());
            assert_eq!(params, vec![1, 2]);
        }
        _ => panic!("expected a dispatch action"),
    }
}

#[test]
fn malformed_payload_is_reported_not_fatal() {
    let mut h: MessageHandler<u32> = MessageHandler::new();
    let id = h.registry.begin(7);
    assert!(matches!(h.on_payload(&vec![99, 1, 2]), Action::ReportMalformed));
    // the pending invocation survives the malformed frame
    assert_eq!(h.registry.complete(id), Ok(7));
}

#[test]
fn matching_response_delivers_to_pending_caller() {
    let mut h: MessageHandler<&'static str> = MessageHandler::new();
    let id = h.registry.begin("caller");
    let payload = encode_message(&Message::InvocationResponse {
        session_id: encode_session_id(id),
        result: Ok(vec![42]),
    });
    match h.on_payload(&payload) {
        Action::Deliver { receiver, result } => {
            assert_eq!(receiver, "caller");
            assert_eq!(result, Ok(vec![42]));
        }
        _ => panic!("expected a delivery"),
    }
    // delivered exactly once
    assert_eq!(h.registry.complete(id), Err(RegistryError::UnknownSession));
}

#[test]
fn stale_response_reports_unknown_session() {
    let mut h: MessageHandler<u32> = MessageHandler::new();
    let kept = h.registry.begin(1);
    let payload = encode_message(&Message::InvocationResponse {
        session_id: encode_session_id(999),
        result: Ok(vec![]),
    });
    match h.on_payload(&payload) {
        Action::ReportUnknownSession { session_id } => {
            assert_eq!(session_id, encode_session_id(999));
        }
        _ => panic!("expected an unknown-session report"),
    }
    // other pending invocations are untouched
    assert_eq!(h.registry.complete(kept), Ok(1));
}

#[test]
fn foreign_response_id_reports_unknown_session() {
    let mut h: MessageHandler<u32> = MessageHandler::new();
    let payload = encode_message(&Message::InvocationResponse {
        session_id: b"r1".to_vec(), // not this registry's wire form
        result: Err(b"boom".to_vec()),
    });
    assert!(matches!(h.on_payload(&payload), Action::ReportUnknownSession { .. }));
}

#[test]
fn push_payload_is_forwarded_and_ack_built() {
    let mut h: MessageHandler<()> = MessageHandler::new();
    let payload = encode_message(&Message::ServerPush {
        session_id: b"p1".to_vec(),
        event: b"changed".to_vec(),
        data: vec![3],
    });
    match h.on_payload(&payload) {
        Action::Push { session_id, event, data } => {
            assert_eq!(event, b"changed".to_vec());
            assert_eq!(data, vec![3]);
            let ack = h.handle_server_push(session_id);
            assert_eq!(ack, Message::ServerPushAck { session_id: b"p1".to_vec() });
        }
        _ => panic!("expected a push action"),
    }
}

#[test]
fn push_ack_payload_is_recognized() {
    let mut h: MessageHandler<()> = MessageHandler::new();
    let payload = encode_message(&Message::ServerPushAck { session_id: b"p1".to_vec() });
    match h.on_payload(&payload) {
        Action::AckReceived { session_id } => assert_eq!(session_id, b"p1".to_vec()),
        _ => panic!("expected an ack"),
    }
}

#[test]
fn handle_request_wraps_dispatch_result() {
    let h: MessageHandler<()> = MessageHandler::new();
    let m = h.handle_request(b"r1".to_vec(), Err(b"denied".to_vec()));
    assert_eq!(
        m,
        Message::InvocationResponse { session_id: b"r1".to_vec(), result: Err(b"denied".to_vec()) }
    );
}

#[test]
fn end_to_end_ping() {
    // the client sends the encoded bytes for a ping request
    let request = Message::InvocationRequest {
        session_id: b"r1".to_vec(),
        method: b"ping".to_vec(),
        params: vec![],
    };
    let client_bytes = encode_frame(&encode_message(&request)).unwrap();

    // the server's reader path decodes it and asks for a dispatch
    let mut server_decoder = Decoder::new();
    let mut server_handler: MessageHandler<()> = MessageHandler::new();
    let payloads = server_decoder.on_received(&client_bytes).unwrap();
    assert_eq!(payloads.len(), 1);
    let (session_id, method, params) = match server_handler.on_payload(&payloads[0]) {
        Action::Dispatch { session_id, method, params } => (session_id, method, params),
        _ => panic!("expected a dispatch action"),
    };
    assert_eq!(method, b"ping".to_vec());
    assert_eq!(params, Vec::<u8>::new());

    // the dispatch collaborator returns success with an empty payload
    let dispatch_result: Result<Vec<u8>, Vec<u8>> = Ok(vec![]);
    let response = server_handler.handle_request(session_id, dispatch_result);
    assert_eq!(
        response,
        Message::InvocationResponse { session_id: b"r1".to_vec(), result: Ok(vec![]) }
    );
    let response_payload = encode_message(&response);
    let server_bytes = encode_frame(&response_payload).unwrap();

    // feeding that exact byte stream into a client-side decoder yields
    // exactly one payload equal to the serialized response
    let mut client_decoder = Decoder::new();
    let client_payloads = client_decoder.on_received(&server_bytes).unwrap();
    assert_eq!(client_payloads, vec![response_payload.clone()]);
    assert_eq!(decode_message(&client_payloads[0]), Ok(response));
}
