use webview_host::codec::{Decoder, FrameError, MAX_PACKET_SIZE};
use webview_host::session::{SessionCommand, WriterAction, writer_step};
use webview_host::session_factory::SessionFactory;
use webview_host::socket_server::SocketServer;

#[test]
fn writer_step_frames_a_send() {
    match writer_step(SessionCommand::Send(vec![5, 6])) {
        Ok(WriterAction::Write(bytes)) => assert_eq!(bytes, vec![0, 0, 0, 2, 5, 6]),
        _ => panic!("expected framed bytes"),
    }
}

#[test]
fn writer_step_refuses_oversized_send() {
    let r = writer_step(SessionCommand::Send(vec![0; MAX_PACKET_SIZE + 1]));
    assert!(matches!(r, Err(FrameError::TooLarge)));
}

#[test]
fn writer_step_close_shuts_down() {
    assert!(matches!(writer_step(SessionCommand::Close), Ok(WriterAction::Shutdown)));
}

#[test]
fn writer_output_decodes_in_send_order() {
    let mut wire: Vec<u8> = Vec::new();
    for k in 1u8..=4 {
        match writer_step(SessionCommand::Send(vec![k; k as usize])).unwrap() {
            WriterAction::Write(bytes) => wire.extend_from_slice(&bytes),
            WriterAction::Shutdown => panic!("unexpected shutdown"),
        }
    }
    let mut d = Decoder::new();
    let out = d.on_received(&wire).unwrap();
    assert_eq!(out, vec![vec![1], vec![2; 2], vec![3; 3], vec![4; 4]]);
}

#[test]
fn echo_reply_prefixes_payload() {
    let factory = SessionFactory::new();
    assert_eq!(factory.echo_reply(&b"hi".to_vec()), b"Echo: hi".to_vec());
    assert_eq!(factory.echo_reply(&vec![]), b"Echo: ".to_vec());
}

#[test]
fn socket_server_shares_its_factory() {
    let server = SocketServer::new(SessionFactory::new());
    let clone = std::sync::Arc::clone(&server);
    assert_eq!(clone.session_factory().echo_reply(&b"x".to_vec()), b"Echo: x".to_vec());
}
