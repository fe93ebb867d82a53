use bytes::BytesMut;
use wshttp::buffer::{held_len, receive_buffer};
use wshttp::http::request::{request_receive, HeadError, RequestStep};
use wshttp::http::websocket::{
    build_text_frame, unmask, websocket_accept_key, ws_receive, WsAction,
};

#[test]
fn accept_key_of_rfc_example() {
    assert_eq!(websocket_accept_key("dGhlIHNhbXBsZSBub25jZQ=="), "s3pPLMBiTxaQ9kYGzzhZRbK+xOo=");
    assert_eq!(websocket_accept_key(""), "Kfh9QIsMVZcl6xEPYxPHzW8SZ8w=");
}

#[test]
fn unmask_twice_is_identity() {
    let mask = [0x37u8, 0xfa, 0x21, 0x3d];
    let payload = b"Hello, frames!".to_vec();
    let once = unmask(&payload, &mask);
    assert_ne!(once, payload);
    assert_eq!(unmask(&once, &mask), payload);
}

#[test]
fn text_frames() {
    assert_eq!(build_text_frame(b"hi"), vec![0x81, 2, b'h', b'i']);
    let long = vec![b'x'; 300];
    let frame = build_text_frame(&long);
    assert_eq!(&frame[..4], &[0x81, 126, 1, 44]);
    assert_eq!(frame.len(), 304);
    let huge = vec![b'y'; 65536 + 5];
    let frame = build_text_frame(&huge);
    assert_eq!(&frame[..4], &[0x81, 126, 0, 5]);
}

#[test]
fn ws_masked_hello() {
    let mut buf = BytesMut::new();
    let frame = [0x81u8, 0x85, 0x37, 0xfa, 0x21, 0x3d, 0x7f, 0x9f, 0x4d, 0x51, 0x58];
    assert!(matches!(ws_receive(&mut buf, &frame[..1]), WsAction::NeedMore));
    assert!(matches!(ws_receive(&mut buf, &frame[1..6]), WsAction::NeedMore));
    match ws_receive(&mut buf, &[&frame[6..], &[0x88][..]].concat()) {
        WsAction::Message { fin, opcode, masked, payload_len, text, reply } => {
            assert_eq!((fin, opcode, masked, payload_len), (1, 1, 1, 5));
            assert_eq!(text, "Hello");
            let mut expected = vec![0x81u8, 14];
            expected.extend_from_slice("收到了Hello".as_bytes());
            assert_eq!(reply, expected);
        }
        _ => panic!("expected a message"),
    }
    assert_eq!(&buf[..], &[0x88]);
    match ws_receive(&mut buf, &[0x80, 1, 2, 3, 4]) {
        WsAction::Close { reply } => assert_eq!(reply, vec![0x88, 0x00]),
        _ => panic!("expected a close"),
    }
    assert_eq!(buf.len(), 0);
}

#[test]
fn ws_lengths() {
    let mut buf = BytesMut::new();
    assert!(matches!(ws_receive(&mut buf, &[0x81, 0xff]), WsAction::TooLarge));
    let mut buf = BytesMut::new();
    match ws_receive(&mut buf, &[0x01, 0x80, 9, 9, 9, 9]) {
        WsAction::Message { fin, opcode, text, reply, .. } => {
            assert_eq!((fin, opcode), (0, 1));
            assert_eq!(text, "");
            let mut expected = vec![0x81u8, 9];
            expected.extend_from_slice("收到了".as_bytes());
            assert_eq!(reply, expected);
        }
        _ => panic!("expected a message"),
    }
    let mut buf = BytesMut::new();
    assert!(matches!(ws_receive(&mut buf, &[0x81, 0xfe, 0]), WsAction::NeedMore));
    let mut frame = vec![0x81u8, 0xfe, 0x00, 0x7e, 0, 0, 0, 0];
    frame.extend(vec![0xffu8; 126]);
    match ws_receive(&mut buf, &frame[3..]) {
        WsAction::Message { fin, payload_len, text, reply, .. } => {
            assert_eq!(fin, 1);
            assert_eq!(payload_len, 126);
            assert_eq!(text.chars().count(), 126);
            assert!(text.chars().all(|c| c == '\u{FFFD}'));
            assert_eq!(&reply[..4], &[0x81, 126, 1, 131]);
        }
        _ => panic!("expected a message"),
    }
}

#[test]
fn request_head_in_pieces() {
    let mut buf = BytesMut::new();
    let text = b"GET /a?b=1 HTTP/1.1\r\nHost: x\r\nUpgrade: websocket\r\n\r\n";
    assert!(matches!(request_receive(&mut buf, &text[..10]), RequestStep::Partial));
    match request_receive(&mut buf, &text[10..]) {
        RequestStep::Complete { request } => {
            assert_eq!(request.method, "GET");
            assert_eq!(request.path, "/a?b=1");
            assert_eq!(request.headers.get("Host").map(|s| s.as_str()), Some("x"));
            assert_eq!(request.headers.get("Upgrade").map(|s| s.as_str()), Some("websocket"));
            assert_eq!(request.headers.len(), 2);
        }
        _ => panic!("expected a whole head"),
    }
    assert_eq!(buf.len(), 0);
}

#[test]
fn request_errors() {
    let mut buf = BytesMut::new();
    assert!(matches!(request_receive(&mut buf, b""), RequestStep::Aborted));
    assert!(matches!(
        request_receive(&mut buf, b"G\0T / HTTP/1.1\r\n\r\n"),
        RequestStep::Malformed { error: HeadError::Token }
    ));
    let mut buf = receive_buffer();
    assert_eq!(held_len(&buf), 0);
    let mut many = b"GET / HTTP/1.1\r\n".to_vec();
    for i in 0..65 {
        many.extend_from_slice(format!("H{}: v\r\n", i).as_bytes());
    }
    many.extend_from_slice(b"\r\n");
    assert!(matches!(
        request_receive(&mut buf, &many),
        RequestStep::Malformed { error: HeadError::TooManyHeaders }
    ));
    assert_eq!(held_len(&buf), many.len());
    let mut buf = receive_buffer();
    assert!(matches!(
        request_receive(&mut buf, b"GET / HTTP/1.1\r\nBad Name: v\r\n\r\n"),
        RequestStep::Malformed { error: HeadError::HeaderName }
    ));
    let mut buf = BytesMut::new();
    match request_receive(&mut buf, b"GET / HTTP/1.1\r\n\r\nextra") {
        RequestStep::UnexpectedBody { left_over } => assert_eq!(left_over, 5),
        _ => panic!("expected leftover bytes"),
    }
    let mut buf = BytesMut::new();
    match request_receive(&mut buf, b"POST / HTTP/1.1\r\nContent-Length: 5\r\n\r\nextra") {
        RequestStep::Complete { request } => assert_eq!(request.method, "POST"),
        _ => panic!("expected a whole head"),
    }
    assert_eq!(&buf[..], b"extra");
}
