use bifrost_admin::ws_frame::{Opcode, WebSocketFrame};
use bifrost_admin::ws_handshake::{compute_accept_key, negotiate_protocol, parse_permessage_deflate, HttpResponse};

#[test]
fn accept_key_of_the_rfc_example() {
    assert_eq!(compute_accept_key("dGhlIHNhbXBsZSBub25jZQ=="), "s3pPLMBiTxaQ9kYGzzhZRbK+xOo=");
}

#[test]
fn masked_frame_round_trips() {
    let frame = WebSocketFrame {
        fin: true,
        rsv1: false,
        rsv2: false,
        rsv3: false,
        opcode: Opcode::Text,
        mask: Some([1, 2, 3, 4]),
        payload: b"Hello".to_vec(),
    };
    let bytes = frame.encode();
    assert_eq!(bytes[0], 0x81);
    assert_eq!(bytes[1], 0x80 | 5);
    let (parsed, used) = WebSocketFrame::parse(&bytes).expect("frame");
    assert_eq!(used, bytes.len());
    assert_eq!(parsed.payload, b"Hello".to_vec());
    assert_eq!(parsed.opcode, Opcode::Text);
    assert!(parsed.fin);
}

#[test]
fn long_payload_uses_extended_length() {
    let frame = WebSocketFrame {
        fin: true,
        rsv1: false,
        rsv2: false,
        rsv3: false,
        opcode: Opcode::Binary,
        mask: None,
        payload: vec![7u8; 300],
    };
    let bytes = frame.encode();
    assert_eq!(bytes[1], 126);
    assert_eq!(((bytes[2] as usize) << 8) | bytes[3] as usize, 300);
    let (parsed, used) = WebSocketFrame::parse(&bytes).expect("frame");
    assert_eq!(used, 304);
    assert_eq!(parsed.payload.len(), 300);
    assert!(WebSocketFrame::parse(&bytes[..10]).is_none());
}

#[test]
fn close_frame_code_and_reason() {
    let mut payload = vec![0x03, 0xE8];
    payload.extend_from_slice(b"bye");
    let frame = WebSocketFrame { fin: true, rsv1: false, rsv2: false, rsv3: false, opcode: Opcode::Close, mask: None, payload };
    assert_eq!(frame.close_code(), Some(1000));
    assert_eq!(frame.close_reason(), Some("bye".to_string()));
}

#[test]
fn handshake_response_and_negotiation() {
    let raw = b"HTTP/1.1 101 Switching Protocols\r\nUpgrade: websocket\r\nSec-WebSocket-Protocol: chat\r\n\r\nrest";
    let (resp, used) = HttpResponse::parse(raw).expect("response");
    assert_eq!(resp.status_code, 101);
    assert_eq!(used, raw.len() - 4);
    assert_eq!(resp.header("upgrade"), Some("websocket".to_string()));
    assert_eq!(negotiate_protocol(Some("chat, superchat"), Some("chat")), Some("chat".to_string()));
    assert!(parse_permessage_deflate("permessage-deflate; client_max_window_bits"));
    assert!(!parse_permessage_deflate("x-webkit-deflate-frame"));
}

#[test]
fn opcodes() {
    assert_eq!(Opcode::from_u8(0x9), Some(Opcode::Ping));
    assert_eq!(Opcode::from_u8(0x3), None);
    assert_eq!(Opcode::Pong.code(), 0xA);
}
