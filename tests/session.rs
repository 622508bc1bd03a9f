use wsclient::{
    Connection, ConnectionState, Event, Frame, MessageAssembler, MessageKind, Opcode,
    ProtocolError, WsClientError,
};

const KEY: [u8; 4] = [9, 8, 7, 6];

fn server_frame(opcode: Opcode, fin: bool, payload: &[u8]) -> Frame {
    Frame {
        fin,
        rsv1: false,
        rsv2: false,
        rsv3: false,
        opcode,
        mask: false,
        payload_length: payload.len() as u64,
        masking_key: None,
        payload_data: payload.to_vec(),
    }
}

fn open_connection() -> Connection {
    let mut c = Connection::new();
    assert_eq!(c.state(), ConnectionState::Connecting);
    c.handshake_done(Ok(())).unwrap();
    assert_eq!(c.state(), ConnectionState::Open);
    c
}

fn decode(bytes: &[u8]) -> Frame {
    Frame::from_bytes(bytes).unwrap().0
}

#[test]
fn fragments_reassemble_into_one_text_message() {
    let mut a = MessageAssembler::new();
    assert!(a.push(server_frame(Opcode::Text, false, b"Hel")).unwrap().is_none());
    assert!(!a.is_idle());
    assert!(a.push(server_frame(Opcode::Continuation, false, b"lo ")).unwrap().is_none());
    let m = a.push(server_frame(Opcode::Continuation, true, b"World")).unwrap().unwrap();
    assert_eq!(m.kind, MessageKind::Text);
    assert_eq!(m.payload, b"Hello World".to_vec());
    assert!(a.is_idle());
}

#[test]
fn ping_between_fragments_is_answered_and_assembly_goes_on() {
    let mut c = open_connection();
    let s = c.receive(server_frame(Opcode::Text, false, b"Hel"), KEY).unwrap();
    assert!(matches!(s.event, Event::Fragment));
    let s = c.receive(server_frame(Opcode::Continuation, false, b"lo "), KEY).unwrap();
    assert!(matches!(s.event, Event::Fragment));
    let s = c.receive(server_frame(Opcode::Ping, true, b"beat"), KEY).unwrap();
    match s.event {
        Event::Ping(p) => assert_eq!(p, b"beat".to_vec()),
        other => panic!("unexpected event {:?}", other),
    }
    let pong = decode(&s.reply.unwrap());
    assert_eq!(pong.opcode, Opcode::Pong);
    assert!(pong.mask);
    assert_eq!(pong.payload_data, b"beat".to_vec());
    let s = c.receive(server_frame(Opcode::Continuation, true, b"World"), KEY).unwrap();
    match s.event {
        Event::Message(m) => {
            assert_eq!(m.kind, MessageKind::Text);
            assert_eq!(m.payload, b"Hello World".to_vec());
        }
        other => panic!("unexpected event {:?}", other),
    }
    assert!(s.reply.is_none());
}

#[test]
fn close_handshake_closes_once() {
    let mut c = open_connection();
    let bytes = c.close(1000, b"bye", KEY).unwrap();
    assert_eq!(c.state(), ConnectionState::Closing);
    let sent = decode(&bytes);
    assert_eq!(sent.opcode, Opcode::Close);
    assert_eq!(sent.payload_data, vec![0x03, 0xE8, b'b', b'y', b'e']);
    let s = c.receive(server_frame(Opcode::Close, true, &[0x03, 0xE8]), KEY).unwrap();
    assert!(matches!(s.event, Event::Closed(Some(1000))));
    assert!(s.reply.is_none());
    assert_eq!(c.state(), ConnectionState::Closed);
    let after = c.receive(server_frame(Opcode::Text, true, b"late"), KEY);
    assert!(matches!(after, Err(WsClientError::Closed)));
    assert_eq!(c.state(), ConnectionState::Closed);
}

#[test]
fn peer_close_is_echoed() {
    let mut c = open_connection();
    let s = c.receive(server_frame(Opcode::Close, true, &[0x03, 0xE9]), KEY).unwrap();
    assert!(matches!(s.event, Event::Closed(Some(1001))));
    let echo = decode(&s.reply.unwrap());
    assert_eq!(echo.opcode, Opcode::Close);
    assert_eq!(echo.payload_data, vec![0x03, 0xE9]);
    assert_eq!(c.state(), ConnectionState::Closed);
}

#[test]
fn peer_close_without_code_is_answered_with_normal_closure() {
    let mut c = open_connection();
    let s = c.receive(server_frame(Opcode::Close, true, &[]), KEY).unwrap();
    assert!(matches!(s.event, Event::Closed(None)));
    assert_eq!(decode(&s.reply.unwrap()).payload_data, vec![0x03, 0xE8]);
}

#[test]
fn invalid_utf8_text_is_a_protocol_error() {
    let mut c = open_connection();
    let r = c.receive(server_frame(Opcode::Text, true, &[0xff, 0xfe]), KEY);
    assert!(matches!(r, Err(WsClientError::Protocol(ProtocolError::InvalidUtf8))));
    assert_eq!(c.state(), ConnectionState::Closed);
}

#[test]
fn binary_message_need_not_be_utf8() {
    let mut c = open_connection();
    let s = c.receive(server_frame(Opcode::Binary, true, &[0xff, 0xfe]), KEY).unwrap();
    assert!(matches!(s.event, Event::Message(m) if m.payload == vec![0xff, 0xfe]));
}

#[test]
fn interleaved_data_messages_are_refused() {
    let mut a = MessageAssembler::new();
    a.push(server_frame(Opcode::Binary, false, b"a")).unwrap();
    let r = a.push(server_frame(Opcode::Text, true, b"b"));
    assert_eq!(r.unwrap_err(), ProtocolError::InterleavedMessage);
    assert!(a.is_idle());
}

#[test]
fn stray_continuation_is_refused() {
    let mut a = MessageAssembler::new();
    let r = a.push(server_frame(Opcode::Continuation, true, b"x"));
    assert_eq!(r.unwrap_err(), ProtocolError::UnexpectedContinuation);
}

#[test]
fn masked_server_frame_is_refused() {
    let mut c = open_connection();
    let mut f = server_frame(Opcode::Text, true, b"x");
    f.mask = true;
    f.masking_key = Some([1, 1, 1, 1]);
    let r = c.receive(f, KEY);
    assert!(matches!(r, Err(WsClientError::Protocol(ProtocolError::MaskedServerFrame))));
    assert_eq!(c.state(), ConnectionState::Closed);
}

#[test]
fn send_needs_an_open_session() {
    let mut c = Connection::new();
    let r = c.send_message(MessageKind::Text, b"hi".to_vec(), KEY);
    assert!(matches!(r, Err(WsClientError::NotOpen(ConnectionState::Connecting))));
    let mut c = open_connection();
    let bytes = c.send_message(MessageKind::Text, b"hi".to_vec(), KEY).unwrap();
    assert_eq!(bytes, vec![0x81, 0x82, 9, 8, 7, 6, b'h' ^ 9, b'i' ^ 8]);
}

#[test]
fn failed_handshake_closes() {
    let mut c = Connection::new();
    let r = c.handshake_done(Err(wsclient::HandshakeError::AcceptMismatch));
    assert!(matches!(r, Err(WsClientError::Handshake(wsclient::HandshakeError::AcceptMismatch))));
    assert_eq!(c.state(), ConnectionState::Closed);
}

#[test]
fn long_close_reason_is_refused() {
    let mut c = open_connection();
    let r = c.close(1000, &[b'x'; 124], KEY);
    assert!(matches!(r, Err(WsClientError::ReasonTooLong(124))));
    assert_eq!(c.state(), ConnectionState::Open);
}

#[test]
fn pong_is_reported_without_reply() {
    let mut c = open_connection();
    let s = c.receive(server_frame(Opcode::Pong, true, b"p"), KEY).unwrap();
    assert!(matches!(s.event, Event::Pong(ref p) if p == b"p"));
    assert!(s.reply.is_none());
}

#[test]
fn send_text_and_binary_frames() {
    let mut c = open_connection();
    let t = decode(&c.send_text("hé", KEY).unwrap());
    assert_eq!(t.opcode, Opcode::Text);
    assert_eq!(t.payload_data, "hé".as_bytes().to_vec());
    let b = decode(&c.send_binary(vec![0, 1, 2], KEY).unwrap());
    assert_eq!(b.opcode, Opcode::Binary);
    assert_eq!(b.payload_data, vec![0, 1, 2]);
    c.force_close();
    assert!(matches!(c.send_text("x", KEY), Err(WsClientError::NotOpen(ConnectionState::Closed))));
}
