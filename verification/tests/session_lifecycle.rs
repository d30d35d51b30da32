use rust_websocket::{
    Error, Event, Frame, Handshake, HandshakeError, Incoming, Opcode, ProtocolError, Session,
    State, Step,
};

const KEY: &str = "dGhlIHNhbXBsZSBub25jZQ==";
const ACCEPT: &str = "s3pPLMBiTxaQ9kYGzzhZRbK+xOo=";

fn frame(fin: bool, opcode: Opcode, payload: &[u8]) -> Frame {
    Frame { fin, opcode, payload: payload.to_vec() }
}

fn open_server() -> Session {
    let mut server = Session::new(true);
    assert!(server.listen());
    server.receive(&Handshake::request(b"/", b"example.com", KEY).encode());
    assert!(matches!(server.advance(), Step::Accepted(_)));
    server
}

fn open_client() -> Session {
    let mut client = Session::new(false);
    assert!(client.request_with_key(b"/", b"example.com", KEY).is_some());
    client.receive(&Handshake::response(ACCEPT).encode());
    assert_eq!(client.advance(), Step::Established);
    client
}

#[test]
fn transition_table() {
    assert_eq!(State::Created.on(Event::StartHandshake), State::Handshaking);
    assert_eq!(State::Handshaking.on(Event::HandshakeOk), State::Open);
    assert_eq!(State::Handshaking.on(Event::HandshakeFailed), State::Closed);
    assert_eq!(State::Open.on(Event::ReadEof), State::Closed);
    assert_eq!(State::Open.on(Event::ParseError), State::Closing);
    assert_eq!(State::Open.on(Event::SentClose), State::Closing);
    assert_eq!(State::Open.on(Event::ReceivedClose), State::Closing);
    assert_eq!(State::Closing.on(Event::Close), State::Closed);
}

#[test]
fn closed_is_terminal() {
    for event in [
        Event::StartHandshake,
        Event::HandshakeOk,
        Event::HandshakeFailed,
        Event::ReadEof,
        Event::ParseError,
        Event::SentClose,
        Event::ReceivedClose,
        Event::Close,
    ] {
        assert_eq!(State::Closed.on(event), State::Closed);
    }
}

#[test]
fn close_leads_to_closed_from_every_started_state() {
    for state in [State::Handshaking, State::Open, State::Closing, State::Closed] {
        assert_eq!(state.on(Event::Close), State::Closed);
        assert_eq!(state.on(Event::Close).on(Event::Close), State::Closed);
    }
    assert_eq!(State::Created.on(Event::Close), State::Created);
}

#[test]
fn events_without_transition_are_ignored() {
    assert_eq!(State::Created.on(Event::HandshakeOk), State::Created);
    assert_eq!(State::Open.on(Event::StartHandshake), State::Open);
    assert_eq!(State::Closing.on(Event::SentClose), State::Closing);
    assert_eq!(State::Closing.on(Event::HandshakeOk), State::Closing);
}

#[test]
fn new_session_is_created_and_idle() {
    let session = Session::new(true);
    assert!(session.is_server());
    assert_eq!(session.state(), State::Created);
    assert_eq!(session.buffered(), 0);
    assert!(!session.can_read());
    assert!(!session.can_send(Opcode::Text));
}

#[test]
fn nothing_is_read_or_sent_before_the_handshake() {
    let mut session = Session::new(true);
    assert_eq!(session.next_frame(), Incoming::Failed(Error::NotOpen));
    assert_eq!(session.send(&frame(true, Opcode::Text, b"x")), Err(Error::NotOpen));
    assert_eq!(session.advance(), Step::Failed(Error::NotOpen));
    session.receive(b"ignored before the start");
    assert_eq!(session.buffered(), 0);
    assert!(session.listen());
    assert_eq!(session.next_frame(), Incoming::Failed(Error::NotOpen));
    assert_eq!(session.send(&frame(true, Opcode::Text, b"x")), Err(Error::NotOpen));
}

#[test]
fn only_the_right_role_starts_each_handshake() {
    let mut client = Session::new(false);
    assert!(!client.listen());
    assert_eq!(client.state(), State::Created);
    let mut server = Session::new(true);
    assert_eq!(server.request_with_key(b"/", b"h", KEY), None);
    assert_eq!(server.state(), State::Created);
    assert!(server.listen());
    assert!(!server.listen());
}

#[test]
fn server_handshake_opens_the_session() {
    let mut server = Session::new(true);
    assert!(server.listen());
    assert_eq!(server.state(), State::Handshaking);
    let request = Handshake::request(b"/chat", b"example.com", KEY).encode();
    let (head, tail) = request.split_at(request.len() - 7);
    server.receive(head);
    assert_eq!(server.advance(), Step::NeedMore);
    assert_eq!(server.state(), State::Handshaking);
    server.receive(tail);
    assert_eq!(server.advance(), Step::Accepted(Handshake::response(ACCEPT).encode()));
    assert_eq!(server.state(), State::Open);
    assert_eq!(server.buffered(), 0);
}

#[test]
fn server_keeps_frame_bytes_that_follow_the_request() {
    let mut server = Session::new(true);
    server.listen();
    let mut bytes = Handshake::request(b"/", b"h", KEY).encode();
    bytes.extend_from_slice(&frame(true, Opcode::Text, b"early").encode_with_key(&[1, 2, 3, 4]));
    server.receive(&bytes);
    assert!(matches!(server.advance(), Step::Accepted(_)));
    assert_eq!(server.next_frame(), Incoming::Frame(frame(true, Opcode::Text, b"early")));
}

#[test]
fn server_refusal_closes_the_session() {
    let mut server = Session::new(true);
    server.listen();
    server.receive(b"POST / HTTP/1.1\r\nHost: h\r\n\r\n");
    assert_eq!(
        server.advance(),
        Step::Failed(Error::HandshakeRefused(HandshakeError::BadMethod))
    );
    assert_eq!(server.state(), State::Closed);
    assert_eq!(server.next_frame(), Incoming::Finished);
}

#[test]
fn client_handshake_opens_the_session() {
    let mut client = Session::new(false);
    let request = client.request_with_key(b"/chat", b"example.com", KEY);
    assert_eq!(request, Some(Handshake::request(b"/chat", b"example.com", KEY).encode()));
    assert_eq!(client.state(), State::Handshaking);
    assert_eq!(client.advance(), Step::NeedMore);
    client.receive(&Handshake::response(ACCEPT).encode());
    assert_eq!(client.advance(), Step::Established);
    assert_eq!(client.state(), State::Open);
}

#[test]
fn client_refuses_a_wrong_accept_value() {
    let mut client = Session::new(false);
    client.request_with_key(b"/", b"h", KEY);
    client.receive(&Handshake::response("bm90IHRoZSByaWdodCBvbmU=").encode());
    assert_eq!(
        client.advance(),
        Step::Failed(Error::HandshakeRefused(HandshakeError::BadAccept))
    );
    assert_eq!(client.state(), State::Closed);
}

#[test]
fn client_draws_a_fresh_nonce_and_a_server_accepts_it() {
    let mut client = Session::new(false);
    let request = client.request(b"/", b"example.com").expect("a fresh client can begin");
    let mut server = Session::new(true);
    server.listen();
    server.receive(&request);
    let response = match server.advance() {
        Step::Accepted(bytes) => bytes,
        other => panic!("refused: {:?}", other),
    };
    client.receive(&response);
    assert_eq!(client.advance(), Step::Established);
    let mut second = Session::new(false);
    assert_ne!(second.request(b"/", b"example.com"), Some(request));
}

#[test]
fn end_of_input_during_the_handshake_is_a_reset() {
    let mut server = Session::new(true);
    server.listen();
    server.receive(b"GET / HT");
    assert_eq!(server.end_of_input(), Err(Error::ConnectionReset));
    assert_eq!(server.state(), State::Closed);
}

#[test]
fn frames_flow_between_two_open_sessions() {
    let mut client = open_client();
    let mut server = open_server();
    let hello = frame(true, Opcode::Text, b"Hello");
    let wire = client.send(&hello).expect("open");
    assert_eq!(wire.len(), 2 + 4 + 5);
    server.receive(&wire);
    assert_eq!(server.next_frame(), Incoming::Frame(hello));
    let reply = frame(true, Opcode::Text, b"Hi client!");
    let wire = server.send(&reply).expect("open");
    assert_eq!(wire, reply.encode());
    client.receive(&wire);
    assert_eq!(client.next_frame(), Incoming::Frame(reply));
    assert_eq!(client.next_frame(), Incoming::NeedMore);
}

#[test]
fn send_with_key_uses_the_key_for_a_client_only() {
    let key = [0x37u8, 0xFA, 0x21, 0x3D];
    let hello = frame(true, Opcode::Text, b"Hello");
    let mut client = open_client();
    assert_eq!(client.send_with_key(&hello, &key), Ok(hello.encode_with_key(&key)));
    let mut server = open_server();
    assert_eq!(server.send_with_key(&hello, &key), Ok(hello.encode()));
}

#[test]
fn partial_frames_survive_until_the_rest_arrives() {
    let mut client = open_client();
    let wire = frame(true, Opcode::Binary, &[9u8; 300]).encode();
    for chunk in wire.chunks(7) {
        assert_eq!(client.next_frame(), Incoming::NeedMore);
        client.receive(chunk);
    }
    assert_eq!(client.next_frame(), Incoming::Frame(frame(true, Opcode::Binary, &[9u8; 300])));
    assert_eq!(client.buffered(), 0);
}

#[test]
fn two_frames_in_one_read_come_out_one_by_one() {
    let mut client = open_client();
    let mut wire = frame(true, Opcode::Text, b"one").encode();
    wire.extend_from_slice(&frame(true, Opcode::Text, b"two").encode());
    wire.push(0x81);
    client.receive(&wire);
    assert_eq!(client.next_frame(), Incoming::Frame(frame(true, Opcode::Text, b"one")));
    assert_eq!(client.next_frame(), Incoming::Frame(frame(true, Opcode::Text, b"two")));
    assert_eq!(client.next_frame(), Incoming::NeedMore);
    assert_eq!(client.buffered(), 1);
}

#[test]
fn clean_end_of_input_finishes_reading() {
    let mut client = open_client();
    assert_eq!(client.end_of_input(), Ok(()));
    assert_eq!(client.state(), State::Closed);
    assert_eq!(client.next_frame(), Incoming::Finished);
}

#[test]
fn end_of_input_inside_a_frame_is_a_reset() {
    let mut client = open_client();
    client.receive(&[0x81, 0x05, b'H']);
    assert_eq!(client.next_frame(), Incoming::NeedMore);
    assert_eq!(client.end_of_input(), Err(Error::ConnectionReset));
    assert_eq!(client.state(), State::Closed);
    assert_eq!(client.next_frame(), Incoming::Finished);
}

#[test]
fn protocol_error_moves_to_closing() {
    let mut server = open_server();
    server.receive(&[0x81, 0x05, b'H', b'e', b'l', b'l', b'o']);
    assert_eq!(
        server.next_frame(),
        Incoming::Failed(Error::Protocol(ProtocolError::UnmaskedClientFrame))
    );
    assert_eq!(server.state(), State::Closing);
    assert_eq!(server.next_frame(), Incoming::Failed(Error::NotOpen));
    assert_eq!(server.send(&frame(true, Opcode::Text, b"x")), Err(Error::NotOpen));
    assert!(server.send(&Frame::close(1002)).is_ok());
    assert_eq!(server.send(&Frame::close(1002)), Err(Error::NotOpen));
    server.close();
    assert_eq!(server.state(), State::Closed);
}

#[test]
fn reserved_opcode_is_reported() {
    let mut client = open_client();
    client.receive(&[0x83, 0x00]);
    assert_eq!(
        client.next_frame(),
        Incoming::Failed(Error::Protocol(ProtocolError::ReservedOpcode))
    );
}

#[test]
fn received_close_moves_to_closing_and_allows_one_close_reply() {
    let mut server = open_server();
    server.receive(&Frame::close(1000).encode_with_key(&[1, 2, 3, 4]));
    let close = match server.next_frame() {
        Incoming::Frame(close) => close,
        other => panic!("expected the close frame, got {:?}", other),
    };
    assert_eq!(close, Frame::close(1000));
    assert_eq!(server.state(), State::Closing);
    assert_eq!(server.next_frame(), Incoming::Failed(Error::NotOpen));
    assert_eq!(server.send(&frame(true, Opcode::Text, b"late")), Err(Error::NotOpen));
    let reply = close.reply().expect("a close calls for a close");
    assert_eq!(server.send(&reply), Ok(vec![0x88, 0x02, 0x03, 0xE8]));
    assert_eq!(server.send(&reply), Err(Error::NotOpen));
    server.close();
    assert_eq!(server.state(), State::Closed);
}

#[test]
fn sent_close_stops_data_but_not_reading() {
    let mut client = open_client();
    assert!(client.send(&Frame::close(1000)).is_ok());
    assert_eq!(client.state(), State::Closing);
    assert_eq!(client.send(&frame(true, Opcode::Text, b"late")), Err(Error::NotOpen));
    assert_eq!(client.send(&frame(true, Opcode::Ping, b"")), Err(Error::NotOpen));
    assert!(client.can_read());
    client.receive(&frame(true, Opcode::Text, b"still coming").encode());
    assert_eq!(client.next_frame(), Incoming::Frame(frame(true, Opcode::Text, b"still coming")));
    client.receive(&Frame::close(1000).encode());
    assert_eq!(client.next_frame(), Incoming::Frame(Frame::close(1000)));
    assert!(!client.can_read());
    assert_eq!(client.end_of_input(), Ok(()));
    assert_eq!(client.state(), State::Closed);
}

#[test]
fn invalid_frames_are_not_sent() {
    let mut server = open_server();
    assert_eq!(server.send(&frame(true, Opcode::Ping, &[0u8; 126])), Err(Error::InvalidFrame));
    assert_eq!(server.send(&frame(false, Opcode::Pong, b"")), Err(Error::InvalidFrame));
    assert_eq!(server.check_send(&frame(false, Opcode::Close, b"")), Err(Error::InvalidFrame));
    assert_eq!(server.state(), State::Open);
    assert_eq!(server.check_send(&frame(false, Opcode::Text, b"ok")), Ok(()));
}

#[test]
fn close_is_idempotent_and_final() {
    let mut server = open_server();
    server.receive(&[0x81]);
    server.close();
    assert_eq!(server.state(), State::Closed);
    server.close();
    assert_eq!(server.state(), State::Closed);
    assert_eq!(server.next_frame(), Incoming::Finished);
    assert_eq!(server.send(&frame(true, Opcode::Text, b"x")), Err(Error::NotOpen));
    assert_eq!(server.end_of_input(), Ok(()));
    let before = server.buffered();
    server.receive(b"more");
    assert_eq!(server.buffered(), before);
    assert_eq!(server.advance(), Step::Failed(Error::NotOpen));
}

#[test]
fn close_before_the_start_changes_nothing() {
    let mut session = Session::new(false);
    session.close();
    assert_eq!(session.state(), State::Created);
}

#[test]
fn ping_is_answered_with_the_same_payload() {
    let mut client = open_client();
    let mut server = open_server();
    server.receive(&client.send(&frame(true, Opcode::Ping, b"tick")).expect("open"));
    let ping = match server.next_frame() {
        Incoming::Frame(ping) => ping,
        other => panic!("expected the ping, got {:?}", other),
    };
    let pong = ping.reply().expect("a ping calls for a pong");
    client.receive(&server.send(&pong).expect("open"));
    assert_eq!(client.next_frame(), Incoming::Frame(frame(true, Opcode::Pong, b"tick")));
}
