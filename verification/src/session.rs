//! The connection lifecycle without the transport.
//!
//! A [`Session`] holds what one endpoint of a connection knows: its role,
//! its lifecycle state and the bytes it has received and not yet consumed.
//! It decides; the caller acts. The caller hands over the bytes it reads and
//! the end of input when it sees it, asks for the next frame, and writes out
//! the bytes that the session returns. Each decision is a specification
//! function from the session's value to its next value and an answer, and
//! the methods are proved to compute those.

use crate::frame::{
    encode_frame, frame_valid, parse_frame, Frame, FrameView, ParseResult, Parsed, ProtocolError,
};
use crate::handshake::{encode_handshake, parse_handshake, Handshake};
use crate::encoding::base64_standard;
use crate::opcode::Opcode;
use crate::random::generate_random_base64_str;
use crate::upgrade::{
    accept_value, client_key, request_error, request_view, response_error, response_view,
    HandshakeError,
};
use vstd::prelude::*;
use vstd::slice::{slice_subrange, slice_to_vec};
use vstd::string::StringSliceAdditionalSpecFns;
use vstd::utf8::encode_utf8;

verus! {

/// The lifecycle state of a connection.
#[derive(Debug, Clone, Copy, PartialEq, Eq, Structural)]
pub enum State {
    /// Nothing has happened yet.
    Created,
    /// The opening handshake is under way.
    Handshaking,
    /// Frames may be read and sent.
    Open,
    /// A Close frame was sent or received, or the peer broke the protocol.
    Closing,
    /// The connection is over.
    Closed,
}

/// What can happen to a connection.
#[derive(Debug, Clone, Copy, PartialEq, Eq, Structural)]
pub enum Event {
    StartHandshake,
    HandshakeOk,
    HandshakeFailed,
    ReadEof,
    ParseError,
    SentClose,
    ReceivedClose,
    Close,
}

/// Why an operation on a session failed.
#[derive(Debug, Clone, Copy, PartialEq, Eq, Structural)]
pub enum Error {
    /// The peer closed the transport in the middle of a frame or of the
    /// handshake.
    ConnectionReset,
    /// The handshake was refused.
    HandshakeRefused(HandshakeError),
    /// The peer sent a frame that violates the wire format.
    Protocol(ProtocolError),
    /// The frame to send violates the frame invariant.
    InvalidFrame,
    /// The operation is not allowed in the session's state.
    NotOpen,
}

/// The state that follows `state` on `event`. An event that the state has no
/// transition for leaves it unchanged; `Closed` is terminal.
pub open spec fn next_state(state: State, event: Event) -> State {
    match (state, event) {
        (State::Created, Event::StartHandshake) => State::Handshaking,
        (State::Handshaking, Event::HandshakeOk) => State::Open,
        (State::Handshaking, Event::HandshakeFailed) => State::Closed,
        (State::Handshaking, Event::ReadEof) => State::Closed,
        (State::Handshaking, Event::Close) => State::Closed,
        (State::Open, Event::ReadEof) => State::Closed,
        (State::Open, Event::ParseError) => State::Closing,
        (State::Open, Event::SentClose) => State::Closing,
        (State::Open, Event::ReceivedClose) => State::Closing,
        (State::Open, Event::Close) => State::Closed,
        (State::Closing, Event::ReadEof) => State::Closed,
        (State::Closing, Event::Close) => State::Closed,
        _ => state,
    }
}

impl State {
    /// The state that follows this one on `event`.
    pub fn on(self, event: Event) -> (next: State)
        ensures
            next == next_state(self, event),
    {
        match (self, event) {
            (State::Created, Event::StartHandshake) => State::Handshaking,
            (State::Handshaking, Event::HandshakeOk) => State::Open,
            (State::Handshaking, Event::HandshakeFailed) => State::Closed,
            (State::Handshaking, Event::ReadEof) => State::Closed,
            (State::Handshaking, Event::Close) => State::Closed,
            (State::Open, Event::ReadEof) => State::Closed,
            (State::Open, Event::ParseError) => State::Closing,
            (State::Open, Event::SentClose) => State::Closing,
            (State::Open, Event::ReceivedClose) => State::Closing,
            (State::Open, Event::Close) => State::Closed,
            (State::Closing, Event::ReadEof) => State::Closed,
            (State::Closing, Event::Close) => State::Closed,
            _ => self,
        }
    }
}

/// `Closed` is terminal: no event leads out of it.
pub proof fn lemma_closed_is_terminal(event: Event)
    ensures
        next_state(State::Closed, event) == State::Closed,
{
}

/// Closing is idempotent, and from every state but `Created` it leads to
/// `Closed`.
pub proof fn lemma_close_idempotent(state: State)
    ensures
        next_state(next_state(state, Event::Close), Event::Close) == next_state(
            state,
            Event::Close,
        ),
        state != State::Created ==> next_state(state, Event::Close) == State::Closed,
{
}

/// The mathematical value of a [`Session`].
pub struct SessionView {
    /// Whether this endpoint is the server.
    pub is_server: bool,
    pub state: State,
    /// The bytes received and not yet consumed.
    pub buffer: Seq<u8>,
    /// Whether a Close frame was sent.
    pub close_sent: bool,
    /// Whether a Close frame was received.
    pub close_received: bool,
    /// Whether the peer broke the protocol.
    pub failed: bool,
    /// The nonce that a client sent in its request.
    pub key: Seq<u8>,
}

/// The session invariant: an open session has seen no Close frame and no
/// protocol error, a closing one has seen at least one of them, and before
/// the handshake is done none of them can have happened.
pub open spec fn session_wf(s: SessionView) -> bool {
    match s.state {
        State::Created => !s.close_sent && !s.close_received && !s.failed && s.buffer.len() == 0,
        State::Handshaking => !s.close_sent && !s.close_received && !s.failed,
        State::Open => !s.close_sent && !s.close_received && !s.failed,
        State::Closing => s.close_sent || s.close_received || s.failed,
        State::Closed => true,
    }
}

/// Whether frames may be read: in `Open`, and in `Closing` as long as the
/// only reason for closing is a Close frame that this endpoint sent.
pub open spec fn readable(s: SessionView) -> bool {
    s.state == State::Open || (s.state == State::Closing && !s.close_received && !s.failed)
}

/// Whether a frame of the given opcode may be sent: any frame in `Open`, and
/// in `Closing` one Close frame if none was sent yet.
pub open spec fn sendable(s: SessionView, opcode: Opcode) -> bool {
    s.state == State::Open || (s.state == State::Closing && opcode == Opcode::Close
        && !s.close_sent)
}

/// What asking for the next frame yields.
#[derive(Debug, PartialEq, Eq)]
pub enum Incoming {
    /// A frame arrived.
    Frame(Frame),
    /// The buffer holds no whole frame; the caller should read more.
    NeedMore,
    /// The connection is closed; there will be no more frames.
    Finished,
    /// The peer broke the protocol, or the session is not in a state to read.
    Failed(Error),
}

/// The mathematical value of an [`Incoming`].
pub enum IncomingView {
    Frame(FrameView),
    NeedMore,
    Finished,
    Failed(Error),
}

impl View for Incoming {
    type V = IncomingView;

    open spec fn view(&self) -> IncomingView {
        match self {
            Incoming::Frame(frame) => IncomingView::Frame(frame@),
            Incoming::NeedMore => IncomingView::NeedMore,
            Incoming::Finished => IncomingView::Finished,
            Incoming::Failed(error) => IncomingView::Failed(*error),
        }
    }
}

/// What a step of the handshake yields.
#[derive(Debug, PartialEq, Eq)]
pub enum Step {
    /// The buffer does not hold the whole message; the caller should read
    /// more.
    NeedMore,
    /// The server accepted the request; the bytes are the response to write.
    Accepted(Vec<u8>),
    /// The client accepted the response.
    Established,
    /// The handshake failed.
    Failed(Error),
}

/// The mathematical value of a [`Step`].
pub enum StepView {
    NeedMore,
    Accepted(Seq<u8>),
    Established,
    Failed(Error),
}

impl View for Step {
    type V = StepView;

    open spec fn view(&self) -> StepView {
        match self {
            Step::NeedMore => StepView::NeedMore,
            Step::Accepted(bytes) => StepView::Accepted(bytes@),
            Step::Established => StepView::Established,
            Step::Failed(error) => StepView::Failed(*error),
        }
    }
}

/// A session that has done nothing yet.
pub open spec fn fresh(is_server: bool) -> SessionView {
    SessionView {
        is_server,
        state: State::Created,
        buffer: Seq::empty(),
        close_sent: false,
        close_received: false,
        failed: false,
        key: Seq::empty(),
    }
}

/// The session after `bytes` have arrived: they go to the end of the buffer.
/// A closed session keeps nothing.
pub open spec fn after_receive(s: SessionView, bytes: Seq<u8>) -> SessionView {
    if s.state == State::Closed || s.state == State::Created {
        s
    } else {
        SessionView { buffer: s.buffer + bytes, ..s }
    }
}

/// The session after a server has begun to wait for a request, and whether
/// it could: only a server that has done nothing yet can.
pub open spec fn after_listen(s: SessionView) -> (SessionView, bool) {
    if s.is_server && s.state == State::Created {
        (SessionView { state: next_state(s.state, Event::StartHandshake), ..s }, true)
    } else {
        (s, false)
    }
}

/// The session after a client has begun the handshake with the nonce `key`,
/// and the request to write, if it could begin: only a client that has done
/// nothing yet can.
pub open spec fn after_request(s: SessionView, target: Seq<u8>, host: Seq<u8>, key: Seq<u8>) -> (
    SessionView,
    Option<Seq<u8>>,
) {
    if !s.is_server && s.state == State::Created {
        (
            SessionView { state: next_state(s.state, Event::StartHandshake), key, ..s },
            Some(encode_handshake(request_view(target, host, key))),
        )
    } else {
        (s, None)
    }
}

/// One step of the handshake. A server waits for a whole request, judges it
/// and answers; a client waits for a whole response and judges it against its
/// nonce. Success consumes the message and opens the session; refusal closes
/// it.
pub open spec fn handshake_step(s: SessionView) -> (SessionView, StepView) {
    if s.state != State::Handshaking {
        (s, StepView::Failed(Error::NotOpen))
    } else {
        match parse_handshake(s.buffer) {
            None => (s, StepView::NeedMore),
            Some((message, consumed)) => {
                let refusal = if s.is_server {
                    request_error(message)
                } else {
                    response_error(message, s.key)
                };
                match refusal {
                    Some(error) => (
                        SessionView { state: next_state(s.state, Event::HandshakeFailed), ..s },
                        StepView::Failed(Error::HandshakeRefused(error)),
                    ),
                    None => (
                        SessionView {
                            state: next_state(s.state, Event::HandshakeOk),
                            buffer: s.buffer.skip(consumed as int),
                            ..s
                        },
                        if s.is_server {
                            StepView::Accepted(
                                encode_handshake(
                                    response_view(
                                        encode_utf8(
                                            accept_value(client_key(message.headers).unwrap()),
                                        ),
                                    ),
                                ),
                            )
                        } else {
                            StepView::Established
                        },
                    ),
                }
            },
        }
    }
}

/// Asking for the next frame. A closed session is finished. Otherwise the
/// session must be readable, and the front of the buffer decides: a whole
/// frame is taken out of the buffer and delivered, and a Close frame moves
/// the session to `Closing`; an incomplete frame leaves everything as it is;
/// a violation of the wire format is reported and moves the session to
/// `Closing`.
pub open spec fn poll_frame(s: SessionView) -> (SessionView, IncomingView) {
    if s.state == State::Closed {
        (s, IncomingView::Finished)
    } else if !readable(s) {
        (s, IncomingView::Failed(Error::NotOpen))
    } else {
        match parse_frame(s.buffer, s.is_server) {
            Parsed::Incomplete => (s, IncomingView::NeedMore),
            Parsed::Invalid(kind) => (
                SessionView { state: next_state(s.state, Event::ParseError), failed: true, ..s },
                IncomingView::Failed(Error::Protocol(kind)),
            ),
            Parsed::Complete(frame, consumed) => (
                if frame.opcode == Opcode::Close {
                    SessionView {
                        state: next_state(s.state, Event::ReceivedClose),
                        close_received: true,
                        buffer: s.buffer.skip(consumed as int),
                        ..s
                    }
                } else {
                    SessionView { buffer: s.buffer.skip(consumed as int), ..s }
                },
                IncomingView::Frame(frame),
            ),
        }
    }
}

/// The end of input. It closes the session. It is an error where the peer
/// stopped in the middle of the handshake, or in the middle of a frame while
/// the session was readable.
pub open spec fn at_eof(s: SessionView) -> (SessionView, Option<Error>) {
    (
        SessionView { state: next_state(s.state, Event::ReadEof), ..s },
        if s.state == State::Handshaking || (readable(s) && s.buffer.len() > 0) {
            Some(Error::ConnectionReset)
        } else {
            None
        },
    )
}

/// Why a frame may not be sent, if it may not.
pub open spec fn send_error(s: SessionView, frame: FrameView) -> Option<Error> {
    if !sendable(s, frame.opcode) {
        Some(Error::NotOpen)
    } else if !frame_valid(frame) {
        Some(Error::InvalidFrame)
    } else {
        None
    }
}

/// The session after a frame was sent: a Close frame moves it to `Closing`.
pub open spec fn after_send(s: SessionView, frame: FrameView) -> SessionView {
    if frame.opcode == Opcode::Close {
        SessionView { state: next_state(s.state, Event::SentClose), close_sent: true, ..s }
    } else {
        s
    }
}

/// The session after `close`.
pub open spec fn after_close(s: SessionView) -> SessionView {
    SessionView { state: next_state(s.state, Event::Close), ..s }
}

/// Every decision keeps the session invariant.
pub proof fn lemma_steps_keep_invariant(
    s: SessionView,
    bytes: Seq<u8>,
    target: Seq<u8>,
    host: Seq<u8>,
    key: Seq<u8>,
    frame: FrameView,
)
    requires
        session_wf(s),
    ensures
        session_wf(fresh(s.is_server)),
        session_wf(after_receive(s, bytes)),
        session_wf(after_listen(s).0),
        session_wf(after_request(s, target, host, key).0),
        session_wf(handshake_step(s).0),
        session_wf(poll_frame(s).0),
        session_wf(at_eof(s).0),
        send_error(s, frame) is None ==> session_wf(after_send(s, frame)),
        session_wf(after_close(s)),
{
}

/// A closed session stays closed and delivers nothing: reading is finished,
/// sending fails, and neither bytes nor the end of input nor `close` change
/// it.
pub proof fn lemma_closed_session(s: SessionView, bytes: Seq<u8>, frame: FrameView)
    requires
        s.state == State::Closed,
    ensures
        poll_frame(s) == (s, IncomingView::Finished),
        send_error(s, frame) == Some(Error::NotOpen),
        after_receive(s, bytes) == s,
        at_eof(s) == (s, None::<Error>),
        after_close(s) == s,
        handshake_step(s) == (s, StepView::Failed(Error::NotOpen)),
{
}

/// Frames are read and sent only after the handshake: before it is done,
/// reading and sending fail and change nothing.
pub proof fn lemma_not_open_before_handshake(s: SessionView, frame: FrameView)
    requires
        s.state == State::Created || s.state == State::Handshaking,
    ensures
        poll_frame(s) == (s, IncomingView::Failed(Error::NotOpen)),
        send_error(s, frame) == Some(Error::NotOpen),
{
}

/// A partial frame survives until the rest arrives. While the buffer of a
/// readable session holds only part of a frame, asking for a frame changes
/// nothing; and once bytes arrive that complete it, the frame is delivered
/// and exactly its bytes leave the buffer.
pub proof fn lemma_partial_frame_kept(s: SessionView, more: Seq<u8>)
    requires
        readable(s),
        parse_frame(s.buffer, s.is_server) is Incomplete,
        parse_frame(s.buffer + more, s.is_server) is Complete,
    ensures
        poll_frame(s) == (s, IncomingView::NeedMore),
        poll_frame(after_receive(s, more)).1 == IncomingView::Frame(
            parse_frame(s.buffer + more, s.is_server)->Complete_0,
        ),
        poll_frame(after_receive(s, more)).0.buffer == (s.buffer + more).skip(
            parse_frame(s.buffer + more, s.is_server)->Complete_1 as int,
        ),
{
}

/// One endpoint of a connection, without its transport.
#[derive(Debug)]
pub struct Session {
    is_server: bool,
    state: State,
    buffer: Vec<u8>,
    close_sent: bool,
    close_received: bool,
    failed: bool,
    key: Vec<u8>,
}

impl View for Session {
    type V = SessionView;

    closed spec fn view(&self) -> SessionView {
        SessionView {
            is_server: self.is_server,
            state: self.state,
            buffer: self.buffer@,
            close_sent: self.close_sent,
            close_received: self.close_received,
            failed: self.failed,
            key: self.key@,
        }
    }
}

impl Session {
    #[verifier::type_invariant]
    spec fn well_formed(&self) -> bool {
        session_wf(self@)
    }

    /// A session in the given role that has done nothing yet.
    pub fn new(is_server: bool) -> (session: Session)
        ensures
            session@ == fresh(is_server),
    {
        Session {
            is_server,
            state: State::Created,
            buffer: Vec::new(),
            close_sent: false,
            close_received: false,
            failed: false,
            key: Vec::new(),
        }
    }

    /// Whether this endpoint is the server.
    pub fn is_server(&self) -> (b: bool)
        ensures
            b == self@.is_server,
    {
        self.is_server
    }

    /// The lifecycle state.
    pub fn state(&self) -> (state: State)
        ensures
            state == self@.state,
            session_wf(self@),
    {
        proof {
            use_type_invariant(self);
        }
        self.state
    }

    /// The number of bytes received and not yet consumed.
    pub fn buffered(&self) -> (n: usize)
        ensures
            n == self@.buffer.len(),
    {
        self.buffer.len()
    }

    /// Whether frames may be read.
    pub fn can_read(&self) -> (b: bool)
        ensures
            b == readable(self@),
    {
        match self.state {
            State::Open => true,
            State::Closing => !self.close_received && !self.failed,
            _ => false,
        }
    }

    /// Whether a frame of the given opcode may be sent.
    pub fn can_send(&self, opcode: Opcode) -> (b: bool)
        ensures
            b == sendable(self@, opcode),
    {
        match self.state {
            State::Open => true,
            State::Closing => opcode == Opcode::Close && !self.close_sent,
            _ => false,
        }
    }

    /// Takes in bytes that the caller has read from the transport.
    pub fn receive(&mut self, bytes: &[u8])
        ensures
            final(self)@ == after_receive(old(self)@, bytes@),
    {
        proof {
            use_type_invariant(&*self);
        }
        match self.state {
            State::Closed | State::Created => {},
            _ => {
                let mut more = slice_to_vec(bytes);
                let mut buffer: Vec<u8> = Vec::new();
                core::mem::swap(&mut buffer, &mut self.buffer);
                buffer.append(&mut more);
                self.buffer = buffer;
            },
        }
    }

    /// Begins to wait for a request. Returns whether the session could: only
    /// a server that has done nothing yet can.
    pub fn listen(&mut self) -> (ok: bool)
        ensures
            (final(self)@, ok) == after_listen(old(self)@),
    {
        proof {
            use_type_invariant(&*self);
        }
        if self.is_server && self.state == State::Created {
            self.state = State::Handshaking;
            true
        } else {
            false
        }
    }

    /// Begins the handshake as a client with the given nonce and returns the
    /// request to write, or `None` where the session could not begin: only a
    /// client that has done nothing yet can.
    pub fn request_with_key(&mut self, target: &[u8], host: &[u8], key: &str) -> (request: Option<
        Vec<u8>,
    >)
        ensures
            final(self)@ == after_request(old(self)@, target@, host@, key.spec_bytes()).0,
            match request {
                Some(bytes) => after_request(old(self)@, target@, host@, key.spec_bytes()).1
                    == Some(bytes@),
                None => after_request(old(self)@, target@, host@, key.spec_bytes()).1 is None,
            },
    {
        proof {
            use_type_invariant(&*self);
        }
        if !self.is_server && self.state == State::Created {
            let message = Handshake::request(target, host, key);
            self.key = slice_to_vec(key.as_bytes());
            self.state = State::Handshaking;
            Some(message.encode())
        } else {
            None
        }
    }

    /// Begins the handshake as a client with a nonce drawn afresh from the
    /// random source: the Base64 text of sixteen random bytes. Whatever
    /// bytes were drawn, the session and the request are those of that
    /// nonce.
    pub fn request(&mut self, target: &[u8], host: &[u8]) -> (request: Option<Vec<u8>>)
        ensures
            exists|nonce: Seq<u8>|
                {
                    let key = encode_utf8(#[trigger] base64_standard(nonce));
                    &&& nonce.len() == 16
                    &&& final(self)@ == after_request(old(self)@, target@, host@, key).0
                    &&& match request {
                        Some(bytes) => after_request(old(self)@, target@, host@, key).1 == Some(
                            bytes@,
                        ),
                        None => after_request(old(self)@, target@, host@, key).1 is None,
                    }
                },
    {
        let text = generate_random_base64_str();
        let ghost nonce = choose|nonce: Seq<u8>|
            nonce.len() == 16 && text@ == base64_standard(nonce);
        let key = text.as_str();
        let request = self.request_with_key(target, host, key);
        assert(key.spec_bytes() == encode_utf8(base64_standard(nonce)));
        request
    }

    /// Takes one step of the handshake on the bytes received so far.
    pub fn advance(&mut self) -> (step: Step)
        ensures
            (final(self)@, step@) == handshake_step(old(self)@),
    {
        proof {
            use_type_invariant(&*self);
        }
        if self.state != State::Handshaking {
            return Step::Failed(Error::NotOpen);
        }
        let (message, consumed) = match Handshake::parse(self.buffer.as_slice()) {
            None => {
                return Step::NeedMore;
            },
            Some(found) => found,
        };
        if self.is_server {
            match message.accept_request() {
                Err(error) => {
                    self.state = State::Closed;
                    Step::Failed(Error::HandshakeRefused(error))
                },
                Ok(response) => {
                    self.consume(consumed);
                    self.state = State::Open;
                    Step::Accepted(response.encode())
                },
            }
        } else {
            match message.check_response(self.key.as_slice()) {
                Err(error) => {
                    self.state = State::Closed;
                    Step::Failed(Error::HandshakeRefused(error))
                },
                Ok(_) => {
                    self.consume(consumed);
                    self.state = State::Open;
                    Step::Established
                },
            }
        }
    }

    /// Moves the session to `state` with the given record of what has
    /// happened; role, buffer and nonce stay.
    fn turn(&mut self, state: State, close_sent: bool, close_received: bool, failed: bool)
        requires
            session_wf(
                SessionView { state, close_sent, close_received, failed, ..old(self)@ },
            ),
        ensures
            final(self)@ == (SessionView {
                state,
                close_sent,
                close_received,
                failed,
                ..old(self)@
            }),
    {
        proof {
            use_type_invariant(&*self);
        }
        let mut buffer: Vec<u8> = Vec::new();
        let mut key: Vec<u8> = Vec::new();
        core::mem::swap(&mut buffer, &mut self.buffer);
        core::mem::swap(&mut key, &mut self.key);
        *self = Session {
            is_server: self.is_server,
            state,
            buffer,
            close_sent,
            close_received,
            failed,
            key,
        };
    }

    /// Drops the first `count` bytes of the buffer.
    fn consume(&mut self, count: usize)
        requires
            count <= old(self)@.buffer.len(),
            old(self)@.state != State::Created,
        ensures
            final(self)@ == (SessionView {
                buffer: old(self)@.buffer.skip(count as int),
                ..old(self)@
            }),
    {
        proof {
            use_type_invariant(&*self);
        }
        let rest = slice_to_vec(slice_subrange(self.buffer.as_slice(), count, self.buffer.len()));
        assert(rest@ =~= self@.buffer.skip(count as int));
        self.buffer = rest;
    }

    /// Asks for the next frame among the bytes received so far.
    pub fn next_frame(&mut self) -> (incoming: Incoming)
        ensures
            (final(self)@, incoming@) == poll_frame(old(self)@),
    {
        proof {
            use_type_invariant(&*self);
        }
        if self.state == State::Closed {
            return Incoming::Finished;
        }
        if !self.can_read() {
            return Incoming::Failed(Error::NotOpen);
        }
        match Frame::parse(self.buffer.as_slice(), self.is_server) {
            ParseResult::Incomplete => Incoming::NeedMore,
            ParseResult::Invalid(kind) => {
                self.turn(State::Closing, self.close_sent, self.close_received, true);
                Incoming::Failed(Error::Protocol(kind))
            },
            ParseResult::Complete(frame, consumed) => {
                self.consume(consumed);
                if frame.opcode == Opcode::Close {
                    self.turn(State::Closing, self.close_sent, true, self.failed);
                }
                Incoming::Frame(frame)
            },
        }
    }

    /// Takes in the end of input. The session closes; the error says whether
    /// the peer stopped where it should not have.
    pub fn end_of_input(&mut self) -> (res: Result<(), Error>)
        ensures
            final(self)@ == at_eof(old(self)@).0,
            match res {
                Ok(_) => at_eof(old(self)@).1 is None,
                Err(error) => at_eof(old(self)@).1 == Some(error),
            },
    {
        proof {
            use_type_invariant(&*self);
        }
        let reset = self.state == State::Handshaking || (self.can_read() && self.buffer.len()
            > 0);
        self.state = self.state.on(Event::ReadEof);
        if reset {
            Err(Error::ConnectionReset)
        } else {
            Ok(())
        }
    }

    /// Tests whether `frame` may be sent now.
    pub fn check_send(&self, frame: &Frame) -> (res: Result<(), Error>)
        ensures
            match res {
                Ok(_) => send_error(self@, frame@) is None,
                Err(error) => send_error(self@, frame@) == Some(error),
            },
    {
        if !self.can_send(frame.opcode) {
            Err(Error::NotOpen)
        } else if !frame.is_valid() {
            Err(Error::InvalidFrame)
        } else {
            Ok(())
        }
    }

    /// Records that `frame` is being sent.
    fn sent(&mut self, frame: &Frame)
        requires
            send_error(old(self)@, frame@) is None,
        ensures
            final(self)@ == after_send(old(self)@, frame@),
    {
        proof {
            use_type_invariant(&*self);
        }
        if frame.opcode == Opcode::Close {
            self.turn(State::Closing, true, self.close_received, self.failed);
        }
    }

    /// Prepares `frame` for sending with the masking key that a client
    /// would use; a server ignores the key. Returns the bytes to write. On
    /// an error nothing changes.
    pub fn send_with_key(&mut self, frame: &Frame, key: &[u8; 4]) -> (res: Result<Vec<u8>, Error>)
        ensures
            match res {
                Ok(bytes) => {
                    &&& send_error(old(self)@, frame@) is None
                    &&& final(self)@ == after_send(old(self)@, frame@)
                    &&& bytes@ == encode_frame(
                        frame@,
                        if old(self)@.is_server {
                            None
                        } else {
                            Some(key@)
                        },
                    )
                },
                Err(error) => {
                    &&& send_error(old(self)@, frame@) == Some(error)
                    &&& final(self)@ == old(self)@
                },
            },
    {
        match self.check_send(frame) {
            Err(error) => Err(error),
            Ok(_) => {
                self.sent(frame);
                if self.is_server {
                    Ok(frame.encode())
                } else {
                    Ok(frame.encode_with_key(key))
                }
            },
        }
    }

    /// Prepares `frame` for sending. A server encodes it unmasked; a client
    /// masks it with a key drawn afresh from the random source, and whatever
    /// key was drawn, the bytes are the encoding under that key. On an error
    /// nothing changes.
    pub fn send(&mut self, frame: &Frame) -> (res: Result<Vec<u8>, Error>)
        ensures
            match res {
                Ok(bytes) => {
                    &&& send_error(old(self)@, frame@) is None
                    &&& final(self)@ == after_send(old(self)@, frame@)
                    &&& old(self)@.is_server ==> bytes@ == encode_frame(frame@, None)
                    &&& !old(self)@.is_server ==> exists|key: Seq<u8>|
                        key.len() == 4 && bytes@ == encode_frame(frame@, Some(key))
                },
                Err(error) => {
                    &&& send_error(old(self)@, frame@) == Some(error)
                    &&& final(self)@ == old(self)@
                },
            },
    {
        match self.check_send(frame) {
            Err(error) => Err(error),
            Ok(_) => {
                self.sent(frame);
                if self.is_server {
                    Ok(frame.encode())
                } else {
                    Ok(frame.encode_with_mask())
                }
            },
        }
    }

    /// Closes the session. Closing twice is closing once.
    pub fn close(&mut self)
        ensures
            final(self)@ == after_close(old(self)@),
    {
        proof {
            use_type_invariant(&*self);
        }
        self.state = self.state.on(Event::Close);
    }
}

} // verus!
