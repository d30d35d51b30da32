//! A WebSocket endpoint core: the frame codec, the opening-handshake codec and
//! the connection lifecycle, written so that every rule of the wire format is
//! stated as a contract and proved.
//!
//! The crate performs no I/O. Callers feed it the bytes they read from a
//! transport and write out the bytes it produces.

pub mod control;
pub mod encoding;
pub mod frame;
pub mod handshake;
pub mod headers;
pub mod mask;
pub mod opcode;
pub mod random;
pub mod session;
pub mod text;
pub mod upgrade;
pub mod wire;

pub use encoding::base64_encode;
pub use frame::{Frame, ParseResult, ProtocolError};
pub use handshake::Handshake;
pub use headers::{Header, HeaderMap};
pub use opcode::Opcode;
pub use random::{generate_random_base64_str, random_i32_to_u8_vec};
pub use session::{Error, Event, Incoming, Session, State, Step};
pub use upgrade::HandshakeError;
