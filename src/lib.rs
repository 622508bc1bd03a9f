//! A client-side WebSocket protocol engine: frame codec, handshake
//! negotiation, message reassembly and the connection state machine.
//! Every function here is a pure step over plain values; the byte channel
//! itself is driven by the caller.

pub mod assembler;
pub mod connection;
pub mod frame;
pub mod handshake;

pub use assembler::{Message, MessageAssembler, MessageKind, ProtocolError};
pub use connection::{Connection, ConnectionState, Event, Step, WsClientError};
pub use frame::{Frame, FrameError, Opcode};
pub use handshake::HandshakeError;
