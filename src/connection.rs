use vstd::prelude::*;
use vstd::string::StringSliceAdditionalSpecFns;

use crate::assembler::{
    assemble_step, AssemblyState, Message, MessageAssembler, MessageKind, ProtocolError,
};
use crate::frame::{encoding, is_control_spec, Frame, FrameError, FrameView, Opcode};
use crate::handshake::{push_all, HandshakeError};

verus! {

/// The lifecycle of a session.
#[derive(Clone, Copy, Debug, PartialEq, Eq, Structural)]
pub enum ConnectionState {
    Connecting,
    Open,
    Closing,
    Closed,
}

/// Everything that can end or refuse an operation on a session.
#[derive(Debug)]
pub enum WsClientError {
    /// The byte channel failed or ended early.
    Transport(String),
    /// The server refused or botched the upgrade.
    Handshake(HandshakeError),
    /// Bytes that are not a well-formed frame.
    Format(FrameError),
    /// A well-formed frame that is illegal where it stands.
    Protocol(ProtocolError),
    /// The handshake or the closing handshake took too long.
    Timeout,
    /// The operation needs an open session; the state it found is given.
    NotOpen(ConnectionState),
    /// The session is closed; nothing more can be done on it.
    Closed,
    /// A close reason longer than the 123 bytes a Close frame has room for.
    ReasonTooLong(usize),
}

/// What a received frame meant to the application.
#[derive(Debug)]
pub enum Event {
    /// A complete data message.
    Message(Message),
    /// A fragment of a message that is still in progress.
    Fragment,
    /// The peer pinged with this payload.
    Ping(Vec<u8>),
    /// The peer answered a ping with this payload.
    Pong(Vec<u8>),
    /// The peer closed the session, with this status code if it sent one.
    Closed(Option<u16>),
}

/// The outcome of one received frame: its event, and the bytes of the frame to
/// write back to the peer, if any.
#[derive(Debug)]
pub struct Step {
    pub event: Event,
    pub reply: Option<Vec<u8>>,
}

/// The status code that closes a session normally.
pub const NORMAL_CLOSURE: u16 = 1000;

/// A final, masked frame as a client sends it.
pub open spec fn client_frame(op: Opcode, payload: Seq<u8>, key: Seq<u8>) -> FrameView {
    FrameView {
        fin: true,
        rsv1: false,
        rsv2: false,
        rsv3: false,
        opcode: op,
        mask: true,
        payload_length: payload.len() as u64,
        masking_key: Some(key),
        payload,
    }
}

pub open spec fn code_bytes(code: u16) -> Seq<u8> {
    seq![(code >> 8) as u8, code as u8]
}

/// The status code at the start of a Close payload, if there is one.
pub open spec fn close_code(p: Seq<u8>) -> Option<u16> {
    if p.len() >= 2 {
        Some((((p[0] as u16) << 8) | (p[1] as u16)) as u16)
    } else {
        None
    }
}

/// The code echoed to a peer's Close: its own, or a normal closure.
pub open spec fn echo_code(p: Seq<u8>) -> u16 {
    match close_code(p) {
        Some(c) => c,
        None => NORMAL_CLOSURE,
    }
}

/// The state a session moves to on receiving an unmasked frame with opcode `op`,
/// flag `fin` and payload `p`, with assembler state `a`.
pub open spec fn state_after(
    s: ConnectionState,
    a: AssemblyState,
    op: Opcode,
    fin: bool,
    p: Seq<u8>,
) -> ConnectionState {
    if s == ConnectionState::Closed || s == ConnectionState::Connecting {
        s
    } else if op == Opcode::Close {
        ConnectionState::Closed
    } else if assemble_step(a, op, fin, p).0 is Err {
        ConnectionState::Closed
    } else {
        s
    }
}

/// The session controller: it owns the state and the message assembler and
/// decides, frame by frame, what happens and what is sent back.
pub struct Connection {
    state: ConnectionState,
    assembler: MessageAssembler,
}

/// Builds a final, masked client frame.
fn make_client_frame(opcode: Opcode, payload: Vec<u8>, key: [u8; 4]) -> (r: Frame)
    ensures
        r@ == client_frame(opcode, payload@, key@),
{
    let payload_length = payload.len() as u64;
    Frame {
        fin: true,
        rsv1: false,
        rsv2: false,
        rsv3: false,
        opcode,
        mask: true,
        payload_length,
        masking_key: Some(key),
        payload_data: payload,
    }
}

fn copy_bytes(s: &Vec<u8>) -> (r: Vec<u8>)
    ensures
        r@ == s@,
{
    let mut out: Vec<u8> = Vec::new();
    let mut i: usize = 0;
    while i < s.len()
        invariant
            0 <= i <= s@.len(),
            out@ == s@.subrange(0, i as int),
        decreases s@.len() - i,
    {
        out.push(s[i]);
        i = i + 1;
        assert(out@ =~= s@.subrange(0, i as int));
    }
    assert(s@.subrange(0, s@.len() as int) =~= s@);
    out
}

impl Connection {
    pub closed spec fn state_spec(&self) -> ConnectionState {
        self.state
    }

    pub closed spec fn assembly(&self) -> AssemblyState {
        self.assembler@
    }

    /// A session that has not completed its handshake.
    pub fn new() -> (r: Connection)
        ensures
            r.state_spec() == ConnectionState::Connecting,
            r.assembly() is None,
    {
        Connection { state: ConnectionState::Connecting, assembler: MessageAssembler::new() }
    }

    pub fn state(&self) -> (r: ConnectionState)
        ensures
            r == self.state_spec(),
    {
        self.state
    }

    /// Applies the outcome of the handshake: a session that was connecting opens on
    /// success and closes on failure.
    pub fn handshake_done(&mut self, verdict: Result<(), HandshakeError>) -> (r: Result<
        (),
        WsClientError,
    >)
        ensures
            final(self).assembly() == old(self).assembly(),
            old(self).state_spec() == ConnectionState::Connecting ==> match verdict {
                Ok(()) => r is Ok && final(self).state_spec() == ConnectionState::Open,
                Err(e) => r matches Err(WsClientError::Handshake(x)) && x == e
                    && final(self).state_spec() == ConnectionState::Closed,
            },
            old(self).state_spec() != ConnectionState::Connecting ==> (r matches Err(
                WsClientError::NotOpen(s),
            ) && s == old(self).state_spec() && final(self).state_spec() == old(
                self,
            ).state_spec()),
    {
        if self.state != ConnectionState::Connecting {
            return Err(WsClientError::NotOpen(self.state));
        }
        match verdict {
            Ok(()) => {
                self.state = ConnectionState::Open;
                Ok(())
            },
            Err(e) => {
                self.state = ConnectionState::Closed;
                Err(WsClientError::Handshake(e))
            },
        }
    }

    /// Ends the session at once, after a transport or format failure or when the
    /// wait for the peer's Close ran out.
    pub fn force_close(&mut self)
        ensures
            final(self).state_spec() == ConnectionState::Closed,
            final(self).assembly() == old(self).assembly(),
    {
        self.state = ConnectionState::Closed;
    }

    /// The bytes of one unfragmented data frame of kind `kind`, masked with
    /// `key`; only an open session sends.
    pub fn send_message(&mut self, kind: MessageKind, payload: Vec<u8>, key: [u8; 4]) -> (r:
        Result<Vec<u8>, WsClientError>)
        ensures
            final(self).state_spec() == old(self).state_spec(),
            final(self).assembly() == old(self).assembly(),
            old(self).state_spec() == ConnectionState::Open ==> (r matches Ok(b) && b@ == encoding(
                client_frame(
                    if kind == MessageKind::Text {
                        Opcode::Text
                    } else {
                        Opcode::Binary
                    },
                    payload@,
                    key@,
                ),
            )),
            old(self).state_spec() != ConnectionState::Open ==> (r matches Err(
                WsClientError::NotOpen(s),
            ) && s == old(self).state_spec()),
    {
        if self.state != ConnectionState::Open {
            return Err(WsClientError::NotOpen(self.state));
        }
        let opcode = if kind == MessageKind::Text {
            Opcode::Text
        } else {
            Opcode::Binary
        };
        Ok(make_client_frame(opcode, payload, key).to_bytes())
    }

    /// The bytes of one Text frame carrying `text`, masked with `key`.
    pub fn send_text(&mut self, text: &str, key: [u8; 4]) -> (r: Result<Vec<u8>, WsClientError>)
        ensures
            final(self).state_spec() == old(self).state_spec(),
            final(self).assembly() == old(self).assembly(),
            old(self).state_spec() == ConnectionState::Open ==> (r matches Ok(b) && b@ == encoding(
                client_frame(Opcode::Text, text.spec_bytes(), key@),
            )),
            old(self).state_spec() != ConnectionState::Open ==> (r matches Err(
                WsClientError::NotOpen(s),
            ) && s == old(self).state_spec()),
    {
        let mut payload: Vec<u8> = Vec::new();
        push_all(&mut payload, text.as_bytes());
        assert(payload@ =~= text.spec_bytes());
        self.send_message(MessageKind::Text, payload, key)
    }

    /// The bytes of one Binary frame carrying `data`, masked with `key`.
    pub fn send_binary(&mut self, data: Vec<u8>, key: [u8; 4]) -> (r: Result<Vec<u8>, WsClientError>)
        ensures
            final(self).state_spec() == old(self).state_spec(),
            final(self).assembly() == old(self).assembly(),
            old(self).state_spec() == ConnectionState::Open ==> (r matches Ok(b) && b@ == encoding(
                client_frame(Opcode::Binary, data@, key@),
            )),
            old(self).state_spec() != ConnectionState::Open ==> (r matches Err(
                WsClientError::NotOpen(s),
            ) && s == old(self).state_spec()),
    {
        self.send_message(MessageKind::Binary, data, key)
    }

    /// Starts the closing handshake: the bytes of a Close frame with `code` and
    /// `reason`, masked with `key`. The session waits in `Closing` for the echo.
    pub fn close(&mut self, code: u16, reason: &[u8], key: [u8; 4]) -> (r: Result<
        Vec<u8>,
        WsClientError,
    >)
        ensures
            final(self).assembly() == old(self).assembly(),
            old(self).state_spec() != ConnectionState::Open ==> (r matches Err(
                WsClientError::NotOpen(s),
            ) && s == old(self).state_spec() && final(self).state_spec() == old(
                self,
            ).state_spec()),
            old(self).state_spec() == ConnectionState::Open && reason@.len() > 123 ==> (r matches Err(
                WsClientError::ReasonTooLong(n),
            ) && n == reason@.len() && final(self).state_spec() == ConnectionState::Open),
            old(self).state_spec() == ConnectionState::Open && reason@.len() <= 123 ==> (r matches Ok(
                b,
            ) && b@ == encoding(client_frame(Opcode::Close, code_bytes(code) + reason@, key@))
                && final(self).state_spec() == ConnectionState::Closing),
    {
        if self.state != ConnectionState::Open {
            return Err(WsClientError::NotOpen(self.state));
        }
        if reason.len() > 123 {
            return Err(WsClientError::ReasonTooLong(reason.len()));
        }
        let mut payload: Vec<u8> = Vec::new();
        payload.push((code >> 8) as u8);
        payload.push(code as u8);
        let mut i: usize = 0;
        while i < reason.len()
            invariant
                0 <= i <= reason@.len(),
                payload@ == code_bytes(code) + reason@.subrange(0, i as int),
            decreases reason@.len() - i,
        {
            payload.push(reason[i]);
            i = i + 1;
            assert(payload@ =~= code_bytes(code) + reason@.subrange(0, i as int));
        }
        assert(reason@.subrange(0, reason@.len() as int) =~= reason@);
        self.state = ConnectionState::Closing;
        Ok(make_client_frame(Opcode::Close, payload, key).to_bytes())
    }

    /// Handles one frame from the server. Control frames are answered here: a
    /// Ping gets a Pong with the same payload, a Close is echoed (while open) and
    /// closes the session. Data frames go to the assembler. `key` masks any
    /// reply. Any error closes the session.
    pub fn receive(&mut self, frame: Frame, key: [u8; 4]) -> (r: Result<Step, WsClientError>)
        ensures
            ({
                let s0 = old(self).state_spec();
                let a0 = old(self).assembly();
                let op = frame.opcode;
                let p = frame.payload_data@;
                let live = s0 == ConnectionState::Open || s0 == ConnectionState::Closing;
                &&& s0 == ConnectionState::Closed ==> (r matches Err(WsClientError::Closed)
                    && final(self).state_spec() == s0 && final(self).assembly() == a0)
                &&& s0 == ConnectionState::Connecting ==> (r matches Err(
                    WsClientError::NotOpen(s),
                ) && s == s0 && final(self).state_spec() == s0 && final(self).assembly() == a0)
                &&& live && frame.mask ==> (r matches Err(
                    WsClientError::Protocol(ProtocolError::MaskedServerFrame),
                ) && final(self).state_spec() == ConnectionState::Closed
                    && final(self).assembly() == a0)
                &&& live && !frame.mask ==> {
                    &&& final(self).state_spec() == state_after(s0, a0, op, frame.fin, p)
                    &&& final(self).assembly() == assemble_step(a0, op, frame.fin, p).1
                    &&& op == Opcode::Ping ==> (r matches Ok(st) && st.event matches Event::Ping(q)
                        && q@ == p && (s0 == ConnectionState::Open ==> (st.reply matches Some(b)
                        && b@ == encoding(client_frame(Opcode::Pong, p, key@)))) && (s0
                        == ConnectionState::Closing ==> st.reply is None))
                    &&& op == Opcode::Pong ==> (r matches Ok(st) && st.event matches Event::Pong(q)
                        && q@ == p && st.reply is None)
                    &&& op == Opcode::Close ==> (r matches Ok(st) && st.event matches Event::Closed(
                        c,
                    ) && c == close_code(p) && (s0 == ConnectionState::Open ==> (st.reply matches Some(
                        b,
                    ) && b@ == encoding(
                        client_frame(Opcode::Close, code_bytes(echo_code(p)), key@),
                    ))) && (s0 == ConnectionState::Closing ==> st.reply is None))
                    &&& !is_control_spec(op) ==> match assemble_step(a0, op, frame.fin, p).0 {
                        Err(e) => r matches Err(WsClientError::Protocol(x)) && x == e,
                        Ok(None) => r matches Ok(st) && st.event is Fragment && st.reply is None,
                        Ok(Some((k, q))) => r matches Ok(st) && st.event matches Event::Message(m)
                            && m.kind == k && m.payload@ == q && st.reply is None,
                    }
                }
            }),
    {
        if self.state == ConnectionState::Closed {
            return Err(WsClientError::Closed);
        }
        if self.state == ConnectionState::Connecting {
            return Err(WsClientError::NotOpen(self.state));
        }
        if frame.mask {
            self.state = ConnectionState::Closed;
            return Err(WsClientError::Protocol(ProtocolError::MaskedServerFrame));
        }
        let open = self.state == ConnectionState::Open;
        match frame.opcode {
            Opcode::Ping => {
                let payload = frame.payload_data;
                let reply = if open {
                    Some(make_client_frame(Opcode::Pong, copy_bytes(&payload), key).to_bytes())
                } else {
                    None
                };
                Ok(Step { event: Event::Ping(payload), reply })
            },
            Opcode::Pong => Ok(Step { event: Event::Pong(frame.payload_data), reply: None }),
            Opcode::Close => {
                let p = &frame.payload_data;
                let code: Option<u16> = if p.len() >= 2 {
                    Some(((p[0] as u16) << 8) | (p[1] as u16))
                } else {
                    None
                };
                let reply = if open {
                    let c = match code {
                        Some(c) => c,
                        None => NORMAL_CLOSURE,
                    };
                    let mut body: Vec<u8> = Vec::new();
                    body.push((c >> 8) as u8);
                    body.push(c as u8);
                    assert(body@ =~= code_bytes(c));
                    Some(make_client_frame(Opcode::Close, body, key).to_bytes())
                } else {
                    None
                };
                self.state = ConnectionState::Closed;
                Ok(Step { event: Event::Closed(code), reply })
            },
            _ => {
                match self.assembler.push(frame) {
                    Ok(Some(m)) => Ok(Step { event: Event::Message(m), reply: None }),
                    Ok(None) => Ok(Step { event: Event::Fragment, reply: None }),
                    Err(e) => {
                        self.state = ConnectionState::Closed;
                        Err(WsClientError::Protocol(e))
                    },
                }
            },
        }
    }
}

/// The closing handshake: a session that sent Close closes on the peer's Close,
/// and a closed session stays closed whatever frame comes next.
pub proof fn lemma_close_handshake(
    a: AssemblyState,
    fin: bool,
    p: Seq<u8>,
    next_op: Opcode,
    next_fin: bool,
    next_p: Seq<u8>,
)
    ensures
        state_after(ConnectionState::Closing, a, Opcode::Close, fin, p) == ConnectionState::Closed,
        state_after(ConnectionState::Closed, a, next_op, next_fin, next_p)
            == ConnectionState::Closed,
{
}

} // verus!
