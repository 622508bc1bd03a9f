use vstd::prelude::*;

use crate::frame::{is_control_spec, Frame, Opcode};

verus! {

/// Whether `b` is well-formed UTF-8.
pub uninterp spec fn utf8_valid(b: Seq<u8>) -> bool;

/// Relies on std::str::from_utf8: it succeeds exactly on well-formed UTF-8, and
/// that depends on the bytes alone.
#[verifier::external_body]
fn is_utf8(b: &[u8]) -> (r: bool)
    ensures
        r == utf8_valid(b@),
{
    std::str::from_utf8(b).is_ok()
}

/// The two kinds of application message.
#[derive(Clone, Copy, Debug, PartialEq, Eq, Structural)]
pub enum MessageKind {
    Text,
    Binary,
}

/// A complete application message: the payloads of its frames, in order.
#[derive(Debug)]
pub struct Message {
    pub kind: MessageKind,
    pub payload: Vec<u8>,
}

/// Frame sequences that are legal bytes but illegal in context.
#[derive(Clone, Copy, Debug, PartialEq, Eq, Structural)]
pub enum ProtocolError {
    /// A Continuation frame with no message in progress.
    UnexpectedContinuation,
    /// A Text or Binary frame while another message is still in progress.
    InterleavedMessage,
    /// A completed Text message whose payload is not UTF-8.
    InvalidUtf8,
    /// A frame from the server with the mask bit set.
    MaskedServerFrame,
}

/// The assembler's state: `None` when idle, else the kind and the bytes so far.
pub type AssemblyState = Option<(MessageKind, Seq<u8>)>;

/// What an assembler step yields: a finished message (kind and payload), nothing
/// yet, or an error.
pub type AssemblyOutput = Result<Option<(MessageKind, Seq<u8>)>, ProtocolError>;

pub open spec fn data_kind(op: Opcode) -> Option<MessageKind> {
    match op {
        Opcode::Text => Some(MessageKind::Text),
        Opcode::Binary => Some(MessageKind::Binary),
        _ => None,
    }
}

/// A message is handed out once complete; a Text one only if it is UTF-8.
pub open spec fn finished(kind: MessageKind, payload: Seq<u8>) -> AssemblyOutput {
    if kind == MessageKind::Text && !utf8_valid(payload) {
        Err(ProtocolError::InvalidUtf8)
    } else {
        Ok(Some((kind, payload)))
    }
}

/// One step of reassembly on a frame with opcode `op`, final flag `fin` and
/// payload `p`. Control frames leave the state as it is; an error resets it.
pub open spec fn assemble_step(s: AssemblyState, op: Opcode, fin: bool, p: Seq<u8>) -> (
    AssemblyOutput,
    AssemblyState,
) {
    if is_control_spec(op) {
        (Ok(None), s)
    } else if op == Opcode::Continuation {
        match s {
            None => (Err(ProtocolError::UnexpectedContinuation), None),
            Some((k, buf)) => if fin {
                (finished(k, buf + p), None)
            } else {
                (Ok(None), Some((k, buf + p)))
            },
        }
    } else {
        let k = data_kind(op).unwrap();
        match s {
            Some(_) => (Err(ProtocolError::InterleavedMessage), None),
            None => if fin {
                (finished(k, p), None)
            } else {
                (Ok(None), Some((k, p)))
            },
        }
    }
}

/// Folds data frames into messages.
pub struct MessageAssembler {
    in_progress: Option<MessageKind>,
    buffer: Vec<u8>,
}

impl View for MessageAssembler {
    type V = AssemblyState;

    closed spec fn view(&self) -> AssemblyState {
        match self.in_progress {
            Some(k) => Some((k, self.buffer@)),
            None => None,
        }
    }
}

impl MessageAssembler {
    pub fn new() -> (r: MessageAssembler)
        ensures
            r@ == None::<(MessageKind, Seq<u8>)>,
    {
        MessageAssembler { in_progress: None, buffer: Vec::new() }
    }

    /// Whether a fragmented message is in progress.
    pub fn is_idle(&self) -> (r: bool)
        ensures
            r == self@.is_none(),
    {
        self.in_progress.is_none()
    }

    fn finish(kind: MessageKind, payload: Vec<u8>) -> (r: Result<Option<Message>, ProtocolError>)
        ensures
            output_matches(r, finished(kind, payload@)),
    {
        if kind == MessageKind::Text && !is_utf8(payload.as_slice()) {
            Err(ProtocolError::InvalidUtf8)
        } else {
            Ok(Some(Message { kind, payload }))
        }
    }

    /// Takes in one frame. Returns the message that it completes, if any.
    pub fn push(&mut self, frame: Frame) -> (r: Result<Option<Message>, ProtocolError>)
        ensures
            output_matches(r, assemble_step(old(self)@, frame.opcode, frame.fin, frame.payload_data@).0),
            final(self)@ == assemble_step(old(self)@, frame.opcode, frame.fin, frame.payload_data@).1,
    {
        let Frame { opcode, fin, payload_data, .. } = frame;
        let mut payload = payload_data;
        if opcode.is_control() {
            return Ok(None);
        }
        match opcode {
            Opcode::Continuation => {
                match self.in_progress {
                    None => Err(ProtocolError::UnexpectedContinuation),
                    Some(kind) => {
                        self.buffer.append(&mut payload);
                        if fin {
                            let mut done: Vec<u8> = Vec::new();
                            std::mem::swap(&mut done, &mut self.buffer);
                            self.in_progress = None;
                            Self::finish(kind, done)
                        } else {
                            Ok(None)
                        }
                    },
                }
            },
            _ => {
                let kind = if opcode == Opcode::Text {
                    MessageKind::Text
                } else {
                    MessageKind::Binary
                };
                if self.in_progress.is_some() {
                    self.in_progress = None;
                    self.buffer = Vec::new();
                    Err(ProtocolError::InterleavedMessage)
                } else if fin {
                    Self::finish(kind, payload)
                } else {
                    self.in_progress = Some(kind);
                    self.buffer = payload;
                    Ok(None)
                }
            },
        }
    }
}

/// An executable result agrees with its model.
pub open spec fn output_matches(r: Result<Option<Message>, ProtocolError>, m: AssemblyOutput) -> bool {
    match r {
        Ok(Some(msg)) => m == Ok::<Option<(MessageKind, Seq<u8>)>, ProtocolError>(
            Some((msg.kind, msg.payload@)),
        ),
        Ok(None) => m == Ok::<Option<(MessageKind, Seq<u8>)>, ProtocolError>(None),
        Err(e) => m == Err::<Option<(MessageKind, Seq<u8>)>, ProtocolError>(e),
    }
}

/// A control frame between fragments leaves the message in progress untouched.
pub proof fn lemma_control_keeps_assembly(s: AssemblyState, op: Opcode, fin: bool, p: Seq<u8>)
    requires
        is_control_spec(op),
    ensures
        assemble_step(s, op, fin, p) == (Ok::<Option<(MessageKind, Seq<u8>)>, ProtocolError>(None), s),
{
}

} // verus!
