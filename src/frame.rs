use vstd::prelude::*;

verus! {

/// The frame opcodes that RFC 6455 defines; every other value is invalid.
#[derive(Clone, Copy, Debug, PartialEq, Eq, Structural)]
pub enum Opcode {
    Continuation,
    Text,
    Binary,
    Close,
    Ping,
    Pong,
}

/// The 4-bit wire value of an opcode.
pub open spec fn opcode_value(op: Opcode) -> u8 {
    match op {
        Opcode::Continuation => 0x0,
        Opcode::Text => 0x1,
        Opcode::Binary => 0x2,
        Opcode::Close => 0x8,
        Opcode::Ping => 0x9,
        Opcode::Pong => 0xA,
    }
}

/// The opcode whose wire value is `v`, if any.
pub open spec fn opcode_of(v: u8) -> Option<Opcode> {
    if v == 0x0 {
        Some(Opcode::Continuation)
    } else if v == 0x1 {
        Some(Opcode::Text)
    } else if v == 0x2 {
        Some(Opcode::Binary)
    } else if v == 0x8 {
        Some(Opcode::Close)
    } else if v == 0x9 {
        Some(Opcode::Ping)
    } else if v == 0xA {
        Some(Opcode::Pong)
    } else {
        None
    }
}

pub open spec fn is_control_spec(op: Opcode) -> bool {
    op == Opcode::Close || op == Opcode::Ping || op == Opcode::Pong
}

impl Opcode {
    pub fn value(self) -> (r: u8)
        ensures
            r == opcode_value(self),
            r < 16,
    {
        match self {
            Opcode::Continuation => 0x0,
            Opcode::Text => 0x1,
            Opcode::Binary => 0x2,
            Opcode::Close => 0x8,
            Opcode::Ping => 0x9,
            Opcode::Pong => 0xA,
        }
    }

    pub fn from_value(v: u8) -> (r: Option<Opcode>)
        ensures
            r == opcode_of(v),
    {
        if v == 0x0 {
            Some(Opcode::Continuation)
        } else if v == 0x1 {
            Some(Opcode::Text)
        } else if v == 0x2 {
            Some(Opcode::Binary)
        } else if v == 0x8 {
            Some(Opcode::Close)
        } else if v == 0x9 {
            Some(Opcode::Ping)
        } else if v == 0xA {
            Some(Opcode::Pong)
        } else {
            None
        }
    }

    /// Close, Ping and Pong are control opcodes.
    pub fn is_control(self) -> (r: bool)
        ensures
            r == is_control_spec(self),
    {
        match self {
            Opcode::Close | Opcode::Ping | Opcode::Pong => true,
            _ => false,
        }
    }
}

/// `data` XORed byte by byte with `key`, the key cycling every four bytes.
pub open spec fn masked(data: Seq<u8>, key: Seq<u8>) -> Seq<u8> {
    Seq::new(data.len(), |i: int| data[i] ^ key[i % 4])
}

/// Masks (or, applied again with the same key, unmasks) `data` in place.
pub fn apply_mask(data: &mut Vec<u8>, key: [u8; 4])
    ensures
        final(data)@ == masked(old(data)@, key@),
{
    let n = data.len();
    let mut i: usize = 0;
    while i < n
        invariant
            n == old(data)@.len(),
            data@.len() == n,
            0 <= i <= n,
            forall|j: int| 0 <= j < i ==> data@[j] == old(data)@[j] ^ key@[j % 4],
            forall|j: int| i <= j < n ==> data@[j] == old(data)@[j],
        decreases n - i,
    {
        let b = data[i] ^ key[i % 4];
        data.set(i, b);
        i = i + 1;
    }
    assert(data@ =~= masked(old(data)@, key@));
}

/// Masking twice with the same key gives back the unmasked bytes.
pub proof fn lemma_mask_involution(data: Seq<u8>, key: Seq<u8>)
    requires
        key.len() == 4,
    ensures
        masked(masked(data, key), key) == data,
{
    assert forall|i: int| 0 <= i < data.len() implies #[trigger] masked(masked(data, key), key)[i]
        == data[i] by {
        let a = data[i];
        let k = key[i % 4];
        assert((a ^ k) ^ k == a) by (bit_vector);
    }
    assert(masked(masked(data, key), key) =~= data);
}


/// One WebSocket wire unit. `payload_data` holds the payload unmasked.
#[derive(Debug)]
pub struct Frame {
    pub fin: bool,
    pub rsv1: bool,
    pub rsv2: bool,
    pub rsv3: bool,
    pub opcode: Opcode,
    pub mask: bool,
    pub payload_length: u64,
    pub masking_key: Option<[u8; 4]>,
    pub payload_data: Vec<u8>,
}

/// The mathematical model of a frame: the key and the payload as sequences.
pub struct FrameView {
    pub fin: bool,
    pub rsv1: bool,
    pub rsv2: bool,
    pub rsv3: bool,
    pub opcode: Opcode,
    pub mask: bool,
    pub payload_length: u64,
    pub masking_key: Option<Seq<u8>>,
    pub payload: Seq<u8>,
}

impl View for Frame {
    type V = FrameView;

    open spec fn view(&self) -> FrameView {
        FrameView {
            fin: self.fin,
            rsv1: self.rsv1,
            rsv2: self.rsv2,
            rsv3: self.rsv3,
            opcode: self.opcode,
            mask: self.mask,
            payload_length: self.payload_length,
            masking_key: match self.masking_key {
                Some(k) => Some(k@),
                None => None,
            },
            payload: self.payload_data@,
        }
    }
}

/// Why a byte sequence is not a well-formed frame.
#[derive(Clone, Copy, Debug, PartialEq, Eq, Structural)]
pub enum FrameError {
    /// Fewer bytes than the frame needs; `needed` is the total known so far.
    Truncated { needed: u64 },
    /// One of the RSV bits is set; the value holds the bits as they stood.
    ReservedBits(u8),
    /// The opcode is outside the defined set.
    InvalidOpcode(u8),
    /// A control frame with `fin` clear.
    FragmentedControl,
    /// A control frame whose payload is longer than 125 bytes.
    ControlTooLong(u64),
    /// A 64-bit length with its most significant bit set.
    ReservedLength(u64),
}

/// The largest payload length a frame may declare, 2^63 - 1.
pub const MAX_PAYLOAD_LENGTH: u64 = 0x7FFF_FFFF_FFFF_FFFF;

/// A frame that the codec can carry both ways: no reserved bits, a payload of the
/// declared length, a key exactly when masked, and control frames final and short.
pub open spec fn frame_wf(v: FrameView) -> bool {
    &&& !v.rsv1 && !v.rsv2 && !v.rsv3
    &&& v.payload.len() == v.payload_length
    &&& v.payload_length <= MAX_PAYLOAD_LENGTH
    &&& v.mask == v.masking_key.is_some()
    &&& (v.masking_key matches Some(k) ==> k.len() == 4)
    &&& is_control_spec(v.opcode) ==> v.fin && v.payload_length <= 125
}

pub open spec fn bit(b: bool, m: u8) -> u8 {
    if b {
        m
    } else {
        0
    }
}

/// FIN, RSV1..3 and the opcode.
pub open spec fn first_byte(v: FrameView) -> u8 {
    bit(v.fin, 0x80) | bit(v.rsv1, 0x40) | bit(v.rsv2, 0x20) | bit(v.rsv3, 0x10) | opcode_value(
        v.opcode,
    )
}

/// The 7-bit length class: the length itself below 126, else 126 or 127.
pub open spec fn length_class(len: u64) -> u8 {
    if len < 126 {
        len as u8
    } else if len <= 0xFFFF {
        126
    } else {
        127
    }
}

/// MASK and the length class.
pub open spec fn second_byte(v: FrameView) -> u8 {
    bit(v.mask, 0x80) | length_class(v.payload_length)
}

pub open spec fn be16_bytes(x: u64) -> Seq<u8> {
    seq![(x >> 8) as u8, x as u8]
}

pub open spec fn be64_bytes(x: u64) -> Seq<u8> {
    seq![
        (x >> 56) as u8,
        (x >> 48) as u8,
        (x >> 40) as u8,
        (x >> 32) as u8,
        (x >> 24) as u8,
        (x >> 16) as u8,
        (x >> 8) as u8,
        x as u8,
    ]
}

/// The extended length that follows the second byte, if any.
pub open spec fn extended_length(len: u64) -> Seq<u8> {
    if len < 126 {
        seq![]
    } else if len <= 0xFFFF {
        be16_bytes(len)
    } else {
        be64_bytes(len)
    }
}

pub open spec fn key_bytes(k: Option<Seq<u8>>) -> Seq<u8> {
    match k {
        Some(k) => k,
        None => seq![],
    }
}

/// The payload as it travels: masked with the key when there is one.
pub open spec fn wire_payload(v: FrameView) -> Seq<u8> {
    match v.masking_key {
        Some(k) => masked(v.payload, k),
        None => v.payload,
    }
}

/// The bytes of a frame on the wire.
pub open spec fn encoding(v: FrameView) -> Seq<u8> {
    seq![first_byte(v), second_byte(v)] + extended_length(v.payload_length) + key_bytes(
        v.masking_key,
    ) + wire_payload(v)
}

pub open spec fn mask_bit(b1: u8) -> bool {
    b1 & 0x80 != 0
}

/// How many extended-length bytes follow a second byte `b1`.
pub open spec fn ext_size(b1: u8) -> nat {
    if b1 & 0x7F == 126 {
        2
    } else if b1 & 0x7F == 127 {
        8
    } else {
        0
    }
}

/// The size of the whole header announced by the second byte `b1`.
pub open spec fn header_size(b1: u8) -> nat {
    2 + ext_size(b1) + if mask_bit(b1) {
        4nat
    } else {
        0nat
    }
}

pub open spec fn be16_value(b: Seq<u8>, at: int) -> u64 {
    ((b[at] as u64) << 8) | (b[at + 1] as u64)
}

pub open spec fn be64_value(b: Seq<u8>, at: int) -> u64 {
    ((b[at] as u64) << 56) | ((b[at + 1] as u64) << 48) | ((b[at + 2] as u64) << 40) | ((b[at
        + 3] as u64) << 32) | ((b[at + 4] as u64) << 24) | ((b[at + 5] as u64) << 16) | ((b[at
        + 6] as u64) << 8) | (b[at + 7] as u64)
}

/// The payload length that the header at the start of `b` declares.
pub open spec fn declared_length(b: Seq<u8>) -> u64 {
    if b[1] & 0x7F == 126 {
        be16_value(b, 2)
    } else if b[1] & 0x7F == 127 {
        be64_value(b, 2)
    } else {
        (b[1] & 0x7F) as u64
    }
}

pub open spec fn declared_key(b: Seq<u8>) -> Option<Seq<u8>> {
    if mask_bit(b[1]) {
        let at = 2 + ext_size(b[1]);
        Some(b.subrange(at as int, at + 4int))
    } else {
        None
    }
}

/// What decoding the frame at the start of `b` gives: the frame and the number of
/// bytes it took, or the first error met reading the header in wire order.
pub open spec fn decode_spec(b: Seq<u8>) -> Result<(FrameView, nat), FrameError> {
    if b.len() < 2 {
        Err(FrameError::Truncated { needed: 2 })
    } else if b[0] & 0x70 != 0 {
        Err(FrameError::ReservedBits(b[0] & 0x70))
    } else {
        match opcode_of(b[0] & 0x0F) {
            None => Err(FrameError::InvalidOpcode(b[0] & 0x0F)),
            Some(op) => {
                let fin = b[0] & 0x80 != 0;
                let hs = header_size(b[1]);
                if is_control_spec(op) && !fin {
                    Err(FrameError::FragmentedControl)
                } else if b.len() < hs {
                    Err(FrameError::Truncated { needed: hs as u64 })
                } else {
                    let len = declared_length(b);
                    if len > MAX_PAYLOAD_LENGTH {
                        Err(FrameError::ReservedLength(len))
                    } else if is_control_spec(op) && len > 125 {
                        Err(FrameError::ControlTooLong(len))
                    } else if b.len() < hs + len {
                        Err(FrameError::Truncated { needed: (hs + len) as u64 })
                    } else {
                        let key = declared_key(b);
                        let body = b.subrange(hs as int, hs + len);
                        Ok(
                            (
                                FrameView {
                                    fin,
                                    rsv1: false,
                                    rsv2: false,
                                    rsv3: false,
                                    opcode: op,
                                    mask: mask_bit(b[1]),
                                    payload_length: len,
                                    masking_key: key,
                                    payload: match key {
                                        Some(k) => masked(body, k),
                                        None => body,
                                    },
                                },
                                (hs + len) as nat,
                            ),
                        )
                    }
                }
            }
        }
    }
}


proof fn lemma_first_byte_bits(fin: bool, r1: bool, r2: bool, r3: bool, op: u8)
    requires
        op < 16,
    ensures
        ({
            let b = bit(fin, 0x80) | bit(r1, 0x40) | bit(r2, 0x20) | bit(r3, 0x10) | op;
            &&& (b & 0x80 != 0) == fin
            &&& b & 0x70 == bit(r1, 0x40) | bit(r2, 0x20) | bit(r3, 0x10)
            &&& b & 0x0F == op
        }),
{
    assert(({
        let b = bit(fin, 0x80) | bit(r1, 0x40) | bit(r2, 0x20) | bit(r3, 0x10) | op;
        &&& (b & 0x80 != 0) == fin
        &&& b & 0x70 == bit(r1, 0x40) | bit(r2, 0x20) | bit(r3, 0x10)
        &&& b & 0x0F == op
    })) by (bit_vector)
        requires
            op < 16,
    ;
}

proof fn lemma_second_byte_bits(m: bool, c: u8)
    requires
        c < 128,
    ensures
        ({
            let b = bit(m, 0x80) | c;
            &&& (b & 0x80 != 0) == m
            &&& b & 0x7F == c
        }),
{
    assert(({
        let b = bit(m, 0x80) | c;
        &&& (b & 0x80 != 0) == m
        &&& b & 0x7F == c
    })) by (bit_vector)
        requires
            c < 128,
    ;
}

proof fn lemma_be16(x: u64)
    requires
        x <= 0xFFFF,
    ensures
        ((((x >> 8) as u8) as u64) << 8) | ((x as u8) as u64) == x,
{
    assert(((((x >> 8) as u8) as u64) << 8) | ((x as u8) as u64) == x) by (bit_vector)
        requires
            x <= 0xFFFF,
    ;
}

proof fn lemma_be64(x: u64)
    ensures
        ((((x >> 56) as u8) as u64) << 56) | ((((x >> 48) as u8) as u64) << 48) | ((((x
            >> 40) as u8) as u64) << 40) | ((((x >> 32) as u8) as u64) << 32) | ((((x >> 24) as u8)
            as u64) << 24) | ((((x >> 16) as u8) as u64) << 16) | ((((x >> 8) as u8) as u64) << 8)
            | ((x as u8) as u64) == x,
{
    assert(((((x >> 56) as u8) as u64) << 56) | ((((x >> 48) as u8) as u64) << 48) | ((((x
        >> 40) as u8) as u64) << 40) | ((((x >> 32) as u8) as u64) << 32) | ((((x >> 24) as u8)
        as u64) << 24) | ((((x >> 16) as u8) as u64) << 16) | ((((x >> 8) as u8) as u64) << 8)
        | ((x as u8) as u64) == x) by (bit_vector);
}

/// Decoding the encoding of a well-formed frame gives that frame back, whatever
/// bytes follow it, and consumes exactly its encoding.
pub proof fn lemma_round_trip(v: FrameView, rest: Seq<u8>)
    requires
        frame_wf(v),
    ensures
        decode_spec(encoding(v) + rest) == Ok::<(FrameView, nat), FrameError>(
            (v, encoding(v).len()),
        ),
{
    let e = encoding(v);
    let b = e + rest;
    let len = v.payload_length;
    let ext = extended_length(len);
    let kb = key_bytes(v.masking_key);
    let wp = wire_payload(v);
    assert(opcode_value(v.opcode) < 16);
    lemma_first_byte_bits(v.fin, v.rsv1, v.rsv2, v.rsv3, opcode_value(v.opcode));
    assert(length_class(len) < 128);
    lemma_second_byte_bits(v.mask, length_class(len));
    assert(b[0] == first_byte(v));
    assert(b[1] == second_byte(v));
    assert(bit(false, 0x40) | bit(false, 0x20) | bit(false, 0x10) == 0) by (bit_vector);
    assert(opcode_of(opcode_value(v.opcode)) == Some(v.opcode));
    let hs = header_size(b[1]);
    assert(hs == 2 + ext.len() + kb.len());
    assert(e.len() == hs + len);
    if len >= 126 && len <= 0xFFFF {
        lemma_be16(len);
        assert(b[2] == ext[0] && b[3] == ext[1]);
    } else if len > 0xFFFF {
        lemma_be64(len);
        assert(b[2] == ext[0] && b[3] == ext[1] && b[4] == ext[2] && b[5] == ext[3]);
        assert(b[6] == ext[4] && b[7] == ext[5] && b[8] == ext[6] && b[9] == ext[7]);
    } else {
        assert((len as u8) as u64 == len);
    }
    assert(declared_length(b) == len);
    let at = 2 + ext.len();
    assert(b.subrange(at as int, at + kb.len() as int) =~= kb);
    assert(declared_key(b) == v.masking_key);
    assert(b.subrange(hs as int, hs + len) =~= wp);
    match v.masking_key {
        Some(k) => {
            lemma_mask_involution(v.payload, k);
        },
        None => {},
    }
}

/// Encoding picks the shortest length form: a payload of at most 125 bytes never
/// uses the 16-bit form, and one of at most 65535 bytes never the 64-bit form.
pub proof fn lemma_minimal_length(v: FrameView)
    ensures
        v.payload_length <= 125 ==> encoding(v)[1] & 0x7F == v.payload_length
            && encoding(v).len() == 2 + key_bytes(v.masking_key).len() + wire_payload(v).len(),
        v.payload_length <= 0xFFFF ==> encoding(v)[1] & 0x7F != 127,
{
    lemma_second_byte_bits(v.mask, length_class(v.payload_length));
    assert(encoding(v)[1] == second_byte(v));
}


/// Appends `data[from..to]` to `out`, masked with `key` when there is one (the key
/// position counts from `from`).
fn push_payload(out: &mut Vec<u8>, data: &[u8], from: usize, to: usize, key: Option<[u8; 4]>)
    requires
        from <= to <= data@.len(),
    ensures
        final(out)@ == old(out)@ + match key {
            Some(k) => masked(data@.subrange(from as int, to as int), k@),
            None => data@.subrange(from as int, to as int),
        },
{
    let ghost body = data@.subrange(from as int, to as int);
    let ghost want = match key {
        Some(k) => masked(body, k@),
        None => body,
    };
    let mut i: usize = from;
    while i < to
        invariant
            from <= i <= to <= data@.len(),
            body == data@.subrange(from as int, to as int),
            want == match key {
                Some(k) => masked(body, k@),
                None => body,
            },
            want.len() == to - from,
            out@ == old(out)@ + want.subrange(0, i - from),
        decreases to - i,
    {
        let b = match key {
            Some(k) => {
                let x = data[i] ^ k[(i - from) % 4];
                assert(body[i - from] == data@[i as int]);
                assert(x == masked(body, k@)[i - from]);
                x
            },
            None => data[i],
        };
        assert(b == want[i - from]);
        out.push(b);
        i = i + 1;
        assert(want.subrange(0, i - from) =~= want.subrange(0, i - 1 - from).push(b));
    }
    assert(want.subrange(0, to - from) =~= want);
}

fn bit_of(b: bool, m: u8) -> (r: u8)
    ensures
        r == bit(b, m),
{
    if b {
        m
    } else {
        0
    }
}

impl Frame {
    /// The first two bytes and the extended length.
    fn header_bytes(&self) -> (r: Vec<u8>)
        ensures
            r@ == seq![first_byte(self@), second_byte(self@)] + extended_length(self.payload_length),
    {
        let mut bytes: Vec<u8> = Vec::new();
        let byte0 = bit_of(self.fin, 0x80) | bit_of(self.rsv1, 0x40) | bit_of(self.rsv2, 0x20)
            | bit_of(self.rsv3, 0x10) | self.opcode.value();
        bytes.push(byte0);
        let len = self.payload_length;
        let class: u8 = if len < 126 {
            len as u8
        } else if len <= 0xFFFF {
            126
        } else {
            127
        };
        bytes.push(bit_of(self.mask, 0x80) | class);
        if len >= 126 && len <= 0xFFFF {
            bytes.push((len >> 8) as u8);
            bytes.push(len as u8);
        } else if len > 0xFFFF {
            bytes.push((len >> 56) as u8);
            bytes.push((len >> 48) as u8);
            bytes.push((len >> 40) as u8);
            bytes.push((len >> 32) as u8);
            bytes.push((len >> 24) as u8);
            bytes.push((len >> 16) as u8);
            bytes.push((len >> 8) as u8);
            bytes.push(len as u8);
        }
        assert(bytes@ =~= seq![first_byte(self@), second_byte(self@)] + extended_length(len));
        bytes
    }

    /// The frame's bytes on the wire, with the shortest length form and the
    /// payload masked when a key is present.
    pub fn to_bytes(&self) -> (r: Vec<u8>)
        ensures
            r@ == encoding(self@),
    {
        let mut bytes = self.header_bytes();
        let ghost head = bytes@;
        if let Some(k) = self.masking_key {
            bytes.push(k[0]);
            bytes.push(k[1]);
            bytes.push(k[2]);
            bytes.push(k[3]);
            assert(bytes@ =~= head + k@);
        }
        push_payload(&mut bytes, self.payload_data.as_slice(), 0, self.payload_data.len(), self.masking_key);
        proof {
            assert(self.payload_data@.subrange(0, self.payload_data@.len() as int) =~= self.payload_data@);
            match self.masking_key {
                Some(k) => {
                    assert(wire_payload(self@) == masked(self.payload_data@, k@));
                },
                None => {},
            }
        }
        bytes
    }

    /// Decodes the frame at the start of `bytes`, unmasking its payload; on success
    /// also gives how many bytes the frame took. Never looks past the frame.
    pub fn from_bytes(bytes: &[u8]) -> (r: Result<(Frame, usize), FrameError>)
        ensures
            match r {
                Ok((f, n)) => decode_spec(bytes@) == Ok::<(FrameView, nat), FrameError>(
                    (f@, n as nat),
                ),
                Err(e) => decode_spec(bytes@) == Err::<(FrameView, nat), FrameError>(e),
            },
    {
        let b = bytes;
        if b.len() < 2 {
            return Err(FrameError::Truncated { needed: 2 });
        }
        let b0 = b[0];
        let b1 = b[1];
        if b0 & 0x70 != 0 {
            return Err(FrameError::ReservedBits(b0 & 0x70));
        }
        let opcode = match Opcode::from_value(b0 & 0x0F) {
            Some(op) => op,
            None => return Err(FrameError::InvalidOpcode(b0 & 0x0F)),
        };
        let fin = b0 & 0x80 != 0;
        let mask = b1 & 0x80 != 0;
        let class = b1 & 0x7F;
        let ext: usize = if class == 126 {
            2
        } else if class == 127 {
            8
        } else {
            0
        };
        let hs: usize = 2 + ext + if mask {
            4usize
        } else {
            0usize
        };
        if opcode.is_control() && !fin {
            return Err(FrameError::FragmentedControl);
        }
        if b.len() < hs {
            return Err(FrameError::Truncated { needed: hs as u64 });
        }
        let len: u64 = if class == 126 {
            ((b[2] as u64) << 8) | (b[3] as u64)
        } else if class == 127 {
            ((b[2] as u64) << 56) | ((b[3] as u64) << 48) | ((b[4] as u64) << 40) | ((b[5] as u64)
                << 32) | ((b[6] as u64) << 24) | ((b[7] as u64) << 16) | ((b[8] as u64) << 8) | (
            b[9] as u64)
        } else {
            class as u64
        };
        assert(len == declared_length(b@));
        if len > MAX_PAYLOAD_LENGTH {
            return Err(FrameError::ReservedLength(len));
        }
        if opcode.is_control() && len > 125 {
            return Err(FrameError::ControlTooLong(len));
        }
        if ((b.len() - hs) as u64) < len {
            return Err(FrameError::Truncated { needed: hs as u64 + len });
        }
        let end = hs + len as usize;
        let masking_key = if mask {
            let at = 2 + ext;
            let k = [b[at], b[at + 1], b[at + 2], b[at + 3]];
            assert(k@ =~= b@.subrange(at as int, at + 4));
            Some(k)
        } else {
            None
        };
        let mut payload_data: Vec<u8> = Vec::new();
        push_payload(&mut payload_data, b, hs, end, masking_key);
        let frame = Frame {
            fin,
            rsv1: false,
            rsv2: false,
            rsv3: false,
            opcode,
            mask,
            payload_length: len,
            masking_key,
            payload_data,
        };
        Ok((frame, end))
    }
}

} // verus!
