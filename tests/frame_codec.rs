use wsclient::frame::apply_mask;
use wsclient::{Frame, FrameError, Opcode};

fn frame(opcode: Opcode, fin: bool, payload: Vec<u8>, key: Option<[u8; 4]>) -> Frame {
    Frame {
        fin,
        rsv1: false,
        rsv2: false,
        rsv3: false,
        opcode,
        mask: key.is_some(),
        payload_length: payload.len() as u64,
        masking_key: key,
        payload_data: payload,
    }
}

fn round_trip(len: usize, key: Option<[u8; 4]>) {
    let payload: Vec<u8> = (0..len).map(|i| (i * 7 % 251) as u8).collect();
    let f = frame(Opcode::Binary, true, payload.clone(), key);
    let mut bytes = f.to_bytes();
    bytes.extend_from_slice(&[0xAA, 0xBB]);
    let (g, used) = Frame::from_bytes(&bytes).unwrap();
    assert_eq!(used, bytes.len() - 2);
    assert!(g.fin);
    assert!(!g.rsv1 && !g.rsv2 && !g.rsv3);
    assert_eq!(g.opcode, Opcode::Binary);
    assert_eq!(g.mask, key.is_some());
    assert_eq!(g.payload_length, len as u64);
    assert_eq!(g.masking_key, key);
    assert_eq!(g.payload_data, payload);
}

#[test]
fn round_trip_all_length_classes() {
    for len in [0usize, 1, 125, 126, 65535, 65536] {
        round_trip(len, Some([0x12, 0x34, 0x56, 0x78]));
        round_trip(len, None);
    }
}

#[test]
fn round_trip_keeps_fragment_flag_and_opcode() {
    let f = frame(Opcode::Text, false, b"Hel".to_vec(), Some([1, 2, 3, 4]));
    let (g, _) = Frame::from_bytes(&f.to_bytes()).unwrap();
    assert!(!g.fin);
    assert_eq!(g.opcode, Opcode::Text);
    assert_eq!(g.payload_data, b"Hel".to_vec());
}

#[test]
fn four_gib_length_uses_the_64_bit_form() {
    let f = Frame {
        fin: true,
        rsv1: false,
        rsv2: false,
        rsv3: false,
        opcode: Opcode::Binary,
        mask: false,
        payload_length: 1u64 << 32,
        masking_key: None,
        payload_data: Vec::new(),
    };
    let bytes = f.to_bytes();
    assert_eq!(bytes, vec![0x82, 127, 0, 0, 0, 1, 0, 0, 0, 0]);
    assert_eq!(
        Frame::from_bytes(&bytes).unwrap_err(),
        FrameError::Truncated { needed: 10 + (1u64 << 32) }
    );
}

#[test]
fn masking_twice_restores_the_payload() {
    let plain = b"arbitrary payload bytes \x00\xff".to_vec();
    let key = [0xde, 0xad, 0xbe, 0xef];
    let mut data = plain.clone();
    apply_mask(&mut data, key);
    assert_ne!(data, plain);
    assert_eq!(data[0], b'a' ^ 0xde);
    assert_eq!(data[4], b't' ^ 0xde);
    apply_mask(&mut data, key);
    assert_eq!(data, plain);
}

#[test]
fn masked_encoding_xors_the_payload() {
    let f = frame(Opcode::Text, true, b"Hi".to_vec(), Some([0x01, 0x02, 0x03, 0x04]));
    assert_eq!(f.to_bytes(), vec![0x81, 0x82, 1, 2, 3, 4, b'H' ^ 1, b'i' ^ 2]);
}

#[test]
fn minimal_length_encoding() {
    let b125 = frame(Opcode::Binary, true, vec![0; 125], None).to_bytes();
    assert_eq!(b125[1], 125);
    assert_eq!(b125.len(), 2 + 125);
    let b126 = frame(Opcode::Binary, true, vec![0; 126], None).to_bytes();
    assert_eq!(&b126[1..4], &[126, 0, 126]);
    let b65535 = frame(Opcode::Binary, true, vec![0; 65535], None).to_bytes();
    assert_eq!(&b65535[1..4], &[126, 0xff, 0xff]);
    assert_eq!(b65535.len(), 4 + 65535);
    let b65536 = frame(Opcode::Binary, true, vec![0; 65536], None).to_bytes();
    assert_eq!(&b65536[1..10], &[127, 0, 0, 0, 0, 0, 1, 0, 0]);
}

#[test]
fn rsv1_is_rejected() {
    assert_eq!(Frame::from_bytes(&[0xC1, 0x00]).unwrap_err(), FrameError::ReservedBits(0x40));
}

#[test]
fn long_close_frame_is_rejected() {
    let mut bytes = vec![0x88, 126, 0, 200];
    bytes.extend(vec![0u8; 200]);
    assert_eq!(Frame::from_bytes(&bytes).unwrap_err(), FrameError::ControlTooLong(200));
}

#[test]
fn unknown_opcode_is_rejected() {
    assert_eq!(Frame::from_bytes(&[0x83, 0x00]).unwrap_err(), FrameError::InvalidOpcode(3));
}

#[test]
fn fragmented_control_frame_is_rejected() {
    assert_eq!(Frame::from_bytes(&[0x09, 0x00]).unwrap_err(), FrameError::FragmentedControl);
}

#[test]
fn length_with_high_bit_is_rejected() {
    let bytes = [0x82, 127, 0x80, 0, 0, 0, 0, 0, 0, 1];
    assert_eq!(
        Frame::from_bytes(&bytes).unwrap_err(),
        FrameError::ReservedLength(0x8000_0000_0000_0001)
    );
}

#[test]
fn truncated_input_reports_what_is_needed() {
    assert_eq!(Frame::from_bytes(&[0x81]).unwrap_err(), FrameError::Truncated { needed: 2 });
    assert_eq!(Frame::from_bytes(&[0x81, 0xFE, 0]).unwrap_err(), FrameError::Truncated { needed: 8 });
    assert_eq!(Frame::from_bytes(&[0x81, 5, b'a']).unwrap_err(), FrameError::Truncated { needed: 7 });
}

#[test]
fn decode_unmasks_payload() {
    let bytes = [0x81, 0x85, 0x37, 0xfa, 0x21, 0x3d, 0x7f, 0x9f, 0x4d, 0x51, 0x58];
    let (f, n) = Frame::from_bytes(&bytes).unwrap();
    assert_eq!(n, 11);
    assert_eq!(f.payload_data, b"Hello".to_vec());
    assert_eq!(f.masking_key, Some([0x37, 0xfa, 0x21, 0x3d]));
}

#[test]
fn opcode_values() {
    assert_eq!(Opcode::from_value(0xA), Some(Opcode::Pong));
    assert_eq!(Opcode::from_value(0xB), None);
    assert_eq!(Opcode::Close.value(), 8);
    assert!(Opcode::Ping.is_control());
    assert!(!Opcode::Continuation.is_control());
}
