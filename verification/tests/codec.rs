//! Wire codec and handshake: frame round trips, the exact bytes of each
//! message, and the decode failure cases.

use peerwire::bitfield::Bitfield;
use peerwire::messages::{DecodeResult, Frame, Handshake, Message, MessageType, WireError};

fn round_trip(f: Frame) {
    let bytes = Message::encode(&f);
    match Message::decode(&bytes) {
        DecodeResult::Done(g, used) => {
            assert_eq!(g, f);
            assert_eq!(used, bytes.len());
        },
        other => panic!("expected a decoded frame, got {:?}", other),
    }
}

#[test]
fn request_message() {
    assert_eq!(
        Message::request(0, 0, 16384),
        vec![
            0x00, 0x00, 0x00, 0x0D, 0x06, 0x00, 0x00, 0x00, 0x00, 0x00, 0x00, 0x00, 0x00, 0x00,
            0x00, 0x40, 0x00
        ]
    );
}

#[test]
fn fixed_message_bytes() {
    assert_eq!(Message::keep_alive(), vec![0, 0, 0, 0]);
    assert_eq!(Message::choke(), vec![0, 0, 0, 1, 0]);
    assert_eq!(Message::unchoke(), vec![0, 0, 0, 1, 1]);
    assert_eq!(Message::interested(), vec![0, 0, 0, 1, 2]);
    assert_eq!(Message::not_interested(), vec![0, 0, 0, 1, 3]);
    assert_eq!(Message::have(0x01020304), vec![0, 0, 0, 5, 4, 1, 2, 3, 4]);
    assert_eq!(Message::port(6881), vec![0, 0, 0, 3, 9, 0x1A, 0xE1]);
    assert_eq!(
        Message::cancel(1, 2, 3),
        vec![0, 0, 0, 13, 8, 0, 0, 0, 1, 0, 0, 0, 2, 0, 0, 0, 3]
    );
    assert_eq!(
        Message::piece(7, 16, vec![0xAA, 0xBB]),
        vec![0, 0, 0, 11, 7, 0, 0, 0, 7, 0, 0, 0, 16, 0xAA, 0xBB]
    );
}

#[test]
fn message_type_ids() {
    assert_eq!(MessageType::Choke.id(), 0);
    assert_eq!(MessageType::Unchoke.id(), 1);
    assert_eq!(MessageType::Interested.id(), 2);
    assert_eq!(MessageType::NotInterested.id(), 3);
    assert_eq!(MessageType::Have.id(), 4);
    assert_eq!(MessageType::Bitfield.id(), 5);
    assert_eq!(MessageType::Request.id(), 6);
    assert_eq!(MessageType::Piece.id(), 7);
    assert_eq!(MessageType::Cancel.id(), 8);
    assert_eq!(MessageType::Port.id(), 9);
}

#[test]
fn every_variant_round_trips() {
    round_trip(Frame::KeepAlive);
    round_trip(Frame::Choke);
    round_trip(Frame::Unchoke);
    round_trip(Frame::Interested);
    round_trip(Frame::NotInterested);
    round_trip(Frame::Have { index: 0 });
    round_trip(Frame::Have { index: u32::MAX });
    round_trip(Frame::Bitfield { bits: vec![] });
    round_trip(Frame::Bitfield { bits: vec![0xF0, 0x01] });
    round_trip(Frame::Request { index: 3, offset: 0, length: u32::MAX });
    round_trip(Frame::Piece { index: 9, offset: 0, data: vec![1, 2, 3, 4, 5] });
    round_trip(Frame::Piece { index: 0, offset: 0, data: vec![] });
    round_trip(Frame::Cancel { index: 1, offset: 16384, length: 16384 });
    round_trip(Frame::Port { port: 0 });
    round_trip(Frame::Port { port: u16::MAX });
}

#[test]
fn bitfield_message_encodes_packed_bits() {
    let mut bf = Bitfield::new(10);
    bf.set(0, true);
    bf.set(9, true);
    // 10 bits pack to 2 bytes, MSB first: 0b1000_0000, 0b0100_0000.
    assert_eq!(Message::bitfield(&bf), vec![0, 0, 0, 3, 5, 0x80, 0x40]);
}

#[test]
fn decode_incomplete_and_keep_alive() {
    assert!(matches!(Message::decode(&vec![0, 0]), DecodeResult::Incomplete));
    assert!(matches!(Message::decode(&vec![0, 0, 0, 5, 4, 0]), DecodeResult::Incomplete));
    match Message::decode(&vec![0, 0, 0, 0, 9, 9]) {
        DecodeResult::Done(Frame::KeepAlive, 4) => {},
        other => panic!("expected keep-alive, got {:?}", other),
    }
}

#[test]
fn decode_rejects_unknown_id_and_bad_lengths() {
    assert!(matches!(
        Message::decode(&vec![0, 0, 0, 1, 10]),
        DecodeResult::Bad(WireError::UnknownMessageId)
    ));
    // `have` must carry exactly 4 payload bytes.
    assert!(matches!(
        Message::decode(&vec![0, 0, 0, 6, 4, 0, 0, 0, 0, 0]),
        DecodeResult::Bad(WireError::PayloadLengthMismatch)
    ));
    // `choke` must have no payload.
    assert!(matches!(
        Message::decode(&vec![0, 0, 0, 2, 0, 0]),
        DecodeResult::Bad(WireError::PayloadLengthMismatch)
    ));
    // `piece` needs at least index and offset.
    assert!(matches!(
        Message::decode(&vec![0, 0, 0, 5, 7, 0, 0, 0, 0]),
        DecodeResult::Bad(WireError::PayloadLengthMismatch)
    ));
}

#[test]
fn stream_end_mid_frame_is_truncated() {
    assert!(Message::stream_end(&vec![]).is_ok());
    assert_eq!(Message::stream_end(&vec![0, 0, 0]), Err(WireError::TruncatedFrame));
}

#[test]
fn handshake_round_trips() {
    let h = Handshake { info_hash: vec![7u8; 20], peer_id: vec![9u8; 20] };
    let bytes = Message::encode_handshake(&h);
    assert_eq!(bytes.len(), 68);
    assert_eq!(bytes[0], 19);
    assert_eq!(&bytes[1..20], b"BitTorrent protocol");
    let back = Message::decode_handshake(&bytes, &vec![7u8; 20]).unwrap();
    assert_eq!(back, h);
}

#[test]
fn handshake_rejects_bad_inputs() {
    let h = Handshake { info_hash: vec![7u8; 20], peer_id: vec![9u8; 20] };
    let good = Message::encode_handshake(&h);

    let mut wrong_len_byte = good.clone();
    wrong_len_byte[0] = 18;
    assert_eq!(
        Message::decode_handshake(&wrong_len_byte, &vec![7u8; 20]),
        Err(WireError::MalformedHandshake)
    );

    let short = vec![19u8; 10];
    assert_eq!(
        Message::decode_handshake(&short, &vec![7u8; 20]),
        Err(WireError::MalformedHandshake)
    );

    let mut wrong_name = good.clone();
    wrong_name[1] = b'X';
    assert_eq!(
        Message::decode_handshake(&wrong_name, &vec![7u8; 20]),
        Err(WireError::ProtocolMismatch)
    );

    let wrong_hash = vec![8u8; 20];
    assert_eq!(
        Message::decode_handshake(&good, &wrong_hash),
        Err(WireError::InfoHashMismatch)
    );
}

#[test]
fn bitfield_pack_round_trip() {
    let mut bf = Bitfield::new(11);
    bf.set(1, true);
    bf.set(8, true);
    bf.set(10, true);
    let packed = bf.to_bytes();
    assert_eq!(packed, vec![0b0100_0000, 0b1010_0000]);
    let back = Bitfield::from_bytes(&packed, 11);
    assert_eq!(back.len(), 11);
    for i in 0..11 {
        assert_eq!(back.get(i), bf.get(i));
    }
    assert_eq!(bf.count(), 3);
    assert!(!bf.all_set());
}
