use peerwire::bitfield::Bitfield;
use peerwire::protocol::{Handshake, Message, ProtocolError, verify_handshake};

fn encode_to_vec(m: &Message) -> Vec<u8> {
    let mut buf: Vec<u8> = Vec::new();
    m.encode(&mut buf);
    buf
}

fn round_trip(m: &Message) -> (Message, usize) {
    let buf = encode_to_vec(m);
    Message::decode(&buf).expect("frame must decode")
}

#[test]
fn keep_alive_round_trip() {
    let (back, used) = round_trip(&Message::KeepAlive);
    assert_eq!(used, 4);
    assert!(matches!(back, Message::KeepAlive));
}

#[test]
fn flag_messages_round_trip() {
    let cases = [Message::Choke, Message::UnChoke, Message::Interested, Message::NotInterested];
    for (k, m) in cases.iter().enumerate() {
        let buf = encode_to_vec(m);
        assert_eq!(buf, vec![0, 0, 0, 1, k as u8]);
        let (back, used) = Message::decode(&buf).unwrap();
        assert_eq!(used, 5);
        match (m, &back) {
            (Message::Choke, Message::Choke) => {}
            (Message::UnChoke, Message::UnChoke) => {}
            (Message::Interested, Message::Interested) => {}
            (Message::NotInterested, Message::NotInterested) => {}
            _ => panic!("wrong variant back"),
        }
    }
}

#[test]
fn have_round_trip_boundaries() {
    for pi in [0u32, 1, u32::MAX] {
        let (back, used) = round_trip(&Message::Have { piece_index: pi });
        assert_eq!(used, 9);
        match back {
            Message::Have { piece_index } => assert_eq!(piece_index, pi),
            _ => panic!("wrong variant back"),
        }
    }
}

#[test]
fn request_and_cancel_round_trip() {
    let (back, used) = round_trip(&Message::request(7, 16384, 16384));
    assert_eq!(used, 17);
    match back {
        Message::Request { index, begin, length } => {
            assert_eq!((index, begin, length), (7, 16384, 16384));
        }
        _ => panic!("wrong variant back"),
    }
    let (back, _) = round_trip(&Message::cancel(1, 2, 3));
    match back {
        Message::Cancel { index, begin, length } => {
            assert_eq!((index, begin, length), (1, 2, 3));
        }
        _ => panic!("wrong variant back"),
    }
}

#[test]
fn piece_round_trip_zero_and_full_block() {
    for n in [0usize, 16384] {
        let block: Vec<u8> = (0..n).map(|i| (i % 251) as u8).collect();
        let m = Message::piece(3, 16384, block.clone());
        let (back, used) = round_trip(&m);
        assert_eq!(used, 4 + 9 + n);
        match back {
            Message::Piece { index, begin, block: b } => {
                assert_eq!(index, 3);
                assert_eq!(begin, 16384);
                assert_eq!(b, block);
            }
            _ => panic!("wrong variant back"),
        }
    }
}

#[test]
fn bitfield_round_trip() {
    let bf = Bitfield::from_bytes(&[0b10100000, 0xFF]);
    let m = Message::Bitfield(bf);
    let buf = encode_to_vec(&m);
    assert_eq!(buf, vec![0, 0, 0, 3, 5, 0b10100000, 0xFF]);
    let (back, used) = Message::decode(&buf).unwrap();
    assert_eq!(used, 7);
    match back {
        Message::Bitfield(bf2) => {
            assert_eq!(bf2.as_bytes(), &[0b10100000, 0xFF]);
            assert_eq!(bf2.num_bits(), 16);
        }
        _ => panic!("wrong variant back"),
    }
}

#[test]
fn decode_rejects_unknown_id_and_bad_lengths() {
    // id 9 does not exist
    assert_eq!(Message::decode(&[0, 0, 0, 1, 9]).err(), Some(ProtocolError::UnknownMessageId));
    // choke carries no payload
    assert_eq!(
        Message::decode(&[0, 0, 0, 2, 0, 0]).err(),
        Some(ProtocolError::WrongPayloadLength)
    );
    // have needs exactly four payload bytes
    assert_eq!(
        Message::decode(&[0, 0, 0, 3, 4, 1, 2]).err(),
        Some(ProtocolError::WrongPayloadLength)
    );
    // request needs exactly twelve
    assert_eq!(
        Message::decode(&[0, 0, 0, 2, 6, 1]).err(),
        Some(ProtocolError::WrongPayloadLength)
    );
    // piece needs at least eight
    assert_eq!(
        Message::decode(&[0, 0, 0, 5, 7, 1, 2, 3, 4]).err(),
        Some(ProtocolError::WrongPayloadLength)
    );
    // incomplete frames ask for more data
    assert_eq!(Message::decode(&[0, 0]).err(), Some(ProtocolError::NeedMoreData));
    assert_eq!(Message::decode(&[0, 0, 0, 9, 4, 1]).err(), Some(ProtocolError::NeedMoreData));
}

fn sample_handshake_bytes(first: u8, label: &[u8], info_hash: &[u8; 20], reserved: u8) -> Vec<u8> {
    let mut buf = vec![first];
    buf.extend_from_slice(label);
    buf.extend_from_slice(&[reserved; 8]);
    buf.extend_from_slice(info_hash);
    buf.extend_from_slice(&[b'p'; 20]);
    buf
}

#[test]
fn handshake_encode_and_parse() {
    let info_hash = [0xABu8; 20];
    let peer_id = [b'x'; 20];
    let m = Message::handshake(&info_hash, &peer_id);
    let buf = encode_to_vec(&m);
    assert_eq!(buf.len(), 68);
    assert_eq!(buf[0], 19);
    assert_eq!(&buf[1..20], b"BitTorrent protocol");
    assert_eq!(&buf[20..28], &[0u8; 8]);
    assert_eq!(&buf[28..48], &info_hash);
    assert_eq!(&buf[48..68], &peer_id);

    let h = Handshake::try_from(&buf).expect("well-formed handshake must parse");
    assert_eq!(h.reserved, vec![0u8; 8]);
    assert_eq!(h.info_hash, info_hash.to_vec());
    assert_eq!(h.peer_id, peer_id.to_vec());
}

#[test]
fn handshake_acceptance_and_rejections() {
    let expected = [0x11u8; 20];
    let label = b"BitTorrent protocol";

    // accepted whatever the reserved bytes hold
    for reserved in [0u8, 0xFF] {
        let good = sample_handshake_bytes(19, label, &expected, reserved);
        assert!(verify_handshake(&good, &expected).is_ok());
    }

    // first byte not 19
    let bad_first = sample_handshake_bytes(18, label, &expected, 0);
    assert_eq!(
        verify_handshake(&bad_first, &expected).err(),
        Some(ProtocolError::BadHandshakePrefix)
    );

    // label mismatched
    let bad_label = sample_handshake_bytes(19, b"bitTorrent protocol", &expected, 0);
    assert_eq!(
        verify_handshake(&bad_label, &expected).err(),
        Some(ProtocolError::BadHandshakeLabel)
    );

    // content identifier mismatched
    let other = [0x22u8; 20];
    let bad_hash = sample_handshake_bytes(19, label, &other, 0);
    assert_eq!(
        verify_handshake(&bad_hash, &expected).err(),
        Some(ProtocolError::InfoHashMismatch)
    );

    // too short
    assert_eq!(
        verify_handshake(&[19u8; 10], &expected).err(),
        Some(ProtocolError::NeedMoreData)
    );
}
