use crypto::digest::Digest;
use crypto::sha1::Sha1;
use peerwire::coordinator::Coordinator;
use peerwire::tracker::{
    Announce, TrackerEvent, TrackerReponse, TrackerRequest, parse_compact_peers,
    percent_encode_query,
};

#[test]
fn percent_encoding_escapes_exactly_the_query_set() {
    // plain printable bytes pass through
    assert_eq!(percent_encode_query(b"abcXYZ019-._~"), b"abcXYZ019-._~".to_vec());
    // controls, space, quote, hash, angle brackets and high bytes escape,
    // upper-case hex
    assert_eq!(percent_encode_query(&[0x00]), b"%00".to_vec());
    assert_eq!(percent_encode_query(&[0x1F]), b"%1F".to_vec());
    assert_eq!(percent_encode_query(b" "), b"%20".to_vec());
    assert_eq!(percent_encode_query(b"\""), b"%22".to_vec());
    assert_eq!(percent_encode_query(b"#"), b"%23".to_vec());
    assert_eq!(percent_encode_query(b"<>"), b"%3C%3E".to_vec());
    assert_eq!(percent_encode_query(&[0x7F, 0xAB, 0xFF]), b"%7F%AB%FF".to_vec());
    assert_eq!(percent_encode_query(&[0x12, 0xAB, b'a']), b"%12%ABa".to_vec());
    assert_eq!(percent_encode_query(&[]), Vec::<u8>::new());
}

#[test]
fn announce_fields_and_first_announce() {
    let info_hash = [0x12u8; 20];
    let ann = Announce::new(5, 7, &info_hash, TrackerEvent::Completed, b"-PW0001-aabbccddeeff", 9);
    assert_eq!(ann.compact, 1);
    assert_eq!(ann.downloaded, 5);
    assert_eq!(ann.uploaded, 7);
    assert_eq!(ann.info_hash, percent_encode_query(&info_hash));
    assert!(matches!(ann.event, TrackerEvent::Completed));
    assert_eq!(ann.peer_id, b"-PW0001-aabbccddeeff".to_vec());
    assert_eq!(ann.port, 6969);
    assert_eq!(ann.left, 9);

    let data = vec![8u8; 6];
    let mut h = Sha1::new();
    let mut hash = [0u8; 20];
    h.input(&data);
    h.result(&mut hash);
    let c = Coordinator::new(vec![0x99u8; 20], vec![hash.to_vec()], 6, 6).unwrap();
    let first = c.first_announce(b"-PW0001-aabbccddeeff");
    assert_eq!(first.downloaded, 0);
    assert_eq!(first.uploaded, 0);
    assert!(matches!(first.event, TrackerEvent::Started));
    assert_eq!(first.left, 6);
    assert_eq!(first.info_hash, percent_encode_query(&[0x99u8; 20]));

    let req = TrackerRequest::Announce(first);
    assert!(matches!(req, TrackerRequest::Announce(_)));
}

#[test]
fn compact_peer_list_parses_entry_by_entry() {
    let bytes = [
        127, 0, 0, 1, 0x1A, 0xE1, // 127.0.0.1:6881
        10, 20, 30, 40, 0x00, 0x50, // 10.20.30.40:80
    ];
    let peers = parse_compact_peers(&bytes);
    assert_eq!(peers.len(), 2);
    assert_eq!(peers[0].ip, [127, 0, 0, 1]);
    assert_eq!(peers[0].port, 6881);
    assert_eq!(peers[1].ip, [10, 20, 30, 40]);
    assert_eq!(peers[1].port, 80);

    // a trailing fragment names no address and is dropped
    let with_tail = [127, 0, 0, 1, 0x1A, 0xE1, 9, 9];
    assert_eq!(parse_compact_peers(&with_tail).len(), 1);
    assert_eq!(parse_compact_peers(&[]).len(), 0);
}

#[test]
fn tracker_response_default_is_empty() {
    let r = TrackerReponse::default();
    assert_eq!(r.tracker_id, 0);
    assert_eq!(r.interval, 0);
    assert_eq!(r.seeders, 0);
    assert_eq!(r.leechers, 0);
    assert!(r.peers.is_empty());
}
