use crypto::digest::Digest;
use crypto::sha1::Sha1;
use peerwire::bitfield::Bitfield;
use peerwire::coordinator::{
    BlockOutcome, Coordinator, DownloadStatus, FAILURE_THRESHOLD, MetadataError, PieceState,
    VerifyOutcome, count_holders, holder_counts, note_hash_failures, should_blacklist,
};
use peerwire::peer::{ConnState, Peer};
use peerwire::torrent::{Info, split_piece_hashes};

fn sha1_bytes(data: &[u8]) -> Vec<u8> {
    let mut h = Sha1::new();
    let mut out = [0u8; 20];
    h.input(data);
    h.result(&mut out);
    out.to_vec()
}

fn coordinator_for(pieces_data: &[Vec<u8>], piece_len: u32) -> Coordinator {
    let total: u32 = pieces_data.iter().map(|p| p.len() as u32).sum();
    let hashes: Vec<Vec<u8>> = pieces_data.iter().map(|p| sha1_bytes(p)).collect();
    Coordinator::new(vec![0x42u8; 20], hashes, piece_len, total).expect("metadata is consistent")
}

#[test]
fn metadata_rejections() {
    assert_eq!(
        Coordinator::new(vec![0u8; 20], vec![], 0, 10).err(),
        Some(MetadataError::ZeroPieceLength)
    );
    assert_eq!(
        Coordinator::new(vec![0u8; 19], vec![], 4, 10).err(),
        Some(MetadataError::BadInfoHashLength)
    );
    // 10 bytes in pieces of 4 need 3 hashes, not 2
    assert_eq!(
        Coordinator::new(vec![0u8; 20], vec![vec![0u8; 20]; 2], 4, 10).err(),
        Some(MetadataError::HashCountMismatch)
    );
    assert_eq!(
        Coordinator::new(vec![0u8; 20], vec![vec![0u8; 19]; 3], 4, 10).err(),
        Some(MetadataError::BadHashLength)
    );
    assert!(Coordinator::new(vec![0u8; 20], vec![vec![0u8; 20]; 3], 4, 10).is_ok());
}

#[test]
fn info_to_coordinator_and_hash_split() {
    let piece = vec![7u8; 5];
    let info = Info {
        announce: "http://tracker.example/announce".to_string(),
        info_hash: vec![9u8; 20],
        piece_len: 5,
        pieces: sha1_bytes(&piece),
        total_length: 5,
        name: "sample".to_string(),
    };
    let c = info.coordinator().expect("consistent metadata");
    assert_eq!(c.hashes.len(), 1);
    assert_eq!(c.hashes[0], sha1_bytes(&piece));

    // a table that is no whole number of 20-byte entries is rejected
    assert_eq!(split_piece_hashes(&[0u8; 30]).err(), Some(MetadataError::BadHashLength));
    let two = split_piece_hashes(&[5u8; 40]).unwrap();
    assert_eq!(two.len(), 2);
    assert_eq!(two[0], vec![5u8; 20]);
}

#[test]
fn hash_match_verifies_once_and_mismatch_rolls_back() {
    let data = vec![3u8; 40];
    let mut c = coordinator_for(&[data.clone()], 40);

    let blk = c.assign_next_block(0).expect("one block to fetch");
    assert_eq!((blk.index, blk.begin, blk.length), (0, 0, 40));
    assert!(c.assign_next_block(0).is_none(), "a block in flight is not handed out twice");

    assert_eq!(c.on_block(0, 0, 0, &data), BlockOutcome::Completed);
    let (verdict, contributors) = c.verify_piece(0);
    assert_eq!(verdict, VerifyOutcome::Verified);
    assert_eq!(contributors, vec![0usize]);
    assert!(matches!(c.pieces[0].state, PieceState::Verified));
    assert!(c.is_complete());

    // corrupted payload: same sizes, wrong bytes
    let mut c2 = coordinator_for(&[data.clone()], 40);
    let mut bad = data.clone();
    bad[17] ^= 0xFF;
    assert_eq!(c2.on_block(5, 0, 0, &bad), BlockOutcome::Completed);
    let (verdict2, contributors2) = c2.verify_piece(0);
    assert_eq!(verdict2, VerifyOutcome::HashMismatch);
    assert_eq!(contributors2, vec![5usize]);
    assert!(matches!(c2.pieces[0].state, PieceState::Missing));
    assert!(!c2.is_complete());
    assert!(c2.pieces[0].buf.iter().all(|b| *b == 0), "buffered bytes are discarded");
    // the piece can be fetched again from scratch
    let again = c2.assign_next_block(0).expect("rolled back piece is requestable");
    assert_eq!(again.begin, 0);
}

#[test]
fn invalid_deliveries_are_rejected() {
    let data = vec![1u8; 40];
    let mut c = coordinator_for(&[data.clone()], 40);
    // unknown piece
    assert_eq!(c.on_block(0, 9, 0, &data), BlockOutcome::Invalid);
    // begin not on a block boundary
    assert_eq!(c.on_block(0, 0, 1, &data), BlockOutcome::Invalid);
    // wrong length for the block
    assert_eq!(c.on_block(0, 0, 0, &data[..10]), BlockOutcome::Invalid);
}

#[test]
fn end_to_end_two_pieces_single_peer() {
    // metadata: 2 pieces of 16 KiB each, one hash per piece
    let piece0: Vec<u8> = (0..16384).map(|i| (i % 13) as u8).collect();
    let piece1: Vec<u8> = (0..16384).map(|i| (i % 17) as u8).collect();
    let mut c = coordinator_for(&[piece0.clone(), piece1.clone()], 16384);

    // a single peer advertises a full bitfield and unchokes us
    let mut peer = Peer::new(2, 5);
    peer.on_connected();
    let mut hs = vec![19u8];
    hs.extend_from_slice(b"BitTorrent protocol");
    hs.extend_from_slice(&[0u8; 8]);
    hs.extend_from_slice(&c.info_hash.clone());
    hs.extend_from_slice(&[b'r'; 20]);
    let ih = c.info_hash.clone();
    peer.on_handshake(&hs, &ih).expect("handshake verifies");
    peer.on_remote_bitfield(Bitfield::from_bytes(&[0b11000000]));
    peer.on_unchoke();
    assert!(matches!(peer.state, ConnState::Ready));

    let peers = vec![peer];
    let counts = holder_counts(&peers, 2);
    assert_eq!(counts, vec![1, 1]);
    assert_eq!(count_holders(&peers, 0), 1);
    let mut peer = peers.into_iter().next().unwrap();

    let mut writes: Vec<(u32, Vec<u8>)> = Vec::new();
    let sources = [piece0.clone(), piece1.clone()];
    for _round in 0..2 {
        let wanted = c.select_piece(&counts).expect("a piece is still wanted");
        let blk = c.assign_next_block(wanted).expect("one block per piece");
        assert_eq!(blk.begin, 0);
        assert_eq!(blk.length, 16384);
        peer.assign_block(blk);
        // the peer answers with the matching payload
        assert!(peer.on_piece(blk.index, blk.begin, blk.length));
        let payload = &sources[blk.index as usize];
        assert_eq!(
            c.on_block(0, blk.index, blk.begin, payload),
            BlockOutcome::Completed
        );
        let (verdict, _) = c.verify_piece(blk.index as usize);
        assert_eq!(verdict, VerifyOutcome::Verified);
        // the verified piece goes to the sink, once
        writes.push((blk.index, c.pieces[blk.index as usize].buf.clone()));
    }

    assert!(c.is_complete());
    assert!(c.local.all());
    assert_eq!(c.status(1, true), DownloadStatus::Complete);
    assert_eq!(writes.len(), 2);
    let total_written: usize = writes.iter().map(|(_, w)| w.len()).sum();
    assert_eq!(total_written, 32768);
    assert_eq!(writes[0], (0, piece0));
    assert_eq!(writes[1], (1, piece1));
    // piece 0 first, then piece 1: ties in rarity break to the lowest index
    assert_eq!(writes[0].0, 0);
}

#[test]
fn duplicate_block_is_counted_once_and_never_written_twice() {
    let data = vec![9u8; 40];
    let mut c = coordinator_for(&[data.clone()], 40);

    assert_eq!(c.on_block(1, 0, 0, &data), BlockOutcome::Completed);
    // a redundant re-assignment delivers the same block again
    assert_eq!(c.on_block(2, 0, 0, &data), BlockOutcome::Duplicate);
    let buf_before = c.pieces[0].buf.clone();
    let (verdict, contributors) = c.verify_piece(0);
    assert_eq!(verdict, VerifyOutcome::Verified);
    // the duplicate supplier was never recorded, the buffer never corrupted
    assert_eq!(contributors, vec![1usize]);
    assert_eq!(c.pieces[0].buf, buf_before);

    // after verification, further deliveries are ignored whole: no second write
    assert_eq!(c.on_block(3, 0, 0, &data), BlockOutcome::Ignored);
    assert!(matches!(c.pieces[0].state, PieceState::Verified));
}

#[test]
fn stalled_is_reported_not_fatal() {
    let data = vec![4u8; 8];
    let c = coordinator_for(&[data], 8);
    assert_eq!(c.status(0, false), DownloadStatus::Stalled);
    assert_eq!(c.status(1, false), DownloadStatus::Downloading);
    assert_eq!(c.status(0, true), DownloadStatus::Downloading);
}

#[test]
fn rarest_first_prefers_fewest_holders() {
    let data: Vec<Vec<u8>> = (0..3).map(|k| vec![k as u8; 4]).collect();
    let mut c = coordinator_for(&data, 4);
    // piece 1 is the rarest of the wanted ones
    let counts = vec![3u32, 1, 2];
    assert_eq!(c.select_piece(&counts), Some(1));
    // a piece nobody holds is never selected
    let none_held = vec![0u32, 0, 0];
    assert_eq!(c.select_piece(&none_held), None);
    // verified pieces drop out
    assert_eq!(c.on_block(0, 1, 0, &vec![1u8; 4]), BlockOutcome::Completed);
    assert_eq!(c.verify_piece(1).0, VerifyOutcome::Verified);
    assert_eq!(c.select_piece(&counts), Some(2));
    // ties break to the lowest index
    let tied = vec![2u32, 9, 2];
    assert_eq!(c.select_piece(&tied), Some(0));
}

#[test]
fn failure_counters_and_blacklist_threshold() {
    let mut counters = vec![0u32, 3, u32::MAX];
    note_hash_failures(&mut counters, &vec![0usize, 2, 7]);
    // contributors counted once, saturation kept, unknown ids ignored
    assert_eq!(counters, vec![1, 3, u32::MAX]);
    note_hash_failures(&mut counters, &vec![0usize]);
    assert_eq!(counters[0], 2);

    assert_eq!(FAILURE_THRESHOLD, 3);
    assert!(!should_blacklist(0));
    assert!(!should_blacklist(3));
    assert!(should_blacklist(4));
}
