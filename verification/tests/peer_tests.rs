use peerwire::bitfield::Bitfield;
use peerwire::peer::{idle_action, Block, ConnState, IdleAction, Peer, PeerAddr, PeerStatus};

fn ready_peer(num_pieces: usize, max_outstanding: usize) -> Peer {
    let mut p = Peer::new(num_pieces, max_outstanding);
    p.on_connected();
    let mut hs = vec![19u8];
    hs.extend_from_slice(b"BitTorrent protocol");
    hs.extend_from_slice(&[0u8; 8]);
    hs.extend_from_slice(&[7u8; 20]);
    hs.extend_from_slice(&[b'q'; 20]);
    p.on_handshake(&hs, &[7u8; 20]).expect("handshake verifies");
    p.start_ready();
    p.on_unchoke();
    p
}

fn blk(index: u32, begin: u32) -> Block {
    Block { index, begin, length: 16384 }
}

#[test]
fn initial_flags_are_choked_and_uninterested() {
    let p = Peer::new(4, 5);
    assert!(matches!(p.state, ConnState::Connecting));
    assert!(p.remote_stats.chocked && !p.remote_stats.interested);
    assert!(p.local_status.chocked && !p.local_status.interested);
    let d = PeerStatus::default();
    assert!(d.chocked && !d.interested);
}

#[test]
fn handshake_mismatch_fails_the_connection() {
    let mut p = Peer::new(4, 5);
    p.on_connected();
    let mut hs = vec![19u8];
    hs.extend_from_slice(b"BitTorrent protocol");
    hs.extend_from_slice(&[0u8; 8]);
    hs.extend_from_slice(&[1u8; 20]);
    hs.extend_from_slice(&[b'q'; 20]);
    assert!(p.on_handshake(&hs, &[2u8; 20]).is_err());
    assert!(matches!(p.state, ConnState::Failed));
}

#[test]
fn pipelining_cap_and_choke_void_the_in_flight_set() {
    let mut p = ready_peer(8, 2);
    assert!(p.can_request());
    p.assign_block(blk(0, 0));
    assert!(p.can_request());
    p.assign_block(blk(1, 0));
    // never more than max_outstanding requests in flight
    assert!(!p.can_request());
    assert_eq!(p.outstanding.len(), 2);

    // choke voids every outstanding request and hands it back
    let voided = p.on_choke();
    assert_eq!(voided, vec![blk(0, 0), blk(1, 0)]);
    assert!(p.outstanding.is_empty());
    // no further request is sent until unchoke
    assert!(!p.can_request());
    p.on_unchoke();
    assert!(p.can_request());
}

#[test]
fn piece_frees_its_slot_and_unmatched_piece_is_discarded() {
    let mut p = ready_peer(8, 2);
    p.assign_block(blk(3, 0));
    p.assign_block(blk(3, 16384));
    // a payload that matches nothing outstanding is not accepted
    assert!(!p.on_piece(4, 0, 16384));
    assert_eq!(p.outstanding.len(), 2);
    // a matching payload frees exactly its slot
    assert!(p.on_piece(3, 0, 16384));
    assert_eq!(p.outstanding, vec![blk(3, 16384)]);
    assert!(p.can_request());
    // the same payload again matches nothing
    assert!(!p.on_piece(3, 0, 16384));
}

#[test]
fn have_sets_the_bit_and_interest_is_sent_once() {
    let mut p = ready_peer(8, 2);
    assert!(!p.bitfield.get(5));
    // needed piece: become interested, say so once
    assert!(p.on_have(5, true));
    assert!(p.bitfield.get(5));
    assert!(p.local_status.interested);
    // second have: already interested, nothing more to send
    assert!(!p.on_have(6, true));
    // a piece we already hold raises no interest
    let mut q = ready_peer(8, 2);
    assert!(!q.on_have(5, false));
    assert!(!q.local_status.interested);
}

#[test]
fn upload_side_honors_requests_only_while_unchoked() {
    let mut p = ready_peer(8, 2);
    assert!(!p.accepts_request());
    p.set_local_choke(false);
    assert!(p.accepts_request());
    p.set_local_choke(true);
    assert!(!p.accepts_request());
}

#[test]
fn remote_bitfield_is_stored_and_remote_interest_tracked() {
    let mut p = Peer::new(8, 5);
    p.on_connected();
    let mut hs = vec![19u8];
    hs.extend_from_slice(b"BitTorrent protocol");
    hs.extend_from_slice(&[0u8; 8]);
    hs.extend_from_slice(&[7u8; 20]);
    hs.extend_from_slice(&[b'q'; 20]);
    p.on_handshake(&hs, &[7u8; 20]).unwrap();
    p.on_remote_bitfield(Bitfield::from_bytes(&[0b01000000]));
    assert!(matches!(p.state, ConnState::Ready));
    assert!(!p.bitfield.get(0));
    assert!(p.bitfield.get(1));
    p.on_remote_interest(true);
    assert!(p.remote_stats.interested);
    p.close();
    assert!(matches!(p.state, ConnState::Closed));
}

#[test]
fn peer_addr_reads_compact_form() {
    let a = PeerAddr::new(&[10, 0, 0, 1, 0x1A, 0xE1]);
    assert_eq!(a.ip, [10, 0, 0, 1]);
    assert_eq!(a.port, 6881);
}

#[test]
fn upload_requests_queue_once_and_cancel_drops_pending() {
    let mut p = ready_peer(8, 2);
    // choked remote: ignored
    assert!(!p.on_upload_request(1, 0, 16384));
    assert!(p.pending_replies.is_empty());
    p.set_local_choke(false);
    assert!(p.on_upload_request(1, 0, 16384));
    assert!(p.on_upload_request(1, 16384, 16384));
    // the same request is not queued twice
    assert!(p.on_upload_request(1, 0, 16384));
    assert_eq!(p.pending_replies.len(), 2);
    // cancel drops exactly the pending reply it names
    assert!(p.on_cancel(1, 0, 16384));
    assert_eq!(p.pending_replies, vec![blk(1, 16384)]);
    assert!(!p.on_cancel(1, 0, 16384));
    // replies are served oldest first
    assert_eq!(p.next_reply(), Some(blk(1, 16384)));
    assert_eq!(p.next_reply(), None);
}

#[test]
fn idle_rule_keeps_alive_then_times_out() {
    assert_eq!(idle_action(0, 0), IdleAction::Wait);
    assert_eq!(idle_action(119, 119), IdleAction::Wait);
    // quiet in both directions for the keep-alive window
    assert_eq!(idle_action(120, 120), IdleAction::SendKeepAlive);
    // we spoke recently, the peer did not: nothing to send yet
    assert_eq!(idle_action(10, 200), IdleAction::Wait);
    // nothing received for the full timeout window
    assert_eq!(idle_action(0, 240), IdleAction::CloseTimedOut);
    assert_eq!(idle_action(500, 500), IdleAction::CloseTimedOut);
}
