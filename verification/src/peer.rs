use vstd::prelude::*;
use crate::bitfield::Bitfield;
use crate::protocol::{Handshake, MessageModel, ProtocolError, spec_verify_handshake,
    verify_handshake};

verus! {

/// Default cap on concurrent outstanding requests per connection.
pub const DEFAULT_MAX_OUTSTANDING: usize = 5;

/// Bound on one connect attempt, in seconds.
pub const CONNECT_TIMEOUT_SECS: u64 = 10;

/// Quiet time after which a keep-alive goes out, in seconds.
pub const KEEPALIVE_INTERVAL_SECS: u64 = 120;

/// Time without anything received after which the connection closes with
/// a timeout, in seconds; roughly double the keep-alive window.
pub const IDLE_TIMEOUT_SECS: u64 = 240;

/// What the idle clock asks of a connection.
#[derive(Clone, Copy, Debug, PartialEq, Eq, Structural)]
pub enum IdleAction {
    Wait,
    SendKeepAlive,
    CloseTimedOut,
}

/// The idle rule: close once nothing came in for the full timeout window;
/// send a keep-alive once the connection has been quiet in both
/// directions for the keep-alive window; otherwise wait. The clocks run
/// outside; the decision is made here.
pub fn idle_action(secs_since_sent: u64, secs_since_received: u64) -> (r: IdleAction)
    ensures
        r == (if secs_since_received >= IDLE_TIMEOUT_SECS {
            IdleAction::CloseTimedOut
        } else if secs_since_sent >= KEEPALIVE_INTERVAL_SECS && secs_since_received
            >= KEEPALIVE_INTERVAL_SECS {
            IdleAction::SendKeepAlive
        } else {
            IdleAction::Wait
        }),
{
    if secs_since_received >= IDLE_TIMEOUT_SECS {
        IdleAction::CloseTimedOut
    } else if secs_since_sent >= KEEPALIVE_INTERVAL_SECS && secs_since_received
        >= KEEPALIVE_INTERVAL_SECS {
        IdleAction::SendKeepAlive
    } else {
        IdleAction::Wait
    }
}

/// A candidate peer address: four IPv4 octets and a port, as the compact
/// tracker form carries them.
#[derive(Clone, Copy, Debug)]
pub struct PeerAddr {
    pub ip: [u8; 4],
    pub port: u16,
}

impl PeerAddr {
    /// Reads an address from its 6-byte compact form: four address octets
    /// followed by a big-endian port.
    pub fn new(bytes: &[u8]) -> (r: Self)
        requires
            bytes@.len() >= 6,
        ensures
            r.ip@ == seq![bytes@[0], bytes@[1], bytes@[2], bytes@[3]],
            r.port == (bytes@[4] as u16) * 256 + (bytes@[5] as u16),
    {
        let ip = [bytes[0], bytes[1], bytes[2], bytes[3]];
        let port = ((bytes[4] as u16) << 8) | (bytes[5] as u16);
        proof {
            assert(ip@ =~= seq![bytes@[0], bytes@[1], bytes@[2], bytes@[3]]);
            let hi = bytes@[4] as u16;
            let lo = bytes@[5] as u16;
            assert((hi << 8) | lo == hi * 256 + lo) by (bit_vector)
                requires
                    hi < 256 && lo < 256,
            ;
        }
        Self { ip, port }
    }
}

/// Choke and interest flags for one direction of a connection.
#[derive(Clone, Copy, Debug, PartialEq, Eq, Structural)]
pub struct PeerStatus {
    pub chocked: bool,
    pub interested: bool,
}

impl Default for PeerStatus {
    /// The initial flags of either direction: choked, not interested.
    fn default() -> (r: Self)
        ensures
            r.chocked,
            !r.interested,
    {
        PeerStatus { chocked: true, interested: false }
    }
}

/// Lifecycle of one connection. `Failed` is terminal and reachable from
/// every non-terminal state; a failed connection is never reused.
#[derive(Clone, Copy, Debug, PartialEq, Eq, Structural)]
pub enum ConnState {
    Connecting,
    HandshakeSent,
    HandshakeVerified,
    Ready,
    Closed,
    Failed,
}

/// A contiguous byte range within a piece: the unit requested on the wire.
#[derive(Clone, Copy, Debug, PartialEq, Eq, Structural)]
pub struct Block {
    pub index: u32,
    pub begin: u32,
    pub length: u32,
}

/// The protocol state of one peer connection. The socket itself lives
/// outside; this records everything the engine decides with.
pub struct Peer {
    /// Where the connection stands in its lifecycle.
    pub state: ConnState,
    /// The pieces the remote peer advertises.
    pub bitfield: Bitfield,
    /// Flags the remote end set for us: whether it chokes us and whether it
    /// wants our pieces.
    pub remote_stats: PeerStatus,
    /// Flags we set for the remote end: whether we choke it and whether we
    /// want its pieces.
    pub local_status: PeerStatus,
    /// Requests sent and not yet answered, at most `max_outstanding`.
    pub outstanding: Vec<Block>,
    /// Pipelining cap for this connection.
    pub max_outstanding: usize,
    /// The remote's requests we accepted and have not yet answered.
    pub pending_replies: Vec<Block>,
}

impl Peer {
    /// The connection invariant: the remote bitfield is well formed, no
    /// more than `max_outstanding` requests are in flight, no request is in
    /// flight twice, and nothing is in flight while the remote chokes us.
    pub open spec fn wf(&self) -> bool {
        &&& self.bitfield.wf()
        &&& self.outstanding@.len() <= self.max_outstanding
        &&& self.outstanding@.no_duplicates()
        &&& self.remote_stats.chocked ==> self.outstanding@.len() == 0
        &&& self.pending_replies@.no_duplicates()
    }

    /// Fresh connection state: connecting, both directions choked and not
    /// interested, remote availability all zero until told otherwise.
    pub fn new(num_pieces: usize, max_outstanding: usize) -> (r: Self)
        requires
            num_pieces <= usize::MAX - 7,
            (num_pieces + 7) / 8 + 1 <= u32::MAX,
        ensures
            r.wf(),
            r.state == ConnState::Connecting,
            r.bitfield@.len() == num_pieces,
            forall|i: int| 0 <= i < num_pieces ==> !r.bitfield@[i],
            r.remote_stats.chocked && !r.remote_stats.interested,
            r.local_status.chocked && !r.local_status.interested,
            r.outstanding@.len() == 0,
            r.max_outstanding == max_outstanding,
            r.pending_replies@.len() == 0,
    {
        Self {
            state: ConnState::Connecting,
            bitfield: Bitfield::new(num_pieces),
            remote_stats: PeerStatus { chocked: true, interested: false },
            local_status: PeerStatus { chocked: true, interested: false },
            outstanding: Vec::new(),
            max_outstanding,
            pending_replies: Vec::new(),
        }
    }

    /// The transport connected: the handshake goes out next.
    pub fn on_connected(&mut self)
        requires
            old(self).wf(),
            old(self).state == ConnState::Connecting,
        ensures
            final(self).wf(),
            final(self).state == ConnState::HandshakeSent,
            final(self).bitfield == old(self).bitfield,
            final(self).remote_stats == old(self).remote_stats,
            final(self).local_status == old(self).local_status,
            final(self).outstanding == old(self).outstanding,
            final(self).max_outstanding == old(self).max_outstanding,
            final(self).pending_replies == old(self).pending_replies,
    {
        self.state = ConnState::HandshakeSent;
    }

    /// Connect error, framing error, protocol violation or transport error:
    /// the connection fails and is never reused.
    pub fn fail(&mut self)
        requires
            old(self).wf(),
        ensures
            final(self).wf(),
            final(self).state == ConnState::Failed,
            final(self).bitfield == old(self).bitfield,
            final(self).outstanding == old(self).outstanding,
            final(self).remote_stats == old(self).remote_stats,
            final(self).local_status == old(self).local_status,
            final(self).max_outstanding == old(self).max_outstanding,
            final(self).pending_replies == old(self).pending_replies,
    {
        self.state = ConnState::Failed;
    }

    /// Graceful shutdown requested by the coordinator or by peer disconnect.
    pub fn close(&mut self)
        requires
            old(self).wf(),
        ensures
            final(self).wf(),
            final(self).state == ConnState::Closed,
            final(self).outstanding == old(self).outstanding,
    {
        self.state = ConnState::Closed;
    }

    /// Verifies the peer's handshake. On success the connection is
    /// verified and the peer's handshake is handed back; on any mismatch
    /// the connection fails and must not be reused.
    pub fn on_handshake(&mut self, bytes: &[u8], expected_info_hash: &[u8]) -> (r: Result<
        Handshake,
        ProtocolError,
    >)
        requires
            old(self).wf(),
            old(self).state == ConnState::HandshakeSent,
        ensures
            final(self).wf(),
            final(self).bitfield == old(self).bitfield,
            final(self).outstanding == old(self).outstanding,
            final(self).remote_stats == old(self).remote_stats,
            final(self).local_status == old(self).local_status,
            final(self).max_outstanding == old(self).max_outstanding,
            final(self).pending_replies == old(self).pending_replies,
            match r {
                Ok(h) => spec_verify_handshake(bytes@, expected_info_hash@) == Ok::<
                    MessageModel,
                    ProtocolError,
                >(h@) && final(self).state == ConnState::HandshakeVerified,
                Err(e) => spec_verify_handshake(bytes@, expected_info_hash@) == Err::<
                    MessageModel,
                    ProtocolError,
                >(e) && final(self).state == ConnState::Failed,
            },
    {
        match verify_handshake(bytes, expected_info_hash) {
            Ok(h) => {
                self.state = ConnState::HandshakeVerified;
                Ok(h)
            },
            Err(e) => {
                self.state = ConnState::Failed;
                Err(e)
            },
        }
    }

    /// The peer opened with its full availability: store it and go ready.
    pub fn on_remote_bitfield(&mut self, bf: Bitfield)
        requires
            old(self).wf(),
            old(self).state == ConnState::HandshakeVerified,
            bf.wf(),
        ensures
            final(self).wf(),
            final(self).state == ConnState::Ready,
            final(self).bitfield == bf,
            final(self).outstanding == old(self).outstanding,
            final(self).remote_stats == old(self).remote_stats,
            final(self).local_status == old(self).local_status,
            final(self).max_outstanding == old(self).max_outstanding,
            final(self).pending_replies == old(self).pending_replies,
    {
        self.bitfield = bf;
        self.state = ConnState::Ready;
    }

    /// The peer sent other traffic before any bitfield: go ready with the
    /// all-zero availability until the first have message.
    pub fn start_ready(&mut self)
        requires
            old(self).wf(),
            old(self).state == ConnState::HandshakeVerified,
        ensures
            final(self).wf(),
            final(self).state == ConnState::Ready,
            final(self).bitfield == old(self).bitfield,
            final(self).outstanding == old(self).outstanding,
            final(self).remote_stats == old(self).remote_stats,
            final(self).local_status == old(self).local_status,
            final(self).max_outstanding == old(self).max_outstanding,
            final(self).pending_replies == old(self).pending_replies,
    {
        self.state = ConnState::Ready;
    }

    /// Inbound have: record the piece; if it is still needed locally and we
    /// were not yet interested, become interested — the result says whether
    /// an interested message must go out.
    pub fn on_have(&mut self, piece_index: usize, locally_needed: bool) -> (send_interested:
        bool)
        requires
            old(self).wf(),
            old(self).state == ConnState::Ready,
            piece_index < old(self).bitfield@.len(),
        ensures
            final(self).wf(),
            final(self).state == ConnState::Ready,
            final(self).bitfield@ == old(self).bitfield@.update(piece_index as int, true),
            send_interested == (locally_needed && !old(self).local_status.interested),
            final(self).local_status.interested == (old(self).local_status.interested
                || locally_needed),
            final(self).local_status.chocked == old(self).local_status.chocked,
            final(self).outstanding == old(self).outstanding,
            final(self).remote_stats == old(self).remote_stats,
            final(self).max_outstanding == old(self).max_outstanding,
            final(self).pending_replies == old(self).pending_replies,
    {
        self.bitfield.set(piece_index);
        if locally_needed && !self.local_status.interested {
            self.local_status.interested = true;
            true
        } else {
            if locally_needed {
                self.local_status.interested = true;
            }
            false
        }
    }

    /// Inbound choke: every outstanding request from this connection is
    /// void; the cleared set is handed back so the coordinator can
    /// reassign it. Nothing more is requested here until unchoke.
    pub fn on_choke(&mut self) -> (voided: Vec<Block>)
        requires
            old(self).wf(),
            old(self).state == ConnState::Ready,
        ensures
            final(self).wf(),
            final(self).state == ConnState::Ready,
            final(self).remote_stats.chocked,
            final(self).remote_stats.interested == old(self).remote_stats.interested,
            final(self).outstanding@.len() == 0,
            voided@ == old(self).outstanding@,
            final(self).bitfield == old(self).bitfield,
            final(self).local_status == old(self).local_status,
            final(self).max_outstanding == old(self).max_outstanding,
            final(self).pending_replies == old(self).pending_replies,
    {
        self.remote_stats.chocked = true;
        let mut voided: Vec<Block> = Vec::new();
        core::mem::swap(&mut voided, &mut self.outstanding);
        voided
    }

    /// Inbound unchoke: requests may flow again.
    pub fn on_unchoke(&mut self)
        requires
            old(self).wf(),
            old(self).state == ConnState::Ready,
        ensures
            final(self).wf(),
            final(self).state == ConnState::Ready,
            !final(self).remote_stats.chocked,
            final(self).remote_stats.interested == old(self).remote_stats.interested,
            final(self).outstanding == old(self).outstanding,
            final(self).bitfield == old(self).bitfield,
            final(self).local_status == old(self).local_status,
            final(self).max_outstanding == old(self).max_outstanding,
            final(self).pending_replies == old(self).pending_replies,
    {
        self.remote_stats.chocked = false;
    }

    /// Inbound interested or not-interested: record the remote's wish.
    pub fn on_remote_interest(&mut self, interested: bool)
        requires
            old(self).wf(),
            old(self).state == ConnState::Ready,
        ensures
            final(self).wf(),
            final(self).state == ConnState::Ready,
            final(self).remote_stats.interested == interested,
            final(self).remote_stats.chocked == old(self).remote_stats.chocked,
            final(self).outstanding == old(self).outstanding,
            final(self).bitfield == old(self).bitfield,
            final(self).local_status == old(self).local_status,
            final(self).max_outstanding == old(self).max_outstanding,
            final(self).pending_replies == old(self).pending_replies,
    {
        self.remote_stats.interested = interested;
    }

    /// Our own choke decision towards the remote; inbound requests are
    /// served only while this is false.
    pub fn set_local_choke(&mut self, chocked: bool)
        requires
            old(self).wf(),
        ensures
            final(self).wf(),
            final(self).local_status.chocked == chocked,
            final(self).local_status.interested == old(self).local_status.interested,
            final(self).state == old(self).state,
            final(self).outstanding == old(self).outstanding,
            final(self).bitfield == old(self).bitfield,
            final(self).remote_stats == old(self).remote_stats,
            final(self).max_outstanding == old(self).max_outstanding,
            final(self).pending_replies == old(self).pending_replies,
    {
        self.local_status.chocked = chocked;
    }

    /// Whether an inbound request from the peer is honored: only while we
    /// do not choke it.
    pub fn accepts_request(&self) -> (r: bool)
        ensures
            r == (self.state == ConnState::Ready && !self.local_status.chocked),
    {
        match self.state {
            ConnState::Ready => !self.local_status.chocked,
            _ => false,
        }
    }

    /// Whether one more request may be assigned here: ready, not choked by
    /// the remote, and a free pipeline slot.
    pub fn can_request(&self) -> (r: bool)
        ensures
            r == (self.state == ConnState::Ready && !self.remote_stats.chocked
                && self.outstanding@.len() < self.max_outstanding),
    {
        match self.state {
            ConnState::Ready => !self.remote_stats.chocked && self.outstanding.len()
                < self.max_outstanding,
            _ => false,
        }
    }

    /// Takes one assigned block in flight. The coordinator never exceeds
    /// the free slots, so a free slot is required here.
    pub fn assign_block(&mut self, b: Block)
        requires
            old(self).wf(),
            old(self).state == ConnState::Ready,
            !old(self).remote_stats.chocked,
            old(self).outstanding@.len() < old(self).max_outstanding,
            !old(self).outstanding@.contains(b),
        ensures
            final(self).wf(),
            final(self).state == ConnState::Ready,
            final(self).outstanding@ == old(self).outstanding@.push(b),
            final(self).bitfield == old(self).bitfield,
            final(self).remote_stats == old(self).remote_stats,
            final(self).local_status == old(self).local_status,
            final(self).max_outstanding == old(self).max_outstanding,
            final(self).pending_replies == old(self).pending_replies,
    {
        self.outstanding.push(b);
    }

    /// Inbound piece payload header: accepted only when it matches an
    /// outstanding request, whose slot is then freed. A payload that
    /// matches nothing — a reply that was voided by a choke or canceled —
    /// is discarded by the caller, not treated as an error.
    pub fn on_piece(&mut self, index: u32, begin: u32, block_len: u32) -> (accepted: bool)
        requires
            old(self).wf(),
            old(self).state == ConnState::Ready,
        ensures
            final(self).wf(),
            final(self).state == ConnState::Ready,
            accepted == old(self).outstanding@.contains(
                Block { index, begin, length: block_len },
            ),
            accepted ==> {
                &&& final(self).outstanding@.len() == old(self).outstanding@.len() - 1
                &&& !final(self).outstanding@.contains(
                    Block { index, begin, length: block_len },
                )
                &&& forall|x: Block| x != (Block { index, begin, length: block_len })
                    ==> final(self).outstanding@.contains(x) == old(self).outstanding@.contains(x)
            },
            !accepted ==> final(self).outstanding == old(self).outstanding,
            final(self).bitfield == old(self).bitfield,
            final(self).remote_stats == old(self).remote_stats,
            final(self).local_status == old(self).local_status,
            final(self).max_outstanding == old(self).max_outstanding,
            final(self).pending_replies == old(self).pending_replies,
    {
        let blk = Block { index, begin, length: block_len };
        let n = self.outstanding.len();
        let mut k: usize = 0;
        while k < n
            invariant
                *self == *old(self),
                old(self).wf(),
                old(self).state == ConnState::Ready,
                n == self.outstanding@.len(),
                k <= n,
                blk == (Block { index, begin, length: block_len }),
                forall|j: int| 0 <= j < k ==> self.outstanding@[j] != blk,
            decreases n - k,
        {
            let c = self.outstanding[k];
            if c.index == index && c.begin == begin && c.length == block_len {
                self.outstanding.remove(k);
                proof {
                    lemma_remove_unique(old(self).outstanding@, k as int);
                    assert(old(self).outstanding@[k as int] == blk);
                    assert(old(self).outstanding@.contains(blk));
                }
                return true;
            }
            k += 1;
        }
        proof {
            if old(self).outstanding@.contains(blk) {
                let j = choose|j: int| 0 <= j < old(self).outstanding@.len() && old(self).outstanding@[j] == blk;
                assert(false);
            }
        }
        false
    }

    /// The remote asks for a block. Honored — queued for a reply — only
    /// while we do not choke the remote; otherwise ignored. A request
    /// already queued is not queued twice.
    pub fn on_upload_request(&mut self, index: u32, begin: u32, length: u32) -> (accepted: bool)
        requires
            old(self).wf(),
            old(self).state == ConnState::Ready,
        ensures
            final(self).wf(),
            final(self).state == ConnState::Ready,
            accepted == !old(self).local_status.chocked,
            final(self).pending_replies@ == (if !old(self).local_status.chocked && !old(self).pending_replies@.contains(Block { index, begin, length }) {
                old(self).pending_replies@.push(Block { index, begin, length })
            } else {
                old(self).pending_replies@
            }),
            final(self).bitfield == old(self).bitfield,
            final(self).outstanding == old(self).outstanding,
            final(self).remote_stats == old(self).remote_stats,
            final(self).local_status == old(self).local_status,
            final(self).max_outstanding == old(self).max_outstanding,
    {
        if self.local_status.chocked {
            return false;
        }
        let blk = Block { index, begin, length };
        let n = self.pending_replies.len();
        let mut k: usize = 0;
        let mut present = false;
        while k < n
            invariant
                *self == *old(self),
                n == self.pending_replies@.len(),
                k <= n,
                blk == (Block { index, begin, length }),
                present == exists|j: int| 0 <= j < k && self.pending_replies@[j] == blk,
            decreases n - k,
        {
            if self.pending_replies[k].index == index && self.pending_replies[k].begin == begin
                && self.pending_replies[k].length == length {
                present = true;
            }
            k += 1;
        }
        proof {
            if !present && self.pending_replies@.contains(blk) {
                let j = choose|j: int| 0 <= j < self.pending_replies@.len()
                    && self.pending_replies@[j] == blk;
                assert(false);
            }
        }
        if !present {
            self.pending_replies.push(blk);
        }
        true
    }

    /// The remote withdraws a request whose reply has not yet been sent:
    /// the pending reply is dropped. A cancel that matches nothing changes
    /// nothing.
    pub fn on_cancel(&mut self, index: u32, begin: u32, length: u32) -> (dropped: bool)
        requires
            old(self).wf(),
            old(self).state == ConnState::Ready,
        ensures
            final(self).wf(),
            final(self).state == ConnState::Ready,
            dropped == old(self).pending_replies@.contains(Block { index, begin, length }),
            dropped ==> {
                &&& final(self).pending_replies@.len() == old(self).pending_replies@.len() - 1
                &&& !final(self).pending_replies@.contains(Block { index, begin, length })
                &&& forall|x: Block| x != (Block { index, begin, length }) ==> final(self).pending_replies@.contains(x) == old(self).pending_replies@.contains(x)
            },
            !dropped ==> final(self).pending_replies == old(self).pending_replies,
            final(self).bitfield == old(self).bitfield,
            final(self).outstanding == old(self).outstanding,
            final(self).remote_stats == old(self).remote_stats,
            final(self).local_status == old(self).local_status,
            final(self).max_outstanding == old(self).max_outstanding,
    {
        let blk = Block { index, begin, length };
        let n = self.pending_replies.len();
        let mut k: usize = 0;
        while k < n
            invariant
                *self == *old(self),
                old(self).wf(),
                old(self).state == ConnState::Ready,
                n == self.pending_replies@.len(),
                k <= n,
                blk == (Block { index, begin, length }),
                forall|j: int| 0 <= j < k ==> self.pending_replies@[j] != blk,
            decreases n - k,
        {
            let c = self.pending_replies[k];
            if c.index == index && c.begin == begin && c.length == length {
                self.pending_replies.remove(k);
                proof {
                    lemma_remove_unique(old(self).pending_replies@, k as int);
                    assert(old(self).pending_replies@[k as int] == blk);
                    assert(old(self).pending_replies@.contains(blk));
                }
                return true;
            }
            k += 1;
        }
        proof {
            if old(self).pending_replies@.contains(blk) {
                let j = choose|j: int| 0 <= j < old(self).pending_replies@.len() && old(self).pending_replies@[j] == blk;
                assert(false);
            }
        }
        false
    }

    /// Takes the oldest pending reply for serving: replies go out in the
    /// order the requests came.
    pub fn next_reply(&mut self) -> (r: Option<Block>)
        requires
            old(self).wf(),
        ensures
            final(self).wf(),
            match r {
                Some(b) => old(self).pending_replies@.len() > 0 && b == old(self).pending_replies@[0] && final(self).pending_replies@ == old(self).pending_replies@.drop_first(),
                None => old(self).pending_replies@.len() == 0 && final(self).pending_replies
                    == old(self).pending_replies,
            },
            final(self).state == old(self).state,
            final(self).bitfield == old(self).bitfield,
            final(self).outstanding == old(self).outstanding,
            final(self).remote_stats == old(self).remote_stats,
            final(self).local_status == old(self).local_status,
            final(self).max_outstanding == old(self).max_outstanding,
    {
        if self.pending_replies.len() == 0 {
            return None;
        }
        let b = self.pending_replies.remove(0);
        proof {
            lemma_remove_unique(old(self).pending_replies@, 0);
            assert(self.pending_replies@ =~= old(self).pending_replies@.drop_first());
        }
        Some(b)
    }
}

/// Law: after removing the element at `i` from a duplicate-free sequence,
/// that element is gone, every other element's membership is unchanged,
/// and the sequence is still duplicate free.
proof fn lemma_remove_unique(s: Seq<Block>, i: int)
    requires
        0 <= i < s.len(),
        s.no_duplicates(),
    ensures
        s.remove(i).no_duplicates(),
        !s.remove(i).contains(s[i]),
        forall|x: Block| x != s[i] ==> s.remove(i).contains(x) == s.contains(x),
{
    let t = s.remove(i);
    s.remove_ensures(i);
    assert forall|x: Block| x != s[i] implies t.contains(x) == s.contains(x) by {
        if s.contains(x) {
            let j = choose|j: int| 0 <= j < s.len() && s[j] == x;
            if j < i {
                assert(t[j] == x);
            } else {
                assert(t[j - 1] == x);
            }
            assert(t.contains(x));
        }
        if t.contains(x) {
            let j = choose|j: int| 0 <= j < t.len() && t[j] == x;
            if j < i {
                assert(s[j] == x);
            } else {
                assert(s[j + 1] == x);
            }
            assert(s.contains(x));
        }
    }
    if t.contains(s[i]) {
        let j = choose|j: int| 0 <= j < t.len() && t[j] == s[i];
        if j < i {
            assert(s[j] == s[i]);
        } else {
            assert(s[j + 1] == s[i]);
        }
        assert(false);
    }
}

/// Law: a well-formed connection never has more than `max_outstanding`
/// requests in flight, and none at all while the remote chokes it.
pub proof fn lemma_pipelining_bound(p: Peer)
    requires
        p.wf(),
    ensures
        p.outstanding@.len() <= p.max_outstanding,
        p.remote_stats.chocked ==> p.outstanding@.len() == 0,
{
}

} // verus!
