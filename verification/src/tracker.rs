use vstd::prelude::*;
use crate::coordinator::Coordinator;
use crate::peer::PeerAddr;

verus! {

/// A byte that the query form of a URL cannot carry as it is: the C0
/// controls and space, the double quote, hash and angle brackets, and
/// everything past printable ASCII.
pub open spec fn query_escaped(b: u8) -> bool {
    b <= 0x20 || b >= 0x7f || b == 0x22 || b == 0x23 || b == 0x3c || b == 0x3e
}

/// Upper-case hexadecimal digit for a value below 16.
pub open spec fn hex_digit(n: u8) -> u8
    recommends
        n < 16,
{
    if n < 10 {
        (0x30 + n) as u8
    } else {
        (0x37 + n) as u8
    }
}

/// Query form of one byte: itself, or a percent escape.
pub open spec fn enc_byte(b: u8) -> Seq<u8> {
    if query_escaped(b) {
        seq![0x25u8, hex_digit(b / 16), hex_digit(b % 16)]
    } else {
        seq![b]
    }
}

/// Query form of a byte string, byte for byte.
pub open spec fn percent_encoded(s: Seq<u8>) -> Seq<u8>
    decreases s.len(),
{
    if s.len() == 0 {
        Seq::empty()
    } else {
        percent_encoded(s.drop_last()) + enc_byte(s.last())
    }
}

fn hex_digit_at(n: u8) -> (r: u8)
    requires
        n < 16,
    ensures
        r == hex_digit(n),
{
    if n < 10 {
        0x30 + n
    } else {
        0x37 + n
    }
}

/// Percent-encodes a byte string for a URL query, escaping exactly the
/// bytes the query form cannot carry.
pub fn percent_encode_query(bytes: &[u8]) -> (r: Vec<u8>)
    ensures
        r@ == percent_encoded(bytes@),
{
    let n = bytes.len();
    let mut out: Vec<u8> = Vec::new();
    let mut k: usize = 0;
    while k < n
        invariant
            n == bytes@.len(),
            k <= n,
            out@ == percent_encoded(bytes@.subrange(0, k as int)),
        decreases n - k,
    {
        proof {
            assert(bytes@.subrange(0, k + 1).drop_last() =~= bytes@.subrange(0, k as int));
            assert(bytes@.subrange(0, k + 1).last() == bytes@[k as int]);
        }
        let b = bytes[k];
        if b <= 0x20 || b >= 0x7f || b == 0x22 || b == 0x23 || b == 0x3c || b == 0x3e {
            out.push(0x25u8);
            out.push(hex_digit_at(b / 16));
            out.push(hex_digit_at(b % 16));
        } else {
            out.push(b);
        }
        proof {
            assert(out@ =~= percent_encoded(bytes@.subrange(0, k + 1)));
        }
        k += 1;
    }
    proof {
        assert(bytes@.subrange(0, n as int) =~= bytes@);
    }
    out
}

/// What an announce tells the tracker about the session's progress.
#[derive(Clone, Copy, Debug, PartialEq, Eq, Structural)]
pub enum TrackerEvent {
    Started,
    Stoped,
    Completed,
}

/// One announce, ready for the tracker's query string; the content
/// identifier is stored already percent-encoded.
pub struct Announce {
    pub compact: u32,
    pub downloaded: u32,
    pub uploaded: u32,
    /// The 20-byte content identifier, in percent-encoded query form.
    pub info_hash: Vec<u8>,
    pub event: TrackerEvent,
    pub peer_id: Vec<u8>,
    pub port: u32,
    pub left: u32,
}

/// What the session can ask of the tracker.
pub enum TrackerRequest {
    Announce(Announce),
    Ping,
    Close,
}

/// The tracker's answer: timing advice and candidate peer addresses.
pub struct TrackerReponse {
    pub tracker_id: u32,
    pub interval: u32,
    pub seeders: u32,
    pub leechers: u32,
    pub peers: Vec<PeerAddr>,
}

impl Default for TrackerReponse {
    /// The empty answer.
    fn default() -> (r: Self)
        ensures
            r.tracker_id == 0,
            r.interval == 0,
            r.seeders == 0,
            r.leechers == 0,
            r.peers@.len() == 0,
    {
        TrackerReponse {
            tracker_id: 0,
            interval: 0,
            seeders: 0,
            leechers: 0,
            peers: Vec::new(),
        }
    }
}

impl Announce {
    /// An announce in compact form on the standard port, with the content
    /// identifier percent-encoded for the query string.
    pub fn new(
        downloaded: u32,
        uploaded: u32,
        info_hash: &[u8],
        event: TrackerEvent,
        peer_id: &[u8],
        left: u32,
    ) -> (r: Self)
        ensures
            r.compact == 1,
            r.downloaded == downloaded,
            r.uploaded == uploaded,
            r.info_hash@ == percent_encoded(info_hash@),
            r.event == event,
            r.peer_id@ == peer_id@,
            r.port == 6969,
            r.left == left,
    {
        Self {
            compact: 1,
            downloaded,
            uploaded,
            info_hash: percent_encode_query(info_hash),
            event,
            peer_id: vstd::slice::slice_to_vec(peer_id),
            port: 6969,
            left,
        }
    }
}

/// Reads the tracker's compact peer list: consecutive 6-byte entries,
/// four address octets and a big-endian port each; a trailing fragment
/// shorter than an entry carries no address and is dropped.
pub fn parse_compact_peers(bytes: &[u8]) -> (r: Vec<PeerAddr>)
    ensures
        r@.len() == bytes@.len() / 6,
        forall|k: int| 0 <= k < r@.len() ==> (#[trigger] r@[k]).ip@ == seq![
            bytes@[6 * k],
            bytes@[6 * k + 1],
            bytes@[6 * k + 2],
            bytes@[6 * k + 3],
        ] && r@[k].port == (bytes@[6 * k + 4] as u16) * 256 + (bytes@[6 * k + 5] as u16),
{
    let n = bytes.len();
    let cnt = n / 6;
    let mut out: Vec<PeerAddr> = Vec::new();
    let mut k: usize = 0;
    while k < cnt
        invariant
            n == bytes@.len(),
            cnt == n / 6,
            k <= cnt,
            out@.len() == k,
            forall|j: int| 0 <= j < k ==> (#[trigger] out@[j]).ip@ == seq![
                bytes@[6 * j],
                bytes@[6 * j + 1],
                bytes@[6 * j + 2],
                bytes@[6 * j + 3],
            ] && out@[j].port == (bytes@[6 * j + 4] as u16) * 256 + (bytes@[6 * j + 5] as u16),
        decreases cnt - k,
    {
        let chunk = vstd::slice::slice_subrange(bytes, 6 * k, 6 * k + 6);
        let addr = PeerAddr::new(chunk);
        out.push(addr);
        k += 1;
    }
    out
}

impl Coordinator {
    /// The session's opening announce: nothing transferred yet, the whole
    /// content still wanted, compact form on the standard port.
    pub fn first_announce(&self, peer_id: &[u8]) -> (r: Announce)
        requires
            self.wf(),
        ensures
            r.compact == 1,
            r.downloaded == 0,
            r.uploaded == 0,
            r.info_hash@ == percent_encoded(self.info_hash@),
            r.event == TrackerEvent::Started,
            r.peer_id@ == peer_id@,
            r.port == 6969,
            r.left == self.total_length,
    {
        Announce::new(
            0,
            0,
            self.info_hash.as_slice(),
            TrackerEvent::Started,
            peer_id,
            self.total_length,
        )
    }
}

} // verus!
