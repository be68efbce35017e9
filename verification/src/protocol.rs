use vstd::prelude::*;
use crate::bitfield::Bitfield;

verus! {

/// Big-endian byte form of a 32-bit integer, as used for every multi-byte
/// field of the wire protocol.
pub open spec fn be32(x: u32) -> Seq<u8> {
    seq![(x >> 24) as u8, (x >> 16) as u8, (x >> 8) as u8, x as u8]
}

/// The 32-bit integer read back from four big-endian bytes.
pub open spec fn u32_of(b0: u8, b1: u8, b2: u8, b3: u8) -> u32 {
    ((b0 as u32) << 24) | ((b1 as u32) << 16) | ((b2 as u32) << 8) | (b3 as u32)
}

proof fn lemma_u32_of_be32(x: u32)
    by (bit_vector)
    ensures
        u32_of((x >> 24) as u8, (x >> 16) as u8, (x >> 8) as u8, x as u8) == x,
{
}

/// The fixed 19-byte ASCII protocol label of the handshake.
pub open spec fn protocol_label() -> Seq<u8> {
    seq![
        0x42u8, 0x69u8, 0x74u8, 0x54u8, 0x6fu8, 0x72u8, 0x72u8, 0x65u8, 0x6eu8, 0x74u8, 0x20u8,
        0x70u8, 0x72u8, 0x6fu8, 0x74u8, 0x6fu8, 0x63u8, 0x6fu8, 0x6cu8,
    ]
}

/// Pushes the protocol label onto `buf`.
fn push_protocol_label(buf: &mut Vec<u8>)
    ensures
        final(buf)@ == old(buf)@ + protocol_label(),
{
    buf.push(0x42u8);
    buf.push(0x69u8);
    buf.push(0x74u8);
    buf.push(0x54u8);
    buf.push(0x6fu8);
    buf.push(0x72u8);
    buf.push(0x72u8);
    buf.push(0x65u8);
    buf.push(0x6eu8);
    buf.push(0x74u8);
    buf.push(0x20u8);
    buf.push(0x70u8);
    buf.push(0x72u8);
    buf.push(0x6fu8);
    buf.push(0x74u8);
    buf.push(0x6fu8);
    buf.push(0x63u8);
    buf.push(0x6fu8);
    buf.push(0x6cu8);
    proof {
        assert(buf@ =~= old(buf)@ + protocol_label());
    }
}

/// Appends the big-endian bytes of `x` to `buf`.
fn push_u32_be(buf: &mut Vec<u8>, x: u32)
    ensures
        final(buf)@ == old(buf)@ + be32(x),
{
    buf.push(#[verifier::truncate] ((x >> 24) as u8));
    buf.push(#[verifier::truncate] ((x >> 16) as u8));
    buf.push(#[verifier::truncate] ((x >> 8) as u8));
    buf.push(#[verifier::truncate] (x as u8));
    proof {
        assert(buf@ =~= old(buf)@ + be32(x));
    }
}

/// Appends all of `data` to `buf`.
fn push_bytes(buf: &mut Vec<u8>, data: &[u8])
    ensures
        final(buf)@ == old(buf)@ + data@,
{
    let mut k: usize = 0;
    while k < data.len()
        invariant
            k <= data@.len(),
            buf@ == old(buf)@ + data@.subrange(0, k as int),
        decreases data@.len() - k,
    {
        buf.push(data[k]);
        proof {
            assert(buf@ =~= old(buf)@ + data@.subrange(0, k + 1));
        }
        k += 1;
    }
    proof {
        assert(data@.subrange(0, data@.len() as int) =~= data@);
    }
}

/// Reads the big-endian 32-bit integer at `off`.
fn read_u32_be(buf: &[u8], off: usize) -> (r: u32)
    requires
        off + 4 <= buf@.len(),
    ensures
        r == u32_of(buf@[off as int], buf@[off + 1], buf@[off + 2], buf@[off + 3]),
{
    ((buf[off] as u32) << 24) | ((buf[off + 1] as u32) << 16) | ((buf[off + 2] as u32) << 8) | (
    buf[off + 3] as u32)
}

/// True when two byte strings hold the same bytes.
pub fn bytes_eq(a: &[u8], b: &[u8]) -> (r: bool)
    ensures
        r == (a@ == b@),
{
    if a.len() != b.len() {
        return false;
    }
    let mut k: usize = 0;
    while k < a.len()
        invariant
            a@.len() == b@.len(),
            k <= a@.len(),
            forall|j: int| 0 <= j < k ==> a@[j] == b@[j],
        decreases a@.len() - k,
    {
        if a[k] != b[k] {
            return false;
        }
        k += 1;
    }
    proof {
        assert(a@ =~= b@);
    }
    true
}

/// Everything that can go wrong while framing or verifying wire data.
#[derive(Clone, Copy, Debug, PartialEq, Eq, Structural)]
pub enum ProtocolError {
    /// The buffer does not yet hold a whole frame.
    NeedMoreData,
    /// The id byte names no known message.
    UnknownMessageId,
    /// The declared payload length does not fit the fixed-size message id.
    WrongPayloadLength,
    /// The handshake does not begin with the byte 19.
    BadHandshakePrefix,
    /// The handshake's 19-byte label is not the protocol label.
    BadHandshakeLabel,
    /// The handshake names another content identifier than the expected one.
    InfoHashMismatch,
}

/// The handshake body: the fields that follow the one-byte prefix and the
/// protocol label on the wire.
pub struct Handshake {
    /// 8 reserved bytes; zero-filled when sent, ignored when received.
    pub reserved: Vec<u8>,
    /// The 20-byte content identifier.
    pub info_hash: Vec<u8>,
    /// The 20-byte peer identifier.
    pub peer_id: Vec<u8>,
}

impl Handshake {
    pub open spec fn wf(&self) -> bool {
        &&& self.reserved@.len() == 8
        &&& self.info_hash@.len() == 20
        &&& self.peer_id@.len() == 20
    }
}

/// The mathematical form of a message: the same variants, with byte
/// sequences in place of the executable containers.
pub enum MessageModel {
    KeepAlive,
    Choke,
    UnChoke,
    Interested,
    NotInterested,
    Have { piece_index: u32 },
    Handshake { reserved: Seq<u8>, info_hash: Seq<u8>, peer_id: Seq<u8> },
    Bitfield { bytes: Seq<u8> },
    Request { index: u32, begin: u32, length: u32 },
    Piece { index: u32, begin: u32, block: Seq<u8> },
    Cancel { index: u32, begin: u32, length: u32 },
}

/// The nine wire messages plus the handshake, which is framed differently.
pub enum Message {
    /// Empty message that only resets the idle clock.
    KeepAlive,
    /// The peer will not serve requests for now.
    Choke,
    /// The peer will serve requests again.
    UnChoke,
    /// We want pieces the peer has.
    Interested,
    /// We no longer want anything from the peer.
    NotInterested,
    /// The peer completed the piece with this index.
    Have { piece_index: u32 },
    /// First exchange after connecting; no length prefix.
    Handshake(Handshake),
    /// The peer's full piece availability, sent right after the handshake.
    Bitfield(Bitfield),
    /// Ask for a block within a piece.
    Request { index: u32, begin: u32, length: u32 },
    /// A block payload.
    Piece { index: u32, begin: u32, block: Vec<u8> },
    /// Withdraw an earlier request.
    Cancel { index: u32, begin: u32, length: u32 },
}

impl View for Message {
    type V = MessageModel;

    open spec fn view(&self) -> MessageModel {
        match self {
            Message::KeepAlive => MessageModel::KeepAlive,
            Message::Choke => MessageModel::Choke,
            Message::UnChoke => MessageModel::UnChoke,
            Message::Interested => MessageModel::Interested,
            Message::NotInterested => MessageModel::NotInterested,
            Message::Have { piece_index } => MessageModel::Have { piece_index: *piece_index },
            Message::Handshake(h) => MessageModel::Handshake {
                reserved: h.reserved@,
                info_hash: h.info_hash@,
                peer_id: h.peer_id@,
            },
            Message::Bitfield(bf) => MessageModel::Bitfield { bytes: bf.spec_bytes() },
            Message::Request { index, begin, length } => MessageModel::Request {
                index: *index,
                begin: *begin,
                length: *length,
            },
            Message::Piece { index, begin, block } => MessageModel::Piece {
                index: *index,
                begin: *begin,
                block: block@,
            },
            Message::Cancel { index, begin, length } => MessageModel::Cancel {
                index: *index,
                begin: *begin,
                length: *length,
            },
        }
    }
}

/// Bounds under which a message can be framed: every length that enters a
/// u32 length prefix must fit it.
pub open spec fn wf_model(m: MessageModel) -> bool {
    match m {
        MessageModel::Bitfield { bytes } => bytes.len() + 1 <= u32::MAX,
        MessageModel::Piece { block, .. } => block.len() + 9 <= u32::MAX,
        MessageModel::Handshake { reserved, info_hash, peer_id } => reserved.len() == 8
            && info_hash.len() == 20 && peer_id.len() == 20,
        _ => true,
    }
}

impl Message {
    pub open spec fn wf(&self) -> bool {
        match self {
            Message::Bitfield(bf) => bf.wf(),
            Message::Handshake(h) => h.wf(),
            _ => wf_model(self@),
        }
    }
}

/// Exact byte form of a message: `<4-byte big-endian length prefix>
/// <1-byte id><payload>` for the stream messages, no prefix and no id for
/// the handshake, and a bare zero prefix for the keep-alive.
pub open spec fn spec_encode(m: MessageModel) -> Seq<u8> {
    match m {
        MessageModel::KeepAlive => be32(0),
        MessageModel::Choke => be32(1) + seq![0u8],
        MessageModel::UnChoke => be32(1) + seq![1u8],
        MessageModel::Interested => be32(1) + seq![2u8],
        MessageModel::NotInterested => be32(1) + seq![3u8],
        MessageModel::Have { piece_index } => be32(5) + seq![4u8] + be32(piece_index),
        MessageModel::Handshake { reserved, info_hash, peer_id } => seq![19u8] + protocol_label()
            + reserved + info_hash + peer_id,
        MessageModel::Bitfield { bytes } => be32((1 + bytes.len()) as u32) + seq![5u8] + bytes,
        MessageModel::Request { index, begin, length } => be32(13) + seq![6u8] + be32(index)
            + be32(begin) + be32(length),
        MessageModel::Piece { index, begin, block } => be32((9 + block.len()) as u32) + seq![7u8]
            + be32(index) + be32(begin) + block,
        MessageModel::Cancel { index, begin, length } => be32(13) + seq![8u8] + be32(index)
            + be32(begin) + be32(length),
    }
}

/// What decoding an id byte and its exact payload yields.
pub open spec fn spec_decode_payload(id: u8, p: Seq<u8>) -> Result<MessageModel, ProtocolError> {
    if id == 0 {
        if p.len() == 0 {
            Ok(MessageModel::Choke)
        } else {
            Err(ProtocolError::WrongPayloadLength)
        }
    } else if id == 1 {
        if p.len() == 0 {
            Ok(MessageModel::UnChoke)
        } else {
            Err(ProtocolError::WrongPayloadLength)
        }
    } else if id == 2 {
        if p.len() == 0 {
            Ok(MessageModel::Interested)
        } else {
            Err(ProtocolError::WrongPayloadLength)
        }
    } else if id == 3 {
        if p.len() == 0 {
            Ok(MessageModel::NotInterested)
        } else {
            Err(ProtocolError::WrongPayloadLength)
        }
    } else if id == 4 {
        if p.len() == 4 {
            Ok(MessageModel::Have { piece_index: u32_of(p[0], p[1], p[2], p[3]) })
        } else {
            Err(ProtocolError::WrongPayloadLength)
        }
    } else if id == 5 {
        Ok(MessageModel::Bitfield { bytes: p })
    } else if id == 6 {
        if p.len() == 12 {
            Ok(MessageModel::Request {
                index: u32_of(p[0], p[1], p[2], p[3]),
                begin: u32_of(p[4], p[5], p[6], p[7]),
                length: u32_of(p[8], p[9], p[10], p[11]),
            })
        } else {
            Err(ProtocolError::WrongPayloadLength)
        }
    } else if id == 7 {
        if p.len() >= 8 {
            Ok(MessageModel::Piece {
                index: u32_of(p[0], p[1], p[2], p[3]),
                begin: u32_of(p[4], p[5], p[6], p[7]),
                block: p.subrange(8, p.len() as int),
            })
        } else {
            Err(ProtocolError::WrongPayloadLength)
        }
    } else if id == 8 {
        if p.len() == 12 {
            Ok(MessageModel::Cancel {
                index: u32_of(p[0], p[1], p[2], p[3]),
                begin: u32_of(p[4], p[5], p[6], p[7]),
                length: u32_of(p[8], p[9], p[10], p[11]),
            })
        } else {
            Err(ProtocolError::WrongPayloadLength)
        }
    } else {
        Err(ProtocolError::UnknownMessageId)
    }
}

/// What decoding the front of a byte stream yields: the message and how
/// many bytes of the stream it used.
pub open spec fn spec_decode(b: Seq<u8>) -> Result<(MessageModel, int), ProtocolError> {
    if b.len() < 4 {
        Err(ProtocolError::NeedMoreData)
    } else {
        let n = u32_of(b[0], b[1], b[2], b[3]) as int;
        if n == 0 {
            Ok((MessageModel::KeepAlive, 4))
        } else if b.len() < 4 + n {
            Err(ProtocolError::NeedMoreData)
        } else {
            match spec_decode_payload(b[4], b.subrange(5, 4 + n)) {
                Ok(m) => Ok((m, 4 + n)),
                Err(e) => Err(e),
            }
        }
    }
}

/// What decoding a 68-byte handshake yields.
pub open spec fn spec_decode_handshake(b: Seq<u8>) -> Result<(MessageModel, int), ProtocolError> {
    if b.len() < 68 {
        Err(ProtocolError::NeedMoreData)
    } else if b[0] != 19 {
        Err(ProtocolError::BadHandshakePrefix)
    } else if b.subrange(1, 20) != protocol_label() {
        Err(ProtocolError::BadHandshakeLabel)
    } else {
        Ok(
            (
                MessageModel::Handshake {
                    reserved: b.subrange(20, 28),
                    info_hash: b.subrange(28, 48),
                    peer_id: b.subrange(48, 68),
                },
                68,
            ),
        )
    }
}

impl Message {
    /// Handshake message carrying the given content and peer identifiers,
    /// with the 8 reserved bytes zero-filled.
    pub fn handshake(info_hash: &[u8], peer_id: &[u8]) -> (r: Self)
        requires
            info_hash@.len() == 20,
            peer_id@.len() == 20,
        ensures
            r.wf(),
            r@ == (MessageModel::Handshake {
                reserved: seq![0u8, 0u8, 0u8, 0u8, 0u8, 0u8, 0u8, 0u8],
                info_hash: info_hash@,
                peer_id: peer_id@,
            }),
    {
        let reserved = vec![0u8, 0u8, 0u8, 0u8, 0u8, 0u8, 0u8, 0u8];
        let ih = vstd::slice::slice_to_vec(info_hash);
        let pid = vstd::slice::slice_to_vec(peer_id);
        Message::Handshake(Handshake { reserved, info_hash: ih, peer_id: pid })
    }

    /// Request for the block at `begin` of length `length` within piece `index`.
    pub fn request(index: u32, begin: u32, length: u32) -> (r: Self)
        ensures
            r.wf(),
            r@ == (MessageModel::Request { index, begin, length }),
    {
        Message::Request { index, begin, length }
    }

    /// Withdrawal of the matching request.
    pub fn cancel(index: u32, begin: u32, length: u32) -> (r: Self)
        ensures
            r.wf(),
            r@ == (MessageModel::Cancel { index, begin, length }),
    {
        Message::Cancel { index, begin, length }
    }

    /// Block payload message.
    pub fn piece(index: u32, begin: u32, block: Vec<u8>) -> (r: Self)
        requires
            block@.len() + 9 <= u32::MAX,
        ensures
            r.wf(),
            r@ == (MessageModel::Piece { index, begin, block: block@ }),
    {
        Message::Piece { index, begin, block }
    }

    /// Appends the exact byte form of the message to `buf`. The length
    /// prefix is computed from the payload size; a piece block is never
    /// truncated or padded.
    pub fn encode(&self, buf: &mut Vec<u8>)
        requires
            self.wf(),
        ensures
            final(buf)@ == old(buf)@ + spec_encode(self@),
    {
        match self {
            Message::KeepAlive => {
                push_u32_be(buf, 0);
            },
            Message::Choke => {
                push_u32_be(buf, 1);
                buf.push(0u8);
            },
            Message::UnChoke => {
                push_u32_be(buf, 1);
                buf.push(1u8);
            },
            Message::Interested => {
                push_u32_be(buf, 1);
                buf.push(2u8);
            },
            Message::NotInterested => {
                push_u32_be(buf, 1);
                buf.push(3u8);
            },
            Message::Have { piece_index } => {
                push_u32_be(buf, 5);
                buf.push(4u8);
                push_u32_be(buf, *piece_index);
            },
            Message::Handshake(h) => {
                buf.push(19u8);
                push_protocol_label(buf);
                push_bytes(buf, h.reserved.as_slice());
                push_bytes(buf, h.info_hash.as_slice());
                push_bytes(buf, h.peer_id.as_slice());
            },
            Message::Bitfield(bf) => {
                push_u32_be(buf, 1 + bf.bytes());
                buf.push(5u8);
                push_bytes(buf, bf.as_bytes());
            },
            Message::Request { index, begin, length } => {
                push_u32_be(buf, 13);
                buf.push(6u8);
                push_u32_be(buf, *index);
                push_u32_be(buf, *begin);
                push_u32_be(buf, *length);
            },
            Message::Piece { index, begin, block } => {
                push_u32_be(buf, 9 + block.len() as u32);
                buf.push(7u8);
                push_u32_be(buf, *index);
                push_u32_be(buf, *begin);
                push_bytes(buf, block.as_slice());
            },
            Message::Cancel { index, begin, length } => {
                push_u32_be(buf, 13);
                buf.push(8u8);
                push_u32_be(buf, *index);
                push_u32_be(buf, *begin);
                push_u32_be(buf, *length);
            },
        }
        proof {
            assert(buf@ =~= old(buf)@ + spec_encode(self@));
        }
    }

    /// Decodes the stream message at the front of `buf`: reads the length
    /// prefix, then exactly that many bytes, and dispatches on the id byte.
    /// Fails with a framing error when the declared length does not match a
    /// fixed-size id, or when the id is unknown; asks for more data while
    /// the frame is incomplete.
    pub fn decode(buf: &[u8]) -> (r: Result<(Message, usize), ProtocolError>)
        requires
            buf@.len() <= usize::MAX / 8,
        ensures
            match r {
                Ok(p) => spec_decode(buf@) == Ok::<(MessageModel, int), ProtocolError>(
                    (p.0@, p.1 as int),
                ) && p.0.wf() && 4 <= p.1 <= buf@.len(),
                Err(e) => spec_decode(buf@) == Err::<(MessageModel, int), ProtocolError>(e),
            },
    {
        if buf.len() < 4 {
            return Err(ProtocolError::NeedMoreData);
        }
        let n32 = read_u32_be(buf, 0);
        let n = n32 as usize;
        if n == 0 {
            return Ok((Message::KeepAlive, 4));
        }
        if buf.len() - 4 < n {
            return Err(ProtocolError::NeedMoreData);
        }
        let id = buf[4];
        let used = 4 + n;
        let p = vstd::slice::slice_subrange(buf, 5, used);
        let plen = p.len();
        if id == 0 {
            if plen == 0 {
                Ok((Message::Choke, used))
            } else {
                Err(ProtocolError::WrongPayloadLength)
            }
        } else if id == 1 {
            if plen == 0 {
                Ok((Message::UnChoke, used))
            } else {
                Err(ProtocolError::WrongPayloadLength)
            }
        } else if id == 2 {
            if plen == 0 {
                Ok((Message::Interested, used))
            } else {
                Err(ProtocolError::WrongPayloadLength)
            }
        } else if id == 3 {
            if plen == 0 {
                Ok((Message::NotInterested, used))
            } else {
                Err(ProtocolError::WrongPayloadLength)
            }
        } else if id == 4 {
            if plen == 4 {
                Ok((Message::Have { piece_index: read_u32_be(p, 0) }, used))
            } else {
                Err(ProtocolError::WrongPayloadLength)
            }
        } else if id == 5 {
            Ok((Message::Bitfield(Bitfield::from_bytes(p)), used))
        } else if id == 6 {
            if plen == 12 {
                Ok(
                    (
                        Message::Request {
                            index: read_u32_be(p, 0),
                            begin: read_u32_be(p, 4),
                            length: read_u32_be(p, 8),
                        },
                        used,
                    ),
                )
            } else {
                Err(ProtocolError::WrongPayloadLength)
            }
        } else if id == 7 {
            if plen >= 8 {
                let block = vstd::slice::slice_to_vec(
                    vstd::slice::slice_subrange(p, 8, plen),
                );
                proof {
                    assert(block@ =~= buf@.subrange(5, 4 + n as int).subrange(
                        8,
                        buf@.subrange(5, 4 + n as int).len() as int,
                    ));
                }
                Ok(
                    (
                        Message::Piece {
                            index: read_u32_be(p, 0),
                            begin: read_u32_be(p, 4),
                            block,
                        },
                        used,
                    ),
                )
            } else {
                Err(ProtocolError::WrongPayloadLength)
            }
        } else if id == 8 {
            if plen == 12 {
                Ok(
                    (
                        Message::Cancel {
                            index: read_u32_be(p, 0),
                            begin: read_u32_be(p, 4),
                            length: read_u32_be(p, 8),
                        },
                        used,
                    ),
                )
            } else {
                Err(ProtocolError::WrongPayloadLength)
            }
        } else {
            Err(ProtocolError::UnknownMessageId)
        }
    }
}

impl Handshake {
    /// Parses a 68-byte handshake: the prefix byte must be 19 and the label
    /// must match the protocol label; the reserved bytes are taken as they
    /// come. The content identifier is not checked here.
    pub fn try_from(bytes: &[u8]) -> (r: Result<Handshake, ProtocolError>)
        ensures
            match r {
                Ok(h) => spec_decode_handshake(bytes@) == Ok::<
                    (MessageModel, int),
                    ProtocolError,
                >((h@, 68)) && h.wf(),
                Err(e) => spec_decode_handshake(bytes@) == Err::<
                    (MessageModel, int),
                    ProtocolError,
                >(e),
            },
    {
        if bytes.len() < 68 {
            return Err(ProtocolError::NeedMoreData);
        }
        if bytes[0] != 19 {
            return Err(ProtocolError::BadHandshakePrefix);
        }
        let label = vstd::slice::slice_subrange(bytes, 1, 20);
        let mut expected_label: Vec<u8> = Vec::new();
        push_protocol_label(&mut expected_label);
        if !bytes_eq(label, expected_label.as_slice()) {
            return Err(ProtocolError::BadHandshakeLabel);
        }
        let reserved = vstd::slice::slice_to_vec(vstd::slice::slice_subrange(bytes, 20, 28));
        let info_hash = vstd::slice::slice_to_vec(vstd::slice::slice_subrange(bytes, 28, 48));
        let peer_id = vstd::slice::slice_to_vec(vstd::slice::slice_subrange(bytes, 48, 68));
        Ok(Handshake { reserved, info_hash, peer_id })
    }

    /// True when the handshake names the expected content identifier.
    pub fn matches_info_hash(&self, expected: &[u8]) -> (r: bool)
        ensures
            r == (self.info_hash@ == expected@),
    {
        bytes_eq(self.info_hash.as_slice(), expected)
    }
}

impl View for Handshake {
    type V = MessageModel;

    open spec fn view(&self) -> MessageModel {
        MessageModel::Handshake {
            reserved: self.reserved@,
            info_hash: self.info_hash@,
            peer_id: self.peer_id@,
        }
    }
}

/// What a full handshake check yields: the parse of `try_from` followed by
/// the content-identifier comparison.
pub open spec fn spec_verify_handshake(b: Seq<u8>, expected: Seq<u8>) -> Result<
    MessageModel,
    ProtocolError,
> {
    match spec_decode_handshake(b) {
        Err(e) => Err(e),
        Ok((m, _)) => match m {
            MessageModel::Handshake { info_hash, .. } => if info_hash == expected {
                Ok(m)
            } else {
                Err(ProtocolError::InfoHashMismatch)
            },
            _ => Err(ProtocolError::NeedMoreData),
        },
    }
}

/// Parses and fully verifies a received handshake against the expected
/// content identifier.
pub fn verify_handshake(bytes: &[u8], expected: &[u8]) -> (r: Result<Handshake, ProtocolError>)
    ensures
        match r {
            Ok(h) => spec_verify_handshake(bytes@, expected@) == Ok::<
                MessageModel,
                ProtocolError,
            >(h@) && h.wf(),
            Err(e) => spec_verify_handshake(bytes@, expected@) == Err::<
                MessageModel,
                ProtocolError,
            >(e),
        },
{
    match Handshake::try_from(bytes) {
        Err(e) => Err(e),
        Ok(h) => {
            if h.matches_info_hash(expected) {
                Ok(h)
            } else {
                Err(ProtocolError::InfoHashMismatch)
            }
        },
    }
}

/// Law: a well-formed handshake blob is accepted exactly when its first
/// byte is 19, its label is the protocol label, and its content identifier
/// is the expected one — whatever its reserved bytes hold.
pub proof fn lemma_handshake_acceptance(b: Seq<u8>, expected: Seq<u8>)
    requires
        b.len() == 68,
    ensures
        spec_verify_handshake(b, expected) is Ok <==> (b[0] == 19 && b.subrange(1, 20)
            == protocol_label() && b.subrange(28, 48) == expected),
{
}

/// Law: every stream message decodes back from its own byte form, to
/// itself, using exactly its whole byte form.
pub proof fn lemma_codec_round_trip(m: MessageModel)
    requires
        wf_model(m),
        !(m is Handshake),
    ensures
        spec_decode(spec_encode(m)) == Ok::<(MessageModel, int), ProtocolError>(
            (m, spec_encode(m).len() as int),
        ),
{
    let b = spec_encode(m);
    match m {
        MessageModel::KeepAlive => {
            lemma_u32_of_be32(0);
            assert(u32_of(b[0], b[1], b[2], b[3]) == 0);
        },
        MessageModel::Choke => {
            lemma_u32_of_be32(1);
            assert(u32_of(b[0], b[1], b[2], b[3]) == 1);
            assert(b[4] == 0);
            assert(b.subrange(5, 5) =~= Seq::<u8>::empty());
        },
        MessageModel::UnChoke => {
            lemma_u32_of_be32(1);
            assert(u32_of(b[0], b[1], b[2], b[3]) == 1);
            assert(b[4] == 1);
            assert(b.subrange(5, 5) =~= Seq::<u8>::empty());
        },
        MessageModel::Interested => {
            lemma_u32_of_be32(1);
            assert(u32_of(b[0], b[1], b[2], b[3]) == 1);
            assert(b[4] == 2);
            assert(b.subrange(5, 5) =~= Seq::<u8>::empty());
        },
        MessageModel::NotInterested => {
            lemma_u32_of_be32(1);
            assert(u32_of(b[0], b[1], b[2], b[3]) == 1);
            assert(b[4] == 3);
            assert(b.subrange(5, 5) =~= Seq::<u8>::empty());
        },
        MessageModel::Have { piece_index } => {
            lemma_u32_of_be32(5);
            assert(u32_of(b[0], b[1], b[2], b[3]) == 5);
            assert(b[4] == 4);
            let p = b.subrange(5, 9);
            assert(p =~= be32(piece_index));
            lemma_u32_of_be32(piece_index);
            assert(u32_of(p[0], p[1], p[2], p[3]) == piece_index);
        },
        MessageModel::Handshake { .. } => {},
        MessageModel::Bitfield { bytes } => {
            let n = (1 + bytes.len()) as u32;
            lemma_u32_of_be32(n);
            assert(u32_of(b[0], b[1], b[2], b[3]) == n);
            assert(b[4] == 5);
            let p = b.subrange(5, 4 + n as int);
            assert(p =~= bytes);
        },
        MessageModel::Request { index, begin, length } => {
            lemma_u32_of_be32(13);
            assert(u32_of(b[0], b[1], b[2], b[3]) == 13);
            assert(b[4] == 6);
            let p = b.subrange(5, 17);
            assert(p =~= be32(index) + be32(begin) + be32(length));
            lemma_u32_of_be32(index);
            lemma_u32_of_be32(begin);
            lemma_u32_of_be32(length);
            assert(u32_of(p[0], p[1], p[2], p[3]) == index);
            assert(u32_of(p[4], p[5], p[6], p[7]) == begin);
            assert(u32_of(p[8], p[9], p[10], p[11]) == length);
        },
        MessageModel::Piece { index, begin, block } => {
            let n = (9 + block.len()) as u32;
            lemma_u32_of_be32(n);
            assert(u32_of(b[0], b[1], b[2], b[3]) == n);
            assert(b[4] == 7);
            let p = b.subrange(5, 4 + n as int);
            assert(p =~= be32(index) + be32(begin) + block);
            lemma_u32_of_be32(index);
            lemma_u32_of_be32(begin);
            assert(u32_of(p[0], p[1], p[2], p[3]) == index);
            assert(u32_of(p[4], p[5], p[6], p[7]) == begin);
            assert(p.subrange(8, p.len() as int) =~= block);
        },
        MessageModel::Cancel { index, begin, length } => {
            lemma_u32_of_be32(13);
            assert(u32_of(b[0], b[1], b[2], b[3]) == 13);
            assert(b[4] == 8);
            let p = b.subrange(5, 17);
            assert(p =~= be32(index) + be32(begin) + be32(length));
            lemma_u32_of_be32(index);
            lemma_u32_of_be32(begin);
            lemma_u32_of_be32(length);
            assert(u32_of(p[0], p[1], p[2], p[3]) == index);
            assert(u32_of(p[4], p[5], p[6], p[7]) == begin);
            assert(u32_of(p[8], p[9], p[10], p[11]) == length);
        },
    }
}

/// Law: a handshake decodes back from its own byte form, to itself, using
/// exactly its 68 bytes.
pub proof fn lemma_handshake_round_trip(m: MessageModel)
    requires
        wf_model(m),
        m is Handshake,
    ensures
        spec_decode_handshake(spec_encode(m)) == Ok::<(MessageModel, int), ProtocolError>((m, 68)),
{
    let b = spec_encode(m);
    match m {
        MessageModel::Handshake { reserved, info_hash, peer_id } => {
            assert(b.len() == 68);
            assert(b[0] == 19);
            assert(b.subrange(1, 20) =~= protocol_label());
            assert(b.subrange(20, 28) =~= reserved);
            assert(b.subrange(28, 48) =~= info_hash);
            assert(b.subrange(48, 68) =~= peer_id);
        },
        _ => {},
    }
}

} // verus!
