use vstd::prelude::*;
use crate::bitfield::Bitfield;
use crate::peer::{Block, ConnState, Peer};
use crate::protocol::bytes_eq;
use crate::arith::{count_matches, lemma_count_from_div, lemma_size_bounds, spec_chunk_len};

verus! {

/// Fixed sub-piece request size: every block but a piece's last one has
/// this length.
pub const BLOCK_SIZE: u32 = 16384;

/// Hash failures a connection may contribute to before it is blacklisted.
pub const FAILURE_THRESHOLD: u32 = 3;

/// Named result: the 20-byte digest that the hash implementation returns
/// for the given bytes — a function of the bytes alone.
pub uninterp spec fn sha1_of(data: Seq<u8>) -> Seq<u8>;

/// Relies on crypto's `Sha1` (`Digest::input`, then `Digest::result`): the
/// 20-byte digest of the input, depending on the input bytes alone.
#[verifier::external_body]
fn sha1_digest(data: &Vec<u8>) -> (r: Vec<u8>)
    ensures
        r@ == sha1_of(data@),
        r@.len() == 20,
{
    let mut hasher = crypto::sha1::Sha1::new();
    crypto::digest::Digest::input(&mut hasher, data.as_slice());
    let mut out = [0u8; 20];
    crypto::digest::Digest::result(&mut hasher, &mut out);
    out.to_vec()
}

/// Per piece: missing, partially assembled, or hash-verified. The only
/// transition out of `Verified` does not exist; `InProgress` falls back to
/// `Missing` on a hash mismatch.
#[derive(Clone, Copy, Debug, PartialEq, Eq, Structural)]
pub enum PieceState {
    Missing,
    InProgress,
    Verified,
}

/// Assembly state of one piece: which blocks are in flight, which have
/// arrived, the bytes so far, and which connections supplied them.
pub struct PieceEntry {
    pub state: PieceState,
    /// Per block: a request for it has been handed to some connection.
    pub requested: Vec<bool>,
    /// Per block: its bytes are in `buf`.
    pub received: Vec<bool>,
    /// The piece bytes assembled so far, zero where nothing arrived yet.
    pub buf: Vec<u8>,
    /// Connection ids that supplied at least one block of this piece.
    pub contributors: Vec<usize>,
}

impl PieceEntry {
    fn blank() -> (r: Self)
        ensures
            r.state == PieceState::Missing,
            r.requested@.len() == 0,
            r.received@.len() == 0,
            r.buf@.len() == 0,
            r.contributors@.len() == 0,
    {
        PieceEntry {
            state: PieceState::Missing,
            requested: Vec::new(),
            received: Vec::new(),
            buf: Vec::new(),
            contributors: Vec::new(),
        }
    }
}

/// What became of one delivered block.
#[derive(Clone, Copy, Debug, PartialEq, Eq, Structural)]
pub enum BlockOutcome {
    /// The coordinates name no block of this download.
    Invalid,
    /// The piece is already verified; the delivery is dropped whole.
    Ignored,
    /// The block was already in the buffer; nothing is counted twice.
    Duplicate,
    /// Stored; the piece still misses blocks.
    Accepted,
    /// Stored, and every block of the piece is now in the buffer.
    Completed,
}

/// Verdict of a piece hash check.
#[derive(Clone, Copy, Debug, PartialEq, Eq, Structural)]
pub enum VerifyOutcome {
    Verified,
    HashMismatch,
}

/// Where the whole download stands.
#[derive(Clone, Copy, Debug, PartialEq, Eq, Structural)]
pub enum DownloadStatus {
    Complete,
    Downloading,
    /// No ready connection is left and no further candidate address is
    /// available: reported, never silently terminated on.
    Stalled,
}

/// Why the supplied metadata was rejected before any connection was made.
#[derive(Clone, Copy, Debug, PartialEq, Eq, Structural)]
pub enum MetadataError {
    ZeroPieceLength,
    BadInfoHashLength,
    /// The hash table length disagrees with the piece count that
    /// `total_length` and `piece_len` dictate.
    HashCountMismatch,
    BadHashLength,
}

/// The download coordinator: the single owner of the canonical local
/// bitfield, the piece ledger and the per-piece assembly buffers.
pub struct Coordinator {
    /// The 20-byte content identifier of this session.
    pub info_hash: Vec<u8>,
    /// Bytes per piece, except the possibly shorter last piece.
    pub piece_len: u32,
    /// Total bytes of the content.
    pub total_length: u32,
    /// One expected 20-byte hash per piece.
    pub hashes: Vec<Vec<u8>>,
    /// The canonical local availability, one bit per piece.
    pub local: Bitfield,
    /// The ledger: one assembly entry per piece.
    pub pieces: Vec<PieceEntry>,
}

/// Size in bytes of piece `i`: the fixed length, except the remainder for
/// the last piece.
pub open spec fn spec_piece_size(total: int, plen: int, i: int) -> int {
    spec_chunk_len(total, plen, i)
}

/// Length of block `bi` within a piece of `sz` bytes.
pub open spec fn spec_block_len(sz: int, bi: int) -> int {
    spec_chunk_len(sz, BLOCK_SIZE as int, bi)
}

/// One piece's ledger entry is sized for that piece: one flag per block
/// and a buffer of the piece's size.
pub open spec fn entry_wf(e: PieceEntry, sz: int) -> bool {
    &&& count_matches(e.requested@.len() as int, sz, BLOCK_SIZE as int)
    &&& e.received@.len() == e.requested@.len()
    &&& e.buf@.len() == sz
}

impl Coordinator {
    pub open spec fn num_pieces(&self) -> int {
        self.hashes@.len() as int
    }

    pub open spec fn spec_piece_size_of(&self, i: int) -> int {
        spec_piece_size(self.total_length as int, self.piece_len as int, i)
    }

    /// The coordinator invariant: the identifier and every hash are 20
    /// bytes, the table length matches the piece count that the sizes
    /// dictate, ledger and bitfield run in step with the table, and a
    /// piece's bit is set exactly when the ledger calls it verified.
    pub open spec fn wf(&self) -> bool {
        &&& self.info_hash@.len() == 20
        &&& self.piece_len >= 1
        &&& count_matches(self.num_pieces(), self.total_length as int, self.piece_len as int)
        &&& self.num_pieces() <= self.total_length
        &&& self.pieces@.len() == self.num_pieces()
        &&& self.local.wf()
        &&& self.local@.len() == self.num_pieces()
        &&& forall|i: int| 0 <= i < self.num_pieces() ==> (#[trigger] self.hashes@[i])@.len()
            == 20
        &&& forall|i: int| 0 <= i < self.num_pieces() ==> entry_wf(
            #[trigger] self.pieces@[i],
            self.spec_piece_size_of(i),
        )
        &&& forall|i: int| 0 <= i < self.num_pieces() ==> ((#[trigger] self.pieces@[i]).state
            == PieceState::Verified) == self.local@[i]
    }

    /// Valid coordinates of a block delivery: a known piece, a begin
    /// offset on a block boundary inside it, and exactly the block's
    /// length.
    pub open spec fn spec_valid_block(&self, index: int, begin: int, len: int) -> bool {
        let sz = self.spec_piece_size_of(index);
        &&& 0 <= index < self.num_pieces()
        &&& begin % (BLOCK_SIZE as int) == 0
        &&& 0 <= begin < sz
        &&& len == spec_block_len(sz, begin / (BLOCK_SIZE as int))
    }

    /// Builds the coordinator after checking the metadata: the piece
    /// length must not be zero, identifier and hashes must be 20 bytes
    /// each, and the hash count must equal the piece count that
    /// `total_length` and `piece_len` dictate — anything else is rejected
    /// here, before any connection exists.
    pub fn new(info_hash: Vec<u8>, hashes: Vec<Vec<u8>>, piece_len: u32, total_length: u32) -> (r:
        Result<Coordinator, MetadataError>)
        ensures
            match r {
                Ok(c) => {
                    &&& c.wf()
                    &&& piece_len >= 1
                    &&& info_hash@.len() == 20
                    &&& count_matches(hashes@.len() as int, total_length as int, piece_len as int)
                    &&& hashes@.len() + 7 <= usize::MAX
                    &&& forall|i: int| 0 <= i < hashes@.len() ==> (#[trigger] hashes@[i])@.len()
                        == 20
                    &&& c.info_hash@ == info_hash@
                    &&& c.piece_len == piece_len
                    &&& c.total_length == total_length
                    &&& c.hashes@ == hashes@
                    &&& forall|i: int| 0 <= i < c.num_pieces() ==> !c.local@[i]
                    &&& forall|i: int| 0 <= i < c.num_pieces()
                        ==> (#[trigger] c.pieces@[i]).state == PieceState::Missing
                            && forall|b: int| 0 <= b < c.pieces@[i].received@.len()
                            ==> !c.pieces@[i].received@[b] && !c.pieces@[i].requested@[b]
                },
                Err(MetadataError::ZeroPieceLength) => piece_len == 0,
                Err(MetadataError::BadInfoHashLength) => piece_len >= 1 && info_hash@.len() != 20,
                Err(MetadataError::HashCountMismatch) => piece_len >= 1 && info_hash@.len() == 20
                    && !(count_matches(hashes@.len() as int, total_length as int, piece_len as int)
                    && hashes@.len() + 7 <= usize::MAX),
                Err(MetadataError::BadHashLength) => piece_len >= 1 && info_hash@.len() == 20
                    && count_matches(hashes@.len() as int, total_length as int, piece_len as int)
                    && hashes@.len() + 7 <= usize::MAX && exists|i: int| 0 <= i < hashes@.len()
                    && (#[trigger] hashes@[i])@.len() != 20,
            },
    {
        if piece_len == 0 {
            return Err(MetadataError::ZeroPieceLength);
        }
        if info_hash.len() != 20 {
            return Err(MetadataError::BadInfoHashLength);
        }
        let t64 = total_length as u64;
        let p64 = piece_len as u64;
        proof {
            lemma_count_from_div(total_length as int, piece_len as int);
        }
        let expected = ((t64 + p64 - 1) / p64) as usize;
        if hashes.len() != expected || hashes.len() > usize::MAX - 7 {
            proof {
                if count_matches(hashes@.len() as int, total_length as int, piece_len as int) {
                    crate::arith::lemma_count_unique(
                        hashes@.len() as int,
                        expected as int,
                        total_length as int,
                        piece_len as int,
                    );
                }
            }
            return Err(MetadataError::HashCountMismatch);
        }
        let n = hashes.len();
        let mut i: usize = 0;
        while i < n
            invariant
                n == hashes@.len(),
                i <= n,
                piece_len >= 1,
                info_hash@.len() == 20,
                n + 7 <= usize::MAX,
                count_matches(n as int, total_length as int, piece_len as int),
                forall|j: int| 0 <= j < i ==> (#[trigger] hashes@[j])@.len() == 20,
            decreases n - i,
        {
            if hashes[i].len() != 20 {
                proof {
                    assert((hashes@[i as int])@.len() != 20);
                }
                return Err(MetadataError::BadHashLength);
            }
            i += 1;
        }
        let ghost tn = total_length as int;
        let ghost pn = piece_len as int;
        let mut pieces: Vec<PieceEntry> = Vec::new();
        let mut k: usize = 0;
        while k < n
            invariant
                n == hashes@.len(),
                k <= n,
                piece_len >= 1,
                tn == total_length as int,
                pn == piece_len as int,
                count_matches(n as int, tn, pn),
                n <= total_length,
                pieces@.len() == k,
                forall|j: int| 0 <= j < k ==> entry_wf(
                    #[trigger] pieces@[j],
                    spec_piece_size(tn, pn, j),
                ),
                forall|j: int| 0 <= j < k ==> (#[trigger] pieces@[j]).state
                    == PieceState::Missing,
                forall|j: int| 0 <= j < k ==> forall|b: int| 0 <= b
                    < (#[trigger] pieces@[j]).received@.len() ==> !pieces@[j].received@[b]
                    && !pieces@[j].requested@[b],
            decreases n - k,
        {
            proof {
                lemma_size_bounds(n as int, tn, pn, k as int);
            }
            let sz = piece_size_at(total_length, piece_len, k);
            let b64 = BLOCK_SIZE as u64;
            let s64 = sz as u64;
            let nb = ((s64 + b64 - 1) / b64) as usize;
            proof {
                lemma_count_from_div(sz as int, BLOCK_SIZE as int);
            }
            let entry = PieceEntry {
                state: PieceState::Missing,
                requested: vec![false; nb],
                received: vec![false; nb],
                buf: vec![0u8; sz as usize],
                contributors: Vec::new(),
            };
            pieces.push(entry);
            k += 1;
        }
        proof {
            lemma_count_from_div(total_length as int, piece_len as int);
        }
        let local = Bitfield::new(n);
        Ok(Coordinator { info_hash, piece_len, total_length, hashes, local, pieces })
    }

    /// Size in bytes of piece `index`.
    pub fn piece_size(&self, index: usize) -> (r: u32)
        requires
            self.wf(),
            index < self.num_pieces(),
        ensures
            r == self.spec_piece_size_of(index as int),
            1 <= r <= self.piece_len,
    {
        proof {
            lemma_size_bounds(
                self.num_pieces(),
                self.total_length as int,
                self.piece_len as int,
                index as int,
            );
        }
        piece_size_at(self.total_length, self.piece_len, index)
    }

    /// Picks the first block of `index` that is neither in flight nor
    /// received, marks it in flight, and hands it back; nothing is left to
    /// request when the result is empty. The same block is never handed
    /// out twice while it stays in flight.
    pub fn assign_next_block(&mut self, index: usize) -> (r: Option<Block>)
        requires
            old(self).wf(),
            index < old(self).num_pieces(),
        ensures
            final(self).wf(),
            final(self).info_hash == old(self).info_hash,
            final(self).piece_len == old(self).piece_len,
            final(self).total_length == old(self).total_length,
            final(self).hashes == old(self).hashes,
            final(self).local == old(self).local,
            match r {
                None => {
                    &&& *final(self) == *old(self)
                    &&& forall|b: int| 0 <= b < old(self).pieces@[index as int].requested@.len()
                        ==> (#[trigger] old(self).pieces@[index as int].requested@[b]) || old(self).pieces@[index as int].received@[b]
                },
                Some(blk) => {
                    let bi = blk.begin as int / (BLOCK_SIZE as int);
                    &&& blk.index == index
                    &&& blk.begin as int % (BLOCK_SIZE as int) == 0
                    &&& 0 <= bi < old(self).pieces@[index as int].requested@.len()
                    &&& !old(self).pieces@[index as int].requested@[bi]
                    &&& !old(self).pieces@[index as int].received@[bi]
                    &&& blk.length as int == spec_block_len(
                        old(self).spec_piece_size_of(index as int),
                        bi,
                    )
                    &&& final(self).pieces@.len() == old(self).pieces@.len()
                    &&& forall|j: int| 0 <= j < old(self).pieces@.len() && j != index
                        ==> #[trigger] final(self).pieces@[j] == old(self).pieces@[j]
                    &&& final(self).pieces@[index as int].requested@ == old(self).pieces@[index as int].requested@.update(bi, true)
                    &&& final(self).pieces@[index as int].received == old(self).pieces@[index as int].received
                    &&& final(self).pieces@[index as int].buf == old(self).pieces@[index as int].buf
                    &&& final(self).pieces@[index as int].state == old(self).pieces@[index as int].state
                    &&& final(self).pieces@[index as int].contributors == old(self).pieces@[index as int].contributors
                },
            },
    {
        let nb = self.pieces[index].requested.len();
        let ghost sz = self.spec_piece_size_of(index as int);
        let mut bi: usize = 0;
        while bi < nb
            invariant
                *self == *old(self),
                old(self).wf(),
                index < old(self).num_pieces(),
                sz == old(self).spec_piece_size_of(index as int),
                count_matches(nb as int, sz, BLOCK_SIZE as int),
                nb == self.pieces@[index as int].requested@.len(),
                nb == self.pieces@[index as int].received@.len(),
                bi <= nb,
                forall|b: int| 0 <= b < bi ==> (#[trigger] self.pieces@[
                    index as int
                ].requested@[b]) || self.pieces@[index as int].received@[b],
            decreases nb - bi,
        {
            if !self.pieces[index].requested[bi] && !self.pieces[index].received[bi] {
                proof {
                    lemma_size_bounds(
                        self.num_pieces(),
                        self.total_length as int,
                        self.piece_len as int,
                        index as int,
                    );
                    lemma_size_bounds(nb as int, sz, BLOCK_SIZE as int, bi as int);
                }
                let begin = (bi as u32) * BLOCK_SIZE;
                let sz_exec = self.piece_size(index);
                let remaining = sz_exec - begin;
                let length = if remaining >= BLOCK_SIZE {
                    BLOCK_SIZE
                } else {
                    remaining
                };
                proof {
                    assert((bi as int + 1) * (BLOCK_SIZE as int) == bi as int * (
                    BLOCK_SIZE as int) + BLOCK_SIZE as int) by (nonlinear_arith);
                }
                let mut entry = PieceEntry::blank();
                core::mem::swap(&mut entry, &mut self.pieces[index]);
                entry.requested[bi] = true;
                let ghost new_entry = entry;
                self.pieces[index] = entry;
                proof {
                    assert(self.pieces@ =~= old(self).pieces@.update(index as int, new_entry));
                    assert((bi * BLOCK_SIZE as int) / (BLOCK_SIZE as int) == bi as int)
                        by (nonlinear_arith)
                        requires
                            BLOCK_SIZE as int >= 1,
                            bi >= 0,
                    ;
                    assert((bi * BLOCK_SIZE as int) % (BLOCK_SIZE as int) == 0)
                        by (nonlinear_arith)
                        requires
                            BLOCK_SIZE as int >= 1,
                            bi >= 0,
                    ;
                }
                return Some(Block { index: index as u32, begin, length });
            }
            bi += 1;
        }
        None
    }

    /// Frees the in-flight mark of a voided request — one cleared by a
    /// choke or a cancel — so the block can be assigned again; a block
    /// already received keeps its state.
    pub fn release_block(&mut self, blk: Block)
        requires
            old(self).wf(),
        ensures
            final(self).wf(),
            final(self).info_hash == old(self).info_hash,
            final(self).piece_len == old(self).piece_len,
            final(self).total_length == old(self).total_length,
            final(self).hashes == old(self).hashes,
            final(self).local == old(self).local,
            ({
                let i = blk.index as int;
                let bi = blk.begin as int / (BLOCK_SIZE as int);
                if 0 <= i < old(self).num_pieces() && blk.begin as int % (BLOCK_SIZE as int) == 0
                    && 0 <= bi < old(self).pieces@[i].requested@.len() && !old(self).pieces@[i].received@[bi] {
                    &&& final(self).pieces@.len() == old(self).pieces@.len()
                    &&& forall|j: int| 0 <= j < old(self).pieces@.len() && j != i
                        ==> #[trigger] final(self).pieces@[j] == old(self).pieces@[j]
                    &&& final(self).pieces@[i].requested@ == old(self).pieces@[i].requested@.update(
                        bi,
                        false,
                    )
                    &&& final(self).pieces@[i].received == old(self).pieces@[i].received
                    &&& final(self).pieces@[i].buf == old(self).pieces@[i].buf
                    &&& final(self).pieces@[i].state == old(self).pieces@[i].state
                    &&& final(self).pieces@[i].contributors == old(self).pieces@[i].contributors
                } else {
                    *final(self) == *old(self)
                }
            }),
    {
        let i = blk.index as usize;
        if i >= self.pieces.len() {
            return ;
        }
        if blk.begin % BLOCK_SIZE != 0 {
            return ;
        }
        let bi = (blk.begin / BLOCK_SIZE) as usize;
        if bi >= self.pieces[i].requested.len() {
            return ;
        }
        if self.pieces[i].received[bi] {
            return ;
        }
        let mut entry = PieceEntry::blank();
        core::mem::swap(&mut entry, &mut self.pieces[i]);
        entry.requested[bi] = false;
        let ghost new_entry = entry;
        self.pieces[i] = entry;
        proof {
            assert(self.pieces@ =~= old(self).pieces@.update(i as int, new_entry));
        }
    }

    /// Download complete: every piece's bit is set.
    pub fn is_complete(&self) -> (r: bool)
        requires
            self.wf(),
        ensures
            r == (forall|i: int| 0 <= i < self.local@.len() ==> self.local@[i]),
    {
        self.local.all()
    }

    /// Where the download stands: complete once the bitfield is full;
    /// stalled — reported, not aborted — when no ready connection remains
    /// and no further candidate address is available.
    pub fn status(&self, ready_connections: usize, more_candidates: bool) -> (r: DownloadStatus)
        requires
            self.wf(),
        ensures
            r == (if forall|i: int| 0 <= i < self.local@.len() ==> self.local@[i] {
                DownloadStatus::Complete
            } else if ready_connections == 0 && !more_candidates {
                DownloadStatus::Stalled
            } else {
                DownloadStatus::Downloading
            }),
    {
        if self.is_complete() {
            DownloadStatus::Complete
        } else if ready_connections == 0 && !more_candidates {
            DownloadStatus::Stalled
        } else {
            DownloadStatus::Downloading
        }
    }

    /// Takes one delivered block. A delivery with coordinates that name no
    /// block of this download is rejected; one for a piece already
    /// verified is ignored whole; one for a block already in the buffer
    /// changes nothing and is never counted twice; otherwise the bytes go
    /// into the piece buffer at their offset, the supplier is recorded,
    /// and the result says whether the piece is now fully buffered.
    pub fn on_block(&mut self, peer: usize, index: u32, begin: u32, data: &[u8]) -> (r:
        BlockOutcome)
        requires
            old(self).wf(),
        ensures
            final(self).wf(),
            final(self).info_hash == old(self).info_hash,
            final(self).piece_len == old(self).piece_len,
            final(self).total_length == old(self).total_length,
            final(self).hashes == old(self).hashes,
            final(self).local == old(self).local,
            final(self).pieces@.len() == old(self).pieces@.len(),
            ({
                let i = index as int;
                let bg = begin as int;
                let bi = bg / (BLOCK_SIZE as int);
                let valid = old(self).spec_valid_block(i, bg, data@.len() as int);
                match r {
                    BlockOutcome::Invalid => !valid && *final(self) == *old(self),
                    BlockOutcome::Ignored => valid && old(self).pieces@[i].state
                        == PieceState::Verified && *final(self) == *old(self),
                    BlockOutcome::Duplicate => valid && old(self).pieces@[i].state
                        != PieceState::Verified && old(self).pieces@[i].received@[bi] && *final(self) == *old(self),
                    _ => {
                        &&& (r == BlockOutcome::Accepted || r == BlockOutcome::Completed)
                        &&& valid
                        &&& old(self).pieces@[i].state != PieceState::Verified
                        &&& !old(self).pieces@[i].received@[bi]
                        &&& forall|j: int| 0 <= j < old(self).pieces@.len() && j != i
                            ==> #[trigger] final(self).pieces@[j] == old(self).pieces@[j]
                        &&& final(self).pieces@[i].state == PieceState::InProgress
                        &&& final(self).pieces@[i].received@ == old(self).pieces@[i].received@.update(bi, true)
                        &&& final(self).pieces@[i].requested == old(self).pieces@[i].requested
                        &&& final(self).pieces@[i].buf@.len() == old(self).pieces@[i].buf@.len()
                        &&& forall|k: int| 0 <= k < final(self).pieces@[i].buf@.len()
                            ==> #[trigger] final(self).pieces@[i].buf@[k] == (if bg <= k < bg
                                + data@.len() {
                                data@[k - bg]
                            } else {
                                old(self).pieces@[i].buf@[k]
                            })
                        &&& final(self).pieces@[i].contributors@ == (if old(self).pieces@[i].contributors@.contains(peer) {
                            old(self).pieces@[i].contributors@
                        } else {
                            old(self).pieces@[i].contributors@.push(peer)
                        })
                        &&& ((r == BlockOutcome::Completed) <==> (forall|b2: int| 0 <= b2
                            < final(self).pieces@[i].received@.len() ==> final(self).pieces@[i].received@[b2]))
                    },
                }
            }),
    {
        let i = index as usize;
        if i >= self.pieces.len() {
            return BlockOutcome::Invalid;
        }
        if begin % BLOCK_SIZE != 0 {
            return BlockOutcome::Invalid;
        }
        let bi = (begin / BLOCK_SIZE) as usize;
        let nb = self.pieces[i].received.len();
        let ghost sz = self.spec_piece_size_of(i as int);
        proof {
            lemma_size_bounds(
                self.num_pieces(),
                self.total_length as int,
                self.piece_len as int,
                i as int,
            );
            crate::arith::lemma_chunk_index(nb as int, sz, BLOCK_SIZE as int, bi as int);
            vstd::arithmetic::div_mod::lemma_fundamental_div_mod(begin as int, BLOCK_SIZE as int);
        }
        if bi >= nb {
            return BlockOutcome::Invalid;
        }
        proof {
            lemma_size_bounds(nb as int, sz, BLOCK_SIZE as int, bi as int);
        }
        let sz_exec = self.piece_size(i);
        let remaining = sz_exec - begin;
        let blen = if remaining >= BLOCK_SIZE {
            BLOCK_SIZE
        } else {
            remaining
        };
        proof {
            assert((bi as int + 1) * (BLOCK_SIZE as int) == bi as int * (BLOCK_SIZE as int)
                + BLOCK_SIZE as int) by (nonlinear_arith);
        }
        if data.len() != blen as usize {
            return BlockOutcome::Invalid;
        }
        if matches!(self.pieces[i].state, PieceState::Verified) {
            return BlockOutcome::Ignored;
        }
        if self.pieces[i].received[bi] {
            return BlockOutcome::Duplicate;
        }
        let mut entry = PieceEntry::blank();
        core::mem::swap(&mut entry, &mut self.pieces[i]);
        entry.state = PieceState::InProgress;
        let bg_us = begin as usize;
        let mut k: usize = 0;
        while k < data.len()
            invariant
                old(self).wf(),
                i < old(self).num_pieces(),
                entry.state == PieceState::InProgress,
                entry.received@ == old(self).pieces@[i as int].received@,
                entry.requested == old(self).pieces@[i as int].requested,
                entry.contributors@ == old(self).pieces@[i as int].contributors@,
                nb == entry.received@.len(),
                bi < nb,
                0 <= sz <= u32::MAX,
                entry.buf@.len() == sz,
                bg_us + data@.len() <= sz,
                k <= data@.len(),
                forall|m: int| 0 <= m < entry.buf@.len() ==> #[trigger] entry.buf@[m] == (
                if bg_us <= m < bg_us + k {
                    data@[m - bg_us]
                } else {
                    old(self).pieces@[i as int].buf@[m]
                }),
            decreases data@.len() - k,
        {
            entry.buf[bg_us + k] = data[k];
            k += 1;
        }
        entry.received[bi] = true;
        let mut found = false;
        let nc = entry.contributors.len();
        let mut ci: usize = 0;
        while ci < nc
            invariant
                nc == entry.contributors@.len(),
                ci <= nc,
                found == exists|j: int| 0 <= j < ci && entry.contributors@[j] == peer,
            decreases nc - ci,
        {
            if entry.contributors[ci] == peer {
                found = true;
            }
            ci += 1;
        }
        proof {
            if found {
                assert(entry.contributors@.contains(peer));
            } else {
                if entry.contributors@.contains(peer) {
                    let j = choose|j: int| 0 <= j < entry.contributors@.len()
                        && entry.contributors@[j] == peer;
                    assert(false);
                }
            }
        }
        if !found {
            entry.contributors.push(peer);
        }
        let nb2 = entry.received.len();
        let mut complete = true;
        let mut b2: usize = 0;
        while b2 < nb2
            invariant
                nb2 == entry.received@.len(),
                b2 <= nb2,
                complete == (forall|j: int| 0 <= j < b2 ==> entry.received@[j]),
            decreases nb2 - b2,
        {
            if !entry.received[b2] {
                complete = false;
            }
            b2 += 1;
        }
        let ghost new_entry = entry;
        self.pieces[i] = entry;
        proof {
            assert(self.pieces@ =~= old(self).pieces@.update(i as int, new_entry));
        }
        if complete {
            BlockOutcome::Completed
        } else {
            BlockOutcome::Accepted
        }
    }

    /// Hashes the fully buffered piece and compares against its expected
    /// entry. On a match the piece becomes verified — once and for all —
    /// and its bit is set, so the caller writes the piece to the sink and
    /// broadcasts one have message per ready connection, exactly once. On
    /// a mismatch the piece rolls back to missing, its buffer and ledger
    /// marks are discarded, and the connections that supplied blocks are
    /// handed back so their failure counters can be raised.
    pub fn verify_piece(&mut self, index: usize) -> (r: (VerifyOutcome, Vec<usize>))
        requires
            old(self).wf(),
            index < old(self).num_pieces(),
            old(self).pieces@[index as int].state == PieceState::InProgress,
            forall|b: int| 0 <= b < old(self).pieces@[index as int].received@.len() ==> old(self).pieces@[index as int].received@[b],
        ensures
            final(self).wf(),
            final(self).info_hash == old(self).info_hash,
            final(self).piece_len == old(self).piece_len,
            final(self).total_length == old(self).total_length,
            final(self).hashes == old(self).hashes,
            final(self).pieces@.len() == old(self).pieces@.len(),
            forall|j: int| 0 <= j < old(self).pieces@.len() && j != index as int
                ==> #[trigger] final(self).pieces@[j] == old(self).pieces@[j],
            r.1@ == old(self).pieces@[index as int].contributors@,
            final(self).pieces@[index as int].contributors@.len() == 0,
            ({
                let i = index as int;
                let matched = sha1_of(old(self).pieces@[i].buf@) == old(self).hashes@[i]@;
                &&& ((r.0 == VerifyOutcome::Verified) <==> matched)
                &&& matched ==> {
                    &&& final(self).pieces@[i].state == PieceState::Verified
                    &&& final(self).pieces@[i].buf == old(self).pieces@[i].buf
                    &&& final(self).pieces@[i].received == old(self).pieces@[i].received
                    &&& final(self).pieces@[i].requested == old(self).pieces@[i].requested
                    &&& final(self).local@ == old(self).local@.update(i, true)
                }
                &&& !matched ==> {
                    &&& final(self).pieces@[i].state == PieceState::Missing
                    &&& final(self).local == old(self).local
                    &&& final(self).pieces@[i].received@.len() == old(self).pieces@[i].received@.len()
                    &&& forall|b: int| 0 <= b < final(self).pieces@[i].received@.len()
                        ==> !final(self).pieces@[i].received@[b] && !final(self).pieces@[i].requested@[b]
                    &&& final(self).pieces@[i].requested@.len() == old(self).pieces@[i].requested@.len()
                    &&& final(self).pieces@[i].buf@.len() == old(self).pieces@[i].buf@.len()
                    &&& forall|k: int| 0 <= k < final(self).pieces@[i].buf@.len() ==> final(self).pieces@[i].buf@[k] == 0
                }
            }),
    {
        let digest = sha1_digest(&self.pieces[index].buf);
        let ok = bytes_eq(digest.as_slice(), self.hashes[index].as_slice());
        let mut entry = PieceEntry::blank();
        core::mem::swap(&mut entry, &mut self.pieces[index]);
        let mut contributors: Vec<usize> = Vec::new();
        core::mem::swap(&mut contributors, &mut entry.contributors);
        if ok {
            entry.state = PieceState::Verified;
            let ghost new_entry = entry;
            self.pieces[index] = entry;
            self.local.set(index);
            proof {
                assert(self.pieces@ =~= old(self).pieces@.update(index as int, new_entry));
            }
            (VerifyOutcome::Verified, contributors)
        } else {
            let nb = entry.received.len();
            let szl = entry.buf.len();
            entry.state = PieceState::Missing;
            entry.received = vec![false; nb];
            entry.requested = vec![false; nb];
            entry.buf = vec![0u8; szl];
            let ghost new_entry = entry;
            self.pieces[index] = entry;
            proof {
                assert(self.pieces@ =~= old(self).pieces@.update(index as int, new_entry));
            }
            (VerifyOutcome::HashMismatch, contributors)
        }
    }

    /// A piece worth requesting: not yet verified and advertised by at
    /// least one ready, unchoking connection.
    pub open spec fn spec_candidate(&self, counts: Seq<u32>, j: int) -> bool {
        &&& 0 <= j < self.num_pieces()
        &&& self.pieces@[j].state != PieceState::Verified
        &&& counts[j] > 0
    }

    /// Rarest first: among the pieces still wanted and held by someone,
    /// the one with the fewest holders, ties broken by the lowest index.
    pub fn select_piece(&self, counts: &Vec<u32>) -> (r: Option<usize>)
        requires
            self.wf(),
            counts@.len() == self.num_pieces(),
        ensures
            match r {
                Some(i) => self.spec_candidate(counts@, i as int) && forall|j: int|
                    #[trigger] self.spec_candidate(counts@, j) ==> counts@[i as int] < counts@[j]
                    || (counts@[i as int] == counts@[j] && i <= j),
                None => forall|j: int| !(#[trigger] self.spec_candidate(counts@, j)),
            },
    {
        let n = self.pieces.len();
        let mut best: Option<usize> = None;
        let mut j: usize = 0;
        while j < n
            invariant
                self.wf(),
                counts@.len() == self.num_pieces(),
                n == self.num_pieces(),
                j <= n,
                match best {
                    None => forall|m: int| 0 <= m < j ==> !(#[trigger] self.spec_candidate(
                        counts@,
                        m,
                    )),
                    Some(b) => self.spec_candidate(counts@, b as int) && b < j && forall|m: int|
                        0 <= m < j && #[trigger] self.spec_candidate(counts@, m)
                        ==> counts@[b as int] < counts@[m] || (counts@[b as int] == counts@[m]
                        && b <= m),
                },
            decreases n - j,
        {
            let verified = matches!(self.pieces[j].state, PieceState::Verified);
            if !verified && counts[j] > 0 {
                match best {
                    None => {
                        best = Some(j);
                    },
                    Some(b) => {
                        if counts[j] < counts[b] {
                            best = Some(j);
                        }
                    },
                }
            }
            j += 1;
        }
        best
    }

}

/// Law: in a well-formed coordinator the canonical bitfield and the piece
/// ledger never disagree — a piece's bit is set exactly when its entry is
/// verified, so completion of the bitfield is verification of every piece.
pub proof fn lemma_bitfield_tracks_ledger(c: Coordinator)
    requires
        c.wf(),
    ensures
        forall|i: int| 0 <= i < c.num_pieces() ==> (c.local@[i] == ((#[trigger] c.pieces@[
        i]).state == PieceState::Verified)),
{
}

/// A connection that can serve piece `i` right now: ready, not choking
/// us, and advertising the piece.
pub open spec fn peer_offers(p: Peer, i: int) -> bool {
    &&& p.state == ConnState::Ready
    &&& !p.remote_stats.chocked
    &&& 0 <= i < p.bitfield@.len()
    &&& p.bitfield@[i]
}

/// How many of the given connections can serve piece `i`.
pub open spec fn spec_holder_count(peers: Seq<Peer>, i: int) -> int
    decreases peers.len(),
{
    if peers.len() == 0 {
        0
    } else {
        spec_holder_count(peers.drop_last(), i) + (if peer_offers(peers.last(), i) {
            1int
        } else {
            0int
        })
    }
}

proof fn lemma_holder_count_bound(peers: Seq<Peer>, i: int)
    ensures
        0 <= spec_holder_count(peers, i) <= peers.len(),
    decreases peers.len(),
{
    if peers.len() > 0 {
        lemma_holder_count_bound(peers.drop_last(), i);
    }
}

/// Counts the connections that can serve piece `piece` right now.
pub fn count_holders(peers: &Vec<Peer>, piece: usize) -> (r: u32)
    requires
        peers@.len() <= u32::MAX,
        forall|k: int| 0 <= k < peers@.len() ==> (#[trigger] peers@[k]).wf(),
    ensures
        r == spec_holder_count(peers@, piece as int),
{
    let n = peers.len();
    let mut c: u32 = 0;
    let mut k: usize = 0;
    while k < n
        invariant
            n == peers@.len(),
            n <= u32::MAX,
            forall|m: int| 0 <= m < n ==> (#[trigger] peers@[m]).wf(),
            k <= n,
            c == spec_holder_count(peers@.subrange(0, k as int), piece as int),
            c <= k,
        decreases n - k,
    {
        proof {
            lemma_holder_count_bound(peers@.subrange(0, k as int), piece as int);
            assert(peers@.subrange(0, k + 1).drop_last() =~= peers@.subrange(0, k as int));
            assert(peers@.subrange(0, k + 1).last() == peers@[k as int]);
        }
        let p = &peers[k];
        let offers = match p.state {
            ConnState::Ready => !p.remote_stats.chocked && piece < p.bitfield.num_bits()
                && p.bitfield.get(piece),
            _ => false,
        };
        if offers {
            c = c + 1;
        }
        k += 1;
    }
    proof {
        assert(peers@.subrange(0, n as int) =~= peers@);
    }
    c
}

/// One holder count per piece, for the rarest-first choice.
pub fn holder_counts(peers: &Vec<Peer>, num_pieces: usize) -> (r: Vec<u32>)
    requires
        peers@.len() <= u32::MAX,
        forall|k: int| 0 <= k < peers@.len() ==> (#[trigger] peers@[k]).wf(),
    ensures
        r@.len() == num_pieces,
        forall|i: int| 0 <= i < num_pieces ==> #[trigger] r@[i] == spec_holder_count(peers@, i),
{
    let mut counts: Vec<u32> = Vec::new();
    let mut i: usize = 0;
    while i < num_pieces
        invariant
            peers@.len() <= u32::MAX,
            forall|k: int| 0 <= k < peers@.len() ==> (#[trigger] peers@[k]).wf(),
            i <= num_pieces,
            counts@.len() == i,
            forall|j: int| 0 <= j < i ==> #[trigger] counts@[j] == spec_holder_count(peers@, j),
        decreases num_pieces - i,
    {
        let c = count_holders(peers, i);
        counts.push(c);
        i += 1;
    }
    counts
}

/// Raises the failure counter of every connection that supplied a block
/// of a piece whose hash check failed; counters saturate, and an id with
/// no counter slot is ignored.
pub fn note_hash_failures(counters: &mut Vec<u32>, contributors: &Vec<usize>)
    requires
        contributors@.no_duplicates(),
    ensures
        final(counters)@.len() == old(counters)@.len(),
        forall|k: int| 0 <= k < old(counters)@.len() ==> #[trigger] final(counters)@[k] == (
        if contributors@.contains(k as usize) && old(counters)@[k] < u32::MAX {
            (old(counters)@[k] + 1) as u32
        } else {
            old(counters)@[k]
        }),
{
    let n = contributors.len();
    let mut ci: usize = 0;
    while ci < n
        invariant
            contributors@.no_duplicates(),
            n == contributors@.len(),
            ci <= n,
            counters@.len() == old(counters)@.len(),
            forall|k: int| 0 <= k < old(counters)@.len() ==> #[trigger] counters@[k] == (
            if contributors@.subrange(0, ci as int).contains(k as usize) && old(
                counters,
            )@[k] < u32::MAX {
                (old(counters)@[k] + 1) as u32
            } else {
                old(counters)@[k]
            }),
        decreases n - ci,
    {
        let c = contributors[ci];
        proof {
            let pre = contributors@.subrange(0, ci as int);
            let post = contributors@.subrange(0, ci + 1);
            assert(post =~= pre.push(contributors@[ci as int]));
            assert forall|x: usize| #[trigger] post.contains(x) == (pre.contains(x) || x
                == contributors@[ci as int]) by {
                if post.contains(x) {
                    let j = choose|j: int| 0 <= j < post.len() && post[j] == x;
                    if j < ci {
                        assert(pre[j] == x);
                        assert(pre.contains(x));
                    }
                }
                if pre.contains(x) {
                    let j = choose|j: int| 0 <= j < pre.len() && pre[j] == x;
                    assert(post[j] == x);
                    assert(post.contains(x));
                }
                if x == contributors@[ci as int] {
                    assert(post[ci as int] == x);
                    assert(post.contains(x));
                }
            }
            if pre.contains(c) {
                let j = choose|j: int| 0 <= j < pre.len() && pre[j] == c;
                assert(contributors@[j] == contributors@[ci as int]);
                assert(false);
            }
        }
        if c < counters.len() {
            if counters[c] < u32::MAX {
                let v = counters[c];
                counters[c] = v + 1;
            }
        }
        ci += 1;
    }
    proof {
        assert(contributors@.subrange(0, n as int) =~= contributors@);
    }
}

/// The blacklist rule: a connection leaves the session for good once its
/// failure counter passes the threshold.
pub fn should_blacklist(failures: u32) -> (r: bool)
    ensures
        r == (failures > FAILURE_THRESHOLD),
{
    failures > FAILURE_THRESHOLD
}

/// Size of chunk `index` when `total` bytes fall into chunks of `plen`;
/// exec twin of `spec_chunk_len`, shared by piece and block sizing.
fn piece_size_at(total: u32, plen: u32, index: usize) -> (r: u32)
    requires
        plen >= 1,
        (index as int) * (plen as int) < total as int,
    ensures
        r == spec_chunk_len(total as int, plen as int, index as int),
        1 <= r <= plen,
{
    let t64 = total as u64;
    let p64 = plen as u64;
    let i64 = index as u64;
    proof {
        assert(i64 * p64 == (index as int) * (plen as int)) by (nonlinear_arith)
            requires
                i64 == index as int,
                p64 == plen as int,
        ;
        assert(i64 <= i64 * p64) by (nonlinear_arith)
            requires
                p64 >= 1,
                i64 >= 0,
        ;
        assert((i64 + 1) * p64 == i64 * p64 + p64) by (nonlinear_arith);
    }
    if (i64 + 1) * p64 <= t64 {
        plen
    } else {
        (t64 - i64 * p64) as u32
    }
}

} // verus!
