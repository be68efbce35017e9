use vstd::prelude::*;
use crate::arith::count_matches;
use crate::coordinator::{Coordinator, MetadataError};

verus! {

/// The metadata the external description collaborator supplies: where to
/// announce, the content identifier, the piece sizes, and the flat table
/// of 20-byte piece hashes.
pub struct Info {
    /// Tracker request location, kept as plain text.
    pub announce: String,
    /// The 20-byte content identifier.
    pub info_hash: Vec<u8>,
    /// Bytes per piece.
    pub piece_len: u32,
    /// The 20-byte hash entries, one per piece, laid end to end.
    pub pieces: Vec<u8>,
    /// Total content size in bytes.
    pub total_length: u32,
    /// Content name, kept as plain text.
    pub name: String,
}

/// Splits the flat hash table into its 20-byte entries; a table whose
/// length is no multiple of 20 names no piece count and is rejected.
pub fn split_piece_hashes(pieces: &[u8]) -> (r: Result<Vec<Vec<u8>>, MetadataError>)
    ensures
        match r {
            Ok(v) => {
                &&& pieces@.len() % 20 == 0
                &&& v@.len() == pieces@.len() / 20
                &&& forall|k: int| 0 <= k < v@.len() ==> (#[trigger] v@[k])@ == pieces@.subrange(
                    20 * k,
                    20 * k + 20,
                )
            },
            Err(e) => e == MetadataError::BadHashLength && pieces@.len() % 20 != 0,
        },
{
    let n = pieces.len();
    if n % 20 != 0 {
        return Err(MetadataError::BadHashLength);
    }
    let cnt = n / 20;
    let mut out: Vec<Vec<u8>> = Vec::new();
    let mut k: usize = 0;
    while k < cnt
        invariant
            n == pieces@.len(),
            n % 20 == 0,
            cnt == n / 20,
            k <= cnt,
            out@.len() == k,
            forall|j: int| 0 <= j < k ==> (#[trigger] out@[j])@ == pieces@.subrange(
                20 * j,
                20 * j + 20,
            ),
        decreases cnt - k,
    {
        let entry = vstd::slice::slice_to_vec(
            vstd::slice::slice_subrange(pieces, 20 * k, 20 * k + 20),
        );
        out.push(entry);
        k += 1;
    }
    Ok(out)
}

impl Info {
    /// Builds the download coordinator from this metadata, rejecting it —
    /// before any connection is made — when the piece length is zero, the
    /// identifier is not 20 bytes, the hash table is no whole number of
    /// 20-byte entries, or its entry count disagrees with the piece count
    /// that `total_length` and `piece_len` dictate.
    pub fn coordinator(&self) -> (r: Result<Coordinator, MetadataError>)
        ensures
            r is Ok <==> (self.piece_len >= 1 && self.info_hash@.len() == 20 && self.pieces@.len()
                % 20 == 0 && count_matches(
                self.pieces@.len() as int / 20,
                self.total_length as int,
                self.piece_len as int,
            ) && self.pieces@.len() / 20 + 7 <= usize::MAX),
            r matches Ok(c) ==> {
                &&& c.wf()
                &&& c.info_hash@ == self.info_hash@
                &&& c.piece_len == self.piece_len
                &&& c.total_length == self.total_length
                &&& c.hashes@.len() == self.pieces@.len() / 20
                &&& forall|k: int| 0 <= k < c.hashes@.len() ==> (#[trigger] c.hashes@[k])@
                    == self.pieces@.subrange(20 * k, 20 * k + 20)
                &&& forall|i: int| 0 <= i < c.num_pieces() ==> !c.local@[i]
            },
    {
        let hashes = match split_piece_hashes(self.pieces.as_slice()) {
            Ok(v) => v,
            Err(e) => {
                return Err(e);
            },
        };
        proof {
            assert(hashes@.len() as int == self.pieces@.len() as int / 20);
            assert forall|k: int| 0 <= k < hashes@.len() implies (#[trigger] hashes@[k])@.len()
                == 20 by {
                assert(hashes@[k]@ == self.pieces@.subrange(20 * k, 20 * k + 20));
            }
        }
        let ih = vstd::slice::slice_to_vec(self.info_hash.as_slice());
        match Coordinator::new(ih, hashes, self.piece_len, self.total_length) {
            Ok(c) => Ok(c),
            Err(e) => Err(e),
        }
    }
}

} // verus!
