use vstd::prelude::*;

verus! {

/// How a byte is read on the wire: bit `k` of a byte is its `k`-th most
/// significant bit, so bit 0 is the highest-order bit of the byte.
pub open spec fn byte_bit(b: u8, k: int) -> bool
    recommends
        0 <= k < 8,
{
    (b >> (7 - k) as u8) & 1u8 == 1u8
}

/// Number of bytes needed to hold `n` bits.
pub fn blocks_for_nbits(n: usize) -> (r: usize)
    requires
        n <= usize::MAX - 7,
    ensures
        r == (n + 7) / 8,
{
    (n + 7) / 8
}

/// Fixed-size bit vector recording, per piece index, whether a piece is
/// available. Bit `i` lives in byte `i / 8` and is addressed most
/// significant bit first within that byte, matching the wire convention
/// for bitfield and have messages.
pub struct Bitfield {
    pub bits: Vec<u8>,
    pub num_bits: usize,
}

impl View for Bitfield {
    type V = Seq<bool>;

    open spec fn view(&self) -> Seq<bool> {
        Seq::new(self.num_bits as nat, |i: int| byte_bit(self.bits@[i / 8], i % 8))
    }
}

proof fn lemma_zero_byte_bits()
    ensures
        forall|s: u8| (0u8 >> s) & 1u8 == 0u8,
        forall|m: u8| 0u8 & m == 0u8,
{
    assert(forall|s: u8| (0u8 >> s) & 1u8 == 0u8) by (bit_vector);
    assert(forall|m: u8| 0u8 & m == 0u8) by (bit_vector);
}

proof fn lemma_set_bit_effect(b: u8, off: u8, k: u8)
    by (bit_vector)
    requires
        off < 8,
        k < 8,
    ensures
        ((b | (0x80u8 >> off)) >> (7 - k) as u8) & 1u8 == (if k == off {
            1u8
        } else {
            (b >> (7 - k) as u8) & 1u8
        }),
{
}

proof fn lemma_set_keeps_pad(b: u8, off: u8, m: u8)
    by (bit_vector)
    requires
        off < m,
        m < 8,
        b & (0xffu8 >> m) == 0,
    ensures
        (b | (0x80u8 >> off)) & (0xffu8 >> m) == 0,
{
}

proof fn lemma_get_bit(b: u8, off: u8)
    by (bit_vector)
    requires
        off < 8,
    ensures
        (b & (0x80u8 >> off) != 0) == ((b >> (7 - off) as u8) & 1u8 == 1u8),
{
}

proof fn lemma_byte_from_bits(x: u8, y: u8)
    by (bit_vector)
    requires
        byte_bit(x, 0) == byte_bit(y, 0),
        byte_bit(x, 1) == byte_bit(y, 1),
        byte_bit(x, 2) == byte_bit(y, 2),
        byte_bit(x, 3) == byte_bit(y, 3),
        byte_bit(x, 4) == byte_bit(y, 4),
        byte_bit(x, 5) == byte_bit(y, 5),
        byte_bit(x, 6) == byte_bit(y, 6),
        byte_bit(x, 7) == byte_bit(y, 7),
    ensures
        x == y,
{
}

impl Bitfield {
    /// The stored bytes exactly cover the bit range, the byte count leaves
    /// room for the one-byte message id under the wire's u32 length prefix,
    /// and the pad bits past `num_bits` in the last byte are all clear.
    pub open spec fn wf(&self) -> bool {
        &&& self.bits@.len() == (self.num_bits + 7) / 8
        &&& self.bits@.len() + 1 <= u32::MAX
        &&& (self.num_bits % 8 == 0 || self.bits@[self.bits@.len() - 1] & (0xffu8 >> (
        self.num_bits % 8) as u8) == 0)
    }

    /// The raw byte form, as it is sent in a bitfield message.
    pub open spec fn spec_bytes(&self) -> Seq<u8> {
        self.bits@
    }

    fn bit_block_and_offset(&self, index: usize) -> (r: (usize, u8))
        ensures
            r.0 == index / 8,
            r.1 == index % 8,
    {
        (index / 8, (index % 8) as u8)
    }

    fn num_blocks(&self) -> (r: usize)
        ensures
            r == self.spec_bytes().len(),
    {
        self.bits.len()
    }

    /// All-zero bitfield over `n` bits.
    pub fn new(n: usize) -> (r: Self)
        requires
            n <= usize::MAX - 7,
            (n + 7) / 8 + 1 <= u32::MAX,
        ensures
            r.wf(),
            r@.len() == n,
            forall|i: int| 0 <= i < n ==> !r@[i],
    {
        let num_blocks = blocks_for_nbits(n);
        let r = Self { bits: vec![0u8; num_blocks], num_bits: n };
        proof {
            lemma_zero_byte_bits();
        }
        r
    }

    /// Bitfield over exactly `8 * bytes.len()` bits, holding the given bytes.
    pub fn from_bytes(bytes: &[u8]) -> (r: Self)
        requires
            bytes@.len() + 1 <= u32::MAX,
            8 * bytes@.len() <= usize::MAX,
        ensures
            r.wf(),
            r.spec_bytes() == bytes@,
            r@.len() == 8 * bytes@.len(),
            forall|i: int| 0 <= i < r@.len() ==> r@[i] == byte_bit(bytes@[i / 8], i % 8),
    {
        let bits = vstd::slice::slice_to_vec(bytes);
        let num_bits = bytes.len() * 8;
        Self { bits, num_bits }
    }

    /// The raw bytes backing the bitfield.
    pub fn as_bytes(&self) -> (r: &[u8])
        ensures
            r@ == self.spec_bytes(),
    {
        self.bits.as_slice()
    }

    /// Sets bit `index`; every other bit keeps its value. The index bound is
    /// the caller's trusted-index contract: no out-of-range index is accepted.
    pub fn set(&mut self, index: usize)
        requires
            old(self).wf(),
            index < old(self)@.len(),
        ensures
            final(self).wf(),
            final(self)@ == old(self)@.update(index as int, true),
            final(self).spec_bytes().len() == old(self).spec_bytes().len(),
    {
        let (block_index, bit_offset) = self.bit_block_and_offset(index);
        let b = self.bits[block_index];
        self.bits[block_index] = b | (0x80u8 >> bit_offset);
        proof {
            assert forall|i: int| 0 <= i < self@.len() implies self@[i] == old(self)@.update(
                index as int,
                true,
            )[i] by {
                if i / 8 == block_index {
                    lemma_set_bit_effect(b, bit_offset, (i % 8) as u8);
                }
            }
            assert(self@ =~= old(self)@.update(index as int, true));
            if self.num_bits % 8 != 0 && block_index == self.bits@.len() - 1 {
                lemma_set_keeps_pad(b, bit_offset, (self.num_bits % 8) as u8);
            }
        }
    }

    /// Reads bit `index` under the same trusted-index contract as `set`.
    pub fn get(&self, index: usize) -> (r: bool)
        requires
            self.wf(),
            index < self@.len(),
        ensures
            r == self@[index as int],
    {
        let (block_index, bit_offset) = self.bit_block_and_offset(index);
        let b = self.bits[block_index];
        proof {
            lemma_get_bit(b, bit_offset);
        }
        (b & (0x80u8 >> bit_offset)) != 0
    }

    /// True exactly when every bit in `[0, num_bits)` is set; the pad bits
    /// of the last byte play no part.
    pub fn all(&self) -> (r: bool)
        requires
            self.wf(),
        ensures
            r == (forall|i: int| 0 <= i < self@.len() ==> self@[i]),
    {
        let n = self.num_bits;
        let mut idx: usize = 0;
        while idx < n
            invariant
                self.wf(),
                idx <= n,
                n == self@.len(),
                forall|j: int| 0 <= j < idx ==> self@[j],
            decreases n - idx,
        {
            if !self.get(idx) {
                return false;
            }
            idx += 1;
        }
        true
    }

    /// Number of bytes backing the bitfield, as carried in the wire's
    /// u32 length prefix.
    pub fn bytes(&self) -> (r: u32)
        requires
            self.wf(),
        ensures
            r == self.spec_bytes().len(),
    {
        self.num_blocks() as u32
    }

    /// Number of addressable bits.
    pub fn num_bits(&self) -> (r: usize)
        ensures
            r == self@.len(),
    {
        self.num_bits
    }
}

impl Default for Bitfield {
    /// The empty bitfield.
    fn default() -> (r: Self)
        ensures
            r.wf(),
            r@.len() == 0,
    {
        Bitfield::new(0)
    }
}

/// Law: the byte form is determined by the bit view. Two byte sequences of
/// equal length whose wire-order bits agree everywhere are the same bytes;
/// so `from_bytes(b).as_bytes() == b` is forced already by the bit view
/// that `from_bytes` ensures.
pub proof fn lemma_bits_determine_bytes(a: Seq<u8>, b: Seq<u8>)
    requires
        a.len() == b.len(),
        forall|i: int| 0 <= i < a.len() * 8 ==> #[trigger] byte_bit(a[i / 8], i % 8)
            == byte_bit(b[i / 8], i % 8),
    ensures
        a =~= b,
{
    assert forall|j: int| 0 <= j < a.len() implies a[j] == b[j] by {
        assert forall|k: int| 0 <= k < 8 implies #[trigger] byte_bit(a[j], k) == byte_bit(
            b[j],
            k,
        ) by {
            let i = 8 * j + k;
            assert(i / 8 == j && i % 8 == k);
            assert(byte_bit(a[i / 8], i % 8) == byte_bit(b[i / 8], i % 8));
        }
        lemma_byte_from_bits(a[j], b[j]);
    }
}

} // verus!
