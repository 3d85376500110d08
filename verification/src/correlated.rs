//! 128-bit blocks and the correlated keys and MACs built from them.
//!
//! A MAC of a bit `b` under the key `k` and the global correlation `delta` is
//! `k ^ (b * delta)`. The correlation always has its least significant bit
//! set, so the least significant bit of a MAC ("pointer bit") is the
//! pointer bit of its key XOR the authenticated bit.
use vstd::prelude::*;

verus! {

/// The least significant bit of `x`.
pub open spec fn lsb(x: u128) -> bool {
    x & 1 == 1
}

/// `x` with its least significant bit set to `bit`.
pub open spec fn with_lsb(x: u128, bit: bool) -> u128 {
    if bit { x | 1 } else { x & !1u128 }
}

/// The MAC of `bit` under the key value `key` and correlation `delta`.
pub open spec fn auth_value(key: u128, bit: bool, delta: u128) -> u128 {
    if bit { key ^ delta } else { key }
}

/// XOR with a value whose low bit is set flips the low bit.
pub proof fn lemma_lsb_xor(a: u128, b: u128)
    ensures
        lsb(a ^ b) == (lsb(a) != lsb(b)),
{
    assert((a ^ b) & 1 == 1 <==> ((a & 1 == 1) != (b & 1 == 1))) by (bit_vector);
}

/// A 128-bit block.
#[derive(Debug, Clone, Copy, PartialEq, Eq, Structural, Hash, Default)]
pub struct Block(pub(crate) u128);

impl Block {
    /// The value of the block.
    pub open(crate) spec fn value(self) -> u128 {
        self.0
    }

    /// The all-zero block.
    pub fn zero() -> (r: Block)
        ensures
            r.value() == 0,
    {
        Block(0)
    }

    /// Creates a block from its value.
    pub fn new(value: u128) -> (r: Block)
        ensures
            r.value() == value,
    {
        Block(value)
    }

    /// Returns the value of the block.
    pub fn to_u128(&self) -> (r: u128)
        ensures
            r == self.value(),
    {
        self.0
    }

    /// Returns the least significant bit of the block.
    pub fn lsb(&self) -> (r: bool)
        ensures
            r == lsb(self.value()),
    {
        self.0 & 1 == 1
    }

    /// Returns `self ^ other`.
    pub fn xor(&self, other: &Block) -> (r: Block)
        ensures
            r.value() == self.value() ^ other.value(),
    {
        Block(self.0 ^ other.0)
    }

    /// Returns the 16 bytes of the block, least significant first.
    pub fn to_bytes(&self) -> (r: Vec<u8>)
        ensures
            r@ == block_bytes(self.value()),
    {
        let mut out: Vec<u8> = Vec::new();
        let mut i: usize = 0;
        while i < 16
            invariant
                i <= 16,
                out@ == block_bytes(self.0).take(i as int),
            decreases 16 - i,
        {
            out.push(((self.0 >> (8 * i as u128)) & 0xff) as u8);
            assert(block_bytes(self.0).take(i as int + 1) =~= block_bytes(self.0).take(
                i as int,
            ).push(((self.0 >> (8 * i as u128)) & 0xff) as u8));
            i = i + 1;
        }
        assert(block_bytes(self.0).take(16) =~= block_bytes(self.0));
        out
    }
}

impl Block {
    /// Returns the product of the two blocks in GF(2^128).
    pub fn gfmul(&self, other: &Block) -> (r: Block)
        ensures
            r.value() == gf_mul(self.value(), other.value()),
    {
        let b = other.0;
        let mut acc: u128 = 0;
        let mut p: u128 = self.0;
        let mut i: u128 = 0;
        while i < 128
            invariant
                i <= 128,
                acc == gf_mul_prefix(self.0, b, i as nat),
                p == gf_mulx_pow(self.0, i as nat),
            decreases 128 - i,
        {
            if (b >> i) & 1u128 == 1u128 {
                acc = acc ^ p;
            }
            p = if p >> 127u128 == 1 {
                (p << 1u128) ^ 0x87u128
            } else {
                p << 1u128
            };
            i = i + 1;
        }
        Block(acc)
    }
}

impl Block {
    /// Returns the 16 bytes of the block as an array, least significant first.
    pub fn to_array(&self) -> (r: [u8; 16])
        ensures
            r@ == block_bytes(self.value()),
    {
        let mut out = [0u8; 16];
        let mut i: usize = 0;
        while i < 16
            invariant
                i <= 16,
                forall|j: int| 0 <= j < i ==> out@[j] == block_bytes(self.0)[j],
            decreases 16 - i,
        {
            out[i] = ((self.0 >> (8 * i as u128)) & 0xff) as u8;
            i = i + 1;
        }
        assert(out@ =~= block_bytes(self.0));
        out
    }
}

/// `a` times `x` in GF(2^128), the field of polynomials over GF(2) modulo
/// `x^128 + x^7 + x^2 + x + 1`; bit `i` of a value is the coefficient of `x^i`.
pub open spec fn gf_mulx(a: u128) -> u128 {
    if a >> 127u128 == 1 {
        (a << 1u128) ^ 0x87u128
    } else {
        a << 1u128
    }
}

/// `a` times `x^n` in GF(2^128).
pub open spec fn gf_mulx_pow(a: u128, n: nat) -> u128
    decreases n,
{
    if n == 0 {
        a
    } else {
        gf_mulx(gf_mulx_pow(a, (n - 1) as nat))
    }
}

/// Whether bit `i` of `b` is set.
pub open spec fn bit_at(b: u128, i: u128) -> bool {
    (b >> i) & 1u128 == 1u128
}

/// The sum of `a * x^i` over the set bits `i < n` of `b`.
pub open spec fn gf_mul_prefix(a: u128, b: u128, n: nat) -> u128
    decreases n,
{
    if n == 0 {
        0
    } else {
        let rest = gf_mul_prefix(a, b, (n - 1) as nat);
        if bit_at(b, (n - 1) as u128) {
            rest ^ gf_mulx_pow(a, (n - 1) as nat)
        } else {
            rest
        }
    }
}

/// The product of `a` and `b` in GF(2^128): their carry-less product reduced
/// modulo `x^128 + x^7 + x^2 + x + 1`.
pub open spec fn gf_mul(a: u128, b: u128) -> u128 {
    gf_mul_prefix(a, b, 128)
}

/// The 16 little-endian bytes of `x`.
pub open spec fn block_bytes(x: u128) -> Seq<u8> {
    Seq::new(16, |i: int| ((x >> (8 * i) as u128) & 0xff) as u8)
}

/// The bytes of a sequence of blocks, block after block.
pub open spec fn blocks_bytes(xs: Seq<u128>) -> Seq<u8>
    decreases xs.len(),
{
    if xs.len() == 0 {
        Seq::empty()
    } else {
        blocks_bytes(xs.drop_last()) + block_bytes(xs.last())
    }
}

/// The global correlation, `delta`. Its least significant bit is always set.
#[derive(Debug, Clone, Copy, PartialEq, Eq, Structural)]
pub struct Delta(pub(crate) Block);

impl Delta {
    /// The value of delta.
    pub open(crate) spec fn value(self) -> u128 {
        self.0.0 | 1
    }

    /// Delta's least significant bit is set.
    pub proof fn lemma_lsb(self)
        ensures
            lsb(self.value()),
    {
        let x = self.0.0;
        assert((x | 1) & 1 == 1) by (bit_vector);
    }

    /// Creates a new delta from a block, setting its least significant bit.
    pub fn new(block: Block) -> (r: Delta)
        ensures
            r.value() == block.value() | 1,
    {
        let x = block.0;
        assert((x | 1) | 1 == x | 1) by (bit_vector);
        Delta(Block(x | 1))
    }

    /// Returns delta as a block.
    pub fn as_block(&self) -> (r: Block)
        ensures
            r.value() == self.value(),
    {
        let x = self.0.0;
        assert(x | 1 == (x | 1) | 1) by (bit_vector);
        Block(self.0.0 | 1)
    }

    /// Returns delta as a block.
    pub fn into_inner(self) -> (r: Block)
        ensures
            r.value() == self.value(),
    {
        self.as_block()
    }
}

/// A key of a correlated value.
#[derive(Debug, Clone, Copy, PartialEq, Eq, Structural, Default)]
pub struct Key(pub(crate) Block);

/// A MAC of a correlated value.
#[derive(Debug, Clone, Copy, PartialEq, Eq, Structural, Default)]
pub struct Mac(pub(crate) Block);

impl Key {
    /// The value of the key.
    pub open(crate) spec fn value(self) -> u128 {
        self.0.0
    }

    /// Creates a key from a block.
    pub fn new(block: Block) -> (r: Key)
        ensures
            r.value() == block.value(),
    {
        Key(block)
    }

    /// Returns the key as a block.
    pub fn as_block(&self) -> (r: Block)
        ensures
            r.value() == self.value(),
    {
        self.0
    }

    /// Returns the pointer bit of the key.
    pub fn pointer(&self) -> (r: bool)
        ensures
            r == lsb(self.value()),
    {
        self.0.lsb()
    }

    /// Returns the MAC of `bit` under this key.
    pub fn auth(&self, bit: bool, delta: &Delta) -> (r: Mac)
        ensures
            r.value() == auth_value(self.value(), bit, delta.value()),
    {
        if bit {
            Mac(self.0.xor(&delta.as_block()))
        } else {
            Mac(self.0)
        }
    }

    /// Adds `delta` to the key when `adjust` is set.
    pub fn adjust(&mut self, adjust: bool, delta: &Delta)
        ensures
            final(self).value() == auth_value(old(self).value(), adjust, delta.value()),
    {
        if adjust {
            self.0 = self.0.xor(&delta.as_block());
        }
    }

    /// Converts blocks into keys.
    pub fn from_blocks(blocks: Vec<Block>) -> (r: Vec<Key>)
        ensures
            r.len() == blocks.len(),
            forall|i: int| 0 <= i < r.len() ==> #[trigger] r[i].value() == blocks[i].value(),
    {
        let mut out: Vec<Key> = Vec::new();
        let mut i: usize = 0;
        while i < blocks.len()
            invariant
                i <= blocks.len(),
                out.len() == i,
                forall|j: int| 0 <= j < i ==> #[trigger] out[j].value() == blocks[j].value(),
            decreases blocks.len() - i,
        {
            out.push(Key(blocks[i]));
            i = i + 1;
        }
        out
    }

    /// Converts keys into blocks.
    pub fn as_blocks(keys: &[Key]) -> (r: Vec<Block>)
        ensures
            r.len() == keys.len(),
            forall|i: int| 0 <= i < r.len() ==> #[trigger] r[i].value() == keys[i].value(),
    {
        let mut out: Vec<Block> = Vec::new();
        let mut i: usize = 0;
        while i < keys.len()
            invariant
                i <= keys.len(),
                out.len() == i,
                forall|j: int| 0 <= j < i ==> #[trigger] out[j].value() == keys[j].value(),
            decreases keys.len() - i,
        {
            out.push(keys[i].0);
            i = i + 1;
        }
        out
    }
}

impl Mac {
    /// The value of the MAC.
    pub open(crate) spec fn value(self) -> u128 {
        self.0.0
    }

    /// Creates a MAC from a block.
    pub fn new(block: Block) -> (r: Mac)
        ensures
            r.value() == block.value(),
    {
        Mac(block)
    }

    /// Returns the MAC as a block.
    pub fn as_block(&self) -> (r: Block)
        ensures
            r.value() == self.value(),
    {
        self.0
    }

    /// Returns the pointer bit of the MAC.
    pub fn pointer(&self) -> (r: bool)
        ensures
            r == lsb(self.value()),
    {
        self.0.lsb()
    }

    /// Sets the pointer bit of the MAC.
    pub fn set_pointer(&mut self, bit: bool)
        ensures
            final(self).value() == with_lsb(old(self).value(), bit),
    {
        if bit {
            self.0 = Block(self.0.0 | 1);
        } else {
            self.0 = Block(self.0.0 & !1u128);
        }
    }

    /// Converts blocks into MACs.
    pub fn from_blocks(blocks: Vec<Block>) -> (r: Vec<Mac>)
        ensures
            r.len() == blocks.len(),
            forall|i: int| 0 <= i < r.len() ==> #[trigger] r[i].value() == blocks[i].value(),
    {
        let mut out: Vec<Mac> = Vec::new();
        let mut i: usize = 0;
        while i < blocks.len()
            invariant
                i <= blocks.len(),
                out.len() == i,
                forall|j: int| 0 <= j < i ==> #[trigger] out[j].value() == blocks[j].value(),
            decreases blocks.len() - i,
        {
            out.push(Mac(blocks[i]));
            i = i + 1;
        }
        out
    }
}

/// The pointer bit of a MAC is the pointer bit of its key XOR the
/// authenticated bit: a key's owner decodes a MAC by XORing the two pointer
/// bits.
pub proof fn lemma_decode_mac(key: u128, bit: bool, delta: Delta)
    ensures
        (lsb(auth_value(key, bit, delta.value())) != lsb(key)) == bit,
{
    delta.lemma_lsb();
    lemma_lsb_xor(key, delta.value());
}

} // verus!
