//! Stores of correlated keys (held by the party that knows `delta`) and of
//! MACs (held by the party that knows the data).
use vstd::prelude::*;
use rangeset::set::RangeSet;

use crate::cell_store::{CellStore, StoreError};
use crate::correlated::{
    auth_value, blocks_bytes, lemma_decode_mac, lsb, Delta, Key, Mac,
};
use crate::hash::{blake3_digest, blake3_hash, digests_equal};
use crate::memory::Slice;
use crate::range_set::{addrs, enumerable, rs_view};

verus! {

/// The values of a sequence of keys.
pub open spec fn key_values(keys: Seq<Key>) -> Seq<u128> {
    keys.map_values(|k: Key| k.value())
}

/// The values of a sequence of MACs.
pub open spec fn mac_values(macs: Seq<Mac>) -> Seq<u128> {
    macs.map_values(|m: Mac| m.value())
}

/// The pointer bits of a sequence of values.
pub open spec fn pointer_bits(values: Seq<u128>) -> Seq<bool> {
    values.map_values(|v: u128| lsb(v))
}

/// The MACs of `bits` under `keys` and `delta`, position by position.
pub open spec fn auth_values(keys: Seq<u128>, bits: Seq<bool>, delta: u128) -> Seq<u128> {
    Seq::new(keys.len(), |i: int| auth_value(keys[i], bits[i], delta))
}

/// The bits that MACs with pointer bits `mac_bits` authenticate under keys
/// with pointer bits `key_bits`.
pub open spec fn decoded_bits(mac_bits: Seq<bool>, key_bits: Seq<bool>) -> Seq<bool> {
    Seq::new(mac_bits.len(), |i: int| mac_bits[i] != key_bits[i])
}

/// The proof digest of a sequence of MAC values.
pub open spec fn mac_digest(macs: Seq<u128>) -> Seq<u8> {
    blake3_digest(blocks_bytes(macs))
}

/// Returns the bytes of `values`, block after block.
fn blocks_to_bytes(values: &Vec<u128>) -> (r: Vec<u8>)
    ensures
        r@ == blocks_bytes(values@),
{
    let mut out: Vec<u8> = Vec::new();
    let mut i: usize = 0;
    while i < values.len()
        invariant
            i <= values.len(),
            out@ == blocks_bytes(values@.take(i as int)),
        decreases values.len() - i,
    {
        let bytes = crate::correlated::Block::new(values[i]).to_bytes();
        let ghost prev = out@;
        let mut j: usize = 0;
        while j < bytes.len()
            invariant
                j <= bytes.len(),
                out@ == prev + bytes@.take(j as int),
            decreases bytes.len() - j,
        {
            out.push(bytes[j]);
            assert(bytes@.take(j + 1) =~= bytes@.take(j as int).push(bytes@[j as int]));
            j = j + 1;
        }
        assert(bytes@.take(bytes.len() as int) =~= bytes@);
        assert(values@.take(i + 1).drop_last() =~= values@.take(i as int));
        i = i + 1;
    }
    assert(values@.take(values.len() as int) =~= values@);
    out
}

/// Error of a [`KeyStore`] operation.
#[derive(Debug, Clone, Copy, PartialEq, Eq, Structural)]
pub enum KeyStoreError {
    /// The underlying store refused the operation.
    Store(StoreError),
    /// The number of bits differs from the number of keys.
    LengthMismatch { expected: usize, actual: usize },
    /// The MAC proof does not match the keys.
    InvalidProof,
}

/// Error of a [`MacStore`] operation.
#[derive(Debug, Clone, Copy, PartialEq, Eq, Structural)]
pub enum MacStoreError {
    /// The underlying store refused the operation.
    Store(StoreError),
}

/// Keys of correlated values, with the global correlation `delta`.
pub struct KeyStore {
    pub(crate) delta: Delta,
    pub(crate) keys: CellStore<Key>,
}

impl KeyStore {
    /// The global correlation.
    pub open(crate) spec fn correlation(&self) -> Delta {
        self.delta
    }

    /// The value of the global correlation.
    pub open spec fn delta_value(&self) -> u128 {
        self.correlation().value()
    }

    /// The keys, set or not.
    pub open(crate) spec fn key_seq(&self) -> Seq<Key> {
        self.keys.cells()
    }

    /// The addresses whose keys are set.
    pub open(crate) spec fn key_set(&self) -> Set<int> {
        self.keys.set_addrs()
    }

    /// The number of allocated keys.
    pub open(crate) spec fn size(&self) -> nat {
        self.keys.size()
    }

    /// The store is well formed.
    pub open(crate) spec fn wf(&self) -> bool {
        self.keys.wf()
    }

    /// The key values at the addresses of `s`, in increasing order.
    pub open spec fn keys_at(&self, s: Set<int>) -> Seq<u128> {
        key_values(addrs(s).map_values(|a: int| self.key_seq()[a]))
    }

    /// Creates an empty key store with correlation `delta`.
    pub fn new(delta: Delta) -> (r: Self)
        ensures
            r.wf(),
            r.correlation() == delta,
            r.key_seq() == Seq::<Key>::empty(),
            r.key_set() == Set::<int>::empty(),
    {
        Self { delta, keys: CellStore::new() }
    }

    /// Returns delta.
    pub fn delta(&self) -> (r: &Delta)
        ensures
            *r == self.correlation(),
    {
        &self.delta
    }

    /// Allocates `size` unset keys.
    pub fn allocate(&mut self, size: usize) -> (slice: Slice)
        requires
            old(self).wf(),
            old(self).size() + size <= usize::MAX,
        ensures
            final(self).wf(),
            final(self).correlation() == old(self).correlation(),
            slice.start() == old(self).size(),
            slice.size() == size,
            slice.fits(),
            final(self).size() == old(self).size() + size,
            final(self).key_seq().take(old(self).size() as int) == old(self).key_seq(),
            final(self).key_set() == old(self).key_set(),
    {
        let slice = self.keys.allocate(size, Key::new(crate::correlated::Block::zero()));
        assert(self.key_seq().take(old(self).size() as int) =~= old(self).key_seq());
        slice
    }

    /// Allocates keys set to `keys`.
    pub fn alloc_with(&mut self, keys: &[Key]) -> (slice: Slice)
        requires
            old(self).wf(),
            old(self).size() + keys.len() <= usize::MAX,
        ensures
            final(self).wf(),
            final(self).correlation() == old(self).correlation(),
            slice.start() == old(self).size(),
            slice.size() == keys.len(),
            slice.fits(),
            final(self).key_seq() == old(self).key_seq() + keys@,
            final(self).key_set() == old(self).key_set().union(slice.addrs()),
    {
        self.keys.alloc_with(keys)
    }

    /// Returns whether all keys of the slice are set.
    pub fn is_set(&self, slice: Slice) -> (r: bool)
        requires
            self.wf(),
        ensures
            r == slice.addrs().subset_of(self.key_set()),
    {
        self.keys.is_set(slice)
    }

    /// Returns the keys of the slice if they are set.
    pub fn try_get(&self, slice: Slice) -> (r: Result<Vec<Key>, KeyStoreError>)
        requires
            self.wf(),
        ensures
            r is Ok <==> slice.addrs().subset_of(self.key_set()),
            r matches Ok(v) ==> v@ == Seq::new(
                slice.size(),
                |i: int| self.key_seq()[slice.start() + i],
            ),
    {
        match self.keys.try_get(slice) {
            Ok(keys) => Ok(keys),
            Err(e) => Err(KeyStoreError::Store(e)),
        }
    }

    /// Sets the keys of the slice.
    pub fn try_set(&mut self, slice: Slice, keys: &[Key]) -> (r: Result<(), KeyStoreError>)
        requires
            old(self).wf(),
        ensures
            final(self).wf(),
            final(self).correlation() == old(self).correlation(),
            r is Ok <==> (slice.end() <= old(self).size() && keys.len() == slice.size()),
            r is Ok ==> final(self).key_seq() == old(self).key_seq().take(slice.start()) + keys@
                + old(self).key_seq().skip(slice.end()),
            r is Ok ==> final(self).key_set() == old(self).key_set().union(slice.addrs()),
            r is Err ==> *final(self) == *old(self),
    {
        match self.keys.try_set(slice, keys) {
            Ok(()) => Ok(()),
            Err(e) => Err(KeyStoreError::Store(e)),
        }
    }

    /// Returns the MACs of `data` under the keys of the slice.
    pub fn authenticate(&self, slice: Slice, data: &[bool]) -> (r: Result<
        Vec<Mac>,
        KeyStoreError,
    >)
        requires
            self.wf(),
        ensures
            r is Ok <==> slice.addrs().subset_of(self.key_set()) && data.len() == slice.size(),
            r matches Ok(macs) ==> mac_values(macs@) == auth_values(
                key_values(Seq::new(slice.size(), |i: int| self.key_seq()[slice.start() + i])),
                data@,
                self.delta_value(),
            ),
    {
        let keys = self.try_get(slice)?;
        if data.len() != keys.len() {
            return Err(KeyStoreError::LengthMismatch { expected: keys.len(), actual: data.len() });
        }
        let mut macs: Vec<Mac> = Vec::new();
        let mut i: usize = 0;
        while i < keys.len()
            invariant
                i <= keys.len(),
                data.len() == keys.len(),
                macs.len() == i,
                forall|j: int|
                    0 <= j < i ==> (#[trigger] macs@[j]).value() == auth_value(
                        keys@[j].value(),
                        data@[j],
                        self.delta_value(),
                    ),
            decreases keys.len() - i,
        {
            macs.push(keys[i].auth(data[i], &self.delta));
            i = i + 1;
        }
        assert(mac_values(macs@) =~= auth_values(key_values(keys@), data@, self.delta_value()));
        Ok(macs)
    }

    /// Returns the keys of the slice for oblivious transfer.
    pub fn oblivious_transfer(&self, slice: Slice) -> (r: Result<Vec<Key>, KeyStoreError>)
        requires
            self.wf(),
        ensures
            r is Ok <==> slice.addrs().subset_of(self.key_set()),
            r matches Ok(v) ==> v@ == Seq::new(
                slice.size(),
                |i: int| self.key_seq()[slice.start() + i],
            ),
    {
        self.try_get(slice)
    }

    /// Returns the pointer bits of the keys of the slice.
    pub fn try_get_bits(&self, slice: Slice) -> (r: Result<Vec<bool>, KeyStoreError>)
        requires
            self.wf(),
        ensures
            r is Ok <==> slice.addrs().subset_of(self.key_set()),
            r matches Ok(v) ==> v@ == pointer_bits(
                key_values(Seq::new(slice.size(), |i: int| self.key_seq()[slice.start() + i])),
            ),
    {
        let keys = self.try_get(slice)?;
        let mut bits: Vec<bool> = Vec::new();
        let mut i: usize = 0;
        while i < keys.len()
            invariant
                i <= keys.len(),
                bits@ == pointer_bits(key_values(keys@.take(i as int))),
            decreases keys.len() - i,
        {
            bits.push(keys[i].pointer());
            assert(pointer_bits(key_values(keys@.take(i + 1))) =~= pointer_bits(
                key_values(keys@.take(i as int)),
            ).push(lsb(keys@[i as int].value())));
            i = i + 1;
        }
        assert(keys@.take(keys.len() as int) =~= keys@);
        Ok(bits)
    }

    /// Adds `delta` to each key of the slice whose adjust bit is set.
    pub fn adjust(&mut self, slice: Slice, adjust: &[bool]) -> (r: Result<(), KeyStoreError>)
        requires
            old(self).wf(),
        ensures
            final(self).wf(),
            final(self).correlation() == old(self).correlation(),
            r is Ok <==> slice.addrs().subset_of(old(self).key_set()) && slice.end() <= old(self).size() && adjust.len() == slice.size(),
            r is Ok ==> final(self).key_set() == old(self).key_set(),
            r is Ok ==> final(self).size() == old(self).size(),
            r is Ok ==> forall|i: int|
                0 <= i < slice.size() ==> (#[trigger] final(self).key_seq()[slice.start()
                    + i]).value() == auth_value(
                    old(self).key_seq()[slice.start() + i].value(),
                    adjust@[i],
                    old(self).delta_value(),
                ),
            r is Ok ==> forall|a: int|
                0 <= a < old(self).size() && !slice.addrs().contains(a) ==> final(self).key_seq()[a]
                    == old(self).key_seq()[a],
            r is Err ==> *final(self) == *old(self),
    {
        let keys = self.try_get(slice)?;
        if adjust.len() != keys.len() {
            return Err(
                KeyStoreError::LengthMismatch { expected: keys.len(), actual: adjust.len() },
            );
        }
        let ghost old_set = self.key_set();
        let mut adjusted: Vec<Key> = Vec::new();
        let mut i: usize = 0;
        while i < keys.len()
            invariant
                i <= keys.len(),
                adjust.len() == keys.len(),
                adjusted.len() == i,
                forall|j: int|
                    0 <= j < i ==> (#[trigger] adjusted@[j]).value() == auth_value(
                        keys@[j].value(),
                        adjust@[j],
                        self.delta_value(),
                    ),
            decreases keys.len() - i,
        {
            let mut key = keys[i];
            key.adjust(adjust[i], &self.delta);
            adjusted.push(key);
            i = i + 1;
        }
        proof {
            if slice.size() > 0 {
                assert(slice.addrs().contains(slice.end() - 1));
            }
        }
        match self.keys.try_set(slice, &adjusted) {
            Ok(()) => {
                assert(old_set.union(slice.addrs()) =~= old_set);
                Ok(())
            },
            Err(e) => Err(KeyStoreError::Store(e)),
        }
    }

    /// Verifies a proof of the MACs of the addresses of `ranges`: `bits` are
    /// the pointer bits of the MACs and `proof` the digest of the MACs. On
    /// success `bits` becomes the authenticated data.
    pub fn verify(&self, ranges: &RangeSet<usize>, bits: &mut Vec<bool>, proof: &[u8; 32]) -> (r:
        Result<(), KeyStoreError>)
        requires
            self.wf(),
        ensures
            enumerable(rs_view(*ranges)),
            r is Ok <==> {
                &&& rs_view(*ranges).subset_of(self.key_set())
                &&& old(bits)@.len() == addrs(rs_view(*ranges)).len()
                &&& mac_digest(
                    auth_values(
                        self.keys_at(rs_view(*ranges)),
                        decoded_bits(old(bits)@, pointer_bits(self.keys_at(rs_view(*ranges)))),
                        self.delta_value(),
                    ),
                ) == proof@
            },
            r is Ok ==> final(bits)@ == decoded_bits(
                old(bits)@,
                pointer_bits(self.keys_at(rs_view(*ranges))),
            ),
    {
        let keys = match self.keys.gather(ranges) {
            Ok(keys) => keys,
            Err(e) => return Err(KeyStoreError::Store(e)),
        };
        let ghost kv = self.keys_at(rs_view(*ranges));
        assert(key_values(keys@) =~= kv);
        if bits.len() != keys.len() {
            return Err(KeyStoreError::LengthMismatch { expected: keys.len(), actual: bits.len() });
        }
        let ghost pb = pointer_bits(kv);
        let mut data: Vec<bool> = Vec::new();
        let mut expected: Vec<u128> = Vec::new();
        let mut i: usize = 0;
        while i < keys.len()
            invariant
                i <= keys.len(),
                bits.len() == keys.len(),
                key_values(keys@) == kv,
                pb == pointer_bits(kv),
                data@ == decoded_bits(bits@, pb).take(i as int),
                expected@ == auth_values(kv, decoded_bits(bits@, pb), self.delta_value()).take(
                    i as int,
                ),
            decreases keys.len() - i,
        {
            let bit = bits[i] != keys[i].pointer();
            data.push(bit);
            expected.push(keys[i].auth(bit, &self.delta).as_block().to_u128());
            assert(decoded_bits(bits@, pb).take(i + 1) =~= decoded_bits(bits@, pb).take(
                i as int,
            ).push(bit));
            assert(auth_values(kv, decoded_bits(bits@, pb), self.delta_value()).take(i + 1)
                =~= auth_values(kv, decoded_bits(bits@, pb), self.delta_value()).take(
                i as int,
            ).push(auth_value(kv[i as int], bit, self.delta_value())));
            i = i + 1;
        }
        assert(decoded_bits(bits@, pb).take(keys.len() as int) =~= decoded_bits(bits@, pb));
        assert(auth_values(kv, decoded_bits(bits@, pb), self.delta_value()).take(keys.len() as int)
            =~= auth_values(kv, decoded_bits(bits@, pb), self.delta_value()));
        let bytes = blocks_to_bytes(&expected);
        let digest = blake3_hash(bytes.as_slice());
        if !digests_equal(&digest, proof) {
            return Err(KeyStoreError::InvalidProof);
        }
        *bits = data;
        Ok(())
    }
}

/// MACs of correlated values.
pub struct MacStore {
    pub(crate) macs: CellStore<Mac>,
}

impl MacStore {
    /// The MACs, set or not.
    pub open(crate) spec fn mac_seq(&self) -> Seq<Mac> {
        self.macs.cells()
    }

    /// The addresses whose MACs are set.
    pub open(crate) spec fn mac_set(&self) -> Set<int> {
        self.macs.set_addrs()
    }

    /// The number of allocated MACs.
    pub open(crate) spec fn size(&self) -> nat {
        self.macs.size()
    }

    /// The store is well formed.
    pub open(crate) spec fn wf(&self) -> bool {
        self.macs.wf()
    }

    /// The MAC values at the addresses of `s`, in increasing order.
    pub open spec fn macs_at(&self, s: Set<int>) -> Seq<u128> {
        mac_values(addrs(s).map_values(|a: int| self.mac_seq()[a]))
    }

    /// Creates an empty MAC store.
    pub fn new() -> (r: Self)
        ensures
            r.wf(),
            r.mac_seq() == Seq::<Mac>::empty(),
            r.mac_set() == Set::<int>::empty(),
    {
        Self { macs: CellStore::new() }
    }

    /// Allocates `size` unset MACs.
    pub fn allocate(&mut self, size: usize) -> (slice: Slice)
        requires
            old(self).wf(),
            old(self).size() + size <= usize::MAX,
        ensures
            final(self).wf(),
            slice.start() == old(self).size(),
            slice.size() == size,
            slice.fits(),
            final(self).size() == old(self).size() + size,
            final(self).mac_seq().take(old(self).size() as int) == old(self).mac_seq(),
            final(self).mac_set() == old(self).mac_set(),
    {
        let slice = self.macs.allocate(size, Mac::new(crate::correlated::Block::zero()));
        assert(self.mac_seq().take(old(self).size() as int) =~= old(self).mac_seq());
        slice
    }

    /// Returns whether all MACs of the slice are set.
    pub fn is_set(&self, slice: Slice) -> (r: bool)
        requires
            self.wf(),
        ensures
            r == slice.addrs().subset_of(self.mac_set()),
    {
        self.macs.is_set(slice)
    }

    /// Returns the MACs of the slice if they are set.
    pub fn try_get(&self, slice: Slice) -> (r: Result<Vec<Mac>, MacStoreError>)
        requires
            self.wf(),
        ensures
            r is Ok <==> slice.addrs().subset_of(self.mac_set()),
            r matches Ok(v) ==> v@ == Seq::new(
                slice.size(),
                |i: int| self.mac_seq()[slice.start() + i],
            ),
    {
        match self.macs.try_get(slice) {
            Ok(macs) => Ok(macs),
            Err(e) => Err(MacStoreError::Store(e)),
        }
    }

    /// Sets the MACs of the slice.
    pub fn try_set(&mut self, slice: Slice, macs: &[Mac]) -> (r: Result<(), MacStoreError>)
        requires
            old(self).wf(),
        ensures
            final(self).wf(),
            r is Ok <==> (slice.end() <= old(self).size() && macs.len() == slice.size()),
            r is Ok ==> final(self).mac_seq() == old(self).mac_seq().take(slice.start()) + macs@
                + old(self).mac_seq().skip(slice.end()),
            r is Ok ==> final(self).mac_set() == old(self).mac_set().union(slice.addrs()),
            r is Err ==> *final(self) == *old(self),
    {
        match self.macs.try_set(slice, macs) {
            Ok(()) => Ok(()),
            Err(e) => Err(MacStoreError::Store(e)),
        }
    }

    /// Returns the addresses whose MACs are set.
    pub fn set_ranges(&self) -> (r: &RangeSet<usize>)
        ensures
            rs_view(*r) == self.mac_set(),
    {
        self.macs.set_ranges()
    }

    /// Returns the pointer bits of the MACs of the slice.
    pub fn try_get_bits(&self, slice: Slice) -> (r: Result<Vec<bool>, MacStoreError>)
        requires
            self.wf(),
        ensures
            r is Ok <==> slice.addrs().subset_of(self.mac_set()),
            r matches Ok(v) ==> v@ == pointer_bits(
                mac_values(Seq::new(slice.size(), |i: int| self.mac_seq()[slice.start() + i])),
            ),
    {
        let macs = self.try_get(slice)?;
        let mut bits: Vec<bool> = Vec::new();
        let mut i: usize = 0;
        while i < macs.len()
            invariant
                i <= macs.len(),
                bits@ == pointer_bits(mac_values(macs@.take(i as int))),
            decreases macs.len() - i,
        {
            bits.push(macs[i].pointer());
            assert(pointer_bits(mac_values(macs@.take(i + 1))) =~= pointer_bits(
                mac_values(macs@.take(i as int)),
            ).push(lsb(macs@[i as int].value())));
            i = i + 1;
        }
        assert(macs@.take(macs.len() as int) =~= macs@);
        Ok(bits)
    }

    /// Proves the MACs of the addresses of `ranges`: returns their pointer bits
    /// and the digest of the MACs.
    pub fn prove(&self, ranges: &RangeSet<usize>) -> (r: Result<(Vec<bool>, [u8; 32]), MacStoreError>)
        requires
            self.wf(),
        ensures
            enumerable(rs_view(*ranges)),
            r is Ok <==> rs_view(*ranges).subset_of(self.mac_set()),
            r matches Ok(p) ==> p.0@ == pointer_bits(self.macs_at(rs_view(*ranges))),
            r matches Ok(p) ==> p.1@ == mac_digest(self.macs_at(rs_view(*ranges))),
    {
        let macs = match self.macs.gather(ranges) {
            Ok(macs) => macs,
            Err(e) => return Err(MacStoreError::Store(e)),
        };
        let ghost mv = self.macs_at(rs_view(*ranges));
        assert(mac_values(macs@) =~= mv);
        let mut bits: Vec<bool> = Vec::new();
        let mut values: Vec<u128> = Vec::new();
        let mut i: usize = 0;
        while i < macs.len()
            invariant
                i <= macs.len(),
                mac_values(macs@) == mv,
                bits@ == pointer_bits(mv.take(i as int)),
                values@ == mv.take(i as int),
            decreases macs.len() - i,
        {
            bits.push(macs[i].pointer());
            values.push(macs[i].as_block().to_u128());
            assert(mv.take(i + 1) =~= mv.take(i as int).push(mv[i as int]));
            assert(pointer_bits(mv.take(i + 1)) =~= pointer_bits(mv.take(i as int)).push(
                lsb(mv[i as int]),
            ));
            i = i + 1;
        }
        assert(mv.take(macs.len() as int) =~= mv);
        let bytes = blocks_to_bytes(&values);
        let digest = blake3_hash(bytes.as_slice());
        Ok((bits, digest))
    }
}

/// An honest proof verifies: when the MACs at the addresses of `s` authenticate
/// `data` under the keys at those addresses, the proof made of their pointer
/// bits and digest is accepted against the keys, and decodes to `data`.
pub proof fn lemma_honest_proof_verifies(
    keys: Seq<u128>,
    macs: Seq<u128>,
    data: Seq<bool>,
    delta: Delta,
)
    requires
        keys.len() == macs.len(),
        data.len() == macs.len(),
        forall|i: int|
            0 <= i < macs.len() ==> #[trigger] macs[i] == auth_value(keys[i], data[i], delta.value()),
    ensures
        decoded_bits(pointer_bits(macs), pointer_bits(keys)) == data,
        auth_values(keys, decoded_bits(pointer_bits(macs), pointer_bits(keys)), delta.value())
            == macs,
        mac_digest(
            auth_values(keys, decoded_bits(pointer_bits(macs), pointer_bits(keys)), delta.value()),
        ) == mac_digest(macs),
{
    assert forall|i: int| 0 <= i < macs.len() implies #[trigger] decoded_bits(
        pointer_bits(macs),
        pointer_bits(keys),
    )[i] == data[i] by {
        lemma_decode_mac(keys[i], data[i], delta);
    }
    assert(decoded_bits(pointer_bits(macs), pointer_bits(keys)) =~= data);
    assert(auth_values(keys, data, delta.value()) =~= macs);
}

} // verus!
