//! Memory stores of the two parties of a garbled-circuit protocol: the
//! generator, who holds the keys, and the evaluator, who holds the MACs.
//!
//! Both stores track each address through the same life cycle. An input is
//! allocated, given a visibility, assigned (when its value is known to the
//! party), committed, and then flushed: the generator sends MACs for values the
//! evaluator may see, and transfers them obliviously for values only the
//! evaluator knows. An output is allocated uninitialized, preprocessed once its
//! keys or MACs are known, and complete once the circuit was executed. Decoding
//! reveals a value to both parties.
use vstd::prelude::*;
use rangeset::set::RangeSet;

use crate::correlated::{auth_value, lemma_decode_mac, lsb, Mac};
use crate::garble::evaluator::EvaluatorStore;
use crate::garble::generator::GeneratorStore;
use crate::range_set::{rs_clear, rs_clone, rs_empty, rs_eq, rs_is_empty, rs_len, rs_view};

pub mod evaluate;
pub mod evaluator;
pub mod generator;
pub mod semihonest;

verus! {

/// The sets of addresses of a [`FlushState`].
pub struct FlushSets {
    /// Addresses whose MACs the generator sends directly.
    pub macs: Set<int>,
    /// Addresses whose MACs are transferred obliviously.
    pub ot: Set<int>,
    /// Addresses whose key bits the generator sends for decoding.
    pub key_bits: Set<int>,
    /// Addresses the evaluator proves MACs of for decoding.
    pub decode: Set<int>,
}

impl FlushSets {
    /// No address is to be flushed.
    pub open spec fn is_empty(self) -> bool {
        &&& self.macs == Set::<int>::empty()
        &&& self.ot == Set::<int>::empty()
        &&& self.key_bits == Set::<int>::empty()
        &&& self.decode == Set::<int>::empty()
    }

    /// The sets are finite.
    pub open spec fn finite(self) -> bool {
        self.macs.finite() && self.ot.finite() && self.key_bits.finite() && self.decode.finite()
    }
}

/// The empty flush.
pub open spec fn empty_flush() -> FlushSets {
    FlushSets {
        macs: Set::empty(),
        ot: Set::empty(),
        key_bits: Set::empty(),
        decode: Set::empty(),
    }
}

/// The addresses each party expects to be exchanged in the next flush.
#[derive(Debug)]
pub struct FlushState {
    /// Ranges for which the generator is to send MACs.
    pub(crate) macs: RangeSet<usize>,
    /// Ranges for which the generator is to send MACs using oblivious
    /// transfer.
    pub(crate) ot: RangeSet<usize>,
    /// Ranges for which the generator is to send key bits for decoding.
    pub(crate) key_bits: RangeSet<usize>,
    /// Ranges for which the evaluator is to prove MACs for decoding.
    pub(crate) decode: RangeSet<usize>,
}

impl FlushState {
    /// The addresses of the flush.
    pub open(crate) spec fn sets(&self) -> FlushSets {
        FlushSets {
            macs: rs_view(self.macs),
            ot: rs_view(self.ot),
            key_bits: rs_view(self.key_bits),
            decode: rs_view(self.decode),
        }
    }

    /// Creates an empty flush state.
    pub fn new() -> (r: Self)
        ensures
            r.sets() == empty_flush(),
    {
        Self { macs: rs_empty(), ot: rs_empty(), key_bits: rs_empty(), decode: rs_empty() }
    }

    /// Creates a flush state from its four sets of addresses.
    pub fn from_sets(
        macs: RangeSet<usize>,
        ot: RangeSet<usize>,
        key_bits: RangeSet<usize>,
        decode: RangeSet<usize>,
    ) -> (r: Self)
        ensures
            r.sets() == (FlushSets {
                macs: rs_view(macs),
                ot: rs_view(ot),
                key_bits: rs_view(key_bits),
                decode: rs_view(decode),
            }),
    {
        Self { macs, ot, key_bits, decode }
    }

    /// Returns the addresses whose MACs the generator sends directly.
    pub fn macs(&self) -> (r: &RangeSet<usize>)
        ensures
            rs_view(*r) == self.sets().macs,
    {
        &self.macs
    }

    /// Returns the addresses whose MACs are transferred obliviously.
    pub fn ot(&self) -> (r: &RangeSet<usize>)
        ensures
            rs_view(*r) == self.sets().ot,
    {
        &self.ot
    }

    /// Returns the addresses whose key bits are sent.
    pub fn key_bits(&self) -> (r: &RangeSet<usize>)
        ensures
            rs_view(*r) == self.sets().key_bits,
    {
        &self.key_bits
    }

    /// Returns the addresses whose MACs are proved for decoding.
    pub fn decode(&self) -> (r: &RangeSet<usize>)
        ensures
            rs_view(*r) == self.sets().decode,
    {
        &self.decode
    }

    /// Returns `true` if the flush state is empty.
    pub fn is_empty(&self) -> (r: bool)
        ensures
            r == self.sets().is_empty(),
    {
        rs_is_empty(&self.macs) && rs_is_empty(&self.ot) && rs_is_empty(&self.key_bits)
            && rs_is_empty(&self.decode)
    }

    /// Clears the flush state.
    pub fn clear(&mut self)
        ensures
            final(self).sets() == empty_flush(),
    {
        rs_clear(&mut self.macs);
        rs_clear(&mut self.ot);
        rs_clear(&mut self.key_bits);
        rs_clear(&mut self.decode);
    }

    /// Returns whether two flush states hold the same addresses.
    pub fn same_as(&self, other: &FlushState) -> (r: bool)
        ensures
            r == (self.sets() == other.sets()),
    {
        rs_eq(&self.macs, &other.macs) && rs_eq(&self.ot, &other.ot) && rs_eq(
            &self.key_bits,
            &other.key_bits,
        ) && rs_eq(&self.decode, &other.decode)
    }
}

impl Clone for FlushState {
    fn clone(&self) -> (r: Self)
        ensures
            r.sets() == self.sets(),
    {
        Self {
            macs: rs_clone(&self.macs),
            ot: rs_clone(&self.ot),
            key_bits: rs_clone(&self.key_bits),
            decode: rs_clone(&self.decode),
        }
    }
}

impl PartialEq for FlushState {
    fn eq(&self, other: &FlushState) -> (r: bool) {
        self.same_as(other)
    }
}

impl vstd::std_specs::cmp::PartialEqSpecImpl for FlushState {
    open spec fn obeys_eq_spec() -> bool {
        true
    }

    open spec fn eq_spec(&self, other: &FlushState) -> bool {
        self.sets() == other.sets()
    }
}

/// Error in validating a flush message.
#[derive(Debug, Clone, Copy, PartialEq, Eq, Structural)]
pub enum FlushValidationError {
    /// The generator sent a flush with the wrong number of MACs.
    InvalidMacCount,
    /// The generator sent a flush with the wrong number of key bits.
    InvalidKeyBitCount,
    /// The evaluator sent a flush with the wrong number of MAC bits.
    InvalidProofCount,
}

/// Flush message sent by the generator.
pub struct GeneratorFlush {
    /// Flush index.
    pub(crate) idx: FlushState,
    /// MACs sent directly to the evaluator.
    pub(crate) macs: Vec<Mac>,
    /// Key bits for decoding.
    pub(crate) key_bits: Vec<bool>,
}

impl GeneratorFlush {
    /// The flush index.
    pub open(crate) spec fn index(&self) -> FlushSets {
        self.idx.sets()
    }

    /// The MACs of the flush.
    pub open(crate) spec fn mac_seq(&self) -> Seq<Mac> {
        self.macs@
    }

    /// The key bits of the flush.
    pub open(crate) spec fn key_bit_seq(&self) -> Seq<bool> {
        self.key_bits@
    }

    /// Returns the flush index.
    pub fn state(&self) -> (r: &FlushState)
        ensures
            r.sets() == self.index(),
    {
        &self.idx
    }

    /// Checks a flush received from the generator: it must hold one MAC for
    /// each address of its MAC ranges, and as many key bits as its key-bit
    /// ranges hold addresses.
    pub fn try_from_parts(idx: FlushState, macs: Vec<Mac>, key_bits: Vec<bool>) -> (r: Result<
        GeneratorFlush,
        FlushValidationError,
    >)
        ensures
            r is Ok <==> (macs.len() == idx.sets().macs.len() && key_bits.len()
                == idx.sets().key_bits.len()),
            r matches Ok(f) ==> f.index() == idx.sets() && f.mac_seq() == macs@
                && f.key_bit_seq() == key_bits@,
            r matches Err(e) ==> e == if macs.len() != idx.sets().macs.len() {
                FlushValidationError::InvalidMacCount
            } else {
                FlushValidationError::InvalidKeyBitCount
            },
    {
        if rs_len(&idx.macs) != macs.len() {
            return Err(FlushValidationError::InvalidMacCount);
        }
        if rs_len(&idx.key_bits) != key_bits.len() {
            return Err(FlushValidationError::InvalidKeyBitCount);
        }
        Ok(GeneratorFlush { idx, macs, key_bits })
    }
}

/// Proof of the MACs of decoded values.
pub struct MacProof {
    /// The pointer bits of the MACs.
    pub(crate) bits: Vec<bool>,
    /// The digest of the MACs.
    pub(crate) proof: [u8; 32],
}

impl MacProof {
    /// The pointer bits of the proof.
    pub open(crate) spec fn bit_seq(&self) -> Seq<bool> {
        self.bits@
    }

    /// The digest of the proof.
    pub open(crate) spec fn digest(&self) -> Seq<u8> {
        self.proof@
    }

    /// Creates a proof from pointer bits and a digest.
    pub fn new(bits: Vec<bool>, proof: [u8; 32]) -> (r: Self)
        ensures
            r.bit_seq() == bits@,
            r.digest() == proof@,
    {
        Self { bits, proof }
    }
}

/// Flush message sent by the evaluator.
pub struct EvaluatorFlush {
    /// Flush index.
    pub(crate) idx: FlushState,
    /// Proof of MACs for decoding.
    pub(crate) mac_proof: Option<MacProof>,
}

impl EvaluatorFlush {
    /// The flush index.
    pub open(crate) spec fn index(&self) -> FlushSets {
        self.idx.sets()
    }

    /// The proof bits of the flush, if it holds a proof.
    pub open(crate) spec fn proof_bits(&self) -> Option<Seq<bool>> {
        match self.mac_proof {
            Some(p) => Some(p.bits@),
            None => None,
        }
    }

    /// The proof digest of the flush, if it holds a proof.
    pub open(crate) spec fn proof_digest(&self) -> Option<Seq<u8>> {
        match self.mac_proof {
            Some(p) => Some(p.proof@),
            None => None,
        }
    }

    /// Returns the flush index.
    pub fn state(&self) -> (r: &FlushState)
        ensures
            r.sets() == self.index(),
    {
        &self.idx
    }

    /// Checks a flush received from the evaluator: it must prove as many MAC
    /// bits as its decode ranges hold addresses.
    pub fn try_from_parts(idx: FlushState, macs: Option<MacProof>) -> (r: Result<
        EvaluatorFlush,
        FlushValidationError,
    >)
        ensures
            r is Ok <==> idx.sets().decode.len() == match macs {
                Some(m) => m.bit_seq().len(),
                None => 0,
            },
            r matches Ok(f) ==> f.index() == idx.sets() && f.proof_bits() == match macs {
                Some(m) => Some(m.bit_seq()),
                None => None::<Seq<bool>>,
            } && f.proof_digest() == match macs {
                Some(m) => Some(m.digest()),
                None => None::<Seq<u8>>,
            },
            r matches Err(e) ==> e == FlushValidationError::InvalidProofCount,
    {
        let n = match &macs {
            Some(m) => m.bits.len(),
            None => 0,
        };
        if rs_len(&idx.decode) != n {
            return Err(FlushValidationError::InvalidProofCount);
        }
        Ok(EvaluatorFlush { idx, mac_proof: macs })
    }
}

/// The sets of addresses of an [`InputState`].
pub struct InputSets {
    pub uncommitted: Set<int>,
    pub pending: Set<int>,
    pub complete: Set<int>,
    pub all: Set<int>,
}

/// The sets of addresses of an [`OutputState`].
pub struct OutputSets {
    pub uninit: Set<int>,
    pub preprocessed: Set<int>,
    pub complete: Set<int>,
    pub all: Set<int>,
}

/// The sets of addresses of a [`DecodeState`].
pub struct DecodeSets {
    pub key_bits: Set<int>,
    pub complete: Set<int>,
    pub all: Set<int>,
}

/// The input life cycle of a store.
pub struct InputState {
    /// Ranges which are allocated but not committed.
    pub(crate) uncommitted: RangeSet<usize>,
    /// Ranges which are pending commitment.
    pub(crate) pending: RangeSet<usize>,
    /// Ranges which are fully committed in both parties views.
    pub(crate) complete: RangeSet<usize>,
    /// All input ranges.
    pub(crate) all: RangeSet<usize>,
}

impl InputState {
    /// The addresses of the input state.
    pub open(crate) spec fn sets(&self) -> InputSets {
        InputSets {
            uncommitted: rs_view(self.uncommitted),
            pending: rs_view(self.pending),
            complete: rs_view(self.complete),
            all: rs_view(self.all),
        }
    }

    /// Creates an empty input state.
    pub fn new() -> (r: Self)
        ensures
            r.sets() == (InputSets {
                uncommitted: Set::empty(),
                pending: Set::empty(),
                complete: Set::empty(),
                all: Set::empty(),
            }),
    {
        Self { uncommitted: rs_empty(), pending: rs_empty(), complete: rs_empty(), all: rs_empty() }
    }
}

/// The output life cycle of a store.
pub struct OutputState {
    /// Output ranges which are allocated but not initialized.
    pub(crate) uninit: RangeSet<usize>,
    /// Output ranges which are preprocessed but not executed.
    pub(crate) preprocessed: RangeSet<usize>,
    /// Output ranges which are executed.
    pub(crate) complete: RangeSet<usize>,
    /// All output ranges.
    pub(crate) all: RangeSet<usize>,
}

impl OutputState {
    /// The addresses of the output state.
    pub open(crate) spec fn sets(&self) -> OutputSets {
        OutputSets {
            uninit: rs_view(self.uninit),
            preprocessed: rs_view(self.preprocessed),
            complete: rs_view(self.complete),
            all: rs_view(self.all),
        }
    }

    /// Creates an empty output state.
    pub fn new() -> (r: Self)
        ensures
            r.sets() == (OutputSets {
                uninit: Set::empty(),
                preprocessed: Set::empty(),
                complete: Set::empty(),
                all: Set::empty(),
            }),
    {
        Self { uninit: rs_empty(), preprocessed: rs_empty(), complete: rs_empty(), all: rs_empty() }
    }
}

/// The decoding life cycle of a store.
pub struct DecodeState {
    /// Ranges which have key bits sent.
    pub(crate) key_bits: RangeSet<usize>,
    /// Ranges which have already been decoded.
    pub(crate) complete: RangeSet<usize>,
    /// Ranges which have been pushed. This makes sure we don't get duplicates
    /// in different states.
    pub(crate) all: RangeSet<usize>,
}

impl DecodeState {
    /// The addresses of the decode state.
    pub open(crate) spec fn sets(&self) -> DecodeSets {
        DecodeSets {
            key_bits: rs_view(self.key_bits),
            complete: rs_view(self.complete),
            all: rs_view(self.all),
        }
    }

    /// Creates an empty decode state.
    pub fn new() -> (r: Self)
        ensures
            r.sets() == (DecodeSets {
                key_bits: Set::empty(),
                complete: Set::empty(),
                all: Set::empty(),
            }),
    {
        Self { key_bits: rs_empty(), complete: rs_empty(), all: rs_empty() }
    }
}

/// Two stores that mirror each other plan the same flush: when the
/// generator's public, private and blind addresses are the evaluator's public,
/// blind and private addresses, and both stores went through the same input,
/// output and decoding life cycle, the flush indices they compute are equal,
/// so the index check of the flush exchange passes on both sides.
pub proof fn lemma_mirrored_stores_plan_the_same_flush(gen: &GeneratorStore, ev: &EvaluatorStore)
    requires
        gen.wf(),
        ev.wf(),
        gen.visibility().public_addrs() == ev.visibility().public_addrs(),
        gen.visibility().private_addrs() == ev.visibility().blind_addrs(),
        gen.visibility().blind_addrs() == ev.visibility().private_addrs(),
        gen.inputs() == ev.inputs(),
        gen.outputs() == ev.outputs(),
        gen.decoding() == ev.decoding(),
    ensures
        gen.planned_flush() == ev.planned_flush(),
{
    let g = gen.planned_flush();
    let e = ev.planned_flush();
    assert(g.macs =~= e.macs);
    assert(g.ot =~= e.ot);
    assert(g.key_bits =~= e.key_bits);
    assert(g.decode =~= e.decode);
}

/// The evaluator decodes the bit the generator authenticated: when the
/// evaluator's MAC at `a` authenticates `bit` under the generator's key at `a`
/// and the generator's delta, and the key bit the evaluator received for `a`
/// is that key's pointer bit, the evaluator decodes `a` to `bit`.
pub proof fn lemma_evaluator_decodes_authenticated_bit(
    gen: &GeneratorStore,
    ev: &EvaluatorStore,
    a: int,
    bit: bool,
)
    requires
        ev.macs()[a].value() == auth_value(gen.keys()[a].value(), bit, gen.delta_value()),
        ev.key_bits()[a] == lsb(gen.keys()[a].value()),
    ensures
        ev.decoded_value(a) == bit,
{
    lemma_decode_mac(gen.keys()[a].value(), bit, gen.correlation());
}

} // verus!
