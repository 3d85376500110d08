//! The evaluator's memory store.
use vstd::prelude::*;

use crate::binary::Binary;
use crate::cell_store::{BitStore, CellStore, StoreError};
use crate::correlated::{lsb, Mac};
use crate::correlated_store::{mac_digest, pointer_bits, MacStore, MacStoreError};
use crate::decode::{DecodeError, DecodeFuture, DecodeOp};
use crate::garble::generator::{
    answers, first_unset_range, is_ready, lemma_all_ranges_set, lemma_answers_push,
    lemma_first_unset_range, op_slices, slice_data, unanswered, answered, none_ready,
};
use crate::garble::{
    empty_flush, DecodeSets, DecodeState, EvaluatorFlush, FlushSets, FlushState, GeneratorFlush, InputSets,
    InputState, MacProof, OutputSets, OutputState,
};
use crate::memory::{Memory, Slice, View as ViewTrait};
use rangeset::set::RangeSet;
use crate::range_set::{
    addrs, interval, rs_clone, rs_difference, rs_intersection, rs_is_disjoint,
    rs_is_empty, rs_is_subset, rs_ranges, rs_union, rs_view, covers,
};
use crate::visibility::Visibility;

verus! {

/// Error of a [`EvaluatorStore`] operation.
#[derive(Debug)]
pub enum EvaluatorStoreError {
    /// The MAC store refused the operation.
    MacStore(MacStoreError),
    /// The data store refused the operation.
    Store(StoreError),
    /// A decoded value could not be delivered.
    Decode(DecodeError),
    /// Visibility is not set for the slice.
    VisibilityNotSet { slice: Slice },
    /// Visibility is already set for the slice.
    VisibilityAlreadySet { slice: Slice },
    /// Attempted to set visibility for an output.
    VisibilityOutput { slice: Slice },
    /// Attempted to commit visible memory which is not assigned.
    NotAssigned { slice: Slice },
    /// Attempted to assign to blind memory.
    AssignedBlind { slice: Slice },
    /// Attempted to assign to an output.
    AssignedOutput { slice: Slice },
    /// Attempted to commit an output; only inputs can be committed.
    CommitOutput { slice: Slice },
    /// The generator's flush index differs from the evaluator's.
    FlushIdx { expected: FlushState, actual: FlushState },
}

/// The evaluator's memory store: MACs, the key bits received for decoding,
/// the values it knows, their visibility and their life cycle.
pub struct EvaluatorStore {
    pub(crate) mac_store: MacStore,
    pub(crate) key_bit_store: BitStore,
    pub(crate) data_store: BitStore,
    pub(crate) view: Visibility,
    pub(crate) input_state: InputState,
    pub(crate) decode_state: DecodeState,
    pub(crate) output_state: OutputState,
    pub(crate) flush_state: FlushState,
    pub(crate) buffer_decode: Vec<DecodeOp<Vec<bool>>>,
    pub(crate) delivered: Ghost<Seq<(Slice, Seq<bool>)>>,
}

impl EvaluatorStore {
    /// The number of allocated cells.
    pub open(crate) spec fn size(&self) -> nat {
        self.data_store.size()
    }

    /// The MACs, set or not.
    pub open(crate) spec fn macs(&self) -> Seq<Mac> {
        self.mac_store.mac_seq()
    }

    /// The addresses whose MACs are set.
    pub open(crate) spec fn mac_set(&self) -> Set<int> {
        self.mac_store.mac_set()
    }

    /// The key bits received, set or not.
    pub open(crate) spec fn key_bits(&self) -> Seq<bool> {
        self.key_bit_store.cells()
    }

    /// The addresses whose key bits were received.
    pub open(crate) spec fn key_bit_set(&self) -> Set<int> {
        self.key_bit_store.set_addrs()
    }

    /// The values, known or not.
    pub open(crate) spec fn data(&self) -> Seq<bool> {
        self.data_store.cells()
    }

    /// The addresses whose values are known.
    pub open(crate) spec fn data_set(&self) -> Set<int> {
        self.data_store.set_addrs()
    }

    /// The MAC values at the addresses of `s`, in increasing order.
    pub open(crate) spec fn macs_at(&self, s: Set<int>) -> Seq<u128> {
        self.mac_store.macs_at(s)
    }

    /// The visibility of memory.
    pub open(crate) spec fn visibility(&self) -> Visibility {
        self.view
    }

    /// The input life cycle.
    pub open(crate) spec fn inputs(&self) -> InputSets {
        self.input_state.sets()
    }

    /// The output life cycle.
    pub open(crate) spec fn outputs(&self) -> OutputSets {
        self.output_state.sets()
    }

    /// The decoding life cycle.
    pub open(crate) spec fn decoding(&self) -> DecodeSets {
        self.decode_state.sets()
    }

    /// The current flush index.
    pub open(crate) spec fn flush_sets(&self) -> FlushSets {
        self.flush_state.sets()
    }

    /// The slices of the decoding operations that wait for their values.
    pub open(crate) spec fn pending_decodes(&self) -> Seq<Slice> {
        op_slices(self.buffer_decode@)
    }

    /// What the store has delivered to decoding futures, in order: each
    /// answered operation's slice and the values sent for it.
    pub open(crate) spec fn deliveries(&self) -> Seq<(Slice, Seq<bool>)> {
        self.delivered@
    }

    /// The stores agree on the allocated memory, no address is flushed both
    /// directly and by oblivious transfer, and every pending input has a
    /// visibility.
    pub open(crate) spec fn wf(&self) -> bool {
        &&& self.mac_store.wf()
        &&& self.key_bit_store.wf()
        &&& self.data_store.wf()
        &&& self.view.wf()
        &&& self.mac_store.size() == self.size()
        &&& self.key_bit_store.size() == self.size()
        &&& self.view.allocated() == self.size()
        &&& self.flush_sets().macs.disjoint(self.flush_sets().ot)
        &&& self.inputs().pending.subset_of(self.visibility().set_addrs())
    }

    /// The flush index the evaluator computes from its state: MACs received
    /// directly for pending inputs that are not private, by oblivious transfer
    /// for pending private inputs, key bits for blind inputs and initialized
    /// outputs not yet received, and MAC proofs for private inputs and
    /// executed outputs whose key bits were received, among the values that
    /// still want decoding.
    pub open spec fn planned_flush(&self) -> FlushSets {
        let view = self.visibility();
        let wants_decode = self.decoding().all.difference(self.decoding().complete);
        let private_inputs = self.inputs().all.intersect(view.private_addrs());
        let blind_inputs = self.inputs().all.intersect(view.blind_addrs());
        let initialized_outputs = self.outputs().all.difference(self.outputs().uninit);
        let received_key_bits = self.decoding().key_bits;
        FlushSets {
            macs: self.inputs().pending.difference(view.private_addrs()),
            ot: self.inputs().pending.intersect(view.private_addrs()),
            key_bits: blind_inputs.union(initialized_outputs).difference(received_key_bits).intersect(
                wants_decode,
            ),
            decode: private_inputs.union(self.outputs().complete.intersect(received_key_bits)).intersect(
                wants_decode,
            ),
        }
    }

    /// The addresses whose values `decode_macs` recovers: MAC and key bit known,
    /// value not yet known.
    pub open spec fn decodable(&self) -> Set<int> {
        self.mac_set().intersect(self.key_bit_set()).difference(self.data_set())
    }

    /// The MACs, key bits and values are the same.
    pub open spec fn same_contents(&self, other: &EvaluatorStore) -> bool {
        &&& self.size() == other.size()
        &&& self.macs() == other.macs()
        &&& self.mac_set() == other.mac_set()
        &&& self.key_bits() == other.key_bits()
        &&& self.key_bit_set() == other.key_bit_set()
        &&& self.data() == other.data()
        &&& self.data_set() == other.data_set()
    }

    /// Everything but the decoding buffer and the life cycle is the same.
    pub open spec fn same_memory(&self, other: &EvaluatorStore) -> bool {
        &&& self.same_contents(other)
        &&& self.visibility().public_addrs() == other.visibility().public_addrs()
        &&& self.visibility().private_addrs() == other.visibility().private_addrs()
        &&& self.visibility().blind_addrs() == other.visibility().blind_addrs()
    }

    /// Everything but the decoding buffer is the same.
    pub open spec fn same_state(&self, other: &EvaluatorStore) -> bool {
        &&& self.same_memory(other)
        &&& self.inputs() == other.inputs()
        &&& self.outputs() == other.outputs()
        &&& self.decoding() == other.decoding()
        &&& self.flush_sets() == other.flush_sets()
    }

    /// Creates an empty evaluator store.
    pub fn new() -> (r: Self)
        ensures
            r.wf(),
            r.size() == 0,
            r.mac_set() == Set::<int>::empty(),
            r.key_bit_set() == Set::<int>::empty(),
            r.data_set() == Set::<int>::empty(),
            r.visibility().set_addrs() == Set::<int>::empty(),
            r.inputs() == (InputSets {
                uncommitted: Set::empty(),
                pending: Set::empty(),
                complete: Set::empty(),
                all: Set::empty(),
            }),
            r.outputs() == (OutputSets {
                uninit: Set::empty(),
                preprocessed: Set::empty(),
                complete: Set::empty(),
                all: Set::empty(),
            }),
            r.decoding() == (DecodeSets {
                key_bits: Set::empty(),
                complete: Set::empty(),
                all: Set::empty(),
            }),
            r.flush_sets() == crate::garble::empty_flush(),
            r.pending_decodes() == Seq::<Slice>::empty(),
            r.deliveries() == Seq::<(Slice, Seq<bool>)>::empty(),
    {
        let r = Self {
            mac_store: MacStore::new(),
            key_bit_store: CellStore::new(),
            data_store: CellStore::new(),
            view: Visibility::new(),
            input_state: InputState::new(),
            decode_state: DecodeState::new(),
            output_state: OutputState::new(),
            flush_state: FlushState::new(),
            buffer_decode: Vec::new(),
            delivered: Ghost(Seq::empty()),
        };
        assert(r.pending_decodes() =~= Seq::<Slice>::empty());
        r
    }

    /// Allocates uninitialized memory for output values.
    pub fn alloc_output(&mut self, size: usize) -> (slice: Slice)
        requires
            old(self).wf(),
            old(self).size() + size <= usize::MAX,
        ensures
            final(self).wf(),
            slice.start() == old(self).size(),
            slice.size() == size,
            slice.fits(),
            final(self).size() == old(self).size() + size,
            final(self).macs().take(old(self).size() as int) == old(self).macs(),
            final(self).mac_set() == old(self).mac_set(),
            final(self).key_bits().take(old(self).size() as int) == old(self).key_bits(),
            final(self).key_bit_set() == old(self).key_bit_set(),
            final(self).data().take(old(self).size() as int) == old(self).data(),
            final(self).data_set() == old(self).data_set(),
            final(self).visibility().public_addrs() == old(self).visibility().public_addrs(),
            final(self).visibility().private_addrs() == old(self).visibility().private_addrs(),
            final(self).visibility().blind_addrs() == old(self).visibility().blind_addrs(),
            final(self).inputs() == old(self).inputs(),
            final(self).outputs() == (OutputSets {
                uninit: old(self).outputs().uninit.union(slice.addrs()),
                all: old(self).outputs().all.union(slice.addrs()),
                ..old(self).outputs()
            }),
            final(self).decoding() == old(self).decoding(),
            final(self).flush_sets() == old(self).flush_sets(),
            final(self).pending_decodes() == old(self).pending_decodes(),
    {
        self.view.allocate(size);
        self.mac_store.allocate(size);
        self.key_bit_store.allocate(size, false);
        let slice = self.data_store.allocate(size, false);
        assert(self.data().take(old(self).size() as int) =~= old(self).data());
        assert(self.key_bits().take(old(self).size() as int) =~= old(self).key_bits());
        let range = slice.to_range_set();
        rs_union(&mut self.output_state.uninit, &range);
        rs_union(&mut self.output_state.all, &range);
        slice
    }

    /// Returns whether the MACs are set for a slice.
    pub fn is_set_macs(&self, slice: Slice) -> (r: bool)
        requires
            self.wf(),
        ensures
            r == slice.addrs().subset_of(self.mac_set()),
    {
        self.mac_store.is_set(slice)
    }

    /// Returns whether the slice is committed.
    pub fn is_committed(&self, slice: Slice) -> (r: bool)
        requires
            slice.fits(),
        ensures
            r == slice.addrs().subset_of(self.inputs().complete),
    {
        rs_is_subset(&slice.to_range_set(), &self.input_state.complete)
    }

    /// Returns the MACs for a slice.
    pub fn try_get_macs(&self, slice: Slice) -> (r: Result<Vec<Mac>, EvaluatorStoreError>)
        requires
            self.wf(),
        ensures
            r is Ok <==> slice.addrs().subset_of(self.mac_set()),
            r matches Ok(v) ==> v@ == Seq::new(slice.size(), |i: int| self.macs()[slice.start() + i]),
            r matches Err(e) ==> e is MacStore,
    {
        match self.mac_store.try_get(slice) {
            Ok(macs) => Ok(macs),
            Err(e) => Err(EvaluatorStoreError::MacStore(e)),
        }
    }

    /// Sets the MACs for a slice corresponding to output.
    pub fn set_output(&mut self, slice: Slice, macs: &[Mac]) -> (r: Result<
        (),
        EvaluatorStoreError,
    >)
        requires
            old(self).wf(),
        ensures
            final(self).wf(),
            r is Ok <==> (slice.end() <= old(self).size() && macs.len() == slice.size()),
            r is Err ==> *final(self) == *old(self),
            r is Ok ==> final(self).macs() == old(self).macs().take(slice.start()) + macs@
                + old(self).macs().skip(slice.end()),
            r is Ok ==> final(self).mac_set() == old(self).mac_set().union(slice.addrs()),
            r is Ok ==> final(self).outputs() == (OutputSets {
                uninit: old(self).outputs().uninit.difference(slice.addrs()),
                preprocessed: old(self).outputs().preprocessed.difference(slice.addrs()),
                complete: old(self).outputs().complete.union(slice.addrs()),
                ..old(self).outputs()
            }),
            r is Ok ==> final(self).size() == old(self).size() && final(self).key_bits() == old(
                self).key_bits() && final(self).key_bit_set() == old(self).key_bit_set() && final(
                self).data() == old(self).data() && final(self).data_set() == old(self).data_set()
                && final(self).visibility() == old(self).visibility() && final(self).inputs()
                == old(self).inputs() && final(self).decoding() == old(self).decoding() && final(
                self).flush_sets() == old(self).flush_sets() && final(self).pending_decodes()
                == old(self).pending_decodes() && final(self).deliveries() == old(self).deliveries(),
    {
        match self.mac_store.try_set(slice, macs) {
            Ok(()) => {},
            Err(e) => return Err(EvaluatorStoreError::MacStore(e)),
        }
        let range = slice.to_range_set();
        rs_difference(&mut self.output_state.uninit, &range);
        rs_difference(&mut self.output_state.preprocessed, &range);
        rs_union(&mut self.output_state.complete, &range);
        Ok(())
    }

    /// Marks an output as preprocessed.
    pub fn mark_output(&mut self, slice: Slice)
        requires
            slice.fits(),
        ensures
            final(self).outputs() == (OutputSets {
                uninit: old(self).outputs().uninit.difference(slice.addrs()),
                preprocessed: old(self).outputs().preprocessed.union(slice.addrs()),
                ..old(self).outputs()
            }),
            final(self).same_memory(old(self)),
            final(self).inputs() == old(self).inputs(),
            final(self).decoding() == old(self).decoding(),
            final(self).flush_sets() == old(self).flush_sets(),
            final(self).pending_decodes() == old(self).pending_decodes(),
            old(self).wf() ==> final(self).wf(),
    {
        let range = slice.to_range_set();
        rs_difference(&mut self.output_state.uninit, &range);
        rs_union(&mut self.output_state.preprocessed, &range);
    }

}

/// The MACs once the MACs of each output are written at its slice, in order.
pub open spec fn written_macs(macs: Seq<Mac>, outs: Seq<(Slice, Vec<Mac>)>) -> Seq<Mac>
    decreases outs.len(),
{
    if outs.len() == 0 {
        macs
    } else {
        let prev = written_macs(macs, outs.drop_last());
        let s = outs.last().0;
        prev.take(s.start()) + outs.last().1@ + prev.skip(s.end())
    }
}

/// The addresses of the output slices.
pub open spec fn output_addrs(outs: Seq<(Slice, Vec<Mac>)>) -> Set<int>
    decreases outs.len(),
{
    if outs.len() == 0 {
        Set::empty()
    } else {
        output_addrs(outs.drop_last()).union(outs.last().0.addrs())
    }
}

/// `new` is `old` with the MACs of the outputs set, each output complete,
/// and nothing else changed.
pub open spec fn outputs_written(
    old: &EvaluatorStore,
    new: &EvaluatorStore,
    outs: Seq<(Slice, Vec<Mac>)>,
) -> bool {
    let u = output_addrs(outs);
    &&& new.wf()
    &&& new.size() == old.size()
    &&& new.macs() == written_macs(old.macs(), outs)
    &&& new.mac_set() == old.mac_set().union(u)
    &&& new.outputs() == (OutputSets {
        uninit: old.outputs().uninit.difference(u),
        preprocessed: old.outputs().preprocessed.difference(u),
        complete: old.outputs().complete.union(u),
        ..old.outputs()
    })
    &&& new.key_bits() == old.key_bits()
    &&& new.key_bit_set() == old.key_bit_set()
    &&& new.data() == old.data()
    &&& new.data_set() == old.data_set()
    &&& new.visibility() == old.visibility()
    &&& new.inputs() == old.inputs()
    &&& new.decoding() == old.decoding()
    &&& new.flush_sets() == old.flush_sets()
    &&& new.pending_decodes() == old.pending_decodes()
    &&& new.deliveries() == old.deliveries()
}

/// `new` is what [`EvaluatorStore::flush_decode`] leaves of `old` with the
/// result `r`.
pub open spec fn decodes_flushed(
    old: &EvaluatorStore,
    new: &EvaluatorStore,
    r: Result<(), EvaluatorStoreError>,
) -> bool {
    &&& new.wf()
    &&& new.data_set() == old.data_set().union(old.decodable())
    &&& forall|a: int| #[trigger] old.decodable().contains(a) ==> new.data()[a] == old.decoded_value(a)
    &&& forall|a: int|
        0 <= a < old.size() && !old.decodable().contains(a) ==> #[trigger] new.data()[a]
            == old.data()[a]
    &&& new.size() == old.size()
    &&& new.macs() == old.macs()
    &&& new.mac_set() == old.mac_set()
    &&& new.key_bits() == old.key_bits()
    &&& new.key_bit_set() == old.key_bit_set()
    &&& new.visibility() == old.visibility()
    &&& new.inputs() == old.inputs()
    &&& new.outputs() == old.outputs()
    &&& new.decoding() == old.decoding()
    &&& new.flush_sets() == old.flush_sets()
    &&& answered(
        old.pending_decodes(),
        new.data_set(),
        new.data(),
        old.deliveries(),
        new.pending_decodes(),
        new.deliveries(),
        r is Ok,
    )
    &&& none_ready(old.pending_decodes(), new.data_set()) ==> r is Ok
    &&& r matches Err(e) ==> e is Decode
}

impl EvaluatorStore {
    /// The value the address decodes to: the pointer bit of its MAC, flipped
    /// by the key bit received for it.
    pub open spec fn decoded_value(&self, a: int) -> bool {
        lsb(self.macs()[a].value()) != self.key_bits()[a]
    }

    /// Updates the flush state and returns `true` if the store wants to flush.
    pub fn wants_flush(&mut self) -> (r: bool)
        ensures
            final(self).flush_sets() == old(self).planned_flush(),
            old(self).outputs().complete.intersect(old(self).decoding().key_bits).intersect(
                old(self).decoding().all.difference(old(self).decoding().complete),
            ).subset_of(final(self).flush_sets().decode),
            old(self).inputs().all.intersect(old(self).visibility().private_addrs()).intersect(
                old(self).decoding().all.difference(old(self).decoding().complete),
            ).subset_of(final(self).flush_sets().decode),
            final(self).flush_sets().decode.subset_of(
                old(self).decoding().all.difference(old(self).decoding().complete),
            ),
            r == !old(self).planned_flush().is_empty(),
            final(self).same_memory(old(self)),
            final(self).inputs() == old(self).inputs(),
            final(self).outputs() == old(self).outputs(),
            final(self).decoding() == old(self).decoding(),
            final(self).pending_decodes() == old(self).pending_decodes(),
            old(self).wf() ==> final(self).wf(),
    {
        // Receive MACs directly except for private data.
        let mut macs = rs_clone(&self.input_state.pending);
        rs_difference(&mut macs, self.view.private());
        // Receive MACs using OT for private data.
        let mut ot = rs_clone(&self.input_state.pending);
        rs_intersection(&mut ot, self.view.private());

        let mut private_inputs = rs_clone(&self.input_state.all);
        rs_intersection(&mut private_inputs, self.view.private());
        let mut blind_inputs = rs_clone(&self.input_state.all);
        rs_intersection(&mut blind_inputs, self.view.blind());
        let mut initialized_outputs = rs_clone(&self.output_state.all);
        rs_difference(&mut initialized_outputs, &self.output_state.uninit);
        let mut wants_decode = rs_clone(&self.decode_state.all);
        rs_difference(&mut wants_decode, &self.decode_state.complete);

        // Receive key bits for blind inputs and initialized outputs.
        let mut key_bits = blind_inputs;
        rs_union(&mut key_bits, &initialized_outputs);
        rs_difference(&mut key_bits, &self.decode_state.key_bits);
        rs_intersection(&mut key_bits, &wants_decode);
        // Send MAC proofs for private inputs and executed outputs.
        let mut executed_received = rs_clone(&self.output_state.complete);
        rs_intersection(&mut executed_received, &self.decode_state.key_bits);
        let mut decode = private_inputs;
        rs_union(&mut decode, &executed_received);
        rs_intersection(&mut decode, &wants_decode);

        self.flush_state = FlushState::from_sets(macs, ot, key_bits, decode);
        proof {
            assert(self.flush_sets() =~~= old(self).planned_flush());
        }
        !self.flush_state.is_empty()
    }

    /// Flushes pending operations: updates the flush state as
    /// [`wants_flush`](Self::wants_flush) does, and returns the flush message
    /// and the choices if oblivious transfer is required. The generator's
    /// answer is handed to [`receive_flush`](Self::receive_flush).
    pub fn flush(&mut self) -> (r: Result<(EvaluatorFlush, Vec<bool>), EvaluatorStoreError>)
        requires
            old(self).wf(),
        ensures
            final(self).wf(),
            final(self).flush_sets() == old(self).planned_flush(),
            final(self).same_memory(old(self)),
            final(self).inputs() == old(self).inputs(),
            final(self).outputs() == old(self).outputs(),
            final(self).decoding() == old(self).decoding(),
            final(self).pending_decodes() == old(self).pending_decodes(),
            r is Ok <==> {
                &&& old(self).planned_flush().ot.subset_of(old(self).data_set())
                &&& old(self).planned_flush().decode.subset_of(old(self).mac_set())
            },
            r matches Err(e) ==> if !old(self).planned_flush().ot.subset_of(old(self).data_set()) {
                e is Store
            } else {
                e is MacStore
            },
            r matches Ok(out) ==> out.0.index() == old(self).planned_flush(),
            r matches Ok(out) ==> out.1@ == addrs(old(self).planned_flush().ot).map_values(
                |a: int| old(self).data()[a],
            ),
            r matches Ok(out) ==> (out.0.proof_bits() is None <==> old(self).planned_flush().decode
                == Set::<int>::empty()),
            r matches Ok(out) ==> (out.0.proof_bits() matches Some(bits) ==> bits == pointer_bits(
                old(self).macs_at(old(self).planned_flush().decode),
            )),
            r matches Ok(out) ==> (out.0.proof_digest() matches Some(digest) ==> digest
                == mac_digest(old(self).macs_at(old(self).planned_flush().decode))),
            r matches Ok(out) ==> (out.0.proof_bits() is Some <==> out.0.proof_digest() is Some),
    {
        self.wants_flush();
        self.flush_message()
    }

    /// Builds the flush message of the current flush state, with the choices
    /// for oblivious transfer.
    fn flush_message(&self) -> (r: Result<(EvaluatorFlush, Vec<bool>), EvaluatorStoreError>)
        requires
            self.wf(),
        ensures
            r is Ok <==> {
                &&& self.flush_sets().ot.subset_of(self.data_set())
                &&& self.flush_sets().decode.subset_of(self.mac_set())
            },
            r matches Err(e) ==> if !self.flush_sets().ot.subset_of(self.data_set()) {
                e is Store
            } else {
                e is MacStore
            },
            r matches Ok(out) ==> out.0.index() == self.flush_sets(),
            r matches Ok(out) ==> out.1@ == addrs(self.flush_sets().ot).map_values(
                |a: int| self.data()[a],
            ),
            r matches Ok(out) ==> (out.0.proof_bits() is None <==> self.flush_sets().decode
                == Set::<int>::empty()),
            r matches Ok(out) ==> (out.0.proof_bits() matches Some(bits) ==> bits == pointer_bits(
                self.macs_at(self.flush_sets().decode),
            )),
            r matches Ok(out) ==> (out.0.proof_digest() matches Some(digest) ==> digest
                == mac_digest(self.macs_at(self.flush_sets().decode))),
            r matches Ok(out) ==> (out.0.proof_bits() is Some <==> out.0.proof_digest() is Some),
    {
        let idx = self.flush_state.clone();

        // Collect the choices for oblivious transfer.
        let choices = match self.data_store.gather(&idx.ot) {
            Ok(choices) => choices,
            Err(e) => return Err(EvaluatorStoreError::Store(e)),
        };

        // Prove decoded MACs to the generator.
        let mac_proof = if !rs_is_empty(&idx.decode) {
            match self.mac_store.prove(&idx.decode) {
                Ok((bits, proof)) => Some(MacProof::new(bits, proof)),
                Err(e) => return Err(EvaluatorStoreError::MacStore(e)),
            }
        } else {
            None
        };

        Ok((EvaluatorFlush { idx, mac_proof }, choices))
    }

    /// Decodes all data which is not set but whose MACs and key bits are.
    fn decode_macs(&mut self) -> (r: Result<(), EvaluatorStoreError>)
        requires
            old(self).wf(),
        ensures
            r is Ok,
            final(self).wf(),
            final(self).data_set() == old(self).data_set().union(old(self).decodable()),
            forall|a: int|
                #[trigger] old(self).decodable().contains(a) ==> final(self).data()[a] == old(self).decoded_value(a),
            forall|a: int|
                0 <= a < old(self).size() && !old(self).decodable().contains(a) ==> #[trigger] final(self).data()[a] == old(self).data()[a],
            final(self).size() == old(self).size(),
            final(self).macs() == old(self).macs(),
            final(self).mac_set() == old(self).mac_set(),
            final(self).key_bits() == old(self).key_bits(),
            final(self).key_bit_set() == old(self).key_bit_set(),
            final(self).visibility() == old(self).visibility(),
            final(self).inputs() == old(self).inputs(),
            final(self).outputs() == old(self).outputs(),
            final(self).decoding() == old(self).decoding(),
            final(self).flush_sets() == old(self).flush_sets(),
            final(self).pending_decodes() == old(self).pending_decodes(),
            final(self).deliveries() == old(self).deliveries(),
    {
        let mut idx = rs_clone(self.mac_store.set_ranges());
        rs_intersection(&mut idx, self.key_bit_store.set_ranges());
        rs_difference(&mut idx, self.data_store.set_ranges());
        let ghost d = rs_view(idx);
        assert(d =~= old(self).decodable());

        let macs = match self.mac_store.macs.gather(&idx) {
            Ok(macs) => macs,
            Err(e) => return Err(EvaluatorStoreError::MacStore(MacStoreError::Store(e))),
        };
        let key_bits = match self.key_bit_store.gather(&idx) {
            Ok(bits) => bits,
            Err(e) => return Err(EvaluatorStoreError::Store(e)),
        };
        let ghost q = addrs(d);
        let mut data: Vec<bool> = Vec::new();
        let mut i: usize = 0;
        while i < macs.len()
            invariant
                i <= macs.len(),
                macs@ == q.map_values(|a: int| self.macs()[a]),
                key_bits@ == q.map_values(|a: int| self.key_bits()[a]),
                data.len() == i,
                forall|j: int| 0 <= j < i ==> #[trigger] data@[j] == self.decoded_value(q[j]),
            decreases macs.len() - i,
        {
            data.push(macs[i].pointer() != key_bits[i]);
            i = i + 1;
        }
        let ghost before = *self;
        match self.data_store.scatter(&idx, data.as_slice()) {
            Ok(()) => {},
            Err(e) => return Err(EvaluatorStoreError::Store(e)),
        }
        proof {
            assert forall|a: int| #[trigger] d.contains(a) implies self.data()[a]
                == before.decoded_value(a) by {
                assert(q.to_set().contains(a));
                let j = choose|j: int| 0 <= j < q.len() && q[j] == a;
                assert(self.data()[q[j]] == data@[j]);
            }
        }
        Ok(())
    }

    /// Flushes decode operations: decodes what can be decoded, then answers
    /// every buffered decoding operation whose value is known.
    pub fn flush_decode(&mut self) -> (r: Result<(), EvaluatorStoreError>)
        requires
            old(self).wf(),
        ensures
            final(self).wf(),
            final(self).data_set() == old(self).data_set().union(old(self).decodable()),
            forall|a: int|
                #[trigger] old(self).decodable().contains(a) ==> final(self).data()[a] == old(self).decoded_value(a),
            forall|a: int|
                0 <= a < old(self).size() && !old(self).decodable().contains(a) ==> #[trigger] final(self).data()[a] == old(self).data()[a],
            final(self).size() == old(self).size(),
            final(self).macs() == old(self).macs(),
            final(self).mac_set() == old(self).mac_set(),
            final(self).key_bits() == old(self).key_bits(),
            final(self).key_bit_set() == old(self).key_bit_set(),
            final(self).visibility() == old(self).visibility(),
            final(self).inputs() == old(self).inputs(),
            final(self).outputs() == old(self).outputs(),
            final(self).decoding() == old(self).decoding(),
            final(self).flush_sets() == old(self).flush_sets(),
            answered(
                old(self).pending_decodes(),
                final(self).data_set(),
                final(self).data(),
                old(self).deliveries(),
                final(self).pending_decodes(),
                final(self).deliveries(),
                r is Ok,
            ),
            none_ready(old(self).pending_decodes(), final(self).data_set()) ==> r is Ok,
            r matches Err(e) ==> e is Decode,
    {
        let _ = self.decode_macs();
        self.answer_decodes()
    }

    /// Answers every buffered decoding operation whose value is known.
    fn answer_decodes(&mut self) -> (r: Result<(), EvaluatorStoreError>)
        requires
            old(self).wf(),
        ensures
            final(self).wf(),
            final(self).same_state(old(self)),
            final(self).visibility() == old(self).visibility(),
            answered(
                old(self).pending_decodes(),
                old(self).data_set(),
                old(self).data(),
                old(self).deliveries(),
                final(self).pending_decodes(),
                final(self).deliveries(),
                r is Ok,
            ),
            none_ready(old(self).pending_decodes(), old(self).data_set()) ==> r is Ok,
            r matches Err(e) ==> e is Decode,
    {
        let mut ops: Vec<DecodeOp<Vec<bool>>> = Vec::new();
        std::mem::swap(&mut ops, &mut self.buffer_decode);
        let ghost orig = old(self).pending_decodes();
        let ghost ds = self.data_set();
        proof {
            assert(op_slices(ops@) =~= orig);
            assert(orig.take(0) =~= Seq::<Slice>::empty());
            reveal_with_fuel(Seq::filter, 1);
        }
        let ghost n = ops.len();
        while ops.len() > 0
            invariant
                self.wf(),
                self.same_state(old(self)),
                self.view == old(self).view,
                ds == self.data_set(),
                orig == old(self).pending_decodes(),
                orig.len() == n,
                ops.len() <= n,
                op_slices(ops@) == orig.skip(n - ops.len()),
                self.pending_decodes() == unanswered(orig.take(n - ops.len()), ds),
                self.deliveries() == old(self).deliveries() + answers(
                    orig.take(n - ops.len()),
                    ds,
                    old(self).data(),
                ),
            decreases ops.len(),
        {
            let ghost k = n - ops.len();
            let ghost before_ops = ops@;
            proof {
                assert(op_slices(before_ops)[0] == orig.skip(k)[0]);
            }
            let op = ops.remove(0);
            proof {
                reveal_with_fuel(Seq::filter, 1);
                assert(orig[k] == op.target());
                assert forall|j: int| 0 <= j < ops@.len() implies #[trigger] op_slices(ops@)[j]
                    == orig.skip(k + 1)[j] by {
                    assert(ops@[j] == before_ops[j + 1]);
                    assert(op_slices(before_ops)[j + 1] == orig.skip(k)[j + 1]);
                }
                assert(orig.take(k + 1).drop_last() =~= orig.take(k));
                assert(orig.take(k + 1).last() == orig[k]);
                assert(op_slices(ops@) =~= orig.skip(k + 1));
            }
            let slice = op.slice();
            if self.data_store.is_set(slice) {
                let data = match self.data_store.try_get(slice) {
                    Ok(data) => data,
                    Err(e) => return Err(EvaluatorStoreError::Store(e)),
                };
                let ghost value = data@;
                let (sent, Ghost(record)) = op.deliver(data);
                match sent {
                    Ok(()) => {},
                    Err(e) => {
                        proof {
                            assert(is_ready(orig[k], ds));
                            assert(0 <= k < orig.len() && is_ready(orig[k], ds)
                                && self.pending_decodes() == unanswered(orig.take(k), ds)
                                && self.deliveries() == old(self).deliveries() + answers(
                                orig.take(k),
                                ds,
                                old(self).data(),
                            ));
                        }
                        return Err(EvaluatorStoreError::Decode(e));
                    },
                }
                self.delivered = Ghost(self.delivered@.push((record.0, record.1@)));
                proof {
                    reveal_with_fuel(Seq::filter, 1);
                    assert(is_ready(slice, ds));
                    assert(unanswered(orig.take(k + 1), ds) == unanswered(orig.take(k), ds));
                    lemma_answers_push(orig.take(k as int), slice, ds, old(self).data());
                    assert(orig.take(k + 1) == orig.take(k as int).push(slice));
                    assert(value =~= slice_data(old(self).data(), slice));
                }
            } else {
                self.buffer_decode.push(op);
                proof {
                    reveal_with_fuel(Seq::filter, 1);
                    lemma_answers_push(orig.take(k as int), slice, ds, old(self).data());
                    assert(orig.take(k + 1) == orig.take(k as int).push(slice));
                    assert(self.pending_decodes() =~= unanswered(orig.take(k), ds).push(slice));
                    assert(unanswered(orig.take(k + 1), ds) == unanswered(orig.take(k), ds).push(
                        slice,
                    ));
                }
            }
        }
        proof {
            assert(orig.take(n as int) =~= orig);
        }
        Ok(())
    }
}

impl EvaluatorStore {
    /// Receives a flush from the generator, with the MACs of the oblivious
    /// transfer.
    ///
    /// The flush must carry the evaluator's own flush index. The MACs and key
    /// bits are stored at the flushed addresses, decodable values are decoded
    /// and buffered decodings answered; then the flushed inputs become
    /// committed.
    pub fn receive_flush(&mut self, flush: GeneratorFlush, ot_macs: Vec<Mac>) -> (r: Result<
        (),
        EvaluatorStoreError,
    >)
        requires
            old(self).wf(),
            flush.index() == old(self).flush_sets() ==> {
                &&& flush.mac_seq().len() >= flush.index().macs.len()
                &&& ot_macs.len() >= flush.index().ot.len()
                &&& flush.key_bit_seq().len() >= flush.index().key_bits.len()
            },
        ensures
            final(self).wf(),
            flush.index() != old(self).flush_sets() ==> (r matches Err(
                EvaluatorStoreError::FlushIdx { expected, actual },
            ) && expected.sets() == old(self).flush_sets() && actual.sets() == flush.index())
                && *final(self) == *old(self),
            r is Ok ==> flush.index() == old(self).flush_sets(),
            r matches Err(e) ==> (e is FlushIdx || e is MacStore || e is Store || e is Decode),
            ({
                let n = old(self).size() as int;
                flush.index() == old(self).flush_sets() && !flush.index().macs.union(
                    flush.index().ot,
                ).subset_of(interval(0, n)) ==> (r matches Err(e) && e is MacStore)
            }),
            ({
                let n = old(self).size() as int;
                flush.index() == old(self).flush_sets() && flush.index().macs.union(
                    flush.index().ot,
                ).subset_of(interval(0, n)) && !flush.index().key_bits.subset_of(interval(0, n))
                    ==> (r matches Err(e) && e is Store)
            }),
            ({
                let n = old(self).size() as int;
                flush.index() == old(self).flush_sets() && flush.index().macs.union(
                    flush.index().ot,
                ).subset_of(interval(0, n)) && flush.index().key_bits.subset_of(interval(0, n))
                    ==> (r is Ok || r matches Err(EvaluatorStoreError::Decode(_)))
            }),
            ({
                let n = old(self).size() as int;
                flush.index() == old(self).flush_sets() && flush.index().macs.union(
                    flush.index().ot,
                ).subset_of(interval(0, n)) && flush.index().key_bits.subset_of(interval(0, n))
                    && none_ready(old(self).pending_decodes(), final(self).data_set()) ==> r is Ok
            }),
            (r is Ok || r matches Err(EvaluatorStoreError::Decode(_))) ==> answered(
                old(self).pending_decodes(),
                final(self).data_set(),
                final(self).data(),
                old(self).deliveries(),
                final(self).pending_decodes(),
                final(self).deliveries(),
                r is Ok,
            ),
            (r is Ok || r matches Err(EvaluatorStoreError::Decode(_))) ==> forall|j: int|
                0 <= j < addrs(flush.index().macs).len() ==> final(self).macs()[#[trigger] addrs(
                    flush.index().macs,
                )[j]] == flush.mac_seq()[j],
            (r is Ok || r matches Err(EvaluatorStoreError::Decode(_))) ==> forall|j: int|
                0 <= j < addrs(flush.index().ot).len() ==> final(self).macs()[#[trigger] addrs(
                    flush.index().ot,
                )[j]] == ot_macs@[j],
            (r is Ok || r matches Err(EvaluatorStoreError::Decode(_))) ==> forall|a: int|
                0 <= a < old(self).size() && !flush.index().macs.contains(a)
                    && !flush.index().ot.contains(a) ==> #[trigger] final(self).macs()[a] == old(self).macs()[a],
            (r is Ok || r matches Err(EvaluatorStoreError::Decode(_))) ==> forall|j: int|
                0 <= j < addrs(flush.index().key_bits).len() ==> final(self).key_bits()[#[trigger] addrs(
                    flush.index().key_bits,
                )[j]] == flush.key_bit_seq()[j],
            (r is Ok || r matches Err(EvaluatorStoreError::Decode(_))) ==> forall|a: int|
                0 <= a < old(self).size() && !flush.index().key_bits.contains(a)
                    ==> #[trigger] final(self).key_bits()[a] == old(self).key_bits()[a],
            (r is Ok || r matches Err(EvaluatorStoreError::Decode(_))) ==> final(self).mac_set() == old(self).mac_set().union(flush.index().macs).union(
                flush.index().ot,
            ),
            (r is Ok || r matches Err(EvaluatorStoreError::Decode(_))) ==> final(self).key_bit_set() == old(self).key_bit_set().union(
                flush.index().key_bits,
            ),
            (r is Ok || r matches Err(EvaluatorStoreError::Decode(_))) ==> final(self).data_set() == old(self).data_set().union(
                final(self).mac_set().intersect(final(self).key_bit_set()),
            ),
            (r is Ok || r matches Err(EvaluatorStoreError::Decode(_))) ==> forall|a: int|
                #[trigger] final(self).data_set().contains(a) && !old(self).data_set().contains(a)
                    ==> final(self).data()[a] == final(self).decoded_value(a),
            (r is Ok || r matches Err(EvaluatorStoreError::Decode(_))) ==> forall|a: int|
                #[trigger] old(self).data_set().contains(a) ==> final(self).data()[a] == old(self).data()[a],
            r is Ok ==> final(self).inputs() == (InputSets {
                pending: old(self).inputs().pending.difference(flush.index().macs).difference(
                    flush.index().ot,
                ),
                complete: old(self).inputs().complete.union(flush.index().macs).union(
                    flush.index().ot,
                ),
                ..old(self).inputs()
            }),
            r is Ok ==> final(self).decoding() == (DecodeSets {
                key_bits: old(self).decoding().key_bits.union(flush.index().key_bits),
                complete: old(self).decoding().complete.union(flush.index().decode),
                ..old(self).decoding()
            }),
            (r is Ok || r matches Err(EvaluatorStoreError::Decode(_))) ==> final(self).flush_sets() == empty_flush(),
            (r is Ok || r matches Err(EvaluatorStoreError::Decode(_))) ==> final(self).outputs() == old(self).outputs(),
            (r is Ok || r matches Err(EvaluatorStoreError::Decode(_))) ==> final(self).size() == old(self).size(),
            (r is Ok || r matches Err(EvaluatorStoreError::Decode(_))) ==> final(self).visibility() == old(self).visibility(),
    {
        let GeneratorFlush { idx, macs, key_bits } = flush;

        // Ensure the generator's flush is consistent.
        if !idx.same_as(&self.flush_state) {
            let expected = self.flush_state.clone();
            return Err(EvaluatorStoreError::FlushIdx { expected, actual: idx });
        }
        let ghost s0 = *self;
        let ghost m = rs_view(idx.macs);
        let ghost o = rs_view(idx.ot);
        let ghost kb = rs_view(idx.key_bits);
        // Receive the MACs.
        match self.mac_store.macs.scatter(&idx.macs, macs.as_slice()) {
            Ok(()) => {},
            Err(e) => {
                proof {
                    assert(!m.union(o).subset_of(interval(0, s0.size() as int)));
                }
                return Err(EvaluatorStoreError::MacStore(MacStoreError::Store(e)));
            },
        }
        let ghost s1 = *self;
        // Receive the OT MACs.
        match self.mac_store.macs.scatter(&idx.ot, ot_macs.as_slice()) {
            Ok(()) => {},
            Err(e) => {
                proof {
                    assert(!m.union(o).subset_of(interval(0, s0.size() as int)));
                }
                return Err(EvaluatorStoreError::MacStore(MacStoreError::Store(e)));
            },
        }
        proof {
            assert(m.disjoint(o));
            assert forall|j: int| 0 <= j < addrs(m).len() implies self.macs()[#[trigger] addrs(
                m,
            )[j]] == macs@[j] by {
                let a = addrs(m)[j];
                assert(addrs(m).to_set().contains(a));
                assert(m.contains(a));
                assert(!o.contains(a));
                assert(0 <= a < s0.size());
                assert(s1.macs()[a] == macs@[j]);
            }
            assert(self.mac_set() =~= s0.mac_set().union(m).union(o));
        }
        // Receive the key bits.
        match self.key_bit_store.scatter(&idx.key_bits, key_bits.as_slice()) {
            Ok(()) => {},
            Err(e) => {
                proof {
                    assert(m.union(o).subset_of(interval(0, s0.size() as int)));
                }
                return Err(EvaluatorStoreError::Store(e));
            },
        }
        proof {
            assert(m.union(o).subset_of(interval(0, s0.size() as int)));
        }

        self.flush_state.clear();
        let ghost s2 = *self;
        proof {
            assert(s2.decodable() =~= s2.mac_set().intersect(s2.key_bit_set()).difference(
                s0.data_set(),
            ));
        }
        let decoded = self.flush_decode();
        proof {
            assert(self.data_set() =~= s0.data_set().union(
                self.mac_set().intersect(self.key_bit_set()),
            ));
            assert forall|a: int| #[trigger] s0.data_set().contains(a) implies self.data()[a]
                == s0.data()[a] by {
                assert(s0.data_store.wf());
                assert(0 <= a < s0.size());
                assert(!s2.decodable().contains(a));
            }
            assert forall|a: int| #[trigger] self.data_set().contains(a) && !s0.data_set().contains(
                a,
            ) implies self.data()[a] == self.decoded_value(a) by {
                assert(s2.decodable().contains(a));
            }
        }
        match decoded {
            Ok(()) => {},
            Err(e) => return Err(e),
        }

        rs_difference(&mut self.input_state.pending, &idx.macs);
        rs_difference(&mut self.input_state.pending, &idx.ot);
        rs_union(&mut self.input_state.complete, &idx.macs);
        rs_union(&mut self.input_state.complete, &idx.ot);

        rs_union(&mut self.decode_state.key_bits, &idx.key_bits);
        rs_union(&mut self.decode_state.complete, &idx.decode);

        Ok(())
    }
}

impl Default for EvaluatorStore {
    fn default() -> (r: Self)
        ensures
            r.wf(),
            r.size() == 0,
            r.mac_set() == Set::<int>::empty(),
            r.key_bit_set() == Set::<int>::empty(),
            r.data_set() == Set::<int>::empty(),
            r.flush_sets() == empty_flush(),
            r.pending_decodes() == Seq::<Slice>::empty(),
    {
        Self::new()
    }
}

/// The error a visibility mark of `slice` meets, if any: the slice must have
/// no visibility yet and must not overlap an output.
pub open spec fn mark_outcome(store: &EvaluatorStore, slice: Slice) -> Result<(), EvaluatorStoreError> {
    if !slice.addrs().disjoint(store.visibility().set_addrs()) {
        Err(EvaluatorStoreError::VisibilityAlreadySet { slice })
    } else if !slice.addrs().disjoint(store.outputs().all) {
        Err(EvaluatorStoreError::VisibilityOutput { slice })
    } else {
        Ok(())
    }
}

/// A visibility is set at most once: once `marked` has a visibility, marking
/// any slice that overlaps it is refused as already set.
pub proof fn lemma_visibility_set_once(store: &EvaluatorStore, marked: Slice, slice: Slice)
    requires
        marked.addrs().subset_of(store.visibility().set_addrs()),
        !slice.addrs().disjoint(marked.addrs()),
    ensures
        mark_outcome(store, slice) == Err::<(), EvaluatorStoreError>(EvaluatorStoreError::VisibilityAlreadySet { slice }),
{
    let a = choose|a: int| slice.addrs().contains(a) && marked.addrs().contains(a);
    assert(store.visibility().set_addrs().contains(a));
}

/// The error an assignment of `len` bits to `slice` meets, if any: the slice
/// must be visible to the evaluator, must not overlap an output, and must be
/// allocated and as long as the data.
pub open spec fn assign_outcome(store: &EvaluatorStore, slice: Slice, len: nat) -> Result<
    (),
    EvaluatorStoreError,
> {
    if !slice.addrs().subset_of(store.visibility().visible_addrs()) {
        Err(EvaluatorStoreError::AssignedBlind { slice })
    } else if !slice.addrs().disjoint(store.outputs().all) {
        Err(EvaluatorStoreError::AssignedOutput { slice })
    } else if slice.end() > store.size() {
        Err(EvaluatorStoreError::Store(StoreError::OutOfBounds { slice }))
    } else if len != slice.size() {
        Err(
            EvaluatorStoreError::Store(
                StoreError::LengthMismatch { expected: slice.size() as usize, actual: len as usize },
            ),
        )
    } else {
        Ok(())
    }
}

/// Whether a commit of `slice` succeeds: its visibility must be set, it must
/// not overlap an output, and its visible part must be assigned.
pub open spec fn commit_succeeds(store: &EvaluatorStore, slice: Slice) -> bool {
    &&& slice.addrs().subset_of(store.visibility().set_addrs())
    &&& slice.addrs().disjoint(store.outputs().all)
    &&& slice.addrs().intersect(store.visibility().visible_addrs()).subset_of(store.data_set())
}

impl EvaluatorStore {
    /// Marks the slice with a visibility after checking it may be marked.
    fn mark(&mut self, slice: Slice, which: u8) -> (r: Result<(), EvaluatorStoreError>)
        requires
            old(self).wf(),
            slice.fits(),
        ensures
            final(self).wf(),
            r == mark_outcome(old(self), slice),
            r is Err ==> *final(self) == *old(self),
            r is Ok ==> final(self).visibility().public_addrs() == if which == 0 {
                old(self).visibility().public_addrs().union(slice.addrs())
            } else {
                old(self).visibility().public_addrs()
            },
            r is Ok ==> final(self).visibility().private_addrs() == if which == 1 {
                old(self).visibility().private_addrs().union(slice.addrs())
            } else {
                old(self).visibility().private_addrs()
            },
            r is Ok ==> final(self).visibility().blind_addrs() == if which != 0 && which != 1 {
                old(self).visibility().blind_addrs().union(slice.addrs())
            } else {
                old(self).visibility().blind_addrs()
            },
            r is Ok ==> final(self).same_contents(old(self)) && final(self).inputs() == old(
                self).inputs() && final(self).outputs() == old(self).outputs() && final(
                self).decoding() == old(self).decoding() && final(self).flush_sets() == old(
                self).flush_sets() && final(self).pending_decodes() == old(self).pending_decodes(),
    {
        if self.view.is_set_any(slice) {
            return Err(EvaluatorStoreError::VisibilityAlreadySet { slice });
        }
        if !rs_is_disjoint(&slice.to_range_set(), &self.output_state.all) {
            return Err(EvaluatorStoreError::VisibilityOutput { slice });
        }
        if which == 0 {
            self.view.set_public(slice);
        } else if which == 1 {
            self.view.set_private(slice);
        } else {
            self.view.set_blind(slice);
        }
        Ok(())
    }
}

impl Memory<Binary> for EvaluatorStore {
    type Error = EvaluatorStoreError;

    open spec fn memory_wf(&self) -> bool {
        self.wf()
    }

    open spec fn can_alloc(&self, size: usize) -> bool {
        self.size() + size <= usize::MAX
    }

    open spec fn alloc_post(old: &Self, new: &Self, size: usize, r: Result<Slice, EvaluatorStoreError>) -> bool {
        &&& (r matches Ok(slice) && slice.start() == old.size() && slice.size() == size
            && slice.fits())
        &&& (new.wf())
        &&& (new.size() == old.size() + size)
        &&& (new.macs().take(old.size() as int) == old.macs())
        &&& (new.mac_set() == old.mac_set())
        &&& (new.key_bits().take(old.size() as int) == old.key_bits())
        &&& (new.key_bit_set() == old.key_bit_set())
        &&& (new.data().take(old.size() as int) == old.data())
        &&& (new.data_set() == old.data_set())
        &&& (new.visibility().public_addrs() == old.visibility().public_addrs())
        &&& (new.visibility().private_addrs() == old.visibility().private_addrs())
        &&& (new.visibility().blind_addrs() == old.visibility().blind_addrs())
        &&& (r matches Ok(slice) ==> new.inputs() == (InputSets {
            uncommitted: old.inputs().uncommitted.union(slice.addrs()),
            all: old.inputs().all.union(slice.addrs()),
            ..old.inputs()
        }))
        &&& (new.outputs() == old.outputs())
        &&& (new.decoding() == old.decoding())
        &&& (new.flush_sets() == old.flush_sets())
        &&& (new.pending_decodes() == old.pending_decodes())
    }

    fn alloc_raw(&mut self, size: usize) -> (r: Result<Slice, EvaluatorStoreError>)
    {
        self.view.allocate(size);
        self.mac_store.allocate(size);
        self.key_bit_store.allocate(size, false);
        let slice = self.data_store.allocate(size, false);
        assert(self.data().take(old(self).size() as int) =~= old(self).data());
        assert(self.key_bits().take(old(self).size() as int) =~= old(self).key_bits());
        let range = slice.to_range_set();
        rs_union(&mut self.input_state.uncommitted, &range);
        rs_union(&mut self.input_state.all, &range);
        Ok(slice)
    }

    open spec fn assign_post(old: &Self, new: &Self, slice: Slice, data: Vec<bool>, r: Result<(), EvaluatorStoreError>) -> bool {
        &&& (r == assign_outcome(old, slice, data@.len()))
        &&& (r is Err ==> *new == *old)
        &&& (r is Ok ==> new.data() == old.data().take(slice.start()) + data@ + old.data().skip(slice.end()))
        &&& (r is Ok ==> new.data_set() == old.data_set().union(slice.addrs()))
        &&& (r is Ok ==> new.size() == old.size() && new.macs() == old.macs() && new.mac_set() == old.mac_set() && new.key_bits() == old.key_bits() && new.key_bit_set() == old.key_bit_set() && new.visibility() == old.visibility() && new.inputs() == old.inputs() && new.outputs() == old.outputs()
            && new.decoding() == old.decoding() && new.flush_sets()
            == old.flush_sets() && new.pending_decodes() == old.pending_decodes())
    }

    fn assign_raw(&mut self, slice: Slice, data: Vec<bool>) -> (r: Result<
        (),
        EvaluatorStoreError,
    >)
    {
        if !self.view.is_visible(slice) {
            return Err(EvaluatorStoreError::AssignedBlind { slice });
        }
        if !rs_is_disjoint(&slice.to_range_set(), &self.output_state.all) {
            return Err(EvaluatorStoreError::AssignedOutput { slice });
        }
        match self.data_store.try_set(slice, data.as_slice()) {
            Ok(()) => Ok(()),
            Err(e) => Err(EvaluatorStoreError::Store(e)),
        }
    }

    open spec fn commit_post(old: &Self, new: &Self, slice: Slice, r: Result<(), EvaluatorStoreError>) -> bool {
        &&& (r is Ok <==> commit_succeeds(old, slice))
        &&& (!slice.addrs().subset_of(old.visibility().set_addrs()) ==> r == Err::<(), EvaluatorStoreError>(EvaluatorStoreError::VisibilityNotSet { slice }))
        &&& (slice.addrs().subset_of(old.visibility().set_addrs()) && !slice.addrs().disjoint(
            old.outputs().all,
        ) ==> r == Err::<(), EvaluatorStoreError>(EvaluatorStoreError::CommitOutput { slice }))
        &&& (r is Err ==> *new == *old)
        &&& (r is Ok ==> new.inputs() == (InputSets {
            uncommitted: old.inputs().uncommitted.difference(slice.addrs()),
            pending: old.inputs().pending.union(slice.addrs()),
            ..old.inputs()
        }))
        &&& (r is Ok ==> new.same_memory(old) && new.outputs() == old.outputs() && new.decoding() == old.decoding() && new.flush_sets() == old.flush_sets() && new.pending_decodes()
            == old.pending_decodes())
        &&& (slice.addrs().subset_of(old.visibility().set_addrs()) && slice.addrs().disjoint(old.outputs().all)
            && !slice.addrs().intersect(old.visibility().visible_addrs()).subset_of(old.data_set()) ==> (r matches Err(
            EvaluatorStoreError::NotAssigned { slice: unassigned },
        ) && first_unset_range(
            slice.addrs().intersect(old.visibility().visible_addrs()),
            old.data_set(),
            unassigned,
        )))
    }

    fn commit_raw(&mut self, slice: Slice) -> (r: Result<(), EvaluatorStoreError>)
    {
        // Make sure visibility is set.
        if !self.view.is_set(slice) {
            return Err(EvaluatorStoreError::VisibilityNotSet { slice });
        }
        let range = slice.to_range_set();
        if !rs_is_disjoint(&range, &self.output_state.all) {
            return Err(EvaluatorStoreError::CommitOutput { slice });
        }
        // Make sure all visible ranges are assigned.
        let mut visible = rs_clone(&range);
        rs_intersection(&mut visible, &self.view.visible());
        if !rs_is_subset(&visible, self.data_store.set_ranges()) {
            let unassigned = self.first_unassigned(&visible);
            return Err(EvaluatorStoreError::NotAssigned { slice: unassigned });
        }
        rs_difference(&mut self.input_state.uncommitted, &range);
        rs_union(&mut self.input_state.pending, &range);
        Ok(())
    }

    open spec fn decode_post(old: &Self, new: &Self, slice: Slice, r: Result<DecodeFuture<Vec<bool>>, EvaluatorStoreError>) -> bool {
        &&& (r is Err ==> is_ready(slice, old.data_set()) && *new == *old)
        &&& (r matches Err(e) ==> e is Decode)
        &&& (r is Ok ==> new.decoding() == (DecodeSets {
            all: old.decoding().all.union(slice.addrs()),
            ..old.decoding()
        }))
        &&& (r is Ok ==> new.pending_decodes() == if is_ready(slice, old.data_set()) {
            old.pending_decodes()
        } else {
            old.pending_decodes().push(slice)
        })
        &&& (r is Ok ==> new.same_memory(old) && new.inputs() == old.inputs() && new.outputs() == old.outputs() && new.flush_sets() == old.flush_sets())
        &&& (r matches Ok(f) ==> f.target() == slice)
        &&& (r is Ok ==> new.deliveries() == if is_ready(slice, old.data_set()) {
            old.deliveries().push((slice, slice_data(old.data(), slice)))
        } else {
            old.deliveries()
        })
    }

    fn decode_raw(&mut self, slice: Slice) -> (r: Result<DecodeFuture<Vec<bool>>, EvaluatorStoreError>)
    {
        let (fut, op) = DecodeFuture::new(slice);

        // If data is already decoded, send it immediately.
        match self.data_store.try_get(slice) {
            Ok(data) => {
                let ghost value = data@;
                let (sent, Ghost(record)) = op.deliver(data);
                match sent {
                    Ok(()) => {},
                    Err(e) => return Err(EvaluatorStoreError::Decode(e)),
                }
                self.delivered = Ghost(self.delivered@.push((record.0, record.1@)));
                assert(value =~= slice_data(old(self).data(), slice));
            },
            Err(_) => {
                self.buffer_decode.push(op);
                assert(self.pending_decodes() =~= old(self).pending_decodes().push(slice));
            },
        }
        rs_union(&mut self.decode_state.all, &slice.to_range_set());
        Ok(fut)
    }
}

impl EvaluatorStore {
    /// Returns the first range of `visible` whose data is not assigned.
    fn first_unassigned(&self, visible: &RangeSet<usize>) -> (r: Slice)
        requires
            self.wf(),
        ensures
            first_unset_range(rs_view(*visible), self.data_set(), r),
    {
        let rs = rs_ranges(visible);
        let mut k: usize = 0;
        while k < rs.len()
            invariant
                k <= rs.len(),
                self.wf(),
                covers(rs@, rs_view(*visible)),
                forall|m: int| 0 <= m < k ==> interval(#[trigger] rs@[m].0 as int, rs@[m].1 as int).subset_of(self.data_set()),
            decreases rs.len() - k,
        {
            let (a, b) = rs[k];
            proof {
                assert(rs@[k as int].0 < rs@[k as int].1);
            }
            let s = Slice::from_bounds(a, b);
            if !self.data_store.is_set(s) {
                proof {
                    lemma_first_unset_range(rs@, rs_view(*visible), self.data_set(), k as int, s);
                }
                return s;
            }
            k = k + 1;
        }
        proof {
            lemma_all_ranges_set(rs@, rs_view(*visible), self.data_set());
        }
        Slice::from_bounds(0, 0)
    }
}

impl ViewTrait for EvaluatorStore {
    type Error = EvaluatorStoreError;

    open spec fn view_wf(&self) -> bool {
        self.wf()
    }

    open spec fn mark_public_post(old: &Self, new: &Self, slice: Slice, r: Result<(), EvaluatorStoreError>) -> bool {
        &&& (r == mark_outcome(old, slice))
        &&& (r is Err ==> *new == *old)
        &&& (r is Ok ==> new.visibility().public_addrs() == old.visibility().public_addrs().union(slice.addrs()))
        &&& (r is Ok ==> new.visibility().private_addrs() == old.visibility().private_addrs())
        &&& (r is Ok ==> new.visibility().blind_addrs() == old.visibility().blind_addrs())
        &&& (r is Ok ==> new.same_contents(old) && new.inputs() == old.inputs() && new.outputs() == old.outputs() && new.decoding() == old.decoding() && new.flush_sets() == old.flush_sets() && new.pending_decodes() == old.pending_decodes())
    }

    fn mark_public_raw(&mut self, slice: Slice) -> (r: Result<(), EvaluatorStoreError>)
    {
        self.mark(slice, 0)
    }

    open spec fn mark_private_post(old: &Self, new: &Self, slice: Slice, r: Result<(), EvaluatorStoreError>) -> bool {
        &&& (r == mark_outcome(old, slice))
        &&& (r is Err ==> *new == *old)
        &&& (r is Ok ==> new.visibility().public_addrs() == old.visibility().public_addrs())
        &&& (r is Ok ==> new.visibility().private_addrs() == old.visibility().private_addrs().union(slice.addrs()))
        &&& (r is Ok ==> new.visibility().blind_addrs() == old.visibility().blind_addrs())
        &&& (r is Ok ==> new.same_contents(old) && new.inputs() == old.inputs() && new.outputs() == old.outputs() && new.decoding() == old.decoding() && new.flush_sets() == old.flush_sets() && new.pending_decodes() == old.pending_decodes())
    }

    fn mark_private_raw(&mut self, slice: Slice) -> (r: Result<(), EvaluatorStoreError>)
    {
        self.mark(slice, 1)
    }

    open spec fn mark_blind_post(old: &Self, new: &Self, slice: Slice, r: Result<(), EvaluatorStoreError>) -> bool {
        &&& (r == mark_outcome(old, slice))
        &&& (r is Err ==> *new == *old)
        &&& (r is Ok ==> new.visibility().public_addrs() == old.visibility().public_addrs())
        &&& (r is Ok ==> new.visibility().private_addrs() == old.visibility().private_addrs())
        &&& (r is Ok ==> new.visibility().blind_addrs() == old.visibility().blind_addrs().union(slice.addrs()))
        &&& (r is Ok ==> new.same_contents(old) && new.inputs() == old.inputs() && new.outputs() == old.outputs() && new.decoding() == old.decoding() && new.flush_sets() == old.flush_sets() && new.pending_decodes() == old.pending_decodes())
    }

    fn mark_blind_raw(&mut self, slice: Slice) -> (r: Result<(), EvaluatorStoreError>)
    {
        self.mark(slice, 2)
    }
}

/// What a flush decodes: every executed output whose key bit was received and that
/// still waits to be decoded, and every private input that waits to be decoded,
/// is in the planned decode set (a MAC proof is exchanged for it); and
/// nothing is planned for decoding that does not wait for it.
pub proof fn lemma_planned_decode(store: &EvaluatorStore)
    ensures
        ({
            let waiting = store.decoding().all.difference(store.decoding().complete);
            &&& store.outputs().complete.intersect(store.decoding().key_bits).intersect(
                waiting,
            ).subset_of(store.planned_flush().decode)
            &&& store.inputs().all.intersect(store.visibility().private_addrs()).intersect(waiting).subset_of(
                store.planned_flush().decode,
            )
            &&& store.planned_flush().decode.subset_of(waiting)
        }),
{
}

/// What an evaluator's flush expects: the MACs of the committed inputs that
/// are not private to it, oblivious transfers for its committed private
/// inputs, and the key bits of the blind inputs and the initialized outputs
/// that wait to be decoded and whose key bit was not received yet.
pub proof fn lemma_planned_flush(store: &EvaluatorStore)
    ensures
        ({
            let plan = store.planned_flush();
            let view = store.visibility();
            let pending = store.inputs().pending;
            let waiting = store.decoding().all.difference(store.decoding().complete);
            let received = store.decoding().key_bits;
            let initialized = store.outputs().all.difference(store.outputs().uninit);
            &&& plan.macs.union(plan.ot) == pending
            &&& plan.macs.disjoint(plan.ot)
            &&& plan.ot.subset_of(view.private_addrs())
            &&& plan.macs.disjoint(view.private_addrs())
            &&& store.inputs().all.intersect(view.blind_addrs()).union(initialized).intersect(
                waiting,
            ).difference(received).subset_of(plan.key_bits)
            &&& plan.key_bits.subset_of(waiting.difference(received))
        }),
{
    let plan = store.planned_flush();
    assert(plan.macs.union(plan.ot) =~= store.inputs().pending);
}

} // verus!
