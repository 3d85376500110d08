//! The generator's memory store.
use vstd::prelude::*;
use rand_chacha::ChaCha8Rng;

use crate::binary::Binary;
use crate::cell_store::{BitStore, CellStore, StoreError};
use crate::correlated::{Block, Delta, Key, Mac};
use crate::correlated_store::{
    auth_values, decoded_bits, key_values, mac_digest, mac_values, pointer_bits, KeyStore,
    KeyStoreError,
};
use crate::decode::{DecodeError, DecodeFuture, DecodeOp};
use crate::garble::{
    DecodeSets, DecodeState, EvaluatorFlush, FlushSets, FlushState, GeneratorFlush, InputSets,
    InputState, OutputSets, OutputState,
};
use crate::memory::{Memory, Slice, View as ViewTrait};
use rangeset::set::RangeSet;
use crate::range_set::{
    addrs, rs_clone, rs_difference, rs_intersection, rs_is_disjoint,
    rs_is_subset, rs_ranges, rs_union, rs_view, covers, in_ranges, interval,
};
use crate::rng::{rng_from_seed, rng_next_u128};
use crate::visibility::Visibility;

verus! {

/// Error of a [`GeneratorStore`] operation.
#[derive(Debug)]
pub enum GeneratorStoreError {
    /// The key store refused the operation.
    KeyStore(KeyStoreError),
    /// The data store refused the operation.
    Store(StoreError),
    /// A decoded value could not be delivered.
    Decode(DecodeError),
    /// Visibility is not set for the slice.
    VisibilityNotSet { slice: Slice },
    /// Visibility is already set for the slice.
    VisibilityAlreadySet { slice: Slice },
    /// Attempted to set visibility for an output.
    VisibilityOutput { slice: Slice },
    /// Attempted to commit visible memory which is not assigned.
    NotAssigned { slice: Slice },
    /// Attempted to assign to blind memory.
    AssignedBlind { slice: Slice },
    /// Attempted to assign to an output.
    AssignedOutput { slice: Slice },
    /// Attempted to commit an output; only inputs can be committed.
    CommitOutput { slice: Slice },
    /// The evaluator's flush index differs from the generator's.
    FlushIdx { expected: FlushState, actual: FlushState },
}

/// The slices of a sequence of decoding operations.
pub open spec fn op_slices(ops: Seq<DecodeOp<Vec<bool>>>) -> Seq<Slice> {
    ops.map_values(|op: DecodeOp<Vec<bool>>| op.target())
}

/// Whether the value of the slice is known.
pub open spec fn is_ready(slice: Slice, data_set: Set<int>) -> bool {
    slice.addrs().subset_of(data_set)
}

/// `r` is the first maximal range of `visible` that holds an address outside
/// `set`, or the empty slice at address zero when `visible` lies in `set`.
pub open spec fn first_unset_range(visible: Set<int>, set: Set<int>, r: Slice) -> bool {
    if visible.subset_of(set) {
        r.start() == 0 && r.size() == 0
    } else {
        &&& r.size() > 0
        &&& r.fits()
        &&& r.addrs().subset_of(visible)
        &&& !visible.contains(r.start() - 1)
        &&& !visible.contains(r.end())
        &&& !r.addrs().subset_of(set)
        &&& forall|a: int| #[trigger] visible.contains(a) && a < r.start() ==> set.contains(a)
    }
}

/// The first range of the decomposition `rs` of `visible` that is not in
/// `set`, found at `k`, is the first unset range.
pub proof fn lemma_first_unset_range(rs: Seq<(usize, usize)>, visible: Set<int>, set: Set<int>, k: int, r: Slice)
    requires
        covers(rs, visible),
        0 <= k < rs.len(),
        forall|m: int| 0 <= m < k ==> interval(#[trigger] rs[m].0 as int, rs[m].1 as int).subset_of(set),
        r.start() == rs[k].0,
        r.end() == rs[k].1,
        r.fits(),
        !r.addrs().subset_of(set),
    ensures
        first_unset_range(visible, set, r),
{
    assert forall|a: int| r.addrs().contains(a) implies visible.contains(a) by {
        assert(rs[k].0 <= a && a < rs[k].1);
        assert(in_ranges(rs, a));
    }
    assert(!visible.subset_of(set));
    assert(rs[k].0 < rs[k].1);
    if visible.contains(r.start() - 1) {
        let a = r.start() - 1;
        assert(in_ranges(rs, a));
        let m = choose|m: int| 0 <= m < rs.len() && #[trigger] rs[m].0 <= a && a < rs[m].1;
        if m < k {
            assert(rs[m].1 < rs[k].0);
        } else if m > k {
            assert(rs[k].1 < rs[m].0);
        }
    }
    if visible.contains(r.end()) {
        let a = r.end();
        assert(in_ranges(rs, a));
        let m = choose|m: int| 0 <= m < rs.len() && #[trigger] rs[m].0 <= a && a < rs[m].1;
        if m < k {
            assert(rs[m].1 < rs[k].0);
        } else if m > k {
            assert(rs[k].1 < rs[m].0);
        }
    }
    assert forall|a: int| #[trigger] visible.contains(a) && a < r.start() implies set.contains(a) by {
        assert(in_ranges(rs, a));
        let m = choose|m: int| 0 <= m < rs.len() && #[trigger] rs[m].0 <= a && a < rs[m].1;
        if m > k {
            assert(rs[k].1 < rs[m].0);
        }
        assert(m < k);
        assert(interval(rs[m].0 as int, rs[m].1 as int).contains(a));
    }
}

/// When every range of the decomposition `rs` of `visible` lies in `set`, so
/// does `visible`.
pub proof fn lemma_all_ranges_set(rs: Seq<(usize, usize)>, visible: Set<int>, set: Set<int>)
    requires
        covers(rs, visible),
        forall|m: int| 0 <= m < rs.len() ==> interval(#[trigger] rs[m].0 as int, rs[m].1 as int).subset_of(set),
    ensures
        visible.subset_of(set),
{
    assert forall|a: int| visible.contains(a) implies set.contains(a) by {
        assert(in_ranges(rs, a));
        let m = choose|m: int| 0 <= m < rs.len() && #[trigger] rs[m].0 <= a && a < rs[m].1;
        assert(interval(rs[m].0 as int, rs[m].1 as int).contains(a));
    }
}

/// The values of the cells of `s`.
pub open spec fn slice_data(data: Seq<bool>, s: Slice) -> Seq<bool> {
    Seq::new(s.size(), |i: int| data[s.start() + i])
}

/// What answering the decoding operations `ops` delivers: for each operation
/// whose value is known, in order, its slice and the values of its cells.
pub open spec fn answers(ops: Seq<Slice>, data_set: Set<int>, data: Seq<bool>) -> Seq<(Slice, Seq<bool>)> {
    ops.filter(|s: Slice| is_ready(s, data_set)).map_values(|s: Slice| (s, slice_data(data, s)))
}

/// Answering one more operation delivers its value when it is known.
pub proof fn lemma_answers_push(ops: Seq<Slice>, s: Slice, data_set: Set<int>, data: Seq<bool>)
    ensures
        answers(ops.push(s), data_set, data) == if is_ready(s, data_set) {
            answers(ops, data_set, data).push((s, slice_data(data, s)))
        } else {
            answers(ops, data_set, data)
        },
{
    reveal_with_fuel(Seq::filter, 1);
    assert(ops.push(s).drop_last() =~= ops);
    let f = ops.filter(|x: Slice| is_ready(x, data_set));
    if is_ready(s, data_set) {
        assert(ops.push(s).filter(|x: Slice| is_ready(x, data_set)) == f.push(s));
        assert(f.push(s).map_values(|x: Slice| (x, slice_data(data, x))) =~= f.map_values(
            |x: Slice| (x, slice_data(data, x)),
        ).push((s, slice_data(data, s))));
    } else {
        assert(ops.push(s).filter(|x: Slice| is_ready(x, data_set)) == f);
    }
}

/// No decoding operation of `ops` has its value known in `data_set`.
pub open spec fn none_ready(ops: Seq<Slice>, data_set: Set<int>) -> bool {
    forall|j: int| 0 <= j < ops.len() ==> !is_ready(#[trigger] ops[j], data_set)
}

/// `pending` and `deliveries` are what answering the decoding operations
/// `ops`, in order, with the values `data` known in `data_set` leaves, from
/// the deliveries `before`. When every answer was sent (`sent`), the
/// operations whose value is unknown stay pending and every known value is
/// delivered. Otherwise sending failed on an operation whose value was
/// known, and only the operations before it were handled.
pub open spec fn answered(
    ops: Seq<Slice>,
    data_set: Set<int>,
    data: Seq<bool>,
    before: Seq<(Slice, Seq<bool>)>,
    pending: Seq<Slice>,
    deliveries: Seq<(Slice, Seq<bool>)>,
    sent: bool,
) -> bool {
    if sent {
        &&& pending == unanswered(ops, data_set)
        &&& deliveries == before + answers(ops, data_set, data)
    } else {
        exists|k: int|
            0 <= k < ops.len() && #[trigger] is_ready(ops[k], data_set) && pending == unanswered(
                ops.take(k),
                data_set,
            ) && deliveries == before + answers(ops.take(k), data_set, data)
    }
}

/// The decoding operations that remain pending once every operation whose
/// value is known has been answered.
pub open spec fn unanswered(ops: Seq<Slice>, data_set: Set<int>) -> Seq<Slice> {
    ops.filter(|s: Slice| !is_ready(s, data_set))
}

/// The generator's memory store: keys, the values it knows, their visibility
/// and their life cycle.
pub struct GeneratorStore {
    pub(crate) prg: ChaCha8Rng,
    pub(crate) key_store: KeyStore,
    pub(crate) data_store: BitStore,
    pub(crate) view: Visibility,
    pub(crate) input_state: InputState,
    pub(crate) decode_state: DecodeState,
    pub(crate) output_state: OutputState,
    pub(crate) flush_state: FlushState,
    pub(crate) buffer_decode: Vec<DecodeOp<Vec<bool>>>,
    pub(crate) delivered: Ghost<Seq<(Slice, Seq<bool>)>>,
}

impl GeneratorStore {
    /// The number of allocated cells.
    pub open(crate) spec fn size(&self) -> nat {
        self.data_store.size()
    }

    /// The keys, set or not.
    pub open(crate) spec fn keys(&self) -> Seq<Key> {
        self.key_store.key_seq()
    }

    /// The addresses whose keys are set.
    pub open(crate) spec fn key_set(&self) -> Set<int> {
        self.key_store.key_set()
    }

    /// The values, known or not.
    pub open(crate) spec fn data(&self) -> Seq<bool> {
        self.data_store.cells()
    }

    /// The addresses whose values are known.
    pub open(crate) spec fn data_set(&self) -> Set<int> {
        self.data_store.set_addrs()
    }

    /// The global correlation.
    pub open(crate) spec fn correlation(&self) -> Delta {
        self.key_store.correlation()
    }

    /// The key values at the addresses of `s`, in increasing order.
    pub open(crate) spec fn keys_at(&self, s: Set<int>) -> Seq<u128> {
        self.key_store.keys_at(s)
    }

    /// The value of the global correlation.
    pub open(crate) spec fn delta_value(&self) -> u128 {
        self.key_store.delta_value()
    }

    /// The visibility of memory.
    pub open(crate) spec fn visibility(&self) -> Visibility {
        self.view
    }

    /// The input life cycle.
    pub open(crate) spec fn inputs(&self) -> InputSets {
        self.input_state.sets()
    }

    /// The output life cycle.
    pub open(crate) spec fn outputs(&self) -> OutputSets {
        self.output_state.sets()
    }

    /// The decoding life cycle.
    pub open(crate) spec fn decoding(&self) -> DecodeSets {
        self.decode_state.sets()
    }

    /// The current flush index.
    pub open(crate) spec fn flush_sets(&self) -> FlushSets {
        self.flush_state.sets()
    }

    /// The slices of the decoding operations that wait for their values.
    pub open(crate) spec fn pending_decodes(&self) -> Seq<Slice> {
        op_slices(self.buffer_decode@)
    }

    /// What the store has delivered to decoding futures, in order: each
    /// answered operation's slice and the values sent for it.
    pub open(crate) spec fn deliveries(&self) -> Seq<(Slice, Seq<bool>)> {
        self.delivered@
    }

    /// The stores agree on the allocated memory, and every pending input has
    /// a visibility.
    pub open(crate) spec fn wf(&self) -> bool {
        &&& self.key_store.wf()
        &&& self.data_store.wf()
        &&& self.view.wf()
        &&& self.key_store.size() == self.size()
        &&& self.view.allocated() == self.size()
        &&& self.inputs().pending.subset_of(self.visibility().set_addrs())
    }

    /// The flush index the generator computes from its state: MACs for
    /// pending visible inputs, oblivious transfer for pending blind inputs, key
    /// bits for private inputs and initialized outputs not yet sent, and MAC
    /// proofs for blind inputs and executed outputs whose key bits were sent,
    /// among the values that still want decoding.
    pub open spec fn planned_flush(&self) -> FlushSets {
        let view = self.visibility();
        let wants_decode = self.decoding().all.difference(self.decoding().complete);
        let private_inputs = self.inputs().all.intersect(view.private_addrs());
        let blind_inputs = self.inputs().all.intersect(view.blind_addrs());
        let initialized_outputs = self.outputs().all.difference(self.outputs().uninit);
        let sent_key_bits = self.decoding().key_bits;
        FlushSets {
            macs: self.inputs().pending.intersect(view.visible_addrs()),
            ot: self.inputs().pending.intersect(view.blind_addrs()),
            key_bits: private_inputs.union(initialized_outputs).difference(sent_key_bits).intersect(
                wants_decode,
            ),
            decode: blind_inputs.union(self.outputs().complete.intersect(sent_key_bits)).intersect(
                wants_decode,
            ),
        }
    }

    /// Everything but the decoding buffer and the flush index is the same.
    pub open spec fn same_memory(&self, other: &GeneratorStore) -> bool {
        &&& self.size() == other.size()
        &&& self.keys() == other.keys()
        &&& self.key_set() == other.key_set()
        &&& self.data() == other.data()
        &&& self.data_set() == other.data_set()
        &&& self.correlation() == other.correlation()
        &&& self.visibility().public_addrs() == other.visibility().public_addrs()
        &&& self.visibility().private_addrs() == other.visibility().private_addrs()
        &&& self.visibility().blind_addrs() == other.visibility().blind_addrs()
    }

    /// Everything but the decoding buffer is the same.
    pub open spec fn same_state(&self, other: &GeneratorStore) -> bool {
        &&& self.same_memory(other)
        &&& self.inputs() == other.inputs()
        &&& self.outputs() == other.outputs()
        &&& self.decoding() == other.decoding()
        &&& self.flush_sets() == other.flush_sets()
    }

    /// Creates a new generator store.
    pub fn new(seed: [u8; 16], delta: Delta) -> (r: Self)
        ensures
            r.wf(),
            r.size() == 0,
            r.correlation() == delta,
            r.key_set() == Set::<int>::empty(),
            r.data_set() == Set::<int>::empty(),
            r.visibility().set_addrs() == Set::<int>::empty(),
            r.inputs() == (InputSets {
                uncommitted: Set::empty(),
                pending: Set::empty(),
                complete: Set::empty(),
                all: Set::empty(),
            }),
            r.outputs() == (OutputSets {
                uninit: Set::empty(),
                preprocessed: Set::empty(),
                complete: Set::empty(),
                all: Set::empty(),
            }),
            r.decoding() == (DecodeSets {
                key_bits: Set::empty(),
                complete: Set::empty(),
                all: Set::empty(),
            }),
            r.flush_sets() == crate::garble::empty_flush(),
            r.pending_decodes() == Seq::<Slice>::empty(),
            r.deliveries() == Seq::<(Slice, Seq<bool>)>::empty(),
    {
        let r = Self {
            prg: rng_from_seed(seed),
            key_store: KeyStore::new(delta),
            data_store: CellStore::new(),
            view: Visibility::new(),
            input_state: InputState::new(),
            decode_state: DecodeState::new(),
            output_state: OutputState::new(),
            flush_state: FlushState::new(),
            buffer_decode: Vec::new(),
            delivered: Ghost(Seq::empty()),
        };
        assert(r.pending_decodes() =~= Seq::<Slice>::empty());
        r
    }

    /// Returns delta.
    pub fn delta(&self) -> (r: &Delta)
        ensures
            *r == self.correlation(),
    {
        self.key_store.delta()
    }

    /// Returns whether all the keys are set.
    pub fn is_set_keys(&self, slice: Slice) -> (r: bool)
        requires
            self.wf(),
        ensures
            r == slice.addrs().subset_of(self.key_set()),
    {
        self.key_store.is_set(slice)
    }

    /// Returns whether the slice is committed.
    pub fn is_committed(&self, slice: Slice) -> (r: bool)
        requires
            slice.fits(),
        ensures
            r == slice.addrs().subset_of(self.inputs().complete),
    {
        rs_is_subset(&slice.to_range_set(), &self.input_state.complete)
    }

    /// Returns keys if they are set.
    ///
    /// # Security
    ///
    /// **Never** use this method to transfer MACs to the evaluator.
    pub fn try_get_keys(&self, slice: Slice) -> (r: Result<Vec<Key>, GeneratorStoreError>)
        requires
            self.wf(),
        ensures
            r is Ok <==> slice.addrs().subset_of(self.key_set()),
            r matches Ok(v) ==> v@ == Seq::new(slice.size(), |i: int| self.keys()[slice.start() + i]),
            r matches Err(e) ==> e is KeyStore,
    {
        match self.key_store.try_get(slice) {
            Ok(keys) => Ok(keys),
            Err(e) => Err(GeneratorStoreError::KeyStore(e)),
        }
    }

    /// Allocates uninitialized memory for output values.
    pub fn alloc_output(&mut self, len: usize) -> (slice: Slice)
        requires
            old(self).wf(),
            old(self).size() + len <= usize::MAX,
        ensures
            final(self).wf(),
            slice.start() == old(self).size(),
            slice.size() == len,
            slice.fits(),
            final(self).size() == old(self).size() + len,
            final(self).keys().take(old(self).size() as int) == old(self).keys(),
            final(self).key_set() == old(self).key_set(),
            final(self).data().take(old(self).size() as int) == old(self).data(),
            final(self).data_set() == old(self).data_set(),
            final(self).correlation() == old(self).correlation(),
            final(self).visibility().public_addrs() == old(self).visibility().public_addrs(),
            final(self).visibility().private_addrs() == old(self).visibility().private_addrs(),
            final(self).visibility().blind_addrs() == old(self).visibility().blind_addrs(),
            final(self).inputs() == old(self).inputs(),
            final(self).outputs() == (OutputSets {
                uninit: old(self).outputs().uninit.union(slice.addrs()),
                all: old(self).outputs().all.union(slice.addrs()),
                ..old(self).outputs()
            }),
            final(self).decoding() == old(self).decoding(),
            final(self).flush_sets() == old(self).flush_sets(),
            final(self).pending_decodes() == old(self).pending_decodes(),
    {
        self.view.allocate(len);
        self.key_store.allocate(len);
        let slice = self.data_store.allocate(len, false);
        assert(self.data().take(old(self).size() as int) =~= old(self).data());
        let range = slice.to_range_set();
        rs_union(&mut self.output_state.uninit, &range);
        rs_union(&mut self.output_state.all, &range);
        slice
    }

    /// Sets the keys for output data.
    pub fn set_output(&mut self, slice: Slice, keys: &[Key]) -> (r: Result<
        (),
        GeneratorStoreError,
    >)
        requires
            old(self).wf(),
        ensures
            final(self).wf(),
            r is Ok <==> (slice.end() <= old(self).size() && keys.len() == slice.size()),
            r is Err ==> *final(self) == *old(self),
            r is Ok ==> final(self).keys() == old(self).keys().take(slice.start()) + keys@
                + old(self).keys().skip(slice.end()),
            r is Ok ==> final(self).key_set() == old(self).key_set().union(slice.addrs()),
            r is Ok ==> final(self).outputs() == (OutputSets {
                uninit: old(self).outputs().uninit.difference(slice.addrs()),
                preprocessed: old(self).outputs().preprocessed.union(slice.addrs()),
                ..old(self).outputs()
            }),
            r is Ok ==> final(self).size() == old(self).size() && final(self).data() == old(self).data() && final(self).data_set() == old(self).data_set() && final(self).correlation() == old(self).correlation() && final(self).visibility() == old(self).visibility() && final(self).inputs() == old(self).inputs() && final(self).decoding()
                == old(self).decoding() && final(self).flush_sets() == old(self).flush_sets()
                && final(self).pending_decodes() == old(self).pending_decodes(),
    {
        match self.key_store.try_set(slice, keys) {
            Ok(()) => {},
            Err(e) => return Err(GeneratorStoreError::KeyStore(e)),
        }
        let range = slice.to_range_set();
        rs_difference(&mut self.output_state.uninit, &range);
        rs_union(&mut self.output_state.preprocessed, &range);
        Ok(())
    }

    /// Marks an output as executed.
    ///
    /// This indicates that both parties have *executed* the call which produces
    /// this output.
    pub fn mark_output(&mut self, slice: Slice)
        requires
            slice.fits(),
        ensures
            final(self).outputs() == (OutputSets {
                preprocessed: old(self).outputs().preprocessed.difference(slice.addrs()),
                complete: old(self).outputs().complete.union(slice.addrs()),
                ..old(self).outputs()
            }),
            final(self).same_memory(old(self)),
            final(self).inputs() == old(self).inputs(),
            final(self).decoding() == old(self).decoding(),
            final(self).flush_sets() == old(self).flush_sets(),
            final(self).pending_decodes() == old(self).pending_decodes(),
            old(self).wf() ==> final(self).wf(),
    {
        let range = slice.to_range_set();
        rs_difference(&mut self.output_state.preprocessed, &range);
        rs_union(&mut self.output_state.complete, &range);
    }

    /// Updates the flush state and returns `true` if the store wants to flush.
    pub fn wants_flush(&mut self) -> (r: bool)
        ensures
            final(self).flush_sets() == old(self).planned_flush(),
            old(self).outputs().complete.intersect(old(self).decoding().key_bits).intersect(
                old(self).decoding().all.difference(old(self).decoding().complete),
            ).subset_of(final(self).flush_sets().decode),
            old(self).inputs().all.intersect(old(self).visibility().blind_addrs()).intersect(
                old(self).decoding().all.difference(old(self).decoding().complete),
            ).subset_of(final(self).flush_sets().decode),
            final(self).flush_sets().decode.subset_of(
                old(self).decoding().all.difference(old(self).decoding().complete),
            ),
            r == !old(self).planned_flush().is_empty(),
            final(self).same_memory(old(self)),
            final(self).inputs() == old(self).inputs(),
            final(self).outputs() == old(self).outputs(),
            final(self).decoding() == old(self).decoding(),
            final(self).pending_decodes() == old(self).pending_decodes(),
            old(self).wf() ==> final(self).wf(),
    {
        // Send MACs for visible data.
        let mut macs = rs_clone(&self.input_state.pending);
        rs_intersection(&mut macs, &self.view.visible());
        // Send MACs using OT for blind data.
        let mut ot = rs_clone(&self.input_state.pending);
        rs_intersection(&mut ot, self.view.blind());

        let mut private_inputs = rs_clone(&self.input_state.all);
        rs_intersection(&mut private_inputs, self.view.private());
        let mut blind_inputs = rs_clone(&self.input_state.all);
        rs_intersection(&mut blind_inputs, self.view.blind());
        let mut initialized_outputs = rs_clone(&self.output_state.all);
        rs_difference(&mut initialized_outputs, &self.output_state.uninit);
        let mut wants_decode = rs_clone(&self.decode_state.all);
        rs_difference(&mut wants_decode, &self.decode_state.complete);

        // Send evaluator key bits for private inputs and initialized outputs.
        let mut key_bits = private_inputs;
        rs_union(&mut key_bits, &initialized_outputs);
        rs_difference(&mut key_bits, &self.decode_state.key_bits);
        rs_intersection(&mut key_bits, &wants_decode);
        // Expect MAC proofs for blind inputs and executed outputs.
        let mut executed_sent = rs_clone(&self.output_state.complete);
        rs_intersection(&mut executed_sent, &self.decode_state.key_bits);
        let mut decode = blind_inputs;
        rs_union(&mut decode, &executed_sent);
        rs_intersection(&mut decode, &wants_decode);

        self.flush_state = FlushState::from_sets(macs, ot, key_bits, decode);
        proof {
            assert(self.flush_sets() =~~= old(self).planned_flush());
        }
        !self.flush_state.is_empty()
    }

    /// Flushes pending operations: updates the flush state as
    /// [`wants_flush`](Self::wants_flush) does, and returns the flush message
    /// and the keys if oblivious transfer is required. The evaluator's answer
    /// is handed to [`receive_flush`](Self::receive_flush).
    pub fn flush(&mut self) -> (r: Result<(GeneratorFlush, Vec<Key>), GeneratorStoreError>)
        requires
            old(self).wf(),
        ensures
            final(self).wf(),
            final(self).flush_sets() == old(self).planned_flush(),
            final(self).same_memory(old(self)),
            final(self).inputs() == old(self).inputs(),
            final(self).outputs() == old(self).outputs(),
            final(self).decoding() == old(self).decoding(),
            final(self).pending_decodes() == old(self).pending_decodes(),
            r is Ok <==> {
                &&& old(self).planned_flush().macs.subset_of(old(self).data_set())
                &&& old(self).planned_flush().macs.subset_of(old(self).key_set())
                &&& old(self).planned_flush().ot.subset_of(old(self).key_set())
                &&& old(self).planned_flush().key_bits.subset_of(old(self).key_set())
            },
            r matches Ok(out) ==> out.0.index() == old(self).planned_flush(),
            r matches Ok(out) ==> mac_values(out.0.mac_seq()) == auth_values(
                old(self).keys_at(old(self).planned_flush().macs),
                addrs(old(self).planned_flush().macs).map_values(|a: int| old(self).data()[a]),
                old(self).delta_value(),
            ),
            r matches Ok(out) ==> key_values(out.1@) == old(self).keys_at(
                old(self).planned_flush().ot,
            ),
            r matches Ok(out) ==> out.0.key_bit_seq() == pointer_bits(
                old(self).keys_at(old(self).planned_flush().key_bits),
            ),
    {
        self.wants_flush();
        self.flush_message()
    }

    /// Builds the flush message of the current flush state, with the keys for
    /// oblivious transfer.
    fn flush_message(&self) -> (r: Result<(GeneratorFlush, Vec<Key>), GeneratorStoreError>)
        requires
            self.wf(),
        ensures
            r is Ok <==> {
                &&& self.flush_sets().macs.subset_of(self.data_set())
                &&& self.flush_sets().macs.subset_of(self.key_set())
                &&& self.flush_sets().ot.subset_of(self.key_set())
                &&& self.flush_sets().key_bits.subset_of(self.key_set())
            },
            r matches Ok(out) ==> out.0.index() == self.flush_sets(),
            r matches Ok(out) ==> mac_values(out.0.mac_seq()) == auth_values(
                self.keys_at(self.flush_sets().macs),
                addrs(self.flush_sets().macs).map_values(|a: int| self.data()[a]),
                self.delta_value(),
            ),
            r matches Ok(out) ==> key_values(out.1@) == self.keys_at(
                self.flush_sets().ot,
            ),
            r matches Ok(out) ==> out.0.key_bit_seq() == pointer_bits(
                self.keys_at(self.flush_sets().key_bits),
            ),
    {
        let idx = self.flush_state.clone();

        // Collect MACs.
        let data = match self.data_store.gather(&idx.macs) {
            Ok(data) => data,
            Err(e) => return Err(GeneratorStoreError::Store(e)),
        };
        let mac_keys = match self.key_store.keys.gather(&idx.macs) {
            Ok(keys) => keys,
            Err(e) => return Err(GeneratorStoreError::KeyStore(KeyStoreError::Store(e))),
        };
        let ghost kv = self.keys_at(self.flush_sets().macs);
        let ghost dv = addrs(self.flush_sets().macs).map_values(|a: int| self.data()[a]);
        assert(key_values(mac_keys@) =~= kv);
        let mut macs: Vec<Mac> = Vec::new();
        let mut i: usize = 0;
        while i < mac_keys.len()
            invariant
                i <= mac_keys.len(),
                data@ == dv,
                data.len() == mac_keys.len(),
                key_values(mac_keys@) == kv,
                mac_values(macs@) == auth_values(kv, dv, self.delta_value()).take(
                    i as int,
                ),
            decreases mac_keys.len() - i,
        {
            let mac = mac_keys[i].auth(data[i], &self.key_store.delta);
            let ghost prev = macs@;
            assert(kv.len() == mac_keys.len());
            assert(dv.len() == data.len());
            assert(mac_keys@[i as int].value() == kv[i as int]);
            assert(data@[i as int] == dv[i as int]);
            assert(mac.value() == auth_values(kv, dv, self.delta_value())[i as int]);
            macs.push(mac);
            assert(mac_values(macs@) =~= mac_values(prev).push(mac.value()));
            assert(auth_values(kv, dv, self.delta_value()).take(i + 1) =~= auth_values(
                kv,
                dv,
                self.delta_value(),
            ).take(i as int).push(mac.value()));
            i = i + 1;
        }
        assert(auth_values(kv, dv, self.delta_value()).take(mac_keys.len() as int)
            =~= auth_values(kv, dv, self.delta_value()));

        // Collect keys for OT.
        let keys = match self.key_store.keys.gather(&idx.ot) {
            Ok(keys) => keys,
            Err(e) => return Err(GeneratorStoreError::KeyStore(KeyStoreError::Store(e))),
        };
        assert(key_values(keys@) =~= self.keys_at(self.flush_sets().ot));

        // Collect key bits.
        let bit_keys = match self.key_store.keys.gather(&idx.key_bits) {
            Ok(keys) => keys,
            Err(e) => return Err(GeneratorStoreError::KeyStore(KeyStoreError::Store(e))),
        };
        let ghost bkv = self.keys_at(self.flush_sets().key_bits);
        assert(key_values(bit_keys@) =~= bkv);
        let mut key_bits: Vec<bool> = Vec::new();
        let mut j: usize = 0;
        while j < bit_keys.len()
            invariant
                j <= bit_keys.len(),
                key_values(bit_keys@) == bkv,
                key_bits@ == pointer_bits(bkv).take(j as int),
            decreases bit_keys.len() - j,
        {
            key_bits.push(bit_keys[j].pointer());
            assert(key_bits@ =~= pointer_bits(bkv).take(j + 1));
            j = j + 1;
        }
        assert(pointer_bits(bkv).take(bit_keys.len() as int) =~= pointer_bits(bkv));

        let flush = GeneratorFlush { idx, macs, key_bits };
        Ok((flush, keys))
    }

    /// Answers every buffered decoding operation whose value is known.
    fn flush_decode(&mut self) -> (r: Result<(), GeneratorStoreError>)
        requires
            old(self).wf(),
        ensures
            final(self).wf(),
            final(self).same_state(old(self)),
            answered(
                old(self).pending_decodes(),
                old(self).data_set(),
                old(self).data(),
                old(self).deliveries(),
                final(self).pending_decodes(),
                final(self).deliveries(),
                r is Ok,
            ),
            none_ready(old(self).pending_decodes(), old(self).data_set()) ==> r is Ok,
            r matches Err(e) ==> e is Decode,
    {
        let mut ops: Vec<DecodeOp<Vec<bool>>> = Vec::new();
        std::mem::swap(&mut ops, &mut self.buffer_decode);
        let ghost orig = old(self).pending_decodes();
        let ghost ds = self.data_set();
        proof {
            assert(op_slices(ops@) =~= orig);
            assert(orig.take(0) =~= Seq::<Slice>::empty());
            reveal_with_fuel(Seq::filter, 1);
        }
        let ghost n = ops.len();
        while ops.len() > 0
            invariant
                self.wf(),
                self.same_state(old(self)),
                ds == self.data_set(),
                orig == old(self).pending_decodes(),
                orig.len() == n,
                ops.len() <= n,
                op_slices(ops@) == orig.skip(
                    n - ops.len(),
                ),
                self.pending_decodes() == unanswered(orig.take(n - ops.len()), ds),
                self.deliveries() == old(self).deliveries() + answers(
                    orig.take(n - ops.len()),
                    ds,
                    old(self).data(),
                ),
            decreases ops.len(),
        {
            let ghost k = n - ops.len();
            let ghost before_ops = ops@;
            proof {
                assert(op_slices(before_ops)[0] == orig.skip(k)[0]);
            }
            let op = ops.remove(0);
            proof {
                reveal_with_fuel(Seq::filter, 1);
                assert(orig[k] == op.target());
                assert forall|j: int| 0 <= j < ops@.len() implies #[trigger] op_slices(ops@)[j] == orig.skip(k + 1)[j] by {
                    assert(ops@[j] == before_ops[j + 1]);
                    assert(op_slices(before_ops)[j + 1]
                        == orig.skip(k)[j + 1]);
                }
                assert(orig.take(k + 1).drop_last() =~= orig.take(k));
                assert(orig.take(k + 1).last() == orig[k]);
                assert(op_slices(ops@) =~= orig.skip(
                    k + 1,
                ));
            }
            let slice = op.slice();
            if self.data_store.is_set(slice) {
                let data = match self.data_store.try_get(slice) {
                    Ok(data) => data,
                    Err(e) => return Err(GeneratorStoreError::Store(e)),
                };
                let ghost value = data@;
                let (sent, Ghost(record)) = op.deliver(data);
                match sent {
                    Ok(()) => {},
                    Err(e) => {
                        proof {
                            assert(is_ready(orig[k], ds));
                            assert(ds == old(self).data_set());
                            assert(orig == old(self).pending_decodes());
                            assert(is_ready(old(self).pending_decodes()[k], old(self).data_set()));
                            assert(0 <= k < orig.len() && is_ready(orig[k], ds)
                                && self.pending_decodes() == unanswered(orig.take(k), ds)
                                && self.deliveries() == old(self).deliveries() + answers(
                                orig.take(k),
                                ds,
                                old(self).data(),
                            ));
                        }
                        return Err(GeneratorStoreError::Decode(e));
                    },
                }
                self.delivered = Ghost(self.delivered@.push((record.0, record.1@)));
                proof {
                    reveal_with_fuel(Seq::filter, 1);
                    assert(is_ready(slice, ds));
                    assert(unanswered(orig.take(k + 1), ds) == unanswered(orig.take(k), ds));
                    lemma_answers_push(orig.take(k as int), slice, ds, old(self).data());
                    assert(orig.take(k + 1) == orig.take(k as int).push(slice));
                    assert(value =~= slice_data(old(self).data(), slice));
                }
            } else {
                self.buffer_decode.push(op);
                proof {
                    reveal_with_fuel(Seq::filter, 1);
                    lemma_answers_push(orig.take(k as int), slice, ds, old(self).data());
                    assert(orig.take(k + 1) == orig.take(k as int).push(slice));
                    assert(self.pending_decodes() =~= unanswered(orig.take(k), ds).push(slice));
                    assert(unanswered(orig.take(k + 1), ds) == unanswered(orig.take(k), ds).push(
                        slice,
                    ));
                }
            }
        }
        proof {
            assert(orig.take(n as int) =~= orig);
        }
        Ok(())
    }

    /// Receives a flush from the evaluator.
    ///
    /// The flush must carry the generator's own flush index. Proved MACs are
    /// verified against the keys and reveal the decoded values; then the
    /// flushed inputs become committed and buffered decodings are answered.
    pub fn receive_flush(&mut self, flush: EvaluatorFlush) -> (r: Result<(), GeneratorStoreError>)
        requires
            old(self).wf(),
        ensures
            final(self).wf(),
            flush.index() != old(self).flush_sets() ==> (r matches Err(
                GeneratorStoreError::FlushIdx { expected, actual },
            ) && expected.sets() == old(self).flush_sets() && actual.sets() == flush.index())
                && *final(self) == *old(self),
            r is Ok ==> flush.index() == old(self).flush_sets(),
            flush.index() == old(self).flush_sets() && !proof_checks(old(self), &flush) ==> (r matches Err(
                e,
            ) && e is KeyStore) && *final(self) == *old(self),
            flush.index() == old(self).flush_sets() && proof_checks(old(self), &flush) ==> (r is Ok
                || r matches Err(GeneratorStoreError::Decode(_))),
            r matches Err(e) ==> (e is FlushIdx || e is KeyStore || e is Decode),
            flush.index() == old(self).flush_sets() && proof_checks(old(self), &flush) && none_ready(
                old(self).pending_decodes(),
                final(self).data_set(),
            ) ==> r is Ok,
            (r is Ok || r matches Err(GeneratorStoreError::Decode(_))) ==> answered(
                old(self).pending_decodes(),
                final(self).data_set(),
                final(self).data(),
                old(self).deliveries(),
                final(self).pending_decodes(),
                final(self).deliveries(),
                r is Ok,
            ),
            (r is Ok || r matches Err(GeneratorStoreError::Decode(_))) ==> final(self).inputs() == (InputSets {
                pending: old(self).inputs().pending.difference(flush.index().macs).difference(
                    flush.index().ot,
                ),
                complete: old(self).inputs().complete.union(flush.index().macs).union(
                    flush.index().ot,
                ),
                ..old(self).inputs()
            }),
            (r is Ok || r matches Err(GeneratorStoreError::Decode(_))) ==> final(self).decoding() == (DecodeSets {
                key_bits: old(self).decoding().key_bits.union(flush.index().key_bits),
                complete: old(self).decoding().complete.union(flush.index().decode),
                ..old(self).decoding()
            }),
            (r is Ok || r matches Err(GeneratorStoreError::Decode(_))) ==> final(self).flush_sets() == crate::garble::empty_flush(),
            (r is Ok || r matches Err(GeneratorStoreError::Decode(_))) ==> final(self).outputs() == old(self).outputs(),
            (r is Ok || r matches Err(GeneratorStoreError::Decode(_))) ==> final(self).keys() == old(self).keys() && final(self).key_set() == old(self).key_set() && final(self).size() == old(self).size(),
            (r is Ok || r matches Err(GeneratorStoreError::Decode(_))) && flush.proof_bits() is None ==> final(self).data() == old(self).data()
                && final(self).data_set() == old(self).data_set(),
            (r is Ok || r matches Err(GeneratorStoreError::Decode(_))) && flush.proof_bits() is Some ==> {
                let s = flush.index().decode;
                let keys = old(self).keys_at(s);
                let bits = decoded_bits(flush.proof_bits()->0, pointer_bits(keys));
                &&& flush.proof_bits()->0.len() == addrs(s).len()
                &&& mac_digest(auth_values(keys, bits, old(self).delta_value()))
                    == flush.proof_digest()->0
                &&& final(self).data_set() == old(self).data_set().union(s)
                &&& forall|j: int|
                    0 <= j < addrs(s).len() ==> final(self).data()[#[trigger] addrs(s)[j]]
                        == bits[j]
            },
    {
        let EvaluatorFlush { idx, mac_proof } = flush;

        // Ensure the evaluator's flush is consistent.
        if !idx.same_as(&self.flush_state) {
            let expected = self.flush_state.clone();
            return Err(GeneratorStoreError::FlushIdx { expected, actual: idx });
        }
        // Verify MACs and store the data.
        match mac_proof {
            Some(proof) => {
                let mut bits = proof.bits;
                match self.key_store.verify(&idx.decode, &mut bits, &proof.proof) {
                    Ok(()) => {},
                    Err(e) => return Err(GeneratorStoreError::KeyStore(e)),
                }
                match self.data_store.scatter(&idx.decode, bits.as_slice()) {
                    Ok(()) => {},
                    Err(e) => return Err(GeneratorStoreError::Store(e)),
                }
            },
            None => {},
        }

        rs_difference(&mut self.input_state.pending, &idx.macs);
        rs_difference(&mut self.input_state.pending, &idx.ot);
        rs_union(&mut self.input_state.complete, &idx.macs);
        rs_union(&mut self.input_state.complete, &idx.ot);

        rs_union(&mut self.decode_state.key_bits, &idx.key_bits);
        rs_union(&mut self.decode_state.complete, &idx.decode);

        self.flush_state.clear();
        self.flush_decode()
    }
}

/// The evaluator's proof in `flush`, if there is one, checks against the
/// keys of `store`: the decoded addresses have keys, there is one bit per
/// address, and the digest is that of the MACs of the decoded bits.
pub open spec fn proof_checks(store: &GeneratorStore, flush: &EvaluatorFlush) -> bool {
    let s = flush.index().decode;
    let keys = store.keys_at(s);
    flush.proof_bits() matches Some(b) ==> {
        &&& s.subset_of(store.key_set())
        &&& b.len() == addrs(s).len()
        &&& mac_digest(auth_values(keys, decoded_bits(b, pointer_bits(keys)), store.delta_value()))
            == flush.proof_digest()->0
    }
}

/// The error a visibility mark of `slice` meets, if any: the slice must have
/// no visibility yet and must not overlap an output.
pub open spec fn mark_outcome(store: &GeneratorStore, slice: Slice) -> Result<(), GeneratorStoreError> {
    if !slice.addrs().disjoint(store.visibility().set_addrs()) {
        Err(GeneratorStoreError::VisibilityAlreadySet { slice })
    } else if !slice.addrs().disjoint(store.outputs().all) {
        Err(GeneratorStoreError::VisibilityOutput { slice })
    } else {
        Ok(())
    }
}

/// A visibility is set at most once: once `marked` has a visibility, marking
/// any slice that overlaps it is refused as already set.
pub proof fn lemma_visibility_set_once(store: &GeneratorStore, marked: Slice, slice: Slice)
    requires
        marked.addrs().subset_of(store.visibility().set_addrs()),
        !slice.addrs().disjoint(marked.addrs()),
    ensures
        mark_outcome(store, slice) == Err::<(), GeneratorStoreError>(GeneratorStoreError::VisibilityAlreadySet { slice }),
{
    let a = choose|a: int| slice.addrs().contains(a) && marked.addrs().contains(a);
    assert(store.visibility().set_addrs().contains(a));
}

/// The error an assignment of `len` bits to `slice` meets, if any: the slice
/// must be visible to the generator, must not overlap an output, and must be
/// allocated and as long as the data.
pub open spec fn assign_outcome(store: &GeneratorStore, slice: Slice, len: nat) -> Result<
    (),
    GeneratorStoreError,
> {
    if !slice.addrs().subset_of(store.visibility().visible_addrs()) {
        Err(GeneratorStoreError::AssignedBlind { slice })
    } else if !slice.addrs().disjoint(store.outputs().all) {
        Err(GeneratorStoreError::AssignedOutput { slice })
    } else if slice.end() > store.size() {
        Err(GeneratorStoreError::Store(StoreError::OutOfBounds { slice }))
    } else if len != slice.size() {
        Err(
            GeneratorStoreError::Store(
                StoreError::LengthMismatch { expected: slice.size() as usize, actual: len as usize },
            ),
        )
    } else {
        Ok(())
    }
}

/// Whether a commit of `slice` succeeds: its visibility must be set, it must
/// not overlap an output, and its visible part must be assigned.
pub open spec fn commit_succeeds(store: &GeneratorStore, slice: Slice) -> bool {
    &&& slice.addrs().subset_of(store.visibility().set_addrs())
    &&& slice.addrs().disjoint(store.outputs().all)
    &&& slice.addrs().intersect(store.visibility().visible_addrs()).subset_of(store.data_set())
}

impl GeneratorStore {
    /// Marks the slice with a visibility after checking it may be marked.
    fn mark(&mut self, slice: Slice, which: u8) -> (r: Result<(), GeneratorStoreError>)
        requires
            old(self).wf(),
            slice.fits(),
        ensures
            final(self).wf(),
            r == mark_outcome(old(self), slice),
            r is Err ==> *final(self) == *old(self),
            r is Ok ==> final(self).visibility().public_addrs() == if which == 0 {
                old(self).visibility().public_addrs().union(slice.addrs())
            } else {
                old(self).visibility().public_addrs()
            },
            r is Ok ==> final(self).visibility().private_addrs() == if which == 1 {
                old(self).visibility().private_addrs().union(slice.addrs())
            } else {
                old(self).visibility().private_addrs()
            },
            r is Ok ==> final(self).visibility().blind_addrs() == if which != 0 && which != 1 {
                old(self).visibility().blind_addrs().union(slice.addrs())
            } else {
                old(self).visibility().blind_addrs()
            },
            r is Ok ==> final(self).size() == old(self).size() && final(self).keys() == old(
                self).keys() && final(self).key_set() == old(self).key_set() && final(self).data()
                == old(self).data() && final(self).data_set() == old(self).data_set() && final(
                self).correlation() == old(self).correlation() && final(self).inputs() == old(
                self).inputs() && final(self).outputs() == old(self).outputs() && final(
                self).decoding() == old(self).decoding() && final(self).flush_sets() == old(
                self).flush_sets() && final(self).pending_decodes() == old(self).pending_decodes(),
    {
        if self.view.is_set_any(slice) {
            return Err(GeneratorStoreError::VisibilityAlreadySet { slice });
        }
        if !rs_is_disjoint(&slice.to_range_set(), &self.output_state.all) {
            return Err(GeneratorStoreError::VisibilityOutput { slice });
        }
        if which == 0 {
            self.view.set_public(slice);
        } else if which == 1 {
            self.view.set_private(slice);
        } else {
            self.view.set_blind(slice);
        }
        Ok(())
    }
}

impl Memory<Binary> for GeneratorStore {
    type Error = GeneratorStoreError;

    open spec fn memory_wf(&self) -> bool {
        self.wf()
    }

    open spec fn can_alloc(&self, size: usize) -> bool {
        self.size() + size <= usize::MAX
    }

    open spec fn alloc_post(old: &Self, new: &Self, size: usize, r: Result<Slice, GeneratorStoreError>) -> bool {
        &&& (r matches Ok(slice) && slice.start() == old.size() && slice.size() == size
            && slice.fits())
        &&& (new.wf())
        &&& (new.size() == old.size() + size)
        &&& (new.keys().take(old.size() as int) == old.keys())
        &&& (r matches Ok(slice) ==> new.key_set() == old.key_set().union(
            slice.addrs(),
        ))
        &&& (new.data().take(old.size() as int) == old.data())
        &&& (new.data_set() == old.data_set())
        &&& (new.correlation() == old.correlation())
        &&& (new.visibility().public_addrs() == old.visibility().public_addrs())
        &&& (new.visibility().private_addrs() == old.visibility().private_addrs())
        &&& (new.visibility().blind_addrs() == old.visibility().blind_addrs())
        &&& (r matches Ok(slice) ==> new.inputs() == (InputSets {
            uncommitted: old.inputs().uncommitted.union(slice.addrs()),
            all: old.inputs().all.union(slice.addrs()),
            ..old.inputs()
        }))
        &&& (new.outputs() == old.outputs())
        &&& (new.decoding() == old.decoding())
        &&& (new.flush_sets() == old.flush_sets())
        &&& (new.pending_decodes() == old.pending_decodes())
    }

    fn alloc_raw(&mut self, size: usize) -> (r: Result<Slice, GeneratorStoreError>)
    {
        let mut keys: Vec<Key> = Vec::new();
        let mut i: usize = 0;
        while i < size
            invariant
                i <= size,
                keys.len() == i,
                old(self).wf(),
                old(self).size() + size <= usize::MAX,
                self.key_store == old(self).key_store,
                self.data_store == old(self).data_store,
                self.view == old(self).view,
                self.input_state == old(self).input_state,
                self.decode_state == old(self).decode_state,
                self.output_state == old(self).output_state,
                self.flush_state == old(self).flush_state,
                self.buffer_decode == old(self).buffer_decode,
            decreases size - i,
        {
            keys.push(Key::new(Block::new(rng_next_u128(&mut self.prg))));
            i = i + 1;
        }
        self.view.allocate(size);
        self.key_store.alloc_with(keys.as_slice());
        let slice = self.data_store.allocate(size, false);
        assert(self.data().take(old(self).size() as int) =~= old(self).data());
        assert(self.keys().take(old(self).size() as int) =~= old(self).keys());
        let range = slice.to_range_set();
        rs_union(&mut self.input_state.uncommitted, &range);
        rs_union(&mut self.input_state.all, &range);
        Ok(slice)
    }

    open spec fn assign_post(old: &Self, new: &Self, slice: Slice, data: Vec<bool>, r: Result<(), GeneratorStoreError>) -> bool {
        &&& (r == assign_outcome(old, slice, data@.len()))
        &&& (r is Err ==> *new == *old)
        &&& (r is Ok ==> new.data() == old.data().take(slice.start()) + data@ + old.data().skip(slice.end()))
        &&& (r is Ok ==> new.data_set() == old.data_set().union(slice.addrs()))
        &&& (r is Ok ==> new.size() == old.size() && new.keys() == old.keys() && new.key_set() == old.key_set() && new.correlation() == old.correlation() && new.visibility() == old.visibility() && new.inputs() == old.inputs() && new.outputs() == old.outputs() && new.decoding() == old.decoding() && new.flush_sets() == old.flush_sets() && new.pending_decodes() == old.pending_decodes())
    }

    fn assign_raw(&mut self, slice: Slice, data: Vec<bool>) -> (r: Result<
        (),
        GeneratorStoreError,
    >)
    {
        if !self.view.is_visible(slice) {
            return Err(GeneratorStoreError::AssignedBlind { slice });
        }
        if !rs_is_disjoint(&slice.to_range_set(), &self.output_state.all) {
            return Err(GeneratorStoreError::AssignedOutput { slice });
        }
        match self.data_store.try_set(slice, data.as_slice()) {
            Ok(()) => Ok(()),
            Err(e) => Err(GeneratorStoreError::Store(e)),
        }
    }

    open spec fn commit_post(old: &Self, new: &Self, slice: Slice, r: Result<(), GeneratorStoreError>) -> bool {
        &&& (r is Ok <==> commit_succeeds(old, slice))
        &&& (!slice.addrs().subset_of(old.visibility().set_addrs()) ==> r == Err::<(), GeneratorStoreError>(GeneratorStoreError::VisibilityNotSet { slice }))
        &&& (slice.addrs().subset_of(old.visibility().set_addrs()) && !slice.addrs().disjoint(
            old.outputs().all,
        ) ==> r == Err::<(), GeneratorStoreError>(GeneratorStoreError::CommitOutput { slice }))
        &&& (r is Err ==> *new == *old)
        &&& (r is Ok ==> new.inputs() == (InputSets {
            uncommitted: old.inputs().uncommitted.difference(slice.addrs()),
            pending: old.inputs().pending.union(slice.addrs()),
            ..old.inputs()
        }))
        &&& (r is Ok ==> new.same_memory(old) && new.outputs() == old.outputs() && new.decoding() == old.decoding() && new.flush_sets() == old.flush_sets() && new.pending_decodes()
            == old.pending_decodes())
        &&& (slice.addrs().subset_of(old.visibility().set_addrs()) && slice.addrs().disjoint(old.outputs().all)
            && !slice.addrs().intersect(old.visibility().visible_addrs()).subset_of(old.data_set()) ==> (r matches Err(
            GeneratorStoreError::NotAssigned { slice: unassigned },
        ) && first_unset_range(
            slice.addrs().intersect(old.visibility().visible_addrs()),
            old.data_set(),
            unassigned,
        )))
    }

    fn commit_raw(&mut self, slice: Slice) -> (r: Result<(), GeneratorStoreError>)
    {
        // Make sure visibility is set.
        if !self.view.is_set(slice) {
            return Err(GeneratorStoreError::VisibilityNotSet { slice });
        }
        let range = slice.to_range_set();
        if !rs_is_disjoint(&range, &self.output_state.all) {
            return Err(GeneratorStoreError::CommitOutput { slice });
        }
        // Make sure all visible ranges are assigned.
        let mut visible = rs_clone(&range);
        rs_intersection(&mut visible, &self.view.visible());
        if !rs_is_subset(&visible, self.data_store.set_ranges()) {
            let unassigned = self.first_unassigned(&visible);
            return Err(GeneratorStoreError::NotAssigned { slice: unassigned });
        }
        rs_difference(&mut self.input_state.uncommitted, &range);
        rs_union(&mut self.input_state.pending, &range);
        Ok(())
    }

    open spec fn decode_post(old: &Self, new: &Self, slice: Slice, r: Result<DecodeFuture<Vec<bool>>, GeneratorStoreError>) -> bool {
        &&& (r is Err ==> is_ready(slice, old.data_set()) && *new == *old)
        &&& (r matches Err(e) ==> e is Decode)
        &&& (r is Ok ==> new.decoding() == (DecodeSets {
            all: old.decoding().all.union(slice.addrs()),
            ..old.decoding()
        }))
        &&& (r is Ok ==> new.pending_decodes() == if is_ready(slice, old.data_set()) {
            old.pending_decodes()
        } else {
            old.pending_decodes().push(slice)
        })
        &&& (r is Ok ==> new.same_memory(old) && new.inputs() == old.inputs() && new.outputs() == old.outputs() && new.flush_sets() == old.flush_sets())
        &&& (r matches Ok(f) ==> f.target() == slice)
        &&& (r is Ok ==> new.deliveries() == if is_ready(slice, old.data_set()) {
            old.deliveries().push((slice, slice_data(old.data(), slice)))
        } else {
            old.deliveries()
        })
    }

    fn decode_raw(&mut self, slice: Slice) -> (r: Result<DecodeFuture<Vec<bool>>, GeneratorStoreError>)
    {
        let (fut, op) = DecodeFuture::new(slice);

        // If data is already decoded, send it immediately.
        match self.data_store.try_get(slice) {
            Ok(data) => {
                let ghost value = data@;
                let (sent, Ghost(record)) = op.deliver(data);
                match sent {
                    Ok(()) => {},
                    Err(e) => return Err(GeneratorStoreError::Decode(e)),
                }
                self.delivered = Ghost(self.delivered@.push((record.0, record.1@)));
                assert(value =~= slice_data(old(self).data(), slice));
            },
            Err(_) => {
                self.buffer_decode.push(op);
                assert(self.pending_decodes() =~= old(self).pending_decodes().push(slice));
            },
        }
        rs_union(&mut self.decode_state.all, &slice.to_range_set());
        Ok(fut)
    }
}

impl GeneratorStore {
    /// Returns the first range of `visible` whose data is not assigned.
    fn first_unassigned(&self, visible: &RangeSet<usize>) -> (r: Slice)
        requires
            self.wf(),
        ensures
            first_unset_range(rs_view(*visible), self.data_set(), r),
    {
        let rs = rs_ranges(visible);
        let mut k: usize = 0;
        while k < rs.len()
            invariant
                k <= rs.len(),
                self.wf(),
                covers(rs@, rs_view(*visible)),
                forall|m: int| 0 <= m < k ==> interval(#[trigger] rs@[m].0 as int, rs@[m].1 as int).subset_of(self.data_set()),
            decreases rs.len() - k,
        {
            let (a, b) = rs[k];
            proof {
                assert(rs@[k as int].0 < rs@[k as int].1);
            }
            let s = Slice::from_bounds(a, b);
            if !self.data_store.is_set(s) {
                proof {
                    lemma_first_unset_range(rs@, rs_view(*visible), self.data_set(), k as int, s);
                }
                return s;
            }
            k = k + 1;
        }
        proof {
            lemma_all_ranges_set(rs@, rs_view(*visible), self.data_set());
        }
        Slice::from_bounds(0, 0)
    }
}

impl ViewTrait for GeneratorStore {
    type Error = GeneratorStoreError;

    open spec fn view_wf(&self) -> bool {
        self.wf()
    }

    open spec fn mark_public_post(old: &Self, new: &Self, slice: Slice, r: Result<(), GeneratorStoreError>) -> bool {
        &&& (r == mark_outcome(old, slice))
        &&& (r is Err ==> *new == *old)
        &&& (r is Ok ==> new.visibility().public_addrs() == old.visibility().public_addrs().union(slice.addrs()))
        &&& (r is Ok ==> new.visibility().private_addrs() == old.visibility().private_addrs())
        &&& (r is Ok ==> new.visibility().blind_addrs() == old.visibility().blind_addrs())
        &&& (r is Ok ==> new.size() == old.size() && new.keys() == old.keys() && new.key_set() == old.key_set() && new.data() == old.data() && new.data_set() == old.data_set() && new.correlation() == old.correlation() && new.inputs() == old.inputs() && new.outputs() == old.outputs() && new.decoding() == old.decoding() && new.flush_sets() == old.flush_sets() && new.pending_decodes() == old.pending_decodes())
    }

    fn mark_public_raw(&mut self, slice: Slice) -> (r: Result<(), GeneratorStoreError>)
    {
        self.mark(slice, 0)
    }

    open spec fn mark_private_post(old: &Self, new: &Self, slice: Slice, r: Result<(), GeneratorStoreError>) -> bool {
        &&& (r == mark_outcome(old, slice))
        &&& (r is Err ==> *new == *old)
        &&& (r is Ok ==> new.visibility().public_addrs() == old.visibility().public_addrs())
        &&& (r is Ok ==> new.visibility().private_addrs() == old.visibility().private_addrs().union(slice.addrs()))
        &&& (r is Ok ==> new.visibility().blind_addrs() == old.visibility().blind_addrs())
        &&& (r is Ok ==> new.size() == old.size() && new.keys() == old.keys() && new.key_set() == old.key_set() && new.data() == old.data() && new.data_set() == old.data_set() && new.correlation() == old.correlation() && new.inputs() == old.inputs() && new.outputs() == old.outputs() && new.decoding() == old.decoding() && new.flush_sets() == old.flush_sets() && new.pending_decodes() == old.pending_decodes())
    }

    fn mark_private_raw(&mut self, slice: Slice) -> (r: Result<(), GeneratorStoreError>)
    {
        self.mark(slice, 1)
    }

    open spec fn mark_blind_post(old: &Self, new: &Self, slice: Slice, r: Result<(), GeneratorStoreError>) -> bool {
        &&& (r == mark_outcome(old, slice))
        &&& (r is Err ==> *new == *old)
        &&& (r is Ok ==> new.visibility().public_addrs() == old.visibility().public_addrs())
        &&& (r is Ok ==> new.visibility().private_addrs() == old.visibility().private_addrs())
        &&& (r is Ok ==> new.visibility().blind_addrs() == old.visibility().blind_addrs().union(slice.addrs()))
        &&& (r is Ok ==> new.size() == old.size() && new.keys() == old.keys() && new.key_set() == old.key_set() && new.data() == old.data() && new.data_set() == old.data_set() && new.correlation() == old.correlation() && new.inputs() == old.inputs() && new.outputs() == old.outputs() && new.decoding() == old.decoding() && new.flush_sets() == old.flush_sets() && new.pending_decodes() == old.pending_decodes())
    }

    fn mark_blind_raw(&mut self, slice: Slice) -> (r: Result<(), GeneratorStoreError>)
    {
        self.mark(slice, 2)
    }
}

/// What a flush decodes: every executed output whose key bit was sent and that
/// still waits to be decoded, and every blind input that waits to be decoded,
/// is in the planned decode set (a MAC proof is exchanged for it); and
/// nothing is planned for decoding that does not wait for it.
pub proof fn lemma_planned_decode(store: &GeneratorStore)
    ensures
        ({
            let waiting = store.decoding().all.difference(store.decoding().complete);
            &&& store.outputs().complete.intersect(store.decoding().key_bits).intersect(
                waiting,
            ).subset_of(store.planned_flush().decode)
            &&& store.inputs().all.intersect(store.visibility().blind_addrs()).intersect(waiting).subset_of(
                store.planned_flush().decode,
            )
            &&& store.planned_flush().decode.subset_of(waiting)
        }),
{
}

/// What a generator's flush sends: the MACs of the committed visible inputs,
/// oblivious transfers for the committed blind inputs, and the key bits of
/// the private inputs and the initialized outputs that wait to be decoded
/// and whose key bit was not sent yet; nothing else.
pub proof fn lemma_planned_flush(store: &GeneratorStore)
    ensures
        ({
            let plan = store.planned_flush();
            let view = store.visibility();
            let pending = store.inputs().pending;
            let waiting = store.decoding().all.difference(store.decoding().complete);
            let sent = store.decoding().key_bits;
            let initialized = store.outputs().all.difference(store.outputs().uninit);
            &&& pending.intersect(view.visible_addrs()).subset_of(plan.macs)
            &&& pending.intersect(view.blind_addrs()).subset_of(plan.ot)
            &&& plan.macs.subset_of(pending) && plan.ot.subset_of(pending)
            &&& plan.ot.subset_of(view.blind_addrs()) && plan.macs.subset_of(view.visible_addrs())
            &&& store.inputs().all.intersect(view.private_addrs()).union(initialized).intersect(
                waiting,
            ).difference(sent).subset_of(plan.key_bits)
            &&& plan.key_bits.subset_of(waiting.difference(sent))
        }),
{
}

} // verus!
