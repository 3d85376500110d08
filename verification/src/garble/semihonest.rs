//! The semi-honest garbled-circuit protocol parties: the calls they queue
//! and the decisions of which calls can run next.
//!
//! The exchange of garbled circuits and flushes with the other party is done
//! by the caller; these types decide, from the state of the store, which
//! queued calls are ready and with which keys or MACs.
use vstd::prelude::*;
use std::sync::Arc;

use crate::correlated::{Delta, Key, Mac};
use crate::binary::Binary;
use crate::decode::DecodeFuture;
use crate::garble::evaluator::{
    decodes_flushed, output_addrs, outputs_written, written_macs,
    assign_outcome as evaluator_assign_outcome, commit_succeeds as evaluator_commit_succeeds,
    mark_outcome as evaluator_mark_outcome, EvaluatorStore, EvaluatorStoreError,
};
use crate::garble::generator::{
    assign_outcome, commit_succeeds, is_ready, none_ready, mark_outcome as generator_mark_outcome,
    GeneratorStore, GeneratorStoreError,
};
use crate::memory::{Memory, View as ViewTrait};
use crate::memory::{same_outcome, Slice};
use crate::range_set::{rs_empty, rs_is_disjoint, rs_union, rs_view};
use crate::circuit::Circuit;
use crate::garble::OutputSets;
use crate::vm::Call;

verus! {

/// Error of the semi-honest generator: its store refused an operation.
#[derive(Debug)]
pub struct GeneratorError {}

/// Error of the semi-honest evaluator: its store refused an operation.
#[derive(Debug)]
pub struct EvaluatorError {}

/// Whether every input slice lies in the set of addresses `set`.
pub open spec fn inputs_in(inputs: Seq<Slice>, set: Set<int>) -> bool {
    forall|i: int| 0 <= i < inputs.len() ==> (#[trigger] inputs[i]).addrs().subset_of(set)
}

/// The input slices of every queued call end within `usize`.
pub open spec fn calls_fit(stack: Seq<(Call, Slice)>) -> bool {
    forall|i: int, k: int|
        0 <= i < stack.len() && 0 <= k < stack[i].0.input_slices().len() ==> (
        #[trigger] stack[i].0.input_slices()[k]).fits()
}

/// The cells of `cells` at the addresses of `slice`, in order.
pub open spec fn cells_at<T>(cells: Seq<T>, slice: Slice) -> Seq<T> {
    Seq::new(slice.size(), |i: int| cells[slice.start() + i])
}

/// The cells of `cells` at the addresses of each input, input after input.
pub open spec fn cells_of_inputs<T>(cells: Seq<T>, inputs: Seq<Slice>) -> Seq<T>
    decreases inputs.len(),
{
    if inputs.len() == 0 {
        Seq::empty()
    } else {
        cells_of_inputs(cells, inputs.drop_last()) + cells_at(cells, inputs.last())
    }
}

/// The queued calls whose inputs all lie in `set`, in queue order.
pub open spec fn ready_calls(stack: Seq<(Call, Slice)>, set: Set<int>) -> Seq<(Call, Slice)> {
    stack.filter(|e: (Call, Slice)| inputs_in(e.0.input_slices(), set))
}

/// The queued calls with an input not in `set`, in queue order.
pub open spec fn waiting_calls(stack: Seq<(Call, Slice)>, set: Set<int>) -> Seq<(Call, Slice)> {
    stack.filter(|e: (Call, Slice)| !inputs_in(e.0.input_slices(), set))
}

/// A ready call as handed to garbling or evaluation: its circuit, the cells
/// of its inputs, and its output slice.
pub open spec fn ready_job<T>(e: (Call, Slice), cells: Seq<T>) -> (Circuit, Seq<T>, Slice) {
    (e.0.circuit(), cells_of_inputs(cells, e.0.input_slices()), e.1)
}

/// Gathers the cells of the inputs of `call` from a store's cell getter.
/// `get` is the store's getter for one slice.
proof fn lemma_cells_of_inputs_push<T>(cells: Seq<T>, inputs: Seq<Slice>, k: int)
    requires
        0 <= k < inputs.len(),
    ensures
        cells_of_inputs(cells, inputs.take(k + 1)) == cells_of_inputs(cells, inputs.take(k))
            + cells_at(cells, inputs[k]),
{
    assert(inputs.take(k + 1).drop_last() =~= inputs.take(k));
}

/// The semi-honest generator.
pub struct Generator<OT> {
    pub(crate) ot: OT,
    pub(crate) store: GeneratorStore,
    pub(crate) call_stack: Vec<(Call, Slice)>,
}

impl<OT> Generator<OT> {
    /// The generator's store.
    pub open(crate) spec fn store_state(&self) -> GeneratorStore {
        self.store
    }

    /// The queued calls, with their output slices.
    pub open(crate) spec fn queued(&self) -> Seq<(Call, Slice)> {
        self.call_stack@
    }

    /// Creates a new generator.
    pub fn new(ot: OT, seed: [u8; 16], delta: Delta) -> (r: Self)
        ensures
            r.store_state().wf(),
            r.store_state().size() == 0,
            r.store_state().correlation() == delta,
            r.queued() == Seq::<(Call, Slice)>::empty(),
    {
        Self { ot, store: GeneratorStore::new(seed, delta), call_stack: Vec::new() }
    }

    /// Queues a call: allocates its output and returns the output slice.
    pub fn call_raw(&mut self, call: Call) -> (r: Result<Slice, GeneratorError>)
        requires
            old(self).store_state().wf(),
            old(self).store_state().size() + call.circuit().output_len_spec() <= usize::MAX,
        ensures
            r matches Ok(slice) && slice.start() == old(self).store_state().size() && slice.size()
                == call.circuit().output_len_spec(),
            r matches Ok(slice) ==> final(self).queued() == old(self).queued().push((call, slice)),
            final(self).store_state().wf(),
            final(self).store_state().size() == old(self).store_state().size()
                + call.circuit().output_len_spec(),
            r matches Ok(slice) ==> final(self).store_state().outputs() == (OutputSets {
                uninit: old(self).store_state().outputs().uninit.union(slice.addrs()),
                all: old(self).store_state().outputs().all.union(slice.addrs()),
                ..old(self).store_state().outputs()
            }),
            final(self).store_state().inputs() == old(self).store_state().inputs(),
    {
        let len = call.circ().output_len();
        let output = self.store.alloc_output(len);
        self.call_stack.push((call, output));
        Ok(output)
    }

    /// Takes the queued calls whose inputs all have keys, in queue order,
    /// each with its circuit, the keys of its inputs and its output slice.
    pub fn take_preprocess_calls(&mut self) -> (r: Vec<(Arc<Circuit>, Vec<Key>, Slice)>)
        requires
            old(self).store_state().wf(),
        ensures
            final(self).store_state() == old(self).store_state(),
            final(self).queued() == waiting_calls(old(self).queued(), old(self).store_state().key_set()),
            r.len() == ready_calls(old(self).queued(), old(self).store_state().key_set()).len(),
            forall|j: int|
                0 <= j < r.len() ==> ((*r@[j].0, #[trigger] r@[j].1@, r@[j].2) == ready_job(
                    ready_calls(old(self).queued(), old(self).store_state().key_set())[j],
                    old(self).store_state().keys(),
                )),
    {
        self.take_calls(true)
    }

    /// Takes the queued calls whose inputs are all committed, in queue order,
    /// each with its circuit, the keys of its inputs and its output slice.
    pub fn take_execute_calls(&mut self) -> (r: Vec<(Arc<Circuit>, Vec<Key>, Slice)>)
        requires
            old(self).store_state().wf(),
            old(self).store_state().inputs().complete.subset_of(old(self).store_state().key_set()),
            calls_fit(old(self).queued()),
        ensures
            final(self).store_state() == old(self).store_state(),
            final(self).queued() == waiting_calls(
                old(self).queued(),
                old(self).store_state().inputs().complete,
            ),
            r.len() == ready_calls(old(self).queued(), old(self).store_state().inputs().complete).len(),
            forall|j: int|
                0 <= j < r.len() ==> ((*r@[j].0, #[trigger] r@[j].1@, r@[j].2) == ready_job(
                    ready_calls(old(self).queued(), old(self).store_state().inputs().complete)[j],
                    old(self).store_state().keys(),
                )),
    {
        self.take_calls(false)
    }

    /// Takes the queued calls whose inputs all lie in the key set (when
    /// `preprocess`) or in the committed set, with the keys of their inputs.
    fn take_calls(&mut self, preprocess: bool) -> (r: Vec<(Arc<Circuit>, Vec<Key>, Slice)>)
        requires
            old(self).store_state().wf(),
            !preprocess ==> old(self).store_state().inputs().complete.subset_of(
                old(self).store_state().key_set(),
            ),
            !preprocess ==> calls_fit(old(self).queued()),
        ensures
            ({
                let set = if preprocess {
                    old(self).store_state().key_set()
                } else {
                    old(self).store_state().inputs().complete
                };
                &&& final(self).store_state() == old(self).store_state()
                &&& final(self).queued() == waiting_calls(old(self).queued(), set)
                &&& r.len() == ready_calls(old(self).queued(), set).len()
                &&& forall|j: int|
                    0 <= j < r.len() ==> ((*r@[j].0, #[trigger] r@[j].1@, r@[j].2) == ready_job(
                        ready_calls(old(self).queued(), set)[j],
                        old(self).store_state().keys(),
                    ))
            }),
    {
        let ghost set = if preprocess {
            self.store.key_set()
        } else {
            self.store.inputs().complete
        };
        let ghost orig = self.call_stack@;
        let ghost keys = self.store.keys();
        let mut stack: Vec<(Call, Slice)> = Vec::new();
        std::mem::swap(&mut stack, &mut self.call_stack);
        let ghost n = stack.len();
        let mut out: Vec<(Arc<Circuit>, Vec<Key>, Slice)> = Vec::new();
        proof {
            assert(orig.take(0) =~= Seq::<(Call, Slice)>::empty());
            reveal_with_fuel(Seq::filter, 1);
        }
        while stack.len() > 0
            invariant
                self.store == old(self).store,
                self.store.wf(),
                keys == self.store.keys(),
                set == if preprocess {
                    self.store.key_set()
                } else {
                    self.store.inputs().complete
                },
                !preprocess ==> self.store.inputs().complete.subset_of(self.store.key_set()),
                !preprocess ==> calls_fit(orig),
                orig == old(self).queued(),
                n == orig.len(),
                stack.len() <= n,
                stack@ == orig.skip(n - stack.len()),
                self.call_stack@ == waiting_calls(orig.take(n - stack.len()), set),
                out.len() == ready_calls(orig.take(n - stack.len()), set).len(),
                forall|j: int|
                    0 <= j < out.len() ==> ((*out@[j].0, #[trigger] out@[j].1@, out@[j].2)
                        == ready_job(ready_calls(orig.take(n - stack.len()), set)[j], keys)),
            decreases stack.len(),
        {
            let ghost k = n - stack.len();
            let ghost before = stack@;
            let entry = stack.remove(0);
            proof {
                assert(entry == before[0]);
                assert(before[0] == orig[k]);
                assert(stack@ =~= orig.skip(k + 1));
                assert(orig.take(k + 1).drop_last() =~= orig.take(k));
                assert(orig.take(k + 1).last() == orig[k]);
                reveal_with_fuel(Seq::filter, 1);
            }
            let (call, output) = entry;
            let inputs = call.inputs();
            let mut ready = true;
            let mut m: usize = 0;
            while m < inputs.len()
                invariant
                    m <= inputs.len(),
                    inputs@ == call.input_slices(),
                    self.store.wf(),
                    set == if preprocess {
                        self.store.key_set()
                    } else {
                        self.store.inputs().complete
                    },
                    !preprocess ==> forall|q: int|
                        0 <= q < inputs.len() ==> (#[trigger] inputs@[q]).fits(),
                    ready <==> forall|q: int| 0 <= q < m ==> (#[trigger] inputs@[q]).addrs().subset_of(set),
                decreases inputs.len() - m,
            {
                let ok = if preprocess {
                    self.store.is_set_keys(inputs[m])
                } else {
                    self.store.is_committed(inputs[m])
                };
                if !ok {
                    ready = false;
                }
                m = m + 1;
            }
            proof {
                assert(ready == inputs_in(call.input_slices(), set));
            }
            if ready {
                let mut input_keys: Vec<Key> = Vec::new();
                let mut q: usize = 0;
                while q < inputs.len()
                    invariant
                        q <= inputs.len(),
                        inputs@ == call.input_slices(),
                        self.store.wf(),
                        keys == self.store.keys(),
                        inputs_in(call.input_slices(), self.store.key_set()),
                        input_keys@ == cells_of_inputs(keys, inputs@.take(q as int)),
                    decreases inputs.len() - q,
                {
                    proof {
                        assert(inputs@[q as int].addrs().subset_of(self.store.key_set()));
                        lemma_cells_of_inputs_push(keys, inputs@, q as int);
                    }
                    let mut part = match self.store.try_get_keys(inputs[q]) {
                        Ok(part) => part,
                        Err(_) => Vec::new(),
                    };
                    proof {
                        assert(part@ =~= cells_at(keys, inputs@[q as int]));
                    }
                    input_keys.append(&mut part);
                    q = q + 1;
                }
                proof {
                    assert(inputs@.take(inputs.len() as int) =~= inputs@);
                }
                let ghost e = (call, output);
                let (circ, _) = call.into_parts();
                proof {
                    assert(ready_job(e, keys) == (*circ, input_keys@, output));
                    assert(ready_calls(orig.take(k + 1), set) == ready_calls(orig.take(k), set).push(e));
                }
                let ghost prev = out@;
                out.push((circ, input_keys, output));
                proof {
                    assert forall|j: int| 0 <= j < out.len() implies ((*out@[j].0, #[trigger] out@[j].1@, out@[j].2)
                        == ready_job(ready_calls(orig.take(k + 1), set)[j], keys)) by {
                        if j < prev.len() {
                            assert(out@[j] == prev[j]);
                            assert((*prev[j].0, prev[j].1@, prev[j].2) == ready_job(ready_calls(orig.take(k), set)[j], keys));
                        }
                    }
                }
            } else {
                self.call_stack.push((call, output));
            }
        }
        proof {
            assert(orig.take(n as int) =~= orig);
        }
        out
    }
}

/// Whether no input slice overlaps the addresses `outputs`.
pub open spec fn inputs_disjoint(inputs: Seq<Slice>, outputs: Set<int>) -> bool {
    forall|i: int| 0 <= i < inputs.len() ==> (#[trigger] inputs[i]).addrs().disjoint(outputs)
}

/// Scans the queued calls in order, taking each call none of whose inputs
/// overlaps the output of a call taken before it: the calls taken, the calls
/// left, and the addresses of the outputs taken.
pub open spec fn independent_scan(stack: Seq<(Call, Slice)>) -> (
    Seq<(Call, Slice)>,
    Seq<(Call, Slice)>,
    Set<int>,
)
    decreases stack.len(),
{
    if stack.len() == 0 {
        (Seq::empty(), Seq::empty(), Set::empty())
    } else {
        let prev = independent_scan(stack.drop_last());
        let e = stack.last();
        if inputs_disjoint(e.0.input_slices(), prev.2) {
            (prev.0.push(e), prev.1, prev.2.union(e.1.addrs()))
        } else {
            (prev.0, prev.1.push(e), prev.2)
        }
    }
}

/// The entries of `s` whose flag in `flags` is `keep`, in order.
pub open spec fn select<A>(s: Seq<A>, flags: Seq<bool>, keep: bool) -> Seq<A>
    decreases s.len(),
{
    if s.len() == 0 {
        Seq::empty()
    } else {
        let p = select(s.drop_last(), flags.drop_last(), keep);
        if flags[s.len() - 1] == keep {
            p.push(s.last())
        } else {
            p
        }
    }
}

/// The addresses of the outputs of the calls before position `i` whose flag
/// is set.
pub open spec fn flagged_outputs(stack: Seq<(Call, Slice)>, flags: Seq<bool>, i: int) -> Set<int> {
    Set::new(
        |a: int| exists|j: int| 0 <= j < i && flags[j] && #[trigger] stack[j].1.addrs().contains(a),
    )
}

/// The calls that the scan takes, as flags.
spec fn scan_flags(stack: Seq<(Call, Slice)>) -> Seq<bool>
    decreases stack.len(),
{
    if stack.len() == 0 {
        Seq::empty()
    } else {
        scan_flags(stack.drop_last()).push(
            inputs_disjoint(stack.last().0.input_slices(), independent_scan(stack.drop_last()).2),
        )
    }
}

/// The scan splits the queue as its flags say.
proof fn lemma_scan_flags(stack: Seq<(Call, Slice)>)
    ensures
        scan_flags(stack).len() == stack.len(),
        independent_scan(stack).0 == select(stack, scan_flags(stack), true),
        independent_scan(stack).1 == select(stack, scan_flags(stack), false),
        independent_scan(stack).2 == flagged_outputs(stack, scan_flags(stack), stack.len() as int),
        forall|i: int|
            0 <= i < stack.len() ==> (#[trigger] scan_flags(stack)[i] <==> inputs_disjoint(
                stack[i].0.input_slices(),
                flagged_outputs(stack, scan_flags(stack), i),
            )),
    decreases stack.len(),
{
    if stack.len() == 0 {
        assert(flagged_outputs(stack, scan_flags(stack), 0) =~= Set::<int>::empty());
    } else {
        let n = stack.len() - 1;
        let sp = stack.drop_last();
        lemma_scan_flags(sp);
        let fp = scan_flags(sp);
        let f = scan_flags(stack);
        let e = stack.last();
        let b = inputs_disjoint(e.0.input_slices(), independent_scan(sp).2);
        assert(f.drop_last() =~= fp);
        assert(f[n] == b);
        assert forall|i: int| 0 <= i <= n implies #[trigger] flagged_outputs(stack, f, i)
            == flagged_outputs(sp, fp, i) by {
            assert forall|a: int| flagged_outputs(stack, f, i).contains(a) <==> flagged_outputs(
                sp,
                fp,
                i,
            ).contains(a) by {
                if flagged_outputs(stack, f, i).contains(a) {
                    let j = choose|j: int| 0 <= j < i && f[j] && #[trigger] stack[j].1.addrs().contains(a);
                    assert(sp[j] == stack[j] && fp[j] == f[j]);
                }
                if flagged_outputs(sp, fp, i).contains(a) {
                    let j = choose|j: int| 0 <= j < i && fp[j] && #[trigger] sp[j].1.addrs().contains(a);
                    assert(sp[j] == stack[j] && fp[j] == f[j]);
                }
            }
            assert(flagged_outputs(stack, f, i) =~= flagged_outputs(sp, fp, i));
        }
        let whole = flagged_outputs(stack, f, stack.len() as int);
        let before = flagged_outputs(stack, f, n);
        assert forall|a: int| whole.contains(a) <==> (before.contains(a) || (b
            && e.1.addrs().contains(a))) by {
            if whole.contains(a) {
                let j = choose|j: int| 0 <= j < stack.len() && f[j] && #[trigger] stack[j].1.addrs().contains(a);
                if j < n {
                    assert(before.contains(a));
                }
            }
            if b && e.1.addrs().contains(a) {
                assert(stack[n] == e);
                assert(0 <= n < stack.len() && f[n] && stack[n].1.addrs().contains(a));
            }
            if before.contains(a) {
                let j = choose|j: int| 0 <= j < n && f[j] && #[trigger] stack[j].1.addrs().contains(a);
                assert(0 <= j < stack.len() && f[j] && stack[j].1.addrs().contains(a));
            }
        }
        if b {
            assert(independent_scan(stack).2 =~= whole);
        } else {
            assert(independent_scan(stack).2 =~= whole);
        }
        assert forall|i: int| 0 <= i < stack.len() implies (#[trigger] f[i] <==> inputs_disjoint(
            stack[i].0.input_slices(),
            flagged_outputs(stack, f, i),
        )) by {
            if i < n {
                assert(f[i] == fp[i]);
                assert(stack[i] == sp[i]);
                assert(flagged_outputs(stack, f, i) == flagged_outputs(sp, fp, i));
            } else {
                assert(flagged_outputs(stack, f, n) == flagged_outputs(sp, fp, n));
            }
        }
    }
}

/// The evaluator takes the queued calls in queue order: a call is taken
/// exactly when none of its inputs overlaps the output of a call taken
/// before it, and the calls taken and the calls left each keep the order
/// they had in the queue.
pub proof fn lemma_independent_calls_keep_order(stack: Seq<(Call, Slice)>)
    ensures
        exists|flags: Seq<bool>|
            {
                &&& flags.len() == stack.len()
                &&& forall|i: int|
                    0 <= i < stack.len() ==> (#[trigger] flags[i] <==> inputs_disjoint(
                        stack[i].0.input_slices(),
                        flagged_outputs(stack, flags, i),
                    ))
                &&& independent_scan(stack).0 == select(stack, flags, true)
                &&& independent_scan(stack).1 == select(stack, flags, false)
            },
{
    lemma_scan_flags(stack);
    let flags = scan_flags(stack);
    assert(flags.len() == stack.len());
}

/// The calls ready in `set` and the calls left waiting split the queue in
/// queue order: a call is ready exactly when all its inputs lie in `set`,
/// and both parts keep the order they had in the queue.
pub proof fn lemma_ready_calls_keep_order(stack: Seq<(Call, Slice)>, set: Set<int>)
    ensures
        ({
            let flags = Seq::new(
                stack.len(),
                |i: int| inputs_in(stack[i].0.input_slices(), set),
            );
            &&& ready_calls(stack, set) == select(stack, flags, true)
            &&& waiting_calls(stack, set) == select(stack, flags, false)
        }),
    decreases stack.len(),
{
    let flags = Seq::new(stack.len(), |i: int| inputs_in(stack[i].0.input_slices(), set));
    reveal_with_fuel(Seq::filter, 1);
    if stack.len() > 0 {
        let sp = stack.drop_last();
        lemma_ready_calls_keep_order(sp, set);
        let fp = Seq::new(sp.len(), |i: int| inputs_in(sp[i].0.input_slices(), set));
        assert(flags.drop_last() =~= fp);
    } else {
        assert(ready_calls(stack, set) =~= Seq::<(Call, Slice)>::empty());
        assert(waiting_calls(stack, set) =~= Seq::<(Call, Slice)>::empty());
    }
}

/// The calls taken by [`independent_scan`] do not depend on each other: no
/// input of a taken call overlaps the output of a call taken before it, and
/// the scan keeps every call, taken or left, in order.
pub proof fn lemma_independent_calls_do_not_depend(stack: Seq<(Call, Slice)>)
    ensures
        ({
            let taken = independent_scan(stack).0;
            forall|i: int, j: int|
                0 <= i < j < taken.len() ==> inputs_disjoint(
                    #[trigger] taken[j].0.input_slices(),
                    #[trigger] taken[i].1.addrs(),
                )
        }),
        independent_scan(stack).0.len() + independent_scan(stack).1.len() == stack.len(),
        forall|a: int|
            #[trigger] independent_scan(stack).2.contains(a) <==> exists|i: int|
                0 <= i < independent_scan(stack).0.len() && independent_scan(stack).0[i].1.addrs().contains(a),
    decreases stack.len(),
{
    if stack.len() > 0 {
        let prev = stack.drop_last();
        lemma_independent_calls_do_not_depend(prev);
        let p = independent_scan(prev);
        let e = stack.last();
        if inputs_disjoint(e.0.input_slices(), p.2) {
            let taken = p.0.push(e);
            assert forall|i: int, j: int|
                0 <= i < j < taken.len() implies inputs_disjoint(
                    #[trigger] taken[j].0.input_slices(),
                    #[trigger] taken[i].1.addrs(),
                ) by {
                if j == taken.len() - 1 {
                    assert(taken[j] == e);
                    assert forall|k: int| 0 <= k < e.0.input_slices().len() implies (
                    #[trigger] e.0.input_slices()[k]).addrs().disjoint(taken[i].1.addrs()) by {
                        assert forall|a: int| #[trigger] taken[i].1.addrs().contains(a) implies !e.0.input_slices()[k].addrs().contains(a) by {
                            assert(p.0[i] == taken[i]);
                            assert(p.2.contains(a));
                        }
                    }
                } else {
                    assert(taken[j] == p.0[j]);
                    assert(taken[i] == p.0[i]);
                }
            }
            assert forall|a: int| #[trigger] independent_scan(stack).2.contains(a) <==> exists|i: int|
                0 <= i < taken.len() && taken[i].1.addrs().contains(a) by {
                assert(independent_scan(stack).2 == p.2.union(e.1.addrs()));
                assert(taken[taken.len() - 1] == e);
                if p.2.contains(a) {
                    let i = choose|i: int| 0 <= i < p.0.len() && p.0[i].1.addrs().contains(a);
                    assert(taken[i] == p.0[i]);
                }
                if exists|i: int| 0 <= i < taken.len() && taken[i].1.addrs().contains(a) {
                    let i = choose|i: int| 0 <= i < taken.len() && taken[i].1.addrs().contains(a);
                    if i < p.0.len() {
                        assert(taken[i] == p.0[i]);
                    }
                }
            }
        } else {
            assert forall|a: int| #[trigger] independent_scan(stack).2.contains(a) <==> exists|i: int|
                0 <= i < p.0.len() && p.0[i].1.addrs().contains(a) by {
            }
        }
    }
}

/// The output slice of every queued call ends within `usize`.
pub open spec fn outputs_fit(stack: Seq<(Call, Slice)>) -> bool {
    forall|i: int| 0 <= i < stack.len() ==> (#[trigger] stack[i]).1.fits()
}

/// The semi-honest evaluator.
pub struct Evaluator<OT> {
    pub(crate) ot: OT,
    pub(crate) store: EvaluatorStore,
    pub(crate) call_stack: Vec<(Call, Slice)>,
}

impl<OT> Evaluator<OT> {
    /// The evaluator's store.
    pub open(crate) spec fn store_state(&self) -> EvaluatorStore {
        self.store
    }

    /// The queued calls, with their output slices.
    pub open(crate) spec fn queued(&self) -> Seq<(Call, Slice)> {
        self.call_stack@
    }

    /// Creates a new evaluator.
    pub fn new(ot: OT) -> (r: Self)
        ensures
            r.store_state().wf(),
            r.store_state().size() == 0,
            r.queued() == Seq::<(Call, Slice)>::empty(),
    {
        Self { ot, store: EvaluatorStore::new(), call_stack: Vec::new() }
    }

    /// Queues a call: allocates its output and returns the output slice.
    pub fn call_raw(&mut self, call: Call) -> (r: Result<Slice, EvaluatorError>)
        requires
            old(self).store_state().wf(),
            old(self).store_state().size() + call.circuit().output_len_spec() <= usize::MAX,
        ensures
            r matches Ok(slice) && slice.start() == old(self).store_state().size() && slice.size()
                == call.circuit().output_len_spec() && slice.fits(),
            r matches Ok(slice) ==> final(self).queued() == old(self).queued().push((call, slice)),
            final(self).store_state().wf(),
            final(self).store_state().size() == old(self).store_state().size()
                + call.circuit().output_len_spec(),
            r matches Ok(slice) ==> final(self).store_state().outputs() == (OutputSets {
                uninit: old(self).store_state().outputs().uninit.union(slice.addrs()),
                all: old(self).store_state().outputs().all.union(slice.addrs()),
                ..old(self).store_state().outputs()
            }),
            final(self).store_state().inputs() == old(self).store_state().inputs(),
    {
        let len = call.circ().output_len();
        let output = self.store.alloc_output(len);
        self.call_stack.push((call, output));
        Ok(output)
    }

    /// Takes the queued calls that do not depend on the output of a call
    /// taken before them, in queue order.
    pub fn take_independent_calls(&mut self) -> (r: Vec<(Call, Slice)>)
        requires
            calls_fit(old(self).queued()),
            outputs_fit(old(self).queued()),
        ensures
            r@ == independent_scan(old(self).queued()).0,
            final(self).queued() == independent_scan(old(self).queued()).1,
            final(self).store_state() == old(self).store_state(),
            exists|flags: Seq<bool>|
                {
                    &&& flags.len() == old(self).queued().len()
                    &&& forall|i: int|
                        0 <= i < old(self).queued().len() ==> (#[trigger] flags[i]
                            <==> inputs_disjoint(
                            old(self).queued()[i].0.input_slices(),
                            flagged_outputs(old(self).queued(), flags, i),
                        ))
                    &&& r@ == select(old(self).queued(), flags, true)
                    &&& final(self).queued() == select(old(self).queued(), flags, false)
                },
    {
        proof {
            lemma_independent_calls_keep_order(old(self).queued());
        }
        let ghost orig = self.call_stack@;
        let mut stack: Vec<(Call, Slice)> = Vec::new();
        std::mem::swap(&mut stack, &mut self.call_stack);
        let ghost n = stack.len();
        let mut idx_outputs = rs_empty();
        let mut out: Vec<(Call, Slice)> = Vec::new();
        proof {
            assert(orig.take(0) =~= Seq::<(Call, Slice)>::empty());
        }
        while stack.len() > 0
            invariant
                self.store == old(self).store,
                orig == old(self).queued(),
                calls_fit(orig),
                outputs_fit(orig),
                n == orig.len(),
                stack.len() <= n,
                stack@ == orig.skip(n - stack.len()),
                out@ == independent_scan(orig.take(n - stack.len())).0,
                self.call_stack@ == independent_scan(orig.take(n - stack.len())).1,
                rs_view(idx_outputs) == independent_scan(orig.take(n - stack.len())).2,
            decreases stack.len(),
        {
            let ghost k = n - stack.len();
            let ghost before = stack@;
            let entry = stack.remove(0);
            proof {
                assert(entry == before[0]);
                assert(before[0] == orig[k]);
                assert(stack@ =~= orig.skip(k + 1));
                assert(orig.take(k + 1).drop_last() =~= orig.take(k));
                assert(orig.take(k + 1).last() == orig[k]);
            }
            let ghost prev_outs = rs_view(idx_outputs);
            let (call, output) = entry;
            let inputs = call.inputs();
            let mut independent = true;
            let mut m: usize = 0;
            while m < inputs.len()
                invariant
                    m <= inputs.len(),
                    inputs@ == call.input_slices(),
                    forall|q: int| 0 <= q < inputs.len() ==> (#[trigger] inputs@[q]).fits(),
                    rs_view(idx_outputs) == prev_outs,
                    independent <==> forall|q: int|
                        0 <= q < m ==> (#[trigger] inputs@[q]).addrs().disjoint(prev_outs),
                decreases inputs.len() - m,
            {
                if !rs_is_disjoint(&inputs[m].to_range_set(), &idx_outputs) {
                    independent = false;
                }
                m = m + 1;
            }
            proof {
                assert(independent == inputs_disjoint(call.input_slices(), prev_outs));
            }
            if independent {
                rs_union(&mut idx_outputs, &output.to_range_set());
                out.push((call, output));
            } else {
                self.call_stack.push((call, output));
            }
        }
        proof {
            assert(orig.take(n as int) =~= orig);
        }
        out
    }

    /// Stores the output MACs of evaluated calls, each at its output slice,
    /// then decodes what they make decodable and answers the decodes waiting
    /// for it.
    pub fn finish_calls(&mut self, outputs: Vec<(Slice, Vec<Mac>)>) -> (r: Result<
        (),
        EvaluatorStoreError,
    >)
        requires
            old(self).store_state().wf(),
            forall|k: int|
                0 <= k < outputs@.len() ==> (#[trigger] outputs@[k]).0.end() <= old(
                    self,
                ).store_state().size() && outputs@[k].1@.len() == outputs@[k].0.size(),
        ensures
            final(self).queued() == old(self).queued(),
            exists|mid: EvaluatorStore|
                #[trigger] outputs_written(&old(self).store_state(), &mid, outputs@) && decodes_flushed(
                    &mid,
                    &final(self).store_state(),
                    r,
                ),
            none_ready(old(self).store_state().pending_decodes(), final(self).store_state().data_set())
                ==> r is Ok,
    {
        let ghost start = self.store;
        let ghost outs = outputs@;
        let mut k: usize = 0;
        proof {
            assert(outs.take(0) =~= Seq::<(Slice, Vec<Mac>)>::empty());
            assert(start.macs() == written_macs(start.macs(), outs.take(0)));
            assert(start.mac_set().union(output_addrs(outs.take(0))) =~= start.mac_set());
            assert(start.outputs().uninit.difference(output_addrs(outs.take(0)))
                =~= start.outputs().uninit);
            assert(start.outputs().preprocessed.difference(output_addrs(outs.take(0)))
                =~= start.outputs().preprocessed);
            assert(start.outputs().complete.union(output_addrs(outs.take(0)))
                =~= start.outputs().complete);
        }
        while k < outputs.len()
            invariant
                k <= outputs@.len(),
                outs == outputs@,
                self.call_stack@ == old(self).call_stack@,
                start == old(self).store,
                forall|j: int|
                    0 <= j < outs.len() ==> (#[trigger] outs[j]).0.end() <= start.size()
                        && outs[j].1@.len() == outs[j].0.size(),
                outputs_written(&start, &self.store, outs.take(k as int)),
            decreases outputs@.len() - k,
        {
            let ghost before = self.store;
            let res = self.store.set_output(outputs[k].0, outputs[k].1.as_slice());
            assert(res is Ok);
            proof {
                let t = outs.take(k as int + 1);
                assert(t.drop_last() =~= outs.take(k as int));
                assert(t.last() == outs[k as int]);
                let u0 = output_addrs(outs.take(k as int));
                let u1 = output_addrs(t);
                assert(u1 == u0.union(outs[k as int].0.addrs()));
                assert(self.store.mac_set() =~= start.mac_set().union(u1));
                assert(self.store.outputs().uninit =~= start.outputs().uninit.difference(u1));
                assert(self.store.outputs().preprocessed
                    =~= start.outputs().preprocessed.difference(u1));
                assert(self.store.outputs().complete =~= start.outputs().complete.union(u1));
                assert(self.store.outputs() == (OutputSets {
                    uninit: start.outputs().uninit.difference(u1),
                    preprocessed: start.outputs().preprocessed.difference(u1),
                    complete: start.outputs().complete.union(u1),
                    ..start.outputs()
                }));
            }
            k = k + 1;
        }
        proof {
            assert(outs.take(outs.len() as int) =~= outs);
        }
        let ghost mid = self.store;
        assert(outputs_written(&start, &mid, outs));
        let r = self.store.flush_decode();
        assert(outputs_written(&start, &mid, outs) && decodes_flushed(&mid, &self.store, r));
        assert(start == old(self).store_state());
        assert(exists|m: EvaluatorStore|
            #[trigger] outputs_written(&old(self).store_state(), &m, outputs@) && decodes_flushed(
                &m,
                &self.store_state(),
                r,
            ));
        r
    }

    /// Takes the queued calls whose inputs all have MACs, in queue order,
    /// each with its circuit, the MACs of its inputs and its output slice.
    pub fn take_ready_calls(&mut self) -> (r: Vec<(Arc<Circuit>, Vec<Mac>, Slice)>)
        requires
            old(self).store_state().wf(),
        ensures
            final(self).store_state() == old(self).store_state(),
            final(self).queued() == waiting_calls(old(self).queued(), old(self).store_state().mac_set()),
            r.len() == ready_calls(old(self).queued(), old(self).store_state().mac_set()).len(),
            forall|j: int|
                0 <= j < r.len() ==> ((*r@[j].0, #[trigger] r@[j].1@, r@[j].2) == ready_job(
                    ready_calls(old(self).queued(), old(self).store_state().mac_set())[j],
                    old(self).store_state().macs(),
                )),
    {
        let ghost set = self.store.mac_set();
        let ghost orig = self.call_stack@;
        let ghost macs = self.store.macs();
        let mut stack: Vec<(Call, Slice)> = Vec::new();
        std::mem::swap(&mut stack, &mut self.call_stack);
        let ghost n = stack.len();
        let mut out: Vec<(Arc<Circuit>, Vec<Mac>, Slice)> = Vec::new();
        proof {
            assert(orig.take(0) =~= Seq::<(Call, Slice)>::empty());
            reveal_with_fuel(Seq::filter, 1);
        }
        while stack.len() > 0
            invariant
                self.store == old(self).store,
                self.store.wf(),
                macs == self.store.macs(),
                set == self.store.mac_set(),
                orig == old(self).queued(),
                n == orig.len(),
                stack.len() <= n,
                stack@ == orig.skip(n - stack.len()),
                self.call_stack@ == waiting_calls(orig.take(n - stack.len()), set),
                out.len() == ready_calls(orig.take(n - stack.len()), set).len(),
                forall|j: int|
                    0 <= j < out.len() ==> ((*out@[j].0, #[trigger] out@[j].1@, out@[j].2)
                        == ready_job(ready_calls(orig.take(n - stack.len()), set)[j], macs)),
            decreases stack.len(),
        {
            let ghost k = n - stack.len();
            let ghost before = stack@;
            let entry = stack.remove(0);
            proof {
                assert(entry == before[0]);
                assert(before[0] == orig[k]);
                assert(stack@ =~= orig.skip(k + 1));
                assert(orig.take(k + 1).drop_last() =~= orig.take(k));
                assert(orig.take(k + 1).last() == orig[k]);
                reveal_with_fuel(Seq::filter, 1);
            }
            let (call, output) = entry;
            let inputs = call.inputs();
            let mut ready = true;
            let mut m: usize = 0;
            while m < inputs.len()
                invariant
                    m <= inputs.len(),
                    inputs@ == call.input_slices(),
                    self.store.wf(),
                    set == self.store.mac_set(),
                    ready <==> forall|q: int| 0 <= q < m ==> (#[trigger] inputs@[q]).addrs().subset_of(set),
                decreases inputs.len() - m,
            {
                if !self.store.is_set_macs(inputs[m]) {
                    ready = false;
                }
                m = m + 1;
            }
            proof {
                assert(ready == inputs_in(call.input_slices(), set));
            }
            if ready {
                let mut input_macs: Vec<Mac> = Vec::new();
                let mut q: usize = 0;
                while q < inputs.len()
                    invariant
                        q <= inputs.len(),
                        inputs@ == call.input_slices(),
                        self.store.wf(),
                        macs == self.store.macs(),
                        inputs_in(call.input_slices(), self.store.mac_set()),
                        input_macs@ == cells_of_inputs(macs, inputs@.take(q as int)),
                    decreases inputs.len() - q,
                {
                    proof {
                        assert(inputs@[q as int].addrs().subset_of(self.store.mac_set()));
                        lemma_cells_of_inputs_push(macs, inputs@, q as int);
                    }
                    let mut part = match self.store.try_get_macs(inputs[q]) {
                        Ok(part) => part,
                        Err(_) => Vec::new(),
                    };
                    proof {
                        assert(part@ =~= cells_at(macs, inputs@[q as int]));
                    }
                    input_macs.append(&mut part);
                    q = q + 1;
                }
                proof {
                    assert(inputs@.take(inputs.len() as int) =~= inputs@);
                }
                let ghost e = (call, output);
                let (circ, _) = call.into_parts();
                proof {
                    assert(ready_job(e, macs) == (*circ, input_macs@, output));
                    assert(ready_calls(orig.take(k + 1), set) == ready_calls(orig.take(k), set).push(e));
                }
                let ghost prev = out@;
                out.push((circ, input_macs, output));
                proof {
                    assert forall|j: int| 0 <= j < out.len() implies ((*out@[j].0, #[trigger] out@[j].1@, out@[j].2)
                        == ready_job(ready_calls(orig.take(k + 1), set)[j], macs)) by {
                        if j < prev.len() {
                            assert(out@[j] == prev[j]);
                            assert((*prev[j].0, prev[j].1@, prev[j].2) == ready_job(ready_calls(orig.take(k), set)[j], macs));
                        }
                    }
                }
            } else {
                self.call_stack.push((call, output));
            }
        }
        proof {
            assert(orig.take(n as int) =~= orig);
        }
        out
    }
}

impl<OT> Memory<Binary> for Generator<OT> {
    type Error = GeneratorError;

    open spec fn memory_wf(&self) -> bool {
        self.store_state().wf()
    }

    open spec fn can_alloc(&self, size: usize) -> bool {
        self.store_state().size() + size <= usize::MAX
    }

    /// Allocation does what the store's allocation does, and leaves the
    /// queued calls.
    open spec fn alloc_post(old: &Self, new: &Self, size: usize, r: Result<Slice, GeneratorError>) -> bool {
        &&& new.queued() == old.queued()
        &&& exists|s: Result<Slice, GeneratorStoreError>|
            #[trigger] GeneratorStore::alloc_post(&old.store_state(), &new.store_state(), size, s)
                && same_outcome(r, s)
    }

    /// Assignment does what the store's assignment does, and leaves the
    /// queued calls.
    open spec fn assign_post(old: &Self, new: &Self, slice: Slice, data: Vec<bool>, r: Result<(), GeneratorError>) -> bool {
        &&& new.queued() == old.queued()
        &&& exists|s: Result<(), GeneratorStoreError>|
            #[trigger] GeneratorStore::assign_post(&old.store_state(), &new.store_state(), slice, data, s)
                && same_outcome(r, s)
    }

    /// Commitment does what the store's commitment does, and leaves the
    /// queued calls.
    open spec fn commit_post(old: &Self, new: &Self, slice: Slice, r: Result<(), GeneratorError>) -> bool {
        &&& new.queued() == old.queued()
        &&& exists|s: Result<(), GeneratorStoreError>|
            #[trigger] GeneratorStore::commit_post(&old.store_state(), &new.store_state(), slice, s)
                && same_outcome(r, s)
    }

    /// Decoding does what the store's decoding does, and leaves the queued
    /// calls.
    open spec fn decode_post(
        old: &Self,
        new: &Self,
        slice: Slice,
        r: Result<DecodeFuture<Vec<bool>>, GeneratorError>,
    ) -> bool {
        &&& new.queued() == old.queued()
        &&& exists|s: Result<DecodeFuture<Vec<bool>>, GeneratorStoreError>|
            #[trigger] GeneratorStore::decode_post(&old.store_state(), &new.store_state(), slice, s)
                && same_outcome(r, s)
    }

    fn alloc_raw(&mut self, size: usize) -> (r: Result<Slice, GeneratorError>)
        ensures
            r matches Ok(slice) && slice.start() == old(self).store_state().size() && slice.size()
                == size,
            final(self).store_state().size() == old(self).store_state().size() + size,
            final(self).queued() == old(self).queued(),
    {
        let res = self.store.alloc_raw(size);
        proof {
            assert(GeneratorStore::alloc_post(&old(self).store_state(), &self.store_state(), size, res));
        }
        match res {
            Ok(slice) => Ok(slice),
            Err(_) => Err(GeneratorError {}),
        }
    }

    fn assign_raw(&mut self, slice: Slice, data: Vec<bool>) -> (r: Result<(), GeneratorError>)
        ensures
            r is Ok <==> assign_outcome(&old(self).store_state(), slice, data@.len()) is Ok,
            final(self).queued() == old(self).queued(),
    {
        let ghost d = data;
        let res = self.store.assign_raw(slice, data);
        proof {
            assert(GeneratorStore::assign_post(&old(self).store_state(), &self.store_state(), slice, d, res));
        }
        match res {
            Ok(()) => Ok(()),
            Err(_) => Err(GeneratorError {}),
        }
    }

    fn commit_raw(&mut self, slice: Slice) -> (r: Result<(), GeneratorError>)
        ensures
            r is Ok <==> commit_succeeds(&old(self).store_state(), slice),
            final(self).queued() == old(self).queued(),
    {
        let res = self.store.commit_raw(slice);
        proof {
            assert(GeneratorStore::commit_post(&old(self).store_state(), &self.store_state(), slice, res));
        }
        match res {
            Ok(()) => Ok(()),
            Err(_) => Err(GeneratorError {}),
        }
    }

    fn decode_raw(&mut self, slice: Slice) -> (r: Result<DecodeFuture<Vec<bool>>, GeneratorError>)
        ensures
            r is Err ==> is_ready(slice, old(self).store_state().data_set()),
            final(self).queued() == old(self).queued(),
    {
        let res = self.store.decode_raw(slice);
        proof {
            assert(GeneratorStore::decode_post(&old(self).store_state(), &self.store_state(), slice, res));
        }
        match res {
            Ok(fut) => Ok(fut),
            Err(_) => Err(GeneratorError {}),
        }
    }
}

impl<OT> ViewTrait for Generator<OT> {
    type Error = GeneratorError;

    open spec fn view_wf(&self) -> bool {
        self.store_state().wf()
    }

    /// Marking as public does what the store's marking does, and leaves the
    /// queued calls.
    open spec fn mark_public_post(old: &Self, new: &Self, slice: Slice, r: Result<(), GeneratorError>) -> bool {
        &&& new.queued() == old.queued()
        &&& exists|s: Result<(), GeneratorStoreError>|
            #[trigger] GeneratorStore::mark_public_post(&old.store_state(), &new.store_state(), slice, s)
                && same_outcome(r, s)
    }

    /// Marking as private does what the store's marking does, and leaves the
    /// queued calls.
    open spec fn mark_private_post(old: &Self, new: &Self, slice: Slice, r: Result<(), GeneratorError>) -> bool {
        &&& new.queued() == old.queued()
        &&& exists|s: Result<(), GeneratorStoreError>|
            #[trigger] GeneratorStore::mark_private_post(&old.store_state(), &new.store_state(), slice, s)
                && same_outcome(r, s)
    }

    /// Marking as blind does what the store's marking does, and leaves the
    /// queued calls.
    open spec fn mark_blind_post(old: &Self, new: &Self, slice: Slice, r: Result<(), GeneratorError>) -> bool {
        &&& new.queued() == old.queued()
        &&& exists|s: Result<(), GeneratorStoreError>|
            #[trigger] GeneratorStore::mark_blind_post(&old.store_state(), &new.store_state(), slice, s)
                && same_outcome(r, s)
    }

    fn mark_public_raw(&mut self, slice: Slice) -> (r: Result<(), GeneratorError>)
        ensures
            r is Ok <==> generator_mark_outcome(&old(self).store_state(), slice) is Ok,
            final(self).queued() == old(self).queued(),
    {
        let res = self.store.mark_public_raw(slice);
        proof {
            assert(GeneratorStore::mark_public_post(&old(self).store_state(), &self.store_state(), slice, res));
        }
        match res {
            Ok(()) => Ok(()),
            Err(_) => Err(GeneratorError {}),
        }
    }

    fn mark_private_raw(&mut self, slice: Slice) -> (r: Result<(), GeneratorError>)
        ensures
            r is Ok <==> generator_mark_outcome(&old(self).store_state(), slice) is Ok,
            final(self).queued() == old(self).queued(),
    {
        let res = self.store.mark_private_raw(slice);
        proof {
            assert(GeneratorStore::mark_private_post(&old(self).store_state(), &self.store_state(), slice, res));
        }
        match res {
            Ok(()) => Ok(()),
            Err(_) => Err(GeneratorError {}),
        }
    }

    fn mark_blind_raw(&mut self, slice: Slice) -> (r: Result<(), GeneratorError>)
        ensures
            r is Ok <==> generator_mark_outcome(&old(self).store_state(), slice) is Ok,
            final(self).queued() == old(self).queued(),
    {
        let res = self.store.mark_blind_raw(slice);
        proof {
            assert(GeneratorStore::mark_blind_post(&old(self).store_state(), &self.store_state(), slice, res));
        }
        match res {
            Ok(()) => Ok(()),
            Err(_) => Err(GeneratorError {}),
        }
    }
}

impl<OT> Memory<Binary> for Evaluator<OT> {
    type Error = EvaluatorError;

    open spec fn memory_wf(&self) -> bool {
        self.store_state().wf()
    }

    open spec fn can_alloc(&self, size: usize) -> bool {
        self.store_state().size() + size <= usize::MAX
    }

    /// Allocation does what the store's allocation does, and leaves the
    /// queued calls.
    open spec fn alloc_post(old: &Self, new: &Self, size: usize, r: Result<Slice, EvaluatorError>) -> bool {
        &&& new.queued() == old.queued()
        &&& exists|s: Result<Slice, EvaluatorStoreError>|
            #[trigger] EvaluatorStore::alloc_post(&old.store_state(), &new.store_state(), size, s)
                && same_outcome(r, s)
    }

    /// Assignment does what the store's assignment does, and leaves the
    /// queued calls.
    open spec fn assign_post(old: &Self, new: &Self, slice: Slice, data: Vec<bool>, r: Result<(), EvaluatorError>) -> bool {
        &&& new.queued() == old.queued()
        &&& exists|s: Result<(), EvaluatorStoreError>|
            #[trigger] EvaluatorStore::assign_post(&old.store_state(), &new.store_state(), slice, data, s)
                && same_outcome(r, s)
    }

    /// Commitment does what the store's commitment does, and leaves the
    /// queued calls.
    open spec fn commit_post(old: &Self, new: &Self, slice: Slice, r: Result<(), EvaluatorError>) -> bool {
        &&& new.queued() == old.queued()
        &&& exists|s: Result<(), EvaluatorStoreError>|
            #[trigger] EvaluatorStore::commit_post(&old.store_state(), &new.store_state(), slice, s)
                && same_outcome(r, s)
    }

    /// Decoding does what the store's decoding does, and leaves the queued
    /// calls.
    open spec fn decode_post(
        old: &Self,
        new: &Self,
        slice: Slice,
        r: Result<DecodeFuture<Vec<bool>>, EvaluatorError>,
    ) -> bool {
        &&& new.queued() == old.queued()
        &&& exists|s: Result<DecodeFuture<Vec<bool>>, EvaluatorStoreError>|
            #[trigger] EvaluatorStore::decode_post(&old.store_state(), &new.store_state(), slice, s)
                && same_outcome(r, s)
    }

    fn alloc_raw(&mut self, size: usize) -> (r: Result<Slice, EvaluatorError>)
        ensures
            r matches Ok(slice) && slice.start() == old(self).store_state().size() && slice.size()
                == size,
            final(self).store_state().size() == old(self).store_state().size() + size,
            final(self).queued() == old(self).queued(),
    {
        let res = self.store.alloc_raw(size);
        proof {
            assert(EvaluatorStore::alloc_post(&old(self).store_state(), &self.store_state(), size, res));
        }
        match res {
            Ok(slice) => Ok(slice),
            Err(_) => Err(EvaluatorError {}),
        }
    }

    fn assign_raw(&mut self, slice: Slice, data: Vec<bool>) -> (r: Result<(), EvaluatorError>)
        ensures
            r is Ok <==> evaluator_assign_outcome(&old(self).store_state(), slice, data@.len())
                is Ok,
            final(self).queued() == old(self).queued(),
    {
        let ghost d = data;
        let res = self.store.assign_raw(slice, data);
        proof {
            assert(EvaluatorStore::assign_post(&old(self).store_state(), &self.store_state(), slice, d, res));
        }
        match res {
            Ok(()) => Ok(()),
            Err(_) => Err(EvaluatorError {}),
        }
    }

    fn commit_raw(&mut self, slice: Slice) -> (r: Result<(), EvaluatorError>)
        ensures
            r is Ok <==> evaluator_commit_succeeds(&old(self).store_state(), slice),
            final(self).queued() == old(self).queued(),
    {
        let res = self.store.commit_raw(slice);
        proof {
            assert(EvaluatorStore::commit_post(&old(self).store_state(), &self.store_state(), slice, res));
        }
        match res {
            Ok(()) => Ok(()),
            Err(_) => Err(EvaluatorError {}),
        }
    }

    fn decode_raw(&mut self, slice: Slice) -> (r: Result<DecodeFuture<Vec<bool>>, EvaluatorError>)
        ensures
            r is Err ==> is_ready(slice, old(self).store_state().data_set()),
            final(self).queued() == old(self).queued(),
    {
        let res = self.store.decode_raw(slice);
        proof {
            assert(EvaluatorStore::decode_post(&old(self).store_state(), &self.store_state(), slice, res));
        }
        match res {
            Ok(fut) => Ok(fut),
            Err(_) => Err(EvaluatorError {}),
        }
    }
}

impl<OT> ViewTrait for Evaluator<OT> {
    type Error = EvaluatorError;

    open spec fn view_wf(&self) -> bool {
        self.store_state().wf()
    }

    /// Marking as public does what the store's marking does, and leaves the
    /// queued calls.
    open spec fn mark_public_post(old: &Self, new: &Self, slice: Slice, r: Result<(), EvaluatorError>) -> bool {
        &&& new.queued() == old.queued()
        &&& exists|s: Result<(), EvaluatorStoreError>|
            #[trigger] EvaluatorStore::mark_public_post(&old.store_state(), &new.store_state(), slice, s)
                && same_outcome(r, s)
    }

    /// Marking as private does what the store's marking does, and leaves the
    /// queued calls.
    open spec fn mark_private_post(old: &Self, new: &Self, slice: Slice, r: Result<(), EvaluatorError>) -> bool {
        &&& new.queued() == old.queued()
        &&& exists|s: Result<(), EvaluatorStoreError>|
            #[trigger] EvaluatorStore::mark_private_post(&old.store_state(), &new.store_state(), slice, s)
                && same_outcome(r, s)
    }

    /// Marking as blind does what the store's marking does, and leaves the
    /// queued calls.
    open spec fn mark_blind_post(old: &Self, new: &Self, slice: Slice, r: Result<(), EvaluatorError>) -> bool {
        &&& new.queued() == old.queued()
        &&& exists|s: Result<(), EvaluatorStoreError>|
            #[trigger] EvaluatorStore::mark_blind_post(&old.store_state(), &new.store_state(), slice, s)
                && same_outcome(r, s)
    }

    fn mark_public_raw(&mut self, slice: Slice) -> (r: Result<(), EvaluatorError>)
        ensures
            r is Ok <==> evaluator_mark_outcome(&old(self).store_state(), slice) is Ok,
            final(self).queued() == old(self).queued(),
    {
        let res = self.store.mark_public_raw(slice);
        proof {
            assert(EvaluatorStore::mark_public_post(&old(self).store_state(), &self.store_state(), slice, res));
        }
        match res {
            Ok(()) => Ok(()),
            Err(_) => Err(EvaluatorError {}),
        }
    }

    fn mark_private_raw(&mut self, slice: Slice) -> (r: Result<(), EvaluatorError>)
        ensures
            r is Ok <==> evaluator_mark_outcome(&old(self).store_state(), slice) is Ok,
            final(self).queued() == old(self).queued(),
    {
        let res = self.store.mark_private_raw(slice);
        proof {
            assert(EvaluatorStore::mark_private_post(&old(self).store_state(), &self.store_state(), slice, res));
        }
        match res {
            Ok(()) => Ok(()),
            Err(_) => Err(EvaluatorError {}),
        }
    }

    fn mark_blind_raw(&mut self, slice: Slice) -> (r: Result<(), EvaluatorError>)
        ensures
            r is Ok <==> evaluator_mark_outcome(&old(self).store_state(), slice) is Ok,
            final(self).queued() == old(self).queued(),
    {
        let res = self.store.mark_blind_raw(slice);
        proof {
            assert(EvaluatorStore::mark_blind_post(&old(self).store_state(), &self.store_state(), slice, res));
        }
        match res {
            Ok(()) => Ok(()),
            Err(_) => Err(EvaluatorError {}),
        }
    }
}

} // verus!
