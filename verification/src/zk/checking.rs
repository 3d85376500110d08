//! The verifier's side of a proof: it computes the key of every wire,
//! taking one adjust bit from the prover per AND gate.
use vstd::prelude::*;

use crate::circuit::{
    and_gates, flat_nodes, gate_fits, lemma_and_gates_push, lemma_flat_nodes_prefix,
    lemma_flat_nodes_push, vec_views, Circuit, Gate,
};
use crate::correlated::{block_bytes, gf_mul, Block, Delta, Key};
use crate::hash::blake3_hash;
use crate::zk::consistency::{
    block_from_le_bytes, check_w, pack_bits, packed_bits, transcript_chi, verify, w_term,
};
use crate::correlated_store::key_values;
use crate::zk::proving::triple_values;
use crate::zk::{
    grown, lemma_and_gates_grow, lemma_next_and, lemma_no_and_after, lemma_verifier_buf_len,
    lemma_verifier_run_adjusts, lemma_verifier_run_push, lemma_write_nodes_len, lemma_write_nodes_push, next_and,
    read_nodes, verifier_run, write_nodes, VerifierTrace,
};

verus! {

/// The keys of the AND gates and the adjust bits received for them, kept
/// for the consistency check.
#[derive(Debug)]
pub(crate) struct KeyCheck {
    pub(crate) transcript: Vec<u8>,
    pub(crate) keys: Vec<[Block; 3]>,
    pub(crate) adjust: Vec<bool>,
}

impl KeyCheck {
    /// The keys recorded for each AND gate.
    pub open(crate) spec fn triples(&self) -> Seq<(u128, u128, u128)> {
        triple_values(self.keys@)
    }

    /// The adjust bits recorded for each AND gate.
    pub open(crate) spec fn adjusts(&self) -> Seq<bool> {
        self.adjust@
    }

    /// The bytes hashed so far to draw the challenges.
    pub open(crate) spec fn transcript_view(&self) -> Seq<u8> {
        self.transcript@
    }

    /// An empty check.
    pub fn new() -> (r: KeyCheck)
        ensures
            r.triples() == Seq::<(u128, u128, u128)>::empty(),
            r.adjusts() == Seq::<bool>::empty(),
            r.transcript_view() == Seq::<u8>::empty(),
    {
        let r = KeyCheck { transcript: Vec::new(), keys: Vec::new(), adjust: Vec::new() };
        assert(r.triples() =~= Seq::<(u128, u128, u128)>::empty());
        r
    }

    /// Makes room for at least `n` more AND gates.
    pub fn reserve(&mut self, n: usize)
        ensures
            final(self).triples() == old(self).triples(),
            final(self).adjusts() == old(self).adjusts(),
            final(self).transcript_view() == old(self).transcript_view(),
    {
        self.keys.reserve(n);
        self.adjust.reserve(n);
    }

    /// Records the keys of the next AND gate and its adjust bit.
    pub fn push(&mut self, x: Key, y: Key, z: Key, adjust: bool)
        ensures
            final(self).triples() == old(self).triples().push((x.value(), y.value(), z.value())),
            final(self).adjusts() == old(self).adjusts().push(adjust),
            final(self).transcript_view() == old(self).transcript_view(),
    {
        self.keys.push([x.as_block(), y.as_block(), z.as_block()]);
        self.adjust.push(adjust);
        assert(self.triples() =~= old(self).triples().push((x.value(), y.value(), z.value())));
    }

    /// Returns `true` if there are gates to check.
    pub fn wants_check(&self) -> (r: bool)
        ensures
            r == (self.triples().len() > 0),
    {
        self.keys.len() > 0
    }
}

/// Error of the verifier.
#[derive(Debug, Clone, Copy, PartialEq, Eq, Structural)]
pub struct VerifierError {}

/// The wire keys when a circuit starts: the keys kept from earlier circuits,
/// grown with zeros to the circuit's wires, with the input keys written at
/// the input wires.
pub open spec fn verifier_start(buf: Seq<u128>, circ: Circuit, input_keys: Seq<u128>) -> Seq<u128> {
    write_nodes(grown(buf, circ.feeds(), 0u128), flat_nodes(circ.input_nodes()), input_keys)
}

/// The verifier of a boolean circuit.
#[derive(Debug)]
pub struct Verifier {
    pub(crate) buffer: Vec<Key>,
    pub(crate) delta: Delta,
    pub(crate) check: KeyCheck,
}

impl Verifier {
    /// The keys kept in the wire buffer.
    pub open(crate) spec fn buffer_view(&self) -> Seq<u128> {
        key_values(self.buffer@)
    }

    /// The global correlation.
    pub open(crate) spec fn correlation(&self) -> Delta {
        self.delta
    }

    /// The keys recorded for the consistency check.
    pub open(crate) spec fn checks(&self) -> Seq<(u128, u128, u128)> {
        self.check.triples()
    }

    /// The adjust bits recorded for the consistency check.
    pub open(crate) spec fn check_adjusts(&self) -> Seq<bool> {
        self.check.adjusts()
    }

    /// The bytes hashed so far to draw the challenges of the check.
    pub open(crate) spec fn transcript(&self) -> Seq<u8> {
        self.check.transcript_view()
    }

    /// Creates a verifier with the global correlation `delta`.
    pub fn new(delta: Delta) -> (r: Verifier)
        ensures
            r.buffer_view() == Seq::<u128>::empty(),
            r.correlation() == delta,
            r.checks() == Seq::<(u128, u128, u128)>::empty(),
            r.check_adjusts() == Seq::<bool>::empty(),
            r.transcript() == Seq::<u8>::empty(),
    {
        let r = Verifier { buffer: Vec::new(), delta, check: KeyCheck::new() };
        assert(r.buffer_view() =~= Seq::<u128>::empty());
        r
    }

    /// Returns `true` if there are gates to check.
    pub fn wants_check(&self) -> (r: bool)
        ensures
            r == (self.checks().len() > 0),
    {
        self.check.wants_check()
    }
}

impl Verifier {
    /// Executes the verifier's side of the consistency check over the AND
    /// gates recorded since the last check and returns `W`. The adjust bits
    /// are added to the transcript and the challenge is drawn from its digest.
    pub fn check(&mut self, mask_w: Block) -> (r: Block)
        ensures
            r.value() == w_term(
                old(self).checks(),
                transcript_chi(old(self).transcript(), old(self).check_adjusts()),
                old(self).correlation().value(),
                mask_w.value(),
            ),
            final(self).transcript() == old(self).transcript() + packed_bits(
                old(self).check_adjusts(),
            ),
            final(self).checks() == Seq::<(u128, u128, u128)>::empty(),
            final(self).check_adjusts() == Seq::<bool>::empty(),
            final(self).buffer_view() == old(self).buffer_view(),
            final(self).correlation() == old(self).correlation(),
    {
        let mut packed = pack_bits(self.check.adjust.as_slice());
        self.check.transcript.append(&mut packed);
        let digest = blake3_hash(self.check.transcript.as_slice());
        let chi = block_from_le_bytes(&digest);
        let w = check_w(self.check.keys.as_slice(), chi, self.delta.as_block(), mask_w);
        self.check.keys = Vec::new();
        self.check.adjust = Vec::new();
        assert(self.check.triples() =~= Seq::<(u128, u128, u128)>::empty());
        w
    }

    /// Completes the consistency check with the `U` and `V` received from
    /// the prover: adds them to the transcript and accepts exactly when
    /// `w == U ^ delta * V`, where `w` is what [`Verifier::check`] returned.
    pub fn verify(&mut self, w: Block, u: Block, v: Block) -> (r: Result<(), VerifierError>)
        ensures
            r is Ok <==> w.value() == u.value() ^ gf_mul(
                old(self).correlation().value(),
                v.value(),
            ),
            final(self).transcript() == old(self).transcript() + block_bytes(u.value())
                + block_bytes(v.value()),
            final(self).checks() == old(self).checks(),
            final(self).check_adjusts() == old(self).check_adjusts(),
            final(self).buffer_view() == old(self).buffer_view(),
            final(self).correlation() == old(self).correlation(),
    {
        let mut ub = u.to_bytes();
        let mut vb = v.to_bytes();
        self.check.transcript.append(&mut ub);
        self.check.transcript.append(&mut vb);
        verify(w, u, v, self.delta)
    }
}

impl Verifier {
    /// Starts a circuit: grows the wire buffer to the circuit's wires and
    /// writes the input keys at the input wires. There must be one input key
    /// per input wire and one random key per AND gate.
    pub fn execute<'a>(
        &'a mut self,
        circ: &'a Circuit,
        input_keys: &'a [Key],
        gate_keys: &'a [Key],
    ) -> (r: Result<VerifierConsumer<'a>, VerifierError>)
        requires
            circ.wf(),
            input_keys@.len() == circ.input_len_spec(),
            gate_keys@.len() == circ.and_count_spec(),
        ensures
            r is Ok,
            r matches Ok(it) ==> {
                &&& it.wf()
                &&& it.pos() == 0
                &&& it.received() == Seq::<bool>::empty()
                &&& it.start() == verifier_start(old(self).buffer_view(), *circ, key_values(input_keys@))
                &&& it.gate_seq() == circ.gate_seq()
                &&& it.random_keys() == key_values(gate_keys@)
                &&& it.correlation() == old(self).correlation()
                &&& it.output_nodes() == flat_nodes(circ.output_nodes())
                &&& it.base_triples() == old(self).checks()
                &&& it.base_adjusts() == old(self).check_adjusts()
            },
    {
        if input_keys.len() != circ.input_len() {
            return Err(VerifierError {});
        } else if gate_keys.len() != circ.and_count() {
            return Err(VerifierError {});
        }
        self.check.reserve(circ.and_count());
        let feed_count = circ.feed_count();
        let ghost old_vals = key_values(self.buffer@);
        while self.buffer.len() < feed_count
            invariant
                self.check.triples() == old(self).checks(),
                self.check.adjusts() == old(self).check_adjusts(),
                self.delta == old(self).delta,
                old_vals.len() <= self.buffer@.len(),
                old_vals.len() < feed_count ==> self.buffer@.len() <= feed_count,
                old_vals.len() >= feed_count ==> self.buffer@.len() == old_vals.len(),
                key_values(self.buffer@) == old_vals + Seq::new(
                    (self.buffer@.len() - old_vals.len()) as nat,
                    |i: int| 0u128,
                ),
            decreases feed_count - self.buffer@.len(),
        {
            let ghost before = key_values(self.buffer@);
            self.buffer.push(Key::new(Block::zero()));
            proof {
                assert(key_values(self.buffer@) =~= before.push(0u128));
                assert(key_values(self.buffer@) =~= old_vals + Seq::new(
                    (self.buffer@.len() - old_vals.len()) as nat,
                    |i: int| 0u128,
                ));
            }
        }
        let ghost base = key_values(self.buffer@);
        proof {
            if old_vals.len() >= feed_count {
                assert(base =~= old_vals);
            }
            assert(base =~= grown(old_vals, circ.feeds(), 0u128));
        }
        let groups = circ.inputs();
        let ghost views = vec_views(groups@);
        let ghost vals = key_values(input_keys@);
        let mut j: usize = 0;
        let mut k: usize = 0;
        proof {
            assert(views.take(0) =~= Seq::<Seq<usize>>::empty());
        }
        while k < groups.len()
            invariant
                self.check.triples() == old(self).checks(),
                self.check.adjusts() == old(self).check_adjusts(),
                self.delta == old(self).delta,
                circ.wf(),
                views == vec_views(groups@),
                views == circ.input_nodes(),
                vals == key_values(input_keys@),
                input_keys@.len() == flat_nodes(views).len(),
                base.len() >= circ.feeds(),
                self.buffer@.len() == base.len(),
                k <= groups@.len(),
                j == flat_nodes(views.take(k as int)).len(),
                key_values(self.buffer@) == write_nodes(base, flat_nodes(views.take(k as int)), vals),
            decreases groups@.len() - k,
        {
            let group = &groups[k];
            proof {
                lemma_flat_nodes_push(views, k as int);
                lemma_flat_nodes_prefix(views, k as int + 1);
                assert(views[k as int] == group@);
            }
            let ghost prefix = flat_nodes(views.take(k as int));
            let mut i: usize = 0;
            proof {
                assert(prefix + group@.take(0) =~= prefix);
            }
            while i < group.len()
                invariant
                    self.check.triples() == old(self).checks(),
                    self.check.adjusts() == old(self).check_adjusts(),
                    self.delta == old(self).delta,
                    circ.wf(),
                    views == circ.input_nodes(),
                    vals == key_values(input_keys@),
                    input_keys@.len() == flat_nodes(views).len(),
                    k < groups@.len(),
                    views[k as int] == group@,
                    prefix == flat_nodes(views.take(k as int)),
                    flat_nodes(views.take(k + 1)) == prefix + group@,
                    forall|n: int| 0 <= n < flat_nodes(views.take(k + 1)).len() ==> #[trigger] flat_nodes(views.take(k + 1))[n] == flat_nodes(views)[n],
                    flat_nodes(views.take(k + 1)).len() <= flat_nodes(views).len(),
                    base.len() >= circ.feeds(),
                    self.buffer@.len() == base.len(),
                    i <= group.len(),
                    j == prefix.len() + i,
                    key_values(self.buffer@) == write_nodes(base, prefix + group@.take(i as int), vals),
                decreases group.len() - i,
            {
                let node = group[i];
                proof {
                    assert(flat_nodes(views.take(k + 1))[prefix.len() + i] == node);
                    assert(flat_nodes(circ.input_nodes())[prefix.len() + i] == node);
                }
                let ghost before = key_values(self.buffer@);
                self.buffer.set(node, input_keys[j]);
                proof {
                    let s0 = prefix + group@.take(i as int);
                    assert(prefix + group@.take(i + 1) =~= s0.push(node));
                    lemma_write_nodes_push(base, s0, node, vals);
                    assert(key_values(self.buffer@) =~= before.update(node as int, vals[j as int]));
                }
                i = i + 1;
                j = j + 1;
            }
            proof {
                assert(group@.take(group.len() as int) =~= group@);
            }
            k = k + 1;
        }
        proof {
            assert(views.take(views.len() as int) =~= views);
            lemma_write_nodes_len(base, flat_nodes(views), vals);
        }
        let ghost start = key_values(self.buffer@);
        let ghost triples = self.check.triples();
        let ghost adjusts = self.check.adjusts();
        let gates = circ.gates();
        let it = VerifierConsumer {
            buffer: &mut self.buffer,
            gate_keys,
            delta: self.delta,
            gates,
            pos: 0,
            outputs: circ.outputs(),
            counter: 0,
            and_count: circ.and_count(),
            complete: false,
            check: &mut self.check,
            start: Ghost(start),
            received: Ghost(Seq::empty()),
            base_triples: Ghost(triples),
            base_adjusts: Ghost(adjusts),
        };
        proof {
            assert(gates@.take(0) =~= Seq::<Gate>::empty());
            assert(triples + Seq::<(u128, u128, u128)>::empty() =~= triples);
            assert(adjusts + Seq::<bool>::empty() =~= adjusts);
        }
        Ok(it)
    }
}

/// Runs a circuit gate by gate, taking the adjust bit of each AND gate.
pub struct VerifierConsumer<'a> {
    pub(crate) buffer: &'a mut Vec<Key>,
    pub(crate) gate_keys: &'a [Key],
    pub(crate) delta: Delta,
    pub(crate) gates: &'a [Gate],
    pub(crate) pos: usize,
    pub(crate) outputs: &'a [Vec<usize>],
    pub(crate) counter: usize,
    pub(crate) and_count: usize,
    pub(crate) complete: bool,
    pub(crate) check: &'a mut KeyCheck,
    pub(crate) start: Ghost<Seq<u128>>,
    pub(crate) received: Ghost<Seq<bool>>,
    pub(crate) base_triples: Ghost<Seq<(u128, u128, u128)>>,
    pub(crate) base_adjusts: Ghost<Seq<bool>>,
}

impl<'a> VerifierConsumer<'a> {
    /// The wire keys when the circuit started.
    pub open(crate) spec fn start(&self) -> Seq<u128> {
        self.start@
    }

    /// The gates of the circuit.
    pub open(crate) spec fn gate_seq(&self) -> Seq<Gate> {
        self.gates@
    }

    /// The random keys of the AND gates.
    pub open(crate) spec fn random_keys(&self) -> Seq<u128> {
        key_values(self.gate_keys@)
    }

    /// The global correlation.
    pub open(crate) spec fn correlation(&self) -> Delta {
        self.delta
    }

    /// The output wires, output after output.
    pub open(crate) spec fn output_nodes(&self) -> Seq<usize> {
        flat_nodes(vec_views(self.outputs@))
    }

    /// The number of gates computed.
    pub open(crate) spec fn pos(&self) -> int {
        self.pos as int
    }

    /// The adjust bits received so far, one per AND gate computed.
    pub open(crate) spec fn received(&self) -> Seq<bool> {
        self.received@
    }

    /// What was recorded for the check before the circuit started.
    pub open(crate) spec fn base_triples(&self) -> Seq<(u128, u128, u128)> {
        self.base_triples@
    }

    /// The adjust bits recorded before the circuit started.
    pub open(crate) spec fn base_adjusts(&self) -> Seq<bool> {
        self.base_adjusts@
    }

    /// What the verifier has computed over the gates so far.
    pub open(crate) spec fn trace(&self) -> VerifierTrace {
        verifier_run(self.start(), self.gate_seq().take(self.pos()), self.received(), self.random_keys(), self.delta.value())
    }

    /// The wire buffer and the check follow the trace of the gates so far.
    pub open(crate) spec fn wf(&self) -> bool {
        &&& self.pos <= self.gates@.len()
        &&& self.and_count == and_gates(self.gates@)
        &&& self.counter == and_gates(self.gates@.take(self.pos as int))
        &&& self.received@.len() == self.counter
        &&& self.gate_keys@.len() == self.and_count
        &&& forall|i: int| 0 <= i < self.gates@.len() ==> gate_fits(#[trigger] self.gates@[i], self.start@.len())
        &&& forall|i: int| 0 <= i < self.output_nodes().len() ==> #[trigger] self.output_nodes()[i] < self.start@.len()
        &&& key_values(self.buffer@) == self.trace().buf
        &&& self.check.triples() == self.base_triples@ + self.trace().checks
        &&& self.check.adjusts() == self.base_adjusts@ + self.received@
        &&& self.complete ==> self.pos == self.gates@.len()
    }

    /// Both run the same circuit on the same inputs.
    pub open(crate) spec fn same_run(&self, other: &Self) -> bool {
        &&& self.start() == other.start()
        &&& self.gate_seq() == other.gate_seq()
        &&& self.random_keys() == other.random_keys()
        &&& self.correlation() == other.correlation()
        &&& self.output_nodes() == other.output_nodes()
        &&& self.base_triples() == other.base_triples()
        &&& self.base_adjusts() == other.base_adjusts()
    }

    /// Returns `true` if AND gates are left, each waiting for its adjust bit.
    pub fn wants_gates(&self) -> (r: bool)
        requires
            self.wf(),
        ensures
            r == (and_gates(self.gate_seq().take(self.pos())) != and_gates(self.gate_seq())),
    {
        self.counter != self.and_count
    }

    /// Computes the gates up to the next AND gate, returning `true` if there
    /// is one.
    fn eval_free_gates(&mut self) -> (r: bool)
        requires
            old(self).wf(),
        ensures
            final(self).wf(),
            final(self).same_run(old(self)),
            final(self).received() == old(self).received(),
            final(self).pos() == next_and(old(self).gate_seq(), old(self).pos()),
            r == (final(self).pos() < final(self).gate_seq().len()),
            final(self).complete == old(self).complete,
    {
        proof {
            lemma_next_and(self.gates@, self.pos as int);
        }
        while self.pos < self.gates.len()
            invariant
                self.wf(),
                self.same_run(old(self)),
                self.received() == old(self).received(),
                self.complete == old(self).complete,
                old(self).pos() <= self.pos(),
                next_and(self.gates@, self.pos as int) == next_and(old(self).gate_seq(), old(self).pos()),
                forall|k: int| old(self).pos() <= k < self.pos() ==> !(#[trigger] self.gates@[k] is And),
            decreases self.gates@.len() - self.pos,
        {
            let gate = self.gates[self.pos];
            proof {
                lemma_verifier_run_push(self.start@, self.gates@, self.received@, key_values(self.gate_keys@), self.delta.value(), self.pos as int);
                lemma_verifier_buf_len(self.start@, self.gates@.take(self.pos as int), self.received@, key_values(self.gate_keys@), self.delta.value());
                lemma_and_gates_push(self.gates@, self.pos as int);
                assert(gate_fits(self.gates@[self.pos as int], self.start@.len()));
            }
            match gate {
                Gate::Xor { x, y, z } => {
                    let kx = self.buffer[x];
                    let ky = self.buffer[y];
                    let kz = Key::new(kx.as_block().xor(&ky.as_block()));
                    let ghost before = key_values(self.buffer@);
                    self.buffer.set(z, kz);
                    proof {
                        assert(key_values(self.buffer@) =~= before.update(z as int, kz.value()));
                    }
                },
                Gate::Inv { x, z } => {
                    let mut k = self.buffer[x];
                    k.adjust(true, &self.delta);
                    let ghost before = key_values(self.buffer@);
                    self.buffer.set(z, k);
                    proof {
                        assert(key_values(self.buffer@) =~= before.update(z as int, k.value()));
                    }
                },
                Gate::And { .. } => {
                    return true;
                },
            }
            self.pos = self.pos + 1;
        }
        false
    }

    /// Feeds a message of adjust bits to the remaining AND gates, in order;
    /// bits beyond the last AND gate are ignored.
    pub fn next_chunk(&mut self, adjust: &[bool])
        requires
            old(self).wf(),
        ensures
            final(self).wf(),
            final(self).same_run(old(self)),
            ({
                let left = and_gates(old(self).gate_seq()) - old(self).received().len();
                final(self).received() == old(self).received() + adjust@.take(
                    if adjust@.len() <= left {
                        adjust@.len() as int
                    } else {
                        left
                    },
                )
            }),
    {
        let ghost first = *self;
        let ghost total = and_gates(self.gates@);
        let mut i: usize = 0;
        proof {
            assert(self.received@ + adjust@.take(0) =~= self.received@);
            lemma_and_gates_grow(self.gates@, self.pos as int, self.gates@.len() as int);
            assert(self.gates@.take(self.gates@.len() as int) =~= self.gates@);
        }
        while i < adjust.len()
            invariant
                i <= adjust@.len(),
                self.wf(),
                self.same_run(&first),
                first.wf(),
                total == and_gates(first.gate_seq()),
                self.received@.len() <= total,
                ({
                    let left = total - first.received().len();
                    self.received@ == first.received() + adjust@.take(
                        if (i as int) <= left {
                            i as int
                        } else {
                            left
                        },
                    )
                }),
                (i as int) > total - first.received().len() ==> self.received@.len() == total,
            decreases adjust@.len() - i,
        {
            if self.wants_gates() {
                let ghost before = self.received@;
                proof {
                    lemma_and_gates_grow(self.gates@, self.pos as int, self.gates@.len() as int);
                    assert(self.gates@.take(self.gates@.len() as int) =~= self.gates@);
                    lemma_next_and(self.gates@, self.pos as int);
                    if next_and(self.gates@, self.pos as int) == self.gates@.len() {
                        lemma_none_after_means_done(self.gates@, self.pos as int);
                    }
                }
                self.next(adjust[i]);
                proof {
                    assert(self.received@ == before.push(adjust@[i as int]));
                    lemma_and_gates_grow(self.gates@, self.pos as int, self.gates@.len() as int);
                    assert(self.gates@.take(self.gates@.len() as int) =~= self.gates@);
                    assert(first.received() + adjust@.take(i + 1) =~= (first.received()
                        + adjust@.take(i as int)).push(adjust@[i as int]));
                }
            } else {
                proof {
                    assert(self.gates@.take(self.gates@.len() as int) =~= self.gates@);
                }
            }
            i = i + 1;
        }
    }

    /// Computes the gates up to and including the next AND gate, with
    /// `adjust` as its adjust bit. After the last AND gate the remaining
    /// gates are computed at once; with no AND gate left, the bit is unused.
    pub fn next(&mut self, adjust: bool)
        requires
            old(self).wf(),
        ensures
            final(self).wf(),
            final(self).same_run(old(self)),
            ({
                let gates = old(self).gate_seq();
                let p = next_and(gates, old(self).pos());
                &&& p == gates.len() ==> final(self).received() == old(self).received()
                    && final(self).pos() == gates.len()
                &&& p < gates.len() ==> final(self).received() == old(self).received().push(adjust)
                    && final(self).pos() == if and_gates(gates.take(p + 1)) == and_gates(gates) {
                    gates.len() as int
                } else {
                    p + 1
                }
            }),
    {
        let found = self.eval_free_gates();
        if !found {
            self.complete = true;
            return;
        }
        proof {
            lemma_next_and(old(self).gate_seq(), old(self).pos());
            let keys = key_values(self.gate_keys@);
            let d = self.delta.value();
            let prefix = self.gates@.take(self.pos as int);
            let r2 = self.received@.push(adjust);
            lemma_verifier_run_adjusts(self.start@, prefix, self.received@, r2, keys, d);
            self.received = Ghost(r2);
            lemma_verifier_run_push(self.start@, self.gates@, self.received@, keys, d, self.pos as int);
            lemma_verifier_buf_len(self.start@, prefix, self.received@, keys, d);
            lemma_and_gates_push(self.gates@, self.pos as int);
            lemma_and_gates_grow(self.gates@, self.pos as int + 1, self.gates@.len() as int);
            assert(self.gates@.take(self.gates@.len() as int) =~= self.gates@);
            assert(gate_fits(self.gates@[self.pos as int], self.start@.len()));
        }
        let gate = self.gates[self.pos];
        match gate {
            Gate::And { x, y, z } => {
                let kx = self.buffer[x];
                let ky = self.buffer[y];
                let mut kz = self.gate_keys[self.counter];
                kz.adjust(adjust, &self.delta);
                let ghost before = key_values(self.buffer@);
                self.buffer.set(z, kz);
                proof {
                    assert(key_values(self.buffer@) =~= before.update(z as int, kz.value()));
                }
                self.check.push(kx, ky, kz, adjust);
            },
            _ => {
                proof {
                    assert(false);
                }
            },
        }
        self.counter = self.counter + 1;
        self.pos = self.pos + 1;
        proof {
            assert(self.check.triples() =~= self.base_triples@ + self.trace().checks);
            assert(self.check.adjusts() =~= self.base_adjusts@ + self.received@);
        }
        if self.wants_gates() {
            return;
        }
        proof {
            lemma_no_and_after(self.gates@, self.pos as int);
        }
        self.eval_free_gates();
        self.complete = true;
    }

    /// Finishes the circuit, returning the keys of its outputs. Every AND
    /// gate must have received its adjust bit.
    pub fn finish(self) -> (r: Result<Vec<Key>, VerifierError>)
        requires
            self.wf(),
            and_gates(self.gate_seq().take(self.pos())) == and_gates(self.gate_seq()),
        ensures
            r is Ok,
            r matches Ok(v) ==> key_values(v@) == read_nodes(
                verifier_run(self.start(), self.gate_seq(), self.received(), self.random_keys(), self.correlation().value()).buf,
                self.output_nodes(),
            ),
    {
        let mut it = self;
        if it.wants_gates() {
            return Err(VerifierError {});
        }
        if !it.complete {
            proof {
                lemma_no_and_after(it.gates@, it.pos as int);
            }
            it.next(false);
        }
        proof {
            assert(it.gates@.take(it.gates@.len() as int) =~= it.gates@);
            lemma_verifier_buf_len(it.start@, it.gates@, it.received@, key_values(it.gate_keys@), it.delta.value());
        }
        let ghost buf = key_values(it.buffer@);
        let ghost views = vec_views(it.outputs@);
        let mut out: Vec<Key> = Vec::new();
        let mut k: usize = 0;
        proof {
            assert(views.take(0) =~= Seq::<Seq<usize>>::empty());
            assert(key_values(out@) =~= read_nodes(buf, flat_nodes(views.take(0))));
        }
        while k < it.outputs.len()
            invariant
                it.wf(),
                buf == key_values(it.buffer@),
                views == vec_views(it.outputs@),
                k <= it.outputs@.len(),
                it.pos() == it.gate_seq().len(),
                buf.len() == it.start().len(),
                key_values(out@) == read_nodes(buf, flat_nodes(views.take(k as int))),
            decreases it.outputs@.len() - k,
        {
            let group = &it.outputs[k];
            proof {
                lemma_flat_nodes_push(views, k as int);
                lemma_flat_nodes_prefix(views, k as int + 1);
                assert(views[k as int] == group@);
            }
            let ghost prefix = flat_nodes(views.take(k as int));
            let mut i: usize = 0;
            proof {
                assert(prefix + group@.take(0) =~= prefix);
            }
            while i < group.len()
                invariant
                    it.wf(),
                    buf == key_values(it.buffer@),
                    views == vec_views(it.outputs@),
                    k < it.outputs@.len(),
                    views[k as int] == group@,
                    prefix == flat_nodes(views.take(k as int)),
                    flat_nodes(views.take(k + 1)) == prefix + group@,
                    forall|n: int| 0 <= n < flat_nodes(views.take(k + 1)).len() ==> #[trigger] flat_nodes(views.take(k + 1))[n] == flat_nodes(views)[n],
                    flat_nodes(views.take(k + 1)).len() <= flat_nodes(views).len(),
                    buf.len() == it.start().len(),
                    i <= group.len(),
                    key_values(out@) == read_nodes(buf, prefix + group@.take(i as int)),
                decreases group.len() - i,
            {
                let node = group[i];
                proof {
                    assert(flat_nodes(views.take(k + 1))[prefix.len() + i] == node);
                    assert(it.output_nodes()[prefix.len() + i] == node);
                }
                let key = it.buffer[node];
                let ghost before = key_values(out@);
                out.push(key);
                proof {
                    let s0 = prefix + group@.take(i as int);
                    assert(prefix + group@.take(i + 1) =~= s0.push(node));
                    assert(key.value() == buf[node as int]);
                    assert(key_values(out@) =~= before.push(key.value()));
                    assert(read_nodes(buf, s0.push(node)) =~= read_nodes(buf, s0).push(buf[node as int]));
                }
                i = i + 1;
            }
            proof {
                assert(group@.take(group.len() as int) =~= group@);
            }
            k = k + 1;
        }
        proof {
            assert(views.take(views.len() as int) =~= views);
        }
        Ok(out)
    }
}

/// With no AND gate at or after `pos`, every AND gate is before `pos`.
proof fn lemma_none_after_means_done(gates: Seq<Gate>, pos: int)
    requires
        0 <= pos <= gates.len(),
        forall|k: int| pos <= k < gates.len() ==> !(#[trigger] gates[k] is And),
    ensures
        and_gates(gates.take(pos)) == and_gates(gates),
    decreases gates.len() - pos,
{
    if pos < gates.len() {
        lemma_and_gates_push(gates, pos);
        lemma_none_after_means_done(gates, pos + 1);
    } else {
        assert(gates.take(pos) =~= gates);
    }
}

} // verus!
