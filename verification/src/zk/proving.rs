//! The prover's side of a proof: it computes the MAC of every wire and
//! hands out one adjust bit per AND gate.
use vstd::prelude::*;

use crate::circuit::{
    and_gates, flat_nodes, gate_fits, lemma_and_gates_push, lemma_flat_nodes_prefix,
    lemma_flat_nodes_push, vec_views, Circuit, Gate,
};
use crate::correlated::{block_bytes, Block, Mac};
use crate::hash::blake3_hash;
use crate::zk::consistency::{
    block_from_le_bytes, check_uv, pack_bits, packed_bits, transcript_chi, uv_terms,
};
use crate::correlated_store::mac_values;
use crate::zk::{
    grown, lemma_and_gates_grow, lemma_next_and, lemma_no_and_after, lemma_prover_buf_len,
    lemma_prover_run_push, lemma_write_nodes_len, lemma_write_nodes_push, next_and, prover_run, read_nodes,
    write_nodes, ProverTrace,
};

verus! {

/// The MACs of the AND gates and the adjust bits sent for them, kept for the
/// consistency check.
#[derive(Debug)]
pub(crate) struct Check {
    pub(crate) transcript: Vec<u8>,
    pub(crate) macs: Vec<[Block; 3]>,
    pub(crate) adjust: Vec<bool>,
}

/// The values of recorded gate MACs.
pub open spec fn triple_values(t: Seq<[Block; 3]>) -> Seq<(u128, u128, u128)> {
    t.map_values(|b: [Block; 3]| (b@[0].value(), b@[1].value(), b@[2].value()))
}

impl Check {
    /// The MACs recorded for each AND gate.
    pub open(crate) spec fn triples(&self) -> Seq<(u128, u128, u128)> {
        triple_values(self.macs@)
    }

    /// The adjust bits recorded for each AND gate.
    pub open(crate) spec fn adjusts(&self) -> Seq<bool> {
        self.adjust@
    }

    /// The bytes hashed so far to draw the challenges.
    pub open(crate) spec fn transcript_view(&self) -> Seq<u8> {
        self.transcript@
    }

    /// An empty check.
    pub fn new() -> (r: Check)
        ensures
            r.triples() == Seq::<(u128, u128, u128)>::empty(),
            r.adjusts() == Seq::<bool>::empty(),
            r.transcript_view() == Seq::<u8>::empty(),
    {
        let r = Check { transcript: Vec::new(), macs: Vec::new(), adjust: Vec::new() };
        assert(r.triples() =~= Seq::<(u128, u128, u128)>::empty());
        r
    }

    /// Makes room for at least `n` more AND gates.
    pub fn reserve(&mut self, n: usize)
        ensures
            final(self).triples() == old(self).triples(),
            final(self).adjusts() == old(self).adjusts(),
            final(self).transcript_view() == old(self).transcript_view(),
    {
        self.macs.reserve(n);
        self.adjust.reserve(n);
    }

    /// Records the MACs of the next AND gate and its adjust bit.
    pub fn push(&mut self, x: Mac, y: Mac, z: Mac, adjust: bool)
        ensures
            final(self).triples() == old(self).triples().push((x.value(), y.value(), z.value())),
            final(self).adjusts() == old(self).adjusts().push(adjust),
            final(self).transcript_view() == old(self).transcript_view(),
    {
        self.macs.push([x.as_block(), y.as_block(), z.as_block()]);
        self.adjust.push(adjust);
        assert(self.triples() =~= old(self).triples().push((x.value(), y.value(), z.value())));
    }

    /// Returns `true` if there are gates to check.
    pub fn wants_check(&self) -> (r: bool)
        ensures
            r == (self.triples().len() > 0),
    {
        self.macs.len() > 0
    }
}

/// Error of the prover.
#[derive(Debug, Clone, Copy, PartialEq, Eq, Structural)]
pub struct ProverError {}

/// The wire MACs when a circuit starts: the MACs kept from earlier circuits,
/// grown with zeros to the circuit's wires, with the input MACs written at
/// the input wires.
pub open spec fn prover_start(buf: Seq<u128>, circ: Circuit, input_macs: Seq<u128>) -> Seq<u128> {
    write_nodes(grown(buf, circ.feeds(), 0u128), flat_nodes(circ.input_nodes()), input_macs)
}

/// The prover of a boolean circuit.
#[derive(Debug)]
pub struct Prover {
    pub(crate) buffer: Vec<Mac>,
    pub(crate) check: Check,
}

impl Prover {
    /// The MACs kept in the wire buffer.
    pub open(crate) spec fn buffer_view(&self) -> Seq<u128> {
        mac_values(self.buffer@)
    }

    /// The MACs recorded for the consistency check.
    pub open(crate) spec fn checks(&self) -> Seq<(u128, u128, u128)> {
        self.check.triples()
    }

    /// The adjust bits recorded for the consistency check.
    pub open(crate) spec fn check_adjusts(&self) -> Seq<bool> {
        self.check.adjusts()
    }

    /// The bytes hashed so far to draw the challenges of the check.
    pub open(crate) spec fn transcript(&self) -> Seq<u8> {
        self.check.transcript_view()
    }

    /// Returns `true` if there are gates to check.
    pub fn wants_check(&self) -> (r: bool)
        ensures
            r == (self.checks().len() > 0),
    {
        self.check.wants_check()
    }
}

impl Prover {
    /// Starts a circuit: grows the wire buffer to the circuit's wires and
    /// writes the input MACs at the input wires. There must be one input MAC
    /// per input wire and one random mask and MAC per AND gate.
    pub fn execute<'a>(
        &'a mut self,
        circ: &'a Circuit,
        input_macs: &'a [Mac],
        gate_masks: &'a [bool],
        gate_macs: &'a [Mac],
    ) -> (r: Result<ProverIter<'a>, ProverError>)
        requires
            circ.wf(),
            input_macs@.len() == circ.input_len_spec(),
            gate_masks@.len() == circ.and_count_spec(),
            gate_macs@.len() == circ.and_count_spec(),
        ensures
            r is Ok,
            r matches Ok(it) ==> {
                &&& it.wf()
                &&& it.pos() == 0
                &&& it.start() == prover_start(old(self).buffer_view(), *circ, mac_values(input_macs@))
                &&& it.gate_seq() == circ.gate_seq()
                &&& it.masks() == gate_masks@
                &&& it.random_macs() == mac_values(gate_macs@)
                &&& it.output_nodes() == flat_nodes(circ.output_nodes())
                &&& it.base_triples() == old(self).checks()
                &&& it.base_adjusts() == old(self).check_adjusts()
            },
    {
        if input_macs.len() != circ.input_len() {
            return Err(ProverError {});
        } else if gate_masks.len() != circ.and_count() {
            return Err(ProverError {});
        } else if gate_macs.len() != circ.and_count() {
            return Err(ProverError {});
        }
        self.check.reserve(circ.and_count());
        let feed_count = circ.feed_count();
        let ghost old_vals = mac_values(self.buffer@);
        while self.buffer.len() < feed_count
            invariant
                self.check.triples() == old(self).checks(),
                self.check.adjusts() == old(self).check_adjusts(),
                old_vals.len() <= self.buffer@.len(),
                old_vals.len() < feed_count ==> self.buffer@.len() <= feed_count,
                old_vals.len() >= feed_count ==> self.buffer@.len() == old_vals.len(),
                mac_values(self.buffer@) == old_vals + Seq::new(
                    (self.buffer@.len() - old_vals.len()) as nat,
                    |i: int| 0u128,
                ),
            decreases feed_count - self.buffer@.len(),
        {
            let ghost before = mac_values(self.buffer@);
            self.buffer.push(Mac::new(Block::zero()));
            proof {
                assert(mac_values(self.buffer@) =~= before.push(0u128));
                assert(mac_values(self.buffer@) =~= old_vals + Seq::new(
                    (self.buffer@.len() - old_vals.len()) as nat,
                    |i: int| 0u128,
                ));
            }
        }
        let ghost base = mac_values(self.buffer@);
        proof {
            if old_vals.len() >= feed_count {
                assert(base =~= old_vals);
            }
            assert(base =~= grown(old_vals, circ.feeds(), 0u128));
        }
        let groups = circ.inputs();
        let ghost views = vec_views(groups@);
        let ghost vals = mac_values(input_macs@);
        let mut j: usize = 0;
        let mut k: usize = 0;
        proof {
            assert(views.take(0) =~= Seq::<Seq<usize>>::empty());
        }
        while k < groups.len()
            invariant
                self.check.triples() == old(self).checks(),
                self.check.adjusts() == old(self).check_adjusts(),
                circ.wf(),
                views == vec_views(groups@),
                views == circ.input_nodes(),
                vals == mac_values(input_macs@),
                input_macs@.len() == flat_nodes(views).len(),
                base.len() >= circ.feeds(),
                self.buffer@.len() == base.len(),
                k <= groups@.len(),
                j == flat_nodes(views.take(k as int)).len(),
                mac_values(self.buffer@) == write_nodes(base, flat_nodes(views.take(k as int)), vals),
            decreases groups@.len() - k,
        {
            let group = &groups[k];
            proof {
                lemma_flat_nodes_push(views, k as int);
                lemma_flat_nodes_prefix(views, k as int + 1);
                assert(views[k as int] == group@);
            }
            let ghost prefix = flat_nodes(views.take(k as int));
            let mut i: usize = 0;
            proof {
                assert(prefix + group@.take(0) =~= prefix);
            }
            while i < group.len()
                invariant
                    self.check.triples() == old(self).checks(),
                    self.check.adjusts() == old(self).check_adjusts(),
                    circ.wf(),
                    views == circ.input_nodes(),
                    vals == mac_values(input_macs@),
                    input_macs@.len() == flat_nodes(views).len(),
                    k < groups@.len(),
                    views[k as int] == group@,
                    prefix == flat_nodes(views.take(k as int)),
                    flat_nodes(views.take(k + 1)) == prefix + group@,
                    forall|n: int| 0 <= n < flat_nodes(views.take(k + 1)).len() ==> #[trigger] flat_nodes(views.take(k + 1))[n] == flat_nodes(views)[n],
                    flat_nodes(views.take(k + 1)).len() <= flat_nodes(views).len(),
                    base.len() >= circ.feeds(),
                    self.buffer@.len() == base.len(),
                    i <= group.len(),
                    j == prefix.len() + i,
                    mac_values(self.buffer@) == write_nodes(base, prefix + group@.take(i as int), vals),
                decreases group.len() - i,
            {
                let node = group[i];
                proof {
                    assert(flat_nodes(views.take(k + 1))[prefix.len() + i] == node);
                    assert(flat_nodes(circ.input_nodes())[prefix.len() + i] == node);
                }
                let ghost before = mac_values(self.buffer@);
                self.buffer.set(node, input_macs[j]);
                proof {
                    let s0 = prefix + group@.take(i as int);
                    assert(prefix + group@.take(i + 1) =~= s0.push(node));
                    lemma_write_nodes_push(base, s0, node, vals);
                    assert(mac_values(self.buffer@) =~= before.update(node as int, vals[j as int]));
                }
                i = i + 1;
                j = j + 1;
            }
            proof {
                assert(group@.take(group.len() as int) =~= group@);
            }
            k = k + 1;
        }
        proof {
            assert(views.take(views.len() as int) =~= views);
            lemma_write_nodes_len(base, flat_nodes(views), vals);
        }
        let ghost start = mac_values(self.buffer@);
        let ghost triples = self.check.triples();
        let ghost adjusts = self.check.adjusts();
        let gates = circ.gates();
        let it = ProverIter {
            buffer: &mut self.buffer,
            gate_masks,
            gate_macs,
            gates,
            pos: 0,
            outputs: circ.outputs(),
            counter: 0,
            and_count: circ.and_count(),
            complete: false,
            check: &mut self.check,
            start: Ghost(start),
            base_triples: Ghost(triples),
            base_adjusts: Ghost(adjusts),
        };
        proof {
            assert(gates@.take(0) =~= Seq::<Gate>::empty());
            assert(triples + Seq::<(u128, u128, u128)>::empty() =~= triples);
            assert(adjusts + Seq::<bool>::empty() =~= adjusts);
        }
        Ok(it)
    }
}

impl Prover {
    /// Executes the consistency check over the AND gates recorded since the
    /// last check and returns `U` and `V`. The adjust bits are added to the
    /// transcript, the challenge is drawn from its digest, and `U` and `V`
    /// are added to the transcript in turn.
    pub fn check(&mut self, mask_u: Block, mask_v: Block) -> (r: (Block, Block))
        ensures
            (r.0.value(), r.1.value()) == uv_terms(
                old(self).checks(),
                transcript_chi(old(self).transcript(), old(self).check_adjusts()),
                mask_u.value(),
                mask_v.value(),
            ),
            final(self).transcript() == old(self).transcript() + packed_bits(
                old(self).check_adjusts(),
            ) + block_bytes(r.0.value()) + block_bytes(r.1.value()),
            final(self).checks() == Seq::<(u128, u128, u128)>::empty(),
            final(self).check_adjusts() == Seq::<bool>::empty(),
            final(self).buffer_view() == old(self).buffer_view(),
    {
        let mut packed = pack_bits(self.check.adjust.as_slice());
        self.check.transcript.append(&mut packed);
        let digest = blake3_hash(self.check.transcript.as_slice());
        let chi = block_from_le_bytes(&digest);
        let (u, v) = check_uv(self.check.macs.as_slice(), chi, mask_u, mask_v);
        let mut ub = u.to_bytes();
        let mut vb = v.to_bytes();
        self.check.transcript.append(&mut ub);
        self.check.transcript.append(&mut vb);
        self.check.macs = Vec::new();
        self.check.adjust = Vec::new();
        assert(self.check.triples() =~= Seq::<(u128, u128, u128)>::empty());
        (u, v)
    }
}

/// The end of the `k`-th chunk of `n` adjust bits cut in chunks of `size`.
pub open spec fn chunk_end(k: int, size: int, n: int) -> int {
    if size * (k + 1) <= n {
        size * (k + 1)
    } else {
        n
    }
}

/// Cuts the adjust bits into the messages the prover sends: chunks of 8000
/// bits, the last one possibly shorter.
pub fn adjust_chunks(bits: &[bool]) -> (r: Vec<Vec<bool>>)
    ensures
        8000 * r@.len() >= bits@.len(),
        r@.len() == 0 || 8000 * (r@.len() - 1) < bits@.len(),
        forall|k: int|
            0 <= k < r@.len() ==> #[trigger] r@[k]@ == bits@.subrange(
                8000 * k,
                chunk_end(k, 8000, bits@.len() as int),
            ),
{
    let n = bits.len();
    let mut out: Vec<Vec<bool>> = Vec::new();
    let mut i: usize = 0;
    while i < n
        invariant
            n == bits@.len(),
            i <= n,
            i <= 8000 * out@.len(),
            i < n ==> i == 8000 * out@.len(),
            out@.len() == 0 || 8000 * (out@.len() - 1) < n,
            forall|k: int|
                0 <= k < out@.len() ==> #[trigger] out@[k]@ == bits@.subrange(
                    8000 * k,
                    chunk_end(k, 8000, n as int),
                ),
        decreases n - i,
    {
        let end: usize = if n - i <= 8000 {
            n
        } else {
            i + 8000
        };
        let mut chunk: Vec<bool> = Vec::new();
        let mut j: usize = i;
        while j < end
            invariant
                i <= j <= end <= n == bits@.len(),
                chunk@ == bits@.subrange(i as int, j as int),
            decreases end - j,
        {
            chunk.push(bits[j]);
            assert(bits@.subrange(i as int, j + 1) =~= bits@.subrange(i as int, j as int).push(
                bits@[j as int],
            ));
            j = j + 1;
        }
        let ghost k = out@.len() as int;
        assert(end == chunk_end(k, 8000, n as int));
        out.push(chunk);
        i = end;
    }
    out
}

impl Default for Prover {
    fn default() -> (r: Prover)
        ensures
            r.buffer_view() == Seq::<u128>::empty(),
            r.checks() == Seq::<(u128, u128, u128)>::empty(),
            r.check_adjusts() == Seq::<bool>::empty(),
            r.transcript() == Seq::<u8>::empty(),
    {
        let r = Prover { buffer: Vec::new(), check: Check::new() };
        assert(r.buffer_view() =~= Seq::<u128>::empty());
        r
    }
}

/// Runs a circuit gate by gate, handing out the adjust bit of each AND gate.
pub struct ProverIter<'a> {
    pub(crate) buffer: &'a mut Vec<Mac>,
    pub(crate) gate_masks: &'a [bool],
    pub(crate) gate_macs: &'a [Mac],
    pub(crate) gates: &'a [Gate],
    pub(crate) pos: usize,
    pub(crate) outputs: &'a [Vec<usize>],
    pub(crate) counter: usize,
    pub(crate) and_count: usize,
    pub(crate) complete: bool,
    pub(crate) check: &'a mut Check,
    pub(crate) start: Ghost<Seq<u128>>,
    pub(crate) base_triples: Ghost<Seq<(u128, u128, u128)>>,
    pub(crate) base_adjusts: Ghost<Seq<bool>>,
}

impl<'a> ProverIter<'a> {
    /// The wire MACs when the circuit started.
    pub open(crate) spec fn start(&self) -> Seq<u128> {
        self.start@
    }

    /// The gates of the circuit.
    pub open(crate) spec fn gate_seq(&self) -> Seq<Gate> {
        self.gates@
    }

    /// The random masks of the AND gates.
    pub open(crate) spec fn masks(&self) -> Seq<bool> {
        self.gate_masks@
    }

    /// The random MACs of the AND gates.
    pub open(crate) spec fn random_macs(&self) -> Seq<u128> {
        mac_values(self.gate_macs@)
    }

    /// The output wires, output after output.
    pub open(crate) spec fn output_nodes(&self) -> Seq<usize> {
        flat_nodes(vec_views(self.outputs@))
    }

    /// The number of gates computed.
    pub open(crate) spec fn pos(&self) -> int {
        self.pos as int
    }

    /// What was recorded for the check before the circuit started.
    pub open(crate) spec fn base_triples(&self) -> Seq<(u128, u128, u128)> {
        self.base_triples@
    }

    /// The adjust bits recorded before the circuit started.
    pub open(crate) spec fn base_adjusts(&self) -> Seq<bool> {
        self.base_adjusts@
    }

    /// What the prover has computed over the gates so far.
    pub open(crate) spec fn trace(&self) -> ProverTrace {
        prover_run(self.start(), self.gate_seq().take(self.pos()), self.masks(), self.random_macs())
    }

    /// What the prover computes over the whole circuit.
    pub open(crate) spec fn full_trace(&self) -> ProverTrace {
        prover_run(self.start(), self.gate_seq(), self.masks(), self.random_macs())
    }

    /// The wire buffer and the check follow the trace of the gates so far.
    pub open(crate) spec fn wf(&self) -> bool {
        &&& self.pos <= self.gates@.len()
        &&& self.and_count == and_gates(self.gates@)
        &&& self.counter == and_gates(self.gates@.take(self.pos as int))
        &&& self.gate_masks@.len() == self.and_count
        &&& self.gate_macs@.len() == self.and_count
        &&& forall|i: int| 0 <= i < self.gates@.len() ==> gate_fits(#[trigger] self.gates@[i], self.start@.len())
        &&& forall|i: int| 0 <= i < self.output_nodes().len() ==> #[trigger] self.output_nodes()[i] < self.start@.len()
        &&& mac_values(self.buffer@) == self.trace().buf
        &&& self.check.triples() == self.base_triples@ + self.trace().checks
        &&& self.check.adjusts() == self.base_adjusts@ + self.trace().adjusts
        &&& self.complete ==> self.pos == self.gates@.len()
    }

    /// Both run the same circuit on the same inputs.
    pub open(crate) spec fn same_run(&self, other: &Self) -> bool {
        &&& self.start() == other.start()
        &&& self.gate_seq() == other.gate_seq()
        &&& self.masks() == other.masks()
        &&& self.random_macs() == other.random_macs()
        &&& self.output_nodes() == other.output_nodes()
        &&& self.base_triples() == other.base_triples()
        &&& self.base_adjusts() == other.base_adjusts()
    }

    /// Returns `true` if there are AND gates left.
    pub fn has_gates(&self) -> (r: bool)
        requires
            self.wf(),
        ensures
            r == (and_gates(self.gate_seq().take(self.pos())) != and_gates(self.gate_seq())),
    {
        self.counter != self.and_count
    }

    /// Computes the gates up to the next AND gate, returning `true` if there
    /// is one.
    fn eval_free_gates(&mut self) -> (r: bool)
        requires
            old(self).wf(),
        ensures
            final(self).wf(),
            final(self).same_run(old(self)),
            final(self).pos() == next_and(old(self).gate_seq(), old(self).pos()),
            r == (final(self).pos() < final(self).gate_seq().len()),
            final(self).complete == old(self).complete,
    {
        proof {
            lemma_next_and(self.gates@, self.pos as int);
        }
        while self.pos < self.gates.len()
            invariant
                self.wf(),
                self.same_run(old(self)),
                self.complete == old(self).complete,
                old(self).pos() <= self.pos(),
                next_and(self.gates@, self.pos as int) == next_and(old(self).gate_seq(), old(self).pos()),
                forall|k: int| old(self).pos() <= k < self.pos() ==> !(#[trigger] self.gates@[k] is And),
            decreases self.gates@.len() - self.pos,
        {
            let gate = self.gates[self.pos];
            proof {
                lemma_prover_run_push(self.start@, self.gates@, self.gate_masks@, mac_values(self.gate_macs@), self.pos as int);
                lemma_prover_buf_len(self.start@, self.gates@.take(self.pos as int), self.gate_masks@, mac_values(self.gate_macs@));
                lemma_and_gates_push(self.gates@, self.pos as int);
                assert(gate_fits(self.gates@[self.pos as int], self.start@.len()));
            }
            match gate {
                Gate::Xor { x, y, z } => {
                    let mx = self.buffer[x];
                    let my = self.buffer[y];
                    let mz = Mac::new(mx.as_block().xor(&my.as_block()));
                    let ghost before = mac_values(self.buffer@);
                    self.buffer.set(z, mz);
                    proof {
                        assert(mac_values(self.buffer@) =~= before.update(z as int, mz.value()));
                    }
                },
                Gate::Inv { x, z } => {
                    let mut m = self.buffer[x];
                    let p = m.pointer();
                    m.set_pointer(!p);
                    let ghost before = mac_values(self.buffer@);
                    self.buffer.set(z, m);
                    proof {
                        assert(mac_values(self.buffer@) =~= before.update(z as int, m.value()));
                    }
                },
                Gate::And { .. } => {
                    return true;
                },
            }
            self.pos = self.pos + 1;
        }
        false
    }

    /// Computes the gates up to and including the next AND gate, returning
    /// its adjust bit, or `None` once the gates are done. After the last AND
    /// gate the remaining gates are computed at once.
    pub fn next(&mut self) -> (r: Option<bool>)
        requires
            old(self).wf(),
        ensures
            final(self).wf(),
            final(self).same_run(old(self)),
            ({
                let gates = old(self).gate_seq();
                let p = next_and(gates, old(self).pos());
                &&& p == gates.len() ==> r is None && final(self).pos() == gates.len()
                &&& p < gates.len() ==> r == Some(
                    prover_run(old(self).start(), gates.take(p + 1), old(self).masks(), old(self).random_macs()).adjusts.last(),
                ) && final(self).pos() == if and_gates(gates.take(p + 1)) == and_gates(gates) {
                    gates.len() as int
                } else {
                    p + 1
                }
            }),
    {
        let found = self.eval_free_gates();
        if !found {
            return None;
        }
        proof {
            lemma_next_and(old(self).gate_seq(), old(self).pos());
            lemma_prover_run_push(self.start@, self.gates@, self.gate_masks@, mac_values(self.gate_macs@), self.pos as int);
            lemma_prover_buf_len(self.start@, self.gates@.take(self.pos as int), self.gate_masks@, mac_values(self.gate_macs@));
            lemma_and_gates_push(self.gates@, self.pos as int);
            lemma_and_gates_grow(self.gates@, self.pos as int + 1, self.gates@.len() as int);
            assert(self.gates@.take(self.gates@.len() as int) =~= self.gates@);
            assert(gate_fits(self.gates@[self.pos as int], self.start@.len()));
        }
        let gate = self.gates[self.pos];
        let adjust = match gate {
            Gate::And { x, y, z } => {
                let mx = self.buffer[x];
                let my = self.buffer[y];
                let mut mz = self.gate_macs[self.counter];
                let w = mx.pointer() && my.pointer();
                mz.set_pointer(w);
                let adjust = self.gate_masks[self.counter] != w;
                let ghost before = mac_values(self.buffer@);
                self.buffer.set(z, mz);
                proof {
                    assert(mac_values(self.buffer@) =~= before.update(z as int, mz.value()));
                }
                self.check.push(mx, my, mz, adjust);
                adjust
            },
            _ => {
                proof {
                    assert(false);
                }
                false
            },
        };
        self.counter = self.counter + 1;
        self.pos = self.pos + 1;
        proof {
            assert(self.check.triples() =~= self.base_triples@ + self.trace().checks);
            assert(self.check.adjusts() =~= self.base_adjusts@ + self.trace().adjusts);
        }
        if !self.has_gates() {
            proof {
                lemma_no_and_after(self.gates@, self.pos as int);
            }
            self.eval_free_gates();
            self.complete = true;
        }
        Some(adjust)
    }

    /// Finishes the circuit, returning the MACs of its outputs. Every AND
    /// gate must have been computed.
    pub fn finish(self) -> (r: Result<Vec<Mac>, ProverError>)
        requires
            self.wf(),
            and_gates(self.gate_seq().take(self.pos())) == and_gates(self.gate_seq()),
        ensures
            r is Ok,
            r matches Ok(v) ==> mac_values(v@) == read_nodes(self.full_trace().buf, self.output_nodes()),
    {
        let mut it = self;
        if it.has_gates() {
            return Err(ProverError {});
        }
        if !it.complete {
            proof {
                lemma_no_and_after(it.gates@, it.pos as int);
            }
            it.eval_free_gates();
        }
        proof {
            assert(it.gates@.take(it.gates@.len() as int) =~= it.gates@);
            lemma_prover_buf_len(it.start@, it.gates@, it.gate_masks@, mac_values(it.gate_macs@));
        }
        let ghost buf = mac_values(it.buffer@);
        let ghost views = vec_views(it.outputs@);
        let mut out: Vec<Mac> = Vec::new();
        let mut k: usize = 0;
        proof {
            assert(views.take(0) =~= Seq::<Seq<usize>>::empty());
            assert(mac_values(out@) =~= read_nodes(buf, flat_nodes(views.take(0))));
        }
        while k < it.outputs.len()
            invariant
                it.wf(),
                buf == mac_values(it.buffer@),
                views == vec_views(it.outputs@),
                k <= it.outputs@.len(),
                it.pos() == it.gate_seq().len(),
                buf.len() == it.start().len(),
                mac_values(out@) == read_nodes(buf, flat_nodes(views.take(k as int))),
            decreases it.outputs@.len() - k,
        {
            let group = &it.outputs[k];
            proof {
                lemma_flat_nodes_push(views, k as int);
                lemma_flat_nodes_prefix(views, k as int + 1);
                assert(views[k as int] == group@);
            }
            let ghost prefix = flat_nodes(views.take(k as int));
            let mut i: usize = 0;
            proof {
                assert(prefix + group@.take(0) =~= prefix);
            }
            while i < group.len()
                invariant
                    it.wf(),
                    buf == mac_values(it.buffer@),
                    views == vec_views(it.outputs@),
                    k < it.outputs@.len(),
                    views[k as int] == group@,
                    prefix == flat_nodes(views.take(k as int)),
                    flat_nodes(views.take(k + 1)) == prefix + group@,
                    forall|n: int| 0 <= n < flat_nodes(views.take(k + 1)).len() ==> #[trigger] flat_nodes(views.take(k + 1))[n] == flat_nodes(views)[n],
                    flat_nodes(views.take(k + 1)).len() <= flat_nodes(views).len(),
                    buf.len() == it.start().len(),
                    i <= group.len(),
                    mac_values(out@) == read_nodes(buf, prefix + group@.take(i as int)),
                decreases group.len() - i,
            {
                let node = group[i];
                proof {
                    assert(flat_nodes(views.take(k + 1))[prefix.len() + i] == node);
                    assert(it.output_nodes()[prefix.len() + i] == node);
                }
                let m = it.buffer[node];
                let ghost before = mac_values(out@);
                out.push(m);
                proof {
                    let s0 = prefix + group@.take(i as int);
                    assert(prefix + group@.take(i + 1) =~= s0.push(node));
                    assert(m.value() == buf[node as int]);
                    assert(mac_values(out@) =~= before.push(m.value()));
                    assert(read_nodes(buf, s0.push(node)) =~= read_nodes(buf, s0).push(buf[node as int]));
                }
                i = i + 1;
            }
            proof {
                assert(group@.take(group.len() as int) =~= group@);
            }
            k = k + 1;
        }
        proof {
            assert(views.take(views.len() as int) =~= views);
        }
        Ok(out)
    }
}

} // verus!
