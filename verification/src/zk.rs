//! Zero-knowledge proofs of boolean circuits over correlated MACs.
//!
//! The prover holds a MAC for every wire of the circuit and the verifier the
//! matching key. XOR and INV gates are computed locally. Each AND gate uses
//! one random correlation and one bit sent by the prover, the adjust bit.
//!
//! This module states what the two parties compute, gate by gate, and proves
//! that honest parties keep every wire consistent.
use vstd::prelude::*;

use crate::circuit::{and_gates, flat_nodes, gate_fits, lemma_and_gates_push, Circuit, Gate};
use crate::zk::checking::{verifier_start, VerifierConsumer};
use crate::zk::proving::{prover_start, ProverIter};
use crate::correlated::{auth_value, lemma_lsb_xor, lsb, with_lsb, Delta};

pub mod proving;
pub mod checking;
pub mod consistency;

verus! {

/// An honest prover's MAC and the verifier's key of a wire that carries
/// `bit`: the MAC is the key's MAC of the bit, with its pointer bit replaced
/// by the bit itself.
pub open spec fn wire_rel(mac: u128, key: u128, bit: bool, delta: u128) -> bool {
    mac == with_lsb(auth_value(key, bit, delta), bit)
}

/// The wire values after one gate.
pub open spec fn eval_gate(bits: Seq<bool>, g: Gate) -> Seq<bool> {
    match g {
        Gate::Xor { x, y, z } => bits.update(z as int, bits[x as int] != bits[y as int]),
        Gate::And { x, y, z } => bits.update(z as int, bits[x as int] && bits[y as int]),
        Gate::Inv { x, z } => bits.update(z as int, !bits[x as int]),
    }
}

/// The wire values after the gates, in order.
pub open spec fn eval_gates(bits: Seq<bool>, gates: Seq<Gate>) -> Seq<bool>
    decreases gates.len(),
{
    if gates.len() == 0 {
        bits
    } else {
        eval_gate(eval_gates(bits, gates.drop_last()), gates.last())
    }
}

/// What the prover has computed after some gates: the MAC of every wire,
/// the adjust bits it has sent, and the MACs of each AND gate it recorded
/// for the consistency check.
pub struct ProverTrace {
    pub buf: Seq<u128>,
    pub adjusts: Seq<bool>,
    pub checks: Seq<(u128, u128, u128)>,
}

/// The prover's step over one gate. The `k`-th AND gate takes the `k`-th
/// random MAC and mask.
pub open spec fn prover_gate(s: ProverTrace, g: Gate, masks: Seq<bool>, macs: Seq<u128>) -> ProverTrace {
    match g {
        Gate::Xor { x, y, z } => ProverTrace {
            buf: s.buf.update(z as int, s.buf[x as int] ^ s.buf[y as int]),
            ..s
        },
        Gate::And { x, y, z } => {
            let c = s.adjusts.len() as int;
            let w = lsb(s.buf[x as int]) && lsb(s.buf[y as int]);
            let mz = with_lsb(macs[c], w);
            ProverTrace {
                buf: s.buf.update(z as int, mz),
                adjusts: s.adjusts.push(masks[c] != w),
                checks: s.checks.push((s.buf[x as int], s.buf[y as int], mz)),
            }
        },
        Gate::Inv { x, z } => ProverTrace {
            buf: s.buf.update(z as int, with_lsb(s.buf[x as int], !lsb(s.buf[x as int]))),
            ..s
        },
    }
}

/// The prover's state after the gates, from the wire MACs `init`.
pub open spec fn prover_run(init: Seq<u128>, gates: Seq<Gate>, masks: Seq<bool>, macs: Seq<u128>) -> ProverTrace
    decreases gates.len(),
{
    if gates.len() == 0 {
        ProverTrace { buf: init, adjusts: Seq::empty(), checks: Seq::empty() }
    } else {
        prover_gate(prover_run(init, gates.drop_last(), masks, macs), gates.last(), masks, macs)
    }
}

/// What the verifier has computed after some gates: the key of every wire,
/// the number of AND gates, and the keys of each AND gate it recorded for
/// the consistency check.
pub struct VerifierTrace {
    pub buf: Seq<u128>,
    pub count: nat,
    pub checks: Seq<(u128, u128, u128)>,
}

/// The verifier's step over one gate. The `k`-th AND gate takes the `k`-th
/// random key and the `k`-th adjust bit received from the prover.
pub open spec fn verifier_gate(
    s: VerifierTrace,
    g: Gate,
    adjusts: Seq<bool>,
    keys: Seq<u128>,
    delta: u128,
) -> VerifierTrace {
    match g {
        Gate::Xor { x, y, z } => VerifierTrace {
            buf: s.buf.update(z as int, s.buf[x as int] ^ s.buf[y as int]),
            ..s
        },
        Gate::And { x, y, z } => {
            let c = s.count as int;
            let kz = auth_value(keys[c], adjusts[c], delta);
            VerifierTrace {
                buf: s.buf.update(z as int, kz),
                count: s.count + 1,
                checks: s.checks.push((s.buf[x as int], s.buf[y as int], kz)),
            }
        },
        Gate::Inv { x, z } => VerifierTrace {
            buf: s.buf.update(z as int, auth_value(s.buf[x as int], true, delta)),
            ..s
        },
    }
}

/// The verifier's state after the gates, from the wire keys `init`.
pub open spec fn verifier_run(
    init: Seq<u128>,
    gates: Seq<Gate>,
    adjusts: Seq<bool>,
    keys: Seq<u128>,
    delta: u128,
) -> VerifierTrace
    decreases gates.len(),
{
    if gates.len() == 0 {
        VerifierTrace { buf: init, count: 0, checks: Seq::empty() }
    } else {
        verifier_gate(
            verifier_run(init, gates.drop_last(), adjusts, keys, delta),
            gates.last(),
            adjusts,
            keys,
            delta,
        )
    }
}

/// `buf` with the `j`-th of `vals` written at the `j`-th of `nodes`, in
/// order.
pub open spec fn write_nodes<T>(buf: Seq<T>, nodes: Seq<usize>, vals: Seq<T>) -> Seq<T>
    decreases nodes.len(),
{
    if nodes.len() == 0 {
        buf
    } else {
        write_nodes(buf, nodes.drop_last(), vals).update(
            nodes.last() as int,
            vals[nodes.len() - 1],
        )
    }
}

/// The values of `buf` at `nodes`.
pub open spec fn read_nodes<T>(buf: Seq<T>, nodes: Seq<usize>) -> Seq<T> {
    nodes.map_values(|n: usize| buf[n as int])
}

/// `buf`, grown with `fill` to at least `n` entries.
pub open spec fn grown<T>(buf: Seq<T>, n: nat, fill: T) -> Seq<T> {
    if buf.len() < n {
        buf + Seq::new((n - buf.len()) as nat, |i: int| fill)
    } else {
        buf
    }
}

/// The index of the first AND gate at or after `from`, or the number of
/// gates if there is none.
pub open spec fn next_and(gates: Seq<Gate>, from: int) -> int
    decreases gates.len() - from,
{
    if from >= gates.len() {
        gates.len() as int
    } else if gates[from] is And {
        from
    } else {
        next_and(gates, from + 1)
    }
}

/// Every wire of the prover's and the verifier's buffers is consistent with
/// the wire values `bits`.
pub open spec fn wires_rel(macs: Seq<u128>, keys: Seq<u128>, bits: Seq<bool>, delta: u128) -> bool {
    &&& macs.len() == keys.len()
    &&& keys.len() == bits.len()
    &&& forall|i: int| 0 <= i < bits.len() ==> wire_rel(#[trigger] macs[i], keys[i], bits[i], delta)
}

/// The pointer bits of a sequence of MACs.
pub open spec fn pointers(macs: Seq<u128>) -> Seq<bool> {
    macs.map_values(|m: u128| lsb(m))
}

proof fn lemma_with_lsb_xor(a: u128, b: u128, p: bool, q: bool)
    ensures
        with_lsb(a, p) ^ with_lsb(b, q) == with_lsb(a ^ b, p != q),
{
    if p {
        if q {
            assert((a | 1) ^ (b | 1) == (a ^ b) & !1u128) by (bit_vector);
        } else {
            assert((a | 1) ^ (b & !1u128) == (a ^ b) | 1) by (bit_vector);
        }
    } else {
        if q {
            assert((a & !1u128) ^ (b | 1) == (a ^ b) | 1) by (bit_vector);
        } else {
            assert((a & !1u128) ^ (b & !1u128) == (a ^ b) & !1u128) by (bit_vector);
        }
    }
}

proof fn lemma_with_lsb_twice(a: u128, p: bool, q: bool)
    ensures
        with_lsb(with_lsb(a, p), q) == with_lsb(a, q),
        lsb(with_lsb(a, p)) == p,
{
    assert((a | 1) | 1 == a | 1) by (bit_vector);
    assert((a | 1) & !1u128 == a & !1u128) by (bit_vector);
    assert((a & !1u128) | 1 == a | 1) by (bit_vector);
    assert((a & !1u128) & !1u128 == a & !1u128) by (bit_vector);
    assert((a | 1) & 1 == 1) by (bit_vector);
    assert((a & !1u128) & 1 == 0) by (bit_vector);
}

proof fn lemma_auth_xor(a: u128, b: u128, p: bool, q: bool, d: u128)
    ensures
        auth_value(a, p, d) ^ auth_value(b, q, d) == auth_value(a ^ b, p != q, d),
{
    assert((a ^ d) ^ (b ^ d) == a ^ b) by (bit_vector);
    assert((a ^ d) ^ b == (a ^ b) ^ d) by (bit_vector);
    assert(a ^ (b ^ d) == (a ^ b) ^ d) by (bit_vector);
}

proof fn lemma_auth_twice(a: u128, p: bool, q: bool, d: u128)
    ensures
        auth_value(auth_value(a, p, d), q, d) == auth_value(a, p != q, d),
{
    assert((a ^ d) ^ d == a) by (bit_vector);
}

/// One gate keeps honest parties consistent.
proof fn lemma_gate_keeps_rel(
    p: ProverTrace,
    v: VerifierTrace,
    bits: Seq<bool>,
    g: Gate,
    masks: Seq<bool>,
    gate_macs: Seq<u128>,
    gate_keys: Seq<u128>,
    adjusts: Seq<bool>,
    delta: Delta,
)
    requires
        wires_rel(p.buf, v.buf, bits, delta.value()),
        gate_fits(g, bits.len()),
        v.count == p.adjusts.len(),
        g is And ==> adjusts[p.adjusts.len() as int] == prover_gate(p, g, masks, gate_macs).adjusts.last(),
        g is And ==> p.adjusts.len() < adjusts.len() && p.adjusts.len() < masks.len()
            && p.adjusts.len() < gate_macs.len() && p.adjusts.len() < gate_keys.len()
            && gate_macs[p.adjusts.len() as int] == auth_value(
            gate_keys[p.adjusts.len() as int],
            masks[p.adjusts.len() as int],
            delta.value(),
        ),
    ensures
        wires_rel(
            prover_gate(p, g, masks, gate_macs).buf,
            verifier_gate(v, g, adjusts, gate_keys, delta.value()).buf,
            eval_gate(bits, g),
            delta.value(),
        ),
        verifier_gate(v, g, adjusts, gate_keys, delta.value()).count == prover_gate(
            p,
            g,
            masks,
            gate_macs,
        ).adjusts.len(),
{
    let d = delta.value();
    let p2 = prover_gate(p, g, masks, gate_macs);
    let v2 = verifier_gate(v, g, adjusts, gate_keys, d);
    let b2 = eval_gate(bits, g);
    match g {
        Gate::Xor { x, y, z } => {
            let (bx, by) = (bits[x as int], bits[y as int]);
            assert(wire_rel(p.buf[x as int], v.buf[x as int], bx, d));
            assert(wire_rel(p.buf[y as int], v.buf[y as int], by, d));
            lemma_with_lsb_xor(auth_value(v.buf[x as int], bx, d), auth_value(v.buf[y as int], by, d), bx, by);
            lemma_auth_xor(v.buf[x as int], v.buf[y as int], bx, by, d);
            assert forall|i: int| 0 <= i < b2.len() implies wire_rel(#[trigger] p2.buf[i], v2.buf[i], b2[i], d) by {
                if i != z {
                    assert(wire_rel(p.buf[i], v.buf[i], bits[i], d));
                }
            }
        },
        Gate::And { x, y, z } => {
            let c = p.adjusts.len() as int;
            let (bx, by) = (bits[x as int], bits[y as int]);
            assert(wire_rel(p.buf[x as int], v.buf[x as int], bx, d));
            assert(wire_rel(p.buf[y as int], v.buf[y as int], by, d));
            lemma_with_lsb_twice(auth_value(v.buf[x as int], bx, d), bx, bx);
            lemma_with_lsb_twice(auth_value(v.buf[y as int], by, d), by, by);
            let w = bx && by;
            lemma_auth_twice(gate_keys[c], masks[c] != w, w, d);
            lemma_with_lsb_twice(gate_macs[c], w, w);
            assert forall|i: int| 0 <= i < b2.len() implies wire_rel(#[trigger] p2.buf[i], v2.buf[i], b2[i], d) by {
                if i != z {
                    assert(wire_rel(p.buf[i], v.buf[i], bits[i], d));
                }
            }
        },
        Gate::Inv { x, z } => {
            let bx = bits[x as int];
            let kx = v.buf[x as int];
            assert(wire_rel(p.buf[x as int], kx, bx, d));
            lemma_with_lsb_twice(auth_value(kx, bx, d), bx, !bx);
            lemma_auth_twice(kx, true, !bx, d);
            assert forall|i: int| 0 <= i < b2.len() implies wire_rel(#[trigger] p2.buf[i], v2.buf[i], b2[i], d) by {
                if i != z {
                    assert(wire_rel(p.buf[i], v.buf[i], bits[i], d));
                }
            }
        },
    }
}

/// Honest parties stay consistent: when every wire's MAC and key agree with
/// the wire values before the gates, and each random MAC is its key's MAC
/// of its mask, then after the gates every wire's MAC and key agree with
/// the wire values that the circuit computes, where the verifier uses the
/// adjust bits the prover sent.
pub proof fn lemma_honest_parties_agree(
    macs: Seq<u128>,
    keys: Seq<u128>,
    bits: Seq<bool>,
    gates: Seq<Gate>,
    masks: Seq<bool>,
    gate_macs: Seq<u128>,
    gate_keys: Seq<u128>,
    delta: Delta,
)
    requires
        wires_rel(macs, keys, bits, delta.value()),
        forall|i: int| 0 <= i < gates.len() ==> gate_fits(#[trigger] gates[i], bits.len()),
        masks.len() >= and_gates(gates),
        gate_macs.len() >= and_gates(gates),
        gate_keys.len() >= and_gates(gates),
        forall|j: int|
            0 <= j < and_gates(gates) ==> #[trigger] gate_macs[j] == auth_value(
                gate_keys[j],
                masks[j],
                delta.value(),
            ),
    ensures
        prover_run(macs, gates, masks, gate_macs).adjusts.len() == and_gates(gates),
        wires_rel(
            prover_run(macs, gates, masks, gate_macs).buf,
            verifier_run(
                keys,
                gates,
                prover_run(macs, gates, masks, gate_macs).adjusts,
                gate_keys,
                delta.value(),
            ).buf,
            eval_gates(bits, gates),
            delta.value(),
        ),
    decreases gates.len(),
{
    let adjusts = prover_run(macs, gates, masks, gate_macs).adjusts;
    assert(adjusts.take(adjusts.len() as int) =~= adjusts);
    lemma_runs_agree(macs, keys, bits, gates, masks, gate_macs, gate_keys, adjusts, delta);
}

/// The induction behind [`lemma_honest_parties_agree`], for any adjust bits
/// that extend the prover's.
proof fn lemma_runs_agree(
    macs: Seq<u128>,
    keys: Seq<u128>,
    bits: Seq<bool>,
    gates: Seq<Gate>,
    masks: Seq<bool>,
    gate_macs: Seq<u128>,
    gate_keys: Seq<u128>,
    adjusts: Seq<bool>,
    delta: Delta,
)
    requires
        wires_rel(macs, keys, bits, delta.value()),
        forall|i: int| 0 <= i < gates.len() ==> gate_fits(#[trigger] gates[i], bits.len()),
        masks.len() >= and_gates(gates),
        gate_macs.len() >= and_gates(gates),
        gate_keys.len() >= and_gates(gates),
        forall|j: int|
            0 <= j < and_gates(gates) ==> #[trigger] gate_macs[j] == auth_value(
                gate_keys[j],
                masks[j],
                delta.value(),
            ),
        adjusts.len() >= prover_run(macs, gates, masks, gate_macs).adjusts.len(),
        adjusts.take(prover_run(macs, gates, masks, gate_macs).adjusts.len() as int)
            == prover_run(macs, gates, masks, gate_macs).adjusts,
    ensures
        prover_run(macs, gates, masks, gate_macs).adjusts.len() == and_gates(gates),
        verifier_run(keys, gates, adjusts, gate_keys, delta.value()).count == and_gates(gates),
        wires_rel(
            prover_run(macs, gates, masks, gate_macs).buf,
            verifier_run(keys, gates, adjusts, gate_keys, delta.value()).buf,
            eval_gates(bits, gates),
            delta.value(),
        ),
    decreases gates.len(),
{
    if gates.len() > 0 {
        let init = gates.drop_last();
        let g = gates.last();
        let p = prover_run(macs, init, masks, gate_macs);
        let p2 = prover_gate(p, g, masks, gate_macs);
        assert(and_gates(init) <= and_gates(gates));
        assert forall|i: int| 0 <= i < init.len() implies gate_fits(#[trigger] init[i], bits.len()) by {
            assert(init[i] == gates[i]);
        }
        assert(p2.adjusts.take(p.adjusts.len() as int) =~= p.adjusts);
        assert(adjusts.take(p.adjusts.len() as int) =~= adjusts.take(p2.adjusts.len() as int).take(
            p.adjusts.len() as int,
        ));
        lemma_runs_agree(macs, keys, bits, init, masks, gate_macs, gate_keys, adjusts, delta);
        let v = verifier_run(keys, init, adjusts, gate_keys, delta.value());
        assert(gate_fits(gates[gates.len() - 1], bits.len()));
        if g is And {
            assert(adjusts.take(p2.adjusts.len() as int)[p.adjusts.len() as int] == adjusts[p.adjusts.len() as int]);
        }
        lemma_eval_len(bits, init);
        lemma_gate_keeps_rel(p, v, eval_gates(bits, init), g, masks, gate_macs, gate_keys, adjusts, delta);
    }
}

/// The prover's pointer bits evaluate the circuit: whatever the random MACs
/// and masks, the pointer bit of every wire's MAC after the gates is the
/// wire value the circuit computes from the pointer bits before.
pub proof fn lemma_prover_evaluates(
    macs: Seq<u128>,
    gates: Seq<Gate>,
    masks: Seq<bool>,
    gate_macs: Seq<u128>,
)
    requires
        forall|i: int| 0 <= i < gates.len() ==> gate_fits(#[trigger] gates[i], macs.len()),
    ensures
        pointers(prover_run(macs, gates, masks, gate_macs).buf) == eval_gates(pointers(macs), gates),
    decreases gates.len(),
{
    if gates.len() > 0 {
        let init = gates.drop_last();
        assert forall|i: int| 0 <= i < init.len() implies gate_fits(#[trigger] init[i], macs.len()) by {
            assert(init[i] == gates[i]);
        }
        lemma_prover_evaluates(macs, init, masks, gate_macs);
        let p = prover_run(macs, init, masks, gate_macs);
        let g = gates.last();
        assert(gate_fits(gates[gates.len() - 1], macs.len()));
        lemma_prover_buf_len(macs, init, masks, gate_macs);
        let p2 = prover_gate(p, g, masks, gate_macs);
        let b = eval_gates(pointers(macs), init);
        match g {
            Gate::Xor { x, y, z } => {
                lemma_lsb_xor(p.buf[x as int], p.buf[y as int]);
            },
            Gate::And { x, y, z } => {
                lemma_with_lsb_twice(gate_macs[p.adjusts.len() as int], lsb(p.buf[x as int]) && lsb(p.buf[y as int]), true);
            },
            Gate::Inv { x, z } => {
                lemma_with_lsb_twice(p.buf[x as int], true, !lsb(p.buf[x as int]));
                lemma_with_lsb_twice(p.buf[x as int], !lsb(p.buf[x as int]), true);
            },
        }
        assert(pointers(p2.buf) =~= eval_gate(b, g));
    }
}

/// The gates keep the length of the prover's buffer.
pub(crate) proof fn lemma_prover_buf_len(macs: Seq<u128>, gates: Seq<Gate>, masks: Seq<bool>, gate_macs: Seq<u128>)
    requires
        forall|i: int| 0 <= i < gates.len() ==> gate_fits(#[trigger] gates[i], macs.len()),
    ensures
        prover_run(macs, gates, masks, gate_macs).buf.len() == macs.len(),
        prover_run(macs, gates, masks, gate_macs).checks.len() == prover_run(macs, gates, masks, gate_macs).adjusts.len(),
        prover_run(macs, gates, masks, gate_macs).adjusts.len() == and_gates(gates),
    decreases gates.len(),
{
    if gates.len() > 0 {
        let init = gates.drop_last();
        assert forall|i: int| 0 <= i < init.len() implies gate_fits(#[trigger] init[i], macs.len()) by {
            assert(init[i] == gates[i]);
        }
        lemma_prover_buf_len(macs, init, masks, gate_macs);
        assert(gate_fits(gates[gates.len() - 1], macs.len()));
    }
}

/// The gates keep the length of the verifier's buffer.
pub(crate) proof fn lemma_verifier_buf_len(keys: Seq<u128>, gates: Seq<Gate>, adjusts: Seq<bool>, gate_keys: Seq<u128>, delta: u128)
    requires
        forall|i: int| 0 <= i < gates.len() ==> gate_fits(#[trigger] gates[i], keys.len()),
    ensures
        verifier_run(keys, gates, adjusts, gate_keys, delta).buf.len() == keys.len(),
        verifier_run(keys, gates, adjusts, gate_keys, delta).checks.len() == verifier_run(keys, gates, adjusts, gate_keys, delta).count,
        verifier_run(keys, gates, adjusts, gate_keys, delta).count == and_gates(gates),
    decreases gates.len(),
{
    if gates.len() > 0 {
        let init = gates.drop_last();
        assert forall|i: int| 0 <= i < init.len() implies gate_fits(#[trigger] init[i], keys.len()) by {
            assert(init[i] == gates[i]);
        }
        lemma_verifier_buf_len(keys, init, adjusts, gate_keys, delta);
        assert(gate_fits(gates[gates.len() - 1], keys.len()));
    }
}

/// The gates keep the number of wires.
pub(crate) proof fn lemma_eval_len(bits: Seq<bool>, gates: Seq<Gate>)
    requires
        forall|i: int| 0 <= i < gates.len() ==> gate_fits(#[trigger] gates[i], bits.len()),
    ensures
        eval_gates(bits, gates).len() == bits.len(),
    decreases gates.len(),
{
    if gates.len() > 0 {
        let init = gates.drop_last();
        assert forall|i: int| 0 <= i < init.len() implies gate_fits(#[trigger] init[i], bits.len()) by {
            assert(init[i] == gates[i]);
        }
        lemma_eval_len(bits, init);
        assert(gate_fits(gates[gates.len() - 1], bits.len()));
    }
}

/// When a prefix of the gates already holds all AND gates, no AND gate
/// follows it.
pub(crate) proof fn lemma_no_and_after(gates: Seq<Gate>, pos: int)
    requires
        0 <= pos <= gates.len(),
        and_gates(gates.take(pos)) == and_gates(gates),
    ensures
        next_and(gates, pos) == gates.len(),
        forall|k: int| pos <= k < gates.len() ==> !(#[trigger] gates[k] is And),
{
    assert forall|k: int| pos <= k < gates.len() implies !(#[trigger] gates[k] is And) by {
        lemma_and_gates_grow(gates, pos, k);
        lemma_and_gates_grow(gates, k + 1, gates.len() as int);
        lemma_and_gates_push(gates, k);
        assert(gates.take(gates.len() as int) =~= gates);
    }
    lemma_next_and_none(gates, pos);
}

/// The number of AND gates of a prefix grows with the prefix.
pub(crate) proof fn lemma_and_gates_grow(gates: Seq<Gate>, p: int, q: int)
    requires
        0 <= p <= q <= gates.len(),
    ensures
        and_gates(gates.take(p)) <= and_gates(gates.take(q)),
    decreases q - p,
{
    if p < q {
        lemma_and_gates_grow(gates, p, q - 1);
        lemma_and_gates_push(gates, q - 1);
    }
}

/// With no AND gate at or after `pos`, `next_and` is the end.
pub(crate) proof fn lemma_next_and_none(gates: Seq<Gate>, pos: int)
    requires
        0 <= pos <= gates.len(),
        forall|k: int| pos <= k < gates.len() ==> !(#[trigger] gates[k] is And),
    ensures
        next_and(gates, pos) == gates.len(),
    decreases gates.len() - pos,
{
    if pos < gates.len() {
        assert(!(gates[pos] is And));
        lemma_next_and_none(gates, pos + 1);
    }
}

/// `next_and` finds the first AND gate at or after `pos`.
pub(crate) proof fn lemma_next_and(gates: Seq<Gate>, pos: int)
    requires
        0 <= pos <= gates.len(),
    ensures
        pos <= next_and(gates, pos) <= gates.len(),
        next_and(gates, pos) < gates.len() ==> gates[next_and(gates, pos)] is And,
        forall|k: int| pos <= k < next_and(gates, pos) ==> !(#[trigger] gates[k] is And),
    decreases gates.len() - pos,
{
    if pos < gates.len() && !(gates[pos] is And) {
        lemma_next_and(gates, pos + 1);
    }
}

/// The prover's trace over one more gate.
pub(crate) proof fn lemma_prover_run_push(init: Seq<u128>, gates: Seq<Gate>, masks: Seq<bool>, macs: Seq<u128>, k: int)
    requires
        0 <= k < gates.len(),
    ensures
        prover_run(init, gates.take(k + 1), masks, macs) == prover_gate(
            prover_run(init, gates.take(k), masks, macs),
            gates[k],
            masks,
            macs,
        ),
{
    assert(gates.take(k + 1).drop_last() =~= gates.take(k));
}

/// The verifier's trace over one more gate.
pub(crate) proof fn lemma_verifier_run_push(
    init: Seq<u128>,
    gates: Seq<Gate>,
    adjusts: Seq<bool>,
    keys: Seq<u128>,
    delta: u128,
    k: int,
)
    requires
        0 <= k < gates.len(),
    ensures
        verifier_run(init, gates.take(k + 1), adjusts, keys, delta) == verifier_gate(
            verifier_run(init, gates.take(k), adjusts, keys, delta),
            gates[k],
            adjusts,
            keys,
            delta,
        ),
{
    assert(gates.take(k + 1).drop_last() =~= gates.take(k));
}

/// Writing one more node.
pub(crate) proof fn lemma_write_nodes_push<T>(buf: Seq<T>, nodes: Seq<usize>, n: usize, vals: Seq<T>)
    ensures
        write_nodes(buf, nodes.push(n), vals) == write_nodes(buf, nodes, vals).update(
            n as int,
            vals[nodes.len() as int],
        ),
{
    assert(nodes.push(n).drop_last() =~= nodes);
}

/// Writing nodes below the length keeps the length.
pub(crate) proof fn lemma_write_nodes_len<T>(buf: Seq<T>, nodes: Seq<usize>, vals: Seq<T>)
    requires
        forall|i: int| 0 <= i < nodes.len() ==> #[trigger] nodes[i] < buf.len(),
    ensures
        write_nodes(buf, nodes, vals).len() == buf.len(),
    decreases nodes.len(),
{
    if nodes.len() > 0 {
        let init = nodes.drop_last();
        assert forall|i: int| 0 <= i < init.len() implies #[trigger] init[i] < buf.len() by {
            assert(init[i] == nodes[i]);
        }
        lemma_write_nodes_len(buf, init, vals);
        assert(nodes[nodes.len() - 1] < buf.len());
    }
}

/// The verifier counts the AND gates.
pub(crate) proof fn lemma_verifier_count(init: Seq<u128>, gates: Seq<Gate>, adjusts: Seq<bool>, keys: Seq<u128>, delta: u128)
    ensures
        verifier_run(init, gates, adjusts, keys, delta).count == and_gates(gates),
    decreases gates.len(),
{
    if gates.len() > 0 {
        lemma_verifier_count(init, gates.drop_last(), adjusts, keys, delta);
    }
}

/// The verifier's trace only reads the adjust bits of the AND gates it
/// passed.
pub(crate) proof fn lemma_verifier_run_adjusts(
    init: Seq<u128>,
    gates: Seq<Gate>,
    a1: Seq<bool>,
    a2: Seq<bool>,
    keys: Seq<u128>,
    delta: u128,
)
    requires
        forall|j: int| 0 <= j < and_gates(gates) ==> a1[j] == a2[j],
    ensures
        verifier_run(init, gates, a1, keys, delta) == verifier_run(init, gates, a2, keys, delta),
    decreases gates.len(),
{
    if gates.len() > 0 {
        let init_gates = gates.drop_last();
        lemma_verifier_run_adjusts(init, init_gates, a1, a2, keys, delta);
        lemma_verifier_count(init, init_gates, a1, keys, delta);
    }
}

/// Zero-valued MACs and keys are consistent with a zero wire.
proof fn lemma_zero_wire(d: u128)
    ensures
        wire_rel(0u128, 0u128, false, d),
{
    assert(0u128 & !1u128 == 0u128) by (bit_vector);
}

/// Growing both buffers with zeros keeps them consistent.
proof fn lemma_grown_rel(macs: Seq<u128>, keys: Seq<u128>, bits: Seq<bool>, n: nat, d: u128)
    requires
        wires_rel(macs, keys, bits, d),
    ensures
        wires_rel(grown(macs, n, 0u128), grown(keys, n, 0u128), grown(bits, n, false), d),
{
    lemma_zero_wire(d);
    let (m2, k2, b2) = (grown(macs, n, 0u128), grown(keys, n, 0u128), grown(bits, n, false));
    assert forall|i: int| 0 <= i < b2.len() implies wire_rel(#[trigger] m2[i], k2[i], b2[i], d) by {
        if i < bits.len() {
            assert(wire_rel(macs[i], keys[i], bits[i], d));
        }
    }
}

/// Writing consistent values at nodes keeps the buffers consistent.
proof fn lemma_write_nodes_rel(
    macs: Seq<u128>,
    keys: Seq<u128>,
    bits: Seq<bool>,
    nodes: Seq<usize>,
    vm: Seq<u128>,
    vk: Seq<u128>,
    vb: Seq<bool>,
    d: u128,
)
    requires
        wires_rel(macs, keys, bits, d),
        forall|i: int| 0 <= i < nodes.len() ==> #[trigger] nodes[i] < bits.len(),
        vm.len() >= nodes.len(),
        vk.len() >= nodes.len(),
        vb.len() >= nodes.len(),
        forall|j: int| 0 <= j < nodes.len() ==> wire_rel(#[trigger] vm[j], vk[j], vb[j], d),
    ensures
        wires_rel(write_nodes(macs, nodes, vm), write_nodes(keys, nodes, vk), write_nodes(bits, nodes, vb), d),
    decreases nodes.len(),
{
    if nodes.len() > 0 {
        let init = nodes.drop_last();
        assert forall|i: int| 0 <= i < init.len() implies #[trigger] init[i] < bits.len() by {
            assert(init[i] == nodes[i]);
        }
        lemma_write_nodes_rel(macs, keys, bits, init, vm, vk, vb, d);
        lemma_write_nodes_len(macs, init, vm);
        lemma_write_nodes_len(keys, init, vk);
        lemma_write_nodes_len(bits, init, vb);
        let j = nodes.len() - 1;
        assert(nodes[j] < bits.len());
        assert(wire_rel(vm[j], vk[j], vb[j], d));
        let (m1, k1, b1) = (write_nodes(macs, init, vm), write_nodes(keys, init, vk), write_nodes(bits, init, vb));
        let (m2, k2, b2) = (write_nodes(macs, nodes, vm), write_nodes(keys, nodes, vk), write_nodes(bits, nodes, vb));
        assert forall|i: int| 0 <= i < b2.len() implies wire_rel(#[trigger] m2[i], k2[i], b2[i], d) by {
            if i != nodes[j] {
                assert(wire_rel(m1[i], k1[i], b1[i], d));
            }
        }
    }
}

/// Honest parties end a circuit with consistent outputs: when the wires
/// the parties keep from earlier circuits are consistent, each input MAC
/// and key are consistent with the input bit, and each random MAC is its
/// key's MAC of its mask, then after the circuit the output MACs of the
/// prover and the output keys of the verifier, which used the adjust bits
/// the prover handed out, are consistent with the output bits the circuit
/// computes from the input bits.
pub proof fn lemma_honest_outputs_agree(
    circ: Circuit,
    prover_buf: Seq<u128>,
    verifier_buf: Seq<u128>,
    bits_buf: Seq<bool>,
    input_macs: Seq<u128>,
    input_keys: Seq<u128>,
    input_bits: Seq<bool>,
    masks: Seq<bool>,
    gate_macs: Seq<u128>,
    gate_keys: Seq<u128>,
    delta: Delta,
)
    requires
        circ.wf(),
        wires_rel(prover_buf, verifier_buf, bits_buf, delta.value()),
        input_macs.len() == circ.input_len_spec(),
        input_keys.len() == circ.input_len_spec(),
        input_bits.len() == circ.input_len_spec(),
        forall|j: int|
            0 <= j < input_bits.len() ==> wire_rel(
                #[trigger] input_macs[j],
                input_keys[j],
                input_bits[j],
                delta.value(),
            ),
        masks.len() == circ.and_count_spec(),
        gate_macs.len() == circ.and_count_spec(),
        gate_keys.len() == circ.and_count_spec(),
        forall|j: int|
            0 <= j < masks.len() ==> #[trigger] gate_macs[j] == auth_value(
                gate_keys[j],
                masks[j],
                delta.value(),
            ),
    ensures
        ({
            let p = prover_run(prover_start(prover_buf, circ, input_macs), circ.gate_seq(), masks, gate_macs);
            let v = verifier_run(
                verifier_start(verifier_buf, circ, input_keys),
                circ.gate_seq(),
                p.adjusts,
                gate_keys,
                delta.value(),
            );
            let b = eval_gates(
                write_nodes(grown(bits_buf, circ.feeds(), false), flat_nodes(circ.input_nodes()), input_bits),
                circ.gate_seq(),
            );
            let outs = flat_nodes(circ.output_nodes());
            wires_rel(read_nodes(p.buf, outs), read_nodes(v.buf, outs), read_nodes(b, outs), delta.value())
        }),
{
    let d = delta.value();
    let n = circ.feeds();
    let ins = flat_nodes(circ.input_nodes());
    lemma_grown_rel(prover_buf, verifier_buf, bits_buf, n, d);
    let (gm, gk, gb) = (grown(prover_buf, n, 0u128), grown(verifier_buf, n, 0u128), grown(bits_buf, n, false));
    assert(gb.len() >= n);
    lemma_write_nodes_rel(gm, gk, gb, ins, input_macs, input_keys, input_bits, d);
    let (m0, k0, b0) = (write_nodes(gm, ins, input_macs), write_nodes(gk, ins, input_keys), write_nodes(gb, ins, input_bits));
    lemma_write_nodes_len(gb, ins, input_bits);
    let gates = circ.gate_seq();
    assert forall|i: int| 0 <= i < gates.len() implies gate_fits(#[trigger] gates[i], b0.len()) by {
        assert(gate_fits(circ.gates@[i], circ.feed_count as nat));
    }
    lemma_honest_parties_agree(m0, k0, b0, gates, masks, gate_macs, gate_keys, delta);
    let p = prover_run(m0, gates, masks, gate_macs);
    let v = verifier_run(k0, gates, p.adjusts, gate_keys, d);
    let b = eval_gates(b0, gates);
    let outs = flat_nodes(circ.output_nodes());
    lemma_eval_len(b0, gates);
    assert(b.len() >= circ.feeds());
    assert forall|i: int| 0 <= i < outs.len() implies wire_rel(
        #[trigger] read_nodes(p.buf, outs)[i],
        read_nodes(v.buf, outs)[i],
        read_nodes(b, outs)[i],
        d,
    ) by {
        assert(outs[i] < circ.feed_count);
        assert(wire_rel(p.buf[outs[i] as int], v.buf[outs[i] as int], b[outs[i] as int], d));
    }
}

/// Honest parties that ran a circuit to its end finish with consistent
/// outputs: the output MACs that [`ProverIter::finish`] returns and the
/// output keys that [`VerifierConsumer::finish`] returns authenticate the
/// circuit's output bits, when the verifier was fed the prover's adjust bits
/// in order and both started from consistent wires.
pub proof fn lemma_finished_outputs_agree(
    it: &ProverIter,
    c: &VerifierConsumer,
    circ: Circuit,
    prover_buf: Seq<u128>,
    verifier_buf: Seq<u128>,
    bits_buf: Seq<bool>,
    input_macs: Seq<u128>,
    input_keys: Seq<u128>,
    input_bits: Seq<bool>,
    delta: Delta,
)
    requires
        circ.wf(),
        wires_rel(prover_buf, verifier_buf, bits_buf, delta.value()),
        input_macs.len() == circ.input_len_spec(),
        input_keys.len() == circ.input_len_spec(),
        input_bits.len() == circ.input_len_spec(),
        forall|j: int|
            0 <= j < input_bits.len() ==> wire_rel(
                #[trigger] input_macs[j],
                input_keys[j],
                input_bits[j],
                delta.value(),
            ),
        it.start() == prover_start(prover_buf, circ, input_macs),
        it.gate_seq() == circ.gate_seq(),
        it.output_nodes() == flat_nodes(circ.output_nodes()),
        it.masks().len() == circ.and_count_spec(),
        it.random_macs().len() == circ.and_count_spec(),
        c.start() == verifier_start(verifier_buf, circ, input_keys),
        c.gate_seq() == circ.gate_seq(),
        c.output_nodes() == flat_nodes(circ.output_nodes()),
        c.correlation() == delta,
        c.random_keys().len() == circ.and_count_spec(),
        forall|j: int|
            0 <= j < it.masks().len() ==> #[trigger] it.random_macs()[j] == auth_value(
                c.random_keys()[j],
                it.masks()[j],
                delta.value(),
            ),
        c.received() == it.full_trace().adjusts,
    ensures
        wires_rel(
            read_nodes(it.full_trace().buf, it.output_nodes()),
            read_nodes(
                verifier_run(
                    c.start(),
                    c.gate_seq(),
                    c.received(),
                    c.random_keys(),
                    c.correlation().value(),
                ).buf,
                c.output_nodes(),
            ),
            read_nodes(
                eval_gates(
                    write_nodes(
                        grown(bits_buf, circ.feeds(), false),
                        flat_nodes(circ.input_nodes()),
                        input_bits,
                    ),
                    circ.gate_seq(),
                ),
                flat_nodes(circ.output_nodes()),
            ),
            delta.value(),
        ),
{
    lemma_honest_outputs_agree(
        circ,
        prover_buf,
        verifier_buf,
        bits_buf,
        input_macs,
        input_keys,
        input_bits,
        it.masks(),
        it.random_macs(),
        c.random_keys(),
        delta,
    );
}

/// The sum of `counts`.
pub open spec fn counts_sum(counts: Seq<usize>) -> nat
    decreases counts.len(),
{
    if counts.len() == 0 {
        0
    } else {
        counts_sum(counts.drop_last()) + (counts.last() as nat)
    }
}

/// A prefix of the counts sums to no more than all of them.
proof fn lemma_counts_sum_prefix(counts: Seq<usize>, k: int)
    requires
        0 <= k <= counts.len(),
    ensures
        counts_sum(counts.take(k)) <= counts_sum(counts),
    decreases counts.len() - k,
{
    if k < counts.len() {
        lemma_counts_sum_prefix(counts, k + 1);
        assert(counts.take(k + 1).drop_last() =~= counts.take(k));
    } else {
        assert(counts.take(k) =~= counts);
    }
}

/// Cuts `items` into consecutive pieces of the sizes `counts`, as the
/// random correlations drawn for several circuits are shared out, one piece
/// per circuit's AND gates. Returns `None` when the sizes do not add up to
/// the number of items.
pub fn split_counts<T: Copy>(items: &[T], counts: &[usize]) -> (r: Option<Vec<Vec<T>>>)
    ensures
        r is Some <==> counts_sum(counts@) == items@.len(),
        r matches Some(pieces) ==> pieces@.len() == counts@.len() && forall|k: int|
            0 <= k < counts@.len() ==> #[trigger] pieces@[k]@ == items@.subrange(
                counts_sum(counts@.take(k)) as int,
                counts_sum(counts@.take(k)) + counts@[k],
            ),
{
    let mut out: Vec<Vec<T>> = Vec::new();
    let mut pos: usize = 0;
    let mut k: usize = 0;
    while k < counts.len()
        invariant
            k <= counts@.len(),
            pos == counts_sum(counts@.take(k as int)),
            pos <= items@.len(),
            out@.len() == k,
            forall|j: int|
                0 <= j < k ==> #[trigger] out@[j]@ == items@.subrange(
                    counts_sum(counts@.take(j)) as int,
                    counts_sum(counts@.take(j)) + counts@[j],
                ),
        decreases counts@.len() - k,
    {
        proof {
            assert(counts@.take(k + 1).drop_last() =~= counts@.take(k as int));
            assert(counts@.take(k + 1).last() == counts@[k as int]);
        }
        if counts[k] > items.len() - pos {
            proof {
                lemma_counts_sum_prefix(counts@, k + 1);
            }
            return None;
        }
        let end = pos + counts[k];
        let mut piece: Vec<T> = Vec::new();
        let mut i: usize = pos;
        while i < end
            invariant
                pos <= i <= end <= items@.len(),
                piece@ == items@.subrange(pos as int, i as int),
            decreases end - i,
        {
            piece.push(items[i]);
            assert(piece@ =~= items@.subrange(pos as int, i + 1));
            i = i + 1;
        }
        out.push(piece);
        pos = end;
        k = k + 1;
    }
    proof {
        assert(counts@.take(counts@.len() as int) =~= counts@);
    }
    if pos == items.len() {
        Some(out)
    } else {
        None
    }
}

} // verus!
