//! The consistency check that closes a batch of AND gates.
//!
//! Both parties hash the transcript, the adjust bits packed into bytes, and
//! take the first 16 bytes of the digest as a challenge `chi`. The `k`-th AND
//! gate is weighted by `chi^(2^k)`. The prover sends `U` and `V`, masked sums
//! of its gate terms; the verifier computes `W` from its keys and accepts
//! when `W == U ^ delta * V` in GF(2^128).
use vstd::prelude::*;

use crate::correlated::{auth_value, block_bytes, gf_mul, lsb, Block, Delta};
use crate::gf128::{lemma_mul_assoc, lemma_mul_comm, lemma_mul_distributes, lemma_xor};
use crate::hash::blake3_digest;
use crate::zk::checking::{Verifier, VerifierError};
use crate::zk::proving::Prover;
use crate::zk::proving::triple_values;

verus! {

/// The byte whose bit `i` is `bits[i]`, least significant first.
pub open spec fn bits_byte(bits: Seq<bool>) -> int
    decreases bits.len(),
{
    if bits.len() == 0 {
        0
    } else {
        (if bits[0] {
            1int
        } else {
            0int
        }) + 2 * bits_byte(bits.skip(1))
    }
}

/// The bits packed eight to a byte, least significant bit first; the last
/// byte is padded with zeros.
pub open spec fn packed_bits(bits: Seq<bool>) -> Seq<u8>
    decreases bits.len(),
{
    if bits.len() == 0 {
        Seq::empty()
    } else if bits.len() <= 8 {
        seq![bits_byte(bits) as u8]
    } else {
        seq![bits_byte(bits.take(8)) as u8] + packed_bits(bits.skip(8))
    }
}

/// The number whose little-endian bytes are `bytes`.
pub open spec fn le_value(bytes: Seq<u8>) -> int
    decreases bytes.len(),
{
    if bytes.len() == 0 {
        0
    } else {
        bytes[0] + 256 * le_value(bytes.skip(1))
    }
}

/// `2^n`.
pub open spec fn two_pow(n: nat) -> int
    decreases n,
{
    if n == 0 {
        1
    } else {
        2 * two_pow((n - 1) as nat)
    }
}

/// `256^n`.
pub open spec fn byte_pow(n: nat) -> int
    decreases n,
{
    if n == 0 {
        1
    } else {
        256 * byte_pow((n - 1) as nat)
    }
}

/// A packed byte of `n` bits is below `2^n`.
proof fn lemma_bits_byte_bound(bits: Seq<bool>)
    ensures
        0 <= bits_byte(bits) < two_pow(bits.len()),
    decreases bits.len(),
{
    if bits.len() > 0 {
        lemma_bits_byte_bound(bits.skip(1));
    }
}

/// `2^n <= 256` for `n <= 8`.
proof fn lemma_two_pow_byte(n: nat)
    requires
        n <= 8,
    ensures
        two_pow(n) <= 256,
{
    reveal_with_fuel(two_pow, 9);
}

/// A number of `n` little-endian bytes is below `256^n`.
proof fn lemma_le_value_bound(bytes: Seq<u8>)
    ensures
        0 <= le_value(bytes) < byte_pow(bytes.len()),
    decreases bytes.len(),
{
    if bytes.len() > 0 {
        lemma_le_value_bound(bytes.skip(1));
    }
}

/// `256^n <= 2^128` for `n <= 16`.
proof fn lemma_byte_pow_block(n: nat)
    requires
        n <= 16,
    ensures
        byte_pow(n) <= byte_pow(16),
        byte_pow(16) == 0x1_0000_0000_0000_0000_0000_0000_0000_0000,
    decreases 16 - n,
{
    reveal_with_fuel(byte_pow, 17);
    if n < 16 {
        lemma_byte_pow_block(n + 1);
    }
}

/// Packs the bits eight to a byte, least significant bit first.
pub fn pack_bits(bits: &[bool]) -> (r: Vec<u8>)
    ensures
        r@ == packed_bits(bits@),
        8 * r@.len() >= bits@.len(),
        r@.len() == 0 || 8 * (r@.len() - 1) < bits@.len(),
        forall|j: int, i: int|
            0 <= j < r@.len() && 0 <= i < 8 ==> (#[trigger] (r@[j] >> (i as u8)) & 1 == 1) == (8 * j
                + i < bits@.len() && bits@[8 * j + i]),
{
    proof {
        lemma_packed_bits(bits@);
    }
    let n = bits.len();
    let mut out: Vec<u8> = Vec::new();
    let mut i: usize = 0;
    assert(bits@.skip(0) =~= bits@);
    assert(out@ + packed_bits(bits@) =~= packed_bits(bits@));
    while i < n
        invariant
            n == bits@.len(),
            i <= n,
            out@ + packed_bits(bits@.skip(i as int)) == packed_bits(bits@),
        decreases n - i,
    {
        let end: usize = if n - i <= 8 {
            n
        } else {
            i + 8
        };
        let ghost chunk = bits@.subrange(i as int, end as int);
        let mut acc: u8 = 0;
        let mut j: usize = end;
        while j > i
            invariant
                i <= j <= end,
                end <= n == bits@.len(),
                end - i <= 8,
                chunk == bits@.subrange(i as int, end as int),
                acc as int == bits_byte(bits@.subrange(j as int, end as int)),
            decreases j,
        {
            proof {
                let s = bits@.subrange(j - 1, end as int);
                assert(s.skip(1) =~= bits@.subrange(j as int, end as int));
                lemma_bits_byte_bound(s);
                lemma_two_pow_byte(s.len());
            }
            let bit: u8 = if bits[j - 1] {
                1
            } else {
                0
            };
            acc = acc * 2 + bit;
            j = j - 1;
        }
        proof {
            let rest = bits@.skip(i as int);
            if rest.len() <= 8 {
                assert(rest =~= chunk);
                assert(bits@.skip(end as int) =~= Seq::<bool>::empty());
            } else {
                assert(rest.take(8) =~= chunk);
                assert(rest.skip(8) =~= bits@.skip(end as int));
            }
        }
        let ghost before = out@;
        out.push(acc);
        proof {
            let tail = packed_bits(bits@.skip(end as int));
            assert(packed_bits(bits@.skip(i as int)) == seq![acc] + tail);
            assert(out@ + tail =~= before + (seq![acc] + tail));
        }
        i = end;
    }
    assert(bits@.skip(n as int) =~= Seq::<bool>::empty());
    assert(out@ + Seq::<u8>::empty() =~= out@);
    out
}

/// The number whose little-endian bytes are the first 16 bytes of `bytes`.
pub fn block_from_le_bytes(bytes: &[u8]) -> (r: Block)
    requires
        bytes@.len() >= 16,
    ensures
        r.value() == le_value(bytes@.take(16)),
        block_bytes(r.value()) == bytes@.take(16),
{
    let mut acc: u128 = 0;
    let mut j: usize = 16;
    while j > 0
        invariant
            j <= 16 <= bytes@.len(),
            acc as int == le_value(bytes@.subrange(j as int, 16)),
        decreases j,
    {
        proof {
            let s = bytes@.subrange(j - 1, 16);
            assert(s.skip(1) =~= bytes@.subrange(j as int, 16));
            lemma_le_value_bound(s);
            lemma_byte_pow_block(s.len());
        }
        acc = acc * 256 + bytes[j - 1] as u128;
        j = j - 1;
    }
    assert(bytes@.subrange(0, 16) =~= bytes@.take(16));
    proof {
        lemma_block_from_le_bytes(bytes@.take(16));
    }
    Block::new(acc)
}

/// The challenge for the `k`-th AND gate: `chi` squared `k` times.
pub open spec fn chi_pow(chi: u128, k: nat) -> u128
    decreases k,
{
    if k == 0 {
        chi
    } else {
        let c = chi_pow(chi, (k - 1) as nat);
        gf_mul(c, c)
    }
}

/// The prover's terms `(u, v)` of one AND gate with MACs `(x, y, z)`.
pub open spec fn prover_term(t: (u128, u128, u128), chi: u128) -> (u128, u128) {
    let (x, y, z) = t;
    let a10: u128 = if lsb(x) {
        y
    } else {
        0
    };
    let a11: u128 = if lsb(y) {
        x
    } else {
        0
    };
    (gf_mul(gf_mul(x, y), chi), gf_mul(a10 ^ a11 ^ z, chi))
}

/// The sums of the prover's terms over the gates, the `k`-th gate weighted
/// by `chi_pow(chi, k)`.
pub open spec fn prover_sums(ts: Seq<(u128, u128, u128)>, chi: u128) -> (u128, u128)
    decreases ts.len(),
{
    if ts.len() == 0 {
        (0, 0)
    } else {
        let (u0, v0) = prover_sums(ts.drop_last(), chi);
        let (u1, v1) = prover_term(ts.last(), chi_pow(chi, (ts.len() - 1) as nat));
        (u0 ^ u1, v0 ^ v1)
    }
}

/// `U` and `V`: the prover's sums, masked.
pub open spec fn uv_terms(ts: Seq<(u128, u128, u128)>, chi: u128, mask_u: u128, mask_v: u128) -> (
    u128,
    u128,
) {
    let (u, v) = prover_sums(ts, chi);
    (u ^ mask_u, v ^ mask_v)
}

/// The verifier's term of one AND gate with keys `(x, y, z)`.
pub open spec fn verifier_term(t: (u128, u128, u128), chi: u128, delta: u128) -> u128 {
    let (x, y, z) = t;
    gf_mul(gf_mul(x, y) ^ gf_mul(delta, z), chi)
}

/// The sum of the verifier's terms over the gates.
pub open spec fn verifier_sum(ts: Seq<(u128, u128, u128)>, chi: u128, delta: u128) -> u128
    decreases ts.len(),
{
    if ts.len() == 0 {
        0
    } else {
        verifier_sum(ts.drop_last(), chi, delta) ^ verifier_term(
            ts.last(),
            chi_pow(chi, (ts.len() - 1) as nat),
            delta,
        )
    }
}

/// `W`: the verifier's sum, masked.
pub open spec fn w_term(ts: Seq<(u128, u128, u128)>, chi: u128, delta: u128, mask_w: u128) -> u128 {
    verifier_sum(ts, chi, delta) ^ mask_w
}

/// The challenge drawn from a transcript once the adjust bits are added to
/// it: the first 16 bytes of its BLAKE3 digest, little-endian.
pub open spec fn transcript_chi(transcript: Seq<u8>, adjusts: Seq<bool>) -> u128 {
    le_value(blake3_digest(transcript + packed_bits(adjusts)).take(16)) as u128
}

/// Computes the prover's `U` and `V` for the recorded gate MACs under the
/// challenge `chi`.
pub fn check_uv(triples: &[[Block; 3]], chi: Block, mask_u: Block, mask_v: Block) -> (r: (
    Block,
    Block,
))
    ensures
        (r.0.value(), r.1.value()) == uv_terms(
            triple_values(triples@),
            chi.value(),
            mask_u.value(),
            mask_v.value(),
        ),
        forall|ws: Seq<u128>|
            #[trigger] squarings(ws, chi.value(), triples@.len()) ==> r.0.value() ^ mask_u.value()
                == xor_all(weighted_u(triple_values(triples@), ws)) && r.1.value() ^ mask_v.value()
                == xor_all(weighted_v(triple_values(triples@), ws)),
{
    let ghost ts = triple_values(triples@);
    let mut u = Block::zero();
    let mut v = Block::zero();
    let mut c = chi;
    let mut k: usize = 0;
    while k < triples.len()
        invariant
            k <= triples@.len(),
            ts == triple_values(triples@),
            c.value() == chi_pow(chi.value(), k as nat),
            (u.value(), v.value()) == prover_sums(ts.take(k as int), chi.value()),
        decreases triples@.len() - k,
    {
        let x = triples[k][0];
        let y = triples[k][1];
        let z = triples[k][2];
        let tu = x.gfmul(&y).gfmul(&c);
        let a10 = if x.lsb() {
            y
        } else {
            Block::zero()
        };
        let a11 = if y.lsb() {
            x
        } else {
            Block::zero()
        };
        let tv = a10.xor(&a11).xor(&z).gfmul(&c);
        proof {
            assert(ts.take(k as int + 1).drop_last() =~= ts.take(k as int));
            assert(ts.take(k as int + 1).last() == ts[k as int]);
        }
        u = u.xor(&tu);
        v = v.xor(&tv);
        c = c.gfmul(&c);
        k = k + 1;
    }
    assert(ts.take(triples@.len() as int) =~= ts);
    let r = (u.xor(&mask_u), v.xor(&mask_v));
    assert forall|ws: Seq<u128>| #[trigger] squarings(ws, chi.value(), triples@.len()) implies r.0.value()
        ^ mask_u.value() == xor_all(weighted_u(ts, ws)) && r.1.value() ^ mask_v.value() == xor_all(
        weighted_v(ts, ws),
    ) by {
        lemma_check_terms(ts, chi.value(), ws, 0, mask_u.value(), mask_v.value(), 0);
    }
    r
}

/// Computes the verifier's `W` for the recorded gate keys under the
/// challenge `chi` and the correlation `delta`.
pub fn check_w(triples: &[[Block; 3]], chi: Block, delta: Block, mask_w: Block) -> (r: Block)
    ensures
        r.value() == w_term(triple_values(triples@), chi.value(), delta.value(), mask_w.value()),
        forall|ws: Seq<u128>|
            #[trigger] squarings(ws, chi.value(), triples@.len()) ==> r.value() ^ mask_w.value()
                == xor_all(weighted_w(triple_values(triples@), ws, delta.value())),
{
    let ghost ts = triple_values(triples@);
    let mut w = Block::zero();
    let mut c = chi;
    let mut k: usize = 0;
    while k < triples.len()
        invariant
            k <= triples@.len(),
            ts == triple_values(triples@),
            c.value() == chi_pow(chi.value(), k as nat),
            w.value() == verifier_sum(ts.take(k as int), chi.value(), delta.value()),
        decreases triples@.len() - k,
    {
        let x = triples[k][0];
        let y = triples[k][1];
        let z = triples[k][2];
        let t = x.gfmul(&y).xor(&delta.gfmul(&z)).gfmul(&c);
        proof {
            assert(ts.take(k as int + 1).drop_last() =~= ts.take(k as int));
            assert(ts.take(k as int + 1).last() == ts[k as int]);
        }
        w = w.xor(&t);
        c = c.gfmul(&c);
        k = k + 1;
    }
    assert(ts.take(triples@.len() as int) =~= ts);
    let r = w.xor(&mask_w);
    assert forall|ws: Seq<u128>| #[trigger] squarings(ws, chi.value(), triples@.len()) implies r.value()
        ^ mask_w.value() == xor_all(weighted_w(ts, ws, delta.value())) by {
        lemma_check_terms(ts, chi.value(), ws, delta.value(), 0, 0, mask_w.value());
    }
    r
}

/// Completes the consistency check: accepts `U` and `V` exactly when
/// `W == U ^ delta * V`.
pub fn verify(w: Block, u: Block, v: Block, delta: Delta) -> (r: Result<(), VerifierError>)
    ensures
        r is Ok <==> w.value() == u.value() ^ gf_mul(delta.value(), v.value()),
{
    let d = delta.as_block();
    let expected = u.xor(&d.gfmul(&v));
    if w.to_u128() == expected.to_u128() {
        Ok(())
    } else {
        Err(VerifierError {})
    }
}

/// Equalities between XOR sums that the proof of one gate needs.
proof fn lemma_gate_xors(a: u128, b: u128, c: u128, d: u128, e: u128, f: u128)
    by (bit_vector)
    ensures
        (a ^ b ^ c ^ d) ^ (b ^ c ^ e ^ d) == a ^ e,
        (a ^ c) ^ (c ^ e) == a ^ e,
        (a ^ b) ^ (b ^ e) == a ^ e,
        (b ^ f) ^ (a ^ f) ^ (c ^ f) == a ^ b ^ c ^ f,
        b ^ 0 ^ c == b ^ c,
        0 ^ a ^ c == a ^ c,
        0u128 ^ 0u128 ^ c == c,
        (a ^ b) ^ (c ^ d) == (a ^ c) ^ (b ^ d),
{
}

/// One AND gate passes the check: when the prover's MACs are the verifier's
/// keys XORed with delta where the wire's bit is set, the output bit is the
/// AND of the input bits and the prover reads each input bit from its MAC's
/// pointer bit, the verifier's term is the prover's `u` XORed with delta
/// times its `v`.
pub proof fn lemma_honest_gate_passes(
    keys: (u128, u128, u128),
    x: bool,
    y: bool,
    delta: u128,
    chi: u128,
)
    requires
        lsb(auth_value(keys.0, x, delta)) == x,
        lsb(auth_value(keys.1, y, delta)) == y,
    ensures
        ({
            let macs = (
                auth_value(keys.0, x, delta),
                auth_value(keys.1, y, delta),
                auth_value(keys.2, x && y, delta),
            );
            let (u, v) = prover_term(macs, chi);
            verifier_term(keys, chi, delta) == u ^ gf_mul(delta, v)
        }),
{
    let (kx, ky, kz) = keys;
    let d = delta;
    let mx = auth_value(kx, x, d);
    let my = auth_value(ky, y, d);
    let mz = auth_value(kz, x && y, d);
    let a10: u128 = if lsb(mx) { my } else { 0 };
    let a11: u128 = if lsb(my) { mx } else { 0 };
    let a1 = a10 ^ a11 ^ mz;
    let p = gf_mul(mx, my);
    let q = gf_mul(kx, ky) ^ gf_mul(d, kz);
    // u ^ d * v == (p ^ d * a1) * chi and w == q * chi.
    lemma_mul_assoc(d, a1, chi);
    lemma_mul_distributes(chi, p, gf_mul(d, a1));
    lemma_mul_comm(p, chi);
    lemma_mul_comm(gf_mul(d, a1), chi);
    lemma_mul_comm(p ^ gf_mul(d, a1), chi);
    lemma_mul_comm(q, chi);
    // p ^ d * a1 == q, case by case.
    lemma_gate_xors(gf_mul(kx, ky), gf_mul(d, kx), gf_mul(d, ky), gf_mul(d, d), gf_mul(d, kz), d);
    lemma_gate_xors(kx, ky, kz, d, 0, d);
    lemma_mul_comm(kx, d);
    if x && y {
        lemma_mul_distributes(kx ^ d, ky, d);
        lemma_mul_distributes(ky, kx, d);
        lemma_mul_distributes(d, kx, d);
        lemma_mul_distributes(d, kx ^ ky ^ kz, d);
        lemma_mul_distributes(d, kx ^ ky, kz);
        lemma_mul_distributes(d, kx, ky);
        assert(a1 == kx ^ ky ^ kz ^ d);
        assert(p == gf_mul(kx, ky) ^ gf_mul(d, kx) ^ gf_mul(d, ky) ^ gf_mul(d, d)) by {
            lemma_xor(gf_mul(kx, ky), gf_mul(kx, d), gf_mul(d, ky), gf_mul(d, d));
            lemma_xor(gf_mul(kx, ky) ^ gf_mul(kx, d), gf_mul(d, ky), gf_mul(d, d), 0);
        }
        assert(gf_mul(d, a1) == gf_mul(d, kx) ^ gf_mul(d, ky) ^ gf_mul(d, kz) ^ gf_mul(d, d));
        assert(p ^ gf_mul(d, a1) == q);
    } else if x {
        lemma_mul_distributes(ky, kx, d);
        lemma_mul_comm(ky, d);
        lemma_mul_comm(ky, kx);
        lemma_mul_distributes(d, ky, kz);
        assert(a1 == ky ^ kz);
        assert(p == gf_mul(kx, ky) ^ gf_mul(d, ky));
        assert(p ^ gf_mul(d, a1) == q);
    } else if y {
        lemma_mul_distributes(kx, ky, d);
        lemma_mul_distributes(d, kx, kz);
        assert(a1 == kx ^ kz);
        assert(p == gf_mul(kx, ky) ^ gf_mul(d, kx));
        assert(p ^ gf_mul(d, a1) == q);
    } else {
        assert(a1 == kz);
        assert(p ^ gf_mul(d, a1) == q);
    }
}

/// The MACs an honest prover holds for AND gates with the keys `keys` and
/// the input bits `bits`: each MAC is its key XORed with delta where the
/// wire's bit is set, the output bit is the AND of the input bits, and each
/// input MAC's pointer bit is the input bit.
pub open spec fn honest_gates(
    keys: Seq<(u128, u128, u128)>,
    macs: Seq<(u128, u128, u128)>,
    bits: Seq<(bool, bool)>,
    delta: u128,
) -> bool {
    &&& keys.len() == macs.len()
    &&& keys.len() == bits.len()
    &&& forall|k: int|
        0 <= k < keys.len() ==> {
            let (x, y) = #[trigger] bits[k];
            &&& macs[k] == (
                auth_value(keys[k].0, x, delta),
                auth_value(keys[k].1, y, delta),
                auth_value(keys[k].2, x && y, delta),
            )
            &&& lsb(macs[k].0) == x
            &&& lsb(macs[k].1) == y
        }
}

/// The consistency check passes for honest parties: when the prover's MACs
/// and the verifier's keys of the AND gates are honest, both use the same
/// challenge, and the verifier's mask is the prover's masks combined as
/// `mask_u ^ delta * mask_v`, the verifier's `W` is `U ^ delta * V`.
pub proof fn lemma_honest_check_passes(
    keys: Seq<(u128, u128, u128)>,
    macs: Seq<(u128, u128, u128)>,
    bits: Seq<(bool, bool)>,
    delta: u128,
    chi: u128,
    mask_u: u128,
    mask_v: u128,
)
    requires
        honest_gates(keys, macs, bits, delta),
    ensures
        ({
            let (u, v) = uv_terms(macs, chi, mask_u, mask_v);
            w_term(keys, chi, delta, mask_u ^ gf_mul(delta, mask_v)) == u ^ gf_mul(delta, v)
        }),
{
    lemma_honest_sums(keys, macs, bits, delta, chi);
    let (su, sv) = prover_sums(macs, chi);
    lemma_mul_distributes(delta, sv, mask_v);
    lemma_xor(su, gf_mul(delta, sv), mask_u, gf_mul(delta, mask_v));
}

/// Summed over the gates, the verifier's terms are the prover's `u` terms
/// XORed with delta times its `v` terms.
proof fn lemma_honest_sums(
    keys: Seq<(u128, u128, u128)>,
    macs: Seq<(u128, u128, u128)>,
    bits: Seq<(bool, bool)>,
    delta: u128,
    chi: u128,
)
    requires
        honest_gates(keys, macs, bits, delta),
    ensures
        verifier_sum(keys, chi, delta) == prover_sums(macs, chi).0 ^ gf_mul(
            delta,
            prover_sums(macs, chi).1,
        ),
    decreases keys.len(),
{
    if keys.len() == 0 {
        lemma_mul_distributes(delta, 0, 0);
        lemma_xor(0, 0, 0, 0);
    } else {
        let n = keys.len() - 1;
        let (pk, pm, pb) = (keys.drop_last(), macs.drop_last(), bits.drop_last());
        assert(honest_gates(pk, pm, pb, delta)) by {
            assert forall|k: int| 0 <= k < pk.len() implies {
                let (x, y) = #[trigger] pb[k];
                &&& pm[k] == (
                    auth_value(pk[k].0, x, delta),
                    auth_value(pk[k].1, y, delta),
                    auth_value(pk[k].2, x && y, delta),
                )
                &&& lsb(pm[k].0) == x
                &&& lsb(pm[k].1) == y
            } by {
                assert(bits[k] == pb[k]);
            }
        }
        lemma_honest_sums(pk, pm, pb, delta, chi);
        let c = chi_pow(chi, n as nat);
        let (x, y) = bits[n];
        assert(bits[n] == bits.last());
        lemma_honest_gate_passes(keys[n], x, y, delta, c);
        let (u0, v0) = prover_sums(pm, chi);
        let (u1, v1) = prover_term(macs.last(), c);
        lemma_mul_distributes(delta, v0, v1);
        lemma_xor(u0, gf_mul(delta, v0), u1, gf_mul(delta, v1));
    }
}

/// Honest parties pass the check of [`Prover::check`] and
/// [`Verifier::check`]: with the same transcript and the same adjust bits
/// they draw the same challenge, and with honest MACs and keys for the
/// recorded AND gates the verifier's `W`, under the mask
/// `mask_u ^ delta * mask_v`, is the prover's `U ^ delta * V`, so
/// [`Verifier::verify`] accepts.
pub proof fn lemma_honest_parties_pass_check(
    prover: &Prover,
    verifier: &Verifier,
    bits: Seq<(bool, bool)>,
    mask_u: u128,
    mask_v: u128,
)
    requires
        prover.transcript() == verifier.transcript(),
        prover.check_adjusts() == verifier.check_adjusts(),
        honest_gates(verifier.checks(), prover.checks(), bits, verifier.correlation().value()),
    ensures
        ({
            let d = verifier.correlation().value();
            let (u, v) = uv_terms(
                prover.checks(),
                transcript_chi(prover.transcript(), prover.check_adjusts()),
                mask_u,
                mask_v,
            );
            w_term(
                verifier.checks(),
                transcript_chi(verifier.transcript(), verifier.check_adjusts()),
                d,
                mask_u ^ gf_mul(d, mask_v),
            ) == u ^ gf_mul(d, v)
        }),
{
    lemma_honest_check_passes(
        verifier.checks(),
        prover.checks(),
        bits,
        verifier.correlation().value(),
        transcript_chi(prover.transcript(), prover.check_adjusts()),
        mask_u,
        mask_v,
    );
}

/// The XOR of the values of `s`.
pub open spec fn xor_all(s: Seq<u128>) -> u128
    decreases s.len(),
{
    if s.len() == 0 {
        0
    } else {
        xor_all(s.drop_last()) ^ s.last()
    }
}

/// `ws` are `n` challenge weights drawn from `chi`: the first is `chi`, and
/// each next one is the square of the one before, in GF(2^128).
pub open spec fn squarings(ws: Seq<u128>, chi: u128, n: nat) -> bool {
    &&& ws.len() == n
    &&& n > 0 ==> ws[0] == chi
    &&& forall|k: int| 0 < k < n ==> #[trigger] ws[k] == gf_mul(ws[k - 1], ws[k - 1])
}

/// The prover's `u` summands: each gate's `x * y`, times its weight.
pub open spec fn weighted_u(ts: Seq<(u128, u128, u128)>, ws: Seq<u128>) -> Seq<u128> {
    Seq::new(ts.len(), |k: int| gf_mul(gf_mul(ts[k].0, ts[k].1), ws[k]))
}

/// The prover's `v` summands: each gate's `[x] y ^ [y] x ^ z`, where `[x]`
/// is the pointer bit of `x`, times its weight.
pub open spec fn weighted_v(ts: Seq<(u128, u128, u128)>, ws: Seq<u128>) -> Seq<u128> {
    Seq::new(
        ts.len(),
        |k: int|
            gf_mul(
                (if lsb(ts[k].0) {
                    ts[k].1
                } else {
                    0u128
                }) ^ (if lsb(ts[k].1) {
                    ts[k].0
                } else {
                    0u128
                }) ^ ts[k].2,
                ws[k],
            ),
    )
}

/// The verifier's summands: each gate's `x * y ^ delta * z`, times its
/// weight.
pub open spec fn weighted_w(ts: Seq<(u128, u128, u128)>, ws: Seq<u128>, delta: u128) -> Seq<u128> {
    Seq::new(ts.len(), |k: int| gf_mul(gf_mul(ts[k].0, ts[k].1) ^ gf_mul(delta, ts[k].2), ws[k]))
}

/// The weights of the gates are the repeated squares of the challenge.
proof fn lemma_chi_pow_squarings(ws: Seq<u128>, chi: u128, n: nat, k: nat)
    requires
        squarings(ws, chi, n),
        k < n,
    ensures
        chi_pow(chi, k) == ws[k as int],
    decreases k,
{
    if k > 0 {
        lemma_chi_pow_squarings(ws, chi, n, (k - 1) as nat);
        assert(ws[k as int] == gf_mul(ws[k - 1], ws[k - 1]));
    }
}

/// The prover's sums are the XORs of the weighted gate terms.
proof fn lemma_prover_sums_weighted(ts: Seq<(u128, u128, u128)>, chi: u128, ws: Seq<u128>)
    requires
        squarings(ws, chi, ts.len()),
    ensures
        prover_sums(ts, chi).0 == xor_all(weighted_u(ts, ws)),
        prover_sums(ts, chi).1 == xor_all(weighted_v(ts, ws)),
    decreases ts.len(),
{
    if ts.len() > 0 {
        let n = (ts.len() - 1) as nat;
        let pt = ts.drop_last();
        let pw = ws.drop_last();
        assert(squarings(pw, chi, n)) by {
            assert forall|k: int| 0 < k < n implies #[trigger] pw[k] == gf_mul(pw[k - 1], pw[k - 1]) by {
                assert(ws[k] == gf_mul(ws[k - 1], ws[k - 1]));
            }
        }
        lemma_prover_sums_weighted(pt, chi, pw);
        lemma_chi_pow_squarings(ws, chi, ts.len(), n);
        assert(weighted_u(ts, ws).drop_last() =~= weighted_u(pt, pw));
        assert(weighted_v(ts, ws).drop_last() =~= weighted_v(pt, pw));
    }
}

/// The verifier's sum is the XOR of the weighted gate terms.
proof fn lemma_verifier_sum_weighted(
    ts: Seq<(u128, u128, u128)>,
    chi: u128,
    delta: u128,
    ws: Seq<u128>,
)
    requires
        squarings(ws, chi, ts.len()),
    ensures
        verifier_sum(ts, chi, delta) == xor_all(weighted_w(ts, ws, delta)),
    decreases ts.len(),
{
    if ts.len() > 0 {
        let n = (ts.len() - 1) as nat;
        let pt = ts.drop_last();
        let pw = ws.drop_last();
        assert(squarings(pw, chi, n)) by {
            assert forall|k: int| 0 < k < n implies #[trigger] pw[k] == gf_mul(pw[k - 1], pw[k - 1]) by {
                assert(ws[k] == gf_mul(ws[k - 1], ws[k - 1]));
            }
        }
        lemma_verifier_sum_weighted(pt, chi, delta, pw);
        lemma_chi_pow_squarings(ws, chi, ts.len(), n);
        assert(weighted_w(ts, ws, delta).drop_last() =~= weighted_w(pt, pw, delta));
    }
}

/// What the check computes, over every list of gates: with the weights
/// `ws` of the gates (the challenge, then each weight the square of the one
/// before), `U` unmasked is the XOR over the gates of `(x * y) * w`, `V`
/// unmasked the XOR of `([x] y ^ [y] x ^ z) * w`, and `W` unmasked the XOR
/// of `(x * y ^ delta * z) * w`.
pub proof fn lemma_check_terms(
    ts: Seq<(u128, u128, u128)>,
    chi: u128,
    ws: Seq<u128>,
    delta: u128,
    mask_u: u128,
    mask_v: u128,
    mask_w: u128,
)
    requires
        squarings(ws, chi, ts.len()),
    ensures
        uv_terms(ts, chi, mask_u, mask_v).0 ^ mask_u == xor_all(weighted_u(ts, ws)),
        uv_terms(ts, chi, mask_u, mask_v).1 ^ mask_v == xor_all(weighted_v(ts, ws)),
        w_term(ts, chi, delta, mask_w) ^ mask_w == xor_all(weighted_w(ts, ws, delta)),
{
    lemma_prover_sums_weighted(ts, chi, ws);
    lemma_verifier_sum_weighted(ts, chi, delta, ws);
    let (su, sv) = prover_sums(ts, chi);
    lemma_xor(su, mask_u, mask_u, 0);
    lemma_xor(sv, mask_v, mask_v, 0);
    lemma_xor(verifier_sum(ts, chi, delta), mask_w, mask_w, 0);
    lemma_xor(mask_u, 0, 0, 0);
    lemma_xor(mask_v, 0, 0, 0);
    lemma_xor(mask_w, 0, 0, 0);
}

/// Byte arithmetic: the low byte of `b + 256 * y` is `b`, and its higher
/// bytes are those of `y`.
proof fn lemma_le_byte(b: u128, y: u128, sh: u128)
    by (bit_vector)
    requires
        b < 256,
        y < 0x1_0000_0000_0000_0000_0000_0000_0000_00,
        8 <= sh < 128,
    ensures
        ((b + 256 * y) as u128) & 0xff == b,
        (((b + 256 * y) as u128) >> sh) & 0xff == (y >> ((sh - 8) as u128)) & 0xff,
{
}

/// The bytes of `le_value(s)`, read back least significant first, are `s`.
proof fn lemma_le_bytes(s: Seq<u8>, i: int)
    requires
        s.len() <= 16,
        0 <= i < s.len(),
    ensures
        0 <= le_value(s) < byte_pow(s.len()),
        ((le_value(s) as u128) >> ((8 * i) as u128)) & 0xff == s[i] as u128,
    decreases s.len(),
{
    lemma_le_value_bound(s);
    lemma_byte_pow_block(s.len());
    let y = le_value(s.skip(1));
    lemma_le_value_bound(s.skip(1));
    lemma_byte_pow_block((s.len() - 1) as nat);
    reveal_with_fuel(byte_pow, 17);
    assert(byte_pow((s.len() - 1) as nat) <= byte_pow(15)) by {
        lemma_byte_pow_le((s.len() - 1) as nat, 15);
    }
    assert(byte_pow(15) == 0x1_0000_0000_0000_0000_0000_0000_0000_00);
    let x = le_value(s);
    assert(x == s[0] + 256 * y);
    let b = s[0] as u128;
    let yy = y as u128;
    assert((b + 256 * yy) as u128 == x as u128);
    if i == 0 {
        lemma_le_byte(b, yy, 8);
        let xx = x as u128;
        assert(xx >> 0u128 == xx) by (bit_vector);
    } else {
        lemma_le_bytes(s.skip(1), i - 1);
        lemma_le_byte(b, yy, (8 * i) as u128);
        assert(s.skip(1)[i - 1] == s[i]);
        assert((((8 * i) as u128) - 8) as u128 == ((8 * (i - 1)) as u128));
    }
}

/// `256^m <= 256^n` for `m <= n`.
proof fn lemma_byte_pow_le(m: nat, n: nat)
    requires
        m <= n,
    ensures
        1 <= byte_pow(m) <= byte_pow(n),
    decreases n,
{
    if n > 0 {
        if m < n {
            lemma_byte_pow_le(m, (n - 1) as nat);
        } else {
            lemma_byte_pow_le((n - 1) as nat, (n - 1) as nat);
        }
    }
}

/// The challenge is read little-endian: the bytes of the block read from
/// 16 bytes are those 16 bytes, least significant first.
pub proof fn lemma_block_from_le_bytes(s: Seq<u8>)
    requires
        s.len() == 16,
    ensures
        block_bytes(le_value(s) as u128) == s,
{
    assert forall|i: int| 0 <= i < 16 implies #[trigger] block_bytes(le_value(s) as u128)[i]
        == s[i] by {
        lemma_le_bytes(s, i);
        let z = le_value(s) as u128;
        let sh = (8 * i) as u128;
        assert((z >> sh) & 0xff < 256) by (bit_vector);
    }
    assert(block_bytes(le_value(s) as u128) =~= s);
}

/// Bit arithmetic on a byte: bit 0 of `b + 2 * r` is `b`, its higher bits
/// are those of `r`.
proof fn lemma_bit_of_byte(b: u8, r: u8, i: u8)
    by (bit_vector)
    requires
        b < 2,
        r < 128,
        1 <= i < 8,
    ensures
        ((b + 2 * r) as u8) & 1 == b,
        (((b + 2 * r) as u8) >> i) & 1 == (r >> ((i - 1) as u8)) & 1,
        (0u8 >> i) & 1 == 0,
        0u8 & 1 == 0,
{
}

/// Bit `i` of the byte packed from `t` is `t[i]`, and 0 past the end of `t`.
proof fn lemma_bits_byte_bits(t: Seq<bool>, i: int)
    requires
        t.len() <= 8,
        0 <= i < 8,
    ensures
        (((bits_byte(t) as u8) >> (i as u8)) & 1 == 1) == (i < t.len() && t[i]),
    decreases t.len(),
{
    lemma_bits_byte_bound(t);
    lemma_two_pow_byte(t.len());
    if t.len() == 0 {
        lemma_bit_of_byte(0, 0, 1);
        if i > 0 {
            lemma_bit_of_byte(0, 0, i as u8);
        }
        assert((0u8 >> 0u8) == 0u8) by (bit_vector);
    } else {
        let r = bits_byte(t.skip(1));
        lemma_bits_byte_bound(t.skip(1));
        lemma_two_pow_byte((t.len() - 1) as nat);
        assert(two_pow((t.len() - 1) as nat) <= 128) by {
            reveal_with_fuel(two_pow, 9);
            lemma_two_pow_mono((t.len() - 1) as nat, 7);
        }
        let b: u8 = if t[0] {
            1
        } else {
            0
        };
        assert((b + 2 * (r as u8)) as u8 == bits_byte(t) as u8);
        if i == 0 {
            lemma_bit_of_byte(b, r as u8, 1);
            let x = bits_byte(t) as u8;
            assert(x >> 0u8 == x) by (bit_vector);
        } else {
            lemma_bit_of_byte(b, r as u8, i as u8);
            lemma_bits_byte_bits(t.skip(1), i - 1);
            assert(((i as u8) - 1) as u8 == (i - 1) as u8);
        }
    }
}

/// `2^m <= 2^n` for `m <= n`.
proof fn lemma_two_pow_mono(m: nat, n: nat)
    requires
        m <= n,
    ensures
        1 <= two_pow(m) <= two_pow(n),
    decreases n,
{
    if n > 0 {
        if m < n {
            lemma_two_pow_mono(m, (n - 1) as nat);
        } else {
            lemma_two_pow_mono((n - 1) as nat, (n - 1) as nat);
        }
    }
}

/// Byte `j` of the packed bits is packed from bits `8 j` on.
proof fn lemma_packed_byte(bits: Seq<bool>, j: int)
    requires
        0 <= j,
        8 * j < bits.len(),
    ensures
        packed_bits(bits).len() > j,
        packed_bits(bits)[j] == bits_byte(
            bits.subrange(8 * j, if bits.len() - 8 * j <= 8 {
                bits.len() as int
            } else {
                8 * j + 8
            }),
        ) as u8,
    decreases j,
{
    lemma_packed_len(bits);
    if j == 0 {
        if bits.len() <= 8 {
            assert(bits.subrange(0, bits.len() as int) =~= bits);
        } else {
            assert(bits.subrange(0, 8) =~= bits.take(8));
        }
    } else {
        let rest = bits.skip(8);
        lemma_packed_byte(rest, j - 1);
        assert(rest.subrange(8 * (j - 1), if rest.len() - 8 * (j - 1) <= 8 {
            rest.len() as int
        } else {
            8 * (j - 1) + 8
        }) =~= bits.subrange(8 * j, if bits.len() - 8 * j <= 8 {
            bits.len() as int
        } else {
            8 * j + 8
        }));
    }
}

/// There are as many packed bytes as it takes to hold the bits.
proof fn lemma_packed_len(bits: Seq<bool>)
    ensures
        8 * packed_bits(bits).len() >= bits.len(),
        packed_bits(bits).len() == 0 || 8 * (packed_bits(bits).len() - 1) < bits.len(),
    decreases bits.len(),
{
    if bits.len() > 8 {
        lemma_packed_len(bits.skip(8));
    }
}

/// The packed adjust bits hold the bits, least significant first: bit `i`
/// of byte `j` is bit `8 j + i` of the input, and the padding of the last
/// byte is zero.
pub proof fn lemma_packed_bits(bits: Seq<bool>)
    ensures
        8 * packed_bits(bits).len() >= bits.len(),
        packed_bits(bits).len() == 0 || 8 * (packed_bits(bits).len() - 1) < bits.len(),
        forall|j: int, i: int|
            0 <= j < packed_bits(bits).len() && 0 <= i < 8 ==> (#[trigger] (packed_bits(bits)[j]
                >> (i as u8)) & 1 == 1) == (8 * j + i < bits.len() && bits[8 * j + i]),
{
    lemma_packed_len(bits);
    assert forall|j: int, i: int|
        0 <= j < packed_bits(bits).len() && 0 <= i < 8 implies (#[trigger] (packed_bits(bits)[j]
        >> (i as u8)) & 1 == 1) == (8 * j + i < bits.len() && bits[8 * j + i]) by {
        lemma_packed_byte(bits, j);
        let t = bits.subrange(8 * j, if bits.len() - 8 * j <= 8 {
            bits.len() as int
        } else {
            8 * j + 8
        });
        lemma_bits_byte_bits(t, i);
        if i < t.len() {
            assert(t[i] == bits[8 * j + i]);
        }
    }
}

} // verus!
