//! The field laws of multiplication in GF(2^128), as [`gf_mul`] defines it:
//! it distributes over XOR, it is commutative and it is associative.
//!
//! A value `a` is the sum of `x^i` over its set bits `i`; `a * b` is the sum
//! of `a * x^j` over the set bits `j` of `b`. The proofs go through the
//! powers of `x`: multiplying by `x` is linear, `x^i * x^j = x^(i + j)`, and
//! `1 * a = a`.
use vstd::prelude::*;

use crate::correlated::{bit_at, gf_mul, gf_mul_prefix, gf_mulx, gf_mulx_pow};

verus! {

/// XOR is associative and commutative, 0 is its unit and every value is its
/// own inverse.
pub proof fn lemma_xor(a: u128, b: u128, c: u128, d: u128)
    by (bit_vector)
    ensures
        a ^ 0 == a,
        0 ^ a == a,
        a ^ a == 0,
        a ^ b == b ^ a,
        (a ^ b) ^ c == a ^ (b ^ c),
        (a ^ b) ^ (c ^ d) == (a ^ c) ^ (b ^ d),
{
}

/// Multiplying by `x` is linear.
proof fn lemma_mulx_linear(a: u128, b: u128)
    by (bit_vector)
    ensures
        gf_mulx(a ^ b) == gf_mulx(a) ^ gf_mulx(b),
        gf_mulx(0) == 0,
{
}

/// The bits of a XOR are the XORs of the bits; 0 has no bit set; `1 << j`
/// has only bit `j` set.
proof fn lemma_bits(b: u128, c: u128, i: u128, j: u128)
    by (bit_vector)
    requires
        i < 128,
        j < 128,
    ensures
        bit_at(b ^ c, i) == (bit_at(b, i) != bit_at(c, i)),
        !bit_at(0, i),
        bit_at(1u128 << j, i) == (i == j),
{
}

/// Multiplying `x^k` by `x` gives `x^(k + 1)` while `k + 1 < 128`.
proof fn lemma_mulx_unit(k: u128)
    by (bit_vector)
    requires
        k < 127,
    ensures
        gf_mulx(1u128 << k) == 1u128 << (k + 1),
        1u128 << 0u128 == 1,
{
}

/// The low `n` bits of `a`.
pub open spec fn low_bits(a: u128, n: u128) -> u128 {
    if n >= 128 {
        a
    } else {
        a & (((1u128 << n) - 1u128) as u128)
    }
}

/// Adding bit `n` to the low `n` bits of `a` gives its low `n + 1` bits.
proof fn lemma_low_bits_step(a: u128, n: u128)
    by (bit_vector)
    requires
        n < 128,
    ensures
        low_bits(a, (n + 1) as u128) == low_bits(a, n) ^ (if bit_at(a, n) {
            1u128 << n
        } else {
            0
        }),
        low_bits(a, 0) == 0,
{
}

/// `x^n` is linear.
pub proof fn lemma_pow_linear(a: u128, b: u128, n: nat)
    ensures
        gf_mulx_pow(a ^ b, n) == gf_mulx_pow(a, n) ^ gf_mulx_pow(b, n),
        gf_mulx_pow(0, n) == 0,
    decreases n,
{
    if n > 0 {
        lemma_pow_linear(a, b, (n - 1) as nat);
        lemma_mulx_linear(gf_mulx_pow(a, (n - 1) as nat), gf_mulx_pow(b, (n - 1) as nat));
    } else {
    }
    lemma_mulx_linear(0, 0);
}

/// `x^i * x^j = x^(i + j)`.
pub proof fn lemma_pow_add(a: u128, i: nat, j: nat)
    ensures
        gf_mulx_pow(gf_mulx_pow(a, i), j) == gf_mulx_pow(a, i + j),
    decreases j,
{
    if j > 0 {
        lemma_pow_add(a, i, (j - 1) as nat);
        assert((i + j - 1) as nat == i + (j - 1) as nat);
    }
}

/// `x^j` is `1 << j` for `j < 128`.
proof fn lemma_pow_one(j: nat)
    requires
        j < 128,
    ensures
        gf_mulx_pow(1, j) == 1u128 << (j as u128),
    decreases j,
{
    lemma_mulx_unit(0);
    if j > 0 {
        lemma_pow_one((j - 1) as nat);
        lemma_mulx_unit((j - 1) as u128);
        assert(((j - 1) as u128 + 1) as u128 == j as u128);
    }
}

/// Multiplying by 0, on either side, gives 0.
pub proof fn lemma_prefix_zero(a: u128, c: u128, n: nat)
    requires
        n <= 128,
    ensures
        gf_mul_prefix(0, c, n) == 0,
        gf_mul_prefix(a, 0, n) == 0,
    decreases n,
{
    lemma_xor(0, 0, 0, 0);
    if n > 0 {
        lemma_prefix_zero(a, c, (n - 1) as nat);
        lemma_pow_linear(0, 0, (n - 1) as nat);
        lemma_bits(0, 0, (n - 1) as u128, 0);
    }
}

/// Multiplication distributes over XOR on the left.
pub proof fn lemma_prefix_left(a: u128, b: u128, c: u128, n: nat)
    ensures
        gf_mul_prefix(a ^ b, c, n) == gf_mul_prefix(a, c, n) ^ gf_mul_prefix(b, c, n),
    decreases n,
{
    if n == 0 {
        lemma_xor(0, 0, 0, 0);
    } else {
        let m = (n - 1) as nat;
        lemma_prefix_left(a, b, c, m);
        lemma_pow_linear(a, b, m);
        let (r1, r2) = (gf_mul_prefix(a, c, m), gf_mul_prefix(b, c, m));
        let (p1, p2) = (gf_mulx_pow(a, m), gf_mulx_pow(b, m));
        lemma_xor(r1, r2, p1, p2);
    }
}

/// Multiplication distributes over XOR on the right.
pub proof fn lemma_prefix_right(a: u128, b: u128, c: u128, n: nat)
    requires
        n <= 128,
    ensures
        gf_mul_prefix(a, b ^ c, n) == gf_mul_prefix(a, b, n) ^ gf_mul_prefix(a, c, n),
    decreases n,
{
    if n == 0 {
        lemma_xor(0, 0, 0, 0);
    } else {
        let m = (n - 1) as nat;
        lemma_prefix_right(a, b, c, m);
        lemma_bits(b, c, m as u128, 0);
        let (rb, rc) = (gf_mul_prefix(a, b, m), gf_mul_prefix(a, c, m));
        let p = gf_mulx_pow(a, m);
        lemma_xor(rb, rc, p, p);
        lemma_xor(rc, p, rb, p);
        lemma_xor(rb, p, rc, p);
        lemma_xor(p, p, p, p);
        lemma_xor(rb ^ rc, p, p, p);
    }
}

/// `1 * a` keeps the low `n` bits of `a`.
proof fn lemma_prefix_one(a: u128, n: nat)
    requires
        n <= 128,
    ensures
        gf_mul_prefix(1, a, n) == low_bits(a, n as u128),
    decreases n,
{
    lemma_low_bits_step(a, 0);
    if n > 0 {
        let m = (n - 1) as nat;
        lemma_prefix_one(a, m);
        lemma_pow_one(m);
        lemma_low_bits_step(a, m as u128);
        lemma_xor(low_bits(a, m as u128), 0, 0, 0);
        assert((m as u128 + 1) as u128 == n as u128);
    }
}

/// `1 * a = a`.
pub proof fn lemma_mul_one(a: u128)
    ensures
        gf_mul(1, a) == a,
{
    lemma_prefix_one(a, 128);
}

/// `x^k` moves into the left factor of a partial product.
proof fn lemma_pow_prefix(c: u128, a: u128, n: nat, k: nat)
    ensures
        gf_mulx_pow(gf_mul_prefix(c, a, n), k) == gf_mul_prefix(gf_mulx_pow(c, k), a, n),
    decreases n,
{
    lemma_pow_linear(0, 0, k);
    if n > 0 {
        let m = (n - 1) as nat;
        lemma_pow_prefix(c, a, m, k);
        lemma_pow_linear(gf_mul_prefix(c, a, m), gf_mulx_pow(c, m), k);
        lemma_pow_add(c, m, k);
        lemma_pow_add(c, k, m);
        assert(m + k == k + m);
    }
}

/// `x^j * a`, as a product: `a` times `x^j`.
proof fn lemma_pow_is_mul(a: u128, j: nat)
    ensures
        gf_mulx_pow(a, j) == gf_mul(gf_mulx_pow(1, j), a),
{
    lemma_mul_one(a);
    lemma_pow_prefix(1, a, 128, j);
}

/// The sum of `(c * x^j) * a` over the set bits `j < n` of `b`.
spec fn left_terms(c: u128, b: u128, a: u128, n: nat) -> u128
    decreases n,
{
    if n == 0 {
        0
    } else {
        let r = left_terms(c, b, a, (n - 1) as nat);
        if bit_at(b, (n - 1) as u128) {
            r ^ gf_mul(gf_mulx_pow(c, (n - 1) as nat), a)
        } else {
            r
        }
    }
}

/// A partial product times `a` is the sum of its terms times `a`.
proof fn lemma_left_terms(c: u128, b: u128, a: u128, n: nat)
    ensures
        gf_mul(gf_mul_prefix(c, b, n), a) == left_terms(c, b, a, n),
    decreases n,
{
    lemma_prefix_zero(0, a, 128);
    if n > 0 {
        let m = (n - 1) as nat;
        lemma_left_terms(c, b, a, m);
        lemma_prefix_left(gf_mul_prefix(c, b, m), gf_mulx_pow(c, m), a, 128);
    }
}

/// A partial product is the sum of its terms, each as a product.
proof fn lemma_prefix_terms(a: u128, b: u128, n: nat)
    ensures
        gf_mul_prefix(a, b, n) == left_terms(1, b, a, n),
    decreases n,
{
    if n > 0 {
        lemma_prefix_terms(a, b, (n - 1) as nat);
        lemma_pow_is_mul(a, (n - 1) as nat);
    }
}

/// Multiplication is commutative.
pub proof fn lemma_mul_comm(a: u128, b: u128)
    ensures
        gf_mul(a, b) == gf_mul(b, a),
{
    lemma_prefix_terms(a, b, 128);
    lemma_left_terms(1, b, a, 128);
    lemma_mul_one(b);
}

/// Multiplying a product by `x^k` multiplies its right factor by `x^k`.
proof fn lemma_pow_mul(a: u128, b: u128, k: nat)
    ensures
        gf_mulx_pow(gf_mul(a, b), k) == gf_mul(a, gf_mulx_pow(b, k)),
{
    lemma_mul_comm(a, b);
    lemma_pow_prefix(b, a, 128, k);
    lemma_mul_comm(gf_mulx_pow(b, k), a);
}

/// The sum of `a * (b * x^j)` over the set bits `j < n` of `c`.
spec fn right_terms(a: u128, b: u128, c: u128, n: nat) -> u128
    decreases n,
{
    if n == 0 {
        0
    } else {
        let r = right_terms(a, b, c, (n - 1) as nat);
        if bit_at(c, (n - 1) as u128) {
            r ^ gf_mul(a, gf_mulx_pow(b, (n - 1) as nat))
        } else {
            r
        }
    }
}

/// `a` times a partial product is the sum of `a` times its terms.
proof fn lemma_right_terms(a: u128, b: u128, c: u128, n: nat)
    ensures
        gf_mul(a, gf_mul_prefix(b, c, n)) == right_terms(a, b, c, n),
        right_terms(a, b, c, n) == gf_mul_prefix(gf_mul(a, b), c, n),
    decreases n,
{
    lemma_prefix_zero(a, 0, 128);
    if n > 0 {
        let m = (n - 1) as nat;
        lemma_right_terms(a, b, c, m);
        lemma_prefix_right(a, gf_mul_prefix(b, c, m), gf_mulx_pow(b, m), 128);
        lemma_pow_mul(a, b, m);
    }
}

/// Multiplication is associative.
pub proof fn lemma_mul_assoc(a: u128, b: u128, c: u128)
    ensures
        gf_mul(a, gf_mul(b, c)) == gf_mul(gf_mul(a, b), c),
{
    lemma_right_terms(a, b, c, 128);
}

/// Multiplication distributes over XOR, on both sides, and 0 annihilates.
pub proof fn lemma_mul_distributes(a: u128, b: u128, c: u128)
    ensures
        gf_mul(a, b ^ c) == gf_mul(a, b) ^ gf_mul(a, c),
        gf_mul(b ^ c, a) == gf_mul(b, a) ^ gf_mul(c, a),
        gf_mul(a, 0) == 0,
        gf_mul(0, a) == 0,
{
    lemma_prefix_right(a, b, c, 128);
    lemma_prefix_left(b, c, a, 128);
    lemma_prefix_zero(a, a, 128);
}

} // verus!
