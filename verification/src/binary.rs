//! Binary memory: each cell holds one bit. Unsigned integers are stored in
//! it least significant bit first.
use vstd::prelude::*;

use crate::memory::{ClearValue, FromRaw, MemoryType, Ptr, Repr, Slice, ToRaw};

verus! {

/// Binary memory.
pub struct Binary;

impl MemoryType for Binary {
    type Raw = Vec<bool>;
}

/// `2` to the power `n`.
pub open spec fn pow_two(n: nat) -> nat
    decreases n,
{
    if n == 0 {
        1
    } else {
        2 * pow_two((n - 1) as nat)
    }
}

/// The `n` least significant bits of `x`, least significant first.
pub open spec fn lsb0(x: int, n: nat) -> Seq<bool>
    decreases n,
{
    if n == 0 {
        Seq::empty()
    } else {
        seq![x % 2 == 1].add(lsb0(x / 2, (n - 1) as nat))
    }
}

/// The number whose bits, least significant first, are `bits`.
pub open spec fn bits_value(bits: Seq<bool>) -> int
    decreases bits.len(),
{
    if bits.len() == 0 {
        0
    } else {
        (if bits[0] { 1int } else { 0int }) + 2 * bits_value(bits.drop_first())
    }
}

/// A number below `2^n` is the value of its `n` least significant bits.
pub proof fn lemma_bits_value_lsb0(x: int, n: nat)
    requires
        0 <= x < pow_two(n),
    ensures
        bits_value(lsb0(x, n)) == x,
        lsb0(x, n).len() == n,
    decreases n,
{
    if n > 0 {
        lemma_bits_value_lsb0(x / 2, (n - 1) as nat);
        assert(lsb0(x, n).drop_first() =~= lsb0(x / 2, (n - 1) as nat));
    }
}

/// The bits of the value of `bits` are `bits`, and that value is below
/// `2^|bits|`.
pub proof fn lemma_lsb0_bits_value(bits: Seq<bool>)
    ensures
        lsb0(bits_value(bits), bits.len()) == bits,
        0 <= bits_value(bits) < pow_two(bits.len()),
    decreases bits.len(),
{
    if bits.len() > 0 {
        let rest = bits.drop_first();
        lemma_lsb0_bits_value(rest);
        let v = bits_value(bits);
        assert(v % 2 == 1 <==> bits[0]);
        assert(v / 2 == bits_value(rest));
        assert(lsb0(v, bits.len()) =~= bits);
    }
}

/// A clear value is determined by its bits: two numbers below `2^n` with the
/// same `n` least significant bits are equal.
pub proof fn lemma_lsb0_injective(x: int, y: int, n: nat)
    requires
        0 <= x < pow_two(n),
        0 <= y < pow_two(n),
        lsb0(x, n) == lsb0(y, n),
    ensures
        x == y,
{
    lemma_bits_value_lsb0(x, n);
    lemma_bits_value_lsb0(y, n);
}

/// `pow_two` grows with its exponent.
proof fn lemma_pow_two_monotonic(a: nat, b: nat)
    requires
        a <= b,
    ensures
        pow_two(a) <= pow_two(b),
    decreases b,
{
    if a < b {
        lemma_pow_two_monotonic(a, (b - 1) as nat);
    }
}

/// `2^(a + b) == 2^a * 2^b`.
proof fn lemma_pow_two_add(a: nat, b: nat)
    ensures
        pow_two(a + b) == pow_two(a) * pow_two(b),
    decreases b,
{
    if b > 0 {
        lemma_pow_two_add(a, (b - 1) as nat);
        let p = pow_two(a);
        let q = pow_two((b - 1) as nat);
        assert((a + b - 1) as nat == a + (b - 1) as nat);
        assert(pow_two((a + b - 1) as nat) == p * q);
        assert(pow_two(a + b) == 2 * pow_two((a + b - 1) as nat));
        assert(pow_two(b) == 2 * q);
        assert(p * (2 * q) == 2 * (p * q)) by (nonlinear_arith);
        assert(p * pow_two(b) == p * (2 * q));
    } else {
        assert(pow_two(b) == 1);
        assert(pow_two(a) * 1 == pow_two(a));
    }
}

/// The powers of two that bound the unsigned integer types.
proof fn lemma_pow_two_widths()
    ensures
        pow_two(8) == 0x100,
        pow_two(16) == 0x1_0000,
        pow_two(32) == 0x1_0000_0000,
        pow_two(64) == 0x1_0000_0000_0000_0000,
        pow_two(128) == 0x1_0000_0000_0000_0000_0000_0000_0000_0000,
{
    assert(pow_two(8) == 0x100) by {
        reveal_with_fuel(pow_two, 9);
    }
    lemma_pow_two_add(8, 8);
    assert(pow_two(16) == 0x100 * 0x100);
    lemma_pow_two_add(16, 16);
    assert(pow_two(32) == 0x1_0000 * 0x1_0000);
    lemma_pow_two_add(32, 32);
    assert(pow_two(64) == 0x1_0000_0000 * 0x1_0000_0000);
    lemma_pow_two_add(64, 64);
    assert(pow_two(128) == 0x1_0000_0000_0000_0000 * 0x1_0000_0000_0000_0000);
}

/// Returns the `n` least significant bits of `x`, least significant first.
fn lsb0_bits(x: u128, n: usize) -> (r: Vec<bool>)
    ensures
        r@ == lsb0(x as int, n as nat),
{
    let mut out: Vec<bool> = Vec::new();
    let mut v = x;
    let mut i: usize = 0;
    while i < n
        invariant
            i <= n,
            out@ + lsb0(v as int, (n - i) as nat) == lsb0(x as int, n as nat),
        decreases n - i,
    {
        let ghost prev = out@;
        out.push(v % 2 == 1);
        proof {
            assert(lsb0(v as int, (n - i) as nat) =~= seq![v % 2 == 1].add(
                lsb0(v as int / 2, (n - i - 1) as nat),
            ));
            assert(out@ + lsb0((v / 2) as int, (n - i - 1) as nat) =~= prev + lsb0(
                v as int,
                (n - i) as nat,
            ));
        }
        v = v / 2;
        i = i + 1;
    }
    assert(out@ + lsb0(v as int, 0) =~= out@);
    out
}

/// Returns the number whose bits, least significant first, are `bits`.
fn lsb0_value(bits: &[bool]) -> (r: u128)
    requires
        bits.len() <= 128,
    ensures
        r == bits_value(bits@),
{
    let mut v: u128 = 0;
    let mut i: usize = bits.len();
    proof {
        assert(bits@.skip(bits.len() as int) =~= Seq::<bool>::empty());
    }
    while i > 0
        invariant
            i <= bits.len() <= 128,
            v == bits_value(bits@.skip(i as int)),
        decreases i,
    {
        i = i - 1;
        proof {
            let s = bits@.skip(i as int);
            assert(s.drop_first() =~= bits@.skip(i + 1));
            lemma_lsb0_bits_value(s);
            lemma_pow_two_monotonic(s.len(), 128);
            lemma_pow_two_widths();
        }
        v = 2 * v + if bits[i] { 1 } else { 0 };
    }
    proof {
        assert(bits@.skip(0) =~= bits@);
    }
    v
}

/// An unsigned integer type stored in binary memory, least significant bit
/// first.
pub trait Uint: Copy {
    /// The number of bits.
    spec fn bit_width() -> nat;

    /// The number the value is.
    spec fn number(&self) -> int;

    /// Returns the number of bits.
    fn width() -> (r: usize)
        ensures
            r == Self::bit_width(),
            r <= 128,
    ;

    /// Returns the value as a `u128`.
    fn to_u128(&self) -> (r: u128)
        ensures
            r == self.number(),
    ;

    /// Returns the value `v`.
    fn from_u128(v: u128) -> (r: Self)
        requires
            v < pow_two(Self::bit_width()),
        ensures
            r.number() == v,
    ;

    /// A value lies in `[0, 2^width)` and width is at most 128.
    proof fn lemma_range(&self)
        ensures
            0 <= self.number() < pow_two(Self::bit_width()),
            Self::bit_width() <= 128,
    ;

    /// A value is determined by its number.
    proof fn lemma_number_injective(a: Self, b: Self)
        requires
            a.number() == b.number(),
        ensures
            a == b,
    ;
}

impl Uint for u8 {
    open spec fn bit_width() -> nat {
        8
    }

    open spec fn number(&self) -> int {
        *self as int
    }

    fn width() -> usize {
        8
    }

    fn to_u128(&self) -> u128 {
        *self as u128
    }

    fn from_u128(v: u128) -> u8 {
        proof {
            lemma_pow_two_widths();
        }
        v as u8
    }

    proof fn lemma_range(&self) {
        lemma_pow_two_widths();
    }

    proof fn lemma_number_injective(a: Self, b: Self) {
    }
}

impl Uint for u16 {
    open spec fn bit_width() -> nat {
        16
    }

    open spec fn number(&self) -> int {
        *self as int
    }

    fn width() -> usize {
        16
    }

    fn to_u128(&self) -> u128 {
        *self as u128
    }

    fn from_u128(v: u128) -> u16 {
        proof {
            lemma_pow_two_widths();
        }
        v as u16
    }

    proof fn lemma_range(&self) {
        lemma_pow_two_widths();
    }

    proof fn lemma_number_injective(a: Self, b: Self) {
    }
}

impl Uint for u32 {
    open spec fn bit_width() -> nat {
        32
    }

    open spec fn number(&self) -> int {
        *self as int
    }

    fn width() -> usize {
        32
    }

    fn to_u128(&self) -> u128 {
        *self as u128
    }

    fn from_u128(v: u128) -> u32 {
        proof {
            lemma_pow_two_widths();
        }
        v as u32
    }

    proof fn lemma_range(&self) {
        lemma_pow_two_widths();
    }

    proof fn lemma_number_injective(a: Self, b: Self) {
    }
}

impl Uint for u64 {
    open spec fn bit_width() -> nat {
        64
    }

    open spec fn number(&self) -> int {
        *self as int
    }

    fn width() -> usize {
        64
    }

    fn to_u128(&self) -> u128 {
        *self as u128
    }

    fn from_u128(v: u128) -> u64 {
        proof {
            lemma_pow_two_widths();
        }
        v as u64
    }

    proof fn lemma_range(&self) {
        lemma_pow_two_widths();
    }

    proof fn lemma_number_injective(a: Self, b: Self) {
    }
}

impl Uint for u128 {
    open spec fn bit_width() -> nat {
        128
    }

    open spec fn number(&self) -> int {
        *self as int
    }

    fn width() -> usize {
        128
    }

    fn to_u128(&self) -> u128 {
        *self
    }

    fn from_u128(v: u128) -> u128 {
        v
    }

    proof fn lemma_range(&self) {
        lemma_pow_two_widths();
    }

    proof fn lemma_number_injective(a: Self, b: Self) {
    }
}

impl<C: Uint> ClearValue<Binary> for C {
    open spec fn is_clear_of(&self, raw: Vec<bool>) -> bool {
        raw@ == lsb0(self.number(), C::bit_width())
    }

    open spec fn fits_raw(raw: Vec<bool>) -> bool {
        raw@.len() == C::bit_width()
    }

    fn into_clear(self) -> (r: Vec<bool>) {
        let r = lsb0_bits(self.to_u128(), C::width());
        proof {
            self.lemma_range();
            lemma_bits_value_lsb0(self.number(), C::bit_width());
        }
        r
    }

    fn from_clear(value: Vec<bool>) -> (r: C) {
        let width = C::width();
        let n = if value.len() < width { value.len() } else { width };
        let mut bits: Vec<bool> = Vec::new();
        let mut i: usize = 0;
        while i < n
            invariant
                i <= n <= value.len(),
                n <= width,
                bits@ == value@.take(i as int),
            decreases n - i,
        {
            bits.push(value[i]);
            assert(bits@ =~= value@.take(i + 1));
            i = i + 1;
        }
        let v = lsb0_value(bits.as_slice());
        proof {
            lemma_lsb0_bits_value(bits@);
            lemma_pow_two_monotonic(bits@.len(), C::bit_width());
            if value@.len() == C::bit_width() {
                assert(bits@ =~= value@);
            }
        }
        C::from_u128(v)
    }

    proof fn lemma_clear_unique(a: C, b: C, raw: Vec<bool>) {
        a.lemma_range();
        b.lemma_range();
        lemma_lsb0_injective(a.number(), b.number(), C::bit_width());
        C::lemma_number_injective(a, b);
    }
}

/// The bits of the numbers `xs`, each `C::bit_width()` bits long and least
/// significant first, number after number.
pub open spec fn uints_lsb0<C: Uint>(xs: Seq<C>) -> Seq<bool>
    decreases xs.len(),
{
    if xs.len() == 0 {
        Seq::empty()
    } else {
        uints_lsb0(xs.drop_last()) + lsb0(xs.last().number(), C::bit_width())
    }
}

/// The bits of numbers are as long as the numbers' widths together.
proof fn lemma_uints_lsb0_len<C: Uint>(xs: Seq<C>)
    ensures
        uints_lsb0(xs).len() == xs.len() * C::bit_width(),
    decreases xs.len(),
{
    if xs.len() > 0 {
        lemma_uints_lsb0_len(xs.drop_last());
        let x = xs.last();
        x.lemma_range();
        lemma_bits_value_lsb0(x.number(), C::bit_width());
        assert(xs.len() * C::bit_width() == (xs.len() - 1) * C::bit_width() + C::bit_width())
            by (nonlinear_arith);
    }
}

/// Numbers with the same bits are the same numbers.
proof fn lemma_uints_lsb0_injective<C: Uint>(xs: Seq<C>, ys: Seq<C>)
    requires
        xs.len() == ys.len(),
        uints_lsb0(xs) == uints_lsb0(ys),
    ensures
        xs == ys,
    decreases xs.len(),
{
    if xs.len() > 0 {
        let (px, py) = (xs.drop_last(), ys.drop_last());
        lemma_uints_lsb0_len(px);
        lemma_uints_lsb0_len(py);
        let (x, y) = (xs.last(), ys.last());
        x.lemma_range();
        y.lemma_range();
        lemma_bits_value_lsb0(x.number(), C::bit_width());
        lemma_bits_value_lsb0(y.number(), C::bit_width());
        let w = C::bit_width();
        let l = (px.len() * w) as int;
        assert(uints_lsb0(px) =~= uints_lsb0(xs).take(l));
        assert(uints_lsb0(py) =~= uints_lsb0(ys).take(l));
        lemma_uints_lsb0_injective(px, py);
        assert(lsb0(x.number(), w) =~= uints_lsb0(xs).skip(l));
        assert(lsb0(y.number(), w) =~= uints_lsb0(ys).skip(l));
        lemma_lsb0_injective(x.number(), y.number(), w);
        C::lemma_number_injective(x, y);
        assert forall|i: int| 0 <= i < xs.len() implies xs[i] == ys[i] by {
            if i < xs.len() - 1 {
                assert(xs[i] == px[i]);
                assert(ys[i] == py[i]);
            }
        }
        assert(xs =~= ys);
    }
}

impl<C: Uint, const N: usize> ClearValue<Binary> for [C; N] {
    open spec fn is_clear_of(&self, raw: Vec<bool>) -> bool {
        raw@ == uints_lsb0(self@)
    }

    open spec fn fits_raw(raw: Vec<bool>) -> bool {
        raw@.len() == N * C::bit_width()
    }

    fn into_clear(self) -> (r: Vec<bool>) {
        let width = C::width();
        let mut out: Vec<bool> = Vec::new();
        let mut i: usize = 0;
        while i < N
            invariant
                i <= N,
                width == C::bit_width(),
                out@ == uints_lsb0(self@.take(i as int)),
            decreases N - i,
        {
            let mut bits = lsb0_bits(self[i].to_u128(), width);
            let ghost prev = out@;
            out.append(&mut bits);
            proof {
                assert(self@.take(i + 1).drop_last() =~= self@.take(i as int));
                assert(self@.take(i + 1).last() == self@[i as int]);
            }
            i = i + 1;
        }
        proof {
            assert(self@.take(N as int) =~= self@);
            lemma_uints_lsb0_len(self@);
        }
        out
    }

    fn from_clear(value: Vec<bool>) -> (r: [C; N]) {
        let width = C::width();
        proof {
            lemma_pow_two_monotonic(0, C::bit_width());
        }
        let mut out: [C; N] = [C::from_u128(0); N];
        let mut pos: usize = 0;
        let mut i: usize = 0;
        while i < N
            invariant
                i <= N,
                width == C::bit_width(),
                width <= 128,
                pos <= value.len(),
                value@.len() == N * C::bit_width() ==> pos == i * C::bit_width(),
                value@.len() == N * C::bit_width() ==> uints_lsb0(out@.take(i as int))
                    == value@.take(pos as int),
            decreases N - i,
        {
            let end = if value.len() - pos < width { value.len() } else { pos + width };
            let mut bits: Vec<bool> = Vec::new();
            let mut j: usize = pos;
            while j < end
                invariant
                    pos <= j <= end <= value.len(),
                    bits@ == value@.subrange(pos as int, j as int),
                decreases end - j,
            {
                bits.push(value[j]);
                assert(bits@ =~= value@.subrange(pos as int, j + 1));
                j = j + 1;
            }
            let v = lsb0_value(bits.as_slice());
            proof {
                lemma_lsb0_bits_value(bits@);
                lemma_pow_two_monotonic(bits@.len(), C::bit_width());
            }
            let x = C::from_u128(v);
            let ghost prev = out@;
            out[i] = x;
            proof {
                if value@.len() == N * C::bit_width() {
                    assert((i + 1) * C::bit_width() == i * C::bit_width() + C::bit_width())
                        by (nonlinear_arith);
                    assert(i * C::bit_width() + C::bit_width() <= N * C::bit_width()) by (
                    nonlinear_arith)
                        requires
                            i < N,
                    ;
                    assert(end == pos + width);
                    assert(out@.take(i + 1).drop_last() =~= prev.take(i as int));
                    assert(out@.take(i + 1).last() == x);
                    assert(value@.take(end as int) =~= value@.take(pos as int) + bits@);
                }
            }
            pos = end;
            i = i + 1;
        }
        proof {
            assert(out@.take(N as int) =~= out@);
            if value@.len() == N * C::bit_width() {
                assert(value@.take(pos as int) =~= value@);
            }
        }
        out
    }

    proof fn lemma_clear_unique(a: [C; N], b: [C; N], raw: Vec<bool>) {
        lemma_uints_lsb0_injective(a@, b@);
        assert(a =~= b);
    }
}

/// Copies `value[from..to]`.
fn bits_range(value: &[bool], from: usize, to: usize) -> (r: Vec<bool>)
    requires
        from <= to <= value@.len(),
    ensures
        r@ == value@.subrange(from as int, to as int),
{
    let mut out: Vec<bool> = Vec::new();
    let mut j: usize = from;
    while j < to
        invariant
            from <= j <= to <= value@.len(),
            out@ == value@.subrange(from as int, j as int),
        decreases to - j,
    {
        out.push(value[j]);
        assert(out@ =~= value@.subrange(from as int, j + 1));
        j = j + 1;
    }
    out
}

/// A pair of numbers is stored as the bits of the first followed by the bits
/// of the second.
impl<A: Uint, B: Uint> ClearValue<Binary> for (A, B) {
    open spec fn is_clear_of(&self, raw: Vec<bool>) -> bool {
        raw@ == lsb0(self.0.number(), A::bit_width()) + lsb0(self.1.number(), B::bit_width())
    }

    open spec fn fits_raw(raw: Vec<bool>) -> bool {
        raw@.len() == A::bit_width() + B::bit_width()
    }

    fn into_clear(self) -> (r: Vec<bool>) {
        let mut a = lsb0_bits(self.0.to_u128(), A::width());
        let mut b = lsb0_bits(self.1.to_u128(), B::width());
        proof {
            self.0.lemma_range();
            self.1.lemma_range();
            lemma_bits_value_lsb0(self.0.number(), A::bit_width());
            lemma_bits_value_lsb0(self.1.number(), B::bit_width());
        }
        a.append(&mut b);
        a
    }

    fn from_clear(value: Vec<bool>) -> (r: (A, B)) {
        let wa = A::width();
        let wb = B::width();
        let n = if value.len() < wa {
            value.len()
        } else {
            wa
        };
        let m = if value.len() - n < wb {
            value.len()
        } else {
            n + wb
        };
        let first = bits_range(value.as_slice(), 0, n);
        let second = bits_range(value.as_slice(), n, m);
        let x = lsb0_value(first.as_slice());
        let y = lsb0_value(second.as_slice());
        proof {
            lemma_lsb0_bits_value(first@);
            lemma_lsb0_bits_value(second@);
            lemma_pow_two_monotonic(first@.len(), A::bit_width());
            lemma_pow_two_monotonic(second@.len(), B::bit_width());
        }
        let r = (A::from_u128(x), B::from_u128(y));
        proof {
            if value@.len() == A::bit_width() + B::bit_width() {
                assert(value@ =~= first@ + second@);
            }
        }
        r
    }

    proof fn lemma_clear_unique(a: (A, B), b: (A, B), raw: Vec<bool>) {
        a.0.lemma_range();
        a.1.lemma_range();
        b.0.lemma_range();
        b.1.lemma_range();
        lemma_bits_value_lsb0(a.0.number(), A::bit_width());
        lemma_bits_value_lsb0(a.1.number(), B::bit_width());
        lemma_bits_value_lsb0(b.0.number(), A::bit_width());
        lemma_bits_value_lsb0(b.1.number(), B::bit_width());
        let w = A::bit_width() as int;
        assert(lsb0(a.0.number(), A::bit_width()) =~= raw@.take(w));
        assert(lsb0(b.0.number(), A::bit_width()) =~= raw@.take(w));
        assert(lsb0(a.1.number(), B::bit_width()) =~= raw@.skip(w));
        assert(lsb0(b.1.number(), B::bit_width()) =~= raw@.skip(w));
        lemma_lsb0_injective(a.0.number(), b.0.number(), A::bit_width());
        lemma_lsb0_injective(a.1.number(), b.1.number(), B::bit_width());
        A::lemma_number_injective(a.0, b.0);
        B::lemma_number_injective(a.1, b.1);
    }
}


/// A `u8` in binary memory: 8 cells from a pointer.
#[derive(Debug, Clone, Copy, PartialEq, Eq, Structural)]
pub struct U8(pub(crate) Ptr);

impl FromRaw for U8 {
    closed spec fn from_raw_spec(slice: Slice) -> Self {
        U8(slice.ptr)
    }

    fn from_raw(slice: Slice) -> (r: Self)
        ensures
            r.raw().start() == slice.start(),
            r.raw().size() == 8,
    {
        Self(slice.ptr())
    }
}

impl ToRaw for U8 {
    closed spec fn raw(&self) -> Slice {
        Slice { ptr: self.0, size: 8 }
    }

    fn to_raw(&self) -> (r: Slice) {
        Slice::new_unchecked(self.0, 8)
    }
}

impl Repr<Binary> for U8 {
    const SIZE: usize = 8;

    type Clear = u8;
}

/// A `u16` in binary memory: 16 cells from a pointer.
#[derive(Debug, Clone, Copy, PartialEq, Eq, Structural)]
pub struct U16(pub(crate) Ptr);

impl FromRaw for U16 {
    closed spec fn from_raw_spec(slice: Slice) -> Self {
        U16(slice.ptr)
    }

    fn from_raw(slice: Slice) -> (r: Self)
        ensures
            r.raw().start() == slice.start(),
            r.raw().size() == 16,
    {
        Self(slice.ptr())
    }
}

impl ToRaw for U16 {
    closed spec fn raw(&self) -> Slice {
        Slice { ptr: self.0, size: 16 }
    }

    fn to_raw(&self) -> (r: Slice) {
        Slice::new_unchecked(self.0, 16)
    }
}

impl Repr<Binary> for U16 {
    const SIZE: usize = 16;

    type Clear = u16;
}

/// A `u32` in binary memory: 32 cells from a pointer.
#[derive(Debug, Clone, Copy, PartialEq, Eq, Structural)]
pub struct U32(pub(crate) Ptr);

impl FromRaw for U32 {
    closed spec fn from_raw_spec(slice: Slice) -> Self {
        U32(slice.ptr)
    }

    fn from_raw(slice: Slice) -> (r: Self)
        ensures
            r.raw().start() == slice.start(),
            r.raw().size() == 32,
    {
        Self(slice.ptr())
    }
}

impl ToRaw for U32 {
    closed spec fn raw(&self) -> Slice {
        Slice { ptr: self.0, size: 32 }
    }

    fn to_raw(&self) -> (r: Slice) {
        Slice::new_unchecked(self.0, 32)
    }
}

impl Repr<Binary> for U32 {
    const SIZE: usize = 32;

    type Clear = u32;
}

/// A `u64` in binary memory: 64 cells from a pointer.
#[derive(Debug, Clone, Copy, PartialEq, Eq, Structural)]
pub struct U64(pub(crate) Ptr);

impl FromRaw for U64 {
    closed spec fn from_raw_spec(slice: Slice) -> Self {
        U64(slice.ptr)
    }

    fn from_raw(slice: Slice) -> (r: Self)
        ensures
            r.raw().start() == slice.start(),
            r.raw().size() == 64,
    {
        Self(slice.ptr())
    }
}

impl ToRaw for U64 {
    closed spec fn raw(&self) -> Slice {
        Slice { ptr: self.0, size: 64 }
    }

    fn to_raw(&self) -> (r: Slice) {
        Slice::new_unchecked(self.0, 64)
    }
}

impl Repr<Binary> for U64 {
    const SIZE: usize = 64;

    type Clear = u64;
}

/// A `u128` in binary memory: 128 cells from a pointer.
#[derive(Debug, Clone, Copy, PartialEq, Eq, Structural)]
pub struct U128(pub(crate) Ptr);

impl FromRaw for U128 {
    closed spec fn from_raw_spec(slice: Slice) -> Self {
        U128(slice.ptr)
    }

    fn from_raw(slice: Slice) -> (r: Self)
        ensures
            r.raw().start() == slice.start(),
            r.raw().size() == 128,
    {
        Self(slice.ptr())
    }
}

impl ToRaw for U128 {
    closed spec fn raw(&self) -> Slice {
        Slice { ptr: self.0, size: 128 }
    }

    fn to_raw(&self) -> (r: Slice) {
        Slice::new_unchecked(self.0, 128)
    }
}

impl Repr<Binary> for U128 {
    const SIZE: usize = 128;

    type Clear = u128;
}

} // verus!
