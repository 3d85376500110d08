//! A seeded pseudo-random generator of 128-bit values.
use vstd::prelude::*;
use rand::{Rng, SeedableRng};
use rand_chacha::ChaCha8Rng;

verus! {

#[verifier::external_type_specification]
#[verifier::external_body]
pub struct ExChaCha8Rng(ChaCha8Rng);

/// `ChaCha8Rng::from_seed`: a generator seeded with the 32 bytes `seed`.
#[verifier::external_body]
fn chacha_from_seed(seed: [u8; 32]) -> ChaCha8Rng {
    ChaCha8Rng::from_seed(seed)
}

/// The 32-byte seed made of a 16-byte seed followed by 16 zero bytes.
pub open spec fn padded_seed(seed: Seq<u8>) -> Seq<u8> {
    seed + Seq::new(16, |i: int| 0u8)
}

/// Pads a 16-byte seed with 16 zero bytes.
pub fn pad_seed(seed: [u8; 16]) -> (r: [u8; 32])
    ensures
        r@ == padded_seed(seed@),
{
    let mut full = [0u8; 32];
    let mut i: usize = 0;
    while i < 16
        invariant
            i <= 16,
            forall|j: int| 0 <= j < i ==> full@[j] == seed@[j],
            forall|j: int| 16 <= j < 32 ==> full@[j] == 0u8,
        decreases 16 - i,
    {
        full[i] = seed[i];
        i = i + 1;
    }
    assert(full@ =~= padded_seed(seed@));
    full
}

/// A generator seeded with a 16-byte seed, padded with zeros.
pub(crate) fn rng_from_seed(seed: [u8; 16]) -> ChaCha8Rng {
    chacha_from_seed(pad_seed(seed))
}

/// `ChaCha8Rng::seed_from_u64`: a generator seeded with `seed`.
#[verifier::external_body]
pub(crate) fn rng_seed_from_u64(seed: u64) -> ChaCha8Rng {
    ChaCha8Rng::seed_from_u64(seed)
}

/// `Rng::gen::<u128>`: the next pseudo-random value. Which value comes back
/// depends on the generator's state and is not stated here.
#[verifier::external_body]
pub(crate) fn rng_next_u128(rng: &mut ChaCha8Rng) -> u128 {
    rng.gen()
}

/// `Rng::gen::<bool>`: the next pseudo-random bit. Which bit comes back
/// depends on the generator's state and is not stated here.
#[verifier::external_body]
pub(crate) fn rng_next_bool(rng: &mut ChaCha8Rng) -> bool {
    rng.gen()
}

} // verus!
