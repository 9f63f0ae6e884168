//! The seeded word stream that drives gradient generation.
//!
//! All randomness of the library comes from the `rand` crate's `StdRng`.
//! Seeded through `SeedableRng::seed_from_u64`, that generator is a pure
//! function of its 64-bit seed (it expands the seed with a fixed PCG32
//! round and then runs the ChaCha block cipher with 12 rounds), so the
//! sequence of words it yields depends on the seed alone. `rng_word`
//! names that sequence; nothing else is assumed about its values.

use rand::RngCore;
use rand::SeedableRng;
use vstd::prelude::*;

verus! {

/// `rand::rngs::StdRng`, declared so that a field may hold one. The
/// type is opaque here: everything known about a value of it is stated
/// on the methods of `SeedStream`.
#[verifier::external_type_specification]
#[verifier::external_body]
pub struct ExStdRng(rand::rngs::StdRng);

/// The `k`-th 64-bit word drawn from a `StdRng` seeded with `seed`.
/// The generator is deterministic, so this is a function of `seed` and
/// `k` alone; no contract says what the words are on given arguments.
pub uninterp spec fn rng_word(seed: u64, k: nat) -> u64;

/// A seeded word stream: a `StdRng` together with its seed and the
/// count of words drawn so far, so that contracts can name each draw.
pub(crate) struct SeedStream {
    rng: rand::rngs::StdRng,
    seed: u64,
    drawn: u64,
}

impl SeedStream {
    /// The seed this stream was built from.
    pub(crate) closed spec fn seed(self) -> u64 {
        self.seed
    }

    /// How many words have been drawn from this stream.
    pub(crate) closed spec fn drawn(self) -> u64 {
        self.drawn
    }

    /// Relies on `rand::rngs::StdRng::seed_from_u64`: building the
    /// generator from a seed is deterministic and draws nothing.
    #[verifier::external_body]
    pub(crate) fn new(seed: u64) -> (s: SeedStream)
        ensures
            s.seed() == seed,
            s.drawn() == 0,
    {
        SeedStream { rng: rand::rngs::StdRng::seed_from_u64(seed), seed, drawn: 0 }
    }

    /// Relies on `rand_core::RngCore::next_u64` for `StdRng` (ChaCha
    /// with 12 rounds): each draw is the next word of the deterministic
    /// sequence fixed by the seed, here named `rng_word(seed, k)`.
    #[verifier::external_body]
    pub(crate) fn next_word(&mut self) -> (w: u64)
        requires
            old(self).drawn() < u64::MAX,
        ensures
            final(self).seed() == old(self).seed(),
            final(self).drawn() == old(self).drawn() + 1,
            w == rng_word(old(self).seed(), old(self).drawn() as nat),
    {
        self.drawn += 1;
        self.rng.next_u64()
    }
}

} // verus!
