//! A seeded pseudo-random stream: the sole source of randomness for map
//! generation. The stream is a deterministic function of the seed, which is
//! what makes whole-map generation reproducible.

use vstd::prelude::*;

verus! {

use rand::rngs::StdRng;
use rand::RngCore;
use rand::SeedableRng;

#[verifier::external_type_specification]
#[verifier::external_body]
pub struct ExStdRng(StdRng);

/// The value returned by the `k`-th `next_u64` call (counting from zero) of
/// a `rand::rngs::StdRng` seeded with `StdRng::seed_from_u64(seed)`.
///
/// `StdRng` in the pinned version of rand is the ChaCha block cipher with 12
/// rounds, keyed from the seed by a fixed PCG32 expansion; its output stream
/// is a pure function of the seed, the same in every process and on every
/// machine, which justifies giving the draws a name.
pub uninterp spec fn rng_draw(seed: u64, k: nat) -> u64;

/// Multiplier of the word-seed fold; an arbitrary odd 64-bit constant.
pub const SEED_FOLD_MULTIPLIER: u64 = 0x100000001b3;

/// One step of the word-seed fold: absorb one word into the accumulator.
pub open spec fn seed_fold_step(acc: u64, word: u64) -> u64 {
    (acc ^ word).wrapping_mul(SEED_FOLD_MULTIPLIER)
}

/// The 64-bit seed that a sequence of seed words folds down to.
pub open spec fn seed_of_words(words: Seq<usize>) -> u64
    decreases words.len(),
{
    if words.len() == 0 {
        0u64
    } else {
        seed_fold_step(seed_of_words(words.drop_last()), words.last() as u64)
    }
}

/// An explicitly owned, seeded pseudo-random generator, threaded by value
/// through each generation step; there is no global randomness. It tracks in
/// ghost state which seed it was built from and how many values it has
/// handed out, so that every draw is pinned down as `rng_draw(seed, k)`.
pub struct MapGenerator {
    rng: StdRng,
    seed: Ghost<u64>,
    drawn: Ghost<nat>,
}

impl MapGenerator {
    /// The 64-bit seed this generator was built from.
    pub closed spec fn seed(self) -> u64 {
        self.seed@
    }

    /// How many values this generator has handed out so far.
    pub closed spec fn drawn(self) -> nat {
        self.drawn@
    }

    /// Relies on `StdRng::seed_from_u64` (rand's `SeedableRng`): it returns
    /// the generator keyed from `seed` by the documented fixed expansion,
    /// with no values drawn yet.
    #[verifier::external_body]
    fn rng_from_u64(seed: u64) -> StdRng {
        StdRng::seed_from_u64(seed)
    }

    /// Relies on `StdRng::next_u64` (rand's `RngCore`), and on the private
    /// invariant of this module: the inner generator of a `MapGenerator` is
    /// always the one seeded with `seed()` after `drawn()` draws — `new_u64`
    /// establishes this and `next_u64`, the only caller here, maintains it —
    /// so the call returns draw number `drawn()` of the stream of `seed()`.
    #[verifier::external_body]
    fn draw_raw(&mut self) -> (r: u64)
        ensures
            final(self).seed() == old(self).seed(),
            final(self).drawn() == old(self).drawn(),
            r == rng_draw(old(self).seed(), old(self).drawn()),
    {
        self.rng.next_u64()
    }

    /// A generator for the stream of the given 64-bit seed.
    pub fn new_u64(seed: u64) -> (r: MapGenerator)
        ensures
            r.seed() == seed,
            r.drawn() == 0,
    {
        MapGenerator { rng: Self::rng_from_u64(seed), seed: Ghost(seed), drawn: Ghost(0) }
    }

    /// A generator seeded from a sequence of words, as map generation
    /// configuration supplies it.
    pub fn new_seed(seed: &[usize]) -> (r: MapGenerator)
        ensures
            r.seed() == seed_of_words(seed@),
            r.drawn() == 0,
    {
        let s = fold_seed(seed);
        MapGenerator::new_u64(s)
    }

    /// Hands out the next value of the stream.
    pub fn next_u64(&mut self) -> (r: u64)
        ensures
            final(self).seed() == old(self).seed(),
            final(self).drawn() == old(self).drawn() + 1,
            r == rng_draw(old(self).seed(), old(self).drawn()),
    {
        let r = self.draw_raw();
        self.drawn = Ghost(self.drawn@ + 1);
        r
    }

    /// Hands out the next value of the stream, truncated to a `usize`.
    pub fn next_usize(&mut self) -> (r: usize)
        ensures
            final(self).seed() == old(self).seed(),
            final(self).drawn() == old(self).drawn() + 1,
            r == rng_draw(old(self).seed(), old(self).drawn()) as usize,
    {
        let r = self.next_u64();
        #[verifier::truncate] (r as usize)
    }
}

/// Folds seed words into a single 64-bit seed, front to back.
pub fn fold_seed(words: &[usize]) -> (r: u64)
    ensures
        r == seed_of_words(words@),
{
    let n = words.len();
    let mut acc: u64 = 0;
    let mut i: usize = 0;
    while i < n
        invariant
            n == words@.len(),
            i <= n,
            acc == seed_of_words(words@.take(i as int)),
        decreases n - i,
    {
        let w = words[i];
        acc = (acc ^ (w as u64)).wrapping_mul(SEED_FOLD_MULTIPLIER);
        proof {
            let pre = words@.take(i as int);
            let post = words@.take(i + 1);
            assert(post.drop_last() =~= pre);
            assert(post.last() == words@[i as int]);
        }
        i = i + 1;
    }
    proof {
        assert(words@.take(n as int) =~= words@);
    }
    acc
}

} // verus!
