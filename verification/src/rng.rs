//! The sampling pseudo-random generator.
//!
//! Rendering draws random numbers everywhere, yet the image must be
//! reproducible: seeding a generator the same way has to give the same
//! draws.  This module wraps the permuted-congruential generator that the
//! renderer samples with (`rand_pcg`'s `Lcg128Xsl64`) and carries a ghost
//! record of its seed and of how many values it has produced, so that
//! every draw is pinned to a deterministic stream.

use vstd::prelude::*;

verus! {

/// The value at position `idx` of the output stream of `Lcg128Xsl64`
/// after `seed_from_u64(seed)`.
///
/// The stream is a pure function of `seed`: `seed_from_u64` expands the
/// seed arithmetically into the generator's initial state, and each
/// `next_u64` permutes the state with fixed constants — no entropy, time
/// or machine detail enters, so the same seed gives the same stream in
/// every process and on every machine.
pub uninterp spec fn pcg64_at(seed: u64, idx: int) -> u64;

/// The first `n` values of the stream that `seed` determines.
pub open spec fn pcg64_stream(seed: u64, n: nat) -> Seq<u64> {
    Seq::new(n, |i: int| pcg64_at(seed, i))
}

#[verifier::external_type_specification]
#[verifier::external_body]
pub struct ExLcg128Xsl64(rand_pcg::Lcg128Xsl64);

/// The renderer's generator: a `Lcg128Xsl64` together with a ghost record
/// of the seed it was built from and of how many values it has produced.
pub struct MainRng {
    inner: rand_pcg::Lcg128Xsl64,
    seed: Ghost<u64>,
    produced: Ghost<int>,
}

impl MainRng {
    /// The seed this generator was last seeded with.
    pub closed spec fn seed(self) -> u64 {
        self.seed@
    }

    /// How many values this generator has produced since it was seeded.
    pub closed spec fn produced(self) -> int {
        self.produced@
    }

    /// Relies on `rand_core::SeedableRng::seed_from_u64` for
    /// `rand_pcg::Lcg128Xsl64`: it derives the generator's state from the
    /// seed alone, deterministically.
    #[verifier::external_body]
    fn seeded(seed: u64) -> (r: MainRng)
        ensures
            r.seed() == seed,
            r.produced() == 0,
    {
        MainRng {
            inner: <rand_pcg::Lcg128Xsl64 as rand::SeedableRng>::seed_from_u64(seed),
            seed: Ghost(seed),
            produced: Ghost(0),
        }
    }

    /// Relies on `rand_core::RngCore::next_u64` for
    /// `rand_pcg::Lcg128Xsl64`: it advances the state with fixed constants
    /// and returns a permutation of it, so the result is the next value of
    /// the stream that the seed determines.
    #[verifier::external_body]
    fn step(&mut self) -> (r: u64)
        ensures
            final(self).seed() == old(self).seed(),
            final(self).produced() == old(self).produced() + 1,
            r == pcg64_at(old(self).seed(), old(self).produced()),
    {
        <rand_pcg::Lcg128Xsl64 as rand::RngCore>::next_u64(&mut self.inner)
    }

    /// A generator at the start of the stream that `seed` determines.
    pub fn from_seed(seed: u64) -> (r: MainRng)
        ensures
            r.seed() == seed,
            r.produced() == 0,
    {
        MainRng::seeded(seed)
    }

    /// The next value of this generator's stream.
    pub fn next_u64(&mut self) -> (r: u64)
        ensures
            final(self).seed() == old(self).seed(),
            final(self).produced() == old(self).produced() + 1,
            r == pcg64_at(old(self).seed(), old(self).produced()),
    {
        self.step()
    }

    /// Restart the generator from `seed`: afterwards it produces the
    /// stream of `seed` from its beginning, whatever it held before.
    pub fn reseed(&mut self, seed: u64)
        ensures
            final(self).seed() == seed,
            final(self).produced() == 0,
    {
        *self = MainRng::seeded(seed);
    }

    /// Draw `n` values: exactly the next `n` positions of this
    /// generator's stream.
    pub fn draw(&mut self, n: usize) -> (r: Vec<u64>)
        ensures
            final(self).seed() == old(self).seed(),
            final(self).produced() == old(self).produced() + n,
            r@ == Seq::new(n as nat, |i: int| pcg64_at(old(self).seed(), old(self).produced() + i)),
    {
        let mut out: Vec<u64> = Vec::new();
        let mut k: usize = 0;
        while k < n
            invariant
                0 <= k <= n,
                self.seed() == old(self).seed(),
                self.produced() == old(self).produced() + k,
                out@ == Seq::new(k as nat, |i: int| pcg64_at(old(self).seed(), old(self).produced() + i)),
            decreases n - k,
        {
            let v = self.next_u64();
            out.push(v);
            k = k + 1;
            proof {
                assert(out@ =~= Seq::new(
                    k as nat,
                    |i: int| pcg64_at(old(self).seed(), old(self).produced() + i),
                ));
            }
        }
        out
    }
}

/// Re-seeding reproduces the draws bit for bit: any two draw sequences
/// taken from generators seeded with the same value are identical.
pub proof fn lemma_reseed_reproduces(seed: u64, n: nat, a: Seq<u64>, b: Seq<u64>)
    requires
        a == pcg64_stream(seed, n),
        b == pcg64_stream(seed, n),
    ensures
        a == b,
{
}

} // verus!
