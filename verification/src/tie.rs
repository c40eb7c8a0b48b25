//! The deterministic tie-break source.
//!
//! Two interchangeable behaviours behind one type: the `Stable` mode always
//! yields index 0 (the first candidate among ties), the `Seeded` mode draws
//! from a pseudo-random generator initialized once from a caller-supplied
//! 64-bit seed.  Either way a draw is a pure function of the mode and of the
//! sequence of bounds drawn so far, which makes whole runs reproducible.

use vstd::prelude::*;

use crate::models::TieBreak;
use rand::Rng;
use rand::SeedableRng;

verus! {

/// What a bounded draw of the seeded generator returns: a pure function of
/// the seed, of the bounds of all earlier draws, and of this draw's bound.
/// The generator is a fixed, platform-independent algorithm, so the same
/// seed and draw history give the same value in every process.
pub uninterp spec fn seeded_draw(seed: u64, history: Seq<u64>, bound: u64) -> u64;

/// The index a bounded draw yields: 0 in `Stable` mode, the seeded
/// generator's value in `Seeded` mode.
pub open spec fn draw_index(mode: TieBreak, history: Seq<u64>, bound: u64) -> u64 {
    match mode {
        TieBreak::Stable => 0,
        TieBreak::Seeded(seed) => {
            let d = seeded_draw(seed, history, bound);
            if d < bound {
                d
            } else {
                0
            }
        },
    }
}

/// A tie-break source: one is constructed per run from the configured mode
/// and consulted once per tie.  The fields are private so that every value
/// of this type was built by [`TieSource::new`] and mutated only by
/// [`TieSource::draw`]; the contracts below depend on that.
pub struct TieSource {
    mode: TieBreak,
    rng: rand::rngs::StdRng,
    history: Ghost<Seq<u64>>,
}

#[verifier::external_type_specification]
#[verifier::external_body]
pub struct ExStdRng(rand::rngs::StdRng);

/// Relies on `rand::rngs::StdRng::seed_from_u64`: builds a generator whose
/// stream depends on the seed alone.  Nothing is claimed of the returned
/// value itself; what draws from it return is stated by
/// [`TieSource::draw_seeded`].
#[verifier::external_body]
fn rng_from_seed(seed: u64) -> rand::rngs::StdRng {
    rand::rngs::StdRng::seed_from_u64(seed)
}

impl TieSource {
    /// The mode this source was built from.
    pub closed spec fn tie_break(&self) -> TieBreak {
        self.mode
    }

    /// The bounds of all draws made so far, in order.
    pub closed spec fn history(&self) -> Seq<u64> {
        self.history@
    }

    /// A fresh source for one run; no draw has been made yet.
    pub fn new(mode: TieBreak) -> (source: TieSource)
        ensures
            source.tie_break() == mode,
            source.history() == Seq::<u64>::empty(),
    {
        let seed: u64 = match mode {
            TieBreak::Seeded(seed) => seed,
            TieBreak::Stable => 0,
        };
        TieSource { mode, rng: rng_from_seed(seed), history: Ghost(Seq::empty()) }
    }

    /// Relies on `rand::Rng::gen_range` over the generator built by
    /// `StdRng::seed_from_u64`: the value is uniform in `0..bound`, hence
    /// below `bound`, and is a pure function of the seed and of the bounds
    /// drawn before (the generator's stream is fixed by the seed, and how
    /// much of it each bounded draw consumes is fixed by the values and the
    /// bound).  `gen_range` panics on an empty range, so `bound` must be
    /// positive.
    #[verifier::external_body]
    fn draw_seeded(&mut self, bound: u64) -> (r: u64)
        requires
            old(self).tie_break() is Seeded,
            bound >= 1,
        ensures
            final(self).tie_break() == old(self).tie_break(),
            final(self).history() == old(self).history().push(bound),
            r == seeded_draw(old(self).tie_break()->0, old(self).history(), bound),
            r < bound,
    {
        self.rng.gen_range(0..bound)
    }

    /// Draw one bounded index.  The result is below `bound` and is fully
    /// determined by the mode and the draw history, so identical runs make
    /// identical draws.
    pub fn draw(&mut self, bound: u64) -> (r: u64)
        requires
            bound >= 1,
        ensures
            final(self).tie_break() == old(self).tie_break(),
            final(self).history() == old(self).history().push(bound),
            r == draw_index(old(self).tie_break(), old(self).history(), bound),
            r < bound,
    {
        match self.mode {
            TieBreak::Stable => {
                proof {
                    self.history@ = self.history@.push(bound);
                }
                0
            },
            TieBreak::Seeded(_) => self.draw_seeded(bound),
        }
    }
}

} // verus!
