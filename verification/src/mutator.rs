//! The mutation driver: owns the random source and the probabilistic
//! decisions ("should this pass fix values up?", "should this pass bail out
//! early?") that the mutation protocol consults but does not make itself.

use crate::rng::{next_below, RandomSource};
use vstd::prelude::*;

verus! {

/// Drives generation and mutation passes: holds the injected random source
/// together with the pass-level policy knobs.
pub struct Mutator<R> {
    /// The injected random source.
    pub rng: R,
    /// Chance, in percent, that a mutation pass stops early after any one
    /// field. `0` never bails; `100` (or more) always bails.
    pub early_bail_percent: u64,
    /// Whether post-construction and post-mutation fixup passes run.
    pub fixup_enabled: bool,
}

impl<R: RandomSource> Mutator<R> {
    /// Wraps a random source with the default policy: fixups run, passes
    /// never bail early.
    pub fn new(rng: R) -> (r: Self)
        ensures
            r.rng == rng,
            r.early_bail_percent == 0,
            r.fixup_enabled == true,
    {
        Mutator { rng, early_bail_percent: 0, fixup_enabled: true }
    }

    /// Whether a completed pass should run the fixup normalization.
    pub fn should_fixup(&self) -> (r: bool)
        ensures
            r == self.fixup_enabled,
    {
        self.fixup_enabled
    }

    /// Decides, once per field, whether the running mutation pass should
    /// stop after the field just mutated. The decision is a draw against
    /// `early_bail_percent`, so the two extreme settings are exact: zero
    /// never bails and one hundred or more always bails.
    pub fn should_early_bail_mutation(&mut self) -> (r: bool)
        ensures
            old(self).early_bail_percent == 0 ==> r == false,
            old(self).early_bail_percent >= 100 ==> r == true,
            final(self).early_bail_percent == old(self).early_bail_percent,
            final(self).fixup_enabled == old(self).fixup_enabled,
    {
        if self.early_bail_percent == 0 {
            return false;
        }
        let x = next_below(&mut self.rng, 100);
        x < self.early_bail_percent
    }
}

} // verus!
