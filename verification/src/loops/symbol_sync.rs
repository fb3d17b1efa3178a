use vstd::prelude::*;

verus! {

/// Symbol timing recovery over blocks of one symbol each.
///
/// No timing error is estimated yet: the first sample of each block stands
/// for the symbol.
pub struct SymbolSync {
    samples_per_a_symbol: usize,
}

impl SymbolSync {
    /// The number of samples that make up one symbol.
    pub closed spec fn samples_per_symbol(&self) -> usize {
        self.samples_per_a_symbol
    }

    /// The number of samples that each block handed to `run` must hold.
    pub fn samples_per_a_symbol(&self) -> (count: usize)
        ensures
            count == self.samples_per_symbol(),
    {
        self.samples_per_a_symbol
    }

    /// Picks the sample that stands for the symbol in `samples`. The block
    /// must hold exactly one symbol.
    pub fn run<T: Copy>(&mut self, samples: &[T]) -> (symbol: T)
        requires
            samples@.len() == old(self).samples_per_symbol(),
            samples@.len() > 0,
        ensures
            symbol == samples@[0],
            *final(self) == *old(self),
    {
        samples[0]
    }

    /// A synchronizer for symbols of `samples_per_a_symbol` samples.
    pub fn new(samples_per_a_symbol: usize) -> (sync: SymbolSync)
        ensures
            sync.samples_per_symbol() == samples_per_a_symbol,
    {
        SymbolSync { samples_per_a_symbol }
    }
}

} // verus!
