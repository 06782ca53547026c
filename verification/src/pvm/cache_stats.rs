//! Hit, miss and traffic counters of a cache.
use vstd::prelude::*;

verus! {

/// Counters kept by a cache.
#[derive(Debug, Clone, Copy)]
pub struct CacheStatistics {
    pub hits: usize,
    pub misses: usize,
    pub write_backs: usize,
    pub invalidations: usize,
    pub coherence_misses: usize,
    pub write_hits: usize,
    pub write_misses: usize,
    pub evictions: usize,
}

impl CacheStatistics {
    /// All counters at zero.
    pub open spec fn spec_zero() -> Self {
        CacheStatistics {
            hits: 0,
            misses: 0,
            write_backs: 0,
            invalidations: 0,
            coherence_misses: 0,
            write_hits: 0,
            write_misses: 0,
            evictions: 0,
        }
    }

    /// All counters at zero.
    pub fn zero() -> (s: Self)
        ensures
            s == Self::spec_zero(),
    {
        CacheStatistics {
            hits: 0,
            misses: 0,
            write_backs: 0,
            invalidations: 0,
            coherence_misses: 0,
            write_hits: 0,
            write_misses: 0,
            evictions: 0,
        }
    }

    /// Adds every counter of `next_level` to the same counter of `self`.
    pub fn merge_with_next_level(&mut self, next_level: &CacheStatistics)
        requires
            old(self).hits + next_level.hits <= usize::MAX,
            old(self).misses + next_level.misses <= usize::MAX,
            old(self).write_backs + next_level.write_backs <= usize::MAX,
            old(self).invalidations + next_level.invalidations <= usize::MAX,
            old(self).coherence_misses + next_level.coherence_misses <= usize::MAX,
            old(self).write_hits + next_level.write_hits <= usize::MAX,
            old(self).write_misses + next_level.write_misses <= usize::MAX,
            old(self).evictions + next_level.evictions <= usize::MAX,
        ensures
            final(self).hits == old(self).hits + next_level.hits,
            final(self).misses == old(self).misses + next_level.misses,
            final(self).write_backs == old(self).write_backs + next_level.write_backs,
            final(self).invalidations == old(self).invalidations + next_level.invalidations,
            final(self).coherence_misses == old(self).coherence_misses
                + next_level.coherence_misses,
            final(self).write_hits == old(self).write_hits + next_level.write_hits,
            final(self).write_misses == old(self).write_misses + next_level.write_misses,
            final(self).evictions == old(self).evictions + next_level.evictions,
    {
        self.hits += next_level.hits;
        self.misses += next_level.misses;
        self.write_backs += next_level.write_backs;
        self.invalidations += next_level.invalidations;
        self.coherence_misses += next_level.coherence_misses;
        self.write_hits += next_level.write_hits;
        self.write_misses += next_level.write_misses;
        self.evictions += next_level.evictions;
    }

    /// Reads that hit or missed.
    pub fn total_accesses(&self) -> (r: usize)
        requires
            self.hits + self.misses <= usize::MAX,
        ensures
            r == self.hits + self.misses,
    {
        self.hits + self.misses
    }
}

impl Default for CacheStatistics {
    fn default() -> (s: Self)
        ensures
            s == Self::spec_zero(),
    {
        Self::zero()
    }
}

} // verus!
