//! Cache geometry and policies.
use vstd::prelude::*;

verus! {

/// When a written value reaches the next level.
#[derive(Debug, Clone, Copy, PartialEq, Eq, Structural)]
pub enum WritePolicy {
    WriteThrough,
    WriteBack,
}

/// Which way of a set is evicted on a miss.
#[derive(Debug, Clone, Copy, PartialEq, Eq, Structural)]
pub enum ReplacementPolicy {
    LRU,
    FIFO,
    Random,
}

/// Geometry and policies of one cache.
#[derive(Debug, Clone, Copy)]
pub struct CacheConfig {
    /// Total size in bytes.
    pub size: usize,
    /// Size of one line in bytes.
    pub lines_size: usize,
    /// Number of ways of each set.
    pub associativity: usize,
    pub write_policy: WritePolicy,
    pub replacement_policy: ReplacementPolicy,
}

} // verus!
