//! Set-associative caches, the L1 line cache, and the L1/L2 hierarchy with
//! its miss registers, prefetcher and write buffer.
use vstd::prelude::*;
use rand::Rng;
use crate::pvm::cache_configs::{CacheConfig, ReplacementPolicy, WritePolicy};
use crate::pvm::cache_stats::CacheStatistics;
use crate::pvm::vm_errors::VMError;

verus! {

/// Size in bytes of a cache line.
pub const DEFAULT_LINE_SIZE: usize = 64;

/// Ways a random victim is drawn from.
///
/// Calls `rand::Rng::gen_range` on the thread-local generator with the range
/// `0..n`; its documentation promises a value in that range and a panic on an
/// empty range, which `requires` rules out. Which value comes back is left
/// open.
#[verifier::external_body]
fn random_way(n: usize) -> (r: usize)
    requires
        n > 0,
    ensures
        r < n,
{
    rand::thread_rng().gen_range(0..n)
}

/// Coherence state of a cache line.
#[derive(Debug, Clone, Copy, PartialEq, Eq, Structural)]
pub enum CacheState {
    Modified,
    Exclusive,
    Shared,
    Invalid,
}

impl Default for CacheState {
    fn default() -> (s: Self)
        ensures
            s == CacheState::Invalid,
    {
        CacheState::Invalid
    }
}

/// One line of a set-associative cache.
#[derive(Debug)]
pub struct CacheLine {
    pub tag: u32,
    pub data: Vec<u8>,
    pub valid: bool,
    pub dirty: bool,
    pub last_access: u64,
    pub state: CacheState,
    pub lru_timestamp: u64,
}

impl CacheLine {
    /// An invalid line whose bytes are all zero.
    pub open spec fn is_empty_line(&self) -> bool {
        &&& self.tag == 0
        &&& self.data@ == Seq::new(DEFAULT_LINE_SIZE as nat, |i: int| 0u8)
        &&& !self.valid
        &&& !self.dirty
        &&& self.last_access == 0
        &&& self.state == CacheState::Invalid
        &&& self.lru_timestamp == 0
    }
}

impl Default for CacheLine {
    fn default() -> (l: Self)
        ensures
            l.is_empty_line(),
    {
        let mut data: Vec<u8> = Vec::new();
        let mut i: usize = 0;
        while i < DEFAULT_LINE_SIZE
            invariant
                i <= DEFAULT_LINE_SIZE,
                data@ == Seq::new(i as nat, |k: int| 0u8),
            decreases DEFAULT_LINE_SIZE - i,
        {
            data.push(0);
            i += 1;
        }
        CacheLine {
            tag: 0,
            data,
            valid: false,
            dirty: false,
            last_access: 0,
            state: CacheState::Invalid,
            lru_timestamp: 0,
        }
    }
}

/// Number of sets of a cache with this configuration.
pub open spec fn num_sets_of(c: CacheConfig) -> nat {
    ((c.size as int) / ((c.lines_size as int) * (c.associativity as int))) as nat
}

/// Largest power of two that is at most `n` (1 for `n` of 0 or 1).
pub open spec fn span(n: nat) -> nat
    decreases n,
{
    if n <= 1 {
        1
    } else {
        2 * span(n / 2)
    }
}

/// Configurations a cache can be built from: lines of `DEFAULT_LINE_SIZE`
/// bytes, at least one way and one set, and a geometry whose offset and set
/// bits fit in a 32-bit address.
pub open spec fn config_valid(c: CacheConfig) -> bool {
    &&& c.lines_size == DEFAULT_LINE_SIZE
    &&& c.associativity >= 1
    &&& c.lines_size * c.associativity <= usize::MAX
    &&& num_sets_of(c) >= 1
    &&& DEFAULT_LINE_SIZE * num_sets_of(c) < 0x1_0000_0000
}

/// Smaller of two integers.
pub open spec fn min_int(a: int, b: int) -> int {
    if a <= b {
        a
    } else {
        b
    }
}

/// How many more increments every counter of `s` can take.
pub open spec fn stats_room(s: CacheStatistics) -> int {
    min_int(
        min_int(
            min_int(usize::MAX - s.hits, usize::MAX - s.misses),
            min_int(usize::MAX - s.write_backs, usize::MAX - s.invalidations),
        ),
        min_int(
            min_int(usize::MAX - s.coherence_misses, usize::MAX - s.write_hits),
            min_int(usize::MAX - s.write_misses, usize::MAX - s.evictions),
        ),
    )
}

/// Each counter of `b` is at most one above the same counter of `a`.
pub open spec fn stats_step(a: CacheStatistics, b: CacheStatistics) -> bool {
    &&& a.hits <= b.hits <= a.hits + 1
    &&& a.misses <= b.misses <= a.misses + 1
    &&& a.write_backs <= b.write_backs <= a.write_backs + 1
    &&& a.invalidations <= b.invalidations <= a.invalidations + 1
    &&& a.coherence_misses <= b.coherence_misses <= a.coherence_misses + 1
    &&& a.write_hits <= b.write_hits <= a.write_hits + 1
    &&& a.write_misses <= b.write_misses <= a.write_misses + 1
    &&& a.evictions <= b.evictions <= a.evictions + 1
}

/// Ways a level forwards to the next one per operation at most: a write-back
/// of a whole line and the access itself.
pub open spec fn fan_out() -> int {
    65
}

/// Decoded parts of an address: set index, tag and offset in the line.
pub open spec fn spec_decode(c: CacheConfig, addr: u32) -> (int, u32, int) {
    let sp = span(num_sets_of(c));
    let line = DEFAULT_LINE_SIZE as int;
    (((addr as int) / line) % (sp as int), ((addr as int) / (line * sp)) as u32, (addr as int)
        % line)
}

/// Validity bit and tag of each line of a set.
pub open spec fn keys_of(set: Seq<CacheLine>) -> Seq<(bool, u32)> {
    set.map_values(|l: CacheLine| (l.valid, l.tag))
}

/// Way among the first `assoc` keys whose line is valid and tagged `t`, if
/// any.
pub open spec fn way_in(keys: Seq<(bool, u32)>, assoc: int, t: u32) -> Option<int> {
    if exists|w: int| 0 <= w < assoc && #[trigger] keys[w] == (true, t) {
        Some(choose|w: int| 0 <= w < assoc && #[trigger] keys[w] == (true, t))
    } else {
        None
    }
}

/// A set-associative cache, possibly backed by a next level.
#[derive(Debug)]
pub struct Cache {
    pub config: CacheConfig,
    pub lines: Vec<Vec<CacheLine>>,
    pub access_count: u64,
    pub statistics: CacheStatistics,
    pub next_level: Option<Box<Cache>>,
}

impl Cache {
    /// Number of levels below this one.
    pub open spec fn depth(&self) -> nat
        decreases *self,
    {
        match self.next_level {
            Some(n) => 1 + n.depth(),
            None => 0,
        }
    }

    /// The line at way `w` of set `s`.
    #[verifier::inline]
    pub open spec fn line(&self, s: int, w: int) -> CacheLine {
        self.lines@[s]@[w]
    }

    /// The span of set indices: the power of two that set indices are taken
    /// modulo.
    pub open spec fn set_span(&self) -> nat {
        span(num_sets_of(self.config))
    }

    /// Invariant of this level alone.
    pub open spec fn local_wf(&self) -> bool {
        &&& config_valid(self.config)
        &&& self.lines@.len() == num_sets_of(self.config)
        &&& forall|s: int|
            0 <= s < self.lines@.len() ==> #[trigger] self.lines@[s]@.len()
                == self.config.associativity
        &&& forall|s: int, w: int|
            0 <= s < self.lines@.len() && 0 <= w < self.config.associativity ==> {
                &&& (#[trigger] self.line(s, w)).data@.len() == DEFAULT_LINE_SIZE
                &&& self.line(s, w).valid ==> self.line(s, w).state != CacheState::Invalid
                &&& (self.line(s, w).tag as int) * (DEFAULT_LINE_SIZE * self.set_span())
                    < 0x1_0000_0000
            }
        &&& forall|s: int, w1: int, w2: int|
            0 <= s < self.lines@.len() && 0 <= w1 < self.config.associativity && 0 <= w2
                < self.config.associativity && #[trigger] self.line(s, w1).valid
                && #[trigger] self.line(s, w2).valid && self.line(s, w1).tag == self.line(
                s,
                w2,
            ).tag ==> w1 == w2
    }

    /// Invariant of this level and every level below it.
    pub open spec fn wf(&self) -> bool
        decreases *self,
    {
        &&& self.local_wf()
        &&& match self.next_level {
            Some(n) => n.wf(),
            None => true,
        }
    }

    /// How many more operations this level and those below can take before a
    /// counter overflows.
    pub open spec fn headroom(&self) -> int
        decreases *self,
    {
        let local = min_int(stats_room(self.statistics), u64::MAX - self.access_count);
        match self.next_level {
            Some(n) => min_int(local, n.headroom() / fan_out()),
            None => local,
        }
    }

    /// Way of set `s` that holds a valid line tagged `t`, if any.
    pub open spec fn way_of(&self, s: int, t: u32) -> Option<int> {
        way_in(keys_of(self.lines@[s]@), self.config.associativity as int, t)
    }

    /// Byte this level holds for `addr`, if its line is present.
    pub open spec fn lookup(&self, addr: u32) -> Option<u8> {
        let (s, t, o) = spec_decode(self.config, addr);
        match self.way_of(s, t) {
            Some(w) => Some(self.line(s, w).data@[o]),
            None => None,
        }
    }

    /// Byte a read of `addr` finds: the first level down the hierarchy that
    /// holds it.
    pub open spec fn read_value(&self, addr: u32) -> Option<u8>
        decreases *self,
    {
        match self.lookup(addr) {
            Some(b) => Some(b),
            None => match self.next_level {
                Some(n) => n.read_value(addr),
                None => None,
            },
        }
    }
}

/// Facts about `span`: a power of two between 1 and `n`.
pub proof fn lemma_span(n: nat)
    ensures
        span(n) >= 1,
        n >= 1 ==> span(n) <= n,
    decreases n,
{
    if n > 1 {
        lemma_span(n / 2);
    }
}

/// Two to the power `j`.
pub open spec fn pow2n(j: nat) -> nat
    decreases j,
{
    if j == 0 {
        1
    } else {
        2 * pow2n((j - 1) as nat)
    }
}

/// `span(n)` divides every power of two that is at least `n`.
pub proof fn lemma_span_divides(n: nat, j: nat) -> (q: nat)
    requires
        n <= pow2n(j),
    ensures
        q * span(n) == pow2n(j),
    decreases j,
{
    if n <= 1 {
        assert(span(n) == 1);
        assert(pow2n(j) * span(n) == pow2n(j)) by (nonlinear_arith)
            requires
                span(n) == 1,
        ;
        pow2n(j)
    } else {
        assert(j >= 1) by {
            if j == 0 {
                assert(pow2n(0) == 1);
            }
        }
        let q0 = lemma_span_divides(n / 2, (j - 1) as nat);
        assert(q0 * (2 * span(n / 2)) == 2 * (q0 * span(n / 2))) by (nonlinear_arith);
        assert(span(n) == 2 * span(n / 2));
        assert(pow2n(j) == 2 * pow2n((j - 1) as nat));
        q0
    }
}

/// Facts about the geometry of a valid configuration.
pub proof fn lemma_geometry(c: CacheConfig) -> (q: nat)
    requires
        config_valid(c),
    ensures
        c.lines_size * c.associativity > 0,
        span(num_sets_of(c)) <= num_sets_of(c),
        span(num_sets_of(c)) >= 1,
        q * (DEFAULT_LINE_SIZE * span(num_sets_of(c))) == 0x1_0000_0000,
{
    lemma_span(num_sets_of(c));
    assert(c.lines_size * c.associativity > 0) by (nonlinear_arith)
        requires
            c.lines_size == 64,
            c.associativity >= 1,
    ;
    assert(pow2n(26) == 0x400_0000) by {
        reveal_with_fuel(pow2n, 27);
    }
    let q = lemma_span_divides(num_sets_of(c), 26);
    assert(q * (DEFAULT_LINE_SIZE * span(num_sets_of(c))) == 0x1_0000_0000) by (nonlinear_arith)
        requires
            q * span(num_sets_of(c)) == 0x400_0000,
    ;
    q
}

/// Largest power of two at most `n`, for `n >= 1`.
fn compute_span(n: usize) -> (p: usize)
    requires
        n >= 1,
    ensures
        p == span(n as nat),
{
    let mut m: usize = n;
    let mut p: usize = 1;
    proof {
        lemma_span(n as nat);
    }
    while m > 1
        invariant
            1 <= m <= n,
            1 <= p,
            p * span(m as nat) == span(n as nat),
            span(n as nat) <= n,
        decreases m,
    {
        proof {
            lemma_span((m / 2) as nat);
            assert(span(m as nat) == 2 * span((m / 2) as nat));
            assert(p * span(m as nat) == (2 * p) * span((m / 2) as nat)) by (nonlinear_arith)
                requires
                    span(m as nat) == 2 * span((m / 2) as nat),
            ;
            assert(2 * p <= p * span(m as nat)) by (nonlinear_arith)
                requires
                    span(m as nat) >= 2,
                    p >= 1,
            ;
        }
        p = 2 * p;
        m = m / 2;
    }
    assert(span(m as nat) == 1);
    assert(p * span(m as nat) == p) by (nonlinear_arith)
        requires
            span(m as nat) == 1,
    ;
    p
}

impl Cache {
    /// A cache whose lines are all invalid, in front of `next_level`.
    pub fn new(config: CacheConfig, next_level: Option<Box<Cache>>) -> (c: Self)
        requires
            config_valid(config),
            next_level matches Some(n) ==> n.wf(),
        ensures
            c.wf(),
            c.config == config,
            c.next_level == next_level,
            c.access_count == 0,
            c.statistics == CacheStatistics::spec_zero(),
            forall|s: int, w: int|
                0 <= s < num_sets_of(config) && 0 <= w < config.associativity
                    ==> #[trigger] c.line(s, w).is_empty_line(),
    {
        let num_sets = config.size / (config.lines_size * config.associativity);
        let mut lines: Vec<Vec<CacheLine>> = Vec::with_capacity(num_sets);
        let mut i: usize = 0;
        while i < num_sets
            invariant
                i <= num_sets,
                num_sets == num_sets_of(config),
                config_valid(config),
                lines@.len() == i,
                forall|s: int| 0 <= s < i ==> #[trigger] lines@[s]@.len() == config.associativity,
                forall|s: int, w: int|
                    0 <= s < i && 0 <= w < config.associativity
                        ==> #[trigger] lines@[s]@[w].is_empty_line(),
            decreases num_sets - i,
        {
            let mut set: Vec<CacheLine> = Vec::with_capacity(config.associativity);
            let mut j: usize = 0;
            while j < config.associativity
                invariant
                    j <= config.associativity,
                    set@.len() == j,
                    forall|w: int| 0 <= w < j ==> #[trigger] set@[w].is_empty_line(),
                decreases config.associativity - j,
            {
                set.push(CacheLine::default());
                j += 1;
            }
            lines.push(set);
            i += 1;
        }
        let c = Cache {
            config,
            lines,
            access_count: 0,
            statistics: CacheStatistics::zero(),
            next_level,
        };
        proof {
            lemma_span(num_sets_of(config));
            assert forall|s: int, w: int|
                0 <= s < num_sets_of(config) && 0 <= w < config.associativity
                    implies #[trigger] c.line(s, w).is_empty_line() by {
                assert(c.lines@[s]@[w].is_empty_line());
            }
            assert forall|s: int, w: int|
                0 <= s < c.lines@.len() && 0 <= w < c.config.associativity implies {
                    &&& (#[trigger] c.line(s, w)).data@.len() == DEFAULT_LINE_SIZE
                    &&& c.line(s, w).valid ==> c.line(s, w).state != CacheState::Invalid
                    &&& (c.line(s, w).tag as int) * (DEFAULT_LINE_SIZE * c.set_span())
                        < 0x1_0000_0000
                } by {
                assert(c.line(s, w).is_empty_line());
            }
            assert(config_valid(c.config));
            assert(c.lines@.len() == num_sets_of(c.config));
            assert(forall|s: int|
                0 <= s < c.lines@.len() ==> #[trigger] c.lines@[s]@.len()
                    == c.config.associativity);
            assert forall|s: int, w1: int, w2: int|
                0 <= s < c.lines@.len() && 0 <= w1 < c.config.associativity && 0 <= w2
                    < c.config.associativity && #[trigger] c.line(s, w1).valid
                    && #[trigger] c.line(s, w2).valid && c.line(s, w1).tag == c.line(
                    s,
                    w2,
                ).tag implies w1 == w2 by {
                assert(c.line(s, w1).is_empty_line());
            }
            assert(c.local_wf());
        }
        c
    }
}

/// The way LRU replacement picks in a set: the first invalid way if there
/// is one, else the first way with the smallest access stamp.
pub open spec fn lru_choice(set: Seq<CacheLine>, r: int) -> bool {
    &&& 0 <= r < set.len()
    &&& if exists|j: int| 0 <= j < set.len() && !(#[trigger] set[j]).valid {
        &&& !set[r].valid
        &&& forall|j: int| 0 <= j < r ==> (#[trigger] set[j]).valid
    } else {
        &&& forall|j: int| 0 <= j < set.len() ==> set[r].last_access <= (#[trigger] set[j]).last_access
        &&& forall|j: int| 0 <= j < r ==> set[r].last_access < (#[trigger] set[j]).last_access
    }
}

/// The configuration writes back, rather than through.
pub open spec fn writes_back(c: CacheConfig) -> bool {
    c.write_policy == WritePolicy::WriteBack
}

/// The two lines agree on every field.
pub open spec fn same_line(x: CacheLine, y: CacheLine) -> bool {
    &&& x.tag == y.tag
    &&& x.valid == y.valid
    &&& x.dirty == y.dirty
    &&& x.state == y.state
    &&& x.last_access == y.last_access
    &&& x.data@ == y.data@
}

impl Cache {
    /// A miss at `addr` allocated way `w` of its set, taking `a` to `b`: the
    /// way is one the replacement policy may pick (for LRU the first invalid
    /// way, else the least recently used; for FIFO the access count modulo
    /// the ways), every other way of the set is unchanged, the way now holds
    /// the line of `addr` and keeps the evicted line's other bytes, and, when
    /// `kept` holds, the evicted line's bytes were written to the next level
    /// if it was valid and dirty. The other sets are untouched, and the way is
    /// stamped with the access count, which went up by one.
    pub open spec fn allocated(a: Cache, b: Cache, addr: u32, w: int, kept: bool) -> bool {
        let s = spec_decode(a.config, addr).0;
        let o = spec_decode(a.config, addr).2;
        let old_line = a.line(s, w);
        &&& 0 <= w < a.config.associativity
        &&& a.config.replacement_policy == ReplacementPolicy::LRU ==> lru_choice(a.lines@[s]@, w)
        &&& a.config.replacement_policy == ReplacementPolicy::FIFO ==> w == (a.access_count as usize)
            % a.config.associativity
        &&& forall|w2: int|
            0 <= w2 < a.config.associativity && w2 != w ==> same_line(#[trigger] b.line(s, w2), a.line(s, w2))
        &&& b.config == a.config
        &&& b.lines@.len() == a.lines@.len()
        &&& forall|s2: int|
            0 <= s2 < a.lines@.len() && s2 != s ==> #[trigger] b.lines@[s2] == a.lines@[s2]
        &&& b.access_count == a.access_count + 1
        &&& b.line(s, w).last_access == b.access_count
        &&& b.line(s, w).valid
        &&& b.line(s, w).tag == spec_decode(a.config, addr).1
        &&& forall|k: int|
            0 <= k < DEFAULT_LINE_SIZE && k != o ==> #[trigger] b.line(s, w).data@[k] == old_line.data@[k]
        &&& (kept && old_line.valid && old_line.dirty) ==> (b.next_level matches Some(n) ==> forall|i: int|
            0 <= i < DEFAULT_LINE_SIZE ==> #[trigger] n.lookup(
                (set_line_base(a.set_span(), s, old_line.tag) + i) as u32,
            ) == Some(old_line.data@[i]))
    }
}

impl Cache {
    /// A read hit at `addr` took `a` to `b`: the access count went up by one
    /// and the line holding `addr` is stamped with it; nothing else changed.
    pub open spec fn refreshed(a: Cache, b: Cache, addr: u32) -> bool {
        let s = spec_decode(a.config, addr).0;
        let t = spec_decode(a.config, addr).1;
        let w = a.way_of(s, t)->0;
        &&& a.way_of(s, t) is Some
        &&& b.config == a.config
        &&& b.access_count == a.access_count + 1
        &&& b.lines@.len() == a.lines@.len()
        &&& forall|s2: int|
            0 <= s2 < a.lines@.len() && s2 != s ==> #[trigger] b.lines@[s2] == a.lines@[s2]
        &&& b.lines@[s]@.len() == a.lines@[s]@.len()
        &&& forall|w2: int|
            0 <= w2 < a.lines@[s]@.len() && w2 != w ==> #[trigger] b.line(s, w2) == a.line(s, w2)
        &&& b.line(s, w).tag == a.line(s, w).tag
        &&& b.line(s, w).valid == a.line(s, w).valid
        &&& b.line(s, w).dirty == a.line(s, w).dirty
        &&& b.line(s, w).state == a.line(s, w).state
        &&& b.line(s, w).data@ == a.line(s, w).data@
        &&& b.line(s, w).last_access == b.access_count
    }
}

impl Cache {
    /// Number of sets.
    fn num_sets(&self) -> (r: usize)
        requires
            config_valid(self.config),
        ensures
            r == num_sets_of(self.config),
            r >= 1,
    {
        proof {
            lemma_geometry(self.config);
        }
        self.config.size / (self.config.lines_size * self.config.associativity)
    }

    /// Splits an address into set index, tag and offset in the line.
    fn decode_address(&self, addr: u32) -> (r: (usize, u32, usize))
        requires
            self.local_wf(),
        ensures
            (r.0 as int, r.1, r.2 as int) == spec_decode(self.config, addr),
            r.0 < self.lines@.len(),
            r.0 < self.set_span(),
            r.2 < DEFAULT_LINE_SIZE,
            (r.1 as int) * (DEFAULT_LINE_SIZE * self.set_span()) < 0x1_0000_0000,
    {
        let num_sets = self.num_sets();
        let sp = compute_span(num_sets);
        proof {
            lemma_span(num_sets as nat);
        }
        let sp32 = sp as u32;
        let line: u32 = 64;
        let offset = (addr % line) as usize;
        let set_index = ((addr / line) % sp32) as usize;
        let tag = addr / (line * sp32);
        proof {
            let d = (64 * sp) as int;
            assert((addr as int / d) * d <= addr as int) by (nonlinear_arith)
                requires
                    d > 0,
            ;
        }
        (set_index, tag, offset)
    }

    /// First way of set `set_index` holding a valid line tagged `tag`.
    fn find_line_index(&self, set_index: usize, tag: u32) -> (r: Option<usize>)
        requires
            self.local_wf(),
            set_index < self.lines@.len(),
        ensures
            r.is_some() == self.way_of(set_index as int, tag).is_some(),
            r matches Some(w) ==> {
                &&& w < self.config.associativity
                &&& self.line(set_index as int, w as int).valid
                &&& self.line(set_index as int, w as int).tag == tag
                &&& self.way_of(set_index as int, tag) == Some(w as int)
            },
    {
        let set = &self.lines[set_index];
        let mut i: usize = 0;
        while i < set.len()
            invariant
                self.local_wf(),
                set_index < self.lines@.len(),
                *set == self.lines@[set_index as int],
                set@.len() == self.config.associativity,
                i <= set@.len(),
                forall|j: int|
                    0 <= j < i ==> !(#[trigger] self.line(set_index as int, j)).valid
                        || self.line(set_index as int, j).tag != tag,
            decreases set@.len() - i,
        {
            if set[i].valid && set[i].tag == tag {
                proof {
                    let s = set_index as int;
                    let keys = keys_of(self.lines@[s]@);
                    assert(keys[i as int] == (true, tag));
                    let w = choose|w: int|
                        0 <= w < self.config.associativity && #[trigger] keys[w] == (true, tag);
                    assert(keys[w] == (true, tag));
                    assert(self.line(s, w).valid);
                }
                return Some(i);
            }
            i += 1;
        }
        None
    }

    /// Way of set `set_index` to evict, following the replacement policy.
    fn select_victim(&self, set_index: usize) -> (r: usize)
        requires
            self.local_wf(),
            set_index < self.lines@.len(),
        ensures
            r < self.config.associativity,
            self.config.replacement_policy == ReplacementPolicy::LRU ==> lru_choice(
                self.lines@[set_index as int]@,
                r as int,
            ),
            self.config.replacement_policy == ReplacementPolicy::FIFO ==> r == (
            self.access_count as usize) % self.config.associativity,
    {
        match self.config.replacement_policy {
            ReplacementPolicy::LRU => {
                let set = &self.lines[set_index];
                let mut min_access: u64 = u64::MAX;
                let mut victim: usize = 0;
                let mut i: usize = 0;
                while i < set.len()
                    invariant
                        set@.len() == self.config.associativity,
                        *set == self.lines@[set_index as int],
                        self.config.replacement_policy == ReplacementPolicy::LRU,
                        set@.len() >= 1,
                        i <= set@.len(),
                        victim < set@.len(),
                        forall|j: int| 0 <= j < i ==> (#[trigger] set@[j]).valid,
                        i > 0 ==> min_access == set@[victim as int].last_access,
                        i > 0 ==> victim < i,
                        i == 0 ==> victim == 0 && min_access == u64::MAX,
                        forall|j: int| 0 <= j < i ==> min_access <= (#[trigger] set@[j]).last_access,
                        forall|j: int| 0 <= j < victim ==> min_access < (#[trigger] set@[j]).last_access,
                    decreases set@.len() - i,
                {
                    if !set[i].valid {
                        return i;
                    }
                    if set[i].last_access < min_access {
                        min_access = set[i].last_access;
                        victim = i;
                    }
                    i += 1;
                }
                proof {
                    if set@[victim as int].last_access == u64::MAX && victim == 0 {
                    }
                }
                victim
            },
            ReplacementPolicy::FIFO => {
                (self.access_count as usize) % self.config.associativity
            },
            ReplacementPolicy::Random => {
                random_way(self.config.associativity)
            },
        }
    }

    /// Base address of the line tagged `tag` in set `set_index`.
    fn reconstruct_address(&self, set_index: usize, tag: u32) -> (r: u32)
        requires
            self.local_wf(),
            set_index < self.set_span(),
            (tag as int) * (DEFAULT_LINE_SIZE * self.set_span()) < 0x1_0000_0000,
        ensures
            r as int == (tag as int) * (DEFAULT_LINE_SIZE * self.set_span()) + (set_index as int)
                * DEFAULT_LINE_SIZE,
            r as int + DEFAULT_LINE_SIZE <= 0x1_0000_0000,
    {
        let num_sets = self.num_sets();
        let sp = compute_span(num_sets);
        proof {
            let q = lemma_geometry(self.config);
            let d = (64 * sp) as int;
            assert((tag as int) * d + d <= 0x1_0000_0000) by (nonlinear_arith)
                requires
                    (tag as int) * d < 0x1_0000_0000,
                    d > 0,
                    q * d == 0x1_0000_0000,
            ;
            assert((set_index as int) * 64 + 64 <= d) by (nonlinear_arith)
                requires
                    set_index < sp,
                    d == 64 * sp,
            ;
        }
        let line: u32 = 64;
        let sp32 = sp as u32;
        tag * (line * sp32) + (set_index as u32) * line
    }
}

/// What a read finds for a byte: the byte widened to `u64`, or a miss in
/// the last level.
pub open spec fn read_result(v: Option<u8>) -> Result<u64, VMError> {
    match v {
        Some(b) => Ok(b as u64),
        None => Err(VMError::CacheMissInLastLevel),
    }
}

/// The invariant depends on the configuration, the lines and the levels
/// below, not on the counters.
pub proof fn lemma_wf_frame(a: Cache, b: Cache)
    requires
        a.wf(),
        b.config == a.config,
        b.lines == a.lines,
        b.next_level == a.next_level,
    ensures
        b.wf(),
        b.depth() == a.depth(),
{
    assert(b.lines@ == a.lines@);
    assert(b.local_wf());
    assert(b.next_level == a.next_level);
    match b.next_level {
        Some(n) => {
            assert(n.wf());
        },
        None => {},
    }
}

/// Bounds of the decoded parts of an address.
pub proof fn lemma_decode_bounds(c: CacheConfig, addr: u32)
    requires
        config_valid(c),
    ensures
        0 <= spec_decode(c, addr).0 < span(num_sets_of(c)),
        span(num_sets_of(c)) <= num_sets_of(c),
        0 <= spec_decode(c, addr).2 < DEFAULT_LINE_SIZE,
        (spec_decode(c, addr).1 as int) * (DEFAULT_LINE_SIZE * span(num_sets_of(c)))
            < 0x1_0000_0000,
{
    lemma_span(num_sets_of(c));
    let d = (DEFAULT_LINE_SIZE * span(num_sets_of(c))) as int;
    assert(((addr as int) / d) * d <= addr as int) by (nonlinear_arith)
        requires
            d > 0,
    ;
    assert(((addr as int) / d) as u32 == (addr as int) / d) by (nonlinear_arith)
        requires
            d > 0,
            0 <= addr < 0x1_0000_0000,
    ;
}

/// Two lines agree on what lookups and replacement look at: validity, tag,
/// stamp and bytes.
pub open spec fn alike_lines(a: CacheLine, b: CacheLine) -> bool {
    &&& a.valid == b.valid
    &&& a.tag == b.tag
    &&& a.last_access == b.last_access
    &&& a.data@ == b.data@
}

/// Two levels agree on everything a lookup or a replacement looks at: the
/// configuration, the access count and every line up to `alike_lines`.
pub open spec fn alike(x: Cache, y: Cache) -> bool {
    &&& x.config == y.config
    &&& x.access_count == y.access_count
    &&& x.lines@.len() == y.lines@.len()
    &&& forall|s: int| 0 <= s < x.lines@.len() ==> #[trigger] x.lines@[s]@.len() == y.lines@[s]@.len()
    &&& forall|s: int, w: int|
        0 <= s < x.lines@.len() && 0 <= w < x.lines@[s]@.len() ==> alike_lines(
            #[trigger] x.line(s, w),
            y.line(s, w),
        )
}

/// Alike levels look up alike: the same way and the same byte.
pub proof fn lemma_alike_lookup(x: Cache, y: Cache, addr: u32)
    requires
        x.local_wf(),
        alike(x, y),
    ensures
        x.way_of(spec_decode(x.config, addr).0, spec_decode(x.config, addr).1) == y.way_of(
            spec_decode(y.config, addr).0,
            spec_decode(y.config, addr).1,
        ),
        x.lookup(addr) == y.lookup(addr),
{
    lemma_decode_bounds(x.config, addr);
    let (s, t, o) = spec_decode(x.config, addr);
    assert(keys_of(x.lines@[s]@) =~= keys_of(y.lines@[s]@)) by {
        assert forall|i: int| 0 <= i < x.lines@[s]@.len() implies #[trigger] keys_of(x.lines@[s]@)[i]
            == keys_of(y.lines@[s]@)[i] by {
            assert(alike_lines(x.line(s, i), y.line(s, i)));
        }
    }
    match x.way_of(s, t) {
        Some(w) => {
            assert(alike_lines(x.line(s, w), y.line(s, w)));
        },
        None => {},
    }
}

/// The way LRU picks is unique.
pub proof fn lemma_lru_unique(a: Seq<CacheLine>, b: Seq<CacheLine>, r1: int, r2: int)
    requires
        a.len() == b.len(),
        forall|j: int|
            0 <= j < a.len() ==> #[trigger] a[j].valid == b[j].valid && a[j].last_access
                == b[j].last_access,
        lru_choice(a, r1),
        lru_choice(b, r2),
    ensures
        r1 == r2,
{
    assert(a[r1].valid == b[r1].valid && a[r2].valid == b[r2].valid);
    assert(a[r1].last_access == b[r1].last_access && a[r2].last_access == b[r2].last_access);
    if exists|j: int| 0 <= j < a.len() && !(#[trigger] a[j]).valid {
        let j = choose|j: int| 0 <= j < a.len() && !(#[trigger] a[j]).valid;
        assert(!b[j].valid);
        if r1 < r2 {
            assert(b[r1].valid);
        } else if r2 < r1 {
            assert(a[r2].valid);
        }
    } else {
        assert forall|j: int| 0 <= j < b.len() implies (#[trigger] b[j]).valid by {
            assert(a[j].valid);
        }
        if r1 < r2 {
            assert(b[r2].last_access < b[r1].last_access);
            assert(a[r1].last_access <= a[r2].last_access);
        } else if r2 < r1 {
            assert(a[r1].last_access < a[r2].last_access);
            assert(b[r2].last_access <= b[r1].last_access);
        }
    }
}

/// Allocations of the same address in alike levels, under a policy that
/// picks its way (LRU or FIFO), leave alike levels once they hold the same
/// byte for the address.
pub proof fn lemma_allocated_alike(
    a1: Cache,
    a2: Cache,
    b1: Cache,
    b2: Cache,
    addr: u32,
    w1: int,
    w2: int,
    k1: bool,
    k2: bool,
)
    requires
        a1.local_wf(),
        a2.local_wf(),
        b1.local_wf(),
        b2.local_wf(),
        alike(a1, a2),
        a1.config.replacement_policy != ReplacementPolicy::Random,
        Cache::allocated(a1, b1, addr, w1, k1),
        Cache::allocated(a2, b2, addr, w2, k2),
        b1.lookup(addr) == b2.lookup(addr),
    ensures
        alike(b1, b2),
{
    lemma_decode_bounds(a1.config, addr);
    let (s, t, o) = spec_decode(a1.config, addr);
    if a1.config.replacement_policy == ReplacementPolicy::LRU {
        assert forall|j: int| 0 <= j < a1.lines@[s]@.len() implies #[trigger] a1.lines@[s]@[j].valid
            == a2.lines@[s]@[j].valid && a1.lines@[s]@[j].last_access
            == a2.lines@[s]@[j].last_access by {
            assert(alike_lines(a1.line(s, j), a2.line(s, j)));
        }
        lemma_lru_unique(a1.lines@[s]@, a2.lines@[s]@, w1, w2);
    }
    assert(w1 == w2);
    let w = w1;
    lemma_lookup_hit(b1, addr, w);
    lemma_lookup_hit(b2, addr, w);
    assert forall|s2: int| 0 <= s2 < b1.lines@.len() implies #[trigger] b1.lines@[s2]@.len()
        == b2.lines@[s2]@.len() by {
    }
    assert forall|s2: int, w3: int|
        0 <= s2 < b1.lines@.len() && 0 <= w3 < b1.lines@[s2]@.len() implies alike_lines(
        #[trigger] b1.line(s2, w3),
        b2.line(s2, w3),
    ) by {
        if s2 != s {
            assert(b1.lines@[s2] == a1.lines@[s2]);
            assert(b2.lines@[s2] == a2.lines@[s2]);
            assert(alike_lines(a1.line(s2, w3), a2.line(s2, w3)));
        } else if w3 != w {
            assert(same_line(b1.line(s2, w3), a1.line(s2, w3)));
            assert(same_line(b2.line(s2, w3), a2.line(s2, w3)));
            assert(alike_lines(a1.line(s2, w3), a2.line(s2, w3)));
        } else {
            assert(alike_lines(a1.line(s, w), a2.line(s, w)));
            assert(b1.line(s, w).data@ =~= b2.line(s, w).data@) by {
                assert forall|k: int| 0 <= k < DEFAULT_LINE_SIZE implies b1.line(s, w).data@[k]
                    == b2.line(s, w).data@[k] by {
                    if k != o {
                        assert(b1.line(s, w).data@[k] == a1.line(s, w).data@[k]);
                        assert(b2.line(s, w).data@[k] == a2.line(s, w).data@[k]);
                    }
                }
            }
        }
    }
}

/// Read hits of the same address in alike levels leave alike levels.
pub proof fn lemma_refreshed_alike(a1: Cache, a2: Cache, b1: Cache, b2: Cache, addr: u32)
    requires
        a1.local_wf(),
        alike(a1, a2),
        Cache::refreshed(a1, b1, addr),
        Cache::refreshed(a2, b2, addr),
    ensures
        alike(b1, b2),
{
    lemma_alike_lookup(a1, a2, addr);
    lemma_decode_bounds(a1.config, addr);
    let (s, t, o) = spec_decode(a1.config, addr);
    let w = a1.way_of(s, t)->0;
    assert forall|s2: int| 0 <= s2 < b1.lines@.len() implies #[trigger] b1.lines@[s2]@.len()
        == b2.lines@[s2]@.len() by {
        if s2 != s {
            assert(b1.lines@[s2] == a1.lines@[s2]);
            assert(b2.lines@[s2] == a2.lines@[s2]);
        }
    }
    assert forall|s2: int, w3: int|
        0 <= s2 < b1.lines@.len() && 0 <= w3 < b1.lines@[s2]@.len() implies alike_lines(
        #[trigger] b1.line(s2, w3),
        b2.line(s2, w3),
    ) by {
        if s2 != s {
            assert(b1.lines@[s2] == a1.lines@[s2]);
            assert(b2.lines@[s2] == a2.lines@[s2]);
            assert(alike_lines(a1.line(s2, w3), a2.line(s2, w3)));
        } else if w3 != w {
            assert(b1.line(s2, w3) == a1.line(s2, w3));
            assert(b2.line(s2, w3) == a2.line(s2, w3));
            assert(alike_lines(a1.line(s2, w3), a2.line(s2, w3)));
        } else {
            assert(alike_lines(a1.line(s, w), a2.line(s, w)));
        }
    }
}

/// A valid line tagged like `addr` in the set of `addr` is the line a lookup
/// of `addr` reads.
pub proof fn lemma_lookup_hit(c: Cache, addr: u32, w: int)
    requires
        c.local_wf(),
        0 <= w < c.config.associativity,
        c.line(spec_decode(c.config, addr).0, w).valid,
        c.line(spec_decode(c.config, addr).0, w).tag == spec_decode(c.config, addr).1,
    ensures
        c.way_of(spec_decode(c.config, addr).0, spec_decode(c.config, addr).1) == Some(w),
        c.lookup(addr) == Some(c.line(spec_decode(c.config, addr).0, w).data@[spec_decode(
            c.config,
            addr,
        ).2]),
{
    lemma_decode_bounds(c.config, addr);
    let (s, t, o) = spec_decode(c.config, addr);
    let keys = keys_of(c.lines@[s]@);
    assert(keys[w] == (true, t));
    let w2 = choose|w2: int| 0 <= w2 < c.config.associativity && #[trigger] keys[w2] == (true, t);
    assert(keys[w2] == (true, t));
    assert(c.line(s, w2).valid);
}

/// Lookups of addresses whose set holds the same lines in two caches of
/// the same configuration agree.
pub proof fn lemma_same_set_lookup(a: Cache, b: Cache, addr: u32)
    requires
        a.config == b.config,
        a.lines@[spec_decode(a.config, addr).0]@ == b.lines@[spec_decode(a.config, addr).0]@,
    ensures
        a.lookup(addr) == b.lookup(addr),
{
    let (s, t, o) = spec_decode(a.config, addr);
    assert(a.way_of(s, t) == b.way_of(s, t));
}

/// One operation moved every counter of this level up by at most one and
/// took at most `fan_out()` operations from the next level: the headroom
/// went down by at most one.
pub proof fn lemma_headroom_step(a: Cache, b: Cache)
    requires
        stats_step(a.statistics, b.statistics),
        a.access_count <= b.access_count <= a.access_count + 1,
        a.next_level is Some <==> b.next_level is Some,
        a.next_level is Some ==> b.next_level->0.headroom() + fan_out() >= a.next_level->0.headroom(),
    ensures
        b.headroom() + 1 >= a.headroom(),
{
    if a.next_level is Some {
        let x = a.next_level->0.headroom();
        let y = b.next_level->0.headroom();
        assert(y / 65 + 1 >= x / 65) by (nonlinear_arith)
            requires
                y + 65 >= x,
        ;
    }
}

/// A counter left at most `headroom` below its limit.
pub proof fn lemma_headroom_bounds(c: Cache)
    requires
        c.headroom() >= 1,
    ensures
        c.statistics.hits < usize::MAX,
        c.statistics.misses < usize::MAX,
        c.statistics.write_backs < usize::MAX,
        c.statistics.invalidations < usize::MAX,
        c.statistics.write_hits < usize::MAX,
        c.statistics.write_misses < usize::MAX,
        c.statistics.evictions < usize::MAX,
        c.access_count < u64::MAX,
        c.next_level is Some ==> c.next_level->0.headroom() >= fan_out(),
{
    if c.next_level is Some {
        let x = c.next_level->0.headroom();
        assert(x / 65 >= 1 ==> x >= 65) by (nonlinear_arith);
    }
}

impl Cache {
    /// Hands a write to the next level, if there is one.
    fn forward_write(&mut self, addr: u32, value: u8)
        requires
            old(self).next_level matches Some(n) ==> n.wf() && n.headroom() >= 1,
        ensures
            final(self).config == old(self).config,
            final(self).lines == old(self).lines,
            final(self).statistics == old(self).statistics,
            final(self).access_count == old(self).access_count,
            final(self).next_level is Some <==> old(self).next_level is Some,
            final(self).depth() == old(self).depth(),
            old(self).local_wf() ==> final(self).wf(),
            final(self).next_level matches Some(n) ==> {
                &&& n.lookup(addr) == Some(value)
                &&& n.headroom() + 1 >= old(self).next_level->0.headroom()
                &&& n.config == old(self).next_level->0.config
                &&& old(self).next_level->0.lookup(addr) is Some ==> forall|a: u32|
                    spec_decode(n.config, a) != spec_decode(n.config, addr) ==> #[trigger] n.lookup(a)
                        == old(self).next_level->0.lookup(a)
            },
        decreases old(self).depth(), 1int,
    {
        let nl = self.next_level.take();
        match nl {
            Some(mut b) => {
                let _ = (&mut *b).write(addr, value);
                self.next_level = Some(b);
            },
            None => {},
        }
    }

    /// Writes a dirty line back to the next level and marks it clean.
    fn write_back(&mut self, set_index: usize, way: usize) -> (r: Result<(), VMError>)
        requires
            old(self).wf(),
            set_index < old(self).set_span(),
            way < old(self).config.associativity,
            old(self).next_level matches Some(n) ==> n.headroom() >= DEFAULT_LINE_SIZE,
        ensures
            r is Ok,
            final(self).wf(),
            final(self).config == old(self).config,
            final(self).statistics == old(self).statistics,
            final(self).access_count == old(self).access_count,
            final(self).next_level is Some <==> old(self).next_level is Some,
            final(self).depth() == old(self).depth(),
            final(self).lines@.len() == old(self).lines@.len(),
            forall|s: int|
                0 <= s < old(self).lines@.len() && s != set_index ==>
                #[trigger] final(self).lines@[s] == old(self).lines@[s],
            forall|w: int| 0 <= w < old(self).config.associativity ==> {
                let a = #[trigger] old(self).line(set_index as int, w);
                let b = final(self).line(set_index as int, w);
                &&& b.tag == a.tag && b.data@ == a.data@ && b.valid == a.valid
                &&& b.state == a.state && b.last_access == a.last_access
                &&& b.dirty == (a.dirty && w != way)
            },
            final(self).next_level matches Some(n) ==> n.headroom() + DEFAULT_LINE_SIZE
                >= old(self).next_level->0.headroom(),
            !old(self).line(set_index as int, way as int).dirty ==> *final(self) == *old(self),
            old(self).line(set_index as int, way as int).dirty ==> (final(self).next_level matches Some(
                n,
            ) ==> forall|i: int|
                0 <= i < DEFAULT_LINE_SIZE ==> #[trigger] n.lookup(
                    (set_line_base(old(self).set_span(), set_index as int, old(self).line(set_index as int, way as int).tag)
                        + i) as u32,
                ) == Some(old(self).line(set_index as int, way as int).data@[i])),
        decreases old(self).depth(), 2int,
    {
        proof {
            lemma_decode_bounds(self.config, 0);
            lemma_span(num_sets_of(self.config));
        }
        if !self.lines[set_index][way].dirty {
            return Ok(());
        }
        let tag = self.lines[set_index][way].tag;
        let addr = self.reconstruct_address(set_index, tag);
        proof {
            lemma_line_base_aligned(self.set_span(), set_index as int, tag);
        }
        let ghost start = self.next_level;
        let mut i: usize = 0;
        while i < DEFAULT_LINE_SIZE
            invariant
                i <= DEFAULT_LINE_SIZE,
                addr as int + DEFAULT_LINE_SIZE <= 0x1_0000_0000,
                self.local_wf(),
                self.config == old(self).config,
                self.lines == old(self).lines,
                self.statistics == old(self).statistics,
                self.access_count == old(self).access_count,
                self.next_level is Some <==> old(self).next_level is Some,
                self.depth() == old(self).depth(),
                set_index < self.lines@.len(),
                way < self.config.associativity,
                old(self).next_level matches Some(n) ==> n.headroom() >= DEFAULT_LINE_SIZE,
                self.next_level matches Some(n) ==> {
                    &&& n.wf()
                    &&& n.headroom() + i >= old(self).next_level->0.headroom()
                    &&& n.config == old(self).next_level->0.config
                    &&& forall|j: int|
                        0 <= j < i ==> #[trigger] n.lookup((addr + j) as u32) == Some(
                            old(self).line(set_index as int, way as int).data@[j],
                        )
                },
                addr as int == set_line_base(old(self).set_span(), set_index as int, tag),
                tag == old(self).line(set_index as int, way as int).tag,
                (addr as int) % (DEFAULT_LINE_SIZE as int) == 0,
            decreases DEFAULT_LINE_SIZE - i,
        {
            let byte = self.lines[set_index][way].data[i];
            let ghost before = self.next_level;
            self.forward_write(addr + i as u32, byte);
            proof {
                if self.next_level is Some {
                    let n = self.next_level->0;
                    let n0 = before->0;
                    lemma_line_offsets(n0.config, addr, i as int);
                    if i > 0 {
                        lemma_line_offsets(n0.config, addr, 0);
                        assert(n0.lookup((addr + 0) as u32) is Some);
                        assert(n0.way_of(spec_decode(n0.config, addr).0, spec_decode(n0.config, addr).1) is Some);
                        assert(n0.lookup((addr + i) as u32) is Some);
                    }
                    assert forall|j: int| 0 <= j < i + 1 implies #[trigger] n.lookup((addr + j) as u32) == Some(
                        old(self).line(set_index as int, way as int).data@[j],
                    ) by {
                        if j < i {
                            lemma_line_offsets(n0.config, addr, j);
                            assert(n0.lookup((addr + j) as u32) == Some(
                                old(self).line(set_index as int, way as int).data@[j],
                            ));
                        }
                    }
                }
            }
            i += 1;
        }
        self.lines[set_index][way].dirty = false;
        Ok(())
    }
}

/// Base address of the line tagged `t` in set `s` of a cache whose set
/// indices are taken modulo `span`.
pub open spec fn set_line_base(span: nat, s: int, t: u32) -> int {
    (t as int) * (DEFAULT_LINE_SIZE * span) + s * DEFAULT_LINE_SIZE
}

/// A line's base address is a multiple of the line size.
proof fn lemma_line_base_aligned(span: nat, s: int, t: u32)
    requires
        0 <= s,
    ensures
        set_line_base(span, s, t) % (DEFAULT_LINE_SIZE as int) == 0,
{
    let q = (t as int) * (span as int) + s;
    assert(set_line_base(span, s, t) == q * 64 + 0) by (nonlinear_arith)
        requires
            q == (t as int) * (span as int) + s,
    ;
    vstd::arithmetic::div_mod::lemma_fundamental_div_mod_converse_mod(set_line_base(span, s, t), 64, q, 0);
}

/// The bytes of one line share its set and tag in any cache, and the
/// offset of byte `i` is `i`.
proof fn lemma_line_offsets(c: CacheConfig, base: u32, i: int)
    requires
        (base as int) % (DEFAULT_LINE_SIZE as int) == 0,
        0 <= i < DEFAULT_LINE_SIZE,
        base + i <= u32::MAX,
    ensures
        spec_decode(c, (base + i) as u32).0 == spec_decode(c, base).0,
        spec_decode(c, (base + i) as u32).1 == spec_decode(c, base).1,
        spec_decode(c, (base + i) as u32).2 == i,
{
    let b = base as int;
    let x = b + i;
    let q = b / 64;
    vstd::arithmetic::div_mod::lemma_fundamental_div_mod(b, 64);
    assert(x == q * 64 + i);
    vstd::arithmetic::div_mod::lemma_fundamental_div_mod_converse_div(x, 64, q, i);
    vstd::arithmetic::div_mod::lemma_fundamental_div_mod_converse_mod(x, 64, q, i);
    let sp = span(num_sets_of(c));
    lemma_span(num_sets_of(c));
    vstd::arithmetic::div_mod::lemma_div_denominator(x, 64, sp as int);
    vstd::arithmetic::div_mod::lemma_div_denominator(b, 64, sp as int);
}

/// Changing one byte of a present line, and nothing else of the lines,
/// leaves the lookup of every address that decodes elsewhere.
pub proof fn lemma_byte_update_lookup(a: Cache, b: Cache, addr: u32, w: int)
    requires
        a.config == b.config,
        a.local_wf(),
        0 <= w < a.config.associativity,
        b.lines@.len() == a.lines@.len(),
        forall|s2: int|
            0 <= s2 < a.lines@.len() && s2 != spec_decode(a.config, addr).0 ==> #[trigger] b.lines@[s2]
                == a.lines@[s2],
        b.lines@[spec_decode(a.config, addr).0]@.len() == a.config.associativity,
        forall|w2: int|
            0 <= w2 < a.config.associativity && w2 != w ==> #[trigger] b.line(spec_decode(a.config, addr).0, w2)
                == a.line(spec_decode(a.config, addr).0, w2),
        b.line(spec_decode(a.config, addr).0, w).valid == a.line(spec_decode(a.config, addr).0, w).valid,
        b.line(spec_decode(a.config, addr).0, w).tag == a.line(spec_decode(a.config, addr).0, w).tag,
        a.line(spec_decode(a.config, addr).0, w).tag == spec_decode(a.config, addr).1,
        b.line(spec_decode(a.config, addr).0, w).data@.len() == a.line(spec_decode(a.config, addr).0, w).data@.len(),
        forall|k: int|
            0 <= k < a.line(spec_decode(a.config, addr).0, w).data@.len() && k != spec_decode(a.config, addr).2
                ==> #[trigger] b.line(spec_decode(a.config, addr).0, w).data@[k] == a.line(
                spec_decode(a.config, addr).0,
                w,
            ).data@[k],
    ensures
        forall|x: u32|
            spec_decode(a.config, x) != spec_decode(a.config, addr) ==> #[trigger] b.lookup(x) == a.lookup(x),
{
    let (s, t, o) = spec_decode(a.config, addr);
    lemma_decode_bounds(a.config, addr);
    assert(keys_of(b.lines@[s]@) =~= keys_of(a.lines@[s]@)) by {
        assert forall|w2: int| 0 <= w2 < a.config.associativity implies keys_of(b.lines@[s]@)[w2]
            == keys_of(a.lines@[s]@)[w2] by {
            if w2 != w {
                assert(b.line(s, w2) == a.line(s, w2));
            }
        }
    }
    assert forall|x: u32| spec_decode(a.config, x) != spec_decode(a.config, addr) implies #[trigger] b.lookup(x)
        == a.lookup(x) by {
        lemma_decode_bounds(a.config, x);
        let (s2, t2, o2) = spec_decode(a.config, x);
        if s2 != s {
            assert(b.lines@[s2] == a.lines@[s2]);
            lemma_same_set_lookup(a, b, x);
        } else {
            assert(b.way_of(s2, t2) == a.way_of(s2, t2));
            match a.way_of(s2, t2) {
                Some(w3) => {
                    let keys = keys_of(a.lines@[s]@);
                    assert(0 <= w3 < a.config.associativity && keys[w3] == (true, t2));
                    if w3 != w {
                        assert(b.line(s, w3) == a.line(s, w3));
                    } else {
                        assert(t2 == t);
                        assert(o2 != o);
                        assert(a.line(s, w).data@.len() == DEFAULT_LINE_SIZE);
                    }
                },
                None => {},
            }
        }
    }
}

/// A miss keeps the other lines of its set: after a miss at `addr`
/// allocated way `w`, an address of the same set whose line was not the one
/// in way `w` reads as before. Under LRU with a free way in the set, the
/// evicted way is free, so every line of the set survives.
pub proof fn lemma_allocation_keeps_other_lines(a: Cache, b: Cache, addr: u32, w: int, kept: bool, x: u32)
    requires
        a.local_wf(),
        b.config == a.config,
        b.lines@.len() == a.lines@.len(),
        Cache::allocated(a, b, addr, w, kept),
        spec_decode(a.config, x).0 == spec_decode(a.config, addr).0,
        spec_decode(a.config, x).1 != spec_decode(a.config, addr).1,
        !(a.line(spec_decode(a.config, addr).0, w).valid && a.line(spec_decode(a.config, addr).0, w).tag
            == spec_decode(a.config, x).1),
        b.lines@[spec_decode(a.config, addr).0]@.len() == a.config.associativity,
    ensures
        b.lookup(x) == a.lookup(x),
{
    lemma_decode_bounds(a.config, x);
    let (s, t, o) = spec_decode(a.config, x);
    let ka = keys_of(a.lines@[s]@);
    let kb = keys_of(b.lines@[s]@);
    let n = a.config.associativity as int;
    assert forall|w2: int| 0 <= w2 < n && #[trigger] kb[w2] == (true, t) implies w2 != w && ka[w2] == (true, t) by {
        if w2 == w {
            assert(b.line(s, w).tag == spec_decode(a.config, addr).1);
        } else {
            assert(same_line(b.line(s, w2), a.line(s, w2)));
        }
    }
    match a.way_of(s, t) {
        Some(wa) => {
            assert(ka[wa] == (true, t));
            assert(wa != w);
            assert(same_line(b.line(s, wa), a.line(s, wa)));
            assert(kb[wa] == (true, t));
            let wb = b.way_of(s, t)->0;
            assert(kb[wb] == (true, t));
            assert(ka[wb] == (true, t));
            assert(a.line(s, wb).valid && a.line(s, wa).valid && a.line(s, wb).tag == a.line(s, wa).tag);
            assert(wb == wa);
            assert(same_line(b.line(s, wa), a.line(s, wa)));
        },
        None => {
            if b.way_of(s, t) is Some {
                let wb = b.way_of(s, t)->0;
                assert(kb[wb] == (true, t));
                assert(ka[wb] == (true, t));
            }
        },
    }
}

/// Replacing one line of a cache by a line that keeps the invariant of
/// its set keeps the invariant, and lookups in the other sets.
pub proof fn lemma_replace_line(a: Cache, b: Cache, s: int, w: int)
    requires
        a.local_wf(),
        b.config == a.config,
        0 <= s < a.lines@.len(),
        0 <= w < a.config.associativity,
        b.lines@.len() == a.lines@.len(),
        forall|s2: int| 0 <= s2 < a.lines@.len() && s2 != s ==> #[trigger] b.lines@[s2] == a.lines@[s2],
        b.lines@[s]@.len() == a.config.associativity,
        forall|w2: int| 0 <= w2 < a.config.associativity && w2 != w ==> #[trigger] b.line(s, w2) == a.line(s, w2),
        b.line(s, w).data@.len() == DEFAULT_LINE_SIZE,
        b.line(s, w).valid ==> b.line(s, w).state != CacheState::Invalid,
        (b.line(s, w).tag as int) * (DEFAULT_LINE_SIZE * a.set_span()) < 0x1_0000_0000,
        b.line(s, w).valid ==> forall|w2: int|
            0 <= w2 < a.config.associativity && w2 != w ==> !(#[trigger] a.line(s, w2).valid
                && a.line(s, w2).tag == b.line(s, w).tag),
    ensures
        b.local_wf(),
        forall|addr: u32|
            spec_decode(a.config, addr).0 != s ==> #[trigger] b.lookup(addr) == a.lookup(addr),
{
    assert forall|s2: int| 0 <= s2 < b.lines@.len() implies #[trigger] b.lines@[s2]@.len()
        == b.config.associativity by {
        if s2 != s {
            assert(b.lines@[s2] == a.lines@[s2]);
        }
    }
    assert forall|s2: int, w2: int|
        0 <= s2 < b.lines@.len() && 0 <= w2 < b.config.associativity implies {
            &&& (#[trigger] b.line(s2, w2)).data@.len() == DEFAULT_LINE_SIZE
            &&& b.line(s2, w2).valid ==> b.line(s2, w2).state != CacheState::Invalid
            &&& (b.line(s2, w2).tag as int) * (DEFAULT_LINE_SIZE * b.set_span()) < 0x1_0000_0000
        } by {
        if s2 != s {
            assert(b.lines@[s2] == a.lines@[s2]);
            assert(b.line(s2, w2) == a.line(s2, w2));
        } else if w2 != w {
            assert(b.line(s2, w2) == a.line(s2, w2));
        }
    }
    assert forall|s2: int, w1: int, w2: int|
        0 <= s2 < b.lines@.len() && 0 <= w1 < b.config.associativity && 0 <= w2
            < b.config.associativity && #[trigger] b.line(s2, w1).valid
            && #[trigger] b.line(s2, w2).valid && b.line(s2, w1).tag == b.line(s2, w2).tag
        implies w1 == w2 by {
        if s2 != s {
            assert(b.lines@[s2] == a.lines@[s2]);
            assert(b.line(s2, w1) == a.line(s2, w1));
            assert(b.line(s2, w2) == a.line(s2, w2));
        } else {
            if w1 != w && w2 != w {
                assert(b.line(s2, w1) == a.line(s2, w1));
                assert(b.line(s2, w2) == a.line(s2, w2));
            } else if w1 == w && w2 != w {
                assert(b.line(s2, w2) == a.line(s2, w2));
            } else if w2 == w && w1 != w {
                assert(b.line(s2, w1) == a.line(s2, w1));
            }
        }
    }
    assert forall|addr: u32| spec_decode(a.config, addr).0 != s implies #[trigger] b.lookup(addr)
        == a.lookup(addr) by {
        let s2 = spec_decode(a.config, addr).0;
        lemma_decode_bounds(a.config, addr);
        lemma_span(num_sets_of(a.config));
        assert(b.lines@[s2] == a.lines@[s2]);
        lemma_same_set_lookup(a, b, addr);
    }
}

impl Cache {
    /// Invalidates the line holding `addr`, if this level holds it.
    pub fn invalidate_address(&mut self, addr: u32) -> (r: Result<(), VMError>)
        requires
            old(self).wf(),
            old(self).statistics.invalidations < usize::MAX,
        ensures
            r is Ok,
            final(self).wf(),
            final(self).config == old(self).config,
            final(self).next_level == old(self).next_level,
            final(self).access_count == old(self).access_count,
            final(self).depth() == old(self).depth(),
            final(self).lookup(addr) is None,
            final(self).statistics == (CacheStatistics {
                invalidations: (old(self).statistics.invalidations + if old(
                    self,
                ).lookup(addr) is Some {
                    1int
                } else {
                    0int
                }) as usize,
                ..old(self).statistics
            }),
            forall|a: u32|
                spec_decode(old(self).config, a).0 != spec_decode(old(self).config, addr).0
                    ==> #[trigger] final(self).lookup(a) == old(self).lookup(a),
            forall|s: int|
                0 <= s < old(self).lines@.len() && s != spec_decode(old(self).config, addr).0
                    ==> #[trigger] final(self).lines@[s] == old(self).lines@[s],
            final(self).lines@.len() == old(self).lines@.len(),
            old(self).lookup(addr) is None ==> *final(self) == *old(self),
    {
        let (set_index, tag, _offset) = self.decode_address(addr);
        if let Some(i) = self.find_line_index(set_index, tag) {
            self.lines[set_index][i].state = CacheState::Invalid;
            self.lines[set_index][i].valid = false;
            self.statistics.invalidations += 1;
            proof {
                lemma_replace_line(*old(self), *self, set_index as int, i as int);
                lemma_decode_bounds(self.config, addr);
            }
        }
        Ok(())
    }
}

impl Cache {
    /// Counts an invalidation and invalidates `addr` in the next level.
    fn invalidate_other_copies(&mut self, addr: u32) -> (r: Result<(), VMError>)
        requires
            old(self).wf(),
            old(self).statistics.invalidations < usize::MAX,
            old(self).next_level matches Some(n) ==> n.headroom() >= 1,
        ensures
            r is Ok,
            final(self).wf(),
            final(self).config == old(self).config,
            final(self).lines == old(self).lines,
            final(self).access_count == old(self).access_count,
            final(self).statistics == (CacheStatistics {
                invalidations: (old(self).statistics.invalidations + 1) as usize,
                ..old(self).statistics
            }),
            final(self).next_level is Some <==> old(self).next_level is Some,
            final(self).depth() == old(self).depth(),
            final(self).next_level matches Some(n) ==> n.headroom() + 1
                >= old(self).next_level->0.headroom(),
    {
        self.statistics.invalidations += 1;
        let nl = self.next_level.take();
        match nl {
            Some(mut b) => {
                proof {
                    lemma_headroom_bounds(*b);
                }
                let _ = (&mut *b).invalidate_address(addr);
                proof {
                    assert(b.statistics.invalidations <= old(self).next_level->0.statistics.invalidations + 1);
                    lemma_headroom_step(*old(self).next_level->0, *b);
                }
                self.next_level = Some(b);
            },
            None => {},
        }
        Ok(())
    }

    /// Fills a way of the set of `addr` with a modified line holding `value`,
    /// writing the evicted line back first if it is dirty, and writes
    /// `value` through to the next level under write-through.
    fn handle_write_miss(
        &mut self,
        addr: u32,
        value: u8,
        set_index: usize,
        tag: u32,
        offset: usize,
    ) -> (r: Result<(), VMError>)
        requires
            old(self).wf(),
            (set_index as int, tag, offset as int) == spec_decode(old(self).config, addr),
            old(self).way_of(set_index as int, tag) is None,
            old(self).statistics.write_backs < usize::MAX,
            old(self).statistics.evictions < usize::MAX,
            old(self).access_count < u64::MAX,
            old(self).next_level matches Some(n) ==> n.headroom() >= fan_out(),
        ensures
            r is Ok,
            final(self).wf(),
            final(self).config == old(self).config,
            final(self).next_level is Some <==> old(self).next_level is Some,
            final(self).depth() == old(self).depth(),
            final(self).lookup(addr) == Some(value),
            final(self).access_count == old(self).access_count + 1,
            final(self).statistics == (CacheStatistics {
                write_backs: final(self).statistics.write_backs,
                evictions: final(self).statistics.evictions,
                ..old(self).statistics
            }),
            old(self).statistics.write_backs <= final(self).statistics.write_backs
                <= old(self).statistics.write_backs + 1,
            old(self).statistics.evictions <= final(self).statistics.evictions
                <= old(self).statistics.evictions + 1,
            forall|a: u32|
                spec_decode(old(self).config, a).0 != set_index ==> #[trigger] final(self).lookup(a)
                    == old(self).lookup(a),
            final(self).next_level matches Some(n) ==> {
                &&& n.headroom() + fan_out() >= old(self).next_level->0.headroom()
                &&& old(self).config.write_policy == WritePolicy::WriteThrough ==> n.lookup(addr)
                    == Some(value)
            },
            exists|w: int|
                #[trigger] Cache::allocated(
                    *old(self),
                    *final(self),
                    addr,
                    w,
                    writes_back(old(self).config),
                ),
        decreases old(self).depth(), 3int,
    {
        proof {
            lemma_decode_bounds(self.config, addr);
        }
        let victim_way = self.select_victim(set_index);
        let need_writeback = self.lines[set_index][victim_way].valid
            && self.lines[set_index][victim_way].dirty;
        if need_writeback {
            let _ = self.write_back(set_index, victim_way);
            self.statistics.write_backs += 1;
        }
        let ghost mid = *self;
        if self.lines[set_index][victim_way].valid {
            self.statistics.evictions += 1;
        }
        let write_back_policy = match self.config.write_policy {
            WritePolicy::WriteBack => true,
            WritePolicy::WriteThrough => false,
        };
        self.lines[set_index][victim_way].tag = tag;
        self.lines[set_index][victim_way].valid = true;
        self.lines[set_index][victim_way].dirty = write_back_policy;
        self.lines[set_index][victim_way].state = CacheState::Modified;
        self.lines[set_index][victim_way].data[offset] = value;
        self.access_count += 1;
        self.lines[set_index][victim_way].last_access = self.access_count;
        proof {
            assert forall|w2: int|
                0 <= w2 < mid.config.associativity && w2 != victim_way implies !(
                #[trigger] mid.line(set_index as int, w2).valid && mid.line(set_index as int, w2).tag
                    == tag) by {
                assert(keys_of(old(self).lines@[set_index as int]@)[w2] == (
                    old(self).line(set_index as int, w2).valid,
                    old(self).line(set_index as int, w2).tag,
                ));
                assert(mid.line(set_index as int, w2).valid == old(self).line(set_index as int, w2).valid);
                assert(mid.line(set_index as int, w2).tag == old(self).line(set_index as int, w2).tag);
            }
            lemma_replace_line(mid, *self, set_index as int, victim_way as int);
            lemma_lookup_hit(*self, addr, victim_way as int);
        }
        let ghost filled = *self;
        match self.config.write_policy {
            WritePolicy::WriteThrough => {
                self.forward_write(addr, value);
            },
            WritePolicy::WriteBack => {},
        }
        proof {
            assert(self.lines == filled.lines);
            lemma_same_set_lookup(filled, *self, addr);
            assert(Cache::allocated(
                *old(self),
                *self,
                addr,
                victim_way as int,
                writes_back(old(self).config),
            ));
        }
        Ok(())
    }

    /// Writes `value` at `addr`. A hit updates the line in place; a miss
    /// allocates a line for the address. Under write-through the value also
    /// goes to the next level.
    pub fn write(&mut self, addr: u32, value: u8) -> (r: Result<(), VMError>)
        requires
            old(self).wf(),
            old(self).headroom() >= 1,
        ensures
            r is Ok,
            final(self).wf(),
            final(self).config == old(self).config,
            final(self).next_level is Some <==> old(self).next_level is Some,
            final(self).depth() == old(self).depth(),
            final(self).headroom() + 1 >= old(self).headroom(),
            final(self).lookup(addr) == Some(value),
            final(self).statistics.write_hits == old(self).statistics.write_hits + if old(
                self,
            ).lookup(addr) is Some {
                1int
            } else {
                0int
            },
            final(self).statistics.write_misses == old(self).statistics.write_misses + if old(
                self,
            ).lookup(addr) is Some {
                0int
            } else {
                1int
            },
            final(self).statistics.hits == old(self).statistics.hits,
            final(self).statistics.misses == old(self).statistics.misses,
            forall|a: u32|
                spec_decode(old(self).config, a).0 != spec_decode(old(self).config, addr).0
                    ==> #[trigger] final(self).lookup(a) == old(self).lookup(a),
            old(self).config.write_policy == WritePolicy::WriteThrough ==> (
            final(self).next_level matches Some(n) ==> n.lookup(addr) == Some(value)),
            old(self).lookup(addr) is Some ==> forall|a: u32|
                spec_decode(old(self).config, a) != spec_decode(old(self).config, addr)
                    ==> #[trigger] final(self).lookup(a) == old(self).lookup(a),
            old(self).lookup(addr) is None ==> exists|w: int|
                #[trigger] Cache::allocated(*old(self), *final(self), addr, w, writes_back(old(self).config)),
        decreases old(self).depth(), 4int,
    {
        proof {
            lemma_headroom_bounds(*self);
            lemma_decode_bounds(self.config, addr);
        }
        let (set_index, tag, offset) = self.decode_address(addr);
        if let Some(i) = self.find_line_index(set_index, tag) {
            self.statistics.write_hits += 1;
            let current_state = self.lines[set_index][i].state;
            match current_state {
                CacheState::Shared => {
                    let _ = self.invalidate_other_copies(addr);
                },
                _ => {},
            }
            let ghost mid = *self;
            proof {
                assert(mid.line(set_index as int, i as int) == old(self).line(set_index as int, i as int));
            }
            match self.lines[set_index][i].state {
                CacheState::Modified => {
                    self.lines[set_index][i].data[offset] = value;
                },
                CacheState::Exclusive => {
                    self.lines[set_index][i].data[offset] = value;
                    self.lines[set_index][i].state = CacheState::Modified;
                },
                CacheState::Shared => {
                    self.lines[set_index][i].data[offset] = value;
                    self.lines[set_index][i].state = CacheState::Modified;
                },
                CacheState::Invalid => {
                    proof {
                        assert(false);
                    }
                    return self.handle_write_miss(addr, value, set_index, tag, offset);
                },
            }
            proof {
                lemma_replace_line(mid, *self, set_index as int, i as int);
                lemma_lookup_hit(*self, addr, i as int);
            }
            let ghost filled = *self;
            match self.config.write_policy {
                WritePolicy::WriteThrough => {
                    self.forward_write(addr, value);
                },
                WritePolicy::WriteBack => {},
            }
            proof {
                lemma_same_set_lookup(filled, *self, addr);
                lemma_headroom_step(*old(self), *self);
                lemma_byte_update_lookup(*old(self), filled, addr, i as int);
                assert forall|a: u32|
                    spec_decode(old(self).config, a) != spec_decode(old(self).config, addr)
                        implies #[trigger] self.lookup(a) == old(self).lookup(a) by {
                    assert(filled.lookup(a) == old(self).lookup(a));
                    assert(self.lines == filled.lines);
                }
            }
        } else {
            self.statistics.write_misses += 1;
            let ghost before = *self;
            let _ = self.handle_write_miss(addr, value, set_index, tag, offset);
            proof {
                lemma_headroom_step(*old(self), *self);
                let w = choose|w: int| #[trigger] Cache::allocated(before, *self, addr, w, writes_back(before.config));
                assert(Cache::allocated(*old(self), *self, addr, w, writes_back(old(self).config)));
            }
        }
        Ok(())
    }
}

impl Cache {
    /// Hands a read to the next level; without one, a read that got here
    /// missed in the last level.
    fn forward_read(&mut self, addr: u32) -> (r: Result<u64, VMError>)
        requires
            old(self).next_level matches Some(n) ==> n.wf() && n.headroom() >= 1,
        ensures
            r == read_result(
                match old(self).next_level {
                    Some(n) => n.read_value(addr),
                    None => None,
                },
            ),
            final(self).config == old(self).config,
            final(self).lines == old(self).lines,
            final(self).statistics == old(self).statistics,
            final(self).access_count == old(self).access_count,
            final(self).next_level is Some <==> old(self).next_level is Some,
            final(self).depth() == old(self).depth(),
            old(self).next_level is None ==> final(self).next_level == old(self).next_level,
            old(self).local_wf() ==> final(self).wf(),
            final(self).next_level matches Some(n) ==> {
                &&& n.wf()
                &&& n.headroom() + 1 >= old(self).next_level->0.headroom()
            },
        decreases old(self).depth(), 1int,
    {
        let nl = self.next_level.take();
        match nl {
            Some(mut b) => {
                let r = (&mut *b).read(addr);
                self.next_level = Some(b);
                r
            },
            None => Err(VMError::CacheMissInLastLevel),
        }
    }

    /// Fetches the byte of `addr` from the next level and places it in a
    /// clean, exclusive line of its set, writing the evicted line back
    /// first if it is dirty.
    fn handle_miss(&mut self, addr: u32, set_index: usize, tag: u32, offset: usize) -> (r: Result<
        u64,
        VMError,
    >)
        requires
            old(self).wf(),
            (set_index as int, tag, offset as int) == spec_decode(old(self).config, addr),
            old(self).way_of(set_index as int, tag) is None,
            old(self).statistics.write_backs < usize::MAX,
            old(self).access_count < u64::MAX,
            old(self).next_level matches Some(n) ==> n.headroom() >= fan_out(),
        ensures
            r == read_result(
                match old(self).next_level {
                    Some(n) => n.read_value(addr),
                    None => None,
                },
            ),
            final(self).wf(),
            final(self).config == old(self).config,
            final(self).next_level is Some <==> old(self).next_level is Some,
            final(self).depth() == old(self).depth(),
            final(self).statistics == (CacheStatistics {
                write_backs: final(self).statistics.write_backs,
                ..old(self).statistics
            }),
            old(self).statistics.write_backs <= final(self).statistics.write_backs
                <= old(self).statistics.write_backs + 1,
            old(self).access_count <= final(self).access_count <= old(self).access_count + 1,
            r matches Ok(b) ==> final(self).lookup(addr) == Some(b as u8),
            forall|a: u32|
                spec_decode(old(self).config, a).0 != set_index ==> #[trigger] final(self).lookup(a)
                    == old(self).lookup(a),
            final(self).next_level matches Some(n) ==> n.headroom() + fan_out()
                >= old(self).next_level->0.headroom(),
            r is Ok ==> exists|w: int| #[trigger] Cache::allocated(*old(self), *final(self), addr, w, true),
            r is Err ==> final(self).lines == old(self).lines && final(self).access_count == old(
                self,
            ).access_count,
        decreases old(self).depth(), 2int,
    {
        proof {
            lemma_decode_bounds(self.config, addr);
        }
        let data = match self.forward_read(addr) {
            Ok(d) => d,
            Err(e) => {
                return Err(e);
            },
        };
        let victim_way = self.select_victim(set_index);
        let need_writeback = self.lines[set_index][victim_way].valid
            && self.lines[set_index][victim_way].dirty;
        if need_writeback {
            let _ = self.write_back(set_index, victim_way);
            self.statistics.write_backs += 1;
        }
        let ghost mid = *self;
        self.lines[set_index][victim_way].tag = tag;
        self.lines[set_index][victim_way].valid = true;
        self.lines[set_index][victim_way].dirty = false;
        self.lines[set_index][victim_way].data[offset] = data as u8;
        self.lines[set_index][victim_way].state = CacheState::Exclusive;
        self.access_count += 1;
        self.lines[set_index][victim_way].last_access = self.access_count;
        proof {
            assert forall|w2: int|
                0 <= w2 < mid.config.associativity && w2 != victim_way implies !(
                #[trigger] mid.line(set_index as int, w2).valid && mid.line(set_index as int, w2).tag
                    == tag) by {
                assert(keys_of(old(self).lines@[set_index as int]@)[w2] == (
                    old(self).line(set_index as int, w2).valid,
                    old(self).line(set_index as int, w2).tag,
                ));
                assert(mid.line(set_index as int, w2).valid == old(self).line(set_index as int, w2).valid);
                assert(mid.line(set_index as int, w2).tag == old(self).line(set_index as int, w2).tag);
            }
            lemma_replace_line(mid, *self, set_index as int, victim_way as int);
            lemma_lookup_hit(*self, addr, victim_way as int);
            assert(Cache::allocated(*old(self), *self, addr, victim_way as int, true));
        }
        Ok(data)
    }

    /// Reads the byte at `addr`, widened to `u64`. A hit returns the byte of
    /// the line; a miss fetches it from the next level and keeps it; a miss in
    /// the last level is an error.
    pub fn read(&mut self, addr: u32) -> (r: Result<u64, VMError>)
        requires
            old(self).wf(),
            old(self).headroom() >= 1,
        ensures
            r == read_result(old(self).read_value(addr)),
            final(self).wf(),
            final(self).config == old(self).config,
            final(self).next_level is Some <==> old(self).next_level is Some,
            final(self).depth() == old(self).depth(),
            final(self).headroom() + 1 >= old(self).headroom(),
            r matches Ok(b) ==> final(self).lookup(addr) == Some(b as u8),
            final(self).statistics.hits == old(self).statistics.hits + if old(self).lookup(
                addr,
            ) is Some {
                1int
            } else {
                0int
            },
            final(self).statistics.misses == old(self).statistics.misses + if old(self).lookup(
                addr,
            ) is Some {
                0int
            } else {
                1int
            },
            final(self).statistics.write_hits == old(self).statistics.write_hits,
            final(self).statistics.write_misses == old(self).statistics.write_misses,
            old(self).lookup(addr) is Some ==> {
                &&& final(self).next_level == old(self).next_level
                &&& forall|a: u32| #[trigger] final(self).lookup(a) == old(self).lookup(a)
            },
            forall|a: u32|
                spec_decode(old(self).config, a).0 != spec_decode(old(self).config, addr).0
                    ==> #[trigger] final(self).lookup(a) == old(self).lookup(a),
            old(self).lookup(addr) is Some ==> Cache::refreshed(*old(self), *final(self), addr),
            old(self).lookup(addr) is None && r is Ok ==> exists|w: int|
                #[trigger] Cache::allocated(*old(self), *final(self), addr, w, true),
            old(self).lookup(addr) is None && r is Err ==> final(self).lines == old(self).lines
                && final(self).access_count == old(self).access_count,
        decreases old(self).depth(), 3int,
    {
        proof {
            lemma_headroom_bounds(*self);
            lemma_decode_bounds(self.config, addr);
        }
        let (set_index, tag, offset) = self.decode_address(addr);
        if let Some(i) = self.find_line_index(set_index, tag) {
            self.statistics.hits += 1;
            self.access_count += 1;
            let ghost mid = *self;
            self.lines[set_index][i].last_access = self.access_count;
            let value = self.lines[set_index][i].data[offset];
            proof {
                lemma_lookup_hit(*old(self), addr, i as int);
                lemma_replace_line(mid, *self, set_index as int, i as int);
                assert forall|a: u32| #[trigger] self.lookup(a) == old(self).lookup(a) by {
                    if spec_decode(self.config, a).0 == set_index as int {
                        let t = spec_decode(self.config, a).1;
                        assert(keys_of(self.lines@[set_index as int]@) =~= keys_of(
                            old(self).lines@[set_index as int]@,
                        ));
                    }
                }
                lemma_headroom_step(*old(self), *self);
            }
            Ok(value as u64)
        } else {
            self.statistics.misses += 1;
            let ghost before = *self;
            let r = self.handle_miss(addr, set_index, tag, offset);
            proof {
                lemma_headroom_step(*old(self), *self);
                if r is Ok {
                    let w = choose|w: int| #[trigger] Cache::allocated(before, *self, addr, w, true);
                    assert(Cache::allocated(*old(self), *self, addr, w, true));
                }
            }
            r
        }
    }
}

impl Cache {
    /// Empties every line of this level and zeroes its counters. The level
    /// below keeps its contents.
    pub fn reset(&mut self) -> (r: Result<(), VMError>)
        requires
            old(self).wf(),
        ensures
            r is Ok,
            final(self).wf(),
            final(self).config == old(self).config,
            final(self).next_level == old(self).next_level,
            final(self).access_count == 0,
            final(self).statistics == CacheStatistics::spec_zero(),
            final(self).lines@.len() == old(self).lines@.len(),
            forall|s: int, w: int|
                0 <= s < final(self).lines@.len() && 0 <= w < final(self).config.associativity
                    ==> #[trigger] final(self).line(s, w).is_empty_line(),
            forall|a: u32| #[trigger] final(self).lookup(a) is None,
    {
        let num_sets = self.lines.len();
        let mut s: usize = 0;
        while s < num_sets
            invariant
                s <= num_sets,
                num_sets == self.lines@.len(),
                self.config == old(self).config,
                self.next_level == old(self).next_level,
                self.statistics == old(self).statistics,
                self.access_count == old(self).access_count,
                self.lines@.len() == old(self).lines@.len(),
                old(self).local_wf(),
                forall|k: int| 0 <= k < num_sets ==> #[trigger] self.lines@[k]@.len()
                    == self.config.associativity,
                forall|k: int, w: int|
                    0 <= k < s && 0 <= w < self.config.associativity
                        ==> #[trigger] self.lines@[k]@[w].is_empty_line(),
                forall|k: int| s <= k < num_sets ==> #[trigger] self.lines@[k] == old(self).lines@[k],
            decreases num_sets - s,
        {
            let ways = self.lines[s].len();
            let mut w: usize = 0;
            while w < ways
                invariant
                    w <= ways,
                    s < num_sets,
                    num_sets == self.lines@.len(),
                    ways == self.config.associativity,
                    self.config == old(self).config,
                    self.next_level == old(self).next_level,
                    self.statistics == old(self).statistics,
                    self.access_count == old(self).access_count,
                    forall|k: int| 0 <= k < num_sets ==> #[trigger] self.lines@[k]@.len()
                        == self.config.associativity,
                    forall|k: int, v: int|
                        0 <= k < s && 0 <= v < self.config.associativity
                            ==> #[trigger] self.lines@[k]@[v].is_empty_line(),
                    forall|v: int| 0 <= v < w ==> #[trigger] self.lines@[s as int]@[v].is_empty_line(),
                    forall|k: int| s < k < num_sets ==> #[trigger] self.lines@[k] == old(self).lines@[k],
                decreases ways - w,
            {
                self.lines[s][w] = CacheLine::default();
                w += 1;
            }
            s += 1;
        }
        self.statistics = CacheStatistics::zero();
        self.access_count = 0;
        proof {
            lemma_span(num_sets_of(self.config));
            assert forall|a: u32| #[trigger] self.lookup(a) is None by {
                lemma_decode_bounds(self.config, a);
                let (st, t, o) = spec_decode(self.config, a);
                let keys = keys_of(self.lines@[st]@);
                assert forall|w: int| 0 <= w < self.config.associativity implies #[trigger] keys[w]
                    != (true, t) by {
                    assert(self.lines@[st]@[w].is_empty_line());
                }
            }
            let c = *self;
            assert forall|s: int, w: int|
                0 <= s < c.lines@.len() && 0 <= w < c.config.associativity implies {
                    &&& (#[trigger] c.line(s, w)).data@.len() == DEFAULT_LINE_SIZE
                    &&& c.line(s, w).valid ==> c.line(s, w).state != CacheState::Invalid
                    &&& (c.line(s, w).tag as int) * (DEFAULT_LINE_SIZE * c.set_span())
                        < 0x1_0000_0000
                } by {
                assert(c.line(s, w).is_empty_line());
            }
            assert forall|s: int, w1: int, w2: int|
                0 <= s < c.lines@.len() && 0 <= w1 < c.config.associativity && 0 <= w2
                    < c.config.associativity && #[trigger] c.line(s, w1).valid
                    && #[trigger] c.line(s, w2).valid && c.line(s, w1).tag == c.line(
                    s,
                    w2,
                ).tag implies w1 == w2 by {
                assert(c.line(s, w1).is_empty_line());
            }
            assert(self.local_wf());
        }
        Ok(())
    }

    /// The counters of this level.
    pub fn get_statistics(&self) -> (r: &CacheStatistics)
        ensures
            *r == self.statistics,
    {
        &self.statistics
    }

    /// The write policy.
    pub fn get_write_policy(&self) -> (r: WritePolicy)
        ensures
            r == self.config.write_policy,
    {
        self.config.write_policy
    }

    /// The replacement policy.
    pub fn get_replacement_policy(&self) -> (r: ReplacementPolicy)
        ensures
            r == self.config.replacement_policy,
    {
        self.config.replacement_policy
    }

    /// Number of ways of each set.
    pub fn get_associativity(&self) -> (r: usize)
        ensures
            r == self.config.associativity,
    {
        self.config.associativity
    }

    /// Size of a line in bytes.
    pub fn get_line_size(&self) -> (r: usize)
        ensures
            r == self.config.lines_size,
    {
        self.config.lines_size
    }

    /// Total size in bytes.
    pub fn get_size(&self) -> (r: usize)
        ensures
            r == self.config.size,
    {
        self.config.size
    }

    /// Counts one more read miss.
    pub fn increment_misses(&mut self)
        requires
            old(self).statistics.misses < usize::MAX,
        ensures
            final(self).statistics == (CacheStatistics {
                misses: (old(self).statistics.misses + 1) as usize,
                ..old(self).statistics
            }),
            final(self).config == old(self).config,
            final(self).lines == old(self).lines,
            final(self).access_count == old(self).access_count,
            final(self).next_level == old(self).next_level,
    {
        self.statistics.misses += 1;
    }

    /// Counts one access: a read or write, a hit or miss.
    fn update_metrics(&mut self, hit: bool, write: bool)
        requires
            old(self).statistics.hits < usize::MAX,
            old(self).statistics.misses < usize::MAX,
            old(self).statistics.write_hits < usize::MAX,
            old(self).statistics.write_misses < usize::MAX,
        ensures
            final(self).statistics == (if write {
                if hit {
                    CacheStatistics {
                        write_hits: (old(self).statistics.write_hits + 1) as usize,
                        ..old(self).statistics
                    }
                } else {
                    CacheStatistics {
                        write_misses: (old(self).statistics.write_misses + 1) as usize,
                        ..old(self).statistics
                    }
                }
            } else {
                if hit {
                    CacheStatistics { hits: (old(self).statistics.hits + 1) as usize, ..old(self).statistics }
                } else {
                    CacheStatistics { misses: (old(self).statistics.misses + 1) as usize, ..old(self).statistics }
                }
            }),
            final(self).lines == old(self).lines,
            final(self).access_count == old(self).access_count,
    {
        if write {
            if hit {
                self.statistics.write_hits += 1;
            } else {
                self.statistics.write_misses += 1;
            }
        } else {
            if hit {
                self.statistics.hits += 1;
            } else {
                self.statistics.misses += 1;
            }
        }
    }

    /// Stamps the line tagged `tag` in set `set_index`, if present, with a
    /// new access count.
    fn update_access(&mut self, set_index: usize, tag: u32)
        requires
            old(self).wf(),
            set_index < old(self).lines@.len(),
            old(self).access_count < u64::MAX,
        ensures
            final(self).wf(),
            final(self).access_count == old(self).access_count + 1,
            final(self).statistics == old(self).statistics,
            final(self).next_level == old(self).next_level,
            forall|a: u32| #[trigger] final(self).lookup(a) == old(self).lookup(a),
    {
        self.access_count += 1;
        let current_count = self.access_count;
        if let Some(i) = self.find_line_index(set_index, tag) {
            let ghost mid = *self;
            self.lines[set_index][i].last_access = current_count;
            proof {
                lemma_replace_line(mid, *self, set_index as int, i as int);
                assert forall|a: u32| #[trigger] self.lookup(a) == old(self).lookup(a) by {
                    if spec_decode(self.config, a).0 == set_index as int {
                        assert(keys_of(self.lines@[set_index as int]@) =~= keys_of(
                            old(self).lines@[set_index as int]@,
                        ));
                    } else {
                        lemma_decode_bounds(self.config, a);
                    }
                }
            }
        } else {
            proof {
                lemma_wf_frame(*old(self), *self);
            }
        }
    }
}

/// A miss in flight: the address, whether it is a write, and its latency.
#[derive(Debug, Clone, Copy)]
pub struct MSHREntry {
    pub addr: u32,
    pub is_write: bool,
    pub write_data: Option<u8>,
    pub waiting_cycles: u32,
    pub total_cycles: u32,
}

/// The entry one cycle later.
pub open spec fn entry_tick(e: MSHREntry) -> MSHREntry {
    MSHREntry { waiting_cycles: (e.waiting_cycles + 1) as u32, ..e }
}

/// Whether an entry has waited its full latency once it has waited one more
/// cycle.
pub open spec fn entry_done(e: MSHREntry) -> bool {
    e.waiting_cycles + 1 >= e.total_cycles
}

/// Entries among the first `n` slots that complete on this cycle, with
/// their slot, in slot order.
pub open spec fn completed_in(slots: Seq<Option<MSHREntry>>, n: nat) -> Seq<(usize, MSHREntry)>
    decreases n,
{
    if n == 0 {
        Seq::empty()
    } else {
        let prev = completed_in(slots, (n - 1) as nat);
        match slots[n - 1] {
            Some(e) => if entry_done(e) {
                prev.push(((n - 1) as usize, entry_tick(e)))
            } else {
                prev
            },
            None => prev,
        }
    }
}

/// Slot after one cycle: completed entries are freed, the others waited one
/// more cycle.
pub open spec fn slot_tick(o: Option<MSHREntry>) -> Option<MSHREntry> {
    match o {
        Some(e) => if entry_done(e) {
            None
        } else {
            Some(entry_tick(e))
        },
        None => None,
    }
}

/// Miss status holding registers: a fixed number of slots for misses in
/// flight.
#[derive(Debug)]
pub struct MSHR {
    entries: Vec<Option<MSHREntry>>,
    max_entries: usize,
}

impl View for MSHR {
    type V = Seq<Option<MSHREntry>>;

    closed spec fn view(&self) -> Seq<Option<MSHREntry>> {
        self.entries@
    }
}

impl MSHR {
    /// Number of slots.
    pub closed spec fn capacity(&self) -> nat {
        self.max_entries as nat
    }

    /// Every slot is accounted for, and every entry still has cycles to
    /// wait or has not waited yet.
    pub closed spec fn wf(&self) -> bool {
        &&& self.entries@.len() == self.max_entries
        &&& forall|i: int| 0 <= i < self.entries@.len() ==> match #[trigger] self.entries@[i] {
            Some(e) => e.waiting_cycles == 0 || e.waiting_cycles < e.total_cycles,
            None => true,
        }
    }

    /// `size` empty slots.
    pub fn new(size: usize) -> (m: Self)
        ensures
            m.wf(),
            m.capacity() == size,
            m@ == Seq::new(size as nat, |i: int| None::<MSHREntry>),
    {
        let mut entries: Vec<Option<MSHREntry>> = Vec::with_capacity(size);
        let mut i: usize = 0;
        while i < size
            invariant
                i <= size,
                entries@ == Seq::new(i as nat, |k: int| None::<MSHREntry>),
            decreases size - i,
        {
            entries.push(None);
            i += 1;
        }
        MSHR { entries, max_entries: size }
    }

    /// Whether every slot is taken.
    pub fn is_full(&self) -> (r: bool)
        ensures
            r == forall|i: int| 0 <= i < self@.len() ==> (#[trigger] self@[i]) is Some,
    {
        let mut i: usize = 0;
        while i < self.entries.len()
            invariant
                i <= self.entries@.len(),
                forall|k: int| 0 <= k < i ==> (#[trigger] self.entries@[k]) is Some,
            decreases self.entries@.len() - i,
        {
            if self.entries[i].is_none() {
                return false;
            }
            i += 1;
        }
        true
    }

    /// First slot holding a miss on `addr`.
    pub fn find_entry(&self, addr: u32) -> (r: Option<usize>)
        ensures
            match r {
                Some(i) => i < self@.len() && (self@[i as int] matches Some(e) && e.addr == addr)
                    && forall|k: int|
                    0 <= k < i ==> !((#[trigger] self@[k]) matches Some(e) && e.addr == addr),
                None => forall|k: int|
                    0 <= k < self@.len() ==> !((#[trigger] self@[k]) matches Some(e) && e.addr
                        == addr),
            },
    {
        let mut i: usize = 0;
        while i < self.entries.len()
            invariant
                i <= self.entries@.len(),
                forall|k: int|
                    0 <= k < i ==> !((#[trigger] self.entries@[k]) matches Some(e) && e.addr
                        == addr),
            decreases self.entries@.len() - i,
        {
            match self.entries[i] {
                Some(e) => {
                    if e.addr == addr {
                        return Some(i);
                    }
                },
                None => {},
            }
            i += 1;
        }
        None
    }

    /// Puts a miss in the first free slot and returns the slot; `None` when
    /// every slot is taken.
    pub fn allocate(&mut self, addr: u32, is_write: bool, write_data: Option<u8>, latency: u32) -> (r:
        Option<usize>)
        requires
            old(self).wf(),
        ensures
            final(self).wf(),
            final(self).capacity() == old(self).capacity(),
            match r {
                Some(i) => {
                    &&& i < old(self)@.len()
                    &&& old(self)@[i as int] is None
                    &&& forall|k: int| 0 <= k < i ==> (#[trigger] old(self)@[k]) is Some
                    &&& final(self)@ == old(self)@.update(
                        i as int,
                        Some(
                            MSHREntry {
                                addr,
                                is_write,
                                write_data,
                                waiting_cycles: 0,
                                total_cycles: latency,
                            },
                        ),
                    )
                },
                None => {
                    &&& final(self)@ == old(self)@
                    &&& forall|k: int| 0 <= k < old(self)@.len() ==> (#[trigger] old(self)@[k]) is Some
                },
            },
    {
        let mut i: usize = 0;
        while i < self.entries.len()
            invariant
                i <= self.entries@.len(),
                self.entries@ == old(self).entries@,
                self.max_entries == old(self).max_entries,
                old(self).wf(),
                forall|k: int| 0 <= k < i ==> (#[trigger] self.entries@[k]) is Some,
            decreases self.entries@.len() - i,
        {
            if self.entries[i].is_none() {
                self.entries.set(
                    i,
                    Some(
                        MSHREntry {
                            addr,
                            is_write,
                            write_data,
                            waiting_cycles: 0,
                            total_cycles: latency,
                        },
                    ),
                );
                return Some(i);
            }
            i += 1;
        }
        None
    }

    /// Advances every miss by one cycle and frees and returns, with their
    /// slots, those that have waited their full latency.
    pub fn update(&mut self) -> (r: Vec<(usize, MSHREntry)>)
        requires
            old(self).wf(),
        ensures
            final(self).wf(),
            final(self).capacity() == old(self).capacity(),
            r@ == completed_in(old(self)@, old(self)@.len()),
            final(self)@ == old(self)@.map_values(|o: Option<MSHREntry>| slot_tick(o)),
    {
        let mut completed: Vec<(usize, MSHREntry)> = Vec::new();
        let n = self.entries.len();
        let mut idx: usize = 0;
        while idx < n
            invariant
                idx <= n,
                n == old(self).entries@.len(),
                self.entries@.len() == n,
                self.max_entries == old(self).max_entries,
                old(self).wf(),
                completed@ == completed_in(old(self).entries@, idx as nat),
                forall|k: int| 0 <= k < idx ==> #[trigger] self.entries@[k] == slot_tick(
                    old(self).entries@[k],
                ),
                forall|k: int| idx <= k < n ==> #[trigger] self.entries@[k] == old(self).entries@[k],
            decreases n - idx,
        {
            match self.entries[idx] {
                Some(e) => {
                    assert(old(self).entries@[idx as int] == Some(e));
                    let mut e2 = e;
                    e2.waiting_cycles += 1;
                    if e2.waiting_cycles >= e2.total_cycles {
                        completed.push((idx, e2));
                        self.entries.set(idx, None);
                    } else {
                        self.entries.set(idx, Some(e2));
                    }
                },
                None => {},
            }
            idx += 1;
        }
        proof {
            assert(self.entries@ =~= old(self).entries@.map_values(
                |o: Option<MSHREntry>| slot_tick(o),
            ));
        }
        completed
    }
}

/// Base address of the line of `addr`.
pub open spec fn line_base(addr: u32) -> int {
    addr as int - (addr as int) % (DEFAULT_LINE_SIZE as int)
}

/// Next-line prefetcher: on a miss, the lines that follow the missed one.
#[derive(Debug)]
pub struct SimplePrefetcher {
    enabled: bool,
    prefetch_degree: usize,
}

impl SimplePrefetcher {
    /// Whether prefetching is on.
    pub closed spec fn is_enabled(&self) -> bool {
        self.enabled
    }

    /// Number of lines prefetched after a miss.
    pub closed spec fn degree(&self) -> nat {
        self.prefetch_degree as nat
    }

    /// A prefetcher that fetches `degree` lines after a miss when `enabled`.
    pub fn new(enabled: bool, degree: usize) -> (p: Self)
        ensures
            p.is_enabled() == enabled,
            p.degree() == degree,
    {
        SimplePrefetcher { enabled, prefetch_degree: degree }
    }

    /// Whether an access to `_addr` triggers a prefetch: on a miss, when
    /// enabled.
    pub fn should_prefetch(&self, _addr: u32, is_miss: bool) -> (r: bool)
        ensures
            r == (self.is_enabled() && is_miss),
    {
        self.enabled && is_miss
    }

    /// Base addresses of the `degree` lines that follow the line of `addr`,
    /// nearest first; none when disabled.
    pub fn get_prefetch_addresses(&self, addr: u32) -> (r: Vec<u32>)
        requires
            self.is_enabled() ==> line_base(addr) + self.degree()
                * DEFAULT_LINE_SIZE <= u32::MAX,
        ensures
            r@ == if self.is_enabled() {
                Seq::new(
                    self.degree(),
                    |k: int| (line_base(addr) + (k + 1) * DEFAULT_LINE_SIZE) as u32,
                )
            } else {
                Seq::empty()
            },
    {
        if !self.enabled {
            return Vec::new();
        }
        let mut addrs: Vec<u32> = Vec::new();
        let line_addr = addr & !((DEFAULT_LINE_SIZE as u32) - 1);
        assert(addr & !63u32 == addr - addr % 64) by (bit_vector);
        let mut i: usize = 1;
        while i <= self.prefetch_degree
            invariant
                1 <= i <= self.prefetch_degree + 1,
                self.enabled,
                line_addr == line_base(addr),
                line_addr + self.prefetch_degree * 64 <= u32::MAX,
                addrs@ == Seq::new(
                    (i - 1) as nat,
                    |k: int| (line_base(addr) + (k + 1) * DEFAULT_LINE_SIZE) as u32,
                ),
            decreases self.prefetch_degree + 1 - i,
        {
            assert(i * 64 <= self.prefetch_degree * 64) by (nonlinear_arith)
                requires
                    i <= self.prefetch_degree,
            ;
            addrs.push(line_addr + (i as u32 * DEFAULT_LINE_SIZE as u32));
            proof {
                assert(addrs@ =~= Seq::new(
                    i as nat,
                    |k: int| (line_base(addr) + (k + 1) * DEFAULT_LINE_SIZE) as u32,
                ));
            }
            i += 1;
        }
        addrs
    }
}

/// Buffer of pending writes between L1 and L2.
#[derive(Debug)]
pub struct WriteBuffer {
    entries: Vec<(u32, u64)>,
    capacity: usize,
}

impl View for WriteBuffer {
    type V = Seq<(u32, u64)>;

    closed spec fn view(&self) -> Seq<(u32, u64)> {
        self.entries@
    }
}

impl WriteBuffer {
    /// Number of writes the buffer can hold.
    pub closed spec fn spec_capacity(&self) -> nat {
        self.capacity as nat
    }

    /// An empty buffer for `capacity` writes.
    pub fn new(capacity: usize) -> (b: Self)
        ensures
            b@ == Seq::<(u32, u64)>::empty(),
            b.spec_capacity() == capacity,
    {
        WriteBuffer { entries: Vec::with_capacity(capacity), capacity }
    }

    /// Whether the buffer holds `capacity` writes or more.
    pub fn is_full(&self) -> (r: bool)
        ensures
            r == (self@.len() >= self.spec_capacity()),
    {
        self.entries.len() >= self.capacity
    }

    /// Queues a write unless the buffer is full; says whether it was queued.
    pub fn add(&mut self, addr: u32, data: u64) -> (r: bool)
        ensures
            r == (old(self)@.len() < old(self).spec_capacity()),
            final(self)@ == if r {
                old(self)@.push((addr, data))
            } else {
                old(self)@
            },
            final(self).spec_capacity() == old(self).spec_capacity(),
    {
        if self.is_full() {
            false
        } else {
            self.entries.push((addr, data));
            true
        }
    }

    /// Takes every queued write, oldest first, leaving the buffer empty.
    pub fn drain(&mut self) -> (r: Vec<(u32, u64)>)
        ensures
            r@ == old(self)@,
            final(self)@ == Seq::<(u32, u64)>::empty(),
            final(self).spec_capacity() == old(self).spec_capacity(),
    {
        let mut out: Vec<(u32, u64)> = Vec::new();
        std::mem::swap(&mut out, &mut self.entries);
        out
    }
}

/// A line of the L1 line cache: its bytes and when it was last used.
#[derive(Debug, Clone, Copy)]
pub struct L1CacheLine {
    pub data: [u8; DEFAULT_LINE_SIZE],
    pub lru_timestamp: u64,
}

/// Fully associative cache of whole lines, keyed by line base address,
/// evicting the least recently used line when full.
#[derive(Debug)]
pub struct L1Cache {
    /// Total size in bytes.
    pub size: usize,
    /// Number of lines it holds at most.
    pub lines_count: usize,
    /// Size of a line in bytes.
    pub line_size: usize,
    /// The lines, each with its base address.
    pub data: Vec<(u32, L1CacheLine)>,
    /// Clock that stamps each use of a line.
    pub lru_counter: u64,
}

impl L1Cache {
    /// Whether a line with base address `base` is held.
    pub open spec fn has_line(&self, base: u32) -> bool {
        exists|i: int| 0 <= i < self.data@.len() && (#[trigger] self.data@[i]).0 == base
    }

    /// Slot of the line with base address `base`.
    pub open spec fn slot_of(&self, base: u32) -> int {
        choose|i: int| 0 <= i < self.data@.len() && (#[trigger] self.data@[i]).0 == base
    }

    /// The held lines by base address.
    pub open spec fn lines_map(&self) -> Map<u32, L1CacheLine> {
        Map::new(|k: u32| self.has_line(k), |k: u32| self.data@[self.slot_of(k)].1)
    }

    /// Lines of `DEFAULT_LINE_SIZE` bytes, no more lines than fit, and each
    /// base address held once.
    pub open spec fn wf(&self) -> bool {
        &&& self.line_size == DEFAULT_LINE_SIZE
        &&& self.lines_count == self.size / DEFAULT_LINE_SIZE
        &&& self.data@.len() <= self.lines_count
        &&& forall|i: int, j: int|
            0 <= i < self.data@.len() && 0 <= j < self.data@.len() && i != j
                ==> (#[trigger] self.data@[i]).0 != (#[trigger] self.data@[j]).0
    }

    /// An empty cache of `size` bytes.
    pub fn new(size: usize) -> (c: Self)
        ensures
            c.wf(),
            c.size == size,
            c.line_size == DEFAULT_LINE_SIZE,
            c.lines_count == size / DEFAULT_LINE_SIZE,
            c.data@.len() == 0,
            c.lru_counter == 0,
    {
        let line_size = DEFAULT_LINE_SIZE;
        let lines_count = size / line_size;
        L1Cache { size, lines_count, line_size, data: Vec::with_capacity(lines_count), lru_counter: 0 }
    }

    /// Base address of the line of `addr`.
    pub fn get_line_addr(&self, addr: u32) -> (r: u32)
        requires
            self.line_size == DEFAULT_LINE_SIZE,
        ensures
            r == line_base(addr),
    {
        let r = addr & !((self.line_size - 1) as u32);
        assert(addr & !63u32 == addr - addr % 64) by (bit_vector);
        r
    }

    /// Offset of `addr` in its line.
    pub fn get_offset(&self, addr: u32) -> (r: usize)
        requires
            self.line_size == DEFAULT_LINE_SIZE,
        ensures
            r == addr % (DEFAULT_LINE_SIZE as u32),
            r < DEFAULT_LINE_SIZE,
    {
        (addr % (self.line_size as u32)) as usize
    }

    /// Slot holding the line with base address `base`.
    fn find_slot(&self, base: u32) -> (r: Option<usize>)
        requires
            self.wf(),
        ensures
            r.is_some() == self.has_line(base),
            r matches Some(i) ==> i < self.data@.len() && self.data@[i as int].0 == base
                && self.slot_of(base) == i,
    {
        let mut i: usize = 0;
        while i < self.data.len()
            invariant
                self.wf(),
                i <= self.data@.len(),
                forall|k: int| 0 <= k < i ==> (#[trigger] self.data@[k]).0 != base,
            decreases self.data@.len() - i,
        {
            if self.data[i].0 == base {
                proof {
                    let j = self.slot_of(base);
                    assert(self.data@[i as int].0 == base);
                    assert(0 <= j < self.data@.len() && self.data@[j].0 == base);
                }
                return Some(i);
            }
            i += 1;
        }
        None
    }

    /// Whether the line of `addr` is held.
    pub fn has_address(&self, addr: u32) -> (r: bool)
        requires
            self.wf(),
        ensures
            r == self.lines_map().contains_key(line_base(addr) as u32),
    {
        let line_addr = self.get_line_addr(addr);
        self.find_slot(line_addr).is_some()
    }
}

/// Setting slot `i` to a line with the same base address replaces that
/// line in the map.
pub proof fn lemma_l1_set(a: L1Cache, b: L1Cache, i: int)
    requires
        a.wf(),
        0 <= i < a.data@.len(),
        b.data@ == a.data@.update(i, (a.data@[i].0, b.data@[i].1)),
        b.line_size == a.line_size,
        b.lines_count == a.lines_count,
        b.size == a.size,
    ensures
        b.wf(),
        b.lines_map() == a.lines_map().insert(a.data@[i].0, b.data@[i].1),
{
    let k0 = a.data@[i].0;
    assert forall|x: int, y: int|
        0 <= x < b.data@.len() && 0 <= y < b.data@.len() && x != y implies (#[trigger] b.data@[x]).0
        != (#[trigger] b.data@[y]).0 by {
        assert(b.data@[x].0 == a.data@[x].0);
        assert(b.data@[y].0 == a.data@[y].0);
    }
    assert forall|k: u32| #[trigger] b.has_line(k) == a.has_line(k) by {
        if a.has_line(k) {
            let j = a.slot_of(k);
            assert(b.data@[j].0 == k);
        }
        if b.has_line(k) {
            let j = b.slot_of(k);
            assert(a.data@[j].0 == k);
        }
    }
    assert(b.lines_map() =~= a.lines_map().insert(k0, b.data@[i].1)) by {
        assert forall|k: u32| b.lines_map().contains_key(k) implies b.lines_map()[k]
            == a.lines_map().insert(k0, b.data@[i].1)[k] by {
            let j = b.slot_of(k);
            assert(b.data@[j].0 == k);
            if k == k0 {
                assert(j == i);
            } else {
                let ja = a.slot_of(k);
                assert(a.data@[ja].0 == k);
                assert(b.data@[ja].0 == k);
                assert(ja == j);
            }
        }
    }
}

/// Appending a line whose base address is not held adds it to the map.
pub proof fn lemma_l1_push(a: L1Cache, b: L1Cache, base: u32, line: L1CacheLine)
    requires
        a.wf(),
        !a.has_line(base),
        b.data@ == a.data@.push((base, line)),
        b.line_size == a.line_size,
        b.lines_count == a.lines_count,
        b.size == a.size,
        a.data@.len() < a.lines_count,
    ensures
        b.wf(),
        b.lines_map() == a.lines_map().insert(base, line),
{
    let n = a.data@.len() as int;
    assert forall|x: int, y: int|
        0 <= x < b.data@.len() && 0 <= y < b.data@.len() && x != y implies (#[trigger] b.data@[x]).0
        != (#[trigger] b.data@[y]).0 by {
        if x < n && y < n {
            assert(b.data@[x] == a.data@[x]);
            assert(b.data@[y] == a.data@[y]);
        } else if x == n {
            assert(b.data@[y] == a.data@[y]);
        } else {
            assert(b.data@[x] == a.data@[x]);
        }
    }
    assert(b.lines_map() =~= a.lines_map().insert(base, line)) by {
        assert forall|k: u32| #[trigger] b.has_line(k) == (a.has_line(k) || k == base) by {
            if a.has_line(k) {
                let j = a.slot_of(k);
                assert(b.data@[j].0 == k);
            }
            if k == base {
                assert(b.data@[n].0 == k);
            }
            if b.has_line(k) && k != base {
                let j = b.slot_of(k);
                assert(j != n);
                assert(a.data@[j].0 == k);
            }
        }
        assert forall|k: u32| b.lines_map().contains_key(k) implies b.lines_map()[k]
            == a.lines_map().insert(base, line)[k] by {
            let j = b.slot_of(k);
            if k == base {
                assert(b.data@[n].0 == base);
                assert(j == n);
            } else {
                let ja = a.slot_of(k);
                assert(a.data@[ja].0 == k);
                assert(b.data@[ja].0 == k);
                assert(ja == j);
            }
        }
    }
}

/// Removing slot `i` removes its base address from the map.
pub proof fn lemma_l1_remove(a: L1Cache, b: L1Cache, i: int)
    requires
        a.wf(),
        0 <= i < a.data@.len(),
        b.data@ == a.data@.remove(i),
        b.line_size == a.line_size,
        b.lines_count == a.lines_count,
        b.size == a.size,
    ensures
        b.wf(),
        b.lines_map() == a.lines_map().remove(a.data@[i].0),
{
    let k0 = a.data@[i].0;
    assert forall|x: int| 0 <= x < b.data@.len() implies #[trigger] b.data@[x] == a.data@[if x < i {
        x
    } else {
        x + 1
    }] by {}
    assert forall|x: int, y: int|
        0 <= x < b.data@.len() && 0 <= y < b.data@.len() && x != y implies (#[trigger] b.data@[x]).0
        != (#[trigger] b.data@[y]).0 by {
        let xa = if x < i { x } else { x + 1 };
        let ya = if y < i { y } else { y + 1 };
        assert(b.data@[x] == a.data@[xa]);
        assert(b.data@[y] == a.data@[ya]);
    }
    assert(b.lines_map() =~= a.lines_map().remove(k0)) by {
        assert forall|k: u32| #[trigger] b.has_line(k) == (a.has_line(k) && k != k0) by {
            if a.has_line(k) && k != k0 {
                let j = a.slot_of(k);
                assert(j != i);
                let jb = if j < i { j } else { j - 1 };
                assert(b.data@[jb] == a.data@[j]);
            }
            if b.has_line(k) {
                let j = b.slot_of(k);
                let ja = if j < i { j } else { j + 1 };
                assert(a.data@[ja].0 == k);
                assert(ja != i);
            }
        }
        assert forall|k: u32| b.lines_map().contains_key(k) implies b.lines_map()[k]
            == a.lines_map().remove(k0)[k] by {
            let j = b.slot_of(k);
            let ja = if j < i { j } else { j + 1 };
            assert(a.data@[ja].0 == k);
            let ka = a.slot_of(k);
            assert(a.data@[ka].0 == k);
            assert(ka == ja);
        }
    }
}

impl L1Cache {
    /// Reads the byte at `addr` if its line is held, stamping the line as
    /// just used; `None` on a miss.
    pub fn read_byte(&mut self, addr: u32) -> (r: Option<u8>)
        requires
            old(self).wf(),
            old(self).lru_counter < u64::MAX,
        ensures
            final(self).wf(),
            final(self).size == old(self).size,
            final(self).lines_count == old(self).lines_count,
            ({
                let m = old(self).lines_map();
                let base = line_base(addr) as u32;
                if m.contains_key(base) {
                    &&& r == Some(m[base].data@[(addr % 64) as int])
                    &&& final(self).lru_counter == old(self).lru_counter + 1
                    &&& final(self).lines_map() == m.insert(
                        base,
                        L1CacheLine { lru_timestamp: final(self).lru_counter, ..m[base] },
                    )
                } else {
                    &&& r is None
                    &&& final(self).lru_counter == old(self).lru_counter
                    &&& final(self).data@ == old(self).data@
                }
            }),
    {
        let base = self.get_line_addr(addr);
        let offset = self.get_offset(addr);
        match self.find_slot(base) {
            Some(i) => {
                self.lru_counter += 1;
                let ghost before = *self;
                self.data[i].1.lru_timestamp = self.lru_counter;
                proof {
                    lemma_l1_set(before, *self, i as int);
                }
                Some(self.data[i].1.data[offset])
            },
            None => None,
        }
    }

    /// Writes the byte at `addr` if its line is held, stamping the line as
    /// just used; says whether it was held.
    pub fn write_byte(&mut self, addr: u32, value: u8) -> (r: bool)
        requires
            old(self).wf(),
            old(self).lru_counter < u64::MAX,
        ensures
            final(self).wf(),
            final(self).size == old(self).size,
            final(self).lines_count == old(self).lines_count,
            ({
                let m = old(self).lines_map();
                let base = line_base(addr) as u32;
                if m.contains_key(base) {
                    &&& r
                    &&& final(self).lru_counter == old(self).lru_counter + 1
                    &&& final(self).lines_map().dom() == m.dom()
                    &&& forall|k: u32| k != base && #[trigger] m.contains_key(k) ==> final(self).lines_map()[k] == m[k]
                    &&& final(self).lines_map()[base].data@ == m[base].data@.update((addr % 64) as int, value)
                    &&& final(self).lines_map()[base].lru_timestamp == final(self).lru_counter
                } else {
                    &&& !r
                    &&& final(self).lru_counter == old(self).lru_counter
                    &&& final(self).data@ == old(self).data@
                }
            }),
    {
        let base = self.get_line_addr(addr);
        let offset = self.get_offset(addr);
        match self.find_slot(base) {
            Some(i) => {
                self.lru_counter += 1;
                let ghost before = *self;
                self.data[i].1.lru_timestamp = self.lru_counter;
                self.data[i].1.data[offset] = value;
                proof {
                    assert(self.data@ =~= before.data@.update(
                        i as int,
                        (before.data@[i as int].0, self.data@[i as int].1),
                    ));
                    lemma_l1_set(before, *self, i as int);
                    assert(self.data@[i as int].1.data@ == before.data@[i as int].1.data@.update(
                        offset as int,
                        value,
                    ));
                }
                true
            },
            None => false,
        }
    }

    /// Places a whole line at `base_addr`: replaces it if held, otherwise
    /// inserts it, first evicting the least recently used line when the cache
    /// is full. The line is stamped as just used.
    pub fn fill_line(&mut self, base_addr: u32, line_data: [u8; DEFAULT_LINE_SIZE])
        requires
            old(self).wf(),
            old(self).lines_count >= 1,
            old(self).lru_counter < u64::MAX,
        ensures
            final(self).wf(),
            final(self).size == old(self).size,
            final(self).lines_count == old(self).lines_count,
            final(self).lru_counter == old(self).lru_counter + 1,
            ({
                let m = old(self).lines_map();
                let line = L1CacheLine { data: line_data, lru_timestamp: final(self).lru_counter };
                if m.contains_key(base_addr) {
                    final(self).lines_map() == m.insert(base_addr, line)
                } else if old(self).data@.len() >= old(self).lines_count {
                    exists|victim: u32|
                        #![trigger m[victim]]
                        m.contains_key(victim) && (forall|k: u32|
                            #[trigger] m.contains_key(k) ==> m[victim].lru_timestamp
                                <= m[k].lru_timestamp) && final(self).lines_map() == m.remove(
                            victim,
                        ).insert(base_addr, line)
                } else {
                    final(self).lines_map() == m.insert(base_addr, line)
                }
            }),
    {
        match self.find_slot(base_addr) {
            Some(i) => {
                self.lru_counter += 1;
                let ghost before = *self;
                self.data[i].1 = L1CacheLine { data: line_data, lru_timestamp: self.lru_counter };
                proof {
                    lemma_l1_set(before, *self, i as int);
                }
                return ;
            },
            None => {},
        }
        if self.data.len() >= self.lines_count {
            let mut victim: usize = 0;
            let mut j: usize = 1;
            while j < self.data.len()
                invariant
                    1 <= j <= self.data@.len(),
                    victim < j,
                    forall|k: int| 0 <= k < j ==> self.data@[victim as int].1.lru_timestamp
                        <= (#[trigger] self.data@[k]).1.lru_timestamp,
                decreases self.data@.len() - j,
            {
                if self.data[j].1.lru_timestamp < self.data[victim].1.lru_timestamp {
                    victim = j;
                }
                j += 1;
            }
            let ghost before = *self;
            let ghost m = before.lines_map();
            let ghost vkey = before.data@[victim as int].0;
            self.data.remove(victim);
            proof {
                lemma_l1_remove(before, *self, victim as int);
                assert(m.contains_key(vkey));
                assert(m[vkey] == before.data@[victim as int].1);
                assert forall|k: u32| #[trigger] m.contains_key(k) implies m[vkey].lru_timestamp
                    <= m[k].lru_timestamp by {
                    let jk = before.slot_of(k);
                    assert(before.data@[jk].0 == k);
                }
            }
        }
        let mut line = L1CacheLine { data: line_data, lru_timestamp: 0 };
        self.lru_counter += 1;
        line.lru_timestamp = self.lru_counter;
        let ghost before_push = *self;
        self.data.push((base_addr, line));
        proof {
            assert(!before_push.has_line(base_addr)) by {
                if before_push.has_line(base_addr) {
                    let j = before_push.slot_of(base_addr);
                    assert(old(self).has_line(base_addr)) by {
                        if j < 0 {
                        }
                    }
                }
            }
            lemma_l1_push(before_push, *self, base_addr, line);
        }
    }

    /// Drops every line and restarts the clock.
    pub fn clear(&mut self)
        requires
            old(self).wf(),
        ensures
            final(self).wf(),
            final(self).size == old(self).size,
            final(self).lines_count == old(self).lines_count,
            final(self).line_size == old(self).line_size,
            final(self).data@.len() == 0,
            final(self).lru_counter == 0,
    {
        self.data.clear();
        self.lru_counter = 0;
    }
}

/// Outcome of an access to the cache hierarchy.
#[derive(Debug, Clone, Copy, PartialEq, Eq, Structural)]
pub enum CacheAccessResult {
    /// Hit in L1, with the value.
    Hit(u64),
    /// Miss in L1, hit in L2, with the value.
    L2Hit(u64),
    /// Miss in both levels.
    Miss,
    /// A miss on the address is already in flight.
    MSHRPending,
}

/// Byte `k` (little-endian) of `x`.
pub open spec fn le_byte(x: u64, k: u64) -> u8 {
    ((x >> (8 * k)) & 0xff) as u8
}

/// L1 data, L1 instruction and unified L2 caches, with miss registers, a
/// prefetcher and a write buffer.
#[derive(Debug)]
pub struct CacheHierarchy {
    pub l1_data: Cache,
    pub l1_inst: Cache,
    pub l2_unified: Cache,
    pub write_buffer: WriteBuffer,
    pub mshr: MSHR,
    pub prefetcher: SimplePrefetcher,
    pub l2_latency: u32,
    pub memory_latency: u32,
}

impl CacheHierarchy {
    /// Every cache and the miss registers keep their invariants.
    pub open spec fn wf(&self) -> bool {
        &&& self.l1_data.wf()
        &&& self.l1_inst.wf()
        &&& self.l2_unified.wf()
        &&& self.mshr.wf()
    }

    /// Whether a miss on `addr` is in flight.
    pub open spec fn pending(&self, addr: u32) -> bool {
        exists|i: int|
            0 <= i < self.mshr@.len() && (#[trigger] self.mshr@[i] matches Some(e) && e.addr
                == addr)
    }

    /// Outcome of a read of `addr`: pending, an L1 hit, an L2 hit or a miss.
    pub open spec fn spec_read(&self, addr: u32) -> CacheAccessResult {
        if self.pending(addr) {
            CacheAccessResult::MSHRPending
        } else {
            match self.l1_data.read_value(addr) {
                Some(b) => CacheAccessResult::Hit(b as u64),
                None => match self.l2_unified.read_value(addr) {
                    Some(b) => CacheAccessResult::L2Hit(b as u64),
                    None => CacheAccessResult::Miss,
                },
            }
        }
    }

    /// Outcome of a write of `data` at `addr`: pending, or an L1 hit, or a
    /// miss when there is no data.
    pub open spec fn spec_write(&self, addr: u32, data: Option<u64>) -> CacheAccessResult {
        if self.pending(addr) {
            CacheAccessResult::MSHRPending
        } else {
            match data {
                Some(d) => CacheAccessResult::Hit(d),
                None => CacheAccessResult::Miss,
            }
        }
    }

    /// Level `b` holds the same lines, with the same access count and
    /// configuration, as level `a`.
    pub open spec fn same_contents(a: Cache, b: Cache) -> bool {
        &&& b.config == a.config
        &&& b.lines == a.lines
        &&& b.access_count == a.access_count
    }

    /// What a read of `addr` that no pending miss holds does to the two data
    /// levels, taking `a` to `b`: an L1 hit stamps the L1 line; an L2 hit
    /// stamps the L2 line and brings the byte into an L1 line; a miss in
    /// both changes neither.
    pub open spec fn read_effect(a: CacheHierarchy, b: CacheHierarchy, addr: u32) -> bool {
        match a.l1_data.lookup(addr) {
            Some(_) => Cache::refreshed(a.l1_data, b.l1_data, addr) && CacheHierarchy::same_contents(
                a.l2_unified,
                b.l2_unified,
            ),
            None => match a.l2_unified.lookup(addr) {
                Some(_) => Cache::refreshed(a.l2_unified, b.l2_unified, addr) && exists|w: int|
                    #[trigger] Cache::allocated(
                        a.l1_data,
                        b.l1_data,
                        addr,
                        w,
                        writes_back(a.l1_data.config),
                    ),
                None => CacheHierarchy::same_contents(a.l1_data, b.l1_data)
                    && CacheHierarchy::same_contents(a.l2_unified, b.l2_unified),
            },
        }
    }

    /// A byte written at `addr`, which neither level held, took `a` to `b`:
    /// L1 allocated a line for it and L2 is unchanged.
    pub open spec fn fill_effect(a: CacheHierarchy, b: CacheHierarchy, addr: u32) -> bool {
        &&& exists|w: int|
            #[trigger] Cache::allocated(a.l1_data, b.l1_data, addr, w, writes_back(a.l1_data.config))
        &&& CacheHierarchy::same_contents(a.l2_unified, b.l2_unified)
    }

    /// Outcome of a byte read of `addr`: the byte the hierarchy holds there.
    pub open spec fn spec_read_byte(&self, addr: u32) -> CacheAccessResult {
        self.spec_read(addr)
    }

    /// Outcome of a byte write of `b` at `addr`: when the byte is found, the
    /// write hits L1 with `b`; a miss or a pending miss is reported as such.
    pub open spec fn spec_write_byte(&self, addr: u32, b: u8) -> CacheAccessResult {
        match self.spec_read(addr) {
            CacheAccessResult::Hit(_) => CacheAccessResult::Hit(b as u64),
            CacheAccessResult::L2Hit(_) => CacheAccessResult::Hit(b as u64),
            other => other,
        }
    }

    /// A hierarchy of the three caches, with eight miss registers, a
    /// next-two-lines prefetcher and a sixteen-entry write buffer.
    pub fn new(l1_data_config: CacheConfig, l1_inst_config: CacheConfig, l2_config: CacheConfig) -> (h:
        Self)
        requires
            config_valid(l1_data_config),
            config_valid(l1_inst_config),
            config_valid(l2_config),
        ensures
            h.wf(),
            h.l1_data.config == l1_data_config,
            h.l1_inst.config == l1_inst_config,
            h.l2_unified.config == l2_config,
            h.l1_data.next_level is None,
            h.l1_inst.next_level is None,
            h.l2_unified.next_level is None,
            h.l1_data.statistics == CacheStatistics::spec_zero(),
            h.l1_inst.statistics == CacheStatistics::spec_zero(),
            h.l2_unified.statistics == CacheStatistics::spec_zero(),
            h.l1_data.access_count == 0,
            h.l1_inst.access_count == 0,
            h.l2_unified.access_count == 0,
            forall|a: u32| #[trigger] h.l1_data.lookup(a) is None,
            forall|a: u32| #[trigger] h.l2_unified.lookup(a) is None,
            h.mshr@ == Seq::new(8, |i: int| None::<MSHREntry>),
            h.write_buffer@ == Seq::<(u32, u64)>::empty(),
            h.write_buffer.spec_capacity() == 16,
            h.prefetcher.is_enabled(),
            h.prefetcher.degree() == 2,
            h.l2_latency == 12,
            h.memory_latency == 100,
    {
        let l2_unified = Cache::new(l2_config, None);
        let l1_data = Cache::new(l1_data_config, None);
        let l1_inst = Cache::new(l1_inst_config, None);
        let h = CacheHierarchy {
            l1_data,
            l1_inst,
            l2_unified,
            write_buffer: WriteBuffer::new(16),
            mshr: MSHR::new(8),
            prefetcher: SimplePrefetcher::new(true, 2),
            l2_latency: 12,
            memory_latency: 100,
        };
        proof {
            assert forall|a: u32| #[trigger] h.l1_data.lookup(a) is None by {
                lemma_decode_bounds(l1_data_config, a);
                let (st, t, o) = spec_decode(l1_data_config, a);
                let keys = keys_of(h.l1_data.lines@[st]@);
                assert forall|w: int| 0 <= w < l1_data_config.associativity implies #[trigger] keys[w]
                    != (true, t) by {
                    assert(h.l1_data.line(st, w).is_empty_line());
                }
            }
            assert forall|a: u32| #[trigger] h.l2_unified.lookup(a) is None by {
                lemma_decode_bounds(l2_config, a);
                let (st, t, o) = spec_decode(l2_config, a);
                let keys = keys_of(h.l2_unified.lines@[st]@);
                assert forall|w: int| 0 <= w < l2_config.associativity implies #[trigger] keys[w]
                    != (true, t) by {
                    assert(h.l2_unified.line(st, w).is_empty_line());
                }
            }
        }
        h
    }

    /// Accesses the word at `addr`: a pending miss is reported as such; a
    /// write with data goes to L1; a read tries L1, then L2 (filling L1 on an
    /// L2 hit), and reports a miss when both miss. A write without data is
    /// reported as a miss.
    pub fn access_data(&mut self, addr: u32, is_write: bool, write_data: Option<u64>) -> (r: Result<
        CacheAccessResult,
        VMError,
    >)
        requires
            old(self).wf(),
            old(self).l1_data.headroom() >= 2,
            old(self).l2_unified.headroom() >= 1,
        ensures
            r == Ok::<CacheAccessResult, VMError>(
                if is_write {
                    old(self).spec_write(addr, write_data)
                } else {
                    old(self).spec_read(addr)
                },
            ),
            final(self).wf(),
            final(self).mshr == old(self).mshr,
            final(self).write_buffer == old(self).write_buffer,
            final(self).prefetcher == old(self).prefetcher,
            final(self).l1_inst == old(self).l1_inst,
            final(self).l2_latency == old(self).l2_latency,
            final(self).memory_latency == old(self).memory_latency,
            final(self).l1_data.config == old(self).l1_data.config,
            final(self).l2_unified.config == old(self).l2_unified.config,
            final(self).l1_data.depth() == old(self).l1_data.depth(),
            final(self).l2_unified.depth() == old(self).l2_unified.depth(),
            final(self).l1_data.headroom() + 2 >= old(self).l1_data.headroom(),
            final(self).l2_unified.headroom() + 1 >= old(self).l2_unified.headroom(),
            !old(self).pending(addr) && is_write && write_data is Some ==> final(self).l1_data.lookup(
                addr,
            ) == Some(write_data->0 as u8),
            !old(self).pending(addr) && !is_write ==> match r {
                Ok(CacheAccessResult::Hit(b)) => final(self).l1_data.lookup(addr) == Some(b as u8),
                Ok(CacheAccessResult::L2Hit(b)) => final(self).l1_data.lookup(addr) == Some(b as u8),
                _ => true,
            },
            old(self).pending(addr) ==> *final(self) == *old(self),
            !old(self).pending(addr) && old(self).l1_data.depth() == 0 && old(self).l2_unified.depth()
                == 0 && !is_write ==> CacheHierarchy::read_effect(*old(self), *final(self), addr),
            !old(self).pending(addr) && old(self).l1_data.depth() == 0 && is_write && write_data is Some
                && old(self).l1_data.lookup(addr) is None ==> CacheHierarchy::fill_effect(
                *old(self),
                *final(self),
                addr,
            ),
    {
        match self.mshr.find_entry(addr) {
            Some(_) => {
                return Ok(CacheAccessResult::MSHRPending);
            },
            None => {},
        }
        let l1_result = if is_write {
            match write_data {
                Some(data) => {
                    let data_u8 = data as u8;
                    match self.l1_data.write(addr, data_u8) {
                        Ok(_) => Ok(CacheAccessResult::Hit(data)),
                        Err(e) => Err(e),
                    }
                },
                None => Err(VMError::WriteWithoutData),
            }
        } else {
            match self.l1_data.read(addr) {
                Ok(v) => Ok(CacheAccessResult::Hit(v)),
                Err(e) => Err(e),
            }
        };
        match l1_result {
            Ok(result) => Ok(result),
            Err(_) => {
                let l2_result = if is_write {
                    match write_data {
                        Some(data) => {
                            let data_u8 = data as u8;
                            match self.l2_unified.write(addr, data_u8) {
                                Ok(_) => Ok(CacheAccessResult::L2Hit(data)),
                                Err(e) => Err(e),
                            }
                        },
                        None => Err(VMError::WriteWithoutData),
                    }
                } else {
                    match self.l2_unified.read(addr) {
                        Ok(v) => Ok(CacheAccessResult::L2Hit(v)),
                        Err(e) => Err(e),
                    }
                };
                match l2_result {
                    Ok(CacheAccessResult::L2Hit(data)) => {
                        if !is_write {
                            let data_u8 = data as u8;
                            let ghost mid = self.l1_data;
                            let _ = self.l1_data.write(addr, data_u8);
                            proof {
                                if old(self).l1_data.depth() == 0 && old(self).l1_data.lookup(addr)
                                    is None {
                                    assert(mid.lines == old(self).l1_data.lines);
                                    assert(mid.lookup(addr) is None);
                                    let w = choose|w: int|
                                        #[trigger] Cache::allocated(
                                            mid,
                                            self.l1_data,
                                            addr,
                                            w,
                                            writes_back(mid.config),
                                        );
                                    assert(Cache::allocated(
                                        old(self).l1_data,
                                        self.l1_data,
                                        addr,
                                        w,
                                        writes_back(old(self).l1_data.config),
                                    ));
                                }
                            }
                        }
                        Ok(CacheAccessResult::L2Hit(data))
                    },
                    Err(_) => Ok(CacheAccessResult::Miss),
                    _ => l2_result,
                }
            },
        }
    }
}

impl CacheHierarchy {
    /// Accesses one byte. A read returns the byte found. A write reads the
    /// byte first, then writes it, and reports the miss when the read
    /// missed. A write without data is an error.
    pub fn access_byte(&mut self, addr: u32, is_write: bool, write_data: Option<u8>) -> (r: Result<
        CacheAccessResult,
        VMError,
    >)
        requires
            old(self).wf(),
            old(self).l1_data.headroom() >= 4,
            old(self).l2_unified.headroom() >= 2,
        ensures
            r == if is_write {
                match write_data {
                    Some(b) => Ok(old(self).spec_write_byte(addr, b)),
                    None => Err(VMError::WriteWithoutData),
                }
            } else {
                Ok::<CacheAccessResult, VMError>(old(self).spec_read_byte(addr))
            },
            final(self).wf(),
            final(self).mshr == old(self).mshr,
            final(self).write_buffer == old(self).write_buffer,
            final(self).prefetcher == old(self).prefetcher,
            final(self).l1_inst == old(self).l1_inst,
            final(self).l2_latency == old(self).l2_latency,
            final(self).memory_latency == old(self).memory_latency,
            final(self).l1_data.config == old(self).l1_data.config,
            final(self).l2_unified.config == old(self).l2_unified.config,
            final(self).l1_data.depth() == old(self).l1_data.depth(),
            final(self).l2_unified.depth() == old(self).l2_unified.depth(),
            final(self).l1_data.headroom() + 4 >= old(self).l1_data.headroom(),
            final(self).l2_unified.headroom() + 2 >= old(self).l2_unified.headroom(),
            !old(self).pending(addr) && is_write && write_data is Some ==> final(self).l1_data.lookup(addr)
                == Some(write_data->0),
            !old(self).pending(addr) && !is_write ==> match old(self).spec_read(addr) {
                CacheAccessResult::Hit(d) => final(self).l1_data.lookup(addr) == Some(d as u8),
                CacheAccessResult::L2Hit(d) => final(self).l1_data.lookup(addr) == Some(d as u8),
                _ => true,
            },
            old(self).pending(addr) ==> *final(self) == *old(self),
            !old(self).pending(addr) && old(self).l1_data.depth() == 0 && old(self).l2_unified.depth()
                == 0 && !is_write ==> CacheHierarchy::read_effect(*old(self), *final(self), addr),
            !old(self).pending(addr) && old(self).l1_data.depth() == 0 && old(self).l2_unified.depth()
                == 0 && is_write && write_data is Some && old(self).l1_data.lookup(addr) is None
                && old(self).l2_unified.lookup(addr) is None ==> CacheHierarchy::fill_effect(
                *old(self),
                *final(self),
                addr,
            ),
    {
        if is_write {
            match write_data {
                Some(byte_value) => {
                    let first = self.access_data(addr, false, None);
                    match first {
                        Ok(CacheAccessResult::Hit(_)) | Ok(CacheAccessResult::L2Hit(_)) => {
                            self.access_data(addr, true, Some(byte_value as u64))
                        },
                        Ok(CacheAccessResult::Miss) | Ok(CacheAccessResult::MSHRPending) => {
                            let ghost mid = *self;
                            proof {
                                if !old(self).pending(addr) && old(self).l1_data.depth() == 0
                                    && old(self).l2_unified.depth() == 0 && old(self).l1_data.lookup(
                                    addr,
                                ) is None && old(self).l2_unified.lookup(addr) is None {
                                    assert(mid.l1_data.lines == old(self).l1_data.lines);
                                    assert(mid.l1_data.lookup(addr) is None);
                                    assert(!mid.pending(addr));
                                }
                            }
                            let second = self.access_data(addr, true, Some(byte_value as u64));
                            proof {
                                if !old(self).pending(addr) && old(self).l1_data.depth() == 0
                                    && old(self).l2_unified.depth() == 0 && old(self).l1_data.lookup(
                                    addr,
                                ) is None && old(self).l2_unified.lookup(addr) is None {
                                    let w = choose|w: int|
                                        #[trigger] Cache::allocated(
                                            mid.l1_data,
                                            self.l1_data,
                                            addr,
                                            w,
                                            writes_back(mid.l1_data.config),
                                        );
                                    assert(Cache::allocated(
                                        old(self).l1_data,
                                        self.l1_data,
                                        addr,
                                        w,
                                        writes_back(old(self).l1_data.config),
                                    ));
                                }
                            }
                            match second {
                                Ok(_) => first,
                                Err(e) => Err(e),
                            }
                        },
                        Err(e) => Err(e),
                    }
                },
                None => Err(VMError::WriteWithoutData),
            }
        } else {
            self.access_data(addr, false, None)
        }
    }

    /// Advances the miss registers by one cycle and returns the misses that
    /// completed, in slot order.
    pub fn update_mshr(&mut self) -> (r: Vec<MSHREntry>)
        requires
            old(self).wf(),
        ensures
            final(self).wf(),
            r@ == completed_in(old(self).mshr@, old(self).mshr@.len()).map_values(
                |p: (usize, MSHREntry)| p.1,
            ),
            final(self).mshr@ == old(self).mshr@.map_values(|o: Option<MSHREntry>| slot_tick(o)),
            final(self).mshr.capacity() == old(self).mshr.capacity(),
            final(self).l1_data == old(self).l1_data,
            final(self).l1_inst == old(self).l1_inst,
            final(self).l2_unified == old(self).l2_unified,
            final(self).write_buffer == old(self).write_buffer,
    {
        let completed = self.mshr.update();
        let mut completed_entries: Vec<MSHREntry> = Vec::new();
        let mut i: usize = 0;
        while i < completed.len()
            invariant
                i <= completed@.len(),
                completed_entries@ == completed@.take(i as int).map_values(
                    |p: (usize, MSHREntry)| p.1,
                ),
            decreases completed@.len() - i,
        {
            let (_, entry) = completed[i];
            completed_entries.push(entry);
            proof {
                assert(completed@.take(i + 1) =~= completed@.take(i as int).push(completed@[i as int]));
                assert(completed_entries@ =~= completed@.take(i + 1).map_values(
                    |p: (usize, MSHREntry)| p.1,
                ));
            }
            i += 1;
        }
        proof {
            assert(completed@.take(completed@.len() as int) =~= completed@);
        }
        completed_entries
    }

    /// Writes every buffered word, byte by byte (little-endian), to L2 and
    /// empties the buffer.
    pub fn flush_write_buffer(&mut self) -> (r: Result<(), VMError>)
        requires
            old(self).wf(),
            old(self).l2_unified.headroom() >= 8 * old(self).write_buffer@.len(),
            forall|i: int|
                0 <= i < old(self).write_buffer@.len() ==> (#[trigger] old(self).write_buffer@[i]).0
                    <= u32::MAX - 7,
        ensures
            r is Ok,
            final(self).wf(),
            final(self).write_buffer@ == Seq::<(u32, u64)>::empty(),
            final(self).write_buffer.spec_capacity() == old(self).write_buffer.spec_capacity(),
            final(self).l1_data == old(self).l1_data,
            final(self).l1_inst == old(self).l1_inst,
            final(self).mshr == old(self).mshr,
            final(self).l2_unified.config == old(self).l2_unified.config,
            final(self).l2_unified.depth() == old(self).l2_unified.depth(),
            final(self).l2_unified.headroom() + 8 * old(self).write_buffer@.len()
                >= old(self).l2_unified.headroom(),
            old(self).write_buffer@.len() > 0 ==> ({
                let last = old(self).write_buffer@.last();
                final(self).l2_unified.lookup((last.0 + 7) as u32) == Some(le_byte(last.1, 7))
            }),
    {
        let entries = self.write_buffer.drain();
        let n = entries.len();
        let mut k: usize = 0;
        while k < n
            invariant
                k <= n,
                n == entries@.len(),
                entries@ == old(self).write_buffer@,
                self.wf(),
                self.write_buffer@ == Seq::<(u32, u64)>::empty(),
                self.write_buffer.spec_capacity() == old(self).write_buffer.spec_capacity(),
                self.l1_data == old(self).l1_data,
                self.l1_inst == old(self).l1_inst,
                self.mshr == old(self).mshr,
                self.l2_unified.config == old(self).l2_unified.config,
                self.l2_unified.depth() == old(self).l2_unified.depth(),
                self.l2_unified.headroom() + 8 * k >= old(self).l2_unified.headroom(),
                old(self).l2_unified.headroom() >= 8 * n,
                forall|i: int| 0 <= i < n ==> (#[trigger] entries@[i]).0 <= u32::MAX - 7,
                k > 0 ==> self.l2_unified.lookup((entries@[k - 1].0 + 7) as u32) == Some(
                    le_byte(entries@[k - 1].1, 7),
                ),
            decreases n - k,
        {
            let (addr, data) = entries[k];
            let mut i: u32 = 0;
            while i < 8
                invariant
                    i <= 8,
                    addr <= u32::MAX - 7,
                    self.wf(),
                    self.write_buffer@ == Seq::<(u32, u64)>::empty(),
                    self.write_buffer.spec_capacity() == old(self).write_buffer.spec_capacity(),
                    self.l1_data == old(self).l1_data,
                    self.l1_inst == old(self).l1_inst,
                    self.mshr == old(self).mshr,
                    self.l2_unified.config == old(self).l2_unified.config,
                    self.l2_unified.depth() == old(self).l2_unified.depth(),
                    self.l2_unified.headroom() + 8 * k + i >= old(self).l2_unified.headroom(),
                    old(self).l2_unified.headroom() >= 8 * n,
                    k < n,
                    i > 0 ==> self.l2_unified.lookup((addr + i - 1) as u32) == Some(
                        le_byte(data, (i - 1) as u64),
                    ),
                decreases 8 - i,
            {
                let byte = ((data >> (8 * i as u64)) & 0xff) as u8;
                let _ = self.l2_unified.write(addr + i, byte);
                i += 1;
            }
            k += 1;
        }
        Ok(())
    }

    /// Puts a byte that came from memory in L2, then in L1.
    pub fn fill_from_memory(&mut self, addr: u32, data: u8) -> (r: Result<(), VMError>)
        requires
            old(self).wf(),
            old(self).l1_data.headroom() >= 1,
            old(self).l2_unified.headroom() >= 1,
        ensures
            r is Ok,
            final(self).wf(),
            final(self).l2_unified.lookup(addr) == Some(data),
            final(self).l1_data.lookup(addr) == Some(data),
            final(self).l1_inst == old(self).l1_inst,
            final(self).mshr == old(self).mshr,
            final(self).write_buffer == old(self).write_buffer,
            final(self).l1_data.config == old(self).l1_data.config,
            final(self).l2_unified.config == old(self).l2_unified.config,
            final(self).l1_data.depth() == old(self).l1_data.depth(),
            final(self).l2_unified.depth() == old(self).l2_unified.depth(),
            final(self).l1_data.headroom() + 1 >= old(self).l1_data.headroom(),
            final(self).l2_unified.headroom() + 1 >= old(self).l2_unified.headroom(),
    {
        if let Err(_) = self.l2_unified.write(addr, data) {
            let _ = self.l2_unified.write(addr, data);
        }
        if let Err(_) = self.l1_data.write(addr, data) {
            let _ = self.l1_data.write(addr, data);
        }
        Ok(())
    }
}

} // verus!
