//! Byte-addressed main memory behind a store buffer and the cache
//! hierarchy.
use vstd::prelude::*;
use crate::bytecode::{le_value, pow256, lemma_pow256_mono};
use crate::pvm::buffers::{StoreBuffer, sb_lookup, sb_added, sb_add_all, apply_stores};
use crate::pvm::caches::{
    alike, lemma_alike_lookup, lemma_allocated_alike, lemma_refreshed_alike, Cache, CacheHierarchy, CacheAccessResult, MSHR, WriteBuffer, config_valid, min_int, writes_back,
};
use crate::pvm::vm_errors::VMError;
use crate::pvm::cache_configs::{CacheConfig, ReplacementPolicy, WritePolicy};

verus! {

/// Sizes of the memory system.
#[derive(Debug, Clone, Copy)]
pub struct MemoryConfig {
    /// Bytes of main memory.
    pub size: usize,
    /// Bytes of L1, split evenly between data and instructions.
    pub l1_cache_size: usize,
    /// Bytes of L2.
    pub l2_cache_size: usize,
    /// Entries of the store buffer.
    pub store_buffer_size: usize,
}

impl Default for MemoryConfig {
    /// 1 MiB of memory, 64 KiB of L1, 256 KiB of L2, 8 store-buffer entries.
    fn default() -> (c: Self)
        ensures
            c.size == 1024 * 1024,
            c.l1_cache_size == 64 * 1024,
            c.l2_cache_size == 256 * 1024,
            c.store_buffer_size == 8,
    {
        MemoryConfig {
            size: 1024 * 1024,
            l1_cache_size: 64 * 1024,
            l2_cache_size: 256 * 1024,
            store_buffer_size: 8,
        }
    }
}

/// Counters of the memory system.
#[derive(Debug, Clone, Copy)]
pub struct MemoryStats {
    pub l1_hits: u64,
    pub l1_misses: u64,
    pub l2_hits: u64,
    pub l2_misses: u64,
    pub sb_hits: u64,
    pub writes: u64,
    pub reads: u64,
}

impl MemoryStats {
    /// All counters at zero.
    pub open spec fn spec_zero() -> Self {
        MemoryStats {
            l1_hits: 0,
            l1_misses: 0,
            l2_hits: 0,
            l2_misses: 0,
            sb_hits: 0,
            writes: 0,
            reads: 0,
        }
    }
}

impl Default for MemoryStats {
    fn default() -> (s: Self)
        ensures
            s == MemoryStats::spec_zero(),
    {
        MemoryStats {
            l1_hits: 0,
            l1_misses: 0,
            l2_hits: 0,
            l2_misses: 0,
            sb_hits: 0,
            writes: 0,
            reads: 0,
        }
    }
}

/// Errors of memory accesses.
#[derive(Debug, Clone, Copy, PartialEq, Eq, Structural)]
pub enum MemoryError {
    /// The address lies beyond the end of memory.
    InvalidAddress(u32),
    /// The cache hierarchy refused the access.
    Cache(VMError),
}

/// Configuration of the L1 data and instruction caches of a memory.
pub open spec fn l1_config_of(c: MemoryConfig) -> CacheConfig {
    CacheConfig {
        size: c.l1_cache_size / 2,
        lines_size: 64,
        associativity: 4,
        write_policy: WritePolicy::WriteThrough,
        replacement_policy: ReplacementPolicy::LRU,
    }
}

/// Configuration of the L2 cache of a memory.
pub open spec fn l2_config_of(c: MemoryConfig) -> CacheConfig {
    CacheConfig {
        size: c.l2_cache_size,
        lines_size: 64,
        associativity: 8,
        write_policy: WritePolicy::WriteBack,
        replacement_policy: ReplacementPolicy::LRU,
    }
}

/// How many more increments each counter of `s` can take.
pub open spec fn mem_stats_room(s: MemoryStats) -> int {
    min_int(
        min_int(min_int(u64::MAX - s.l1_hits, u64::MAX - s.l1_misses), min_int(
            u64::MAX - s.l2_hits,
            u64::MAX - s.l2_misses,
        )),
        min_int(min_int(u64::MAX - s.sb_hits, u64::MAX - s.writes), u64::MAX - s.reads),
    )
}

/// Counters after an access of a byte that the store buffer does not hold,
/// counted by the outcome `res` of the cache hierarchy.
pub open spec fn count_cache_access(s: MemoryStats, res: CacheAccessResult) -> MemoryStats {
    match res {
        CacheAccessResult::Hit(_) => MemoryStats { l1_hits: (s.l1_hits + 1) as u64, ..s },
        CacheAccessResult::L2Hit(_) => MemoryStats {
            l1_misses: (s.l1_misses + 1) as u64,
            l2_hits: (s.l2_hits + 1) as u64,
            ..s
        },
        _ => MemoryStats {
            l1_misses: (s.l1_misses + 1) as u64,
            l2_misses: (s.l2_misses + 1) as u64,
            ..s
        },
    }
}

/// Counters after a byte read: a store-buffer hit, or a cache access with
/// outcome `res`.
pub open spec fn count_read(s: MemoryStats, sb_hit: bool, res: CacheAccessResult) -> MemoryStats {
    let t = MemoryStats { reads: (s.reads + 1) as u64, ..s };
    if sb_hit {
        MemoryStats { sb_hits: (t.sb_hits + 1) as u64, ..t }
    } else {
        count_cache_access(t, res)
    }
}

/// Counters after a byte write whose cache access had outcome `res`.
pub open spec fn count_write(s: MemoryStats, res: CacheAccessResult) -> MemoryStats {
    count_cache_access(MemoryStats { writes: (s.writes + 1) as u64, ..s }, res)
}

/// `b` counts `n` more byte reads than `a`, `k` of them found in the store
/// buffer and the others counted once in L1 and, on an L1 miss, once in L2.
pub open spec fn counted_reads(a: MemoryStats, b: MemoryStats, n: nat, k: nat) -> bool {
    &&& b.reads == a.reads + n
    &&& b.sb_hits == a.sb_hits + k
    &&& b.writes == a.writes
    &&& a.l1_hits <= b.l1_hits
    &&& a.l1_misses <= b.l1_misses
    &&& a.l2_hits <= b.l2_hits
    &&& a.l2_misses <= b.l2_misses
    &&& (b.l1_hits - a.l1_hits) + (b.l1_misses - a.l1_misses) == n - k
    &&& b.l1_misses - a.l1_misses == (b.l2_hits - a.l2_hits) + (b.l2_misses - a.l2_misses)
}

/// `b` counts `n` more byte writes than `a`, each counted once in L1 and, on
/// an L1 miss, once in L2.
pub open spec fn counted_writes(a: MemoryStats, b: MemoryStats, n: nat) -> bool {
    &&& b.writes == a.writes + n
    &&& b.reads == a.reads
    &&& b.sb_hits == a.sb_hits
    &&& a.l1_hits <= b.l1_hits
    &&& a.l1_misses <= b.l1_misses
    &&& a.l2_hits <= b.l2_hits
    &&& a.l2_misses <= b.l2_misses
    &&& (b.l1_hits - a.l1_hits) + (b.l1_misses - a.l1_misses) == n
    &&& b.l1_misses - a.l1_misses == (b.l2_hits - a.l2_hits) + (b.l2_misses - a.l2_misses)
}

/// Number of the addresses `addr`, ..., `addr + n - 1` that the store-buffer
/// entries `s` hold.
pub open spec fn sb_count(s: Seq<(u32, u8)>, addr: u32, n: nat) -> nat
    decreases n,
{
    if n == 0 {
        0
    } else {
        sb_count(s, addr, (n - 1) as nat) + if sb_lookup(s, (addr + n - 1) as u32) is Some {
            1nat
        } else {
            0nat
        }
    }
}

/// `b` is `a` with the bytes of `data` written from `addr` on.
pub open spec fn overwritten(a: Seq<u8>, addr: int, data: Seq<u8>, b: Seq<u8>) -> bool {
    &&& b.len() == a.len()
    &&& forall|i: int|
        0 <= i < b.len() ==> #[trigger] b[i] == if addr <= i < addr + data.len() {
            data[i - addr]
        } else {
            a[i]
        }
}

/// Little-endian bytes of the low `n` bytes of `v`.
pub open spec fn le_bytes(v: nat, n: nat) -> Seq<u8>
    decreases n,
{
    if n == 0 {
        Seq::empty()
    } else {
        seq![(v % 256) as u8] + le_bytes(v / 256, (n - 1) as nat)
    }
}

proof fn lemma_one_byte_read(a: Memory, b: Memory, addr: u32)
    requires
        byte_read(a, b, addr),
        a.room() >= 1,
        b.room() + 1 >= a.room(),
        b.spec_stats() == count_read(
            a.spec_stats(),
            sb_lookup(a.buffered(), addr) is Some,
            a.caches().spec_read_byte(addr),
        ),
    ensures
        read_done(a, b, addr, 1, a.read_value(addr) as nat),
{
    let v = a.read_value(addr) as nat;
    assert(mem_stats_room(a.spec_stats()) >= 1);
    assert(le_bytes(v / 256, 0) =~= Seq::<u8>::empty());
    assert(le_bytes(v, 1) =~= seq![(v % 256) as u8]);
    assert(sb_count(a.buffered(), addr, 0) == 0);
    assert((addr + 1 - 1) as u32 == addr);
    reveal_with_fuel(pow256, 2);
    assert(v < pow256(1));
    let d = le_bytes(v, 1);
    assert(d[0] == a.read_value(addr));
    assert forall|i: int|
        0 <= i < d.len() && sb_lookup(a.buffered(), (addr + i) as u32) is Some implies #[trigger] d[i]
            == sb_lookup(a.buffered(), (addr + i) as u32)->0 by {
        assert(i == 0);
        assert((addr + i) as u32 == addr);
    }
    assert(read_back(a, addr, d));
    let ms = seq![a, b];
    assert(read_chain(ms, addr, d)) by {
        assert((addr + 0) as u32 == addr);
    }
    assert(read_in_turn(a, b, addr, d));
    assert(sb_count(a.buffered(), addr, 1) == if sb_lookup(a.buffered(), addr) is Some {
        1nat
    } else {
        0nat
    });
    assert(counted_reads(a.spec_stats(), b.spec_stats(), 1, sb_count(a.buffered(), addr, 1)));
}

proof fn lemma_one_byte_write(a: Memory, b: Memory, addr: u32, value: u8)
    requires
        a.room() >= 1,
        (addr as int) < a.bytes().len(),
        b.room() + 1 >= a.room(),
        b.bytes() == a.bytes().update(addr as int, value),
        b.buffered() == sb_added(a.buffered(), a.buffer_capacity(), addr, value),
        b.spec_stats() == count_write(a.spec_stats(), a.caches().spec_write_byte(addr, value)),
    ensures
        write_done(a, b, addr, seq![value]),
{
    let d = seq![value];
    assert(mem_stats_room(a.spec_stats()) >= 1);
    assert(d.drop_last() =~= Seq::<u8>::empty());
    assert((addr + d.len() - 1) as u32 == addr);
    assert(sb_add_all(a.buffered(), a.buffer_capacity(), addr, d.drop_last()) == a.buffered());
    assert(d.last() == value);
    assert(sb_add_all(a.buffered(), a.buffer_capacity(), addr, d) == b.buffered());
    assert(overwritten(a.bytes(), addr as int, d, b.bytes()));
    assert(counted_writes(a.spec_stats(), b.spec_stats(), 1));
}

/// Bytes determine the value: two values below `256^n` with the same `n`
/// little-endian bytes are equal.
pub proof fn lemma_le_bytes_injective(a: nat, b: nat, n: nat)
    requires
        le_bytes(a, n) == le_bytes(b, n),
        a < pow256(n),
        b < pow256(n),
    ensures
        a == b,
    decreases n,
{
    if n == 0 {
        assert(pow256(0) == 1);
    } else {
        let p = pow256((n - 1) as nat);
        assert(pow256(n) == 256 * p);
        let la = le_bytes(a, n);
        let lb = le_bytes(b, n);
        assert(la[0] == (a % 256) as u8);
        assert(lb[0] == (b % 256) as u8);
        assert(a % 256 == b % 256);
        assert(la.drop_first() =~= le_bytes(a / 256, (n - 1) as nat));
        assert(lb.drop_first() =~= le_bytes(b / 256, (n - 1) as nat));
        assert(a / 256 < p && b / 256 < p) by (nonlinear_arith)
            requires
                a < 256 * p,
                b < 256 * p,
        ;
        lemma_le_bytes_injective(a / 256, b / 256, (n - 1) as nat);
        assert(a == 256 * (a / 256) + a % 256 && b == 256 * (b / 256) + b % 256) by (nonlinear_arith);
    }
}

proof fn lemma_div_step(a: int, b: int, d: int)
    requires
        d > 0,
        b + d >= a,
    ensures
        b / d + 1 >= a / d,
{
    assert(b / d + 1 >= a / d) by (nonlinear_arith)
        requires
            d > 0,
            b + d >= a,
    ;
}

/// What a byte read of `addr` does, taking `a` to `b`: memory, store buffer
/// and counters as `Memory::read_byte` states; the caches are untouched when
/// the store buffer holds the byte, else L1 holds the byte read afterwards
/// and the two data levels changed as a read of it (or, when both missed,
/// the fill of L1 with memory's byte) changes them.
pub open spec fn byte_read(a: Memory, b: Memory, addr: u32) -> bool {
    &&& b.wf()
    &&& b.bytes() == a.bytes()
    &&& b.buffered() == a.buffered()
    &&& b.buffer_capacity() == a.buffer_capacity()
    &&& b.spec_stats() == count_read(
        a.spec_stats(),
        sb_lookup(a.buffered(), addr) is Some,
        a.caches().spec_read_byte(addr),
    )
    &&& b.room() + 1 >= a.room()
    &&& if sb_lookup(a.buffered(), addr) is Some {
        b.caches() == a.caches()
    } else {
        &&& b.caches().l1_data.lookup(addr) == Some(a.read_value(addr))
        &&& b.caches().mshr == a.caches().mshr
        &&& b.caches().l1_inst == a.caches().l1_inst
        &&& if a.caches().l1_data.lookup(addr) is None && a.caches().l2_unified.lookup(addr) is None {
            CacheHierarchy::fill_effect(a.caches(), b.caches(), addr)
        } else {
            CacheHierarchy::read_effect(a.caches(), b.caches(), addr)
        }
    }
}

/// States `ms` lead, one byte read at a time, through the reads of `addr`,
/// `addr + 1`, ..., and the byte each read gave is the matching byte of
/// `data`.
pub open spec fn read_chain(ms: Seq<Memory>, addr: u32, data: Seq<u8>) -> bool {
    &&& ms.len() == data.len() + 1
    &&& forall|i: int|
        0 <= i < data.len() ==> #[trigger] byte_read(ms[i], ms[i + 1], (addr + i) as u32)
            && data[i] == ms[i].read_value((addr + i) as u32)
}

/// `data` is what byte reads from `addr` on give one after the other, from
/// `a` on and ending in `b`: byte `i` is what a read of `addr + i` gives in
/// the state the reads of the bytes before it left.
pub open spec fn read_in_turn(a: Memory, b: Memory, addr: u32, data: Seq<u8>) -> bool {
    exists|ms: Seq<Memory>| #[trigger] read_chain(ms, addr, data) && ms[0] == a && ms.last() == b
}

/// `data` agrees with what byte reads from `addr` on in `m` are sure to
/// give: the first byte as `m` reads it, and every byte the store buffer
/// holds.
pub open spec fn read_back(m: Memory, addr: u32, data: Seq<u8>) -> bool {
    &&& data.len() > 0 ==> data[0] == m.read_value(addr)
    &&& forall|i: int|
        0 <= i < data.len() && sb_lookup(m.buffered(), (addr + i) as u32) is Some ==> #[trigger] data[i]
            == sb_lookup(m.buffered(), (addr + i) as u32)->0
}

proof fn lemma_le_roundtrip(d: Seq<u8>, start: int, n: nat)
    requires
        0 <= start,
        start + n <= d.len(),
    ensures
        le_bytes(le_value(d, start, n), n) =~= d.subrange(start, start + n),
    decreases n,
{
    if n > 0 {
        lemma_le_roundtrip(d, start + 1, (n - 1) as nat);
        let v = le_value(d, start, n);
        let rest = le_value(d, start + 1, (n - 1) as nat);
        let b: u8 = d[start];
        assert(v == b as nat + 256 * rest);
        assert(v % 256 == b as nat && v / 256 == rest) by (nonlinear_arith)
            requires
                v == b as nat + 256 * rest,
                b < 256,
        ;
        assert(le_bytes(v, n) == seq![(v % 256) as u8] + le_bytes(v / 256, (n - 1) as nat));
        assert(d.subrange(start, start + n) =~= seq![b] + d.subrange(start + 1, start + n));
    }
}

/// Little-endian value of the bytes of `data`.
fn le_combine(data: &Vec<u8>) -> (r: u64)
    requires
        1 <= data@.len() <= 8,
    ensures
        r == le_value(data@, 0, data@.len()),
        r < pow256(data@.len()),
{
    let n = data.len();
    let mut value: u64 = 0;
    let mut k: usize = n;
    while k > 0
        invariant
            k <= n,
            n == data@.len(),
            1 <= n <= 8,
            value == le_value(data@, k as int, (n - k) as nat),
            value < pow256((n - k) as nat),
        decreases k,
    {
        k = k - 1;
        proof {
            assert(pow256((n - k) as nat) == 256 * pow256((n - k - 1) as nat));
            assert(pow256((n - k) as nat) <= pow256(8)) by {
                lemma_pow256_mono((n - k) as nat, 8);
            }
            assert(pow256(8) == 0x1_0000_0000_0000_0000) by {
                reveal_with_fuel(pow256, 9);
            }
        }
        value = (data[k] as u64) + 256 * value;
    }
    value
}

/// The low `n` bytes of `v`, least significant first.
fn to_le(v: u64, n: usize) -> (r: Vec<u8>)
    ensures
        r@ == le_bytes(v as nat, n as nat),
{
    let mut out: Vec<u8> = Vec::new();
    let mut cur: u64 = v;
    let mut i: usize = 0;
    while i < n
        invariant
            i <= n,
            out@ + le_bytes(cur as nat, (n - i) as nat) == le_bytes(v as nat, n as nat),
        decreases n - i,
    {
        let b = (cur % 256) as u8;
        proof {
            let k = (n - i) as nat;
            assert(le_bytes(cur as nat, k) == seq![b] + le_bytes((cur / 256) as nat, (k - 1) as nat));
            assert(out@.push(b) + le_bytes((cur / 256) as nat, (k - 1) as nat) =~= out@ + (seq![b]
                + le_bytes((cur / 256) as nat, (k - 1) as nat)));
        }
        out.push(b);
        cur = cur / 256;
        i += 1;
    }
    proof {
        assert(out@ + le_bytes(cur as nat, 0) =~= out@);
    }
    out
}

/// A read of `n` bytes at `addr` took `a` to `b` and gave `v`: the bytes of
/// `v` are what byte reads of `addr`, `addr + 1`, ... give in turn (so the
/// first is what `a` reads at `addr`, and those the store buffer holds are
/// its bytes), `n` reads were counted, and at most `n` of the room went.
pub open spec fn read_done(a: Memory, b: Memory, addr: u32, n: nat, v: nat) -> bool {
    &&& v < pow256(n)
    &&& read_back(a, addr, le_bytes(v, n))
    &&& read_in_turn(a, b, addr, le_bytes(v, n))
    &&& counted_reads(a.spec_stats(), b.spec_stats(), n, sb_count(a.buffered(), addr, n))
    &&& b.room() + n >= a.room()
}

/// A write of `data` at `addr` took `a` to `b`: memory holds `data` there,
/// each byte went through the store buffer in order, `data.len()` writes were
/// counted, and at most that much of the room went.
pub open spec fn write_done(a: Memory, b: Memory, addr: u32, data: Seq<u8>) -> bool {
    &&& overwritten(a.bytes(), addr as int, data, b.bytes())
    &&& b.buffered() == sb_add_all(a.buffered(), a.buffer_capacity(), addr, data)
    &&& counted_writes(a.spec_stats(), b.spec_stats(), data.len())
    &&& b.room() + data.len() >= a.room()
}

/// Main memory, with a store buffer and a cache hierarchy in front.
pub struct Memory {
    memory: Vec<u8>,
    cache_hierarchy: CacheHierarchy,
    store_buffer: StoreBuffer,
    stats: MemoryStats,
}

impl Memory {
    /// The bytes of main memory.
    pub closed spec fn bytes(&self) -> Seq<u8> {
        self.memory@
    }

    /// The writes waiting in the store buffer, oldest first.
    pub closed spec fn buffered(&self) -> Seq<(u32, u8)> {
        self.store_buffer.entries@
    }

    /// Entries the store buffer keeps.
    pub closed spec fn buffer_capacity(&self) -> nat {
        self.store_buffer.capacity as nat
    }

    /// The cache hierarchy.
    pub closed spec fn caches(&self) -> CacheHierarchy {
        self.cache_hierarchy
    }

    /// The counters.
    pub closed spec fn spec_stats(&self) -> MemoryStats {
        self.stats
    }

    /// The caches and the store buffer keep their invariants, no miss is in
    /// flight, and both data levels replace by LRU.
    pub closed spec fn wf(&self) -> bool {
        &&& self.cache_hierarchy.wf()
        &&& self.cache_hierarchy.l1_data.depth() == 0
        &&& self.cache_hierarchy.l2_unified.depth() == 0
        &&& self.store_buffer.wf()
        &&& forall|i: int|
            0 <= i < self.cache_hierarchy.mshr@.len() ==> #[trigger] self.cache_hierarchy.mshr@[i]
                is None
        &&& self.cache_hierarchy.l1_data.config.replacement_policy == ReplacementPolicy::LRU
        &&& self.cache_hierarchy.l2_unified.config.replacement_policy == ReplacementPolicy::LRU
    }

    /// How many more byte accesses the counters of the memory and of its
    /// caches can take.
    pub closed spec fn room(&self) -> int {
        min_int(
            mem_stats_room(self.stats),
            min_int(
                self.cache_hierarchy.l1_data.headroom() / 8,
                self.cache_hierarchy.l2_unified.headroom() / 4,
            ),
        )
    }

    /// Byte a read of `addr` returns: the store buffer's, else the cached
    /// one, else main memory's.
    pub closed spec fn read_value(&self, addr: u32) -> u8 {
        match sb_lookup(self.store_buffer.entries@, addr) {
            Some(v) => v,
            None => match self.cache_hierarchy.spec_read_byte(addr) {
                CacheAccessResult::Hit(d) => d as u8,
                CacheAccessResult::L2Hit(d) => d as u8,
                _ => self.memory@[addr as int],
            },
        }
    }

    /// A memory of `config.size` zero bytes behind empty caches and an empty
    /// store buffer.
    pub fn new(config: MemoryConfig) -> (m: Self)
        requires
            config_valid(l1_config_of(config)),
            config_valid(l2_config_of(config)),
        ensures
            m.wf(),
            m.bytes() == Seq::new(config.size as nat, |i: int| 0u8),
            m.buffered() == Seq::<(u32, u8)>::empty(),
            m.buffer_capacity() == config.store_buffer_size,
            m.spec_stats() == MemoryStats::spec_zero(),
            m.room() >= 0x1000_0000,
            forall|a: u32| #[trigger] m.caches().spec_read(a) == CacheAccessResult::Miss,
            forall|a: u32| (a as int) < config.size ==> #[trigger] m.read_value(a) == 0,
    {
        let l1_data_config = CacheConfig {
            size: config.l1_cache_size / 2,
            lines_size: 64,
            associativity: 4,
            write_policy: WritePolicy::WriteThrough,
            replacement_policy: ReplacementPolicy::LRU,
        };
        let l1_inst_config = CacheConfig {
            size: config.l1_cache_size / 2,
            lines_size: 64,
            associativity: 4,
            write_policy: WritePolicy::WriteThrough,
            replacement_policy: ReplacementPolicy::LRU,
        };
        let l2_config = CacheConfig {
            size: config.l2_cache_size,
            lines_size: 64,
            associativity: 8,
            write_policy: WritePolicy::WriteBack,
            replacement_policy: ReplacementPolicy::LRU,
        };
        let mut memory: Vec<u8> = Vec::with_capacity(config.size);
        let mut i: usize = 0;
        while i < config.size
            invariant
                i <= config.size,
                memory@ == Seq::new(i as nat, |k: int| 0u8),
            decreases config.size - i,
        {
            memory.push(0);
            i += 1;
        }
        let m = Memory {
            memory,
            cache_hierarchy: CacheHierarchy::new(l1_data_config, l1_inst_config, l2_config),
            store_buffer: StoreBuffer::new(config.store_buffer_size),
            stats: MemoryStats::default(),
        };
        proof {
            assert(m.cache_hierarchy.l1_data.headroom() >= 0x6000_0000);
            assert(m.cache_hierarchy.l2_unified.headroom() >= 0x3000_0000);
            assert forall|a: u32| #[trigger] m.caches().spec_read(a) == CacheAccessResult::Miss by {
                if m.cache_hierarchy.pending(a) {
                    let i = choose|i: int|
                        0 <= i < m.cache_hierarchy.mshr@.len() && (#[trigger] m.cache_hierarchy.mshr@[i] matches Some(e)
                            && e.addr == a);
                    assert(m.cache_hierarchy.mshr@[i] is None);
                }
                assert(m.cache_hierarchy.l1_data.lookup(a) is None);
                assert(m.cache_hierarchy.l2_unified.lookup(a) is None);
            }
            assert forall|a: u32| (a as int) < config.size implies #[trigger] m.read_value(a) == 0 by {
                assert(m.caches().spec_read(a) == CacheAccessResult::Miss);
            }
        }
        m
    }
}

impl Memory {
    /// Whether `addr` lies in memory.
    fn check_address(&self, addr: u32) -> (r: Result<(), MemoryError>)
        ensures
            r == if (addr as int) < self.bytes().len() {
                Ok::<(), MemoryError>(())
            } else {
                Err(MemoryError::InvalidAddress(addr))
            },
    {
        if addr as usize >= self.memory.len() {
            Err(MemoryError::InvalidAddress(addr))
        } else {
            Ok(())
        }
    }

    /// Reads the byte at `addr`: the store buffer's if it holds one, else the
    /// byte the caches hold, else main memory's, which is then written into
    /// the caches. An address beyond memory is refused.
    pub fn read_byte(&mut self, addr: u32) -> (r: Result<u8, MemoryError>)
        requires
            old(self).wf(),
            old(self).room() >= 1,
        ensures
            final(self).wf(),
            final(self).bytes() == old(self).bytes(),
            final(self).buffered() == old(self).buffered(),
            final(self).buffer_capacity() == old(self).buffer_capacity(),
            (addr as int) < old(self).bytes().len() ==> {
                &&& r == Ok::<u8, MemoryError>(old(self).read_value(addr))
                &&& final(self).spec_stats() == count_read(
                    old(self).spec_stats(),
                    sb_lookup(old(self).buffered(), addr) is Some,
                    old(self).caches().spec_read_byte(addr),
                )
                &&& final(self).room() + 1 >= old(self).room()
                &&& byte_read(*old(self), *final(self), addr)
                &&& read_done(*old(self), *final(self), addr, 1, old(self).read_value(addr) as nat)
            },
            (addr as int) >= old(self).bytes().len() ==> {
                &&& r == Err::<u8, MemoryError>(MemoryError::InvalidAddress(addr))
                &&& *final(self) == *old(self)
            },
    {
        match self.check_address(addr) {
            Err(e) => {
                return Err(e);
            },
            Ok(()) => {},
        }
        let ghost s0 = self.stats;
        let ghost h0 = self.cache_hierarchy;
        self.stats.reads = self.stats.reads + 1;
        match self.store_buffer.lookup_byte(addr) {
            Some(value) => {
                self.stats.sb_hits = self.stats.sb_hits + 1;
                proof {
                    assert(byte_read(*old(self), *self, addr));
                    lemma_one_byte_read(*old(self), *self, addr);
                }
                return Ok(value);
            },
            None => {},
        }
        proof {
            if h0.pending(addr) {
                let i = choose|i: int|
                    0 <= i < h0.mshr@.len() && (#[trigger] h0.mshr@[i] matches Some(e) && e.addr == addr);
                assert(h0.mshr@[i] is None);
            }
        }
        let res = self.cache_hierarchy.access_byte(addr, false, None);
        let ghost h1 = self.cache_hierarchy;
        let r = match res {
            Ok(CacheAccessResult::Hit(data)) => {
                self.stats.l1_hits = self.stats.l1_hits + 1;
                Ok(data as u8)
            },
            Ok(CacheAccessResult::L2Hit(data)) => {
                self.stats.l1_misses = self.stats.l1_misses + 1;
                self.stats.l2_hits = self.stats.l2_hits + 1;
                Ok(data as u8)
            },
            Ok(_) => {
                self.stats.l1_misses = self.stats.l1_misses + 1;
                self.stats.l2_misses = self.stats.l2_misses + 1;
                let value = self.memory[addr as usize];
                proof {
                    assert(h1.l1_data.lookup(addr) is None);
                    assert(h1.l2_unified.lookup(addr) is None);
                    assert(!h1.pending(addr));
                }
                let _ = self.cache_hierarchy.access_byte(addr, true, Some(value));
                proof {
                    let h2 = self.cache_hierarchy;
                    let w = choose|w: int|
                        #[trigger] Cache::allocated(
                            h1.l1_data,
                            h2.l1_data,
                            addr,
                            w,
                            writes_back(h1.l1_data.config),
                        );
                    assert(Cache::allocated(
                        h0.l1_data,
                        h2.l1_data,
                        addr,
                        w,
                        writes_back(h0.l1_data.config),
                    ));
                    assert(CacheHierarchy::fill_effect(h0, h2, addr));
                }
                Ok(value)
            },
            Err(e) => Err(MemoryError::Cache(e)),
        };
        proof {
            lemma_div_step(
                h0.l1_data.headroom(),
                self.cache_hierarchy.l1_data.headroom(),
                8,
            );
            lemma_div_step(
                h0.l2_unified.headroom(),
                self.cache_hierarchy.l2_unified.headroom(),
                4,
            );
            assert(byte_read(*old(self), *self, addr));
            lemma_one_byte_read(*old(self), *self, addr);
        }
        r
    }

    /// Writes `value` at `addr`: into the store buffer, through the caches
    /// and into main memory. An address beyond memory is refused.
    pub fn write_byte(&mut self, addr: u32, value: u8) -> (r: Result<(), MemoryError>)
        requires
            old(self).wf(),
            old(self).room() >= 1,
            old(self).buffer_capacity() > 0,
        ensures
            final(self).wf(),
            final(self).buffer_capacity() == old(self).buffer_capacity(),
            (addr as int) < old(self).bytes().len() ==> {
                &&& r == Ok::<(), MemoryError>(())
                &&& final(self).bytes() == old(self).bytes().update(addr as int, value)
                &&& final(self).buffered() == sb_added(
                    old(self).buffered(),
                    old(self).buffer_capacity(),
                    addr,
                    value,
                )
                &&& final(self).spec_stats() == count_write(
                    old(self).spec_stats(),
                    old(self).caches().spec_write_byte(addr, value),
                )
                &&& final(self).room() + 1 >= old(self).room()
                &&& final(self).read_value(addr) == value
                &&& final(self).caches().l1_data.lookup(addr) == Some(value)
                &&& write_done(*old(self), *final(self), addr, seq![value])
            },
            (addr as int) >= old(self).bytes().len() ==> {
                &&& r == Err::<(), MemoryError>(MemoryError::InvalidAddress(addr))
                &&& *final(self) == *old(self)
            },
    {
        match self.check_address(addr) {
            Err(e) => {
                return Err(e);
            },
            Ok(()) => {},
        }
        let ghost h0 = self.cache_hierarchy;
        proof {
            if h0.pending(addr) {
                let i = choose|i: int|
                    0 <= i < h0.mshr@.len() && (#[trigger] h0.mshr@[i] matches Some(e) && e.addr == addr);
                assert(h0.mshr@[i] is None);
            }
        }
        self.stats.writes = self.stats.writes + 1;
        self.store_buffer.add(addr, value);
        match self.cache_hierarchy.access_byte(addr, true, Some(value)) {
            Ok(CacheAccessResult::Hit(_)) => {
                self.stats.l1_hits = self.stats.l1_hits + 1;
            },
            Ok(CacheAccessResult::L2Hit(_)) => {
                self.stats.l1_misses = self.stats.l1_misses + 1;
                self.stats.l2_hits = self.stats.l2_hits + 1;
            },
            Ok(_) => {
                self.stats.l1_misses = self.stats.l1_misses + 1;
                self.stats.l2_misses = self.stats.l2_misses + 1;
            },
            Err(e) => {
                return Err(MemoryError::Cache(e));
            },
        }
        self.memory.set(addr as usize, value);
        proof {
            lemma_div_step(
                h0.l1_data.headroom(),
                self.cache_hierarchy.l1_data.headroom(),
                8,
            );
            lemma_div_step(
                h0.l2_unified.headroom(),
                self.cache_hierarchy.l2_unified.headroom(),
                4,
            );
            lemma_one_byte_write(*old(self), *self, addr, value);
        }
        Ok(())
    }
}

impl Memory {
    /// Reads the `n` bytes from `addr` on, one byte read each.
    fn read_bytes(&mut self, addr: u32, n: usize) -> (r: Vec<u8>)
        requires
            old(self).wf(),
            addr + n <= old(self).bytes().len(),
            addr + n <= u32::MAX + 1,
            old(self).room() >= n,
        ensures
            final(self).wf(),
            final(self).bytes() == old(self).bytes(),
            final(self).buffered() == old(self).buffered(),
            final(self).buffer_capacity() == old(self).buffer_capacity(),
            final(self).room() + n >= old(self).room(),
            counted_reads(
                old(self).spec_stats(),
                final(self).spec_stats(),
                n as nat,
                sb_count(old(self).buffered(), addr, n as nat),
            ),
            r@.len() == n,
            read_back(*old(self), addr, r@),
            read_in_turn(*old(self), *final(self), addr, r@),
    {
        let mut data: Vec<u8> = Vec::with_capacity(n);
        let mut i: usize = 0;
        let ghost mut ms: Seq<Memory> = seq![*self];
        while i < n
            invariant
                i <= n,
                self.wf(),
                self.bytes() == old(self).bytes(),
                self.buffered() == old(self).buffered(),
                self.buffer_capacity() == old(self).buffer_capacity(),
                addr + n <= old(self).bytes().len(),
                addr + n <= u32::MAX + 1,
                old(self).room() >= n,
                self.room() + i >= old(self).room(),
                counted_reads(
                    old(self).spec_stats(),
                    self.spec_stats(),
                    i as nat,
                    sb_count(old(self).buffered(), addr, i as nat),
                ),
                data@.len() == i,
                i == 0 ==> self.read_value(addr) == old(self).read_value(addr),
                read_back(*old(self), addr, data@),
                read_chain(ms, addr, data@),
                ms[0] == *old(self),
                ms.last() == *self,
            decreases n - i,
        {
            let a = addr + i as u32;
            let ghost pre = *self;
            let b = self.read_byte(a);
            let v = b.unwrap();
            proof {
                assert(sb_count(old(self).buffered(), addr, (i + 1) as nat) == sb_count(
                    old(self).buffered(),
                    addr,
                    i as nat,
                ) + if sb_lookup(old(self).buffered(), a) is Some {
                    1nat
                } else {
                    0nat
                });
            }
            data.push(v);
            proof {
                let ms0 = ms;
                ms = ms.push(*self);
                assert((addr + i) as u32 == a);
                assert forall|j: int| 0 <= j < data@.len() implies #[trigger] byte_read(
                    ms[j],
                    ms[j + 1],
                    (addr + j) as u32,
                ) && data@[j] == ms[j].read_value((addr + j) as u32) by {
                    if j < i {
                        assert(ms[j] == ms0[j] && ms[j + 1] == ms0[j + 1]);
                        assert(data@[j] == data@.drop_last()[j]);
                        assert(byte_read(ms0[j], ms0[j + 1], (addr + j) as u32));
                    } else {
                        assert(ms[j] == pre && ms[j + 1] == *self);
                    }
                }
                assert(read_chain(ms, addr, data@));
                assert forall|j: int|
                    0 <= j < data@.len() && sb_lookup(old(self).buffered(), (addr + j) as u32)
                        is Some implies #[trigger] data@[j] == sb_lookup(
                    old(self).buffered(),
                    (addr + j) as u32,
                )->0 by {
                    if j < i {
                        assert(data@[j] == data@.drop_last()[j]);
                    }
                }
            }
            i += 1;
        }
        proof {
            assert(read_chain(ms, addr, data@));
        }
        data
    }

    /// Writes the bytes of `data` from `addr` on, one byte write each.
    fn write_bytes(&mut self, addr: u32, data: &[u8])
        requires
            old(self).wf(),
            old(self).buffer_capacity() > 0,
            addr + data@.len() <= old(self).bytes().len(),
            addr + data@.len() <= u32::MAX + 1,
            old(self).room() >= data@.len(),
        ensures
            final(self).wf(),
            final(self).buffer_capacity() == old(self).buffer_capacity(),
            overwritten(old(self).bytes(), addr as int, data@, final(self).bytes()),
            final(self).buffered() == sb_add_all(
                old(self).buffered(),
                old(self).buffer_capacity(),
                addr,
                data@,
            ),
            counted_writes(old(self).spec_stats(), final(self).spec_stats(), data@.len()),
            final(self).room() + data@.len() >= old(self).room(),
    {
        let n = data.len();
        let mut i: usize = 0;
        proof {
            assert(data@.take(0) =~= Seq::<u8>::empty());
        }
        while i < n
            invariant
                i <= n,
                n == data@.len(),
                self.wf(),
                self.buffer_capacity() == old(self).buffer_capacity(),
                old(self).buffer_capacity() > 0,
                addr + n <= old(self).bytes().len(),
                addr + n <= u32::MAX + 1,
                old(self).room() >= n,
                self.room() + i >= old(self).room(),
                overwritten(old(self).bytes(), addr as int, data@.take(i as int), self.bytes()),
                self.buffered() == sb_add_all(
                    old(self).buffered(),
                    old(self).buffer_capacity(),
                    addr,
                    data@.take(i as int),
                ),
                counted_writes(old(self).spec_stats(), self.spec_stats(), i as nat),
            decreases n - i,
        {
            let a = addr + i as u32;
            let ghost before = self.bytes();
            let r = self.write_byte(a, data[i]);
            proof {
                let t = data@.take(i + 1);
                assert(t.drop_last() =~= data@.take(i as int));
                assert(t.last() == data@[i as int]);
                assert(t.len() == i + 1);
                assert forall|k: int| 0 <= k < self.bytes().len() implies #[trigger] self.bytes()[k]
                    == if addr <= k < addr + t.len() {
                    t[k - addr]
                } else {
                    old(self).bytes()[k]
                } by {
                    if k != a {
                        assert(self.bytes()[k] == before[k]);
                    }
                }
            }
            i += 1;
        }
        proof {
            assert(data@.take(n as int) =~= data@);
        }
    }

    /// Reads the `n`-byte little-endian value at `addr`, after checking
    /// that its last byte lies in memory.
    fn read_le(&mut self, addr: u32, n: usize) -> (r: Result<u64, MemoryError>)
        requires
            old(self).wf(),
            1 <= n <= 8,
            addr + n <= u32::MAX + 1,
            old(self).room() >= n,
        ensures
            final(self).wf(),
            final(self).bytes() == old(self).bytes(),
            final(self).buffered() == old(self).buffered(),
            final(self).buffer_capacity() == old(self).buffer_capacity(),
            addr + n - 1 >= old(self).bytes().len() ==> {
                &&& r == Err::<u64, MemoryError>(MemoryError::InvalidAddress((addr + n - 1) as u32))
                &&& *final(self) == *old(self)
            },
            addr + n - 1 < old(self).bytes().len() ==> match r {
                Ok(v) => {
                    &&& v < pow256(n as nat)
                    &&& read_back(*old(self), addr, le_bytes(v as nat, n as nat))
                    &&& read_in_turn(*old(self), *final(self), addr, le_bytes(v as nat, n as nat))
                    &&& counted_reads(
                        old(self).spec_stats(),
                        final(self).spec_stats(),
                        n as nat,
                        sb_count(old(self).buffered(), addr, n as nat),
                    )
                    &&& final(self).room() + n >= old(self).room()
                },
                Err(_) => false,
            },
    {
        let last = addr + (n as u32 - 1);
        match self.check_address(last) {
            Err(e) => {
                return Err(e);
            },
            Ok(()) => {},
        }
        let data = self.read_bytes(addr, n);
        let v = le_combine(&data);
        proof {
            lemma_le_roundtrip(data@, 0, n as nat);
            assert(data@.subrange(0, n as int) =~= data@);
        }
        Ok(v)
    }

    /// Writes the low `n` bytes of `value`, least significant first, from
    /// `addr` on, after checking that the last one lies in memory.
    fn write_le(&mut self, addr: u32, value: u64, n: usize) -> (r: Result<(), MemoryError>)
        requires
            old(self).wf(),
            old(self).buffer_capacity() > 0,
            1 <= n <= 8,
            addr + n <= u32::MAX + 1,
            old(self).room() >= n,
        ensures
            final(self).wf(),
            final(self).buffer_capacity() == old(self).buffer_capacity(),
            addr + n - 1 >= old(self).bytes().len() ==> {
                &&& r == Err::<(), MemoryError>(MemoryError::InvalidAddress((addr + n - 1) as u32))
                &&& *final(self) == *old(self)
            },
            addr + n - 1 < old(self).bytes().len() ==> {
                &&& r == Ok::<(), MemoryError>(())
                &&& overwritten(
                    old(self).bytes(),
                    addr as int,
                    le_bytes(value as nat, n as nat),
                    final(self).bytes(),
                )
                &&& final(self).buffered() == sb_add_all(
                    old(self).buffered(),
                    old(self).buffer_capacity(),
                    addr,
                    le_bytes(value as nat, n as nat),
                )
                &&& counted_writes(old(self).spec_stats(), final(self).spec_stats(), n as nat)
                &&& final(self).room() + n >= old(self).room()
            },
    {
        let last = addr + (n as u32 - 1);
        match self.check_address(last) {
            Err(e) => {
                return Err(e);
            },
            Ok(()) => {},
        }
        let bytes = to_le(value, n);
        proof {
            lemma_le_bytes_len(value as nat, n as nat);
        }
        self.write_bytes(addr, bytes.as_slice());
        Ok(())
    }
}

/// `le_bytes(v, n)` has `n` bytes.
pub proof fn lemma_le_bytes_len(v: nat, n: nat)
    ensures
        le_bytes(v, n).len() == n,
    decreases n,
{
    if n > 0 {
        lemma_le_bytes_len(v / 256, (n - 1) as nat);
    }
}

impl Memory {
    /// Reads the little-endian 16-bit word at `addr`. An address whose
    /// second byte lies beyond memory is refused.
    pub fn read_word(&mut self, addr: u32) -> (r: Result<u16, MemoryError>)
        requires
            old(self).wf(),
            addr < u32::MAX,
            old(self).room() >= 2,
        ensures
            final(self).wf(),
            final(self).bytes() == old(self).bytes(),
            final(self).buffered() == old(self).buffered(),
            final(self).buffer_capacity() == old(self).buffer_capacity(),
            addr + 1 >= old(self).bytes().len() ==> {
                &&& r == Err::<u16, MemoryError>(MemoryError::InvalidAddress((addr + 1) as u32))
                &&& *final(self) == *old(self)
            },
            addr + 1 < old(self).bytes().len() ==> match r {
                Ok(w) => read_done(*old(self), *final(self), addr, 2, w as nat),
                Err(_) => false,
            },
    {
        match self.read_le(addr, 2) {
            Ok(v) => {
                proof {
                    reveal_with_fuel(pow256, 3);
                }
                Ok(v as u16)
            },
            Err(e) => Err(e),
        }
    }

    /// Reads the little-endian 32-bit word at `addr`. An address whose
    /// last byte lies beyond memory is refused.
    pub fn read_dword(&mut self, addr: u32) -> (r: Result<u32, MemoryError>)
        requires
            old(self).wf(),
            addr + 3 <= u32::MAX,
            old(self).room() >= 4,
        ensures
            final(self).wf(),
            final(self).bytes() == old(self).bytes(),
            final(self).buffered() == old(self).buffered(),
            final(self).buffer_capacity() == old(self).buffer_capacity(),
            addr + 3 >= old(self).bytes().len() ==> {
                &&& r == Err::<u32, MemoryError>(MemoryError::InvalidAddress((addr + 3) as u32))
                &&& *final(self) == *old(self)
            },
            addr + 3 < old(self).bytes().len() ==> match r {
                Ok(w) => read_done(*old(self), *final(self), addr, 4, w as nat),
                Err(_) => false,
            },
    {
        match self.read_le(addr, 4) {
            Ok(v) => {
                proof {
                    reveal_with_fuel(pow256, 5);
                }
                Ok(v as u32)
            },
            Err(e) => Err(e),
        }
    }

    /// Reads the little-endian 64-bit word at `addr`. An address whose
    /// last byte lies beyond memory is refused.
    pub fn read_qword(&mut self, addr: u32) -> (r: Result<u64, MemoryError>)
        requires
            old(self).wf(),
            addr + 7 <= u32::MAX,
            old(self).room() >= 8,
        ensures
            final(self).wf(),
            final(self).bytes() == old(self).bytes(),
            final(self).buffered() == old(self).buffered(),
            final(self).buffer_capacity() == old(self).buffer_capacity(),
            addr + 7 >= old(self).bytes().len() ==> {
                &&& r == Err::<u64, MemoryError>(MemoryError::InvalidAddress((addr + 7) as u32))
                &&& *final(self) == *old(self)
            },
            addr + 7 < old(self).bytes().len() ==> match r {
                Ok(w) => read_done(*old(self), *final(self), addr, 8, w as nat),
                Err(_) => false,
            },
    {
        self.read_le(addr, 8)
    }

    /// Writes `value` as a little-endian 16-bit word at `addr`. An address
    /// whose second byte lies beyond memory is refused.
    pub fn write_word(&mut self, addr: u32, value: u16) -> (r: Result<(), MemoryError>)
        requires
            old(self).wf(),
            old(self).buffer_capacity() > 0,
            addr < u32::MAX,
            old(self).room() >= 2,
        ensures
            final(self).wf(),
            final(self).buffer_capacity() == old(self).buffer_capacity(),
            addr + 1 >= old(self).bytes().len() ==> {
                &&& r == Err::<(), MemoryError>(MemoryError::InvalidAddress((addr + 1) as u32))
                &&& *final(self) == *old(self)
            },
            addr + 1 < old(self).bytes().len() ==> {
                &&& r == Ok::<(), MemoryError>(())
                &&& write_done(*old(self), *final(self), addr, le_bytes(value as nat, 2))
            },
    {
        proof {
            lemma_le_bytes_len(value as nat, 2);
        }
        self.write_le(addr, value as u64, 2)
    }

    /// Writes `value` as a little-endian 32-bit word at `addr`. An address
    /// whose last byte lies beyond memory is refused.
    pub fn write_dword(&mut self, addr: u32, value: u32) -> (r: Result<(), MemoryError>)
        requires
            old(self).wf(),
            old(self).buffer_capacity() > 0,
            addr + 3 <= u32::MAX,
            old(self).room() >= 4,
        ensures
            final(self).wf(),
            final(self).buffer_capacity() == old(self).buffer_capacity(),
            addr + 3 >= old(self).bytes().len() ==> {
                &&& r == Err::<(), MemoryError>(MemoryError::InvalidAddress((addr + 3) as u32))
                &&& *final(self) == *old(self)
            },
            addr + 3 < old(self).bytes().len() ==> {
                &&& r == Ok::<(), MemoryError>(())
                &&& write_done(*old(self), *final(self), addr, le_bytes(value as nat, 4))
            },
    {
        proof {
            lemma_le_bytes_len(value as nat, 4);
        }
        self.write_le(addr, value as u64, 4)
    }

    /// Writes `value` as a little-endian 64-bit word at `addr`. An address
    /// whose last byte lies beyond memory is refused.
    pub fn write_qword(&mut self, addr: u32, value: u64) -> (r: Result<(), MemoryError>)
        requires
            old(self).wf(),
            old(self).buffer_capacity() > 0,
            addr + 7 <= u32::MAX,
            old(self).room() >= 8,
        ensures
            final(self).wf(),
            final(self).buffer_capacity() == old(self).buffer_capacity(),
            addr + 7 >= old(self).bytes().len() ==> {
                &&& r == Err::<(), MemoryError>(MemoryError::InvalidAddress((addr + 7) as u32))
                &&& *final(self) == *old(self)
            },
            addr + 7 < old(self).bytes().len() ==> {
                &&& r == Ok::<(), MemoryError>(())
                &&& write_done(*old(self), *final(self), addr, le_bytes(value as nat, 8))
            },
    {
        proof {
            lemma_le_bytes_len(value as nat, 8);
        }
        self.write_le(addr, value, 8)
    }

    /// Writes the bytes of `data` from `addr` on. A block whose last byte
    /// (the byte before `addr`, for an empty block) lies beyond memory is
    /// refused.
    pub fn write_block(&mut self, addr: u32, data: &[u8]) -> (r: Result<(), MemoryError>)
        requires
            old(self).wf(),
            data@.len() > 0 ==> old(self).buffer_capacity() > 0,
            1 <= addr + data@.len() <= u32::MAX,
            old(self).room() >= data@.len(),
        ensures
            final(self).wf(),
            final(self).buffer_capacity() == old(self).buffer_capacity(),
            addr + data@.len() - 1 >= old(self).bytes().len() ==> {
                &&& r == Err::<(), MemoryError>(
                    MemoryError::InvalidAddress((addr + data@.len() - 1) as u32),
                )
                &&& *final(self) == *old(self)
            },
            addr + data@.len() - 1 < old(self).bytes().len() ==> {
                &&& r == Ok::<(), MemoryError>(())
                &&& write_done(*old(self), *final(self), addr, data@)
            },
    {
        let end = addr + data.len() as u32 - 1;
        match self.check_address(end) {
            Err(e) => {
                return Err(e);
            },
            Ok(()) => {},
        }
        if data.len() > 0 {
            self.write_bytes(addr, data);
        }
        Ok(())
    }

    /// Reads the `size` bytes from `addr` on. A block whose last byte (the
    /// byte before `addr`, for an empty block) lies beyond memory is refused.
    pub fn read_block(&mut self, addr: u32, size: usize) -> (r: Result<Vec<u8>, MemoryError>)
        requires
            old(self).wf(),
            1 <= addr + size <= u32::MAX,
            old(self).room() >= size,
        ensures
            final(self).wf(),
            final(self).bytes() == old(self).bytes(),
            final(self).buffered() == old(self).buffered(),
            final(self).buffer_capacity() == old(self).buffer_capacity(),
            addr + size - 1 >= old(self).bytes().len() ==> {
                &&& r == Err::<Vec<u8>, MemoryError>(
                    MemoryError::InvalidAddress((addr + size - 1) as u32),
                )
                &&& *final(self) == *old(self)
            },
            addr + size - 1 < old(self).bytes().len() ==> match r {
                Ok(data) => {
                    &&& data@.len() == size
                    &&& read_back(*old(self), addr, data@)
                    &&& read_in_turn(*old(self), *final(self), addr, data@)
                    &&& counted_reads(
                        old(self).spec_stats(),
                        final(self).spec_stats(),
                        size as nat,
                        sb_count(old(self).buffered(), addr, size as nat),
                    )
                    &&& final(self).room() + size >= old(self).room()
                },
                Err(_) => false,
            },
    {
        let end = addr + size as u32 - 1;
        match self.check_address(end) {
            Err(e) => {
                return Err(e);
            },
            Ok(()) => {},
        }
        let data = self.read_bytes(addr, size);
        Ok(data)
    }

    /// Writes every buffered byte into main memory, oldest first, and empties
    /// the store buffer.
    pub fn flush_store_buffer(&mut self) -> (r: Result<(), MemoryError>)
        requires
            old(self).wf(),
        ensures
            r == Ok::<(), MemoryError>(()),
            final(self).wf(),
            final(self).bytes() == apply_stores(old(self).bytes(), old(self).buffered()),
            final(self).buffered() == Seq::<(u32, u8)>::empty(),
            final(self).buffer_capacity() == old(self).buffer_capacity(),
            final(self).caches() == old(self).caches(),
            final(self).spec_stats() == old(self).spec_stats(),
            final(self).room() == old(self).room(),
    {
        self.store_buffer.flush(&mut self.memory);
        Ok(())
    }

    /// Zeroes main memory and empties the caches, the miss registers, the
    /// write buffer and the store buffer; the counters go back to zero.
    pub fn reset(&mut self)
        requires
            old(self).wf(),
        ensures
            final(self).wf(),
            final(self).bytes() == Seq::new(old(self).bytes().len(), |i: int| 0u8),
            final(self).buffered() == Seq::<(u32, u8)>::empty(),
            final(self).buffer_capacity() == old(self).buffer_capacity(),
            final(self).spec_stats() == MemoryStats::spec_zero(),
            final(self).room() >= 0x1000_0000,
            forall|a: u32| (a as int) < final(self).bytes().len() ==> #[trigger] final(self).read_value(a) == 0,
    {
        let n = self.memory.len();
        let mut i: usize = 0;
        while i < n
            invariant
                i <= n,
                n == self.memory@.len(),
                n == old(self).memory@.len(),
                old(self).wf(),
                self.cache_hierarchy == old(self).cache_hierarchy,
                self.store_buffer == old(self).store_buffer,
                forall|k: int| 0 <= k < i ==> #[trigger] self.memory@[k] == 0u8,
            decreases n - i,
        {
            self.memory.set(i, 0);
            i += 1;
        }
        let _ = self.cache_hierarchy.l1_data.reset();
        let _ = self.cache_hierarchy.l1_inst.reset();
        let _ = self.cache_hierarchy.l2_unified.reset();
        self.cache_hierarchy.mshr = MSHR::new(8);
        self.cache_hierarchy.write_buffer = WriteBuffer::new(16);
        self.store_buffer.clear();
        self.stats = MemoryStats::default();
        proof {
            assert(self.memory@ =~= Seq::new(n as nat, |k: int| 0u8));
            assert(self.cache_hierarchy.l1_data.headroom() >= 0x6000_0000);
            assert(self.cache_hierarchy.l2_unified.headroom() >= 0x3000_0000);
            assert forall|a: u32| (a as int) < self.bytes().len() implies #[trigger] self.read_value(a)
                == 0 by {
                let h = self.cache_hierarchy;
                assert(!h.pending(a));
                assert(h.l1_data.lookup(a) is None);
                assert(h.l2_unified.lookup(a) is None);
            }
        }
    }

    /// The counters.
    pub fn stats(&self) -> (r: MemoryStats)
        ensures
            r == self.spec_stats(),
    {
        self.stats
    }
}

/// Store-buffer entries recording the bytes of `data` at `addr`,
/// `addr + 1`, ..., in order.
pub open spec fn range_entries(addr: u32, data: Seq<u8>) -> Seq<(u32, u8)> {
    Seq::new(data.len(), |i: int| ((addr + i) as u32, data[i]))
}

proof fn lemma_lookup_none(s: Seq<(u32, u8)>, x: u32)
    ensures
        sb_lookup(s, x) is None <==> forall|j: int| 0 <= j < s.len() ==> (#[trigger] s[j]).0 != x,
    decreases s.len(),
{
    if s.len() > 0 {
        lemma_lookup_none(s.drop_last(), x);
        assert forall|j: int| 0 <= j < s.len() - 1 implies s.drop_last()[j] == #[trigger] s[j] by {}
    }
}

proof fn lemma_lookup_range(p: Seq<(u32, u8)>, addr: u32, data: Seq<u8>, i: int)
    requires
        0 <= i < data.len(),
        addr + data.len() <= u32::MAX + 1,
    ensures
        sb_lookup(p + range_entries(addr, data), (addr + i) as u32) == Some(data[i]),
    decreases data.len(),
{
    let q = p + range_entries(addr, data);
    let n = data.len() as int;
    assert(q.last() == range_entries(addr, data)[n - 1]);
    if i < n - 1 {
        assert(q.drop_last() =~= p + range_entries(addr, data.drop_last()));
        lemma_lookup_range(p, addr, data.drop_last(), i);
    }
}

proof fn lemma_add_all_shape(s: Seq<(u32, u8)>, cap: nat, addr: u32, data: Seq<u8>) -> (k: int)
    requires
        s.len() <= cap,
        data.len() <= cap,
        addr + data.len() <= u32::MAX + 1,
        forall|i: int| 0 <= i < data.len() ==> sb_lookup(s, #[trigger] ((addr + i) as u32)) is None,
    ensures
        0 <= k <= s.len(),
        sb_add_all(s, cap, addr, data) == s.skip(k) + range_entries(addr, data),
        s.skip(k).len() + data.len() <= cap,
    decreases data.len(),
{
    if data.len() == 0 {
        assert(s.skip(0) + range_entries(addr, data) =~= s);
        0
    } else {
        let n = data.len() as int;
        let d0 = data.drop_last();
        assert forall|i: int| 0 <= i < d0.len() implies sb_lookup(s, #[trigger] ((addr + i) as u32))
            is None by {
            assert(sb_lookup(s, ((addr + i) as u32)) is None);
        }
        let k0 = lemma_add_all_shape(s, cap, addr, d0);
        let t = sb_add_all(s, cap, addr, d0);
        let x = (addr + n - 1) as u32;
        let sk = s.skip(k0);
        assert(sb_lookup(s, ((addr + (n - 1)) as u32)) is None);
        lemma_lookup_none(s, x);
        assert(range_entries(addr, d0) =~= range_entries(addr, data).drop_last());
        assert forall|j: int| 0 <= j < t.len() implies (#[trigger] t[j]).0 != x by {
            if j < sk.len() {
                assert(t[j] == s[j + k0]);
            } else {
                assert(t[j] == range_entries(addr, d0)[j - sk.len()]);
            }
        }
        assert(!(exists|j: int| 0 <= j < t.len() && (#[trigger] t[j]).0 == x));
        assert(data.last() == data[n - 1]);
        if t.len() >= cap {
            assert(sk.len() >= 1);
            assert(t.drop_first().push((x, data.last())) =~= s.skip(k0 + 1) + range_entries(
                addr,
                data,
            ));
            k0 + 1
        } else {
            assert(t.push((x, data.last())) =~= s.skip(k0) + range_entries(addr, data));
            k0
        }
    }
}

/// Read after write: once a write of `data` at `addr` took `a` to `b`, and
/// the store buffer had room for every byte and held none of their
/// addresses, any read of the range gives `data` back.
pub proof fn lemma_read_after_write(a: Memory, b: Memory, addr: u32, data: Seq<u8>)
    requires
        a.wf(),
        write_done(a, b, addr, data),
        data.len() <= a.buffer_capacity(),
        addr + data.len() <= u32::MAX + 1,
        forall|i: int| 0 <= i < data.len() ==> sb_lookup(a.buffered(), #[trigger] ((addr + i) as u32)) is None,
    ensures
        forall|i: int|
            0 <= i < data.len() ==> #[trigger] sb_lookup(b.buffered(), (addr + i) as u32) == Some(
                data[i],
            ),
        forall|got: Seq<u8>| got.len() == data.len() && #[trigger] read_back(b, addr, got) ==> got == data,
{
    let k = lemma_add_all_shape(a.buffered(), a.buffer_capacity(), addr, data);
    let p = a.buffered().skip(k);
    assert forall|i: int| 0 <= i < data.len() implies #[trigger] sb_lookup(
        b.buffered(),
        (addr + i) as u32,
    ) == Some(data[i]) by {
        lemma_lookup_range(p, addr, data, i);
    }
    assert forall|got: Seq<u8>| got.len() == data.len() && #[trigger] read_back(b, addr, got) implies got
        == data by {
        assert forall|i: int| 0 <= i < data.len() implies got[i] == data[i] by {
            assert(sb_lookup(b.buffered(), (addr + i) as u32) == Some(data[i]));
        }
        assert(got =~= data);
    }
}

/// A byte written and then flushed out of the store buffer reads back:
/// when `b` is what a write of `value` at `addr` leaves (L1 holds the byte)
/// and `c` what a flush of `b` leaves (same caches, empty store buffer), a
/// read of `addr` in `c` gives `value`.
pub proof fn lemma_read_after_flush(b: Memory, c: Memory, addr: u32, value: u8)
    requires
        b.caches().l1_data.lookup(addr) == Some(value),
        c.wf(),
        c.caches() == b.caches(),
        c.buffered() == Seq::<(u32, u8)>::empty(),
    ensures
        c.read_value(addr) == value,
{
    let h = c.caches();
    if h.pending(addr) {
        let i = choose|i: int|
            0 <= i < h.mshr@.len() && (#[trigger] h.mshr@[i] matches Some(e) && e.addr == addr);
        assert(h.mshr@[i] is None);
    }
    assert(sb_lookup(c.buffered(), addr) is None);
}

/// Two memories agree on everything a byte read looks at or changes in a
/// way later reads can see.
pub open spec fn alike_memories(m1: Memory, m2: Memory) -> bool {
    &&& m1.wf()
    &&& m2.wf()
    &&& m1.bytes() == m2.bytes()
    &&& m1.buffered() == m2.buffered()
    &&& m1.caches().mshr == m2.caches().mshr
    &&& alike(m1.caches().l1_data, m2.caches().l1_data)
    &&& alike(m1.caches().l2_unified, m2.caches().l2_unified)
}

proof fn lemma_alike_read_value(m1: Memory, m2: Memory, x: u32)
    requires
        alike_memories(m1, m2),
    ensures
        m1.read_value(x) == m2.read_value(x),
        m1.caches().l1_data.lookup(x) == m2.caches().l1_data.lookup(x),
        m1.caches().l2_unified.lookup(x) == m2.caches().l2_unified.lookup(x),
{
    lemma_alike_lookup(m1.caches().l1_data, m2.caches().l1_data, x);
    lemma_alike_lookup(m1.caches().l2_unified, m2.caches().l2_unified, x);
}

proof fn lemma_same_contents_alike(a1: Cache, a2: Cache, b1: Cache, b2: Cache)
    requires
        alike(a1, a2),
        CacheHierarchy::same_contents(a1, b1),
        CacheHierarchy::same_contents(a2, b2),
    ensures
        alike(b1, b2),
{
    assert(b1.lines@ == a1.lines@);
    assert(b2.lines@ == a2.lines@);
}

proof fn lemma_byte_read_alike(a1: Memory, a2: Memory, b1: Memory, b2: Memory, addr: u32)
    requires
        alike_memories(a1, a2),
        byte_read(a1, b1, addr),
        byte_read(a2, b2, addr),
    ensures
        alike_memories(b1, b2),
{
    lemma_alike_read_value(a1, a2, addr);
    if sb_lookup(a1.buffered(), addr) is None {
        let h1 = a1.caches();
        let h2 = a2.caches();
        let g1 = b1.caches();
        let g2 = b2.caches();
        if h1.l1_data.lookup(addr) is None && h1.l2_unified.lookup(addr) is None {
            let w1 = choose|w: int|
                #[trigger] Cache::allocated(h1.l1_data, g1.l1_data, addr, w, writes_back(h1.l1_data.config));
            let w2 = choose|w: int|
                #[trigger] Cache::allocated(h2.l1_data, g2.l1_data, addr, w, writes_back(h2.l1_data.config));
            lemma_allocated_alike(
                h1.l1_data,
                h2.l1_data,
                g1.l1_data,
                g2.l1_data,
                addr,
                w1,
                w2,
                writes_back(h1.l1_data.config),
                writes_back(h2.l1_data.config),
            );
            lemma_same_contents_alike(h1.l2_unified, h2.l2_unified, g1.l2_unified, g2.l2_unified);
        } else if h1.l1_data.lookup(addr) is Some {
            lemma_refreshed_alike(h1.l1_data, h2.l1_data, g1.l1_data, g2.l1_data, addr);
            lemma_same_contents_alike(h1.l2_unified, h2.l2_unified, g1.l2_unified, g2.l2_unified);
        } else {
            lemma_refreshed_alike(h1.l2_unified, h2.l2_unified, g1.l2_unified, g2.l2_unified, addr);
            let w1 = choose|w: int|
                #[trigger] Cache::allocated(h1.l1_data, g1.l1_data, addr, w, writes_back(h1.l1_data.config));
            let w2 = choose|w: int|
                #[trigger] Cache::allocated(h2.l1_data, g2.l1_data, addr, w, writes_back(h2.l1_data.config));
            lemma_allocated_alike(
                h1.l1_data,
                h2.l1_data,
                g1.l1_data,
                g2.l1_data,
                addr,
                w1,
                w2,
                writes_back(h1.l1_data.config),
                writes_back(h2.l1_data.config),
            );
        }
    }
}

proof fn lemma_chains_alike(
    ms1: Seq<Memory>,
    ms2: Seq<Memory>,
    addr: u32,
    d1: Seq<u8>,
    d2: Seq<u8>,
    k: int,
)
    requires
        read_chain(ms1, addr, d1),
        read_chain(ms2, addr, d2),
        d1.len() == d2.len(),
        alike_memories(ms1[0], ms2[0]),
        0 <= k <= d1.len(),
    ensures
        alike_memories(ms1[k], ms2[k]),
        forall|i: int| 0 <= i < k ==> d1[i] == d2[i],
    decreases k,
{
    if k > 0 {
        let i = k - 1;
        lemma_chains_alike(ms1, ms2, addr, d1, d2, i);
        let x = (addr + i) as u32;
        assert(byte_read(ms1[i], ms1[i + 1], x) && d1[i] == ms1[i].read_value(x));
        assert(byte_read(ms2[i], ms2[i + 1], x) && d2[i] == ms2[i].read_value(x));
        lemma_alike_read_value(ms1[i], ms2[i], x);
        lemma_byte_read_alike(ms1[i], ms2[i], ms1[i + 1], ms2[i + 1], x);
    }
}

/// A multi-byte read gives one answer: two reads of as many bytes at `addr`
/// from the same state give the same bytes.
pub proof fn lemma_read_in_turn_determined(
    a: Memory,
    b1: Memory,
    b2: Memory,
    addr: u32,
    d1: Seq<u8>,
    d2: Seq<u8>,
)
    requires
        a.wf(),
        read_in_turn(a, b1, addr, d1),
        read_in_turn(a, b2, addr, d2),
        d1.len() == d2.len(),
    ensures
        d1 == d2,
{
    let ms1 = choose|ms: Seq<Memory>| #[trigger] read_chain(ms, addr, d1) && ms[0] == a && ms.last() == b1;
    let ms2 = choose|ms: Seq<Memory>| #[trigger] read_chain(ms, addr, d2) && ms[0] == a && ms.last() == b2;
    assert(alike(a.caches().l1_data, a.caches().l1_data));
    assert(alike(a.caches().l2_unified, a.caches().l2_unified));
    lemma_chains_alike(ms1, ms2, addr, d1, d2, d1.len() as int);
    assert(d1 =~= d2);
}

} // verus!
