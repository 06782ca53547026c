//! Store buffer: recent byte writes, looked up before the caches.
use vstd::prelude::*;

verus! {

/// Value of the most recent entry for `addr`.
pub open spec fn sb_lookup(s: Seq<(u32, u8)>, addr: u32) -> Option<u8>
    decreases s.len(),
{
    if s.len() == 0 {
        None
    } else if s.last().0 == addr {
        Some(s.last().1)
    } else {
        sb_lookup(s.drop_last(), addr)
    }
}

/// `mem` after writing each entry of `s` whose address is in range, in
/// order.
pub open spec fn apply_stores(mem: Seq<u8>, s: Seq<(u32, u8)>) -> Seq<u8>
    decreases s.len(),
{
    if s.len() == 0 {
        mem
    } else {
        let prev = apply_stores(mem, s.drop_last());
        if (s.last().0 as int) < prev.len() {
            prev.update(s.last().0 as int, s.last().1)
        } else {
            prev
        }
    }
}

/// Slot of the entry for `addr`, where some entry is for it.
pub open spec fn sb_slot(s: Seq<(u32, u8)>, addr: u32) -> int {
    choose|i: int| 0 <= i < s.len() && (#[trigger] s[i]).0 == addr
}

/// Entries after recording a write of `v` at `addr` in a buffer of `cap`
/// entries: an entry for `addr` takes the value in place; otherwise the write
/// is appended, after the oldest entry is dropped when the buffer is full.
pub open spec fn sb_added(s: Seq<(u32, u8)>, cap: nat, addr: u32, v: u8) -> Seq<(u32, u8)> {
    if exists|i: int| 0 <= i < s.len() && (#[trigger] s[i]).0 == addr {
        s.update(sb_slot(s, addr), (addr, v))
    } else if s.len() >= cap {
        s.drop_first().push((addr, v))
    } else {
        s.push((addr, v))
    }
}

/// Entries after recording the bytes of `data` at `addr`, `addr + 1`, ...,
/// in order.
pub open spec fn sb_add_all(s: Seq<(u32, u8)>, cap: nat, addr: u32, data: Seq<u8>) -> Seq<
    (u32, u8),
>
    decreases data.len(),
{
    if data.len() == 0 {
        s
    } else {
        sb_added(
            sb_add_all(s, cap, addr, data.drop_last()),
            cap,
            (addr + data.len() - 1) as u32,
            data.last(),
        )
    }
}

/// Byte writes waiting to reach memory, oldest first, at most one per
/// address.
pub struct StoreBuffer {
    /// Number of entries kept before the oldest is dropped.
    pub capacity: usize,
    /// The writes, oldest first.
    pub entries: Vec<(u32, u8)>,
}

impl StoreBuffer {
    /// Addresses are distinct and the entries fit in the capacity.
    pub open spec fn wf(&self) -> bool {
        &&& self.entries@.len() <= self.capacity
        &&& forall|i: int, j: int|
            0 <= i < self.entries@.len() && 0 <= j < self.entries@.len() && i != j
                ==> (#[trigger] self.entries@[i]).0 != (#[trigger] self.entries@[j]).0
    }

    /// Whether some entry is for `addr`.
    pub open spec fn holds(&self, addr: u32) -> bool {
        exists|i: int| 0 <= i < self.entries@.len() && (#[trigger] self.entries@[i]).0 == addr
    }

    /// An empty buffer of `capacity` entries.
    pub fn new(capacity: usize) -> (b: Self)
        ensures
            b.wf(),
            b.capacity == capacity,
            b.entries@ == Seq::<(u32, u8)>::empty(),
    {
        StoreBuffer { capacity, entries: Vec::with_capacity(capacity) }
    }

    /// Records a write of `value` at `addr`: an entry for `addr` takes the
    /// new value in place; otherwise the write is appended, after dropping
    /// the oldest entry when the buffer is full.
    pub fn add(&mut self, addr: u32, value: u8)
        requires
            old(self).wf(),
            old(self).capacity > 0 || old(self).entries@.len() > 0,
        ensures
            final(self).wf(),
            final(self).capacity == old(self).capacity,
            old(self).holds(addr) ==> exists|i: int|
                0 <= i < old(self).entries@.len() && (#[trigger] old(self).entries@[i]).0 == addr
                    && final(self).entries@ == old(self).entries@.update(i, (addr, value)),
            !old(self).holds(addr) ==> final(self).entries@ == if old(self).entries@.len()
                >= old(self).capacity {
                old(self).entries@.drop_first().push((addr, value))
            } else {
                old(self).entries@.push((addr, value))
            },
            final(self).entries@ == sb_added(old(self).entries@, old(self).capacity as nat, addr, value),
            sb_lookup(final(self).entries@, addr) == Some(value),
            final(self).holds(addr),
    {
        let mut i: usize = 0;
        while i < self.entries.len()
            invariant
                i <= self.entries@.len(),
                old(self).wf(),
                self.entries@ == old(self).entries@,
                self.capacity == old(self).capacity,
                forall|k: int| 0 <= k < i ==> (#[trigger] self.entries@[k]).0 != addr,
            decreases self.entries@.len() - i,
        {
            if self.entries[i].0 == addr {
                self.entries.set(i, (addr, value));
                proof {
                    lemma_wf_update(old(self).entries@, i as int, (addr, value));
                    lemma_lookup_unique(self.entries@, i as int);
                    let s = old(self).entries@;
                    assert(s[i as int].0 == addr);
                    let j = sb_slot(s, addr);
                    assert(s[j].0 == addr);
                    assert(j == i);
                }
                return ;
            }
            i += 1;
        }
        if self.entries.len() >= self.capacity {
            self.entries.remove(0);
        }
        let ghost mid = self.entries@;
        self.entries.push((addr, value));
        proof {
            assert(self.entries@.last() == (addr, value));
            assert(self.entries@.drop_last() =~= mid);
            assert forall|x: int, y: int|
                0 <= x < self.entries@.len() && 0 <= y < self.entries@.len() && x != y implies (
                #[trigger] self.entries@[x]).0 != (#[trigger] self.entries@[y]).0 by {
                let n = mid.len() as int;
                if x < n && y < n {
                    assert(mid[x] == old(self).entries@[x + old(self).entries@.len() - n]);
                    assert(mid[y] == old(self).entries@[y + old(self).entries@.len() - n]);
                } else if x == n {
                    assert(mid[y] == old(self).entries@[y + old(self).entries@.len() - n]);
                } else {
                    assert(mid[x] == old(self).entries@[x + old(self).entries@.len() - n]);
                }
            }
            assert(self.entries@[self.entries@.len() - 1].0 == addr);
            if old(self).entries@.len() >= old(self).capacity {
                assert(mid =~= old(self).entries@.drop_first());
            }
        }
    }

    /// Value of the most recent write to `addr` still in the buffer.
    pub fn lookup_byte(&self, addr: u32) -> (r: Option<u8>)
        ensures
            r == sb_lookup(self.entries@, addr),
    {
        let mut i: usize = self.entries.len();
        proof {
            assert(self.entries@.take(self.entries@.len() as int) =~= self.entries@);
        }
        while i > 0
            invariant
                i <= self.entries@.len(),
                sb_lookup(self.entries@, addr) == sb_lookup(self.entries@.take(i as int), addr),
            decreases i,
        {
            let (a, v) = self.entries[i - 1];
            proof {
                let t = self.entries@.take(i as int);
                assert(t.last() == self.entries@[i - 1]);
                assert(t.drop_last() =~= self.entries@.take(i - 1));
            }
            if a == addr {
                return Some(v);
            }
            i -= 1;
        }
        proof {
            assert(self.entries@.take(0) =~= Seq::<(u32, u8)>::empty());
        }
        None
    }

    /// Whether some write to `addr` is in the buffer.
    pub fn has_address(&self, addr: u32) -> (r: bool)
        ensures
            r == self.holds(addr),
    {
        let mut i: usize = 0;
        while i < self.entries.len()
            invariant
                i <= self.entries@.len(),
                forall|k: int| 0 <= k < i ==> (#[trigger] self.entries@[k]).0 != addr,
            decreases self.entries@.len() - i,
        {
            if self.entries[i].0 == addr {
                return true;
            }
            i += 1;
        }
        false
    }

    /// Writes every buffered byte whose address lies in `memory`, oldest
    /// first, and empties the buffer.
    pub fn flush(&mut self, memory: &mut Vec<u8>)
        ensures
            final(memory)@ == apply_stores(old(memory)@, old(self).entries@),
            final(self).entries@ == Seq::<(u32, u8)>::empty(),
            final(self).capacity == old(self).capacity,
    {
        let mut i: usize = 0;
        while i < self.entries.len()
            invariant
                i <= self.entries@.len(),
                self.entries@ == old(self).entries@,
                memory@ == apply_stores(old(memory)@, self.entries@.take(i as int)),
            decreases self.entries@.len() - i,
        {
            let (addr, value) = self.entries[i];
            proof {
                let t = self.entries@.take(i + 1);
                assert(t.drop_last() =~= self.entries@.take(i as int));
                assert(t.last() == (addr, value));
                lemma_apply_len(old(memory)@, self.entries@.take(i as int));
            }
            if (addr as usize) < memory.len() {
                memory.set(addr as usize, value);
            }
            i += 1;
        }
        proof {
            assert(self.entries@.take(self.entries@.len() as int) =~= self.entries@);
        }
        self.entries.clear();
    }

    /// Drops every buffered write.
    pub fn clear(&mut self)
        ensures
            final(self).entries@ == Seq::<(u32, u8)>::empty(),
            final(self).capacity == old(self).capacity,
            final(self).wf(),
    {
        self.entries.clear();
    }
}

proof fn lemma_apply_len(mem: Seq<u8>, s: Seq<(u32, u8)>)
    ensures
        apply_stores(mem, s).len() == mem.len(),
    decreases s.len(),
{
    if s.len() > 0 {
        lemma_apply_len(mem, s.drop_last());
    }
}

proof fn lemma_wf_update(s: Seq<(u32, u8)>, i: int, e: (u32, u8))
    requires
        0 <= i < s.len(),
        s[i].0 == e.0,
        forall|x: int, y: int|
            0 <= x < s.len() && 0 <= y < s.len() && x != y ==> (#[trigger] s[x]).0 != (
            #[trigger] s[y]).0,
    ensures
        forall|x: int, y: int|
            0 <= x < s.len() && 0 <= y < s.len() && x != y ==> (#[trigger] s.update(i, e)[x]).0
                != (#[trigger] s.update(i, e)[y]).0,
{
}

/// With distinct addresses, the lookup of the address at slot `i` finds
/// slot `i`.
proof fn lemma_lookup_unique(s: Seq<(u32, u8)>, i: int)
    requires
        0 <= i < s.len(),
        forall|x: int, y: int|
            0 <= x < s.len() && 0 <= y < s.len() && x != y ==> (#[trigger] s[x]).0 != (
            #[trigger] s[y]).0,
    ensures
        sb_lookup(s, s[i].0) == Some(s[i].1),
    decreases s.len(),
{
    if i != s.len() - 1 {
        let t = s.drop_last();
        assert(t[i] == s[i]);
        lemma_lookup_unique(t, i);
    }
}

} // verus!
