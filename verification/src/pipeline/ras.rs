//! Return address stack: predicts the target of a return from the calls
//! seen so far.
use vstd::prelude::*;
use std::collections::VecDeque;

verus! {

/// A bounded stack of return addresses; when full, a push drops the oldest.
#[derive(Debug)]
pub struct ReturnAddressStack {
    stack: VecDeque<u32>,
    max_size: usize,
    pushes: u64,
    pops: u64,
    hits: u64,
    misses: u64,
}

/// Entries after pushing `addr` on `s` with room for `max` entries: the
/// oldest entry goes first when the stack is full.
pub open spec fn ras_pushed(s: Seq<u32>, max: nat, addr: u32) -> Seq<u32> {
    if s.len() >= max && s.len() > 0 {
        s.drop_first().push(addr)
    } else {
        s.push(addr)
    }
}

impl ReturnAddressStack {
    /// The return addresses, oldest first.
    pub closed spec fn entries(&self) -> Seq<u32> {
        self.stack@
    }

    /// Number of entries kept before the oldest is dropped.
    pub closed spec fn spec_max_size(&self) -> nat {
        self.max_size as nat
    }

    /// Counters: pushes, pops, correct and wrong predictions.
    pub closed spec fn counters(&self) -> (u64, u64, u64, u64) {
        (self.pushes, self.pops, self.hits, self.misses)
    }

    /// An empty stack of `max_size` entries, with counters at zero.
    pub fn new(max_size: usize) -> (r: Self)
        ensures
            r.entries() == Seq::<u32>::empty(),
            r.spec_max_size() == max_size,
            r.counters() == (0u64, 0u64, 0u64, 0u64),
    {
        ReturnAddressStack {
            stack: VecDeque::with_capacity(max_size),
            max_size,
            pushes: 0,
            pops: 0,
            hits: 0,
            misses: 0,
        }
    }

    /// Pushes a return address, dropping the oldest one when the stack is
    /// full.
    pub fn push(&mut self, return_address: u32)
        requires
            old(self).counters().0 < u64::MAX,
        ensures
            final(self).entries() == ras_pushed(
                old(self).entries(),
                old(self).spec_max_size(),
                return_address,
            ),
            final(self).spec_max_size() == old(self).spec_max_size(),
            final(self).counters() == ((old(self).counters().0 + 1) as u64, old(self).counters().1, old(
                self,
            ).counters().2, old(self).counters().3),
    {
        if self.stack.len() >= self.max_size {
            let _ = self.stack.pop_front();
        }
        self.stack.push_back(return_address);
        self.pushes = self.pushes + 1;
    }

    /// Pops the most recent return address, if any; the pop is counted
    /// either way.
    pub fn pop(&mut self) -> (r: Option<u32>)
        requires
            old(self).counters().1 < u64::MAX,
        ensures
            old(self).entries().len() == 0 ==> r is None && final(self).entries() == old(
                self,
            ).entries(),
            old(self).entries().len() > 0 ==> r == Some(old(self).entries().last())
                && final(self).entries() == old(self).entries().drop_last(),
            final(self).spec_max_size() == old(self).spec_max_size(),
            final(self).counters() == (old(self).counters().0, (old(self).counters().1 + 1) as u64, old(
                self,
            ).counters().2, old(self).counters().3),
    {
        let result = self.stack.pop_back();
        self.pops = self.pops + 1;
        result
    }

    /// The most recent return address, if any.
    pub fn predict(&self) -> (r: Option<u32>)
        ensures
            self.entries().len() == 0 ==> r is None,
            self.entries().len() > 0 ==> r == Some(self.entries().last()),
    {
        let n = self.stack.len();
        if n == 0 {
            None
        } else {
            Some(self.stack[n - 1])
        }
    }

    /// Counts a prediction: a hit when it names the actual address, a miss
    /// otherwise or when there was none.
    pub fn update_prediction(&mut self, predicted: Option<u32>, actual: u32)
        requires
            old(self).counters().2 < u64::MAX,
            old(self).counters().3 < u64::MAX,
        ensures
            final(self).entries() == old(self).entries(),
            final(self).spec_max_size() == old(self).spec_max_size(),
            final(self).counters() == if predicted == Some(actual) {
                (old(self).counters().0, old(self).counters().1, (old(self).counters().2 + 1) as u64, old(
                    self,
                ).counters().3)
            } else {
                (old(self).counters().0, old(self).counters().1, old(self).counters().2, (old(
                    self,
                ).counters().3 + 1) as u64)
            },
    {
        match predicted {
            Some(pred) => {
                if pred == actual {
                    self.hits = self.hits + 1;
                } else {
                    self.misses = self.misses + 1;
                }
            },
            None => {
                self.misses = self.misses + 1;
            },
        }
    }

    /// Empties the stack and zeroes the counters.
    pub fn reset(&mut self)
        ensures
            final(self).entries() == Seq::<u32>::empty(),
            final(self).spec_max_size() == old(self).spec_max_size(),
            final(self).counters() == (0u64, 0u64, 0u64, 0u64),
    {
        self.stack.clear();
        self.pushes = 0;
        self.pops = 0;
        self.hits = 0;
        self.misses = 0;
    }

    /// Pushes counted so far.
    pub fn pushes(&self) -> (r: u64)
        ensures
            r == self.counters().0,
    {
        self.pushes
    }

    /// Pops counted so far.
    pub fn pops(&self) -> (r: u64)
        ensures
            r == self.counters().1,
    {
        self.pops
    }

    /// Correct predictions counted so far.
    pub fn hits(&self) -> (r: u64)
        ensures
            r == self.counters().2,
    {
        self.hits
    }

    /// Wrong or missing predictions counted so far.
    pub fn misses(&self) -> (r: u64)
        ensures
            r == self.counters().3,
    {
        self.misses
    }

    /// Number of addresses on the stack.
    pub fn depth(&self) -> (r: usize)
        ensures
            r == self.entries().len(),
    {
        self.stack.len()
    }

    /// The return addresses, oldest first.
    pub fn addresses(&self) -> (r: Vec<u32>)
        ensures
            r@ == self.entries(),
    {
        let mut out: Vec<u32> = Vec::with_capacity(self.stack.len());
        let mut i: usize = 0;
        while i < self.stack.len()
            invariant
                i <= self.stack@.len(),
                out@ == self.stack@.take(i as int),
            decreases self.stack@.len() - i,
        {
            out.push(self.stack[i]);
            i += 1;
            proof {
                assert(out@ =~= self.stack@.take(i as int));
            }
        }
        proof {
            assert(self.stack@.take(self.stack@.len() as int) =~= self.stack@);
        }
        out
    }

    /// Number of entries kept before the oldest is dropped.
    pub fn max_size(&self) -> (r: usize)
        ensures
            r == self.spec_max_size(),
    {
        self.max_size
    }
}

/// A return pops what the matching call pushed: after a push of `addr`, the
/// prediction and the next pop give `addr`, and the pop leaves the other
/// entries as the push found them unless the push dropped the oldest.
pub proof fn lemma_push_then_pop(s: Seq<u32>, max: nat, addr: u32)
    ensures
        ras_pushed(s, max, addr).len() > 0,
        ras_pushed(s, max, addr).last() == addr,
        s.len() < max ==> ras_pushed(s, max, addr).drop_last() == s,
        ras_pushed(s, max, addr).len() <= if max > s.len() { max } else { s.len() + 1 },
{
    if s.len() >= max && s.len() > 0 {
        assert(s.drop_first().push(addr).drop_last() =~= s.drop_first());
    } else {
        assert(s.push(addr).drop_last() =~= s);
    }
}

} // verus!
