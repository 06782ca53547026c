//! Branch predictors: two-bit counters, a gshare predictor, a hybrid
//! local/global predictor with a selector, a branch target buffer, a
//! perceptron predictor and an overriding predictor that pairs a fast
//! gshare prediction with a slower perceptron one.
use vstd::prelude::*;
use std::collections::HashMap;
use crate::pipeline::ras::ReturnAddressStack;
use crate::pvm::branch_perceptor::{
    Perceptron, partial_sum, trained, weights_in_range, lemma_sum_bound, GLOBAL_HISTORY_LENGTH,
    LOCAL_HISTORY_LENGTH, NUM_PERCEPTRONS, TOTAL_HISTORY_LENGTH,
};

verus! {

broadcast use vstd::std_specs::hash::group_hash_axioms;

/// Kinds of branch predictor.
#[derive(Debug, Clone, Copy, PartialEq, Eq, Structural)]
pub enum PredictorType {
    Static,
    Dynamic,
    GShare,
    Gskew,
    Hybrid,
    Tournament,
    Perceptron,
}

/// Sizes of the predictor's tables.
#[derive(Debug, Clone, Copy)]
pub struct PredictorConfig {
    pub local_history_bits: usize,
    pub global_history_bits: usize,
    pub btb_size: usize,
    pub ras_size: usize,
}

/// A predicted branch outcome.
#[derive(Debug, Clone, Copy, PartialEq, Eq, Structural)]
pub enum BranchPrediction {
    Taken,
    NotTaken,
}

/// States of a two-bit saturating counter, from strongly not taken to
/// strongly taken.
#[derive(Debug, Clone, Copy, PartialEq, Eq, Structural)]
pub enum TwoBitState {
    StronglyNotTaken,
    WeaklyNotTaken,
    WeaklyTaken,
    StronglyTaken,
}

/// Prediction of a counter in state `s`: taken in the two upper states.
pub open spec fn state_prediction(s: TwoBitState) -> BranchPrediction {
    match s {
        TwoBitState::StronglyNotTaken | TwoBitState::WeaklyNotTaken => BranchPrediction::NotTaken,
        TwoBitState::WeaklyTaken | TwoBitState::StronglyTaken => BranchPrediction::Taken,
    }
}

/// State after an outcome: one step up on taken, one step down on not
/// taken, saturating at both ends.
pub open spec fn state_step(s: TwoBitState, taken: bool) -> TwoBitState {
    match (s, taken) {
        (TwoBitState::StronglyNotTaken, true) => TwoBitState::WeaklyNotTaken,
        (TwoBitState::WeaklyNotTaken, true) => TwoBitState::WeaklyTaken,
        (TwoBitState::WeaklyTaken, true) => TwoBitState::StronglyTaken,
        (TwoBitState::StronglyTaken, true) => TwoBitState::StronglyTaken,
        (TwoBitState::StronglyTaken, false) => TwoBitState::WeaklyTaken,
        (TwoBitState::WeaklyTaken, false) => TwoBitState::WeaklyNotTaken,
        (TwoBitState::WeaklyNotTaken, false) => TwoBitState::StronglyNotTaken,
        (TwoBitState::StronglyNotTaken, false) => TwoBitState::StronglyNotTaken,
    }
}

/// Position of a state on the scale from strongly not taken (0) to
/// strongly taken (3).
pub open spec fn state_rank(s: TwoBitState) -> int {
    match s {
        TwoBitState::StronglyNotTaken => 0,
        TwoBitState::WeaklyNotTaken => 1,
        TwoBitState::WeaklyTaken => 2,
        TwoBitState::StronglyTaken => 3,
    }
}

/// A two-bit counter moves one step per outcome: a taken branch moves it one
/// place up the scale, a branch not taken one place down, and it stays put
/// at the end it is pushed against. It predicts taken exactly in the upper
/// half of the scale.
pub proof fn lemma_counter_moves_one_step(s: TwoBitState, taken: bool)
    ensures
        taken ==> state_rank(state_step(s, taken)) == if state_rank(s) == 3 {
            3
        } else {
            state_rank(s) + 1
        },
        !taken ==> state_rank(state_step(s, taken)) == if state_rank(s) == 0 {
            0
        } else {
            state_rank(s) - 1
        },
        (state_prediction(s) == BranchPrediction::Taken) == (state_rank(s) >= 2),
        forall|t: TwoBitState| state_rank(t) == state_rank(s) ==> t == s,
{
}

/// The state after an outcome, as a function.
fn next_state(s: TwoBitState, taken: bool) -> (r: TwoBitState)
    ensures
        r == state_step(s, taken),
{
    match (s, taken) {
        (TwoBitState::StronglyNotTaken, true) => TwoBitState::WeaklyNotTaken,
        (TwoBitState::WeaklyNotTaken, true) => TwoBitState::WeaklyTaken,
        (TwoBitState::WeaklyTaken, true) => TwoBitState::StronglyTaken,
        (TwoBitState::StronglyTaken, true) => TwoBitState::StronglyTaken,
        (TwoBitState::StronglyTaken, false) => TwoBitState::WeaklyTaken,
        (TwoBitState::WeaklyTaken, false) => TwoBitState::WeaklyNotTaken,
        (TwoBitState::WeaklyNotTaken, false) => TwoBitState::StronglyNotTaken,
        (TwoBitState::StronglyNotTaken, false) => TwoBitState::StronglyNotTaken,
    }
}

/// The prediction of a state, as a function.
fn predict_state(s: TwoBitState) -> (r: BranchPrediction)
    ensures
        r == state_prediction(s),
{
    match s {
        TwoBitState::StronglyNotTaken | TwoBitState::WeaklyNotTaken => BranchPrediction::NotTaken,
        TwoBitState::WeaklyTaken | TwoBitState::StronglyTaken => BranchPrediction::Taken,
    }
}

/// A two-bit saturating counter.
#[derive(Debug, Clone, Copy)]
pub struct TwoBitCounter {
    state: TwoBitState,
}

impl View for TwoBitCounter {
    type V = TwoBitState;

    closed spec fn view(&self) -> TwoBitState {
        self.state
    }
}

impl TwoBitCounter {
    /// A counter in the weakly-not-taken state.
    pub fn new() -> (c: Self)
        ensures
            c@ == TwoBitState::WeaklyNotTaken,
    {
        TwoBitCounter { state: TwoBitState::WeaklyNotTaken }
    }

    /// A counter in state `bias`.
    pub fn new_biased(bias: TwoBitState) -> (c: Self)
        ensures
            c@ == bias,
    {
        TwoBitCounter { state: bias }
    }

    /// Taken in the two upper states, not taken in the two lower ones.
    pub fn predict(&self) -> (r: BranchPrediction)
        ensures
            r == state_prediction(self@),
    {
        predict_state(self.state)
    }

    /// Moves one state towards the outcome, saturating at both ends.
    pub fn update(&mut self, taken: bool)
        ensures
            final(self)@ == state_step(old(self)@, taken),
    {
        self.state = next_state(self.state, taken);
    }
}

/// Two equal outcomes in a row make a two-bit counter predict that outcome,
/// whatever its state was.
pub proof fn lemma_two_updates_decide(s: TwoBitState, taken: bool)
    ensures
        state_prediction(state_step(state_step(s, taken), taken)) == if taken {
            BranchPrediction::Taken
        } else {
            BranchPrediction::NotTaken
        },
{
}

/// A counter is saturating: an outcome that agrees with a strong state
/// leaves it there, and one step never moves more than one state.
pub proof fn lemma_saturation(s: TwoBitState)
    ensures
        state_step(TwoBitState::StronglyTaken, true) == TwoBitState::StronglyTaken,
        state_step(TwoBitState::StronglyNotTaken, false) == TwoBitState::StronglyNotTaken,
        state_prediction(s) == BranchPrediction::Taken ==> state_prediction(state_step(s, true))
            == BranchPrediction::Taken,
        state_prediction(s) == BranchPrediction::NotTaken ==> state_prediction(
            state_step(s, false),
        ) == BranchPrediction::NotTaken,
{
}

/// Index of the gshare table for a branch at `pc` under global history
/// `gh`: the low 12 bits of the pc xor the history.
pub open spec fn gshare_index(pc: u64, gh: u16) -> usize {
    (((pc as usize) & 0xFFFusize) ^ (gh as usize)) & 0xFFFusize
}

/// History after an outcome: shifted left, the outcome in the low bit, kept
/// to 12 bits.
pub open spec fn gshare_history(gh: u16, taken: bool) -> u16 {
    ((gh << 1u16) | (if taken {
        1u16
    } else {
        0u16
    })) & 0xFFFu16
}

/// Counter value after an outcome: one up on taken (at most 3), one down on
/// not taken (at least 0).
pub open spec fn counter_step(c: u8, taken: bool) -> u8 {
    if taken {
        if c >= 3 {
            3
        } else {
            (c + 1) as u8
        }
    } else {
        if c == 0 {
            0
        } else {
            (c - 1) as u8
        }
    }
}

/// A gshare predictor: 4096 two-bit counters indexed by the pc xor a
/// 12-bit global history.
#[derive(Debug)]
pub struct GSharePredictor {
    global_history: u16,
    pattern_table: Vec<u8>,
    history_length: usize,
}

impl GSharePredictor {
    /// The global history.
    pub closed spec fn history(&self) -> u16 {
        self.global_history
    }

    /// The counters.
    pub closed spec fn table(&self) -> Seq<u8> {
        self.pattern_table@
    }

    /// 4096 counters, a 12-bit history.
    pub closed spec fn wf(&self) -> bool {
        &&& self.history_length == 12
        &&& self.pattern_table@.len() == 4096
    }

    /// Every counter weakly not taken (1), an empty history.
    pub fn new() -> (g: Self)
        ensures
            g.wf(),
            g.history() == 0,
            g.table() == Seq::new(4096, |i: int| 1u8),
    {
        let history_length: usize = 12;
        let table_size: usize = 4096;
        let mut pattern_table: Vec<u8> = Vec::with_capacity(table_size);
        let mut i: usize = 0;
        while i < table_size
            invariant
                i <= table_size,
                table_size == 4096,
                pattern_table@ == Seq::new(i as nat, |k: int| 1u8),
            decreases table_size - i,
        {
            pattern_table.push(1);
            i += 1;
        }
        GSharePredictor { global_history: 0, pattern_table, history_length }
    }

    fn compute_index(&self, branch_pc: u64) -> (r: usize)
        requires
            self.wf(),
        ensures
            r == gshare_index(branch_pc, self.history()),
            r < 4096,
    {
        assert((1usize << 12usize) == 4096usize) by (bit_vector);
        let mask: usize = (1usize << self.history_length) - 1;
        let pc_bits = (branch_pc as usize) & mask;
        let history_bits = self.global_history as usize;
        let r = (pc_bits ^ history_bits) & mask;
        assert(((pc_bits ^ history_bits) & 0xFFFusize) < 4096usize) by (bit_vector);
        r
    }

    /// Prediction for the branch at `pc`: taken when its counter is 2 or
    /// more.
    pub open spec fn says(&self, pc: u64) -> bool {
        self.table()[gshare_index(pc, self.history()) as int] >= 2
    }

    /// `b` is `a` after an update of the branch at `pc` with `taken`.
    pub open spec fn updated(a: GSharePredictor, b: GSharePredictor, pc: u64, taken: bool) -> bool {
        &&& b.wf()
        &&& b.table() == a.table().update(
            gshare_index(pc, a.history()) as int,
            counter_step(a.table()[gshare_index(pc, a.history()) as int], taken),
        )
        &&& b.history() == gshare_history(a.history(), taken)
    }

    /// Taken when the counter of the branch is 2 or more.
    pub fn predict_branch(&self, branch_pc: u64) -> (r: bool)
        requires
            self.wf(),
        ensures
            r == (self.table()[gshare_index(branch_pc, self.history()) as int] >= 2),
    {
        let index = self.compute_index(branch_pc);
        let counter = self.pattern_table[index];
        counter >= 2
    }

    /// Moves the branch's counter one step towards the outcome and shifts the
    /// outcome into the history.
    pub fn update_predictor(&mut self, branch_pc: u64, actual_outcome: bool)
        requires
            old(self).wf(),
        ensures
            final(self).wf(),
            final(self).table() == old(self).table().update(
                gshare_index(branch_pc, old(self).history()) as int,
                counter_step(
                    old(self).table()[gshare_index(branch_pc, old(self).history()) as int],
                    actual_outcome,
                ),
            ),
            final(self).history() == gshare_history(old(self).history(), actual_outcome),
            GSharePredictor::updated(*old(self), *final(self), branch_pc, actual_outcome),
    {
        let index = self.compute_index(branch_pc);
        let counter = self.pattern_table[index];
        let next: u8 = if actual_outcome {
            let up = if counter == u8::MAX {
                u8::MAX
            } else {
                counter + 1
            };
            if up < 3 {
                up
            } else {
                3
            }
        } else {
            if counter == 0 {
                0
            } else {
                counter - 1
            }
        };
        self.pattern_table.set(index, next);
        let bit: u16 = if actual_outcome {
            1
        } else {
            0
        };
        let gh = self.global_history;
        assert((1u16 << 12u16) == 4096u16) by (bit_vector);
        let mask: u16 = (1u16 << 12u16) - 1;
        self.global_history = ((gh << 1u16) | bit) & mask;
    }
}

/// A branch target buffer entry.
#[derive(Debug, Clone, Copy)]
pub struct BTBEntry {
    pub tag: u32,
    pub target: u32,
    pub valid: bool,
    /// Confidence in the target.
    pub confidence: u8,
    /// Cycle of the last use.
    pub last_used: u64,
}

/// A direct-mapped table of branch targets, indexed by the pc modulo its
/// size and tagged by the pc's bits above the twelfth.
#[derive(Debug, Clone)]
pub struct BranchTargetBuffer {
    pub entries: Vec<BTBEntry>,
    pub size: usize,
    /// Clock that stamps each use.
    pub current_cycle: u64,
}

/// Slot of `pc` in a buffer of `size` entries.
pub open spec fn btb_index(pc: u64, size: usize) -> int {
    (pc as usize) as int % (size as int)
}

/// Tag of `pc`.
pub open spec fn btb_tag(pc: u64) -> u32 {
    (pc >> 12u64) as u32
}

impl BranchTargetBuffer {
    /// One entry per slot, and at least one slot.
    pub open spec fn wf(&self) -> bool {
        &&& self.size > 0
        &&& self.entries@.len() == self.size
    }

    /// Target held for `pc`, if its slot holds a valid entry with its tag.
    pub open spec fn lookup(&self, pc: u64) -> Option<u32> {
        let e = self.entries@[btb_index(pc, self.size)];
        if e.valid && e.tag == btb_tag(pc) {
            Some(e.target)
        } else {
            None
        }
    }

    /// `size` invalid entries.
    pub fn new(size: usize) -> (b: Self)
        ensures
            b.size == size,
            b.current_cycle == 0,
            b.entries@.len() == size,
            forall|i: int| 0 <= i < size ==> !(#[trigger] b.entries@[i]).valid,
    {
        let mut entries: Vec<BTBEntry> = Vec::with_capacity(size);
        let mut i: usize = 0;
        while i < size
            invariant
                i <= size,
                entries@.len() == i,
                forall|k: int| 0 <= k < i ==> !(#[trigger] entries@[k]).valid,
            decreases size - i,
        {
            entries.push(BTBEntry { tag: 0, target: 0, valid: false, confidence: 0, last_used: 0 });
            i += 1;
        }
        BranchTargetBuffer { entries, size, current_cycle: 0 }
    }

    fn get_index(&self, pc: u64) -> (r: usize)
        requires
            self.wf(),
        ensures
            r == btb_index(pc, self.size),
            r < self.size,
    {
        (pc as usize) % self.size
    }

    fn get_tag(&self, pc: u64) -> (r: u32)
        ensures
            r == btb_tag(pc),
    {
        (pc >> 12) as u32
    }

    /// The target held for `pc`; a hit stamps the entry and ticks the clock.
    pub fn predict(&mut self, pc: u64) -> (r: Option<u32>)
        requires
            old(self).wf(),
            old(self).current_cycle < u64::MAX,
        ensures
            final(self).wf(),
            final(self).size == old(self).size,
            r == old(self).lookup(pc),
            forall|q: u64| #[trigger] final(self).lookup(q) == old(self).lookup(q),
            r is Some ==> final(self).current_cycle == old(self).current_cycle + 1
                && final(self).entries@ == old(self).entries@.update(
                btb_index(pc, old(self).size),
                BTBEntry {
                    last_used: old(self).current_cycle,
                    ..old(self).entries@[btb_index(pc, old(self).size)]
                },
            ),
            r is None ==> *final(self) == *old(self),
    {
        let index = self.get_index(pc);
        let tag = self.get_tag(pc);
        let entry = self.entries[index];
        if entry.valid && entry.tag == tag {
            let mut e = entry;
            e.last_used = self.current_cycle;
            self.entries.set(index, e);
            self.current_cycle = self.current_cycle + 1;
            Some(entry.target)
        } else {
            None
        }
    }

    /// The target and confidence held for `pc`; a hit stamps the entry and
    /// ticks the clock.
    pub fn predict_with_confidence(&mut self, pc: u64) -> (r: Option<(u32, u8)>)
        requires
            old(self).wf(),
            old(self).current_cycle < u64::MAX,
        ensures
            final(self).wf(),
            final(self).size == old(self).size,
            match r {
                Some((t, c)) => old(self).lookup(pc) == Some(t) && c == old(self).entries@[btb_index(
                    pc,
                    old(self).size,
                )].confidence,
                None => old(self).lookup(pc) is None,
            },
            forall|q: u64| #[trigger] final(self).lookup(q) == old(self).lookup(q),
            r is Some ==> final(self).current_cycle == old(self).current_cycle + 1
                && final(self).entries@ == old(self).entries@.update(
                btb_index(pc, old(self).size),
                BTBEntry {
                    last_used: old(self).current_cycle,
                    ..old(self).entries@[btb_index(pc, old(self).size)]
                },
            ),
            r is None ==> *final(self) == *old(self),
    {
        let index = self.get_index(pc);
        let tag = self.get_tag(pc);
        let entry = self.entries[index];
        if entry.valid && entry.tag == tag {
            let mut e = entry;
            e.last_used = self.current_cycle;
            self.entries.set(index, e);
            self.current_cycle = self.current_cycle + 1;
            Some((entry.target, entry.confidence))
        } else {
            None
        }
    }

    /// Records `target` for `pc` with confidence 128, replacing what its
    /// slot held.
    pub fn update(&mut self, pc: u64, target: u32)
        requires
            old(self).wf(),
            old(self).current_cycle < u64::MAX,
        ensures
            final(self).wf(),
            final(self).size == old(self).size,
            final(self).current_cycle == old(self).current_cycle + 1,
            final(self).entries@ == old(self).entries@.update(
                btb_index(pc, old(self).size),
                BTBEntry {
                    tag: btb_tag(pc),
                    target,
                    valid: true,
                    confidence: 128,
                    last_used: old(self).current_cycle,
                },
            ),
            final(self).lookup(pc) == Some(target),
    {
        let index = self.get_index(pc);
        let tag = self.get_tag(pc);
        self.entries.set(
            index,
            BTBEntry { tag, target, valid: true, confidence: 128, last_used: self.current_cycle },
        );
        self.current_cycle = self.current_cycle + 1;
    }

    /// Records the outcome of a target prediction for `pc`: an entry that
    /// already holds `pc` gains one confidence on a correct target and loses
    /// ten on a wrong one (saturating); otherwise the slot takes `target`
    /// with confidence 128 if correct, 64 if not.
    pub fn update_with_confidence(&mut self, pc: u64, target: u32, correct: bool)
        requires
            old(self).wf(),
            old(self).current_cycle < u64::MAX,
        ensures
            final(self).wf(),
            final(self).size == old(self).size,
            final(self).current_cycle == old(self).current_cycle + 1,
            ({
                let i = btb_index(pc, old(self).size);
                let e = old(self).entries@[i];
                final(self).entries@ == old(self).entries@.update(
                    i,
                    if e.valid && e.tag == btb_tag(pc) {
                        BTBEntry {
                            confidence: if correct {
                                if e.confidence == 255 {
                                    255u8
                                } else {
                                    (e.confidence + 1) as u8
                                }
                            } else {
                                if e.confidence < 10 {
                                    0u8
                                } else {
                                    (e.confidence - 10) as u8
                                }
                            },
                            last_used: old(self).current_cycle,
                            ..e
                        }
                    } else {
                        BTBEntry {
                            tag: btb_tag(pc),
                            target,
                            valid: true,
                            confidence: if correct {
                                128u8
                            } else {
                                64u8
                            },
                            last_used: old(self).current_cycle,
                        }
                    },
                )
            }),
    {
        let index = self.get_index(pc);
        let tag = self.get_tag(pc);
        let mut entry = self.entries[index];
        if entry.valid && entry.tag == tag {
            if correct {
                entry.confidence = entry.confidence.saturating_add(1);
            } else {
                entry.confidence = entry.confidence.saturating_sub(10);
            }
            entry.last_used = self.current_cycle;
        } else {
            entry.tag = tag;
            entry.target = target;
            entry.valid = true;
            entry.confidence = if correct {
                128
            } else {
                64
            };
            entry.last_used = self.current_cycle;
        }
        self.entries.set(index, entry);
        self.current_cycle = self.current_cycle + 1;
    }

    /// Invalidates the slot of `pc` if it is tagged as `pc`.
    pub fn invalidate(&mut self, pc: u64)
        requires
            old(self).wf(),
        ensures
            final(self).wf(),
            final(self).size == old(self).size,
            final(self).current_cycle == old(self).current_cycle,
            final(self).lookup(pc) is None,
            ({
                let i = btb_index(pc, old(self).size);
                let e = old(self).entries@[i];
                final(self).entries@ == if e.tag == btb_tag(pc) {
                    old(self).entries@.update(i, BTBEntry { valid: false, ..e })
                } else {
                    old(self).entries@
                }
            }),
    {
        let index = self.get_index(pc);
        let tag = self.get_tag(pc);
        let mut entry = self.entries[index];
        if entry.tag == tag {
            entry.valid = false;
            self.entries.set(index, entry);
        }
    }
}

/// What a call of the buffer that stays away from the slot of `pc` does,
/// taking `a` to `b`: the size and shape are kept, and either one entry of another
/// slot is replaced (as `update`, `update_with_confidence` and `invalidate`
/// of a pc of another slot do) or every lookup is kept (as `predict` does).
pub open spec fn btb_elsewhere(a: BranchTargetBuffer, b: BranchTargetBuffer, pc: u64) -> bool {
    &&& b.size == a.size
    &&& b.wf()
    &&& (exists|j: int, e: BTBEntry|
        0 <= j < a.entries@.len() && j != btb_index(pc, a.size) && #[trigger] a.entries@.update(j, e)
            == b.entries@)
        || (forall|q: u64| #[trigger] b.lookup(q) == a.lookup(q))
}

/// A target stays found across calls elsewhere: once `bs[0]` finds `t`
/// for `pc` (as `update(pc, t)` leaves it), every later state reached by
/// calls that stay away from the slot of `pc` still finds `t`, so `predict`
/// there gives `t`.
pub proof fn lemma_btb_target_survives(bs: Seq<BranchTargetBuffer>, pc: u64, t: u32)
    requires
        bs.len() >= 1,
        bs[0].wf(),
        bs[0].lookup(pc) == Some(t),
        forall|k: int| 0 <= k < bs.len() - 1 ==> #[trigger] btb_elsewhere(bs[k], bs[k + 1], pc),
    ensures
        bs.last().lookup(pc) == Some(t),
    decreases bs.len(),
{
    if bs.len() > 1 {
        let b0 = bs.drop_last();
        assert forall|k: int| 0 <= k < b0.len() - 1 implies #[trigger] btb_elsewhere(b0[k], b0[k + 1], pc) by {
            assert(btb_elsewhere(bs[k], bs[k + 1], pc));
        }
        lemma_btb_target_survives(b0, pc, t);
        let n = bs.len() - 2;
        let a = bs[n];
        let b = bs[n + 1];
        assert(a == b0.last());
        assert(btb_elsewhere(a, b, pc));
        if n > 0 {
            let k = n - 1;
            assert(btb_elsewhere(bs[k], bs[k + 1], pc));
            assert(bs[k + 1] == a);
        }
        assert(a.wf());
        let idx = btb_index(pc, a.size);
        assert(0 <= idx < a.entries@.len());
        if !(forall|q: u64| #[trigger] b.lookup(q) == a.lookup(q)) {
            let (j, e) = choose|j: int, e: BTBEntry|
                0 <= j < a.entries@.len() && j != btb_index(pc, a.size) && #[trigger] a.entries@.update(j, e)
                    == b.entries@;
            assert(b.entries@[idx] == a.entries@.update(j, e)[idx]);
            assert(b.entries@[idx] == a.entries@[idx]);
        } else {
            assert(b.lookup(pc) == a.lookup(pc));
        }
    }
}

/// Local history a branch starts with: every outcome taken.
pub open spec fn fresh_local() -> Seq<isize> {
    Seq::new(LOCAL_HISTORY_LENGTH as nat, |i: int| 1isize)
}

/// Local history of the branch at `pc`, or the fresh one.
pub open spec fn local_of(locals: Map<u64, Seq<isize>>, pc: u64) -> Seq<isize> {
    if locals.contains_key(pc) {
        locals[pc]
    } else {
        fresh_local()
    }
}

/// Perceptron of the branch at `pc`.
pub open spec fn perceptron_index(pc: u64) -> int {
    (pc as usize) as int % (NUM_PERCEPTRONS as int)
}

/// A history after an outcome: the oldest input drops out, the outcome
/// comes in last.
pub open spec fn shifted(h: Seq<isize>, a: isize) -> Seq<isize> {
    h.drop_first().push(a)
}

/// Input of an outcome: 1 for taken, -1 for not taken.
pub open spec fn outcome_input(taken: bool) -> isize {
    if taken {
        1isize
    } else {
        -1isize
    }
}

/// A perceptron predictor: a table of perceptrons indexed by pc, fed the
/// global history followed by the branch's local history.
#[derive(Debug)]
pub struct PerceptronPredictor {
    pub perceptrons: Vec<Perceptron>,
    /// Global history, oldest first.
    pub global_history: Vec<isize>,
    /// Local history of each branch seen, oldest first.
    pub local_histories: HashMap<u64, Vec<isize>>,
}

impl PerceptronPredictor {
    /// Weights of each perceptron.
    pub open spec fn weights(&self) -> Seq<Seq<isize>> {
        self.perceptrons@.map_values(|p: Perceptron| p.weight@)
    }

    /// Local history of each branch seen.
    pub open spec fn locals(&self) -> Map<u64, Seq<isize>> {
        self.local_histories@.map_values(|v: Vec<isize>| v@)
    }

    /// Inputs for the branch at `pc`.
    pub open spec fn inputs(&self, pc: u64) -> Seq<isize> {
        self.global_history@ + local_of(self.locals(), pc)
    }

    /// Sum the branch's perceptron computes.
    pub open spec fn sum_for(&self, pc: u64) -> int {
        partial_sum(
            self.weights()[perceptron_index(pc)],
            self.inputs(pc),
            TOTAL_HISTORY_LENGTH as nat,
        )
    }

    /// `b` is `a` after training on the branch at `pc` with `taken`.
    pub open spec fn trained_from(a: PerceptronPredictor, b: PerceptronPredictor, pc: u64, taken: bool) -> bool {
        &&& b.wf()
        &&& b.weights() == a.weights().update(
            perceptron_index(pc),
            trained(
                a.weights()[perceptron_index(pc)],
                a.inputs(pc),
                outcome_input(taken),
                a.sum_for(pc) as isize,
            ),
        )
        &&& b.global_history@ == shifted(a.global_history@, outcome_input(taken))
        &&& b.locals() == a.locals().insert(
            pc,
            shifted(local_of(a.locals(), pc), outcome_input(taken)),
        )
    }

    /// Table and history sizes, and weights in range.
    pub open spec fn wf(&self) -> bool {
        &&& self.perceptrons@.len() == NUM_PERCEPTRONS
        &&& forall|i: int|
            0 <= i < self.perceptrons@.len() ==> {
                &&& (#[trigger] self.weights()[i]).len() == TOTAL_HISTORY_LENGTH + 1
                &&& weights_in_range(self.weights()[i])
            }
        &&& self.global_history@.len() == GLOBAL_HISTORY_LENGTH
        &&& forall|k: u64| #[trigger] self.locals().contains_key(k) ==> self.locals()[k].len()
            == LOCAL_HISTORY_LENGTH
    }

    /// All weights zero, a global history of taken outcomes, no local
    /// history.
    pub fn new() -> (p: Self)
        ensures
            p.wf(),
            p.weights() == Seq::new(
                NUM_PERCEPTRONS as nat,
                |i: int| Seq::new((TOTAL_HISTORY_LENGTH + 1) as nat, |j: int| 0isize),
            ),
            p.global_history@ == Seq::new(GLOBAL_HISTORY_LENGTH as nat, |i: int| 1isize),
            p.locals() == Map::<u64, Seq<isize>>::empty(),
    {
        let mut perceptrons: Vec<Perceptron> = Vec::with_capacity(NUM_PERCEPTRONS);
        let mut i: usize = 0;
        while i < NUM_PERCEPTRONS
            invariant
                i <= NUM_PERCEPTRONS,
                perceptrons@.len() == i,
                forall|k: int|
                    0 <= k < i ==> (#[trigger] perceptrons@[k]).weight@ == Seq::new(
                        (TOTAL_HISTORY_LENGTH + 1) as nat,
                        |j: int| 0isize,
                    ),
            decreases NUM_PERCEPTRONS - i,
        {
            perceptrons.push(Perceptron::new(TOTAL_HISTORY_LENGTH));
            i += 1;
        }
        let mut global_history: Vec<isize> = Vec::with_capacity(GLOBAL_HISTORY_LENGTH);
        let mut g: usize = 0;
        while g < GLOBAL_HISTORY_LENGTH
            invariant
                g <= GLOBAL_HISTORY_LENGTH,
                global_history@ == Seq::new(g as nat, |j: int| 1isize),
            decreases GLOBAL_HISTORY_LENGTH - g,
        {
            global_history.push(1);
            g += 1;
        }
        let p = PerceptronPredictor { perceptrons, global_history, local_histories: HashMap::new() };
        proof {
            assert(p.locals() =~= Map::<u64, Seq<isize>>::empty());
            assert(p.weights() =~= Seq::new(
                NUM_PERCEPTRONS as nat,
                |i: int| Seq::new((TOTAL_HISTORY_LENGTH + 1) as nat, |j: int| 0isize),
            ));
        }
        p
    }

    fn get_perceptron_index(&self, branch_pc: u64) -> (r: usize)
        ensures
            r == perceptron_index(branch_pc),
            r < NUM_PERCEPTRONS,
    {
        (branch_pc as usize) % NUM_PERCEPTRONS
    }

    /// The fresh local history.
    fn fresh_history() -> (r: Vec<isize>)
        ensures
            r@ == fresh_local(),
    {
        let mut v: Vec<isize> = Vec::with_capacity(LOCAL_HISTORY_LENGTH);
        let mut i: usize = 0;
        while i < LOCAL_HISTORY_LENGTH
            invariant
                i <= LOCAL_HISTORY_LENGTH,
                v@ == Seq::new(i as nat, |j: int| 1isize),
            decreases LOCAL_HISTORY_LENGTH - i,
        {
            v.push(1);
            i += 1;
        }
        v
    }

    /// The global history followed by the branch's local history, which is
    /// created (every outcome taken) when the branch is new.
    fn get_combined_history(&mut self, branch_pc: u64) -> (r: Vec<isize>)
        requires
            old(self).wf(),
        ensures
            final(self).wf(),
            r@ == old(self).inputs(branch_pc),
            final(self).weights() == old(self).weights(),
            final(self).global_history@ == old(self).global_history@,
            final(self).locals() == old(self).locals().insert(
                branch_pc,
                local_of(old(self).locals(), branch_pc),
            ),
    {
        let mut combined: Vec<isize> = Vec::with_capacity(TOTAL_HISTORY_LENGTH);
        let mut i: usize = 0;
        while i < self.global_history.len()
            invariant
                i <= self.global_history@.len(),
                combined@ == self.global_history@.take(i as int),
            decreases self.global_history@.len() - i,
        {
            combined.push(self.global_history[i]);
            i += 1;
            proof {
                assert(combined@ =~= self.global_history@.take(i as int));
            }
        }
        proof {
            assert(self.global_history@.take(self.global_history@.len() as int) =~= self.global_history@);
        }
        let ghost g = combined@;
        let ghost before = self.local_histories@;
        let local = match self.local_histories.remove(&branch_pc) {
            Some(v) => v,
            None => Self::fresh_history(),
        };
        proof {
            if before.contains_key(branch_pc) {
                assert(old(self).locals().contains_key(branch_pc));
                assert(old(self).locals()[branch_pc] == before[branch_pc]@);
            }
            assert(local@ == local_of(old(self).locals(), branch_pc));
        }
        let mut j: usize = 0;
        while j < local.len()
            invariant
                j <= local@.len(),
                combined@ == g + local@.take(j as int),
            decreases local@.len() - j,
        {
            combined.push(local[j]);
            j += 1;
            proof {
                assert(combined@ =~= g + local@.take(j as int));
            }
        }
        proof {
            assert(local@.take(local@.len() as int) =~= local@);
        }
        self.local_histories.insert(branch_pc, local);
        proof {
            assert(self.locals() =~= old(self).locals().insert(
                branch_pc,
                local_of(old(self).locals(), branch_pc),
            ));
            assert forall|k: u64| #[trigger] self.locals().contains_key(k) implies self.locals()[k].len()
                == LOCAL_HISTORY_LENGTH by {
                if k != branch_pc {
                    assert(old(self).locals().contains_key(k));
                }
            }
            assert(self.perceptrons@ == old(self).perceptrons@);
            assert(self.weights() == old(self).weights());
            assert forall|i: int| 0 <= i < self.perceptrons@.len() implies {
                &&& (#[trigger] self.weights()[i]).len() == TOTAL_HISTORY_LENGTH + 1
                &&& weights_in_range(self.weights()[i])
            } by {
                assert(old(self).weights()[i] == self.weights()[i]);
            }
        }
        combined
    }

    /// Every partial sum of a perceptron of the table fits in an `isize`.
    proof fn lemma_sums_fit(&self, idx: int, h: Seq<isize>)
        requires
            self.wf(),
            0 <= idx < NUM_PERCEPTRONS,
            h.len() == TOTAL_HISTORY_LENGTH,
        ensures
            crate::pvm::branch_perceptor::sums_fit(self.weights()[idx], h),
            -128 * 25 <= partial_sum(self.weights()[idx], h, TOTAL_HISTORY_LENGTH as nat) <= 128 * 25,
    {
        let w = self.weights()[idx];
        assert forall|k: nat| k <= h.len() implies isize::MIN <= #[trigger] partial_sum(w, h, k)
            <= isize::MAX by {
            lemma_sum_bound(w, h, k);
        }
        lemma_sum_bound(w, h, TOTAL_HISTORY_LENGTH as nat);
    }

    /// Taken when the branch's perceptron sums its inputs above zero; the
    /// branch gets a local history if it had none.
    pub fn predict_branch(&mut self, branch_pc: u64) -> (r: bool)
        requires
            old(self).wf(),
        ensures
            final(self).wf(),
            r == (old(self).sum_for(branch_pc) > 0),
            final(self).weights() == old(self).weights(),
            final(self).global_history@ == old(self).global_history@,
            final(self).locals() == old(self).locals().insert(
                branch_pc,
                local_of(old(self).locals(), branch_pc),
            ),
    {
        let perceptron_idx = self.get_perceptron_index(branch_pc);
        let combined_history = self.get_combined_history(branch_pc);
        proof {
            self.lemma_sums_fit(perceptron_idx as int, combined_history@);
            assert(self.weights()[perceptron_idx as int] == self.perceptrons@[perceptron_idx as int].weight@);
        }
        let sum = self.perceptrons[perceptron_idx].predict_sum(combined_history.as_slice());
        sum > 0
    }

    /// Trains the branch's perceptron on its inputs and the outcome, then
    /// shifts the outcome (1 taken, -1 not) into the global history and
    /// into the branch's local history.
    pub fn update_predictor(&mut self, branch_pc: u64, actual_outcome: bool)
        requires
            old(self).wf(),
        ensures
            final(self).wf(),
            final(self).weights() == old(self).weights().update(
                perceptron_index(branch_pc),
                trained(
                    old(self).weights()[perceptron_index(branch_pc)],
                    old(self).inputs(branch_pc),
                    outcome_input(actual_outcome),
                    old(self).sum_for(branch_pc) as isize,
                ),
            ),
            final(self).global_history@ == shifted(
                old(self).global_history@,
                outcome_input(actual_outcome),
            ),
            final(self).locals() == old(self).locals().insert(
                branch_pc,
                shifted(local_of(old(self).locals(), branch_pc), outcome_input(actual_outcome)),
            ),
            PerceptronPredictor::trained_from(*old(self), *final(self), branch_pc, actual_outcome),
    {
        let perceptron_idx = self.get_perceptron_index(branch_pc);
        let actual_val: isize = if actual_outcome {
            1
        } else {
            -1
        };
        let combined_history = self.get_combined_history(branch_pc);
        let ghost mid = *self;
        proof {
            self.lemma_sums_fit(perceptron_idx as int, combined_history@);
            assert(self.weights()[perceptron_idx as int] == self.perceptrons@[perceptron_idx as int].weight@);
        }
        let predicted_sum = self.perceptrons[perceptron_idx].predict_sum(combined_history.as_slice());
        let mut p = self.perceptrons[perceptron_idx].clone();
        proof {
            let w = p.weight@;
            assert(weights_in_range(w));
            assert(w[0] >= -128 && w[0] <= 127);
            assert forall|i: int| 0 <= i < combined_history@.len() implies isize::MIN <= w[i + 1]
                + crate::pvm::branch_perceptor::step(actual_val, #[trigger] combined_history@[i])
                <= isize::MAX by {
                assert(-128 <= w[i + 1] <= 127);
            }
        }
        p.train(combined_history.as_slice(), actual_val, predicted_sum);
        self.perceptrons.set(perceptron_idx, p);
        proof {
            assert(self.weights() =~= mid.weights().update(
                perceptron_idx as int,
                trained(mid.weights()[perceptron_idx as int], combined_history@, actual_val, predicted_sum),
            ));
        }
        self.global_history.remove(0);
        self.global_history.push(actual_val);
        let ghost before = self.local_histories@;
        let mut local = match self.local_histories.remove(&branch_pc) {
            Some(v) => v,
            None => Self::fresh_history(),
        };
        proof {
            assert(mid.locals().contains_key(branch_pc));
            assert(mid.locals()[branch_pc] == before[branch_pc]@);
            assert(local@ == local_of(old(self).locals(), branch_pc));
            assert(local@.len() == LOCAL_HISTORY_LENGTH);
        }
        local.remove(0);
        local.push(actual_val);
        self.local_histories.insert(branch_pc, local);
        proof {
            assert(self.global_history@ =~= shifted(old(self).global_history@, actual_val));
            assert(self.locals() =~= old(self).locals().insert(
                branch_pc,
                shifted(local_of(old(self).locals(), branch_pc), actual_val),
            ));
            assert forall|k: u64| #[trigger] self.locals().contains_key(k) implies self.locals()[k].len()
                == LOCAL_HISTORY_LENGTH by {
                if k != branch_pc {
                    assert(old(self).locals().contains_key(k));
                }
            }
        }
    }

    /// All weights back to zero, the global history back to taken outcomes,
    /// no local history.
    pub fn reset(&mut self)
        requires
            old(self).wf(),
        ensures
            final(self).wf(),
            final(self).weights() == Seq::new(
                NUM_PERCEPTRONS as nat,
                |i: int| Seq::new((TOTAL_HISTORY_LENGTH + 1) as nat, |j: int| 0isize),
            ),
            final(self).global_history@ == Seq::new(GLOBAL_HISTORY_LENGTH as nat, |i: int| 1isize),
            final(self).locals() == Map::<u64, Seq<isize>>::empty(),
    {
        let n = self.perceptrons.len();
        let mut i: usize = 0;
        while i < n
            invariant
                i <= n,
                n == self.perceptrons@.len(),
                n == NUM_PERCEPTRONS,
                self.global_history@ == old(self).global_history@,
                old(self).wf(),
                forall|k: int|
                    0 <= k < i ==> (#[trigger] self.perceptrons@[k]).weight@ == Seq::new(
                        (TOTAL_HISTORY_LENGTH + 1) as nat,
                        |j: int| 0isize,
                    ),
            decreases n - i,
        {
            self.perceptrons.set(i, Perceptron::new(TOTAL_HISTORY_LENGTH));
            i += 1;
        }
        let ghost ps = self.perceptrons@;
        let g = self.global_history.len();
        let mut k: usize = 0;
        while k < g
            invariant
                k <= g,
                g == self.global_history@.len(),
                g == GLOBAL_HISTORY_LENGTH,
                self.perceptrons@ == ps,
                forall|j: int| 0 <= j < k ==> #[trigger] self.global_history@[j] == 1isize,
            decreases g - k,
        {
            self.global_history.set(k, 1);
            k += 1;
        }
        self.local_histories.clear();
        proof {
            assert(self.locals() =~= Map::<u64, Seq<isize>>::empty());
            assert(self.global_history@ =~= Seq::new(GLOBAL_HISTORY_LENGTH as nat, |i: int| 1isize));
            assert(self.weights() =~= Seq::new(
                NUM_PERCEPTRONS as nat,
                |i: int| Seq::new((TOTAL_HISTORY_LENGTH + 1) as nat, |j: int| 0isize),
            ));
        }
    }
}

/// A gshare predictor that answers at once, overridden by a perceptron
/// predictor whose answer comes later; both learn from every outcome.
#[derive(Debug)]
pub struct OverridingPredictor {
    /// The fast predictor.
    pub gshare_predictor: GSharePredictor,
    /// The slow predictor.
    pub perceptron_predictor: PerceptronPredictor,
    /// Perceptron answers computed at prediction time, by branch pc.
    pub perceptron_predictions_cache: HashMap<u64, bool>,
    pub misprediction_penalty_full: u64,
    pub misprediction_penalty_override: u64,
    pub perceptron_correct: u64,
    pub perceptron_incorrect: u64,
    pub gshare_correct: u64,
    pub gshare_incorrect: u64,
    pub override_count: u64,
    pub agreement_correct: u64,
    pub agreement_incorrect: u64,
}

/// `n + 1` if `c`, else `n`.
pub open spec fn bump(n: u64, c: bool) -> int {
    if c {
        n + 1
    } else {
        n as int
    }
}

impl OverridingPredictor {
    /// Both predictors keep their invariants.
    pub open spec fn wf(&self) -> bool {
        &&& self.gshare_predictor.wf()
        &&& self.perceptron_predictor.wf()
    }

    /// Every counter can take one more.
    pub open spec fn counters_below_max(&self) -> bool {
        &&& self.misprediction_penalty_full < u64::MAX
        &&& self.misprediction_penalty_override < u64::MAX
        &&& self.perceptron_correct < u64::MAX
        &&& self.perceptron_incorrect < u64::MAX
        &&& self.gshare_correct < u64::MAX
        &&& self.gshare_incorrect < u64::MAX
        &&& self.override_count < u64::MAX
        &&& self.agreement_correct < u64::MAX
        &&& self.agreement_incorrect < u64::MAX
    }

    /// Answer the perceptron gives for `pc` at update time: the cached one,
    /// else a fresh one.
    pub open spec fn perceptron_answer(&self, pc: u64) -> bool {
        if self.perceptron_predictions_cache@.contains_key(pc) {
            self.perceptron_predictions_cache@[pc]
        } else {
            self.perceptron_predictor.sum_for(pc) > 0
        }
    }

    /// `b` is `a` after the initial prediction for `pc`: the perceptron's
    /// answer cached, the branch given a local history, nothing else
    /// changed.
    pub open spec fn primed(a: OverridingPredictor, b: OverridingPredictor, pc: u64) -> bool {
        &&& b.wf()
        &&& b.gshare_predictor == a.gshare_predictor
        &&& b.perceptron_predictor.weights() == a.perceptron_predictor.weights()
        &&& b.perceptron_predictor.global_history@ == a.perceptron_predictor.global_history@
        &&& b.perceptron_predictor.locals() == a.perceptron_predictor.locals().insert(
            pc,
            local_of(a.perceptron_predictor.locals(), pc),
        )
        &&& b.perceptron_predictions_cache@ == a.perceptron_predictions_cache@.insert(
            pc,
            a.perceptron_predictor.sum_for(pc) > 0,
        )
        &&& b.misprediction_penalty_full == a.misprediction_penalty_full
        &&& b.misprediction_penalty_override == a.misprediction_penalty_override
        &&& b.perceptron_correct == a.perceptron_correct
        &&& b.perceptron_incorrect == a.perceptron_incorrect
        &&& b.gshare_correct == a.gshare_correct
        &&& b.gshare_incorrect == a.gshare_incorrect
        &&& b.override_count == a.override_count
        &&& b.agreement_correct == a.agreement_correct
        &&& b.agreement_incorrect == a.agreement_incorrect
    }

    /// `b` is `a` after learning outcome `o` of the branch at `pc`, with
    /// flush answer `r`.
    pub open spec fn learned(a: OverridingPredictor, b: OverridingPredictor, pc: u64, o: bool, r: bool) -> bool {
        &&& r == (a.perceptron_answer(pc) != o)
        &&& OverridingPredictor::learned_state(a, b, pc, o)
    }

    /// `b` is `a` after learning outcome `o` of the branch at `pc`.
    pub open spec fn learned_state(a: OverridingPredictor, b: OverridingPredictor, pc: u64, o: bool) -> bool {
        let g = a.gshare_predictor.says(pc);
        let p = a.perceptron_answer(pc);
        &&& b.wf()
        &&& GSharePredictor::updated(a.gshare_predictor, b.gshare_predictor, pc, o)
        &&& PerceptronPredictor::trained_from(a.perceptron_predictor, b.perceptron_predictor, pc, o)
        &&& b.perceptron_predictions_cache@ == a.perceptron_predictions_cache@.remove(pc)
        &&& b.gshare_correct == bump(a.gshare_correct, g == o)
        &&& b.gshare_incorrect == bump(a.gshare_incorrect, g != o)
        &&& b.perceptron_correct == bump(a.perceptron_correct, p == o)
        &&& b.perceptron_incorrect == bump(a.perceptron_incorrect, p != o)
        &&& b.agreement_correct == bump(a.agreement_correct, g == o && p == o)
        &&& b.agreement_incorrect == bump(a.agreement_incorrect, g != o && p != o && g == p)
        &&& b.override_count == bump(a.override_count, g != o && (p == o || g != p))
        &&& b.misprediction_penalty_override == bump(
            a.misprediction_penalty_override,
            g != o && (p == o || g != p),
        )
        &&& b.misprediction_penalty_full == bump(a.misprediction_penalty_full, p != o)
    }

    /// Both predictors fresh, nothing cached, all counters zero.
    pub fn new() -> (o: Self)
        ensures
            o.wf(),
            o.perceptron_predictions_cache@ == Map::<u64, bool>::empty(),
            o.misprediction_penalty_full == 0,
            o.misprediction_penalty_override == 0,
            o.perceptron_correct == 0,
            o.perceptron_incorrect == 0,
            o.gshare_correct == 0,
            o.gshare_incorrect == 0,
            o.override_count == 0,
            o.agreement_correct == 0,
            o.agreement_incorrect == 0,
            o.gshare_predictor.history() == 0,
            o.gshare_predictor.table() == Seq::new(4096, |i: int| 1u8),
            o.perceptron_predictor.weights() == Seq::new(
                NUM_PERCEPTRONS as nat,
                |i: int| Seq::new((TOTAL_HISTORY_LENGTH + 1) as nat, |j: int| 0isize),
            ),
            o.perceptron_predictor.global_history@ == Seq::new(GLOBAL_HISTORY_LENGTH as nat, |i: int| 1isize),
            o.perceptron_predictor.locals() == Map::<u64, Seq<isize>>::empty(),
    {
        OverridingPredictor {
            gshare_predictor: GSharePredictor::new(),
            perceptron_predictor: PerceptronPredictor::new(),
            perceptron_predictions_cache: HashMap::new(),
            misprediction_penalty_full: 0,
            misprediction_penalty_override: 0,
            perceptron_correct: 0,
            perceptron_incorrect: 0,
            gshare_correct: 0,
            gshare_incorrect: 0,
            override_count: 0,
            agreement_correct: 0,
            agreement_incorrect: 0,
        }
    }

    /// The gshare prediction, given at once; the perceptron's prediction is
    /// computed and cached for the update.
    pub fn get_initial_prediction(&mut self, branch_pc: u64) -> (r: bool)
        requires
            old(self).wf(),
        ensures
            final(self).wf(),
            r == old(self).gshare_predictor.says(branch_pc),
            final(self).gshare_predictor == old(self).gshare_predictor,
            final(self).perceptron_predictor.weights() == old(self).perceptron_predictor.weights(),
            final(self).perceptron_predictor.global_history@
                == old(self).perceptron_predictor.global_history@,
            final(self).perceptron_predictor.locals() == old(self).perceptron_predictor.locals().insert(
                branch_pc,
                local_of(old(self).perceptron_predictor.locals(), branch_pc),
            ),
            final(self).perceptron_predictions_cache@ == old(self).perceptron_predictions_cache@.insert(
                branch_pc,
                old(self).perceptron_predictor.sum_for(branch_pc) > 0,
            ),
            final(self).override_count == old(self).override_count,
            final(self).gshare_correct == old(self).gshare_correct,
            final(self).perceptron_correct == old(self).perceptron_correct,
            OverridingPredictor::primed(*old(self), *final(self), branch_pc),
    {
        let gshare_pred = self.gshare_predictor.predict_branch(branch_pc);
        let perceptron_pred = self.perceptron_predictor.predict_branch(branch_pc);
        self.perceptron_predictions_cache.insert(branch_pc, perceptron_pred);
        gshare_pred
    }

    /// The cached perceptron prediction for `branch_pc`, if any.
    pub fn get_perceptron_prediction(&mut self, branch_pc: u64) -> (r: Option<bool>)
        ensures
            r == if old(self).perceptron_predictions_cache@.contains_key(branch_pc) {
                Some(old(self).perceptron_predictions_cache@[branch_pc])
            } else {
                None::<bool>
            },
            *final(self) == *old(self),
    {
        match self.perceptron_predictions_cache.get(&branch_pc) {
            Some(b) => Some(*b),
            None => None,
        }
    }

    /// Learns the outcome of the branch at `branch_pc`: counts how each
    /// predictor did, trains both, and says whether a full flush is needed,
    /// which is whenever the perceptron, whose answer overrides gshare's, was
    /// wrong. A right perceptron overriding a wrong gshare counts an override
    /// and costs only the override penalty; two wrong
    /// answers count a full misprediction and a wrong agreement; a right
    /// gshare with a wrong perceptron counts a full misprediction.
    pub fn update_and_get_flush_status(&mut self, branch_pc: u64, actual_outcome: bool) -> (r: bool)
        requires
            old(self).wf(),
            old(self).counters_below_max(),
        ensures
            final(self).wf(),
            ({
                let g = old(self).gshare_predictor.says(branch_pc);
                let p = old(self).perceptron_answer(branch_pc);
                let o = actual_outcome;
                &&& r == (p != o)
                &&& GSharePredictor::updated(
                    old(self).gshare_predictor,
                    final(self).gshare_predictor,
                    branch_pc,
                    o,
                )
                &&& PerceptronPredictor::trained_from(
                    old(self).perceptron_predictor,
                    final(self).perceptron_predictor,
                    branch_pc,
                    o,
                )
                &&& final(self).perceptron_predictions_cache@
                    == old(self).perceptron_predictions_cache@.remove(branch_pc)
                &&& final(self).gshare_correct == bump(old(self).gshare_correct, g == o)
                &&& final(self).gshare_incorrect == bump(old(self).gshare_incorrect, g != o)
                &&& final(self).perceptron_correct == bump(old(self).perceptron_correct, p == o)
                &&& final(self).perceptron_incorrect == bump(old(self).perceptron_incorrect, p != o)
                &&& final(self).agreement_correct == bump(
                    old(self).agreement_correct,
                    g == o && p == o,
                )
                &&& final(self).agreement_incorrect == bump(
                    old(self).agreement_incorrect,
                    g != o && p != o && g == p,
                )
                &&& final(self).override_count == bump(
                    old(self).override_count,
                    g != o && (p == o || g != p),
                )
                &&& final(self).misprediction_penalty_override == bump(
                    old(self).misprediction_penalty_override,
                    g != o && (p == o || g != p),
                )
                &&& final(self).misprediction_penalty_full == bump(
                    old(self).misprediction_penalty_full,
                    p != o,
                )
            }),
            OverridingPredictor::learned(*old(self), *final(self), branch_pc, actual_outcome, r),
    {
        let gshare_predicted = self.gshare_predictor.predict_branch(branch_pc);
        let ghost before = self.perceptron_predictor;
        let perceptron_predicted = match self.perceptron_predictions_cache.remove(&branch_pc) {
            Some(b) => b,
            None => self.perceptron_predictor.predict_branch(branch_pc),
        };
        let ghost mid = self.perceptron_predictor;
        if gshare_predicted == actual_outcome {
            self.gshare_correct = self.gshare_correct + 1;
        } else {
            self.gshare_incorrect = self.gshare_incorrect + 1;
        }
        if perceptron_predicted == actual_outcome {
            self.perceptron_correct = self.perceptron_correct + 1;
        } else {
            self.perceptron_incorrect = self.perceptron_incorrect + 1;
        }
        self.gshare_predictor.update_predictor(branch_pc, actual_outcome);
        self.perceptron_predictor.update_predictor(branch_pc, actual_outcome);
        proof {
            assert(mid.inputs(branch_pc) =~= before.inputs(branch_pc));
            assert(mid.locals().insert(
                branch_pc,
                shifted(local_of(mid.locals(), branch_pc), outcome_input(actual_outcome)),
            ) =~= before.locals().insert(
                branch_pc,
                shifted(local_of(before.locals(), branch_pc), outcome_input(actual_outcome)),
            ));
        }
        let mut needs_full_flush = false;
        if gshare_predicted == actual_outcome && perceptron_predicted == actual_outcome {
            self.agreement_correct = self.agreement_correct + 1;
        } else if gshare_predicted != actual_outcome && perceptron_predicted == actual_outcome {
            self.misprediction_penalty_override = self.misprediction_penalty_override + 1;
            self.override_count = self.override_count + 1;
        } else if gshare_predicted != actual_outcome && perceptron_predicted != actual_outcome {
            if gshare_predicted != perceptron_predicted {
                self.misprediction_penalty_override = self.misprediction_penalty_override + 1;
                self.override_count = self.override_count + 1;
            } else {
                self.agreement_incorrect = self.agreement_incorrect + 1;
            }
            self.misprediction_penalty_full = self.misprediction_penalty_full + 1;
            needs_full_flush = true;
        } else {
            self.misprediction_penalty_full = self.misprediction_penalty_full + 1;
            needs_full_flush = true;
        }
        needs_full_flush
    }
}

/// Low `bits` bits, as a 16-bit mask.
pub open spec fn mask16(bits: usize) -> u16 {
    ((1u16 << (bits as u16)) - 1u16) as u16
}

/// Low `bits` bits, as a word-sized mask.
pub open spec fn mask_usize(bits: usize) -> usize {
    ((1usize << bits) - 1usize) as usize
}

/// `h` after an outcome: shifted left, the outcome in the low bit, kept to
/// the bits of `mask`.
pub open spec fn push_outcome(h: u16, taken: bool, mask: u16) -> u16 {
    ((h << 1u16) | (if taken {
        1u16
    } else {
        0u16
    })) & mask
}

/// History and pattern table of the branch at `pc`, or those a new branch
/// starts with: an empty history and `2^bits` weakly-taken counters.
pub open spec fn local_entry_of(locals: Map<u64, (u16, Seq<TwoBitState>)>, pc: u64, bits: usize) -> (
    u16,
    Seq<TwoBitState>,
) {
    if locals.contains_key(pc) {
        locals[pc]
    } else {
        (0u16, Seq::new((1usize << bits) as nat, |i: int| TwoBitState::WeaklyTaken))
    }
}

/// A local history and pattern table after an outcome: the counter the
/// history selects (if the table has it) moves towards the outcome, and the
/// outcome is shifted into the history.
pub open spec fn local_after(e: (u16, Seq<TwoBitState>), taken: bool, bits: usize) -> (
    u16,
    Seq<TwoBitState>,
) {
    let i = ((e.0 as usize) & mask_usize(bits)) as int;
    (
        push_outcome(e.0, taken, mask16(bits)),
        if i < e.1.len() {
            e.1.update(i, state_step(e.1[i], taken))
        } else {
            e.1
        },
    )
}

/// Local history of one branch, with its own pattern table.
#[derive(Debug, Clone)]
struct LocalHistoryEntry {
    history: u16,
    pattern_table: Vec<TwoBitCounter>,
    last_used: u64,
}

/// States of a table of counters.
pub open spec fn states(t: Seq<TwoBitCounter>) -> Seq<TwoBitState> {
    t.map_values(|c: TwoBitCounter| c@)
}

/// A hybrid predictor: a local predictor (a history and a pattern table
/// per branch) and a gshare predictor, with a table of counters that
/// chooses between them per branch.
#[derive(Debug)]
pub struct HybridPredictor {
    local_history: HashMap<u64, LocalHistoryEntry>,
    global_history: u16,
    gshare_table: Vec<TwoBitCounter>,
    selector: Vec<TwoBitCounter>,
    local_history_bits: usize,
    global_history_bits: usize,
    gshare_table_size: usize,
    return_address_stack: ReturnAddressStack,
    btb: BranchTargetBuffer,
}

/// Prediction of the local predictor for history `h` and pattern table
/// `t`: the counter the low bits of the history select, taken when there is
/// none.
pub open spec fn local_prediction(h: u16, t: Seq<TwoBitState>, bits: usize) -> BranchPrediction {
    let i = ((h as usize) & mask_usize(bits)) as int;
    if i < t.len() {
        state_prediction(t[i])
    } else {
        BranchPrediction::Taken
    }
}

/// Slot of the selector for `pc`: its low 10 bits.
pub open spec fn selector_index(pc: u64) -> int {
    (pc & 0x3FFu64) as int
}

impl HybridPredictor {
    /// History and pattern-table states of each branch seen.
    pub closed spec fn locals(&self) -> Map<u64, (u16, Seq<TwoBitState>)> {
        self.local_history@.map_values(|e: LocalHistoryEntry| (e.history, states(e.pattern_table@)))
    }

    /// The global history.
    pub closed spec fn history(&self) -> u16 {
        self.global_history
    }

    /// States of the gshare table.
    pub closed spec fn gshare(&self) -> Seq<TwoBitState> {
        states(self.gshare_table@)
    }

    /// States of the selector.
    pub closed spec fn choices(&self) -> Seq<TwoBitState> {
        states(self.selector@)
    }

    /// Bits of the local histories.
    pub closed spec fn local_bits(&self) -> usize {
        self.local_history_bits
    }

    /// Bits of the global history.
    pub closed spec fn global_bits(&self) -> usize {
        self.global_history_bits
    }

    /// Histories shorter than 16 bits, a non-empty gshare table of its
    /// stated size, and 1024 selector counters.
    pub closed spec fn wf(&self) -> bool {
        &&& self.local_history_bits < 16
        &&& self.global_history_bits < 16
        &&& self.gshare_table_size > 0
        &&& self.gshare_table@.len() == self.gshare_table_size
        &&& self.selector@.len() == 1024
    }

    /// Index of the gshare table for `pc`: the low global-history bits of
    /// the pc xor the history, masked by the table size less one.
    pub closed spec fn gshare_slot(&self, pc: u64) -> int {
        ((((pc as usize) & mask_usize(self.global_history_bits)) ^ (self.global_history as usize))
            & ((self.gshare_table_size - 1) as usize)) as int
    }

    /// What well-formedness means over the public views: histories shorter
    /// than 16 bits, a non-empty gshare table and 1024 selector counters.
    pub proof fn lemma_shape(&self)
        requires
            self.wf(),
        ensures
            self.local_bits() < 16,
            self.global_bits() < 16,
            self.gshare().len() > 0,
            self.choices().len() == 1024,
    {
    }

    /// The gshare slot of `pc`, over the predictor's public views: the low
    /// global-history bits of the pc xor the history, masked by the table
    /// size less one.
    pub proof fn lemma_gshare_slot(&self, pc: u64)
        requires
            self.wf(),
        ensures
            self.gshare().len() > 0,
            self.gshare_slot(pc) == ((((pc as usize) & mask_usize(self.global_bits())) ^ (
            self.history() as usize)) & ((self.gshare().len() - 1) as usize)) as int,
    {
    }

    /// Prediction of the local predictor for `pc`: taken for a new branch.
    pub open spec fn spec_predict_local(&self, pc: u64) -> BranchPrediction {
        if self.locals().contains_key(pc) {
            local_prediction(self.locals()[pc].0, self.locals()[pc].1, self.local_bits())
        } else {
            BranchPrediction::Taken
        }
    }

    /// Prediction of the gshare predictor for `pc`.
    pub open spec fn spec_predict_gshare(&self, pc: u64) -> BranchPrediction {
        state_prediction(self.gshare()[self.gshare_slot(pc)])
    }

    /// Prediction for `pc`: the local one when the branch's selector
    /// counter predicts not taken, the gshare one otherwise.
    pub open spec fn spec_predict(&self, pc: u64) -> BranchPrediction {
        if state_prediction(self.choices()[selector_index(pc)]) == BranchPrediction::NotTaken {
            self.spec_predict_local(pc)
        } else {
            self.spec_predict_gshare(pc)
        }
    }

    /// A predictor with `gshare_table_size` gshare counters and 1024
    /// selector counters, all weakly taken, no local history, a 16-entry
    /// return address stack and a 512-entry target buffer.
    pub fn new(local_history_bits: usize, global_history_bits: usize, gshare_table_size: usize) -> (h:
        Self)
        ensures
            local_history_bits < 16 && global_history_bits < 16 && gshare_table_size > 0 ==> h.wf(),
            h.local_bits() == local_history_bits,
            h.global_bits() == global_history_bits,
            h.history() == 0,
            h.locals() == Map::<u64, (u16, Seq<TwoBitState>)>::empty(),
            h.gshare() == Seq::new(gshare_table_size as nat, |i: int| TwoBitState::WeaklyTaken),
            h.choices() == Seq::new(1024, |i: int| TwoBitState::WeaklyTaken),
    {
        let selector_size: usize = 1024;
        let gshare_table = weakly_taken_table(gshare_table_size);
        let selector = weakly_taken_table(selector_size);
        let h = HybridPredictor {
            local_history: HashMap::new(),
            global_history: 0,
            gshare_table,
            selector,
            local_history_bits,
            global_history_bits,
            gshare_table_size,
            return_address_stack: ReturnAddressStack::new(16),
            btb: BranchTargetBuffer::new(512),
        };
        proof {
            assert(h.locals() =~= Map::<u64, (u16, Seq<TwoBitState>)>::empty());
        }
        h
    }

    fn predict_local(&self, pc: u64) -> (r: BranchPrediction)
        requires
            self.wf(),
        ensures
            r == self.spec_predict_local(pc),
    {
        match self.local_history.get(&pc) {
            Some(entry) => {
                let b = self.local_history_bits;
                assert(b < 16 ==> (1usize << b) >= 1usize) by (bit_vector);
                let pattern_index = (entry.history as usize) & ((1usize << b) - 1);
                proof {
                    assert(self.locals().contains_key(pc));
                    assert(self.locals()[pc] == (entry.history, states(entry.pattern_table@)));
                }
                if pattern_index < entry.pattern_table.len() {
                    entry.pattern_table[pattern_index].predict()
                } else {
                    BranchPrediction::Taken
                }
            },
            None => BranchPrediction::Taken,
        }
    }

    fn compute_gshare_index(&self, pc: u64) -> (r: usize)
        requires
            self.wf(),
        ensures
            r == self.gshare_slot(pc),
            r < self.gshare_table@.len(),
    {
        let b = self.global_history_bits;
        assert(b < 16 ==> (1usize << b) >= 1usize) by (bit_vector);
        let pc_bits = (pc as usize) & ((1usize << b) - 1);
        let history_bits = self.global_history as usize;
        let m = self.gshare_table_size - 1;
        let r = (pc_bits ^ history_bits) & m;
        assert(((pc_bits ^ history_bits) & m) <= m) by (bit_vector);
        r
    }

    fn predict_gshare(&self, pc: u64) -> (r: BranchPrediction)
        requires
            self.wf(),
        ensures
            r == self.spec_predict_gshare(pc),
    {
        let index = self.compute_gshare_index(pc);
        self.gshare_table[index].predict()
    }

    /// The selector's counter for `pc` picks the local prediction when it
    /// predicts not taken, the gshare prediction otherwise.
    pub fn predict(&self, pc: u64) -> (r: BranchPrediction)
        requires
            self.wf(),
        ensures
            r == self.spec_predict(pc),
    {
        let local_prediction = self.predict_local(pc);
        let gshare_prediction = self.predict_gshare(pc);
        let selector_index = (pc & 0x3FF) as usize;
        assert((pc & 0x3FFu64) < 1024u64) by (bit_vector);
        let selector_prediction = self.selector[selector_index].predict();
        match selector_prediction {
            BranchPrediction::NotTaken => local_prediction,
            BranchPrediction::Taken => gshare_prediction,
        }
    }

    /// `b` is `a` after learning outcome `taken` of the branch at `pc`.
    pub open spec fn updated(a: HybridPredictor, b: HybridPredictor, pc: u64, taken: bool) -> bool {
        let lc = (a.spec_predict_local(pc) == BranchPrediction::Taken) == taken;
        let gc = (a.spec_predict_gshare(pc) == BranchPrediction::Taken) == taken;
        let si = selector_index(pc);
        &&& b.wf()
        &&& b.local_bits() == a.local_bits()
        &&& b.global_bits() == a.global_bits()
        &&& b.history() == push_outcome(a.history(), taken, mask16(a.global_bits()))
        &&& b.gshare() == a.gshare().update(
            a.gshare_slot(pc),
            state_step(a.gshare()[a.gshare_slot(pc)], taken),
        )
        &&& b.choices() == if lc && !gc {
            a.choices().update(si, state_step(a.choices()[si], false))
        } else if !lc && gc {
            a.choices().update(si, state_step(a.choices()[si], true))
        } else {
            a.choices()
        }
        &&& b.locals() == a.locals().insert(
            pc,
            local_after(local_entry_of(a.locals(), pc, a.local_bits()), taken, a.local_bits()),
        )
    }

    /// Learns the outcome of the branch at `pc`: the branch's local pattern
    /// counter and the gshare counter move towards it, the selector moves
    /// towards whichever of the two was right when only one was, and the
    /// outcome is shifted into the local and global histories.
    pub fn update(&mut self, pc: u64, taken: bool)
        requires
            old(self).wf(),
        ensures
            final(self).wf(),
            final(self).local_bits() == old(self).local_bits(),
            final(self).global_bits() == old(self).global_bits(),
            final(self).history() == push_outcome(
                old(self).history(),
                taken,
                mask16(old(self).global_bits()),
            ),
            final(self).gshare() == old(self).gshare().update(
                old(self).gshare_slot(pc),
                state_step(old(self).gshare()[old(self).gshare_slot(pc)], taken),
            ),
            ({
                let lc = (old(self).spec_predict_local(pc) == BranchPrediction::Taken) == taken;
                let gc = (old(self).spec_predict_gshare(pc) == BranchPrediction::Taken) == taken;
                let si = selector_index(pc);
                final(self).choices() == if lc && !gc {
                    old(self).choices().update(si, state_step(old(self).choices()[si], false))
                } else if !lc && gc {
                    old(self).choices().update(si, state_step(old(self).choices()[si], true))
                } else {
                    old(self).choices()
                }
            }),
            final(self).locals() == old(self).locals().insert(
                pc,
                local_after(
                    local_entry_of(old(self).locals(), pc, old(self).local_bits()),
                    taken,
                    old(self).local_bits(),
                ),
            ),
            HybridPredictor::updated(*old(self), *final(self), pc, taken),
    {
        let local_prediction = self.predict_local(pc);
        let gshare_prediction = self.predict_gshare(pc);
        self.update_local(pc, taken);
        self.update_gshare(pc, taken);
        let selector_index = (pc & 0x3FF) as usize;
        assert((pc & 0x3FFu64) < 1024u64) by (bit_vector);
        let local_correct = (local_prediction == BranchPrediction::Taken) == taken;
        let gshare_correct = (gshare_prediction == BranchPrediction::Taken) == taken;
        let ghost sel0 = self.selector@;
        if local_correct && !gshare_correct {
            let mut c = self.selector[selector_index];
            c.update(false);
            self.selector.set(selector_index, c);
        } else if !local_correct && gshare_correct {
            let mut c = self.selector[selector_index];
            c.update(true);
            self.selector.set(selector_index, c);
        }
        proof {
            assert(states(sel0) == old(self).choices());
            if local_correct && !gshare_correct {
                assert(self.choices() =~= old(self).choices().update(
                    selector_index as int,
                    state_step(old(self).choices()[selector_index as int], false),
                ));
            } else if !local_correct && gshare_correct {
                assert(self.choices() =~= old(self).choices().update(
                    selector_index as int,
                    state_step(old(self).choices()[selector_index as int], true),
                ));
            } else {
                assert(self.choices() =~= old(self).choices());
            }
        }
        let b = self.global_history_bits;
        assert(b < 16 ==> (1u16 << (b as u16)) >= 1u16) by (bit_vector);
        let mask: u16 = (1u16 << (b as u16)) - 1;
        let bit: u16 = if taken {
            1
        } else {
            0
        };
        self.global_history = ((self.global_history << 1u16) | bit) & mask;
    }

    fn update_local(&mut self, pc: u64, taken: bool)
        requires
            old(self).wf(),
        ensures
            final(self).wf(),
            final(self).local_bits() == old(self).local_bits(),
            final(self).global_bits() == old(self).global_bits(),
            final(self).history() == old(self).history(),
            final(self).gshare() == old(self).gshare(),
            final(self).choices() == old(self).choices(),
            forall|q: u64| #[trigger] final(self).gshare_slot(q) == old(self).gshare_slot(q),
            final(self).locals() == old(self).locals().insert(
                pc,
                local_after(
                    local_entry_of(old(self).locals(), pc, old(self).local_bits()),
                    taken,
                    old(self).local_bits(),
                ),
            ),
    {
        let b = self.local_history_bits;
        assert(b < 16 ==> (1usize << b) >= 1usize) by (bit_vector);
        assert(b < 16 ==> (1u16 << (b as u16)) >= 1u16) by (bit_vector);
        let ghost before = self.local_history@;
        let mut entry = match self.local_history.remove(&pc) {
            Some(e) => e,
            None => {
                let n = 1usize << b;
                LocalHistoryEntry { history: 0, pattern_table: weakly_taken_table(n), last_used: 0 }
            },
        };
        let ghost e0 = (entry.history, states(entry.pattern_table@));
        proof {
            if before.contains_key(pc) {
                assert(old(self).locals().contains_key(pc));
                assert(old(self).locals()[pc] == (before[pc].history, states(before[pc].pattern_table@)));
            }
            assert(e0 == local_entry_of(old(self).locals(), pc, b));
        }
        let pattern_index = (entry.history as usize) & ((1usize << b) - 1);
        if pattern_index < entry.pattern_table.len() {
            let mut c = entry.pattern_table[pattern_index];
            c.update(taken);
            entry.pattern_table.set(pattern_index, c);
            proof {
                assert(states(entry.pattern_table@) =~= e0.1.update(
                    pattern_index as int,
                    state_step(e0.1[pattern_index as int], taken),
                ));
            }
        }
        let mask: u16 = (1u16 << (b as u16)) - 1;
        let bit: u16 = if taken {
            1
        } else {
            0
        };
        entry.history = ((entry.history << 1u16) | bit) & mask;
        self.local_history.insert(pc, entry);
        proof {
            assert(self.locals() =~= old(self).locals().insert(
                pc,
                local_after(local_entry_of(old(self).locals(), pc, b), taken, b),
            ));
        }
    }

    fn update_gshare(&mut self, pc: u64, taken: bool)
        requires
            old(self).wf(),
        ensures
            final(self).wf(),
            final(self).local_bits() == old(self).local_bits(),
            final(self).global_bits() == old(self).global_bits(),
            final(self).history() == old(self).history(),
            final(self).locals() == old(self).locals(),
            final(self).choices() == old(self).choices(),
            final(self).gshare() == old(self).gshare().update(
                old(self).gshare_slot(pc),
                state_step(old(self).gshare()[old(self).gshare_slot(pc)], taken),
            ),
            forall|q: u64| #[trigger] final(self).gshare_slot(q) == old(self).gshare_slot(q),
    {
        let index = self.compute_gshare_index(pc);
        let mut c = self.gshare_table[index];
        c.update(taken);
        self.gshare_table.set(index, c);
        proof {
            assert(self.gshare() =~= old(self).gshare().update(
                index as int,
                state_step(old(self).gshare()[index as int], taken),
            ));
        }
    }
}

/// A table of `n` weakly-taken counters.
fn weakly_taken_table(n: usize) -> (t: Vec<TwoBitCounter>)
    ensures
        t@.len() == n,
        states(t@) == Seq::new(n as nat, |i: int| TwoBitState::WeaklyTaken),
{
    let mut t: Vec<TwoBitCounter> = Vec::with_capacity(n);
    let mut i: usize = 0;
    while i < n
        invariant
            i <= n,
            t@.len() == i,
            forall|k: int| 0 <= k < i ==> (#[trigger] t@[k])@ == TwoBitState::WeaklyTaken,
        decreases n - i,
    {
        t.push(TwoBitCounter::new_biased(TwoBitState::WeaklyTaken));
        i += 1;
    }
    proof {
        assert(states(t@) =~= Seq::new(n as nat, |i: int| TwoBitState::WeaklyTaken));
    }
    t
}

/// Counters of a branch predictor.
#[derive(Debug, Clone, Copy)]
pub struct BranchMetrics {
    pub total_branches: usize,
    pub predictions_made: usize,
    pub correct_predictions: usize,
    pub incorrect_predictions: usize,
    pub branch_target_buffer: usize,
    pub store_load_forwarding: usize,
    pub btb_hits: usize,
    pub btb_misses: usize,
    pub btb_correct_targets: usize,
    pub btb_incorrect_targets: usize,
    /// Overrides of the gshare prediction by the perceptron.
    pub override_count: usize,
}

/// All counters zero.
pub open spec fn zero_metrics() -> BranchMetrics {
    BranchMetrics {
        total_branches: 0,
        predictions_made: 0,
        correct_predictions: 0,
        incorrect_predictions: 0,
        branch_target_buffer: 0,
        store_load_forwarding: 0,
        btb_hits: 0,
        btb_misses: 0,
        btb_correct_targets: 0,
        btb_incorrect_targets: 0,
        override_count: 0,
    }
}

impl Default for BranchMetrics {
    /// All counters zero.
    fn default() -> (m: Self)
        ensures
            m == zero_metrics(),
    {
        BranchMetrics {
            total_branches: 0,
            predictions_made: 0,
            correct_predictions: 0,
            incorrect_predictions: 0,
            branch_target_buffer: 0,
            store_load_forwarding: 0,
            btb_hits: 0,
            btb_misses: 0,
            btb_correct_targets: 0,
            btb_incorrect_targets: 0,
            override_count: 0,
        }
    }
}

/// A branch predictor of a chosen kind, with a target buffer for the
/// dynamic, hybrid and perceptron kinds.
#[derive(Debug)]
pub struct BranchPredictor {
    pub prediction_type: PredictorType,
    pub predictions: HashMap<u64, BranchPrediction>,
    /// Two-bit state of each branch seen, for the dynamic kind.
    pub two_bit_states: HashMap<u64, TwoBitState>,
    pub metrics: BranchMetrics,
    pub hybrid_predictor: Option<HybridPredictor>,
    pub overriding_predictor: Option<OverridingPredictor>,
    pub btb: Option<BranchTargetBuffer>,
}

/// State of the branch at `pc` for the dynamic kind: weakly not taken when
/// new.
pub open spec fn dynamic_state(states: Map<u64, TwoBitState>, pc: u64) -> TwoBitState {
    if states.contains_key(pc) {
        states[pc]
    } else {
        TwoBitState::WeaklyNotTaken
    }
}

/// Whether the kind has a target buffer.
pub open spec fn has_btb(t: PredictorType) -> bool {
    t is Hybrid || t is Dynamic || t is Perceptron
}

/// Predicted outcome of a bool prediction.
pub open spec fn as_prediction(b: bool) -> BranchPrediction {
    if b {
        BranchPrediction::Taken
    } else {
        BranchPrediction::NotTaken
    }
}

impl BranchPredictor {
    /// The parts it holds keep their invariants.
    pub open spec fn wf(&self) -> bool {
        &&& (self.hybrid_predictor matches Some(h) ==> h.wf())
        &&& (self.overriding_predictor matches Some(o) ==> o.wf())
        &&& (self.btb matches Some(b) ==> b.wf())
    }

    /// A predictor of kind `predictor_type`: a hybrid predictor (10 local
    /// bits, 12 global bits, 4096 gshare counters) for the hybrid kind, an
    /// overriding predictor for the perceptron kind, and a 512-entry target
    /// buffer for the dynamic, hybrid and perceptron kinds.
    pub fn new(predictor_type: PredictorType) -> (p: Self)
        ensures
            p.wf(),
            p.prediction_type == predictor_type,
            p.two_bit_states@ == Map::<u64, TwoBitState>::empty(),
            p.hybrid_predictor is Some <==> predictor_type is Hybrid,
            p.overriding_predictor is Some <==> predictor_type is Perceptron,
            p.btb is Some <==> has_btb(predictor_type),
            p.btb matches Some(b) ==> b.size == 512,
            p.metrics == zero_metrics(),
    {
        let hybrid_predictor = if predictor_type == PredictorType::Hybrid {
            Some(HybridPredictor::new(10, 12, 4096))
        } else {
            None
        };
        let overriding_predictor = if predictor_type == PredictorType::Perceptron {
            Some(OverridingPredictor::new())
        } else {
            None
        };
        let btb = if predictor_type == PredictorType::Hybrid || predictor_type == PredictorType::Dynamic
            || predictor_type == PredictorType::Perceptron {
            Some(BranchTargetBuffer::new(512))
        } else {
            None
        };
        BranchPredictor {
            prediction_type: predictor_type,
            predictions: HashMap::new(),
            two_bit_states: HashMap::new(),
            metrics: BranchMetrics::default(),
            hybrid_predictor,
            overriding_predictor,
            btb,
        }
    }

    /// As `new`, with the hybrid predictor's history bits, a gshare table of
    /// 2^global bits, and the target buffer size taken from `config`.
    pub fn new_with_config(predictor_type: PredictorType, config: PredictorConfig) -> (p: Self)
        requires
            predictor_type is Hybrid ==> (config.global_history_bits as int) < (usize::BITS as int),
        ensures
            p.prediction_type == predictor_type,
            p.two_bit_states@ == Map::<u64, TwoBitState>::empty(),
            p.hybrid_predictor is Some <==> predictor_type is Hybrid,
            p.overriding_predictor is Some <==> predictor_type is Perceptron,
            p.btb is Some <==> has_btb(predictor_type),
            p.btb matches Some(b) ==> b.size == config.btb_size,
            (config.local_history_bits < 16 && config.global_history_bits < 16 && config.btb_size > 0)
                ==> p.wf(),
            p.metrics == zero_metrics(),
    {
        let hybrid_predictor = if predictor_type == PredictorType::Hybrid {
            let g = config.global_history_bits;
            assert(g < 16 ==> (1usize << g) > 0usize) by (bit_vector);
            assert(g < usize::BITS);
            Some(HybridPredictor::new(config.local_history_bits, g, 1usize << g))
        } else {
            None
        };
        let overriding_predictor = if predictor_type == PredictorType::Perceptron {
            Some(OverridingPredictor::new())
        } else {
            None
        };
        let btb = if predictor_type == PredictorType::Hybrid || predictor_type == PredictorType::Dynamic
            || predictor_type == PredictorType::Perceptron {
            Some(BranchTargetBuffer::new(config.btb_size))
        } else {
            None
        };
        BranchPredictor {
            prediction_type: predictor_type,
            predictions: HashMap::new(),
            two_bit_states: HashMap::new(),
            metrics: BranchMetrics::default(),
            hybrid_predictor,
            overriding_predictor,
            btb,
        }
    }

    /// The target the buffer holds for `pc`, counting a hit or a miss; none
    /// without a buffer.
    pub fn predict_target(&mut self, pc: u64) -> (r: Option<u32>)
        requires
            old(self).wf(),
            old(self).btb matches Some(b) ==> b.current_cycle < u64::MAX,
            old(self).metrics.btb_hits < usize::MAX,
            old(self).metrics.btb_misses < usize::MAX,
        ensures
            final(self).wf(),
            final(self).prediction_type == old(self).prediction_type,
            match old(self).btb {
                Some(b) => {
                    &&& r == b.lookup(pc)
                    &&& final(self).btb matches Some(b2) && forall|q: u64| #[trigger] b2.lookup(q) == b.lookup(q)
                    &&& final(self).metrics == (if r is Some {
                        BranchMetrics { btb_hits: (old(self).metrics.btb_hits + 1) as usize, ..old(self).metrics }
                    } else {
                        BranchMetrics { btb_misses: (old(self).metrics.btb_misses + 1) as usize, ..old(self).metrics }
                    })
                },
                None => r is None && *final(self) == *old(self),
            },
    {
        match self.btb {
            Some(ref mut btb) => {
                let target = btb.predict(pc);
                if target.is_some() {
                    self.metrics.btb_hits = self.metrics.btb_hits + 1;
                } else {
                    self.metrics.btb_misses = self.metrics.btb_misses + 1;
                }
                target
            },
            None => None,
        }
    }

    /// `b` is `a` after predicting `r` for the branch at `pc`: the prediction
    /// is counted; the answer is not taken for the static, gshare, gskew and
    /// tournament kinds, the branch's two-bit state (weakly not taken when
    /// new, and then recorded) for the dynamic kind, the hybrid predictor's
    /// answer for the hybrid kind, and the gshare answer of the overriding
    /// predictor, which also primes its perceptron, for the perceptron kind.
    pub open spec fn predicted(a: BranchPredictor, b: BranchPredictor, pc: u64, r: BranchPrediction) -> bool {
        &&& b.wf()
        &&& b.prediction_type == a.prediction_type
        &&& b.metrics == (BranchMetrics {
            predictions_made: (a.metrics.predictions_made + 1) as usize,
            ..a.metrics
        })
        &&& b.btb == a.btb
        &&& match a.prediction_type {
            PredictorType::Dynamic => {
                &&& r == state_prediction(dynamic_state(a.two_bit_states@, pc))
                &&& b.two_bit_states@ == a.two_bit_states@.insert(
                    pc,
                    dynamic_state(a.two_bit_states@, pc),
                )
            },
            PredictorType::Hybrid => {
                &&& r == match a.hybrid_predictor {
                    Some(h) => h.spec_predict(pc),
                    None => BranchPrediction::NotTaken,
                }
                &&& b.hybrid_predictor == a.hybrid_predictor
            },
            PredictorType::Perceptron => match a.overriding_predictor {
                Some(o) => {
                    &&& r == as_prediction(o.gshare_predictor.says(pc))
                    &&& b.overriding_predictor matches Some(o2) && OverridingPredictor::primed(o, o2, pc)
                },
                None => r == BranchPrediction::NotTaken,
            },
            _ => r == BranchPrediction::NotTaken && b.two_bit_states == a.two_bit_states,
        }
    }

    /// Predicts the branch at `pc` and counts the prediction, as `predicted`
    /// says.
    pub fn predict(&mut self, pc: u64) -> (r: BranchPrediction)
        requires
            old(self).wf(),
            old(self).metrics.predictions_made < usize::MAX,
        ensures
            Self::predicted(*old(self), *final(self), pc, r),
    {
        self.metrics.predictions_made = self.metrics.predictions_made + 1;
        match self.prediction_type {
            PredictorType::Dynamic => self.predict_dynamic(pc),
            PredictorType::Hybrid => {
                match self.hybrid_predictor {
                    Some(ref hybrid) => hybrid.predict(pc),
                    None => BranchPrediction::NotTaken,
                }
            },
            PredictorType::Perceptron => {
                match self.overriding_predictor {
                    Some(ref mut overriding) => {
                        let prediction = overriding.get_initial_prediction(pc);
                        if prediction {
                            BranchPrediction::Taken
                        } else {
                            BranchPrediction::NotTaken
                        }
                    },
                    None => BranchPrediction::NotTaken,
                }
            },
            _ => BranchPrediction::NotTaken,
        }
    }

    /// Prediction of the branch at `pc` from its two-bit state, which is
    /// recorded as weakly not taken when the branch is new.
    fn predict_dynamic(&mut self, pc: u64) -> (r: BranchPrediction)
        ensures
            r == state_prediction(dynamic_state(old(self).two_bit_states@, pc)),
            final(self).two_bit_states@ == old(self).two_bit_states@.insert(
                pc,
                dynamic_state(old(self).two_bit_states@, pc),
            ),
            final(self).metrics == old(self).metrics,
            final(self).prediction_type == old(self).prediction_type,
            final(self).hybrid_predictor == old(self).hybrid_predictor,
            final(self).overriding_predictor == old(self).overriding_predictor,
            final(self).btb == old(self).btb,
    {
        let state = self.dynamic_state_of(pc);
        self.two_bit_states.insert(pc, state);
        predict_state(state)
    }

    /// The two-bit state of the branch at `pc`: weakly not taken when new.
    fn dynamic_state_of(&self, pc: u64) -> (r: TwoBitState)
        ensures
            r == dynamic_state(self.two_bit_states@, pc),
    {
        match self.two_bit_states.get(&pc) {
            Some(s) => *s,
            None => TwoBitState::WeaklyNotTaken,
        }
    }

    /// Records in the buffer the target `target` of the branch at `pc`,
    /// counting whether `predicted_target` named it; nothing without a
    /// buffer.
    pub fn update_btb(&mut self, pc: u64, target: u32, predicted_target: Option<u32>)
        requires
            old(self).wf(),
            old(self).btb matches Some(b) ==> b.current_cycle < u64::MAX,
            old(self).metrics.btb_correct_targets < usize::MAX,
            old(self).metrics.btb_incorrect_targets < usize::MAX,
        ensures
            final(self).wf(),
            final(self).prediction_type == old(self).prediction_type,
            match old(self).btb {
                Some(b) => {
                    &&& final(self).metrics == (if predicted_target == Some(target) {
                        BranchMetrics {
                            btb_correct_targets: (old(self).metrics.btb_correct_targets + 1) as usize,
                            ..old(self).metrics
                        }
                    } else {
                        BranchMetrics {
                            btb_incorrect_targets: (old(self).metrics.btb_incorrect_targets + 1) as usize,
                            ..old(self).metrics
                        }
                    })
                    &&& final(self).btb matches Some(b2) && b2.lookup(pc) == (if b.lookup(pc) is Some {
                        b.lookup(pc)
                    } else {
                        Some(target)
                    })
                },
                None => *final(self) == *old(self),
            },
    {
        match self.btb {
            Some(ref mut btb) => {
                let correct = predicted_target == Some(target);
                if correct {
                    self.metrics.btb_correct_targets = self.metrics.btb_correct_targets + 1;
                } else {
                    self.metrics.btb_incorrect_targets = self.metrics.btb_incorrect_targets + 1;
                }
                btb.update_with_confidence(pc, target, correct);
            },
            None => {},
        }
    }

    /// `b` is `a` after learning that the branch at `pc`, predicted
    /// `prediction`, went `taken`: the branch is counted as correctly or
    /// incorrectly predicted, and the predictor of its kind is trained (the
    /// two-bit state for the dynamic kind, the hybrid predictor, or the
    /// overriding predictor, whose override count is copied into the
    /// counters).
    pub open spec fn learned(
        a: BranchPredictor,
        b: BranchPredictor,
        pc: u64,
        taken: bool,
        prediction: BranchPrediction,
    ) -> bool {
        &&& b.wf()
        &&& b.prediction_type == a.prediction_type
        &&& b.btb == a.btb
        &&& b.metrics.total_branches == a.metrics.total_branches + 1
        &&& (prediction == as_prediction(taken)) ==> b.metrics.correct_predictions
            == a.metrics.correct_predictions + 1 && b.metrics.incorrect_predictions
            == a.metrics.incorrect_predictions
        &&& (prediction != as_prediction(taken)) ==> b.metrics.incorrect_predictions
            == a.metrics.incorrect_predictions + 1 && b.metrics.correct_predictions
            == a.metrics.correct_predictions
        &&& b.metrics.predictions_made == a.metrics.predictions_made
        &&& a.prediction_type is Dynamic ==> b.two_bit_states@ == a.two_bit_states@.insert(
            pc,
            state_step(dynamic_state(a.two_bit_states@, pc), taken),
        )
        &&& !(a.prediction_type is Dynamic) ==> b.two_bit_states@ == a.two_bit_states@
        &&& a.prediction_type is Hybrid ==> match a.hybrid_predictor {
            Some(h) => b.hybrid_predictor matches Some(h2) && HybridPredictor::updated(h, h2, pc, taken),
            None => b.hybrid_predictor is None,
        }
        &&& a.prediction_type is Perceptron ==> match a.overriding_predictor {
            Some(o) => b.overriding_predictor matches Some(o2) && OverridingPredictor::learned_state(
                o,
                o2,
                pc,
                taken,
            ) && b.metrics.override_count == o2.override_count as usize,
            None => b.overriding_predictor is None,
        }
    }

    /// Learns that the branch at `pc`, predicted `prediction`, went `taken`:
    /// counts the branch as correctly or incorrectly predicted, and trains
    /// the predictor of its kind (the two-bit state for the dynamic kind, the
    /// hybrid predictor, or the overriding predictor, whose override count
    /// is copied into the counters).
    pub fn update(&mut self, pc: u64, taken: bool, prediction: BranchPrediction)
        requires
            old(self).wf(),
            old(self).metrics.total_branches < usize::MAX,
            old(self).metrics.correct_predictions < usize::MAX,
            old(self).metrics.incorrect_predictions < usize::MAX,
            old(self).overriding_predictor matches Some(o) ==> o.counters_below_max(),
        ensures
            Self::learned(*old(self), *final(self), pc, taken, prediction),
    {
        self.metrics.total_branches = self.metrics.total_branches + 1;
        let correct = match (prediction, taken) {
            (BranchPrediction::Taken, true) | (BranchPrediction::NotTaken, false) => true,
            _ => false,
        };
        if correct {
            self.metrics.correct_predictions = self.metrics.correct_predictions + 1;
        } else {
            self.metrics.incorrect_predictions = self.metrics.incorrect_predictions + 1;
        }
        if self.prediction_type == PredictorType::Dynamic {
            self.update_dynamic(pc, taken);
        }
        if self.prediction_type == PredictorType::Hybrid {
            match self.hybrid_predictor {
                Some(ref mut hybrid) => hybrid.update(pc, taken),
                None => {},
            }
        }
        if self.prediction_type == PredictorType::Perceptron {
            match self.overriding_predictor {
                Some(ref mut overriding) => {
                    let needs_flush = overriding.update_and_get_flush_status(pc, taken);
                    self.metrics.override_count = overriding.override_count as usize;
                },
                None => {},
            }
        }
    }

    /// Moves the two-bit state of the branch at `pc` (weakly not taken when
    /// new) towards the outcome.
    fn update_dynamic(&mut self, pc: u64, taken: bool)
        ensures
            final(self).two_bit_states@ == old(self).two_bit_states@.insert(
                pc,
                state_step(dynamic_state(old(self).two_bit_states@, pc), taken),
            ),
            final(self).metrics == old(self).metrics,
            final(self).prediction_type == old(self).prediction_type,
            final(self).hybrid_predictor == old(self).hybrid_predictor,
            final(self).overriding_predictor == old(self).overriding_predictor,
            final(self).btb == old(self).btb,
    {
        let state = self.dynamic_state_of(pc);
        self.two_bit_states.insert(pc, next_state(state, taken));
    }
}

} // verus!
