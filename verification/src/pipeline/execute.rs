//! The part of the execute stage that keeps no arithmetic unit: its branch
//! predictor with its counters, and the pairing rule for vector operations.
//! The units that compute (ALU, vector ALU, FPU) are not part of this
//! library.
use vstd::prelude::*;
use crate::bytecode::Opcode;
use crate::pvm::branch_predictor::{as_prediction, BranchPrediction, BranchPredictor, PredictorType};

verus! {

/// Branch prediction state of the execute stage.
pub struct ExecuteStage {
    pub branch_predictor: BranchPredictor,
    /// Predictions checked.
    pub branch_predictions: u64,
    /// Predictions that were right.
    pub branch_hits: u64,
}

/// Whether vector operation `next` can run beside `current`: a 128-bit
/// add, sub, mul or div beside a 128-bit and, or or xor, or a 128-bit min or
/// max beside a 128-bit add, sub or mul.
pub open spec fn simd_pair(current: Opcode, next: Option<Opcode>) -> bool {
    match next {
        Some(n) => {
            ||| (current is Simd128Add || current is Simd128Sub || current is Simd128Mul || current is Simd128Div)
                && (n is Simd128And || n is Simd128Or || n is Simd128Xor)
            ||| (current is Simd128Min || current is Simd128Max) && (n is Simd128Add || n is Simd128Sub
                || n is Simd128Mul)
        },
        None => false,
    }
}

impl ExecuteStage {
    /// A stage with a fresh dynamic predictor and counters at zero.
    pub fn new() -> (s: Self)
        ensures
            s.branch_predictor.wf(),
            s.branch_predictor.prediction_type == PredictorType::Dynamic,
            s.branch_predictor.two_bit_states@ == Map::<u64, crate::pvm::branch_predictor::TwoBitState>::empty(),
            s.branch_predictions == 0,
            s.branch_hits == 0,
    {
        ExecuteStage {
            branch_predictor: BranchPredictor::new(PredictorType::Dynamic),
            branch_predictions: 0,
            branch_hits: 0,
        }
    }

    /// Teaches the predictor that the branch at `pc`, predicted
    /// `prediction`, went `taken`, and counts the prediction and whether it
    /// was right.
    pub fn update_branch_predictor(&mut self, pc: u64, taken: bool, prediction: BranchPrediction)
        requires
            old(self).branch_predictor.wf(),
            old(self).branch_predictor.metrics.total_branches < usize::MAX,
            old(self).branch_predictor.metrics.correct_predictions < usize::MAX,
            old(self).branch_predictor.metrics.incorrect_predictions < usize::MAX,
            old(self).branch_predictor.overriding_predictor matches Some(o) ==> o.counters_below_max(),
            old(self).branch_predictions < u64::MAX,
            old(self).branch_hits < u64::MAX,
        ensures
            BranchPredictor::learned(old(self).branch_predictor, final(self).branch_predictor, pc, taken, prediction),
            final(self).branch_predictions == old(self).branch_predictions + 1,
            final(self).branch_hits == old(self).branch_hits + if prediction == as_prediction(taken) {
                1int
            } else {
                0int
            },
    {
        self.branch_predictor.update(pc, taken, prediction);
        self.branch_predictions = self.branch_predictions + 1;
        if (prediction == BranchPrediction::Taken) == taken {
            self.branch_hits = self.branch_hits + 1;
        }
    }

    /// Whether vector operation `next` can run beside `current`.
    pub fn can_execute_simd_parallel(&self, current: &Opcode, next: Option<&Opcode>) -> (r: bool)
        ensures
            r == simd_pair(
                *current,
                match next {
                    Some(n) => Some(*n),
                    None => None,
                },
            ),
    {
        match next {
            Some(next_op) => match (current, next_op) {
                (
                    Opcode::Simd128Add | Opcode::Simd128Sub | Opcode::Simd128Mul | Opcode::Simd128Div,
                    Opcode::Simd128And | Opcode::Simd128Or | Opcode::Simd128Xor,
                ) => true,
                (
                    Opcode::Simd128Min | Opcode::Simd128Max,
                    Opcode::Simd128Add | Opcode::Simd128Sub | Opcode::Simd128Mul,
                ) => true,
                _ => false,
            },
            None => false,
        }
    }

    /// Starts again with a fresh dynamic predictor and counters at zero.
    pub fn reset(&mut self)
        ensures
            final(self).branch_predictor.wf(),
            final(self).branch_predictor.prediction_type == PredictorType::Dynamic,
            final(self).branch_predictor.two_bit_states@ == Map::<u64, crate::pvm::branch_predictor::TwoBitState>::empty(),
            final(self).branch_predictions == 0,
            final(self).branch_hits == 0,
    {
        self.branch_predictor = BranchPredictor::new(PredictorType::Dynamic);
        self.branch_predictions = 0;
        self.branch_hits = 0;
    }
}

} // verus!
