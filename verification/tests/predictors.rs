use pvm_sim::pvm::branch_perceptor::{Perceptron, TOTAL_HISTORY_LENGTH};
use pvm_sim::pvm::branch_predictor::{
    BranchPrediction, BranchPredictor, BranchTargetBuffer, GSharePredictor, HybridPredictor,
    OverridingPredictor, PerceptronPredictor, PredictorConfig, PredictorType, TwoBitCounter,
    TwoBitState,
};

#[test]
fn two_bit_counter_two_equal_outcomes_decide() {
    let mut c = TwoBitCounter::new_biased(TwoBitState::StronglyNotTaken);
    c.update(true);
    assert_eq!(c.predict(), BranchPrediction::NotTaken);
    c.update(true);
    assert_eq!(c.predict(), BranchPrediction::Taken);
    let mut d = TwoBitCounter::new();
    assert_eq!(d.predict(), BranchPrediction::NotTaken);
    d.update(false);
    d.update(false);
    assert_eq!(d.predict(), BranchPrediction::NotTaken);
}

#[test]
fn two_bit_counter_saturates() {
    let mut c = TwoBitCounter::new_biased(TwoBitState::StronglyTaken);
    c.update(true);
    c.update(true);
    assert_eq!(c.predict(), BranchPrediction::Taken);
    c.update(false);
    assert_eq!(c.predict(), BranchPrediction::Taken);
    c.update(false);
    assert_eq!(c.predict(), BranchPrediction::NotTaken);
}

#[test]
fn gshare_learns_a_taken_branch() {
    let mut g = GSharePredictor::new();
    assert!(!g.predict_branch(0x40));
    g.update_predictor(0x40, true);
    // the history is now 1: pc 0x40 maps to a fresh counter, pc 0x41 to the trained one
    assert!(!g.predict_branch(0x40));
    assert!(g.predict_branch(0x41));
}

#[test]
fn btb_update_then_predict_gives_target() {
    let mut btb = BranchTargetBuffer::new(512);
    assert_eq!(btb.predict(0x1234), None);
    btb.update(0x1234, 0x5678);
    assert_eq!(btb.predict(0x1234), Some(0x5678));
    assert_eq!(btb.current_cycle, 2);
    assert_eq!(btb.predict_with_confidence(0x1234), Some((0x5678, 128)));
    // same slot, other tag
    assert_eq!(btb.predict(0x1234 + 512 * 4096), None);
    btb.invalidate(0x1234);
    assert_eq!(btb.predict(0x1234), None);
}

#[test]
fn btb_confidence_moves_and_saturates() {
    let mut btb = BranchTargetBuffer::new(16);
    btb.update_with_confidence(3, 100, false);
    assert_eq!(btb.entries[3].confidence, 64);
    btb.update_with_confidence(3, 200, true);
    assert_eq!(btb.entries[3].confidence, 65);
    assert_eq!(btb.entries[3].target, 100);
    for _ in 0..10 {
        btb.update_with_confidence(3, 100, false);
    }
    assert_eq!(btb.entries[3].confidence, 0);
}

#[test]
fn perceptron_sum_and_training() {
    let mut p = Perceptron::new(3);
    assert_eq!(p.weight, vec![0, 0, 0, 0]);
    let h = [1isize, -1, 1];
    assert_eq!(p.predict_sum(&h), 0);
    p.train(&h, 1, 0);
    assert_eq!(p.weight, vec![1, 1, -1, 1]);
    assert_eq!(p.predict_sum(&h), 4);
    // a confident correct prediction does not train
    p.train(&h, 1, 30);
    assert_eq!(p.weight, vec![1, 1, -1, 1]);
}

#[test]
fn perceptron_weights_are_clamped() {
    let mut p = Perceptron::new(1);
    p.weight = vec![127, -128];
    p.train(&[1], 1, -5);
    assert_eq!(p.weight, vec![127, -127]);
    p.weight = vec![-128, 127];
    p.train(&[-1], -1, 5);
    assert_eq!(p.weight, vec![-128, 127]);
}

#[test]
fn perceptron_predictor_learns() {
    let mut pp = PerceptronPredictor::new();
    assert_eq!(pp.perceptrons.len(), 1024);
    assert_eq!(pp.perceptrons[0].weight.len(), TOTAL_HISTORY_LENGTH + 1);
    assert!(!pp.predict_branch(7));
    pp.update_predictor(7, true);
    assert_eq!(pp.global_history[15], 1);
    assert_eq!(pp.local_histories.get(&7).unwrap().len(), 8);
    assert!(pp.predict_branch(7));
    pp.reset();
    assert!(pp.local_histories.is_empty());
    assert!(!pp.predict_branch(7));
}

#[test]
fn overriding_predictor_counts_and_flushes() {
    let mut o = OverridingPredictor::new();
    let first = o.get_initial_prediction(0x10);
    assert!(!first);
    assert_eq!(o.get_perceptron_prediction(0x10), Some(false));
    let flush = o.update_and_get_flush_status(0x10, false);
    assert!(!flush);
    assert_eq!(o.agreement_correct, 1);
    assert_eq!(o.gshare_correct, 1);
    assert_eq!(o.get_perceptron_prediction(0x10), None);
    let flush2 = o.update_and_get_flush_status(0x20, true);
    assert!(flush2);
    assert_eq!(o.misprediction_penalty_full, 1);
    assert_eq!(o.agreement_incorrect, 1);
}

#[test]
fn hybrid_predictor_new_branch_predicts_taken() {
    let mut h = HybridPredictor::new(10, 12, 4096);
    assert_eq!(h.predict(0x100), BranchPrediction::Taken);
    h.update(0x100, false);
    h.update(0x100, false);
    h.update(0x100, false);
    assert_eq!(h.predict(0x100), BranchPrediction::NotTaken);
}

#[test]
fn branch_predictor_dynamic_two_bit() {
    let mut bp = BranchPredictor::new(PredictorType::Dynamic);
    assert_eq!(bp.predict(0x40), BranchPrediction::NotTaken);
    bp.update(0x40, true, BranchPrediction::NotTaken);
    assert_eq!(bp.metrics.incorrect_predictions, 1);
    assert_eq!(bp.predict(0x40), BranchPrediction::Taken);
    bp.update(0x40, true, BranchPrediction::Taken);
    assert_eq!(bp.metrics.correct_predictions, 1);
    assert_eq!(bp.metrics.total_branches, 2);
    assert_eq!(bp.metrics.predictions_made, 2);
}

#[test]
fn branch_predictor_static_is_not_taken() {
    let mut bp = BranchPredictor::new(PredictorType::Static);
    assert_eq!(bp.predict(1), BranchPrediction::NotTaken);
    assert!(bp.btb.is_none());
    assert_eq!(bp.predict_target(1), None);
}

#[test]
fn branch_predictor_target_buffer() {
    let mut bp = BranchPredictor::new(PredictorType::Hybrid);
    assert_eq!(bp.predict_target(0x80), None);
    assert_eq!(bp.metrics.btb_misses, 1);
    bp.update_btb(0x80, 0x200, None);
    assert_eq!(bp.metrics.btb_incorrect_targets, 1);
    assert_eq!(bp.predict_target(0x80), Some(0x200));
    assert_eq!(bp.metrics.btb_hits, 1);
    bp.update_btb(0x80, 0x200, Some(0x200));
    assert_eq!(bp.metrics.btb_correct_targets, 1);
}

#[test]
fn branch_predictor_perceptron_kind() {
    let mut bp = BranchPredictor::new(PredictorType::Perceptron);
    let p = bp.predict(0x30);
    assert_eq!(p, BranchPrediction::NotTaken);
    bp.update(0x30, true, p);
    assert_eq!(bp.metrics.incorrect_predictions, 1);
    let o = bp.overriding_predictor.as_ref().unwrap();
    assert_eq!(o.override_count as usize, bp.metrics.override_count);
}

#[test]
fn branch_predictor_with_config() {
    let config = PredictorConfig {
        local_history_bits: 4,
        global_history_bits: 6,
        btb_size: 64,
        ras_size: 8,
    };
    let mut bp = BranchPredictor::new_with_config(PredictorType::Hybrid, config);
    assert_eq!(bp.btb.as_ref().unwrap().size, 64);
    assert_eq!(bp.predict(5), BranchPrediction::Taken);
}

#[test]
fn overriding_predictor_right_perceptron_needs_no_full_flush() {
    let mut o = OverridingPredictor::new();
    // both predictors wrong: a full flush
    assert!(o.update_and_get_flush_status(0, true));
    assert_eq!(o.misprediction_penalty_full, 1);
    // gshare still says not taken, the trained perceptron says taken
    assert!(!o.get_initial_prediction(0));
    assert_eq!(o.get_perceptron_prediction(0), Some(true));
    assert!(!o.update_and_get_flush_status(0, true));
    assert_eq!(o.override_count, 1);
    assert_eq!(o.misprediction_penalty_override, 1);
    assert_eq!(o.misprediction_penalty_full, 1);
}

#[test]
fn btb_target_survives_calls_on_other_slots() {
    let mut b = BranchTargetBuffer::new(16);
    b.update(0x1000, 77);
    b.update(0x1001, 5);
    b.update_with_confidence(0x1003, 9, true);
    b.invalidate(0x1002);
    assert_eq!(b.predict(0x1004), None);
    assert_eq!(b.predict(0x1000), Some(77));
    assert_eq!(b.predict(0x1000 + 16 * 0x1000), None);
}
