//! Perceptron branch predictor: a bias and one weight per history bit,
//! trained when it mispredicts or is unsure.
use vstd::prelude::*;

verus! {

/// Length of the global history (the last branches).
pub const HISTORY_LENGTH: usize = 16;

/// Bits of a weight.
pub const WEIGHT_BITS: isize = 8;

/// Factor of the activation threshold.
pub const THRESHOLD_FACTOR: isize = 10;

/// Branches in the global history.
pub const GLOBAL_HISTORY_LENGTH: usize = 16;

/// Outcomes of the same branch in its local history.
pub const LOCAL_HISTORY_LENGTH: usize = 8;

/// Inputs of a perceptron: global then local history.
pub const TOTAL_HISTORY_LENGTH: usize = GLOBAL_HISTORY_LENGTH + LOCAL_HISTORY_LENGTH;

/// Perceptrons in the table.
pub const NUM_PERCEPTRONS: usize = 1024;

/// Confidence below which a correct prediction still trains.
pub const THRESHOLD_T: isize = 20;

/// Lowest weight: -2^(WEIGHT_BITS - 1).
pub const WEIGHT_MIN: isize = -128;

/// Highest weight: 2^(WEIGHT_BITS - 1) - 1.
pub const WEIGHT_MAX: isize = 127;

/// A bias weight followed by one weight per history input.
#[derive(Debug)]
pub struct Perceptron {
    pub weight: Vec<isize>,
}

impl Clone for Perceptron {
    /// A perceptron with the same weights.
    fn clone(&self) -> (r: Self)
        ensures
            r.weight@ == self.weight@,
    {
        let mut weight: Vec<isize> = Vec::with_capacity(self.weight.len());
        let mut i: usize = 0;
        while i < self.weight.len()
            invariant
                i <= self.weight@.len(),
                weight@ == self.weight@.take(i as int),
            decreases self.weight@.len() - i,
        {
            weight.push(self.weight[i]);
            i += 1;
            proof {
                assert(weight@ =~= self.weight@.take(i as int));
            }
        }
        proof {
            assert(self.weight@.take(self.weight@.len() as int) =~= self.weight@);
        }
        Perceptron { weight }
    }
}

/// Contribution of weight `w` for history input `h`: added for a taken
/// input (1), subtracted otherwise.
pub open spec fn signed(h: isize, w: isize) -> int {
    if h == 1 {
        w as int
    } else {
        -(w as int)
    }
}

/// The bias plus the contributions of the first `k` history inputs.
pub open spec fn partial_sum(w: Seq<isize>, h: Seq<isize>, k: nat) -> int
    decreases k,
{
    if k == 0 {
        w[0] as int
    } else {
        partial_sum(w, h, (k - 1) as nat) + signed(h[k - 1], w[k as int])
    }
}

/// Every partial sum fits in an `isize`.
pub open spec fn sums_fit(w: Seq<isize>, h: Seq<isize>) -> bool {
    forall|k: nat| k <= h.len() ==> isize::MIN <= #[trigger] partial_sum(w, h, k) <= isize::MAX
}

/// `x` clamped to the weight range.
pub open spec fn clamp_weight(x: int) -> int {
    if x < WEIGHT_MIN {
        WEIGHT_MIN as int
    } else if x > WEIGHT_MAX {
        WEIGHT_MAX as int
    } else {
        x
    }
}

/// Whether a prediction of sum `p` for outcome `a` trains: when it was
/// wrong or its magnitude is at most the threshold.
pub open spec fn trains(a: isize, p: isize) -> bool {
    let correct = (a > 0 && p > 0) || (a <= 0 && p <= 0);
    !correct || (if p < 0 { -p } else { p as int }) <= THRESHOLD_T
}

/// Step of the weight of input `h` towards outcome `a`.
pub open spec fn step(a: isize, h: isize) -> int {
    if a == h {
        1
    } else {
        -1
    }
}

/// Weights after training on history `h`, outcome `a` and predicted sum
/// `p`: the bias moves by `a`, each input weight one step towards the
/// outcome, all clamped; unchanged when the prediction does not train.
pub open spec fn trained(w: Seq<isize>, h: Seq<isize>, a: isize, p: isize) -> Seq<isize> {
    if trains(a, p) {
        Seq::new(
            w.len(),
            |j: int|
                if j == 0 {
                    clamp_weight(w[0] + a) as isize
                } else if j <= h.len() {
                    clamp_weight(w[j] + step(a, h[j - 1])) as isize
                } else {
                    w[j]
                },
        )
    } else {
        w
    }
}

/// Every weight lies in the weight range.
pub open spec fn weights_in_range(w: Seq<isize>) -> bool {
    forall|j: int| 0 <= j < w.len() ==> WEIGHT_MIN <= #[trigger] w[j] <= WEIGHT_MAX
}

/// With weights in range, every partial sum stays within 128 per weight.
pub proof fn lemma_sum_bound(w: Seq<isize>, h: Seq<isize>, k: nat)
    requires
        weights_in_range(w),
        k < w.len(),
        k <= h.len(),
    ensures
        -128 * (k + 1) <= partial_sum(w, h, k) <= 128 * (k + 1),
    decreases k,
{
    if k > 0 {
        lemma_sum_bound(w, h, (k - 1) as nat);
    }
}

/// `x` clamped to the weight range.
fn clamp_exec(x: isize) -> (r: isize)
    ensures
        r == clamp_weight(x as int),
{
    if x < WEIGHT_MIN {
        WEIGHT_MIN
    } else if x > WEIGHT_MAX {
        WEIGHT_MAX
    } else {
        x
    }
}

impl Perceptron {
    /// A perceptron with all weights zero: the bias and one weight per input.
    pub fn new(total_history_length: usize) -> (p: Self)
        requires
            total_history_length < usize::MAX,
        ensures
            p.weight@ == Seq::new((total_history_length + 1) as nat, |j: int| 0isize),
    {
        let n = total_history_length + 1;
        let mut weight: Vec<isize> = Vec::with_capacity(n);
        let mut i: usize = 0;
        while i < n
            invariant
                i <= n,
                weight@ == Seq::new(i as nat, |j: int| 0isize),
            decreases n - i,
        {
            weight.push(0);
            i += 1;
        }
        Perceptron { weight }
    }

    /// The bias plus, for each history input, its weight when the input is
    /// taken (1) and minus its weight otherwise.
    pub fn predict_sum(&self, input_history: &[isize]) -> (r: isize)
        requires
            self.weight@.len() > input_history@.len(),
            sums_fit(self.weight@, input_history@),
        ensures
            r == partial_sum(self.weight@, input_history@, input_history@.len()),
    {
        let mut sum: isize = self.weight[0];
        let n = input_history.len();
        let mut i: usize = 0;
        assert(partial_sum(self.weight@, input_history@, 0) == self.weight@[0]);
        while i < n
            invariant
                i <= n,
                n == input_history@.len(),
                self.weight@.len() > n,
                sums_fit(self.weight@, input_history@),
                sum == partial_sum(self.weight@, input_history@, i as nat),
            decreases n - i,
        {
            assert(isize::MIN <= partial_sum(self.weight@, input_history@, (i + 1) as nat)
                <= isize::MAX);
            if input_history[i] == 1 {
                sum = sum + self.weight[i + 1];
            } else {
                sum = sum - self.weight[i + 1];
            }
            i += 1;
        }
        sum
    }

    /// Trains on `input_history` for outcome `actual_outcome` (1 taken, -1
    /// not taken) when the prediction `predicted_sum` was wrong or its
    /// magnitude at most the threshold: the bias moves by the outcome and
    /// each input weight one step towards the outcome, all clamped to the
    /// weight range.
    pub fn train(&mut self, input_history: &[isize], actual_outcome: isize, predicted_sum: isize)
        requires
            old(self).weight@.len() > input_history@.len(),
            !(actual_outcome <= 0 && predicted_sum == isize::MIN),
            trains(actual_outcome, predicted_sum) ==> isize::MIN <= old(self).weight@[0]
                + actual_outcome <= isize::MAX,
            trains(actual_outcome, predicted_sum) ==> forall|i: int|
                0 <= i < input_history@.len() ==> isize::MIN <= old(self).weight@[i + 1] + step(
                    actual_outcome,
                    #[trigger] input_history@[i],
                ) <= isize::MAX,
        ensures
            final(self).weight@ == trained(
                old(self).weight@,
                input_history@,
                actual_outcome,
                predicted_sum,
            ),
            weights_in_range(old(self).weight@) ==> weights_in_range(final(self).weight@),
    {
        let prediction_correct = (actual_outcome > 0 && predicted_sum > 0) || (actual_outcome <= 0
            && predicted_sum <= 0);
        let should_train = if !prediction_correct {
            true
        } else {
            let magnitude = if predicted_sum < 0 {
                -predicted_sum
            } else {
                predicted_sum
            };
            magnitude <= THRESHOLD_T
        };
        if should_train {
            let ghost w0 = self.weight@;
            let ghost target = trained(w0, input_history@, actual_outcome, predicted_sum);
            let b = self.weight[0] + actual_outcome;
            self.weight.set(0, clamp_exec(b));
            let n = input_history.len();
            let mut i: usize = 0;
            while i < n
                invariant
                    i <= n,
                    n == input_history@.len(),
                    w0.len() > n,
                    self.weight@.len() == w0.len(),
                    target == trained(w0, input_history@, actual_outcome, predicted_sum),
                    trains(actual_outcome, predicted_sum),
                    forall|k: int|
                        0 <= k < input_history@.len() ==> isize::MIN <= w0[k + 1] + step(
                            actual_outcome,
                            #[trigger] input_history@[k],
                        ) <= isize::MAX,
                    forall|j: int| 0 <= j <= i ==> #[trigger] self.weight@[j] == target[j],
                    forall|j: int| i < j < w0.len() ==> #[trigger] self.weight@[j] == w0[j],
                decreases n - i,
            {
                let w = self.weight[i + 1];
                assert(isize::MIN <= w0[i + 1] + step(actual_outcome, input_history@[i as int])
                    <= isize::MAX);
                let moved = if actual_outcome == input_history[i] {
                    clamp_exec(w + 1)
                } else {
                    clamp_exec(w - 1)
                };
                self.weight.set(i + 1, moved);
                i += 1;
            }
            proof {
                assert(self.weight@ =~= target);
            }
        }
    }
}

} // verus!
