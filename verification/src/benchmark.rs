use vstd::prelude::*;
use vstd::relations::{sorted_by, total_ordering};

use crate::error::EngineError;
use crate::float_bits::{Float64, finite_bits, le_bits, lt_bits};
use crate::text::{blank, is_blank};

verus! {

/// What a benchmark compares and what it asks of the evidence.
#[derive(Debug, Clone, PartialEq)]
pub struct BenchmarkPlan {
    pub name: String,
    pub baseline_name: String,
    pub candidate_name: String,
    pub input_rows: usize,
    pub repeat: usize,
    pub minimum_speedup: Float64,
    pub max_noise_ratio: Float64,
}

/// The bit pattern of `1.0`.
pub open spec fn one_bits() -> u64 {
    0x3ff0_0000_0000_0000
}

/// Why a plan is refused, if it is: a blank name, no rows or repeats, a
/// required speedup that is not finite or not above 1, a noise ratio that is
/// not finite or below 1.
pub open spec fn plan_error(p: BenchmarkPlan) -> Option<&'static str> {
    if is_blank(p.name@) || is_blank(p.baseline_name@) || is_blank(p.candidate_name@) {
        Some("benchmark names must not be empty")
    } else if p.input_rows == 0 || p.repeat == 0 {
        Some("benchmark input_rows and repeat must be greater than zero")
    } else if !finite_bits(p.minimum_speedup.bits) || le_bits(p.minimum_speedup.bits, one_bits()) {
        Some("minimum_speedup must be finite and greater than 1")
    } else if !finite_bits(p.max_noise_ratio.bits) || lt_bits(p.max_noise_ratio.bits, one_bits()) {
        Some("max_noise_ratio must be finite and at least 1")
    } else {
        None
    }
}

impl BenchmarkPlan {
    pub fn validate(&self) -> (r: Result<(), EngineError>)
        ensures
            match plan_error(*self) {
                Some(context) => r == Err::<(), EngineError>(EngineError::InvalidConfig { context }),
                None => r is Ok,
            },
    {
        if blank(self.name.as_str()) || blank(self.baseline_name.as_str()) || blank(self.candidate_name.as_str()) {
            return Err(EngineError::InvalidConfig { context: "benchmark names must not be empty" });
        }
        if self.input_rows == 0 || self.repeat == 0 {
            return Err(EngineError::InvalidConfig { context: "benchmark input_rows and repeat must be greater than zero" });
        }
        let one = Float64::one();
        if !self.minimum_speedup.is_finite() || self.minimum_speedup.le(&one) {
            return Err(EngineError::InvalidConfig { context: "minimum_speedup must be finite and greater than 1" });
        }
        if !self.max_noise_ratio.is_finite() || self.max_noise_ratio.lt(&one) {
            return Err(EngineError::InvalidConfig { context: "max_noise_ratio must be finite and at least 1" });
        }
        Ok(())
    }
}

/// Timings of the two implementations, and whether their outputs agreed.
#[derive(Debug, Clone, PartialEq)]
pub struct BenchmarkObservation {
    pub baseline_nanos: Vec<u128>,
    pub candidate_nanos: Vec<u128>,
    pub outputs_match: bool,
}

/// Order statistics of a set of timings. The mean is `total_nanos / samples`.
#[derive(Debug, Clone, Copy, PartialEq, Eq)]
pub struct BenchmarkSummary {
    pub samples: usize,
    pub min_nanos: u128,
    pub median_nanos: u128,
    pub max_nanos: u128,
    pub total_nanos: u128,
}

/// The outcome of a benchmark.
#[derive(Debug, Clone, Copy, PartialEq, Eq, Structural)]
pub enum BenchmarkDecision {
    CandidateWins,
    KeepBaseline,
    Inconclusive,
}

/// The timings in ascending order.
pub open spec fn ascending(s: Seq<u128>) -> Seq<u128> {
    s.sort_by(|x: u128, y: u128| x <= y)
}

/// The sum of the timings.
pub open spec fn seq_sum(s: Seq<u128>) -> int
    decreases s.len(),
{
    if s.len() == 0 {
        0
    } else {
        seq_sum(s.drop_last()) + s.last()
    }
}

/// The median of ascending timings: the middle one, or the mean of the two
/// middle ones rounded down.
pub open spec fn median_of(s: Seq<u128>) -> int {
    let m = (s.len() / 2) as int;
    if s.len() % 2 == 0 {
        (s[m - 1] + s[m]) / 2
    } else {
        s[m] as int
    }
}

/// Whether summing these timings, and the two middle ones, stays within `u128`.
pub open spec fn summary_fits(s: Seq<u128>) -> bool {
    &&& seq_sum(s) <= u128::MAX
    &&& (s.len() > 0 && s.len() % 2 == 0) ==> ascending(s)[(s.len() / 2) as int - 1] + ascending(s)[(s.len() / 2) as int] <= u128::MAX
}

/// Sorts the timings in ascending order.
#[verifier::external_body]
fn sort_ascending(v: &mut Vec<u128>)
    ensures
        sorted_by(final(v)@, |x: u128, y: u128| x <= y),
        final(v)@.to_multiset() == old(v)@.to_multiset(),
{
    v.sort_unstable();
}

proof fn lemma_seq_sum_prefix(s: Seq<u128>, i: int)
    requires
        0 <= i <= s.len(),
    ensures
        seq_sum(s.take(i)) <= seq_sum(s),
    decreases s.len() - i,
{
    if i < s.len() {
        lemma_seq_sum_prefix(s, i + 1);
        assert(s.take(i + 1).drop_last() =~= s.take(i));
    } else {
        assert(s.take(i) =~= s);
    }
}

/// Whether `summarize_samples` can sum these timings: their total, and the
/// sum of the two middle ones, fit in `u128`.
pub fn samples_fit(samples: &[u128]) -> (r: bool)
    ensures
        r == summary_fits(samples@),
{
    let mut total: u128 = 0;
    let mut sorted: Vec<u128> = Vec::with_capacity(samples.len());
    for i in 0..samples.len()
        invariant
            total == seq_sum(samples@.take(i as int)),
            sorted@ == samples@.take(i as int),
    {
        proof {
            assert(samples@.take(i + 1).drop_last() =~= samples@.take(i as int));
        }
        if total > u128::MAX - samples[i] {
            proof {
                lemma_seq_sum_prefix(samples@, i + 1);
            }
            return false;
        }
        total = total + samples[i];
        sorted.push(samples[i]);
        proof {
            assert(sorted@ =~= samples@.take(i + 1));
        }
    }
    proof {
        assert(samples@.take(samples@.len() as int) =~= samples@);
    }
    sort_ascending(&mut sorted);
    proof {
        let leq = |x: u128, y: u128| x <= y;
        samples@.lemma_sort_by_ensures(leq);
        assert(total_ordering(leq));
        vstd::seq_lib::lemma_sorted_unique(sorted@, ascending(samples@), leq);
        assert(sorted@ == ascending(samples@));
        assert(sorted@.len() == samples@.len()) by {
            broadcast use vstd::seq_lib::group_to_multiset_ensures;
            assert(sorted@.to_multiset().len() == samples@.to_multiset().len());
        }
    }
    let n = sorted.len();
    if n > 0 && n % 2 == 0 {
        let middle = n / 2;
        sorted[middle - 1] <= u128::MAX - sorted[middle]
    } else {
        true
    }
}

/// Summarizes timings: count, least, median, greatest and sum; `None` for no timings.
pub fn summarize_samples(samples: &[u128]) -> (r: Option<BenchmarkSummary>)
    requires
        summary_fits(samples@),
    ensures
        samples@.len() == 0 <==> r is None,
        r matches Some(x) ==> {
            let s = ascending(samples@);
            &&& x.samples == samples@.len()
            &&& x.min_nanos == s[0]
            &&& x.median_nanos == median_of(s)
            &&& x.max_nanos == s[s.len() - 1]
            &&& x.total_nanos == seq_sum(samples@)
        },
{
    if samples.len() == 0 {
        return None;
    }
    let mut total: u128 = 0;
    let mut sorted: Vec<u128> = Vec::with_capacity(samples.len());
    for i in 0..samples.len()
        invariant
            summary_fits(samples@),
            total == seq_sum(samples@.take(i as int)),
            sorted@ == samples@.take(i as int),
    {
        proof {
            assert(samples@.take(i + 1).drop_last() =~= samples@.take(i as int));
            lemma_seq_sum_prefix(samples@, i + 1);
        }
        total = total + samples[i];
        sorted.push(samples[i]);
        proof {
            assert(sorted@ =~= samples@.take(i + 1));
        }
    }
    proof {
        assert(samples@.take(samples@.len() as int) =~= samples@);
    }
    sort_ascending(&mut sorted);
    proof {
        let leq = |x: u128, y: u128| x <= y;
        samples@.lemma_sort_by_ensures(leq);
        assert(total_ordering(leq));
        vstd::seq_lib::lemma_sorted_unique(sorted@, ascending(samples@), leq);
        assert(sorted@ == ascending(samples@));
        assert(sorted@.len() == samples@.len()) by {
            broadcast use vstd::seq_lib::group_to_multiset_ensures;
            assert(sorted@.to_multiset().len() == samples@.to_multiset().len());
        }
    }
    let n = sorted.len();
    let middle = n / 2;
    let median = if n % 2 == 0 {
        (sorted[middle - 1] + sorted[middle]) / 2
    } else {
        sorted[middle]
    };
    Some(BenchmarkSummary {
        samples: n,
        min_nanos: sorted[0],
        median_nanos: median,
        max_nanos: sorted[n - 1],
        total_nanos: total,
    })
}

} // verus!

verus! {

/// The error with which benchmark evidence is refused, if any: a refused
/// plan, outputs that differ, then no baseline or no candidate timings.
pub open spec fn evidence_error(p: BenchmarkPlan, o: BenchmarkObservation) -> Option<EngineError> {
    if plan_error(p) is Some {
        Some(EngineError::InvalidConfig { context: plan_error(p)->0 })
    } else if !o.outputs_match {
        Some(EngineError::InvalidConfig { context: "benchmark candidate output does not match baseline" })
    } else if o.baseline_nanos@.len() == 0 {
        Some(EngineError::EmptyInput { context: "baseline benchmark samples" })
    } else if o.candidate_nanos@.len() == 0 {
        Some(EngineError::EmptyInput { context: "candidate benchmark samples" })
    } else {
        None
    }
}

/// `x` summarizes `s` as `summarize_samples` does.
pub open spec fn summarizes(x: BenchmarkSummary, s: Seq<u128>) -> bool {
    let a = ascending(s);
    &&& x.samples == s.len()
    &&& x.min_nanos == a[0]
    &&& x.median_nanos == median_of(a)
    &&& x.max_nanos == a[a.len() - 1]
    &&& x.total_nanos == seq_sum(s)
}

/// Checks the plan and the evidence and summarizes both sets of timings.
pub fn check_benchmark(plan: &BenchmarkPlan, observation: &BenchmarkObservation) -> (r: Result<(BenchmarkSummary, BenchmarkSummary), EngineError>)
    requires
        plan_error(*plan) is None && observation.outputs_match ==> summary_fits(observation.baseline_nanos@),
        plan_error(*plan) is None && observation.outputs_match && observation.baseline_nanos@.len() > 0
            ==> summary_fits(observation.candidate_nanos@),
    ensures
        match evidence_error(*plan, *observation) {
            Some(e) => r == Err::<(BenchmarkSummary, BenchmarkSummary), EngineError>(e),
            None => r matches Ok((b, c)) && summarizes(b, observation.baseline_nanos@) && summarizes(c, observation.candidate_nanos@),
        },
{
    plan.validate()?;
    if !observation.outputs_match {
        return Err(EngineError::InvalidConfig { context: "benchmark candidate output does not match baseline" });
    }
    let baseline = match summarize_samples(observation.baseline_nanos.as_slice()) {
        Some(s) => s,
        None => {
            return Err(EngineError::EmptyInput { context: "baseline benchmark samples" });
        },
    };
    let candidate = match summarize_samples(observation.candidate_nanos.as_slice()) {
        Some(s) => s,
        None => {
            return Err(EngineError::EmptyInput { context: "candidate benchmark samples" });
        },
    };
    Ok((baseline, candidate))
}

/// The decision: inconclusive with fewer timings than the plan repeats or a
/// noise ratio above the plan's limit, else a win for the candidate when
/// its speedup reaches the plan's minimum, else the baseline stays.
pub open spec fn decision_of(
    p: BenchmarkPlan,
    baseline: BenchmarkSummary,
    candidate: BenchmarkSummary,
    speedup: Float64,
    baseline_noise: Float64,
    candidate_noise: Float64,
) -> BenchmarkDecision {
    if baseline.samples < p.repeat || candidate.samples < p.repeat || lt_bits(p.max_noise_ratio.bits, baseline_noise.bits)
        || lt_bits(p.max_noise_ratio.bits, candidate_noise.bits) {
        BenchmarkDecision::Inconclusive
    } else if le_bits(p.minimum_speedup.bits, speedup.bits) {
        BenchmarkDecision::CandidateWins
    } else {
        BenchmarkDecision::KeepBaseline
    }
}

/// Decides a benchmark from the summaries and from the ratios computed from
/// them: the speedup (baseline mean over candidate mean) and each side's
/// noise (greatest over least timing, the least taken as at least 1).
pub fn benchmark_decision(
    plan: &BenchmarkPlan,
    baseline: &BenchmarkSummary,
    candidate: &BenchmarkSummary,
    speedup: Float64,
    baseline_noise: Float64,
    candidate_noise: Float64,
) -> (r: BenchmarkDecision)
    ensures
        r == decision_of(*plan, *baseline, *candidate, speedup, baseline_noise, candidate_noise),
        r == BenchmarkDecision::Inconclusive <==> baseline.samples < plan.repeat || candidate.samples < plan.repeat
            || lt_bits(plan.max_noise_ratio.bits, baseline_noise.bits) || lt_bits(plan.max_noise_ratio.bits, candidate_noise.bits),
        r == BenchmarkDecision::KeepBaseline <==> baseline.samples >= plan.repeat && candidate.samples >= plan.repeat
            && !lt_bits(plan.max_noise_ratio.bits, baseline_noise.bits) && !lt_bits(plan.max_noise_ratio.bits, candidate_noise.bits)
            && !le_bits(plan.minimum_speedup.bits, speedup.bits),
        // The candidate wins only with enough timings, little noise and the required speedup.
        r == BenchmarkDecision::CandidateWins ==> baseline.samples >= plan.repeat && candidate.samples >= plan.repeat
            && !lt_bits(plan.max_noise_ratio.bits, baseline_noise.bits) && !lt_bits(plan.max_noise_ratio.bits, candidate_noise.bits)
            && le_bits(plan.minimum_speedup.bits, speedup.bits),
{
    let insufficient = baseline.samples < plan.repeat || candidate.samples < plan.repeat;
    let noisy = baseline_noise.gt(&plan.max_noise_ratio) || candidate_noise.gt(&plan.max_noise_ratio);
    if insufficient || noisy {
        BenchmarkDecision::Inconclusive
    } else if speedup.ge(&plan.minimum_speedup) {
        BenchmarkDecision::CandidateWins
    } else {
        BenchmarkDecision::KeepBaseline
    }
}

/// The three outcomes of a benchmark, each by the evidence alone: it is
/// inconclusive exactly when either side has fewer timings than the plan
/// repeats or either side's noise exceeds the plan's limit; otherwise the
/// candidate wins exactly when its speedup reaches the plan's minimum, and
/// the baseline stays exactly when it does not.
pub proof fn benchmark_outcome_follows_evidence(
    p: BenchmarkPlan,
    baseline: BenchmarkSummary,
    candidate: BenchmarkSummary,
    speedup: Float64,
    baseline_noise: Float64,
    candidate_noise: Float64,
)
    ensures
        ({
            let d = decision_of(p, baseline, candidate, speedup, baseline_noise, candidate_noise);
            let inconclusive = baseline.samples < p.repeat || candidate.samples < p.repeat
                || lt_bits(p.max_noise_ratio.bits, baseline_noise.bits) || lt_bits(p.max_noise_ratio.bits, candidate_noise.bits);
            &&& d == BenchmarkDecision::Inconclusive <==> inconclusive
            &&& d == BenchmarkDecision::CandidateWins <==> !inconclusive && le_bits(p.minimum_speedup.bits, speedup.bits)
            &&& d == BenchmarkDecision::KeepBaseline <==> !inconclusive && !le_bits(p.minimum_speedup.bits, speedup.bits)
        }),
{
}

/// The median of a summary lies between its least and greatest timing.
pub proof fn summary_median_between_extremes(x: BenchmarkSummary, s: Seq<u128>)
    requires
        s.len() > 0,
        summarizes(x, s),
    ensures
        x.min_nanos <= x.median_nanos <= x.max_nanos,
{
    let leq = |a: u128, b: u128| a <= b;
    s.lemma_sort_by_ensures(leq);
    let a = ascending(s);
    assert(a.len() == s.len()) by {
        broadcast use vstd::seq_lib::group_to_multiset_ensures;
        assert(a.to_multiset().len() == s.to_multiset().len());
    }
    let m = (a.len() / 2) as int;
    if a.len() > 1 {
        assert(leq(a[0], a[m]));
        assert(leq(a[m], a[a.len() - 1]) || m == a.len() - 1);
        if a.len() % 2 == 0 {
            assert(leq(a[0], a[m - 1]) || m - 1 == 0);
            assert(leq(a[m - 1], a[a.len() - 1]));
        }
    }
}

} // verus!
