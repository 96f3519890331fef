//! The diagnostic report: classifying a connect-with-fallback attempt and
//! summarizing how many of the individual tests passed.

use vstd::prelude::*;

verus! {

/// How one bounded connection attempt ended.
#[derive(Clone, Copy, Debug, PartialEq, Eq, Structural)]
pub enum ConnAttempt {
    Connected,
    Failed,
    TimedOut,
}

/// The verdict of a reachability test that tries a primary port and, when
/// that is refused, one fallback port.
#[derive(Clone, Copy, Debug, PartialEq, Eq, Structural)]
pub enum ConnectivityVerdict {
    /// The primary port accepted.
    ReachablePrimary,
    /// The primary port was refused but the fallback accepted.
    ReachableFallback,
    /// Neither port accepted.
    Unreachable,
    /// The primary attempt outlived its deadline.
    TimedOut,
}

/// The verdict from the primary attempt and, if one was made, the
/// fallback attempt.
pub open spec fn spec_connectivity_verdict(first: ConnAttempt, second: Option<ConnAttempt>) -> ConnectivityVerdict {
    match first {
        ConnAttempt::Connected => ConnectivityVerdict::ReachablePrimary,
        ConnAttempt::TimedOut => ConnectivityVerdict::TimedOut,
        ConnAttempt::Failed => match second {
            Some(ConnAttempt::Connected) => ConnectivityVerdict::ReachableFallback,
            _ => ConnectivityVerdict::Unreachable,
        },
    }
}

/// Classifies a primary-then-fallback reachability test.
pub fn connectivity_verdict(first: ConnAttempt, second: Option<ConnAttempt>) -> (r:
    ConnectivityVerdict)
    ensures
        r == spec_connectivity_verdict(first, second),
{
    match first {
        ConnAttempt::Connected => ConnectivityVerdict::ReachablePrimary,
        ConnAttempt::TimedOut => ConnectivityVerdict::TimedOut,
        ConnAttempt::Failed => match second {
            Some(ConnAttempt::Connected) => ConnectivityVerdict::ReachableFallback,
            _ => ConnectivityVerdict::Unreachable,
        },
    }
}

/// The overall judgement over all diagnostic tests.
#[derive(Clone, Copy, Debug, PartialEq, Eq, Structural)]
pub enum OverallStatus {
    /// Every test passed.
    Excellent,
    /// More passed than failed.
    Good,
    /// Some passed, but no more than failed.
    Partial,
    /// None passed.
    Poor,
}

impl OverallStatus {
    /// The label the report prints for this judgement.
    pub fn label(&self) -> (r: &'static str)
        ensures
            *self == OverallStatus::Excellent ==> r@ == "EXCELLENT"@,
            *self == OverallStatus::Good ==> r@ == "GOOD"@,
            *self == OverallStatus::Partial ==> r@ == "PARTIAL"@,
            *self == OverallStatus::Poor ==> r@ == "POOR"@,
    {
        match self {
            OverallStatus::Excellent => "EXCELLENT",
            OverallStatus::Good => "GOOD",
            OverallStatus::Partial => "PARTIAL",
            OverallStatus::Poor => "POOR",
        }
    }
}

/// How many entries are true.
pub open spec fn count_true(s: Seq<bool>) -> int
    decreases s.len(),
{
    if s.len() == 0 {
        0
    } else {
        count_true(s.drop_last()) + if s.last() {
            1int
        } else {
            0int
        }
    }
}

pub proof fn lemma_count_true_bounds(s: Seq<bool>)
    ensures
        0 <= count_true(s) <= s.len(),
    decreases s.len(),
{
    if s.len() > 0 {
        lemma_count_true_bounds(s.drop_last());
    }
}

/// The judgement for given pass and fail counts.
pub open spec fn spec_overall_status(passed: int, failed: int) -> OverallStatus {
    if failed == 0 {
        OverallStatus::Excellent
    } else if passed > failed {
        OverallStatus::Good
    } else if passed > 0 {
        OverallStatus::Partial
    } else {
        OverallStatus::Poor
    }
}

/// Counts of one report: how many tests ran, passed and failed, and the
/// judgement they add up to.
pub struct ReportSummary {
    pub total: u32,
    pub passed: u32,
    pub failed: u32,
    pub status: OverallStatus,
}

/// Summarizes the pass/fail outcomes of the diagnostic tests.
pub fn summarize_tests(results: &Vec<bool>) -> (r: ReportSummary)
    requires
        results@.len() <= u32::MAX,
    ensures
        r.total == results@.len(),
        r.passed == count_true(results@),
        r.failed == r.total - r.passed,
        r.status == spec_overall_status(r.passed as int, r.failed as int),
{
    let total = results.len() as u32;
    let mut passed: u32 = 0;
    let mut i: usize = 0;
    while i < results.len()
        invariant
            0 <= i <= results@.len() <= u32::MAX,
            passed == count_true(results@.take(i as int)),
            0 <= passed <= i,
        decreases results@.len() - i,
    {
        proof {
            assert(results@.take(i + 1).drop_last() =~= results@.take(i as int));
            assert(results@.take(i + 1).last() == results@[i as int]);
        }
        if results[i] {
            passed = passed + 1;
        }
        i = i + 1;
    }
    proof {
        assert(results@.take(results@.len() as int) =~= results@);
        lemma_count_true_bounds(results@);
    }
    let failed = total - passed;
    let status = if failed == 0 {
        OverallStatus::Excellent
    } else if passed > failed {
        OverallStatus::Good
    } else if passed > 0 {
        OverallStatus::Partial
    } else {
        OverallStatus::Poor
    };
    ReportSummary { total, passed, failed, status }
}

} // verus!
