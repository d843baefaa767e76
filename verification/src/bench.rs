//! How the benchmark judges a solver's answer on a level, and the tally
//! over all levels.

use crate::masks::{items_value, items_weight, lemma_mask_le_all, lemma_mask_of_sums, mask_of};
use crate::problem::{
    indices_distinct, indices_in_range, is_valid_selection, sum_values, sum_weights, Item,
    KnapsackProblem, KnapsackSolution,
};
use vstd::prelude::*;

verus! {

/// The verdict on one level.
#[derive(Debug, Clone, Copy)]
pub enum Status {
    /// Feasible, in time, worth something, and at least the greedy value.
    Pass,
    /// Feasible, in time, worth something, but below the greedy value.
    Weak,
    /// Feasible and worth something, but too slow.
    Slow,
    /// Feasible but worth nothing.
    Empty,
    /// Not feasible.
    Invalid,
    /// The solver did not answer in time at all.
    Timeout,
    /// Not run, because an earlier level timed out.
    Skipped,
}

impl Status {
    /// The status as printed.
    pub fn label(&self) -> (s: &'static str)
        ensures
            *self is Pass ==> s@ == "PASS"@,
            *self is Weak ==> s@ == "WEAK"@,
            *self is Slow ==> s@ == "SLOW"@,
            *self is Empty ==> s@ == "EMPTY"@,
            *self is Invalid ==> s@ == "INVALID"@,
            *self is Timeout ==> s@ == "TIMEOUT"@,
            *self is Skipped ==> s@ == "SKIPPED"@,
    {
        match self {
            Status::Pass => "PASS",
            Status::Weak => "WEAK",
            Status::Slow => "SLOW",
            Status::Empty => "EMPTY",
            Status::Invalid => "INVALID",
            Status::Timeout => "TIMEOUT",
            Status::Skipped => "SKIPPED",
        }
    }
}

/// The verdict for an answer that came back: invalid first, then empty,
/// then slow, then pass or weak against the greedy value.
pub open spec fn verdict(valid: bool, within_time: bool, your_value: int, greedy_value: int) -> Status {
    if !valid {
        Status::Invalid
    } else if your_value <= 0 {
        Status::Empty
    } else if !within_time {
        Status::Slow
    } else if your_value >= greedy_value {
        Status::Pass
    } else {
        Status::Weak
    }
}

/// Judges an answer that came back.
pub fn classify(valid: bool, within_time: bool, your_value: u64, greedy_value: u64) -> (s: Status)
    ensures
        s == verdict(valid, within_time, your_value as int, greedy_value as int),
{
    if !valid {
        Status::Invalid
    } else if your_value == 0 {
        Status::Empty
    } else if !within_time {
        Status::Slow
    } else if your_value >= greedy_value {
        Status::Pass
    } else {
        Status::Weak
    }
}

/// What the benchmark records of one level.
#[derive(Debug, Clone, Copy)]
pub struct RunOutcome {
    /// The answer's value, or 0 when it is not feasible.
    pub your_value: u64,
    pub greedy_value: u64,
    /// `your_value - greedy_value`, both read as `i64`.
    pub diff: i64,
    pub valid: bool,
    pub within_time: bool,
    pub status: Status,
}

/// The difference recorded between two values: both read as `i64` (as the
/// cast does), then subtracted.
pub open spec fn recorded_diff(your_value: u64, greedy_value: u64) -> int {
    (your_value as i64) - (greedy_value as i64)
}

/// Scoring an answer needs no sum beyond a `u64` and a difference to the
/// greedy value that an `i64` holds: the weight of distinct indices in
/// range, the value of a feasible answer, and the recorded difference.
pub open spec fn scoring_fits_spec(items: Seq<Item>, sel: Seq<usize>, cap: int, greedy_value: u64) -> bool {
    &&& indices_in_range(sel, items.len() as int) && indices_distinct(sel) ==> sum_weights(items, sel)
        <= u64::MAX
    &&& is_valid_selection(items, sel, cap) ==> sum_values(items, sel) <= u64::MAX
    &&& i64::MIN <= recorded_diff(
        (if is_valid_selection(items, sel, cap) {
            sum_values(items, sel)
        } else {
            0
        }) as u64,
        greedy_value,
    ) <= i64::MAX
}

/// Whether `score_solution` can score this answer: its sums fit in a `u64`
/// and the difference to the greedy value fits in an `i64`.
pub fn scoring_fits(solution: &KnapsackSolution, problem: &KnapsackProblem, greedy_value: u64) -> (r: bool)
    ensures
        r == scoring_fits_spec(problem.items@, solution.selected@, problem.capacity as int, greedy_value),
{
    let mut valid = false;
    if solution.indices_ok(problem) {
        match solution.checked_total_weight(problem) {
            Some(w) => {
                valid = w <= problem.capacity;
            },
            None => {
                return false;
            },
        }
    }
    let mut your_value: u64 = 0;
    if valid {
        match solution.checked_total_value(problem) {
            Some(v) => {
                your_value = v;
            },
            None => {
                return false;
            },
        }
    }
    let diff: i128 = (your_value as i64) as i128 - (greedy_value as i64) as i128;
    i64::MIN as i128 <= diff && diff <= i64::MAX as i128
}

/// Judges a solver's answer on a problem: feasibility, its value when
/// feasible (else 0), the difference to the greedy value, and the verdict.
pub fn score_solution(
    solution: &KnapsackSolution,
    problem: &KnapsackProblem,
    greedy_value: u64,
    within_time: bool,
) -> (r: RunOutcome)
    requires
        scoring_fits_spec(problem.items@, solution.selected@, problem.capacity as int, greedy_value),
    ensures
        r.valid == is_valid_selection(problem.items@, solution.selected@, problem.capacity as int),
        r.your_value == (if r.valid {
            sum_values(problem.items@, solution.selected@)
        } else {
            0
        }),
        r.greedy_value == greedy_value,
        r.diff == recorded_diff(r.your_value, greedy_value),
        r.within_time == within_time,
        r.status == verdict(r.valid, within_time, r.your_value as int, greedy_value as int),
{
    let valid = solution.is_valid(problem);
    let your_value = if valid {
        solution.total_value(problem)
    } else {
        0
    };
    let diff = your_value as i64 - greedy_value as i64;
    let status = classify(valid, within_time, your_value, greedy_value);
    RunOutcome { your_value, greedy_value, diff, valid, within_time, status }
}

/// When all weights and all values together fit in a `u64`, every answer
/// can be scored without overflow in its sums.
pub proof fn lemma_scoring_sums_fit(problem: KnapsackProblem, sel: Seq<usize>)
    requires
        items_weight(problem.items@) <= u64::MAX,
        items_value(problem.items@) <= u64::MAX,
        problem.items@.len() <= usize::MAX,
    ensures
        indices_in_range(sel, problem.items@.len() as int) && indices_distinct(sel) ==> sum_weights(
            problem.items@,
            sel,
        ) <= u64::MAX && sum_values(problem.items@, sel) <= u64::MAX,
{
    let items = problem.items@;
    let n = items.len() as int;
    if indices_in_range(sel, n) && indices_distinct(sel) {
        lemma_mask_of_sums(items, sel, n);
        lemma_mask_le_all(items, mask_of(sel, n), n);
    }
}

/// The outcome recorded for a level whose solver did not answer in time.
pub fn timed_out(greedy_value: u64) -> (r: RunOutcome)
    ensures
        r == (RunOutcome {
            your_value: 0,
            greedy_value,
            diff: 0,
            valid: false,
            within_time: false,
            status: Status::Timeout,
        }),
{
    RunOutcome {
        your_value: 0,
        greedy_value,
        diff: 0,
        valid: false,
        within_time: false,
        status: Status::Timeout,
    }
}

/// The outcome recorded for a level skipped after a timeout.
pub open spec fn skipped_outcome(greedy_value: u64) -> RunOutcome {
    RunOutcome {
        your_value: 0,
        greedy_value,
        diff: 0,
        valid: false,
        within_time: false,
        status: Status::Skipped,
    }
}

/// A skipped level is recorded as skipped, against its own greedy value,
/// with no answer: no value, no difference, not feasible, not in time; so it
/// counts neither as beaten nor as a timeout and adds nothing to the tally.
pub proof fn lemma_skipped_records_nothing(results: Seq<RunOutcome>, greedy_value: u64)
    ensures
        skipped_outcome(greedy_value).status is Skipped,
        skipped_outcome(greedy_value).greedy_value == greedy_value,
        skipped_outcome(greedy_value).your_value == 0,
        skipped_outcome(greedy_value).diff == 0,
        !skipped_outcome(greedy_value).valid,
        !skipped_outcome(greedy_value).within_time,
        tally(results.push(skipped_outcome(greedy_value)), results.len() as int + 1) == tally(
            results,
            results.len() as int,
        ),
{
    lemma_tally_push(results, skipped_outcome(greedy_value));
}

/// The outcome recorded for a level skipped after a timeout.
pub fn skipped(greedy_value: u64) -> (r: RunOutcome)
    ensures
        r == skipped_outcome(greedy_value),
{
    RunOutcome {
        your_value: 0,
        greedy_value,
        diff: 0,
        valid: false,
        within_time: false,
        status: Status::Skipped,
    }
}

/// Records the outcome of the next level of a run (the levels' greedy values
/// in order). A timeout ends the run: every later level is then recorded as
/// skipped, and `true` says that the run stops.
pub fn record_level(results: &mut Vec<RunOutcome>, outcome: RunOutcome, greedy_values: &Vec<u64>) -> (stop: bool)
    requires
        old(results)@.len() < greedy_values@.len(),
    ensures
        stop == (outcome.status is Timeout),
        final(results)@.len() == (if stop {
            greedy_values@.len() as int
        } else {
            old(results)@.len() as int + 1
        }),
        final(results)@.take(old(results)@.len() as int + 1) == old(results)@.push(outcome),
        forall|j: int|
            old(results)@.len() < j < final(results)@.len() ==> #[trigger] final(results)@[j]
                == skipped_outcome(greedy_values@[j]),
{
    let ghost start = results@;
    results.push(outcome);
    let stop = match outcome.status {
        Status::Timeout => true,
        _ => false,
    };
    if stop {
        let mut j: usize = results.len();
        while j < greedy_values.len()
            invariant
                start.len() < greedy_values@.len(),
                start.len() + 1 <= j <= greedy_values@.len(),
                results@.len() == j,
                results@.take(start.len() as int + 1) == start.push(outcome),
                forall|k: int| start.len() < k < j ==> #[trigger] results@[k] == skipped_outcome(greedy_values@[k]),
            decreases greedy_values@.len() - j,
        {
            let ghost before = results@;
            results.push(skipped(greedy_values[j]));
            proof {
                assert(results@.take(start.len() as int + 1) =~= before.take(start.len() as int + 1));
                assert forall|k: int| start.len() < k < j + 1 implies #[trigger] results@[k] == skipped_outcome(
                    greedy_values@[k],
                ) by {
                    if k < j {
                        assert(results@[k] == before[k]);
                    }
                }
            }
            j = j + 1;
        }
    } else {
        assert(results@.take(start.len() as int + 1) =~= results@);
    }
    stop
}

/// The tally over the levels.
#[derive(Debug, Clone, Copy)]
pub struct Summary {
    /// Levels answered feasibly, in time, worth something, and at least the greedy value.
    pub levels_beaten: usize,
    pub timeouts: usize,
    /// The summed differences of the feasible answers worth something.
    pub total_diff: i64,
}

/// The tally over the first `k` outcomes: levels beaten, timeouts, summed difference.
pub open spec fn tally(results: Seq<RunOutcome>, k: int) -> (int, int, int)
    decreases k,
{
    if k <= 0 {
        (0, 0, 0)
    } else {
        let (b, t, d) = tally(results, k - 1);
        let r = results[k - 1];
        if r.status is Timeout {
            (b, t + 1, d)
        } else if r.valid && r.your_value > 0 {
            (if r.your_value >= r.greedy_value && r.within_time {
                b + 1
            } else {
                b
            }, t, d + r.diff)
        } else {
            (b, t, d)
        }
    }
}

proof fn lemma_tally_counts(results: Seq<RunOutcome>, k: int)
    requires
        0 <= k,
    ensures
        0 <= tally(results, k).0 <= k,
        0 <= tally(results, k).1 <= k,
    decreases k,
{
    if k > 0 {
        lemma_tally_counts(results, k - 1);
    }
}

/// The tally over the first `k` outcomes depends on those outcomes alone.
proof fn lemma_tally_prefix(results: Seq<RunOutcome>, r: RunOutcome, k: int)
    requires
        0 <= k <= results.len(),
    ensures
        tally(results.push(r), k) == tally(results, k),
    decreases k,
{
    if k > 0 {
        lemma_tally_prefix(results, r, k - 1);
        assert(results.push(r)[k - 1] == results[k - 1]);
    }
}

/// What one more outcome does to the tally. A timeout counts one timeout
/// and nothing else. Any other outcome that is infeasible or worth nothing
/// changes neither the levels beaten nor the summed difference. A feasible
/// answer worth something adds its difference, and beats its level exactly
/// when it is worth at least the greedy value and came in time.
pub proof fn lemma_tally_push(results: Seq<RunOutcome>, r: RunOutcome)
    ensures
        ({
            let before = tally(results, results.len() as int);
            let after = tally(results.push(r), results.len() as int + 1);
            &&& r.status is Timeout ==> after == (before.0, before.1 + 1, before.2)
            &&& !(r.status is Timeout) ==> after.1 == before.1
            &&& !(r.status is Timeout) && (!r.valid || r.your_value == 0) ==> after == before
            &&& !(r.status is Timeout) && r.valid && r.your_value > 0 ==> {
                &&& after.2 == before.2 + r.diff
                &&& after.0 == before.0 + (if r.your_value >= r.greedy_value && r.within_time {
                    1int
                } else {
                    0int
                })
            }
        }),
{
    lemma_tally_prefix(results, r, results.len() as int);
    assert(results.push(r)[results.len() as int] == r);
}

/// The summed difference stays within an `i64` at every step of the tally.
pub open spec fn tally_fits_spec(results: Seq<RunOutcome>) -> bool {
    forall|k: int| 0 <= k <= results.len() ==> i64::MIN <= #[trigger] tally(results, k).2 <= i64::MAX
}

/// Whether `summarize` can tally these outcomes: the summed difference stays
/// within an `i64` at every step.
pub fn tally_fits(results: &Vec<RunOutcome>) -> (r: bool)
    ensures
        r == tally_fits_spec(results@),
{
    let mut total: i64 = 0;
    let mut k: usize = 0;
    while k < results.len()
        invariant
            k <= results@.len(),
            total == tally(results@, k as int).2,
            forall|j: int| 0 <= j <= k ==> i64::MIN <= #[trigger] tally(results@, j).2 <= i64::MAX,
        decreases results@.len() - k,
    {
        let r = &results[k];
        let counted = match r.status {
            Status::Timeout => false,
            _ => r.valid && r.your_value > 0,
        };
        if counted {
            let next: i128 = total as i128 + r.diff as i128;
            if next < i64::MIN as i128 || next > i64::MAX as i128 {
                assert(!(i64::MIN <= tally(results@, k + 1).2 <= i64::MAX));
                return false;
            }
            total = next as i64;
        }
        assert(total == tally(results@, k + 1).2);
        k = k + 1;
    }
    true
}

/// Tallies the outcomes: timeouts are counted; a feasible answer worth
/// something adds its difference and, if at least the greedy value and in
/// time, counts as a level beaten.
pub fn summarize(results: &Vec<RunOutcome>) -> (s: Summary)
    requires
        tally_fits_spec(results@),
    ensures
        s.levels_beaten == tally(results@, results@.len() as int).0,
        s.timeouts == tally(results@, results@.len() as int).1,
        s.total_diff == tally(results@, results@.len() as int).2,
{
    let mut levels_beaten: usize = 0;
    let mut timeouts: usize = 0;
    let mut total_diff: i64 = 0;
    let mut k: usize = 0;
    while k < results.len()
        invariant
            k <= results@.len(),
            forall|j: int| 0 <= j <= results@.len() ==> i64::MIN <= #[trigger] tally(results@, j).2 <= i64::MAX,
            (levels_beaten as int, timeouts as int, total_diff as int) == tally(results@, k as int),
        decreases results@.len() - k,
    {
        proof {
            lemma_tally_counts(results@, k as int);
            assert(i64::MIN <= tally(results@, k + 1).2 <= i64::MAX);
        }
        let r = &results[k];
        match r.status {
            Status::Timeout => {
                timeouts = timeouts + 1;
            },
            _ => {
                if r.valid && r.your_value > 0 {
                    total_diff = total_diff + r.diff;
                    if r.your_value >= r.greedy_value && r.within_time {
                        levels_beaten = levels_beaten + 1;
                    }
                }
            },
        }
        k = k + 1;
    }
    Summary { levels_beaten, timeouts, total_diff }
}

} // verus!
