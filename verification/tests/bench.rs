use knapsack::bench::{
    classify, record_level, score_solution, scoring_fits, skipped, summarize, tally_fits, timed_out, Status,
};
use knapsack::problem::{Item, KnapsackProblem, KnapsackSolution};

fn classic() -> KnapsackProblem {
    KnapsackProblem {
        items: vec![
            Item { weight: 10, value: 60 },
            Item { weight: 20, value: 100 },
            Item { weight: 30, value: 120 },
        ],
        capacity: 50,
    }
}

#[test]
fn classify_gives_each_verdict() {
    assert_eq!(classify(false, true, 10, 5).label(), "INVALID");
    assert_eq!(classify(true, true, 0, 5).label(), "EMPTY");
    assert_eq!(classify(true, false, 10, 5).label(), "SLOW");
    assert_eq!(classify(true, true, 10, 5).label(), "PASS");
    assert_eq!(classify(true, true, 5, 5).label(), "PASS");
    assert_eq!(classify(true, true, 4, 5).label(), "WEAK");
    assert_eq!(Status::Timeout.label(), "TIMEOUT");
    assert_eq!(Status::Skipped.label(), "SKIPPED");
}

#[test]
fn scoring_a_feasible_answer() {
    let p = classic();
    let r = score_solution(&KnapsackSolution { selected: vec![2, 1] }, &p, 160, true);
    assert!(r.valid);
    assert_eq!(r.your_value, 220);
    assert_eq!(r.diff, 60);
    assert_eq!(r.status.label(), "PASS");
}

#[test]
fn scoring_a_weaker_answer() {
    let p = classic();
    let r = score_solution(&KnapsackSolution { selected: vec![0] }, &p, 160, true);
    assert_eq!(r.your_value, 60);
    assert_eq!(r.diff, -100);
    assert_eq!(r.status.label(), "WEAK");
}

#[test]
fn scoring_an_infeasible_answer() {
    let p = classic();
    let r = score_solution(&KnapsackSolution { selected: vec![0, 1, 2] }, &p, 160, true);
    assert!(!r.valid);
    assert_eq!(r.your_value, 0);
    assert_eq!(r.diff, -160);
    assert_eq!(r.status.label(), "INVALID");
}

#[test]
fn timeouts_and_skips_record_nothing() {
    let t = timed_out(7);
    assert_eq!((t.your_value, t.greedy_value, t.diff, t.valid), (0, 7, 0, false));
    assert_eq!(t.status.label(), "TIMEOUT");
    let s = skipped(7);
    assert_eq!(s.status.label(), "SKIPPED");
}

#[test]
fn summary_counts_beaten_levels_and_timeouts() {
    let p = classic();
    let results = vec![
        score_solution(&KnapsackSolution { selected: vec![2, 1] }, &p, 160, true),
        score_solution(&KnapsackSolution { selected: vec![0] }, &p, 160, true),
        score_solution(&KnapsackSolution { selected: vec![2, 1] }, &p, 160, false),
        score_solution(&KnapsackSolution { selected: vec![0, 1, 2] }, &p, 160, true),
        timed_out(160),
        skipped(160),
    ];
    let s = summarize(&results);
    assert_eq!(s.levels_beaten, 1);
    assert_eq!(s.timeouts, 1);
    assert_eq!(s.total_diff, 60 - 100 + 60);
}


#[test]
fn scoring_fits_on_ordinary_answers() {
    let p = classic();
    assert!(scoring_fits(&KnapsackSolution { selected: vec![2, 1] }, &p, 160));
    assert!(scoring_fits(&KnapsackSolution { selected: vec![0, 0, 7] }, &p, 160));
}

#[test]
fn scoring_does_not_fit_when_a_sum_overflows() {
    let p = KnapsackProblem {
        items: vec![Item { weight: u64::MAX, value: 1 }, Item { weight: 1, value: 1 }],
        capacity: u64::MAX,
    };
    assert!(!scoring_fits(&KnapsackSolution { selected: vec![0, 1] }, &p, 0));
    let q = KnapsackProblem {
        items: vec![Item { weight: 1, value: u64::MAX }, Item { weight: 1, value: 1 }],
        capacity: 5,
    };
    assert!(!scoring_fits(&KnapsackSolution { selected: vec![0, 1] }, &q, 0));
    // Too heavy to be feasible: the value is never summed.
    let r = KnapsackProblem { items: q.items.clone(), capacity: 1 };
    assert!(scoring_fits(&KnapsackSolution { selected: vec![0, 1] }, &r, 0));
}

#[test]
fn scoring_does_not_fit_when_the_difference_overflows() {
    let p = classic();
    // An infeasible answer against a greedy value read as `i64::MIN`.
    assert!(!scoring_fits(&KnapsackSolution { selected: vec![0, 1, 2] }, &p, 1 << 63));
    assert!(scoring_fits(&KnapsackSolution { selected: vec![0, 1, 2] }, &p, (1 << 63) - 1));
}

#[test]
fn tally_fits_until_the_summed_difference_overflows() {
    let p = KnapsackProblem {
        items: vec![Item { weight: 1, value: i64::MAX as u64 }],
        capacity: 1,
    };
    let best = score_solution(&KnapsackSolution { selected: vec![0] }, &p, 0, true);
    assert_eq!(best.diff, i64::MAX);
    assert!(tally_fits(&vec![best]));
    assert!(!tally_fits(&vec![best, best]));
    assert!(tally_fits(&vec![best, timed_out(0), skipped(0)]));
    assert!(tally_fits(&Vec::new()));
    let s = summarize(&vec![best, timed_out(0)]);
    assert_eq!(s.total_diff, i64::MAX);
}

#[test]
fn a_timeout_skips_the_remaining_levels() {
    let greedy = vec![10, 20, 30, 40];
    let p = classic();
    let mut results = Vec::new();
    let first = score_solution(&KnapsackSolution { selected: vec![0] }, &p, 10, true);
    assert!(!record_level(&mut results, first, &greedy));
    assert_eq!(results.len(), 1);
    assert!(record_level(&mut results, timed_out(20), &greedy));
    assert_eq!(results.len(), 4);
    assert_eq!(results[0].your_value, 60);
    assert_eq!(results[1].status.label(), "TIMEOUT");
    assert_eq!(results[2].status.label(), "SKIPPED");
    assert_eq!(results[2].greedy_value, 30);
    assert_eq!(results[3].status.label(), "SKIPPED");
    assert_eq!(results[3].greedy_value, 40);
}

#[test]
fn a_timeout_on_the_last_level_skips_nothing() {
    let greedy = vec![10];
    let mut results = Vec::new();
    assert!(record_level(&mut results, timed_out(10), &greedy));
    assert_eq!(results.len(), 1);
}
