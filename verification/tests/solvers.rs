use knapsack::exhaustive::{solve_recursive, solve_recursive_memo};
use knapsack::evolution::solve_evolution;
use knapsack::greedy::greedy_pass;
use knapsack::levels::{generate_items, get_levels};
use knapsack::masks::{total_item_value, total_item_weight};
use knapsack::problem::{Item, KnapsackProblem, KnapsackSolution};
use knapsack::tabular::solve_tabular_dp;
use rand::rngs::StdRng;
use rand::SeedableRng;

fn problem(pairs: &[(u64, u64)], capacity: u64) -> KnapsackProblem {
    KnapsackProblem {
        items: pairs
            .iter()
            .map(|&(weight, value)| Item { weight, value })
            .collect(),
        capacity,
    }
}

/// Items by value per weight as a float, best first, equal densities in
/// index order (a stable sort).
fn density_order(p: &KnapsackProblem) -> Vec<usize> {
    let mut order: Vec<usize> = (0..p.items.len()).collect();
    order.sort_by(|&a, &b| {
        let da = p.items[a].value as f64 / p.items[a].weight as f64;
        let db = p.items[b].value as f64 / p.items[b].weight as f64;
        db.partial_cmp(&da).unwrap()
    });
    order
}

fn greedy_baseline(p: &KnapsackProblem) -> KnapsackSolution {
    greedy_pass(p, &density_order(p))
}

fn classic() -> KnapsackProblem {
    problem(&[(10, 60), (20, 100), (30, 120)], 50)
}

#[test]
fn total_value_and_weight_sum_the_chosen_items() {
    let p = classic();
    let s = KnapsackSolution { selected: vec![0, 2] };
    assert_eq!(s.total_value(&p), 180);
    assert_eq!(s.total_weight(&p), 40);
    let empty = KnapsackSolution { selected: vec![] };
    assert_eq!(empty.total_value(&p), 0);
    assert_eq!(empty.total_weight(&p), 0);
}

#[test]
fn is_valid_accepts_a_feasible_answer() {
    let p = classic();
    assert!(KnapsackSolution { selected: vec![1, 2] }.is_valid(&p));
    assert!(KnapsackSolution { selected: vec![] }.is_valid(&p));
}

#[test]
fn is_valid_rejects_an_index_out_of_range() {
    let p = classic();
    assert!(!KnapsackSolution { selected: vec![0, 3] }.is_valid(&p));
}

#[test]
fn is_valid_rejects_a_repeated_index() {
    let p = classic();
    assert!(!KnapsackSolution { selected: vec![0, 0] }.is_valid(&p));
}

#[test]
fn indices_ok_checks_range_and_repetition() {
    let p = classic();
    assert!(KnapsackSolution { selected: vec![2, 0, 1] }.indices_ok(&p));
    assert!(!KnapsackSolution { selected: vec![2, 3] }.indices_ok(&p));
    assert!(!KnapsackSolution { selected: vec![1, 2, 1] }.indices_ok(&p));
}

#[test]
fn checked_totals_report_overflow() {
    let p = problem(&[(u64::MAX, 3), (1, u64::MAX)], 5);
    let both = KnapsackSolution { selected: vec![0, 1] };
    assert_eq!(both.checked_total_weight(&p), None);
    assert_eq!(both.checked_total_value(&p), None);
    let first = KnapsackSolution { selected: vec![0] };
    assert_eq!(first.checked_total_weight(&p), Some(u64::MAX));
    assert_eq!(first.checked_total_value(&p), Some(3));
    let s = KnapsackSolution { selected: vec![0, 2] };
    assert_eq!(s.checked_total_value(&classic()), Some(180));
}

#[test]
fn is_valid_rejects_an_overweight_answer() {
    let p = classic();
    assert!(!KnapsackSolution { selected: vec![0, 1, 2] }.is_valid(&p));
}

#[test]
fn greedy_takes_best_density_first() {
    let s = greedy_baseline(&classic());
    assert_eq!(s.selected, vec![0, 1]);
    assert_eq!(s.total_value(&classic()), 160);
}

#[test]
fn greedy_breaks_density_ties_by_index() {
    let p = problem(&[(2, 4), (1, 2), (3, 6)], 3);
    assert_eq!(greedy_baseline(&p).selected, vec![0, 1]);
}

#[test]
fn greedy_puts_weightless_items_first() {
    let p = problem(&[(1, 100), (0, 1), (5, 1)], 1);
    assert_eq!(greedy_baseline(&p).selected, vec![1, 0]);
}

#[test]
fn greedy_keeps_index_order_where_float_densities_coincide() {
    // Both densities round to the same float, so the first item is visited
    // first and fills the knapsack.
    let big: u64 = 1 << 53;
    let p = problem(&[(1, big), (1, big + 1)], 1);
    assert_eq!(density_order(&p), vec![0, 1]);
    assert_eq!(greedy_baseline(&p).selected, vec![0]);
}

#[test]
fn greedy_pass_follows_the_given_order() {
    let p = classic();
    assert_eq!(greedy_pass(&p, &vec![2, 1, 0]).selected, vec![2, 1]);
    assert_eq!(greedy_pass(&p, &vec![1, 2, 0]).selected, vec![1, 2]);
    assert_eq!(greedy_pass(&p, &vec![0, 2, 1]).selected, vec![0, 2]);
    assert!(greedy_pass(&p, &vec![]).selected.is_empty());
}

#[test]
fn greedy_pass_skips_what_no_longer_fits() {
    let p = problem(&[(4, 1), (3, 1), (2, 1), (1, 1)], 6);
    assert_eq!(greedy_pass(&p, &vec![0, 1, 2, 3]).selected, vec![0, 2]);
}

#[test]
fn greedy_on_no_items_is_empty() {
    let p = problem(&[], 10);
    assert!(greedy_baseline(&p).selected.is_empty());
}

#[test]
fn recursive_finds_the_optimum() {
    let s = solve_recursive(&classic());
    assert_eq!(s.selected, vec![2, 1]);
    assert_eq!(s.total_value(&classic()), 220);
    assert!(s.is_valid(&classic()));
}

#[test]
fn recursive_keeps_the_first_choice_on_equal_values() {
    let p = problem(&[(1, 1), (1, 1), (1, 1)], 2);
    assert_eq!(solve_recursive(&p).selected, vec![2, 1]);
}

#[test]
fn memo_gives_the_same_answer_as_recursive() {
    for (pairs, cap) in [
        (vec![(10, 60), (20, 100), (30, 120)], 50),
        (vec![(5, 10), (4, 40), (6, 30), (3, 50)], 10),
        (vec![(2, 3), (3, 4), (4, 5), (5, 6)], 5),
        (vec![(1, 1), (1, 1), (1, 1)], 2),
    ] {
        let p = problem(&pairs, cap);
        assert_eq!(solve_recursive_memo(&p).selected, solve_recursive(&p).selected);
    }
}

#[test]
fn tabular_finds_the_optimum() {
    let s = solve_tabular_dp(&classic());
    assert_eq!(s.selected, vec![2, 1]);
    assert_eq!(s.total_value(&classic()), 220);
    let p = problem(&[(1, 1), (1, 1), (1, 1)], 2);
    assert_eq!(solve_tabular_dp(&p).selected, vec![1, 0]);
}

#[test]
fn exact_solvers_agree_on_the_optimal_value() {
    let p = problem(&[(5, 10), (4, 40), (6, 30), (3, 50)], 10);
    let r = solve_recursive(&p).total_value(&p);
    let d = solve_tabular_dp(&p).total_value(&p);
    assert_eq!(r, 90);
    assert_eq!(d, 90);
    assert!(greedy_baseline(&p).total_value(&p) <= r);
}

#[test]
fn tabular_gives_up_on_a_huge_table() {
    let p = problem(&[(1, 1), (2, 2)], 1_000_000_000);
    assert!(solve_tabular_dp(&p).selected.is_empty());
}

#[test]
fn tabular_takes_weightless_items() {
    let p = problem(&[(0, 5), (1, 1)], 0);
    assert_eq!(solve_tabular_dp(&p).selected, vec![0]);
}

#[test]
fn recursive_stops_when_no_room_is_left() {
    // With no room the search ends at once, even for an item that weighs
    // nothing: the optimality law assumes positive weights for this reason.
    let p = problem(&[(0, 5), (1, 1)], 0);
    assert!(solve_recursive(&p).selected.is_empty());
}

#[test]
fn totals_report_overflow() {
    let p = problem(&[(u64::MAX, u64::MAX), (1, 1)], 5);
    assert_eq!(total_item_value(&p.items), None);
    assert_eq!(total_item_weight(&p.items), None);
    assert_eq!(total_item_value(&classic().items), Some(280));
    assert_eq!(total_item_weight(&classic().items), Some(60));
}

#[test]
fn solvers_on_a_generated_level_are_feasible_and_exact_ones_agree() {
    let level = get_levels()[4];
    let mut rng = StdRng::seed_from_u64(42 + 5 * 31337);
    let items = generate_items(&level, &mut rng);
    let total = total_item_weight(&items).unwrap();
    let p = KnapsackProblem { items, capacity: total * 3 / 10 };
    let r = solve_recursive_memo(&p);
    let d = solve_tabular_dp(&p);
    let g = greedy_baseline(&p);
    let e = solve_evolution(&p);
    for s in [&r, &d, &g, &e] {
        assert!(s.is_valid(&p));
    }
    assert_eq!(r.total_value(&p), d.total_value(&p));
    assert!(g.total_value(&p) <= d.total_value(&p));
    assert!(e.total_value(&p) <= d.total_value(&p));
    assert_eq!(greedy_baseline(&p).selected, g.selected);
}
