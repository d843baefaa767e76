use knapsack::evolution::{
    crossover, evaluate, evolution_config, evolve, evolve_from, initialize, initialize_population, mutate,
    next_generation, repair, replace, select, solve_evolution, EvolutionConfig, Rate,
};
use knapsack::problem::{Item, KnapsackProblem};
use rand::rngs::StdRng;
use rand::SeedableRng;

fn problem(pairs: &[(u64, u64)], capacity: u64) -> KnapsackProblem {
    KnapsackProblem {
        items: pairs
            .iter()
            .map(|&(weight, value)| Item { weight, value })
            .collect(),
        capacity,
    }
}

fn weight_of(p: &KnapsackProblem, c: &[bool]) -> u64 {
    c.iter()
        .enumerate()
        .filter(|(_, &b)| b)
        .map(|(i, _)| p.items[i].weight)
        .sum()
}

fn value_of(p: &KnapsackProblem, c: &[bool]) -> u64 {
    c.iter()
        .enumerate()
        .filter(|(_, &b)| b)
        .map(|(i, _)| p.items[i].value)
        .sum()
}

fn config(population_size: usize, generations: usize, elite_count: usize, seed: usize) -> EvolutionConfig {
    EvolutionConfig {
        population_size,
        generations,
        elite_count,
        selection_rate: Rate { numerator: 2, denominator: 5 },
        mutation_rate: Rate { numerator: 1, denominator: 20 },
        seed,
    }
}

fn sample() -> KnapsackProblem {
    problem(
        &[(12, 4), (2, 2), (1, 1), (4, 10), (1, 2), (7, 7), (3, 9), (5, 3)],
        15,
    )
}

#[test]
fn initial_candidates_fit() {
    let p = sample();
    let pop = initialize(&p, &config(30, 0, 2, 7));
    assert_eq!(pop.len(), 30);
    for c in &pop {
        assert_eq!(c.len(), p.items.len());
        assert!(weight_of(&p, c) <= p.capacity);
    }
}

#[test]
fn initialization_depends_only_on_the_seed() {
    let p = sample();
    let a = initialize(&p, &config(10, 0, 2, 3));
    let b = initialize(&p, &config(10, 0, 2, 3));
    assert_eq!(a, b);
}

#[test]
fn initialization_visits_items_in_shuffled_order() {
    // Every item fills the knapsack, so a candidate holds exactly the first
    // item of its order. In index order that would always be item 0;
    // shuffled, it is each item about a tenth of the time.
    let p = problem(&[(5, 1); 10], 5);
    let mut rng = StdRng::seed_from_u64(11);
    let pop = initialize_population(&p, 400, &mut rng);
    let picked: Vec<usize> = pop
        .iter()
        .filter_map(|c| c.iter().position(|&b| b))
        .collect();
    assert_eq!(picked.len(), 400);
    let first = picked.iter().filter(|&&i| i == 0).count();
    assert!(first * 4 < picked.len());
    for i in 0..10 {
        assert!(picked.contains(&i));
    }
    for c in &pop {
        assert_eq!(c.iter().filter(|&&b| b).count(), 1);
    }
}

#[test]
fn initial_candidates_are_filled_greedily() {
    // Taking items in any order while they fit leaves no room for any item
    // that was left out.
    let p = sample();
    let pop = initialize(&p, &config(30, 0, 2, 8));
    for c in &pop {
        let w = weight_of(&p, c);
        for (j, it) in p.items.iter().enumerate() {
            if !c[j] {
                assert!(w + it.weight > p.capacity);
            }
        }
    }
}

#[test]
fn evaluate_sorts_by_fitness_best_first() {
    let p = problem(&[(3, 5), (4, 6), (5, 7)], 8);
    let cands = vec![
        vec![true, false, false],
        vec![true, true, true],
        vec![false, true, false],
        vec![true, true, false],
        vec![false, false, true],
    ];
    let scored = evaluate(cands, &p);
    let order: Vec<(Vec<bool>, u64)> = vec![
        (vec![true, true, false], 11),
        (vec![false, false, true], 7),
        (vec![false, true, false], 6),
        (vec![true, false, false], 5),
        (vec![true, true, true], 0),
    ];
    assert_eq!(scored, order);
}

#[test]
fn evaluate_keeps_equal_scores_in_order() {
    let p = problem(&[(1, 4), (1, 4)], 5);
    let scored = evaluate(vec![vec![false, true], vec![true, false], vec![false, false]], &p);
    assert_eq!(scored[0].0, vec![false, true]);
    assert_eq!(scored[1].0, vec![true, false]);
    assert_eq!(scored[2].1, 0);
}

#[test]
fn select_takes_the_top_share() {
    let scored: Vec<(Vec<bool>, u64)> = (0..5).map(|i| (vec![i % 2 == 0], 10 - i as u64)).collect();
    let parents = select(scored.clone(), &config(5, 1, 1, 0));
    assert_eq!(parents, vec![vec![true], vec![false]]);
    let mut all = config(5, 1, 1, 0);
    all.selection_rate = Rate { numerator: 3, denominator: 2 };
    assert_eq!(select(scored, &all).len(), 5);
}

#[test]
fn repair_removes_items_until_the_candidate_fits() {
    let p = sample();
    let mut rng = StdRng::seed_from_u64(5);
    let start = vec![true; 8];
    let mut c = start.clone();
    repair(&mut c, &p, &mut rng);
    assert!(weight_of(&p, &c) <= p.capacity);
    for j in 0..8 {
        assert!(!c[j] || start[j]);
    }
    assert!(c.iter().any(|&b| b));
}

#[test]
fn repair_leaves_a_fitting_candidate_alone() {
    let p = sample();
    let mut rng = StdRng::seed_from_u64(5);
    let start = vec![false, true, true, true, false, false, true, false];
    let mut c = start.clone();
    repair(&mut c, &p, &mut rng);
    assert_eq!(c, start);
}

#[test]
fn crossover_breeds_fitting_children_from_parent_genes() {
    let p = sample();
    let mut rng = StdRng::seed_from_u64(9);
    let parents = vec![
        vec![false, true, false, true, false, false, true, false],
        vec![false, false, true, false, true, true, false, false],
    ];
    let children = crossover(parents.clone(), &p, &config(12, 1, 2, 0), &mut rng);
    assert_eq!(children.len(), 10);
    for c in &children {
        assert!(weight_of(&p, c) <= p.capacity);
        for j in 0..8 {
            assert!(!c[j] || parents[0][j] || parents[1][j]);
        }
    }
    assert!(children.iter().any(|c| c != &parents[0] && c != &parents[1]));
}

#[test]
fn crossover_of_one_fitting_parent_copies_it() {
    let p = sample();
    let mut rng = StdRng::seed_from_u64(3);
    let parent = vec![false, true, false, true, false, false, true, false];
    let children = crossover(vec![parent.clone()], &p, &config(7, 1, 2, 0), &mut rng);
    assert_eq!(children, vec![parent; 5]);
}

#[test]
fn crossover_of_one_heavy_parent_keeps_only_its_marks() {
    let p = sample();
    let mut rng = StdRng::seed_from_u64(3);
    let parent = vec![true; 8];
    let children = crossover(vec![parent], &p, &config(5, 1, 1, 0), &mut rng);
    assert_eq!(children.len(), 4);
    for c in &children {
        assert!(weight_of(&p, c) <= p.capacity);
        assert!(c.iter().filter(|&&g| g).count() < 8);
    }
}

#[test]
fn crossover_without_parents_has_no_children() {
    let p = sample();
    let mut rng = StdRng::seed_from_u64(9);
    assert!(crossover(Vec::new(), &p, &config(12, 1, 2, 0), &mut rng).is_empty());
}

#[test]
fn mutation_at_rate_zero_changes_nothing() {
    let p = sample();
    let mut rng = StdRng::seed_from_u64(1);
    let mut cfg = config(4, 1, 1, 0);
    cfg.mutation_rate = Rate { numerator: 0, denominator: 1 };
    let start = vec![
        vec![false, true, true, true, false, false, true, false],
        vec![false; 8],
    ];
    let mut children = start.clone();
    mutate(&mut children, &p, &cfg, &mut rng);
    assert_eq!(children, start);
}

#[test]
fn mutation_at_rate_one_flips_every_gene_then_repairs() {
    let p = problem(&[(1, 1), (1, 1), (1, 1)], 10);
    let mut rng = StdRng::seed_from_u64(1);
    let mut cfg = config(4, 1, 1, 0);
    cfg.mutation_rate = Rate { numerator: 1, denominator: 1 };
    let mut children = vec![vec![true, false, true]];
    mutate(&mut children, &p, &cfg, &mut rng);
    assert_eq!(children, vec![vec![false, true, false]]);
}

#[test]
fn mutation_at_rate_one_only_keeps_flipped_marks() {
    let p = sample();
    let mut rng = StdRng::seed_from_u64(6);
    let mut cfg = config(4, 1, 1, 0);
    cfg.mutation_rate = Rate { numerator: 3, denominator: 3 };
    let start = vec![vec![false; 8], vec![true, false, true, false, true, false, true, false]];
    let mut children = start.clone();
    mutate(&mut children, &p, &cfg, &mut rng);
    for (c, s) in children.iter().zip(&start) {
        assert!(weight_of(&p, c) <= p.capacity);
        for j in 0..8 {
            assert!(!c[j] || !s[j]);
        }
    }
}

#[test]
fn mutated_children_fit() {
    let p = sample();
    let mut rng = StdRng::seed_from_u64(4);
    let mut cfg = config(4, 1, 1, 0);
    cfg.mutation_rate = Rate { numerator: 1, denominator: 2 };
    let mut children = vec![vec![false; 8]; 6];
    mutate(&mut children, &p, &cfg, &mut rng);
    assert_eq!(children.len(), 6);
    for c in &children {
        assert!(weight_of(&p, c) <= p.capacity);
    }
}

#[test]
fn replace_puts_the_elite_before_the_children() {
    let scored = vec![(vec![true, true], 9), (vec![true, false], 5), (vec![false, false], 0)];
    let children = vec![vec![false, true]];
    assert_eq!(
        replace(&scored, children.clone(), 2),
        vec![vec![true, true], vec![true, false], vec![false, true]]
    );
    assert_eq!(replace(&scored, children, 7).len(), 4);
}

#[test]
fn the_best_candidate_survives_a_generation() {
    let p = sample();
    let mut rng = StdRng::seed_from_u64(21);
    let pop = initialize_population(&p, 20, &mut rng);
    let best = pop.iter().map(|c| value_of(&p, c)).max().unwrap();
    let cfg = config(20, 1, 1, 0);
    let next = next_generation(pop, &p, &cfg, &mut rng);
    assert_eq!(next.len(), 20);
    assert!(value_of(&p, &next[0]) >= best);
    for c in &next {
        assert!(weight_of(&p, c) <= p.capacity);
    }
}

#[test]
fn evolve_returns_a_feasible_answer() {
    let p = sample();
    let selected = evolve(&p, &config(30, 40, 2, 42));
    let total: u64 = selected.iter().map(|&i| p.items[i].weight).sum();
    assert!(total <= p.capacity);
    assert!(selected.windows(2).all(|w| w[0] < w[1]));
    assert!(!selected.is_empty());
}

#[test]
fn evolve_with_an_empty_population_answers_nothing() {
    let p = sample();
    assert!(evolve(&p, &config(0, 3, 0, 1)).is_empty());
}

#[test]
fn solve_evolution_is_feasible() {
    let p = sample();
    let s = solve_evolution(&p);
    assert!(s.is_valid(&p));
    assert!(s.total_value(&p) > 0);
}

#[test]
fn configuration_shrinks_with_the_instance() {
    let small = evolution_config(100);
    assert_eq!((small.population_size, small.generations, small.elite_count), (50, 150, 2));
    assert_eq!((small.mutation_rate.numerator, small.mutation_rate.denominator), (1, 20));
    let medium = evolution_config(101);
    assert_eq!((medium.population_size, medium.generations), (40, 100));
    let large = evolution_config(2_001);
    assert_eq!((large.selection_rate.numerator, large.selection_rate.denominator), (3, 10));
    let huge = evolution_config(100_000);
    assert_eq!((huge.population_size, huge.generations, huge.elite_count), (10, 10, 1));
    assert_eq!(huge.seed, 42);
}

#[test]
fn evolve_from_never_loses_the_best_first_candidate() {
    let p = sample();
    // Items 3, 4, 6 and 1: weight 10, value 23.
    let strong = vec![false, true, false, true, true, false, true, false];
    let weak = vec![false, false, true, false, false, false, false, false];
    for seed in 0..5u64 {
        let mut rng = StdRng::seed_from_u64(seed);
        let selected = evolve_from(vec![weak.clone(), strong.clone()], &p, &config(6, 8, 1, 0), &mut rng);
        let value: u64 = selected.iter().map(|&i| p.items[i].value).sum();
        let weight: u64 = selected.iter().map(|&i| p.items[i].weight).sum();
        assert!(value >= 23);
        assert!(weight <= p.capacity);
    }
}

#[test]
fn evolve_from_without_rounds_answers_the_best_candidate() {
    let p = sample();
    let strong = vec![false, true, false, true, true, false, true, false];
    let weak = vec![false, false, true, false, false, false, false, false];
    let mut rng = StdRng::seed_from_u64(1);
    let selected = evolve_from(vec![weak, strong], &p, &config(2, 0, 0, 0), &mut rng);
    assert_eq!(selected, vec![1, 3, 4, 6]);
}

#[test]
fn evolve_from_an_empty_population_answers_nothing() {
    let p = sample();
    let mut rng = StdRng::seed_from_u64(1);
    assert!(evolve_from(Vec::new(), &p, &config(4, 3, 1, 0), &mut rng).is_empty());
}

#[test]
fn repair_stops_as_soon_as_the_candidate_fits() {
    let p = problem(&[(3, 1), (3, 1), (3, 1), (3, 1)], 9);
    for seed in 0..10u64 {
        let mut rng = StdRng::seed_from_u64(seed);
        let mut c = vec![true; 4];
        repair(&mut c, &p, &mut rng);
        assert_eq!(c.iter().filter(|&&g| g).count(), 3);
    }
}
