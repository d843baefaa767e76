use knapsack::levels::{
    generate_items, generation_possible, get_levels, nightmare_integer_items, Level,
};
use knapsack::problem::Item;
use rand::rngs::StdRng;
use rand::SeedableRng;

fn level(number: u8) -> Level {
    get_levels()[(number - 1) as usize]
}

fn draw(number: u8, seed: u64) -> Vec<Item> {
    let mut rng = StdRng::seed_from_u64(seed);
    generate_items(&level(number), &mut rng)
}

#[test]
fn there_are_twenty_levels_in_order() {
    let levels = get_levels();
    assert_eq!(levels.len(), 20);
    for (k, l) in levels.iter().enumerate() {
        assert_eq!(l.number as usize, k + 1);
        assert_eq!(l.is_exact_feasible, k < 12);
        assert!(generation_possible(l));
    }
    assert_eq!(levels[0].name, "Warm-Up");
    assert_eq!(levels[0].num_items, 10);
    assert_eq!(levels[0].capacity_percent, 50);
    assert_eq!(levels[19].num_items, 100_000);
    assert_eq!(levels[19].capacity_percent, 8);
    assert_eq!(levels[19].time_limit_secs, 120);
}

#[test]
fn levels_have_distinct_names_and_descriptions_that_give_the_item_count() {
    let levels = get_levels();
    assert_eq!(levels[19].name, "God Mode");
    assert_eq!(levels[3].name, "Weight Cliff S");
    for (i, a) in levels.iter().enumerate() {
        for b in &levels[i + 1..] {
            assert_ne!(a.name, b.name);
        }
        let count = a.description.split(' ').next().unwrap();
        let expected = if a.num_items >= 1_000 && a.num_items != 1_000 || count.ends_with('K') {
            format!("{}K", a.num_items / 1_000)
        } else if a.num_items == 1_000 {
            "1,000".to_string()
        } else {
            a.num_items.to_string()
        };
        assert_eq!(count, expected, "level {}", a.number);
    }
}

#[test]
fn generation_is_impossible_on_an_empty_range() {
    let mut l = level(1);
    l.max_weight = 0;
    assert!(!generation_possible(&l));
    l.num_items = 0;
    assert!(generation_possible(&l));
    let mut gem = level(3);
    gem.max_weight = 5;
    assert!(!generation_possible(&gem));
}

#[test]
fn uniform_levels_draw_within_the_maxima() {
    let items = draw(1, 42 + 31337);
    assert_eq!(items.len(), 10);
    for it in &items {
        assert!((1..=50).contains(&it.weight));
        assert!((1..=100).contains(&it.value));
    }
    assert!(items.iter().any(|it| it.weight != items[0].weight));
}

#[test]
fn the_same_seed_draws_the_same_items() {
    let a = draw(2, 99);
    let b = draw(2, 99);
    assert_eq!(
        a.iter().map(|it| (it.weight, it.value)).collect::<Vec<_>>(),
        b.iter().map(|it| (it.weight, it.value)).collect::<Vec<_>>()
    );
}

#[test]
fn gem_traps_start_with_heavy_gems() {
    let items = draw(3, 1);
    assert_eq!(items.len(), 30);
    for it in &items[..3] {
        assert!((70..=100).contains(&it.weight));
        assert!((80..=100).contains(&it.value));
    }
    for it in &items[3..] {
        assert!((1..=10).contains(&it.weight));
        assert!((33..=50).contains(&it.value));
    }
}

#[test]
fn the_weight_cliff_starts_with_one_heavy_item() {
    let items = draw(4, 1);
    assert_eq!(items.len(), 40);
    assert_eq!((items[0].weight, items[0].value), (100, 300));
    for it in &items[1..] {
        assert!((1..=20).contains(&it.weight));
        assert!((1..=25).contains(&it.value));
    }
}

#[test]
fn inverse_density_combos_are_whole_tenths() {
    let items = draw(5, 1);
    assert_eq!(items.len(), 50);
    for it in &items[..10] {
        assert_eq!(it.weight % 20, 0);
        let m = it.weight / 20;
        assert!((3..=8).contains(&m));
        assert!(it.value >= m * 100 && it.value <= m * 100 + 50);
    }
    for it in &items[10..] {
        assert!((1..=10).contains(&it.weight));
        assert!((125..=166).contains(&it.value));
    }
}

#[test]
fn the_staircase_repeats_every_ten_items() {
    let items = draw(8, 1);
    assert_eq!(items.len(), 300);
    for (k, it) in items.iter().enumerate() {
        let step = (k % 10) as u64 + 1;
        assert_eq!(it.weight, step * 100);
        assert!(it.value >= step * step * 20 && it.value <= step * step * 20 + 40);
    }
}

#[test]
fn decoys_follow_the_real_items() {
    let items = draw(9, 1);
    assert_eq!(items.len(), 500);
    for it in &items[..50] {
        assert!((200..=1_000).contains(&it.weight));
        assert!((500..=1_000).contains(&it.value));
    }
    for it in &items[50..] {
        assert!((1..=20).contains(&it.weight));
        assert!((1..=50).contains(&it.value));
    }
}

#[test]
fn capacity_wasters_weigh_whole_twentieths() {
    let items = draw(14, 1);
    assert_eq!(items.len(), 2_000);
    for it in &items {
        assert_eq!(it.weight % 500, 0);
        assert!((1..=20).contains(&(it.weight / 500)));
        assert!((1..=10_000).contains(&it.value));
    }
    assert!(items.iter().any(|it| it.weight != items[0].weight));
}

#[test]
fn correlated_values_stay_near_the_weight() {
    let items = draw(16, 1);
    assert_eq!(items.len(), 10_000);
    let mut above = 0;
    let mut below = 0;
    for it in &items {
        let bound = (it.weight / 10).max(1);
        assert!(it.value <= it.weight + bound);
        assert!(it.value + bound >= it.weight || it.value == 1);
        if it.value > it.weight {
            above += 1;
        }
        if it.value < it.weight {
            below += 1;
        }
    }
    assert!(above > 0 && below > 0);
}

#[test]
fn nightmare_level_draws_four_integer_parts() {
    let l = level(18);
    let mut rng = StdRng::seed_from_u64(42 + 18 * 31337);
    let items = nightmare_integer_items(&l, &mut rng);
    let chunk = l.num_items / 5;
    assert_eq!(items.len(), 4 * chunk);
    for (k, it) in items.iter().enumerate() {
        let (w, v) = (it.weight, it.value);
        match k / chunk {
            0 => assert!((50_000..=100_000).contains(&w) && (80_000..=100_000).contains(&v)),
            1 => assert!((100..=500).contains(&w) && (500..=2_000).contains(&v)),
            2 => assert!((1_000..=50_000).contains(&w) && (w..=w + 1_000).contains(&v)),
            _ => assert!(w % 500 == 0 && (500..=50_000).contains(&w) && (10_000..=50_000).contains(&v)),
        }
    }
}
