//! The benchmark's levels and the random instances drawn for them.

use crate::problem::Item;
use crate::rng::{random_i32_in, random_ratio, random_u64_in};
use rand::rngs::StdRng;
use vstd::prelude::*;

verus! {

/// One level of the benchmark. The knapsack holds `capacity_percent` percent
/// of the items' total weight.
#[derive(Debug, Clone, Copy)]
pub struct Level {
    pub number: u8,
    pub name: &'static str,
    pub description: &'static str,
    pub num_items: usize,
    pub capacity_percent: u64,
    pub max_weight: u64,
    pub max_value: u64,
    pub time_limit_secs: u64,
    pub is_exact_feasible: bool,
}

/// The numeric fields of the twenty levels, in order: number, items,
/// capacity percent, maximal weight, maximal value, seconds allowed, and
/// whether an exact solver is expected to finish.
pub open spec fn level_table() -> Seq<(u8, usize, u64, u64, u64, u64, bool)> {
    seq![
        (1, 10, 50, 50, 100, 2, true),
        (2, 50, 40, 200, 500, 5, true),
        (3, 30, 30, 100, 100, 5, true),
        (4, 40, 25, 100, 100, 5, true),
        (5, 50, 30, 200, 500, 5, true),
        (6, 200, 35, 500, 1_000, 10, true),
        (7, 200, 20, 500, 1_000, 15, true),
        (8, 300, 25, 1_000, 2_000, 15, true),
        (9, 500, 15, 1_000, 1_000, 15, true),
        (10, 500, 20, 1_000, 1_000, 20, true),
        (11, 1_000, 25, 5_000, 10_000, 30, true),
        (12, 1_000, 15, 5_000, 10_000, 30, true),
        (13, 2_000, 20, 10_000, 100_000, 30, false),
        (14, 2_000, 20, 10_000, 10_000, 30, false),
        (15, 10_000, 10, 100_000, 100_000, 60, false),
        (16, 10_000, 20, 500_000_000, 500_000_000, 60, false),
        (17, 10_000, 25, 1_000_000, 1_000_000, 60, false),
        (18, 5_000, 20, 100_000, 100_000, 60, false),
        (19, 50_000, 10, 10_000_000, 10_000_000, 120, false),
        (20, 100_000, 8, 100_000_000, 100_000_000, 120, false),
    ]
}

/// The name and the description of each of the twenty levels, in order.
pub open spec fn level_texts() -> Seq<(Seq<char>, Seq<char>)> {
    seq![
        ("Warm-Up"@, "10 items. Your cat could solve this."@),
        ("Easy"@, "50 items. Brute force starts sweating."@),
        ("Gem Trap S"@, "30 items. Heavy diamonds vs light pebbles."@),
        ("Weight Cliff S"@, "40 items. One heavy item worth more than all light ones combined."@),
        ("Inverse Density S"@, "50 items. Best combo has worst individual density."@),
        ("Respectable"@, "200 items. You need DP or you're cooked."@),
        ("Gem Trap M"@, "200 items. Greedy grabs pebbles, misses diamonds."@),
        ("Staircase"@, "300 items. Items form a staircase — greedy trips on the steps."@),
        ("Decoy Flood"@, "500 items. 90% are decoys with amazing density but tiny value."@),
        ("Anti-Density M"@, "500 items. Low density items pack perfectly together."@),
        ("Sweaty"@, "1,000 items. Memory-efficient DP or bust."@),
        ("Gem Trap L"@, "1K items. Scaled up gem trap."@),
        ("Quadratic Value"@, "2K items. Value = weight². Heavy items are gold."@),
        ("Capacity Wasters"@, "2K items. Greedy leaves 30% capacity unused."@),
        ("Gem Trap XL"@, "10K items. Massive gem trap."@),
        ("Correlated Chaos"@, "10K items where value ~ weight. Density is meaningless."@),
        ("Heavy Hitters"@, "10K items. Value scales with sqrt(weight)."@),
        ("Greedy's Nightmare"@, "5K items. Every greedy heuristic fails here."@),
        ("Scale Test"@, "50K items. Pure scale."@),
        ("God Mode"@, "100K items. Beat greedy here and you're hired."@),
    ]
}

/// Whether a level's fields are the given row of the table.
pub open spec fn level_matches(level: Level, row: (u8, usize, u64, u64, u64, u64, bool)) -> bool {
    &&& level.number == row.0
    &&& level.num_items == row.1
    &&& level.capacity_percent == row.2
    &&& level.max_weight == row.3
    &&& level.max_value == row.4
    &&& level.time_limit_secs == row.5
    &&& level.is_exact_feasible == row.6
}

/// Levels of heavy "gems" among light pebbles.
pub open spec fn is_gem_trap(number: u8) -> bool {
    number == 3 || number == 7 || number == 12 || number == 15
}

/// Levels where items of poor density combine best.
pub open spec fn is_inverse_density(number: u8) -> bool {
    number == 5 || number == 10
}

/// Levels whose values come from square roots of weights, in floating point.
pub open spec fn uses_float_values(number: u8) -> bool {
    number == 13 || number == 17 || number == 18
}

/// The largest step of the staircase level with `n` items.
pub open spec fn staircase_top(n: int) -> int {
    if n >= 10 {
        10
    } else {
        n
    }
}

/// `m` units of size `unit`.
pub open spec fn units(m: int, unit: int) -> int {
    m * unit
}

/// How many items the level's generator draws.
pub open spec fn generated_count(level: Level) -> int {
    if level.number == 4 && level.num_items == 0 {
        1
    } else {
        level.num_items as int
    }
}

/// The generator can draw the level's items: no range it draws from is
/// empty and no bound it computes overflows.
pub open spec fn generation_ok(level: Level) -> bool {
    let n = level.num_items as int;
    let mw = level.max_weight as int;
    let mv = level.max_value as int;
    if is_gem_trap(level.number) {
        &&& n / 10 > 0 ==> mw * 7 <= u64::MAX && mv * 8 <= u64::MAX
        &&& n - n / 10 > 0 ==> mw / 10 >= 1
    } else if level.number == 4 {
        &&& mv * 3 <= u64::MAX
        &&& n > 1 ==> mw / 5 >= 1 && mv / 4 >= 1
    } else if is_inverse_density(level.number) {
        &&& n / 5 > 0 ==> 8 * (mv / 5) + mv / 10 <= u64::MAX
        &&& n - n / 5 > 0 ==> mw / 20 >= 1
    } else if level.number == 8 {
        n > 0 ==> staircase_top(n) * staircase_top(n) * (mv / 100) + mv / 50 <= u64::MAX
    } else if level.number == 9 {
        n - n / 10 > 0 ==> mw / 50 >= 1 && mv / 20 >= 1
    } else if level.number == 14 {
        n > 0 ==> mv >= 1
    } else if level.number == 16 {
        n > 0 ==> mw >= 1
    } else if uses_float_values(level.number) {
        true
    } else {
        n > 0 ==> mw >= 1 && mv >= 1
    }
}

/// The noise bound of the correlated level for weight `w`: a tenth of it, at least one.
pub open spec fn noise_bound(w: int) -> int {
    if w / 10 > 1 {
        w / 10
    } else {
        1
    }
}

/// The value of the correlated level: the weight plus the noise (saturating
/// at `u64::MAX`) or minus it (at least one).
pub open spec fn correlated_value(w: int, noise: int, up: bool) -> int {
    if up {
        if w + noise <= u64::MAX {
            w + noise
        } else {
            u64::MAX as int
        }
    } else if w - noise >= 1 {
        w - noise
    } else {
        1
    }
}

/// Item `k` of the level can be what the level's generator draws there.
pub open spec fn item_drawn(level: Level, k: int, it: Item) -> bool {
    let n = level.num_items as int;
    let mw = level.max_weight as int;
    let mv = level.max_value as int;
    let w = it.weight as int;
    let v = it.value as int;
    if is_gem_trap(level.number) {
        if k < n / 10 {
            mw * 7 / 10 <= w <= mw && mv * 8 / 10 <= v <= mv
        } else {
            1 <= w <= mw / 10 && mv / 3 <= v <= mv / 2
        }
    } else if level.number == 4 {
        if k == 0 {
            w == mw && v == mv * 3
        } else {
            1 <= w <= mw / 5 && 1 <= v <= mv / 4
        }
    } else if is_inverse_density(level.number) {
        if k < n / 5 {
            exists|m: int|
                3 <= m <= 8 && w == #[trigger] units(m, mw / 10) && units(m, mv / 5) <= v <= units(
                    m,
                    mv / 5,
                ) + mv / 10
        } else {
            1 <= w <= mw / 20 && mv / 4 <= v <= mv / 3
        }
    } else if level.number == 8 {
        let step = k % 10 + 1;
        w == units(step, mw / 10) && units(step * step, mv / 100) <= v <= units(step * step, mv / 100)
            + mv / 50
    } else if level.number == 9 {
        if k < n / 10 {
            mw / 5 <= w <= mw && mv / 2 <= v <= mv
        } else {
            1 <= w <= mw / 50 && 1 <= v <= mv / 20
        }
    } else if level.number == 14 {
        (exists|b: int| 1 <= b <= 20 && w == #[trigger] units(b, mw / 20)) && 1 <= v <= mv
    } else if level.number == 16 {
        &&& 1 <= w <= mw
        &&& exists|noise: int, up: bool|
            0 <= noise <= noise_bound(w) && v == #[trigger] correlated_value(w, noise, up)
    } else {
        1 <= w <= mw && 1 <= v <= mv
    }
}

/// The items of the level drawn so far are what its generator draws.
pub open spec fn all_drawn(level: Level, items: Seq<Item>) -> bool {
    forall|k: int| 0 <= k < items.len() ==> item_drawn(level, k, #[trigger] items[k])
}

/// Item `k` of the first four parts of the nightmare level (level 18), with
/// `chunk` items to a part: heavy and precious; light and fairly worth;
/// worth about its weight; a whole number of five hundreds in weight.
pub open spec fn nightmare_item_drawn(chunk: int, k: int, it: Item) -> bool {
    let w = it.weight as int;
    let v = it.value as int;
    if k < chunk {
        50_000 <= w <= 100_000 && 80_000 <= v <= 100_000
    } else if k < 2 * chunk {
        100 <= w <= 500 && 500 <= v <= 2_000
    } else if k < 3 * chunk {
        1_000 <= w <= 50_000 && w <= v <= w + 1_000
    } else {
        (exists|b: int| 1 <= b <= 100 && w == #[trigger] units(b, 500)) && 10_000 <= v <= 50_000
    }
}

/// Every item that the integer recipe of one of the twenty levels draws
/// weighs at least one and is worth at least one.
pub proof fn lemma_level_items_positive(k: int, level: Level, items: Seq<Item>)
    requires
        0 <= k < 20,
        level_matches(level, level_table()[k]),
        !uses_float_values(level.number),
        all_drawn(level, items),
    ensures
        forall|i: int| 0 <= i < items.len() ==> (#[trigger] items[i]).weight >= 1 && items[i].value >= 1,
{
    assert(level.max_weight >= 50 && level.max_value >= 100) by {
        if k == 0 {
        } else if k == 1 {
        } else if k == 2 {
        } else if k == 3 {
        } else if k == 4 {
        } else if k == 5 {
        } else if k == 6 {
        } else if k == 7 {
        } else if k == 8 {
        } else if k == 9 {
        } else if k == 10 {
        } else if k == 11 {
        } else if k == 12 {
        } else if k == 13 {
        } else if k == 14 {
        } else if k == 15 {
        } else if k == 16 {
        } else if k == 17 {
        } else if k == 18 {
        } else {
        }
    }
    let mw = level.max_weight as int;
    let mv = level.max_value as int;
    assert forall|i: int| 0 <= i < items.len() implies (#[trigger] items[i]).weight >= 1
        && items[i].value >= 1 by {
        let it = items[i];
        assert(item_drawn(level, i, it));
        assert forall|m: int, u: int| m >= 1 && u >= 1 implies #[trigger] units(m, u) >= 1 by {
            assert(m * u >= 1) by (nonlinear_arith)
                requires
                    m >= 1,
                    u >= 1,
            ;
        }
        if is_inverse_density(level.number) && i < level.num_items / 5 {
            let m = choose|m: int|
                3 <= m <= 8 && it.weight == #[trigger] units(m, mw / 10) && units(m, mv / 5) <= it.value
                    <= units(m, mv / 5) + mv / 10;
            assert(units(m, mw / 10) >= 1);
            assert(units(m, mv / 5) >= 1);
        } else if level.number == 8 {
            let step = i % 10 + 1;
            assert(units(step, mw / 10) >= 1);
            assert(units(step * step, mv / 100) >= 1) by {
                assert(step * step >= 1) by (nonlinear_arith)
                    requires
                        step >= 1,
                ;
            }
        } else if level.number == 14 {
            let b = choose|b: int| 1 <= b <= 20 && it.weight == #[trigger] units(b, mw / 20);
            assert(units(b, mw / 20) >= 1);
        } else if level.number == 16 {
            let (noise, up) = choose|noise: int, up: bool|
                0 <= noise <= noise_bound(it.weight as int) && it.value == #[trigger] correlated_value(
                    it.weight as int,
                    noise,
                    up,
                );
        }
    }
}

/// The twenty levels of the benchmark, from a warm-up of ten items to a
/// hundred thousand; the first twelve are small enough for exact solvers.
/// Every level can be generated.
pub fn get_levels() -> (levels: Vec<Level>)
    ensures
        levels@.len() == 20,
        forall|k: int| 0 <= k < 20 ==> level_matches(#[trigger] levels@[k], level_table()[k]),
        forall|k: int|
            0 <= k < 20 ==> (#[trigger] levels@[k]).name@ == level_texts()[k].0
                && levels@[k].description@ == level_texts()[k].1,
        forall|k: int| 0 <= k < 20 ==> generation_ok(#[trigger] levels@[k]),
        forall|k: int| 0 <= k < 20 ==> (#[trigger] levels@[k]).number == k + 1,
        forall|k: int| 0 <= k < 20 ==> ((#[trigger] levels@[k]).is_exact_feasible <==> k < 12),
{
    let mut levels: Vec<Level> = Vec::new();
    levels.push(Level {
        number: 1,
        name: "Warm-Up",
        description: "10 items. Your cat could solve this.",
        num_items: 10,
        capacity_percent: 50,
        max_weight: 50,
        max_value: 100,
        time_limit_secs: 2,
        is_exact_feasible: true,
    });
    levels.push(Level {
        number: 2,
        name: "Easy",
        description: "50 items. Brute force starts sweating.",
        num_items: 50,
        capacity_percent: 40,
        max_weight: 200,
        max_value: 500,
        time_limit_secs: 5,
        is_exact_feasible: true,
    });
    levels.push(Level {
        number: 3,
        name: "Gem Trap S",
        description: "30 items. Heavy diamonds vs light pebbles.",
        num_items: 30,
        capacity_percent: 30,
        max_weight: 100,
        max_value: 100,
        time_limit_secs: 5,
        is_exact_feasible: true,
    });
    levels.push(Level {
        number: 4,
        name: "Weight Cliff S",
        description: "40 items. One heavy item worth more than all light ones combined.",
        num_items: 40,
        capacity_percent: 25,
        max_weight: 100,
        max_value: 100,
        time_limit_secs: 5,
        is_exact_feasible: true,
    });
    levels.push(Level {
        number: 5,
        name: "Inverse Density S",
        description: "50 items. Best combo has worst individual density.",
        num_items: 50,
        capacity_percent: 30,
        max_weight: 200,
        max_value: 500,
        time_limit_secs: 5,
        is_exact_feasible: true,
    });
    levels.push(Level {
        number: 6,
        name: "Respectable",
        description: "200 items. You need DP or you're cooked.",
        num_items: 200,
        capacity_percent: 35,
        max_weight: 500,
        max_value: 1_000,
        time_limit_secs: 10,
        is_exact_feasible: true,
    });
    levels.push(Level {
        number: 7,
        name: "Gem Trap M",
        description: "200 items. Greedy grabs pebbles, misses diamonds.",
        num_items: 200,
        capacity_percent: 20,
        max_weight: 500,
        max_value: 1_000,
        time_limit_secs: 15,
        is_exact_feasible: true,
    });
    levels.push(Level {
        number: 8,
        name: "Staircase",
        description: "300 items. Items form a staircase — greedy trips on the steps.",
        num_items: 300,
        capacity_percent: 25,
        max_weight: 1_000,
        max_value: 2_000,
        time_limit_secs: 15,
        is_exact_feasible: true,
    });
    levels.push(Level {
        number: 9,
        name: "Decoy Flood",
        description: "500 items. 90% are decoys with amazing density but tiny value.",
        num_items: 500,
        capacity_percent: 15,
        max_weight: 1_000,
        max_value: 1_000,
        time_limit_secs: 15,
        is_exact_feasible: true,
    });
    levels.push(Level {
        number: 10,
        name: "Anti-Density M",
        description: "500 items. Low density items pack perfectly together.",
        num_items: 500,
        capacity_percent: 20,
        max_weight: 1_000,
        max_value: 1_000,
        time_limit_secs: 20,
        is_exact_feasible: true,
    });
    levels.push(Level {
        number: 11,
        name: "Sweaty",
        description: "1,000 items. Memory-efficient DP or bust.",
        num_items: 1_000,
        capacity_percent: 25,
        max_weight: 5_000,
        max_value: 10_000,
        time_limit_secs: 30,
        is_exact_feasible: true,
    });
    levels.push(Level {
        number: 12,
        name: "Gem Trap L",
        description: "1K items. Scaled up gem trap.",
        num_items: 1_000,
        capacity_percent: 15,
        max_weight: 5_000,
        max_value: 10_000,
        time_limit_secs: 30,
        is_exact_feasible: true,
    });
    levels.push(Level {
        number: 13,
        name: "Quadratic Value",
        description: "2K items. Value = weight². Heavy items are gold.",
        num_items: 2_000,
        capacity_percent: 20,
        max_weight: 10_000,
        max_value: 100_000,
        time_limit_secs: 30,
        is_exact_feasible: false,
    });
    levels.push(Level {
        number: 14,
        name: "Capacity Wasters",
        description: "2K items. Greedy leaves 30% capacity unused.",
        num_items: 2_000,
        capacity_percent: 20,
        max_weight: 10_000,
        max_value: 10_000,
        time_limit_secs: 30,
        is_exact_feasible: false,
    });
    levels.push(Level {
        number: 15,
        name: "Gem Trap XL",
        description: "10K items. Massive gem trap.",
        num_items: 10_000,
        capacity_percent: 10,
        max_weight: 100_000,
        max_value: 100_000,
        time_limit_secs: 60,
        is_exact_feasible: false,
    });
    levels.push(Level {
        number: 16,
        name: "Correlated Chaos",
        description: "10K items where value ~ weight. Density is meaningless.",
        num_items: 10_000,
        capacity_percent: 20,
        max_weight: 500_000_000,
        max_value: 500_000_000,
        time_limit_secs: 60,
        is_exact_feasible: false,
    });
    levels.push(Level {
        number: 17,
        name: "Heavy Hitters",
        description: "10K items. Value scales with sqrt(weight).",
        num_items: 10_000,
        capacity_percent: 25,
        max_weight: 1_000_000,
        max_value: 1_000_000,
        time_limit_secs: 60,
        is_exact_feasible: false,
    });
    levels.push(Level {
        number: 18,
        name: "Greedy's Nightmare",
        description: "5K items. Every greedy heuristic fails here.",
        num_items: 5_000,
        capacity_percent: 20,
        max_weight: 100_000,
        max_value: 100_000,
        time_limit_secs: 60,
        is_exact_feasible: false,
    });
    levels.push(Level {
        number: 19,
        name: "Scale Test",
        description: "50K items. Pure scale.",
        num_items: 50_000,
        capacity_percent: 10,
        max_weight: 10_000_000,
        max_value: 10_000_000,
        time_limit_secs: 120,
        is_exact_feasible: false,
    });
    levels.push(Level {
        number: 20,
        name: "God Mode",
        description: "100K items. Beat greedy here and you're hired.",
        num_items: 100_000,
        capacity_percent: 8,
        max_weight: 100_000_000,
        max_value: 100_000_000,
        time_limit_secs: 120,
        is_exact_feasible: false,
    });
    assert(levels@.len() == 20);
    levels
}

/// Appends an item that the level's generator may draw at that position.
fn push_drawn(items: &mut Vec<Item>, it: Item, Ghost(level): Ghost<Level>)
    requires
        all_drawn(level, old(items)@),
        item_drawn(level, old(items)@.len() as int, it),
    ensures
        final(items)@ == old(items)@.push(it),
        all_drawn(level, final(items)@),
{
    let ghost before = items@;
    items.push(it);
    proof {
        assert forall|k: int| 0 <= k < items@.len() implies item_drawn(level, k, #[trigger] items@[k]) by {
            if k < before.len() {
                assert(items@[k] == before[k]);
            }
        }
    }
}

/// Gem traps: a tenth heavy and precious, the rest light pebbles of middling value.
fn gem_trap_items(level: &Level, rng: &mut StdRng) -> (items: Vec<Item>)
    requires
        is_gem_trap(level.number),
        generation_ok(*level),
    ensures
        items@.len() == generated_count(*level),
        all_drawn(*level, items@),
{
    let n = level.num_items;
    let mw = level.max_weight;
    let mv = level.max_value;
    let gem_count = n / 10;
    let mut items: Vec<Item> = Vec::new();
    let mut k: usize = 0;
    while k < gem_count
        invariant
            n == level.num_items,
            mw == level.max_weight,
            mv == level.max_value,
            is_gem_trap(level.number),
            generation_ok(*level),
            gem_count == n / 10,
            k <= gem_count,
            items@.len() == k,
            all_drawn(*level, items@),
        decreases gem_count - k,
    {
        let weight = random_u64_in(rng, mw * 7 / 10, mw);
        let value = random_u64_in(rng, mv * 8 / 10, mv);
        push_drawn(&mut items, Item { weight, value }, Ghost(*level));
        k = k + 1;
    }
    let mut k: usize = gem_count;
    while k < n
        invariant
            n == level.num_items,
            mw == level.max_weight,
            mv == level.max_value,
            is_gem_trap(level.number),
            generation_ok(*level),
            gem_count == n / 10,
            gem_count <= k <= n,
            items@.len() == k,
            all_drawn(*level, items@),
        decreases n - k,
    {
        let weight = random_u64_in(rng, 1, mw / 10);
        let value = random_u64_in(rng, mv / 3, mv / 2);
        push_drawn(&mut items, Item { weight, value }, Ghost(*level));
        k = k + 1;
    }
    items
}

/// The weight cliff: one item of the maximal weight worth three times the
/// maximal value, then light items of little value.
fn weight_cliff_items(level: &Level, rng: &mut StdRng) -> (items: Vec<Item>)
    requires
        level.number == 4,
        generation_ok(*level),
    ensures
        items@.len() == generated_count(*level),
        all_drawn(*level, items@),
{
    let n = level.num_items;
    let mw = level.max_weight;
    let mv = level.max_value;
    let mut items: Vec<Item> = Vec::new();
    push_drawn(&mut items, Item { weight: mw, value: mv * 3 }, Ghost(*level));
    let mut k: usize = 1;
    while k < n
        invariant
            n == level.num_items,
            mw == level.max_weight,
            mv == level.max_value,
            level.number == 4,
            generation_ok(*level),
            1 <= k,
            k <= n || (n == 0 && k == 1),
            items@.len() == k,
            all_drawn(*level, items@),
        decreases n - k,
    {
        let weight = random_u64_in(rng, 1, mw / 5);
        let value = random_u64_in(rng, 1, mv / 4);
        push_drawn(&mut items, Item { weight, value }, Ghost(*level));
        k = k + 1;
    }
    items
}

/// Inverse density: a fifth are multiples of a tenth of the maximal weight
/// worth as many fifths of the maximal value plus a little; the rest are
/// light with a fair value.
fn inverse_density_items(level: &Level, rng: &mut StdRng) -> (items: Vec<Item>)
    requires
        is_inverse_density(level.number),
        generation_ok(*level),
    ensures
        items@.len() == generated_count(*level),
        all_drawn(*level, items@),
{
    let n = level.num_items;
    let mw = level.max_weight;
    let mv = level.max_value;
    let combo_count = n / 5;
    let mut items: Vec<Item> = Vec::new();
    let mut k: usize = 0;
    while k < combo_count
        invariant
            n == level.num_items,
            mw == level.max_weight,
            mv == level.max_value,
            is_inverse_density(level.number),
            generation_ok(*level),
            combo_count == n / 5,
            k <= combo_count,
            items@.len() == k,
            all_drawn(*level, items@),
        decreases combo_count - k,
    {
        let multiplier = random_u64_in(rng, 3, 8);
        proof {
            assert(multiplier * (mw / 10) <= 8 * (mw / 10)) by (nonlinear_arith)
                requires
                    multiplier <= 8,
            ;
            assert(multiplier * (mv / 5) <= 8 * (mv / 5)) by (nonlinear_arith)
                requires
                    multiplier <= 8,
            ;
        }
        let weight = multiplier * (mw / 10);
        let extra = random_u64_in(rng, 0, mv / 10);
        let value = multiplier * (mv / 5) + extra;
        proof {
            assert(weight == units(multiplier as int, (mw / 10) as int));
        }
        push_drawn(&mut items, Item { weight, value }, Ghost(*level));
        k = k + 1;
    }
    let mut k: usize = combo_count;
    while k < n
        invariant
            n == level.num_items,
            mw == level.max_weight,
            mv == level.max_value,
            is_inverse_density(level.number),
            generation_ok(*level),
            combo_count == n / 5,
            combo_count <= k <= n,
            items@.len() == k,
            all_drawn(*level, items@),
        decreases n - k,
    {
        let weight = random_u64_in(rng, 1, mw / 20);
        let value = random_u64_in(rng, mv / 4, mv / 3);
        push_drawn(&mut items, Item { weight, value }, Ghost(*level));
        k = k + 1;
    }
    items
}

/// The staircase: item `k` is step `k % 10 + 1`, weighing that many tenths
/// of the maximal weight and worth its square in hundredths of the maximal
/// value, plus a little.
fn staircase_items(level: &Level, rng: &mut StdRng) -> (items: Vec<Item>)
    requires
        level.number == 8,
        generation_ok(*level),
    ensures
        items@.len() == generated_count(*level),
        all_drawn(*level, items@),
{
    let n = level.num_items;
    let mw = level.max_weight;
    let mv = level.max_value;
    let mut items: Vec<Item> = Vec::new();
    let mut k: usize = 0;
    while k < n
        invariant
            n == level.num_items,
            mw == level.max_weight,
            mv == level.max_value,
            level.number == 8,
            generation_ok(*level),
            k <= n,
            items@.len() == k,
            all_drawn(*level, items@),
        decreases n - k,
    {
        let step = (k % 10) as u64 + 1;
        proof {
            let top = staircase_top(n as int);
            assert(step <= top);
            assert(step * step <= 100) by (nonlinear_arith)
                requires
                    step <= 10,
            ;
            assert(step * (mw / 10) <= 10 * (mw / 10)) by (nonlinear_arith)
                requires
                    step <= 10,
            ;
            assert(step * step * (mv / 100) <= top * top * (mv / 100)) by (nonlinear_arith)
                requires
                    0 <= step <= top,
                    mv >= 0,
            ;
        }
        let weight = step * (mw / 10);
        let extra = random_u64_in(rng, 0, mv / 50);
        let value = step * step * (mv / 100) + extra;
        proof {
            assert((k as int) % 10 + 1 == step);
        }
        push_drawn(&mut items, Item { weight, value }, Ghost(*level));
        k = k + 1;
    }
    items
}

/// The decoy flood: a tenth are real items, heavy and valuable; the rest
/// are tiny decoys of tiny value.
fn decoy_items(level: &Level, rng: &mut StdRng) -> (items: Vec<Item>)
    requires
        level.number == 9,
        generation_ok(*level),
    ensures
        items@.len() == generated_count(*level),
        all_drawn(*level, items@),
{
    let n = level.num_items;
    let mw = level.max_weight;
    let mv = level.max_value;
    let real_count = n / 10;
    let mut items: Vec<Item> = Vec::new();
    let mut k: usize = 0;
    while k < real_count
        invariant
            n == level.num_items,
            mw == level.max_weight,
            mv == level.max_value,
            level.number == 9,
            generation_ok(*level),
            real_count == n / 10,
            k <= real_count,
            items@.len() == k,
            all_drawn(*level, items@),
        decreases real_count - k,
    {
        let weight = random_u64_in(rng, mw / 5, mw);
        let value = random_u64_in(rng, mv / 2, mv);
        push_drawn(&mut items, Item { weight, value }, Ghost(*level));
        k = k + 1;
    }
    let mut k: usize = real_count;
    while k < n
        invariant
            n == level.num_items,
            mw == level.max_weight,
            mv == level.max_value,
            level.number == 9,
            generation_ok(*level),
            real_count == n / 10,
            real_count <= k <= n,
            items@.len() == k,
            all_drawn(*level, items@),
        decreases n - k,
    {
        let weight = random_u64_in(rng, 1, mw / 50);
        let value = random_u64_in(rng, 1, mv / 20);
        push_drawn(&mut items, Item { weight, value }, Ghost(*level));
        k = k + 1;
    }
    items
}

/// Capacity wasters: weights are whole twentieths of the maximal weight,
/// values anything up to the maximal value.
fn capacity_waster_items(level: &Level, rng: &mut StdRng) -> (items: Vec<Item>)
    requires
        level.number == 14,
        generation_ok(*level),
    ensures
        items@.len() == generated_count(*level),
        all_drawn(*level, items@),
{
    let n = level.num_items;
    let mw = level.max_weight;
    let mv = level.max_value;
    let mut items: Vec<Item> = Vec::new();
    let mut k: usize = 0;
    while k < n
        invariant
            n == level.num_items,
            mw == level.max_weight,
            mv == level.max_value,
            level.number == 14,
            generation_ok(*level),
            k <= n,
            items@.len() == k,
            all_drawn(*level, items@),
        decreases n - k,
    {
        let base = random_i32_in(rng, 1, 20) as u64;
        proof {
            assert(base * (mw / 20) <= 20 * (mw / 20)) by (nonlinear_arith)
                requires
                    base <= 20,
            ;
        }
        let weight = base * (mw / 20);
        let value = random_u64_in(rng, 1, mv);
        proof {
            assert(weight == units(base as int, (mw / 20) as int));
        }
        push_drawn(&mut items, Item { weight, value }, Ghost(*level));
        k = k + 1;
    }
    items
}

/// Correlated chaos: the value is the weight give or take a tenth of it.
fn correlated_items(level: &Level, rng: &mut StdRng) -> (items: Vec<Item>)
    requires
        level.number == 16,
        generation_ok(*level),
    ensures
        items@.len() == generated_count(*level),
        all_drawn(*level, items@),
{
    let n = level.num_items;
    let mw = level.max_weight;
    let mut items: Vec<Item> = Vec::new();
    let mut k: usize = 0;
    while k < n
        invariant
            n == level.num_items,
            mw == level.max_weight,
            level.number == 16,
            generation_ok(*level),
            k <= n,
            items@.len() == k,
            all_drawn(*level, items@),
        decreases n - k,
    {
        let w = random_u64_in(rng, 1, mw);
        let bound = if w / 10 > 1 {
            w / 10
        } else {
            1
        };
        let noise = random_u64_in(rng, 0, bound);
        let up = random_ratio(rng, 1, 2);
        let v = if up {
            w.saturating_add(noise)
        } else {
            let down = w.saturating_sub(noise);
            if down > 1 {
                down
            } else {
                1
            }
        };
        proof {
            assert(bound == noise_bound(w as int));
            assert(v == correlated_value(w as int, noise as int, up));
            assert(0 <= noise <= noise_bound(w as int));
            assert(exists|nz: int, u: bool|
                0 <= nz <= noise_bound(w as int) && v == #[trigger] correlated_value(w as int, nz, u));
            assert(item_drawn(*level, k as int, Item { weight: w, value: v }));
        }
        push_drawn(&mut items, Item { weight: w, value: v }, Ghost(*level));
        k = k + 1;
    }
    items
}

/// Uniform items: any weight and value from one up to the maxima.
fn uniform_items(level: &Level, rng: &mut StdRng) -> (items: Vec<Item>)
    requires
        !is_gem_trap(level.number),
        !is_inverse_density(level.number),
        !uses_float_values(level.number),
        level.number != 4 && level.number != 8 && level.number != 9,
        level.number != 14 && level.number != 16,
        generation_ok(*level),
    ensures
        items@.len() == generated_count(*level),
        all_drawn(*level, items@),
{
    let n = level.num_items;
    let mw = level.max_weight;
    let mv = level.max_value;
    let mut items: Vec<Item> = Vec::new();
    let mut k: usize = 0;
    while k < n
        invariant
            n == level.num_items,
            mw == level.max_weight,
            mv == level.max_value,
            !is_gem_trap(level.number),
            !is_inverse_density(level.number),
            !uses_float_values(level.number),
            level.number != 4 && level.number != 8 && level.number != 9,
            level.number != 14 && level.number != 16,
            generation_ok(*level),
            k <= n,
            items@.len() == k,
            all_drawn(*level, items@),
        decreases n - k,
    {
        let weight = random_u64_in(rng, 1, mw);
        let value = random_u64_in(rng, 1, mv);
        push_drawn(&mut items, Item { weight, value }, Ghost(*level));
        k = k + 1;
    }
    items
}

/// Draws the items of a level whose values are integers (all but levels 13,
/// 17 and 18), in the order the level's recipe gives. Every item lies in the
/// ranges of its position's recipe; how many there are is fixed.
pub fn generate_items(level: &Level, rng: &mut StdRng) -> (items: Vec<Item>)
    requires
        !uses_float_values(level.number),
        generation_ok(*level),
    ensures
        items@.len() == generated_count(*level),
        all_drawn(*level, items@),
{
    let number = level.number;
    if number == 3 || number == 7 || number == 12 || number == 15 {
        gem_trap_items(level, rng)
    } else if number == 4 {
        weight_cliff_items(level, rng)
    } else if number == 5 || number == 10 {
        inverse_density_items(level, rng)
    } else if number == 8 {
        staircase_items(level, rng)
    } else if number == 9 {
        decoy_items(level, rng)
    } else if number == 14 {
        capacity_waster_items(level, rng)
    } else if number == 16 {
        correlated_items(level, rng)
    } else {
        uniform_items(level, rng)
    }
}

/// The first four parts of the nightmare level (level 18), a fifth of its
/// items each; the last part's values are square roots, drawn by the caller
/// from the same generator afterwards.
pub fn nightmare_integer_items(level: &Level, rng: &mut StdRng) -> (items: Vec<Item>)
    requires
        level.number == 18,
    ensures
        items@.len() == 4 * (level.num_items / 5),
        forall|k: int|
            0 <= k < items@.len() ==> nightmare_item_drawn(
                (level.num_items / 5) as int,
                k,
                #[trigger] items@[k],
            ),
{
    let chunk = level.num_items / 5;
    let mut items: Vec<Item> = Vec::new();
    let mut part: usize = 0;
    while part < 4
        invariant
            chunk == level.num_items / 5,
            part <= 4,
            items@.len() == part * chunk,
            forall|k: int| 0 <= k < items@.len() ==> nightmare_item_drawn(chunk as int, k, #[trigger] items@[k]),
        decreases 4 - part,
    {
        let mut k: usize = 0;
        while k < chunk
            invariant
                chunk == level.num_items / 5,
                part < 4,
                k <= chunk,
                items@.len() == part * chunk + k,
                forall|q: int| 0 <= q < items@.len() ==> nightmare_item_drawn(chunk as int, q, #[trigger] items@[q]),
            decreases chunk - k,
        {
            proof {
                assert(part * chunk + k < 4 * chunk) by (nonlinear_arith)
                    requires
                        part < 4,
                        k < chunk,
                ;
                assert(part * chunk <= part * chunk + k < (part + 1) * chunk) by (nonlinear_arith)
                    requires
                        k < chunk,
                ;
            }
            let it = if part == 0 {
                let weight = random_u64_in(rng, 50_000, 100_000);
                let value = random_u64_in(rng, 80_000, 100_000);
                Item { weight, value }
            } else if part == 1 {
                let weight = random_u64_in(rng, 100, 500);
                let value = random_u64_in(rng, 500, 2_000);
                Item { weight, value }
            } else if part == 2 {
                let weight = random_u64_in(rng, 1_000, 50_000);
                let value = weight + random_u64_in(rng, 0, 1_000);
                Item { weight, value }
            } else {
                let base = random_i32_in(rng, 1, 100) as u64;
                let value = random_u64_in(rng, 10_000, 50_000);
                assert(base * 500 == units(base as int, 500));
                Item { weight: base * 500, value }
            };
            let ghost before = items@;
            items.push(it);
            proof {
                let pos = part * chunk + k;
                assert(pos == before.len());
                if part == 0 {
                    assert(pos < chunk);
                } else if part == 1 {
                    assert(chunk <= pos < 2 * chunk);
                } else if part == 2 {
                    assert(2 * chunk <= pos < 3 * chunk);
                } else {
                    assert(3 * chunk <= pos);
                }
                assert(nightmare_item_drawn(chunk as int, pos as int, it));
                assert forall|q: int| 0 <= q < items@.len() implies nightmare_item_drawn(
                    chunk as int,
                    q,
                    #[trigger] items@[q],
                ) by {
                    if q < before.len() {
                        assert(items@[q] == before[q]);
                    }
                }
            }
            k = k + 1;
        }
        proof {
            assert((part + 1) * chunk == part * chunk + chunk) by (nonlinear_arith);
        }
        part = part + 1;
    }
    items
}

/// Whether the level's items can be drawn (see [`generation_ok`]).
pub fn generation_possible(level: &Level) -> (r: bool)
    ensures
        r == generation_ok(*level),
{
    let n = level.num_items as u128;
    let mw = level.max_weight as u128;
    let mv = level.max_value as u128;
    let max = u64::MAX as u128;
    let number = level.number;
    if number == 3 || number == 7 || number == 12 || number == 15 {
        (n / 10 == 0 || (mw * 7 <= max && mv * 8 <= max)) && (n - n / 10 == 0 || mw / 10 >= 1)
    } else if number == 4 {
        mv * 3 <= max && (n <= 1 || (mw / 5 >= 1 && mv / 4 >= 1))
    } else if number == 5 || number == 10 {
        (n / 5 == 0 || 8 * (mv / 5) + mv / 10 <= max) && (n - n / 5 == 0 || mw / 20 >= 1)
    } else if number == 8 {
        let top: u128 = if n >= 10 {
            10
        } else {
            n
        };
        proof {
            assert(top * top <= 100) by (nonlinear_arith)
                requires
                    top <= 10,
            ;
            assert(top * top * (mv / 100) <= 100 * (mv / 100)) by (nonlinear_arith)
                requires
                    top * top <= 100,
            ;
        }
        n == 0 || top * top * (mv / 100) + mv / 50 <= max
    } else if number == 9 {
        n - n / 10 == 0 || (mw / 50 >= 1 && mv / 20 >= 1)
    } else if number == 14 {
        n == 0 || mv >= 1
    } else if number == 16 {
        n == 0 || mw >= 1
    } else if number == 13 || number == 17 || number == 18 {
        true
    } else {
        n == 0 || (mw >= 1 && mv >= 1)
    }
}

} // verus!
