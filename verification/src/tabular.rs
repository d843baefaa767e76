//! The table of best values per item prefix and room, filled row by row in
//! one array, then walked back to find the items taken.

use crate::exhaustive::{best_choice, lemma_best_choice_sound, lemma_exhaustive_optimal};
use crate::greedy::{greedy_fill, lemma_greedy_fill_valid};
use crate::masks::{
    all_items, items_value, lemma_mask_monotone, lemma_mask_nonneg, lemma_mask_of_sums, mask_of,
    mask_value, mask_weight,
};
use crate::problem::{
    all_false, indices_distinct, indices_in_range, is_valid_selection, sum_values, sum_weights,
    weights_positive, Item, KnapsackProblem, KnapsackSolution,
};
use vstd::prelude::*;

verus! {

/// The best value that items `0..i` reach within room `c`: row `i` of the
/// table. Row `i + 1` takes item `i` at room `c` exactly when it fits and
/// doing so is strictly better.
pub open spec fn dp_value(items: Seq<Item>, i: int, c: int) -> int
    decreases i,
{
    if i <= 0 {
        0
    } else {
        let w = items[i - 1].weight as int;
        let v = items[i - 1].value as int;
        if w <= c && dp_value(items, i - 1, c - w) + v > dp_value(items, i - 1, c) {
            dp_value(items, i - 1, c - w) + v
        } else {
            dp_value(items, i - 1, c)
        }
    }
}

/// Whether row `i + 1` takes item `i` at room `c`.
pub open spec fn dp_keeps(items: Seq<Item>, i: int, c: int) -> bool {
    items[i].weight <= c && dp_value(items, i, c - items[i].weight) + items[i].value > dp_value(
        items,
        i,
        c,
    )
}

/// The value of taking item `i` on top of row `i` at room `c` less its weight.
pub open spec fn dp_take_value(items: Seq<Item>, i: int, c: int) -> int {
    dp_value(items, i, c - items[i].weight) + items[i].value
}

/// No sum that filling the table up to room `cap` forms exceeds `u64::MAX`.
pub open spec fn dp_fits(items: Seq<Item>, cap: int) -> bool {
    forall|i: int, c: int|
        0 <= i < items.len() && items[i].weight <= c <= cap ==> #[trigger] dp_take_value(
            items,
            i,
            c,
        ) <= u64::MAX
}

/// The table is judged too large to build: `n * cap + 8 * cap` bytes above
/// two billion.
pub open spec fn dp_too_large(n: int, cap: int) -> bool {
    n * cap + cap * 8 > 2_000_000_000
}

/// The table is given up on exactly when its estimated size, one byte per
/// cell of `n` rows by `cap` columns plus eight bytes per column, exceeds
/// two billion bytes.
pub proof fn lemma_table_limit(n: int, cap: int)
    ensures
        dp_too_large(n, cap) <==> n * cap + 8 * cap > 2_000_000_000,
{
}

/// Walking back from the last item down to item `k`: an item is taken when
/// its row took it at the room left. Gives the items taken and the room left.
pub open spec fn dp_walk(items: Seq<Item>, cap: int, k: int) -> (Seq<usize>, int)
    decreases items.len() - k,
{
    if k >= items.len() || k < 0 {
        (seq![], cap)
    } else {
        let (s, r) = dp_walk(items, cap, k + 1);
        if dp_keeps(items, k, r) {
            (s.push(k as usize), r - items[k].weight)
        } else {
            (s, r)
        }
    }
}

proof fn lemma_dp_nonneg(items: Seq<Item>, i: int, c: int)
    ensures
        dp_value(items, i, c) >= 0,
    decreases i,
{
    if i > 0 {
        lemma_dp_nonneg(items, i - 1, c);
    }
}

/// The table's row `i` bounds every mask over items `0..i` that fits in room `c`.
proof fn lemma_dp_optimal(items: Seq<Item>, m: Seq<bool>, i: int, c: int)
    requires
        0 <= i <= m.len(),
        i <= items.len(),
        0 <= c,
        mask_weight(items, m, i) <= c,
    ensures
        mask_value(items, m, i) <= dp_value(items, i, c),
    decreases i,
{
    if i > 0 {
        lemma_mask_nonneg(items, m, i - 1);
        let w = items[i - 1].weight as int;
        if m[i - 1] {
            lemma_dp_optimal(items, m, i - 1, c - w);
        } else {
            lemma_dp_optimal(items, m, i - 1, c);
        }
    }
}

/// Row `i` never exceeds the summed value of items `0..i`.
proof fn lemma_dp_bounded(items: Seq<Item>, i: int, c: int)
    requires
        0 <= i <= items.len(),
    ensures
        dp_value(items, i, c) <= mask_value(items, all_items(items.len() as int), i),
    decreases i,
{
    if i > 0 {
        lemma_dp_bounded(items, i - 1, c);
        lemma_dp_bounded(items, i - 1, c - items[i - 1].weight);
    }
}

/// When all values together fit in a `u64`, filling the table forms no sum
/// that overflows.
pub proof fn lemma_dp_fits(items: Seq<Item>, cap: int)
    requires
        items_value(items) <= u64::MAX,
    ensures
        dp_fits(items, cap),
{
    let all = all_items(items.len() as int);
    assert forall|i: int, c: int|
        0 <= i < items.len() && items[i].weight <= c <= cap implies #[trigger] dp_take_value(
            items,
            i,
            c,
        ) <= u64::MAX by {
        lemma_dp_bounded(items, i, c - items[i].weight);
        lemma_mask_monotone(items, all, i + 1, items.len() as int);
    }
}

/// The walk back collects items worth what the table promises, within the room.
proof fn lemma_dp_walk(items: Seq<Item>, cap: int, k: int)
    requires
        0 <= k <= items.len(),
        0 <= cap,
        items.len() <= usize::MAX,
    ensures
        dp_walk(items, cap, k).1 >= 0,
        sum_weights(items, dp_walk(items, cap, k).0) + dp_walk(items, cap, k).1 == cap,
        sum_values(items, dp_walk(items, cap, k).0) + dp_value(items, k, dp_walk(items, cap, k).1)
            == dp_value(items, items.len() as int, cap),
        forall|p: int|
            0 <= p < dp_walk(items, cap, k).0.len() ==> k <= #[trigger] dp_walk(
                items,
                cap,
                k,
            ).0[p] < items.len(),
        indices_distinct(dp_walk(items, cap, k).0),
    decreases items.len() - k,
{
    if k < items.len() {
        lemma_dp_walk(items, cap, k + 1);
        let (s, r) = dp_walk(items, cap, k + 1);
        if dp_keeps(items, k, r) {
            let t = s.push(k as usize);
            assert(t.drop_last() =~= s);
            assert forall|a: int, b: int| 0 <= a < b < t.len() implies t[a] != t[b] by {
                if b == t.len() - 1 {
                    assert(t[a] == s[a]);
                    assert(k + 1 <= s[a]);
                }
            }
        }
    }
}

/// Fills the table and walks it back. When the table would be too large, the
/// answer is empty; otherwise it is feasible and no feasible answer is worth more.
pub fn solve_tabular_dp(problem: &KnapsackProblem) -> (sol: KnapsackSolution)
    requires
        !dp_too_large(problem.items@.len() as int, problem.capacity as int) ==> dp_fits(
            problem.items@,
            problem.capacity as int,
        ),
    ensures
        dp_too_large(problem.items@.len() as int, problem.capacity as int) ==> sol.selected@
            == Seq::<usize>::empty(),
        problem.items@.len() * problem.capacity + 8 * problem.capacity > 2_000_000_000
            ==> sol.selected@ == Seq::<usize>::empty(),
        problem.items@.len() * problem.capacity + 8 * problem.capacity <= 2_000_000_000 ==> {
            &&& is_valid_selection(problem.items@, sol.selected@, problem.capacity as int)
            &&& forall|other: Seq<usize>|
                is_valid_selection(problem.items@, other, problem.capacity as int) ==> sum_values(
                    problem.items@,
                    other,
                ) <= sum_values(problem.items@, sol.selected@)
        },
        !dp_too_large(problem.items@.len() as int, problem.capacity as int) ==> {
            &&& sol.selected@ == dp_walk(problem.items@, problem.capacity as int, 0).0
            &&& is_valid_selection(problem.items@, sol.selected@, problem.capacity as int)
            &&& forall|other: Seq<usize>|
                is_valid_selection(problem.items@, other, problem.capacity as int) ==> sum_values(
                    problem.items@,
                    other,
                ) <= sum_values(problem.items@, sol.selected@)
        },
{
    let ghost items = problem.items@;
    let n = problem.items.len();
    let capacity = problem.capacity;
    proof {
        lemma_table_limit(n as int, capacity as int);
        assert((n as int) * (capacity as int) <= 0xffff_ffff_ffff_ffffu128 * 0xffff_ffff_ffff_ffffu128)
            by (nonlinear_arith)
            requires
                n <= 0xffff_ffff_ffff_ffffu64,
                capacity <= 0xffff_ffff_ffff_ffffu64,
        ;
    }
    let cells = (n as u128) * (capacity as u128);
    if cells > 2_000_000_000 || cells + (capacity as u128) * 8 > 2_000_000_000 {
        return KnapsackSolution { selected: Vec::new() };
    }
    let cap = capacity as usize;
    let mut dp: Vec<u64> = Vec::new();
    let mut c: usize = 0;
    while c <= cap
        invariant
            cap == capacity,
            cap < 1_000_000_000,
            c <= cap + 1,
            dp@.len() == c,
            forall|d: int| 0 <= d < c ==> dp@[d] == 0,
        decreases cap + 1 - c,
    {
        dp.push(0);
        c = c + 1;
    }
    let mut keep: Vec<Vec<bool>> = Vec::new();
    let mut i: usize = 0;
    while i < n
        invariant
            items == problem.items@,
            n == items.len(),
            cap == capacity,
            cap < 1_000_000_000,
            dp_fits(items, cap as int),
            i <= n,
            dp@.len() == cap + 1,
            forall|d: int| 0 <= d <= cap ==> #[trigger] dp@[d] == dp_value(items, i as int, d),
            keep@.len() == i,
            forall|r: int| 0 <= r < i ==> (#[trigger] keep@[r])@.len() == cap + 1,
            forall|r: int, d: int|
                0 <= r < i && 0 <= d <= cap ==> (#[trigger] keep@[r]@[d] == dp_keeps(items, r, d)),
        decreases n - i,
    {
        let weight = problem.items[i].weight;
        let value = problem.items[i].value;
        let mut row = all_false(cap + 1);
        if weight <= capacity {
            let w = weight as usize;
            let mut c: usize = cap + 1;
            while c > w
                invariant
                    items == problem.items@,
                    n == items.len(),
                    i < n,
                    weight == items[i as int].weight,
                    value == items[i as int].value,
                    w == weight,
                    w <= cap,
                    cap == capacity,
                    cap < 1_000_000_000,
                    dp_fits(items, cap as int),
                    w <= c <= cap + 1,
                    dp@.len() == cap + 1,
                    row@.len() == cap + 1,
                    forall|d: int| 0 <= d < c ==> #[trigger] dp@[d] == dp_value(items, i as int, d),
                    forall|d: int|
                        c <= d <= cap ==> #[trigger] dp@[d] == dp_value(items, i + 1, d),
                    forall|d: int| 0 <= d < c ==> !#[trigger] row@[d],
                    forall|d: int| c <= d <= cap ==> #[trigger] row@[d] == dp_keeps(items, i as int, d),
                decreases c - w,
            {
                c = c - 1;
                let prev = dp[c - w];
                proof {
                    assert(dp_take_value(items, i as int, c as int) <= u64::MAX);
                }
                if prev + value > dp[c] {
                    dp.set(c, prev + value);
                    row.set(c, true);
                }
            }
            proof {
                assert forall|d: int| 0 <= d < c implies #[trigger] dp@[d] == dp_value(items, i + 1, d) by {
                }
                assert forall|d: int| 0 <= d < c implies #[trigger] row@[d] == dp_keeps(items, i as int, d) by {
                }
            }
        }
        proof {
            assert forall|d: int| 0 <= d <= cap implies #[trigger] dp@[d] == dp_value(items, i + 1, d) by {
            }
        }
        keep.push(row);
        i = i + 1;
    }
    let mut selected: Vec<usize> = Vec::new();
    let mut remaining: usize = cap;
    let mut i: usize = n;
    while i > 0
        invariant
            items == problem.items@,
            n == items.len(),
            cap == capacity,
            i <= n,
            keep@.len() == n,
            forall|r: int| 0 <= r < n ==> (#[trigger] keep@[r])@.len() == cap + 1,
            forall|r: int, d: int|
                0 <= r < n && 0 <= d <= cap ==> (#[trigger] keep@[r]@[d] == dp_keeps(items, r, d)),
            remaining <= cap,
            (selected@, remaining as int) == dp_walk(items, cap as int, i as int),
        decreases i,
    {
        i = i - 1;
        if keep[i][remaining] {
            selected.push(i);
            remaining = remaining - problem.items[i].weight as usize;
        }
    }
    proof {
        lemma_dp_walk(items, cap as int, 0);
        lemma_dp_nonneg(items, 0, remaining as int);
        let s = selected@;
        assert(indices_in_range(s, n as int)) by {
            assert forall|p: int| 0 <= p < s.len() implies s[p] < n by {
                assert(0 <= #[trigger] s[p] < n);
            }
        }
        assert forall|other: Seq<usize>| is_valid_selection(items, other, cap as int) implies sum_values(
            items,
            other,
        ) <= sum_values(items, s) by {
            let m = mask_of(other, n as int);
            lemma_mask_of_sums(items, other, n as int);
            lemma_dp_optimal(items, m, n as int, cap as int);
        }
    }
    KnapsackSolution { selected }
}

/// The two exact solvers agree on the optimal value when every item weighs
/// something: the walk back through the table and the exhaustive search
/// find answers of equal value.
pub proof fn lemma_exact_solvers_agree(items: Seq<Item>, cap: int)
    requires
        weights_positive(items),
        0 <= cap,
        items.len() <= usize::MAX,
    ensures
        sum_values(items, best_choice(items, 0, cap).1) == sum_values(items, dp_walk(items, cap, 0).0),
{
    let n = items.len() as int;
    lemma_dp_walk(items, cap, 0);
    let walk = dp_walk(items, cap, 0);
    lemma_dp_nonneg(items, 0, walk.1);
    assert(indices_in_range(walk.0, n)) by {
        assert forall|p: int| 0 <= p < walk.0.len() implies walk.0[p] < n by {
            assert(0 <= #[trigger] walk.0[p] < n);
        }
    }
    lemma_exhaustive_optimal(items, cap, walk.0);
    lemma_best_choice_sound(items, 0, cap);
    let best = best_choice(items, 0, cap).1;
    assert(indices_in_range(best, n)) by {
        assert forall|p: int| 0 <= p < best.len() implies best[p] < n by {
            assert(0 <= #[trigger] best[p] < n);
        }
    }
    lemma_mask_of_sums(items, best, n);
    lemma_dp_optimal(items, mask_of(best, n), n, cap);
}

/// The table's answer is worth at least as much as the greedy pass over any
/// order of distinct items, so at least the greedy baseline.
pub proof fn lemma_exact_at_least_greedy(items: Seq<Item>, cap: int, order: Seq<usize>)
    requires
        0 <= cap,
        items.len() <= usize::MAX,
        indices_in_range(order, items.len() as int),
        indices_distinct(order),
    ensures
        sum_values(items, greedy_fill(items, order, cap, order.len() as int).0) <= sum_values(
            items,
            dp_walk(items, cap, 0).0,
        ),
{
    let n = items.len() as int;
    let g = greedy_fill(items, order, cap, order.len() as int).0;
    lemma_greedy_fill_valid(items, order, cap, order.len() as int);
    lemma_dp_walk(items, cap, 0);
    lemma_dp_nonneg(items, 0, dp_walk(items, cap, 0).1);
    lemma_mask_of_sums(items, g, n);
    lemma_dp_optimal(items, mask_of(g, n), n, cap);
}

} // verus!
