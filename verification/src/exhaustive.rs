//! Exhaustive search: for each item from the first on, try leaving it and
//! taking it, and keep the better; with and without a cache of results.

use crate::masks::{
    all_items, items_value, lemma_mask_of_sums, mask_of, mask_value, mask_weight,
};
use crate::problem::{
    indices_distinct, indices_in_range, is_valid_selection, sum_values,
    sum_weights, weights_positive, Item, KnapsackProblem, KnapsackSolution,
};
use std::collections::HashMap;
use vstd::prelude::*;

verus! {

broadcast use vstd::std_specs::hash::group_hash_axioms;

/// The search's answer for items `idx..` and room `rem`: its value and the
/// indices taken (the later items first). An item is taken only when it
/// fits and taking it is strictly better than leaving it; no room left
/// ends the search.
pub open spec fn best_choice(items: Seq<Item>, idx: int, rem: int) -> (int, Seq<usize>)
    decreases items.len() - idx,
{
    if idx >= items.len() || rem == 0 {
        (0, seq![])
    } else {
        let skip = best_choice(items, idx + 1, rem);
        if items[idx].weight <= rem {
            let take = best_choice(items, idx + 1, rem - items[idx].weight);
            if take.0 + items[idx].value > skip.0 {
                (take.0 + items[idx].value, take.1.push(idx as usize))
            } else {
                skip
            }
        } else {
            skip
        }
    }
}

/// No sum that the search forms from items `idx..` and room `rem` exceeds `u64::MAX`.
pub open spec fn exhaustive_fits(items: Seq<Item>, idx: int, rem: int) -> bool
    decreases items.len() - idx,
{
    if idx >= items.len() || rem == 0 {
        true
    } else {
        &&& exhaustive_fits(items, idx + 1, rem)
        &&& items[idx].weight <= rem ==> {
            &&& exhaustive_fits(items, idx + 1, rem - items[idx].weight)
            &&& best_choice(items, idx + 1, rem - items[idx].weight).0 + items[idx].value
                <= u64::MAX
        }
    }
}

/// The summed value of what `m` marks among positions `idx..` of the items.
pub open spec fn suffix_value(items: Seq<Item>, m: Seq<bool>, idx: int) -> int
    decreases items.len() - idx,
{
    if idx >= items.len() || idx < 0 {
        0
    } else {
        (if m[idx] {
            items[idx].value as int
        } else {
            0
        }) + suffix_value(items, m, idx + 1)
    }
}

/// The summed weight of what `m` marks among positions `idx..` of the items.
pub open spec fn suffix_weight(items: Seq<Item>, m: Seq<bool>, idx: int) -> int
    decreases items.len() - idx,
{
    if idx >= items.len() || idx < 0 {
        0
    } else {
        (if m[idx] {
            items[idx].weight as int
        } else {
            0
        }) + suffix_weight(items, m, idx + 1)
    }
}

proof fn lemma_suffix_nonneg(items: Seq<Item>, m: Seq<bool>, idx: int)
    ensures
        suffix_value(items, m, idx) >= 0,
        suffix_weight(items, m, idx) >= 0,
    decreases items.len() - idx,
{
    if 0 <= idx < items.len() {
        lemma_suffix_nonneg(items, m, idx + 1);
    }
}

/// The sums over positions before `idx` and from `idx` on add up to the whole.
proof fn lemma_prefix_suffix(items: Seq<Item>, m: Seq<bool>, idx: int)
    requires
        0 <= idx <= items.len(),
    ensures
        mask_value(items, m, idx) + suffix_value(items, m, idx) == mask_value(
            items,
            m,
            items.len() as int,
        ),
        mask_weight(items, m, idx) + suffix_weight(items, m, idx) == mask_weight(
            items,
            m,
            items.len() as int,
        ),
    decreases items.len() - idx,
{
    if idx < items.len() {
        lemma_prefix_suffix(items, m, idx + 1);
    }
}

/// With all weights positive, a suffix of weight zero has value zero.
proof fn lemma_weightless_suffix(items: Seq<Item>, m: Seq<bool>, idx: int)
    requires
        weights_positive(items),
        suffix_weight(items, m, idx) <= 0,
    ensures
        suffix_value(items, m, idx) == 0,
    decreases items.len() - idx,
{
    if 0 <= idx < items.len() {
        lemma_suffix_nonneg(items, m, idx + 1);
        lemma_weightless_suffix(items, m, idx + 1);
    }
}

/// What the search returns is worth its stated value, fits the room, and
/// lists distinct items from `idx` on.
pub proof fn lemma_best_choice_sound(items: Seq<Item>, idx: int, rem: int)
    requires
        0 <= idx,
        0 <= rem,
        items.len() <= usize::MAX,
    ensures
        best_choice(items, idx, rem).0 >= 0,
        best_choice(items, idx, rem).0 == sum_values(items, best_choice(items, idx, rem).1),
        sum_weights(items, best_choice(items, idx, rem).1) <= rem,
        forall|k: int|
            0 <= k < best_choice(items, idx, rem).1.len() ==> idx <= #[trigger] best_choice(
                items,
                idx,
                rem,
            ).1[k] < items.len(),
        indices_distinct(best_choice(items, idx, rem).1),
    decreases items.len() - idx,
{
    if idx >= items.len() || rem == 0 {
    } else {
        lemma_best_choice_sound(items, idx + 1, rem);
        if items[idx].weight <= rem {
            let r2 = rem - items[idx].weight;
            lemma_best_choice_sound(items, idx + 1, r2);
            let take = best_choice(items, idx + 1, r2);
            let t = take.1.push(idx as usize);
            assert(t.drop_last() =~= take.1);
            assert forall|a: int, b: int| 0 <= a < b < t.len() implies t[a] != t[b] by {
                if b == t.len() - 1 {
                    assert(t[a] == take.1[a]);
                }
            }
        }
    }
}

/// With all weights positive, nothing that fits among items `idx..` is
/// worth more than the search's answer.
proof fn lemma_best_choice_optimal(items: Seq<Item>, m: Seq<bool>, idx: int, rem: int)
    requires
        weights_positive(items),
        0 <= idx <= items.len(),
        0 <= rem,
        suffix_weight(items, m, idx) <= rem,
    ensures
        suffix_value(items, m, idx) <= best_choice(items, idx, rem).0,
    decreases items.len() - idx,
{
    lemma_suffix_nonneg(items, m, idx);
    if idx == items.len() {
    } else if rem == 0 {
        lemma_weightless_suffix(items, m, idx);
    } else {
        lemma_suffix_nonneg(items, m, idx + 1);
        lemma_best_choice_optimal(items, m, idx + 1, rem);
        if m[idx] {
            let r2 = rem - items[idx].weight;
            lemma_best_choice_optimal(items, m, idx + 1, r2);
        }
    }
}

/// Optimality: when every item weighs something, no feasible answer is
/// worth more than the exhaustive search's.
pub proof fn lemma_exhaustive_optimal(items: Seq<Item>, cap: int, other: Seq<usize>)
    requires
        weights_positive(items),
        0 <= cap,
        items.len() <= usize::MAX,
        is_valid_selection(items, other, cap),
    ensures
        sum_values(items, other) <= best_choice(items, 0, cap).0,
{
    let n = items.len() as int;
    let m = mask_of(other, n);
    lemma_mask_of_sums(items, other, n);
    lemma_prefix_suffix(items, m, 0);
    lemma_best_choice_optimal(items, m, 0, cap);
}

/// The search's value from `idx` on is at most the summed value of items `idx..`.
proof fn lemma_best_choice_bounded(items: Seq<Item>, idx: int, rem: int)
    requires
        0 <= idx <= items.len(),
        0 <= rem,
    ensures
        best_choice(items, idx, rem).0 <= suffix_value(items, all_items(items.len() as int), idx),
    decreases items.len() - idx,
{
    let all = all_items(items.len() as int);
    lemma_suffix_nonneg(items, all, idx);
    if idx < items.len() && rem != 0 {
        lemma_best_choice_bounded(items, idx + 1, rem);
        if items[idx].weight <= rem {
            lemma_best_choice_bounded(items, idx + 1, rem - items[idx].weight);
        }
    }
}

proof fn lemma_fits_from(items: Seq<Item>, idx: int, rem: int)
    requires
        0 <= idx <= items.len(),
        0 <= rem,
        suffix_value(items, all_items(items.len() as int), idx) <= u64::MAX,
    ensures
        exhaustive_fits(items, idx, rem),
    decreases items.len() - idx,
{
    let all = all_items(items.len() as int);
    if idx < items.len() && rem != 0 {
        lemma_suffix_nonneg(items, all, idx + 1);
        lemma_fits_from(items, idx + 1, rem);
        if items[idx].weight <= rem {
            lemma_fits_from(items, idx + 1, rem - items[idx].weight);
            lemma_best_choice_bounded(items, idx + 1, rem - items[idx].weight);
        }
    }
}

/// When all values together fit in a `u64`, the exhaustive search forms no
/// sum that overflows.
pub proof fn lemma_exhaustive_fits(items: Seq<Item>, cap: int)
    requires
        0 <= cap,
        items_value(items) <= u64::MAX,
    ensures
        exhaustive_fits(items, 0, cap),
{
    let all = all_items(items.len() as int);
    lemma_prefix_suffix(items, all, 0);
    lemma_fits_from(items, 0, cap);
}

/// A copy of a list of indices.
fn copy_indices(v: &Vec<usize>) -> (r: Vec<usize>)
    ensures
        r@ == v@,
{
    let mut r: Vec<usize> = Vec::new();
    let mut k: usize = 0;
    while k < v.len()
        invariant
            k <= v@.len(),
            r@ == v@.take(k as int),
        decreases v@.len() - k,
    {
        r.push(v[k]);
        proof {
            assert(v@.take(k + 1) =~= v@.take(k as int).push(v@[k as int]));
        }
        k = k + 1;
    }
    assert(v@.take(v@.len() as int) =~= v@);
    r
}

fn search_from(items: &Vec<Item>, idx: usize, remaining: u64) -> (r: (u64, Vec<usize>))
    requires
        idx <= items@.len(),
        exhaustive_fits(items@, idx as int, remaining as int),
    ensures
        r.0 == best_choice(items@, idx as int, remaining as int).0,
        r.1@ == best_choice(items@, idx as int, remaining as int).1,
    decreases items@.len() - idx,
{
    if idx == items.len() || remaining == 0 {
        return (0, Vec::new());
    }
    let (skip_val, skip_sel) = search_from(items, idx + 1, remaining);
    if items[idx].weight <= remaining {
        let (take_val, mut take_sel) = search_from(items, idx + 1, remaining - items[idx].weight);
        let take_val = take_val + items[idx].value;
        if take_val > skip_val {
            take_sel.push(idx);
            return (take_val, take_sel);
        }
    }
    (skip_val, skip_sel)
}

/// Exhaustive search over all items. Its answer is feasible, and when
/// every item weighs something no feasible answer is worth more.
pub fn solve_recursive(problem: &KnapsackProblem) -> (sol: KnapsackSolution)
    requires
        exhaustive_fits(problem.items@, 0, problem.capacity as int),
    ensures
        sol.selected@ == best_choice(problem.items@, 0, problem.capacity as int).1,
        is_valid_selection(problem.items@, sol.selected@, problem.capacity as int),
        weights_positive(problem.items@) ==> forall|other: Seq<usize>|
            is_valid_selection(problem.items@, other, problem.capacity as int) ==> sum_values(
                problem.items@,
                other,
            ) <= sum_values(problem.items@, sol.selected@),
{
    let (_, selected) = search_from(&problem.items, 0, problem.capacity);
    let n = problem.items.len();
    proof {
        assert(problem.items@.len() == n);
        lemma_exhaustive_laws(problem.items@, problem.capacity as int);
    }
    KnapsackSolution { selected }
}

proof fn lemma_exhaustive_laws(items: Seq<Item>, cap: int)
    requires
        0 <= cap,
        items.len() <= usize::MAX,
    ensures
        is_valid_selection(items, best_choice(items, 0, cap).1, cap),
        weights_positive(items) ==> forall|other: Seq<usize>|
            is_valid_selection(items, other, cap) ==> sum_values(items, other) <= sum_values(
                items,
                best_choice(items, 0, cap).1,
            ),
{
    lemma_best_choice_sound(items, 0, cap);
    let sel = best_choice(items, 0, cap).1;
    assert(indices_in_range(sel, items.len() as int)) by {
        assert forall|k: int| 0 <= k < sel.len() implies sel[k] < items.len() by {
            assert(0 <= #[trigger] sel[k] < items.len());
        }
    }
    if weights_positive(items) {
        assert forall|other: Seq<usize>| is_valid_selection(items, other, cap) implies sum_values(
            items,
            other,
        ) <= sum_values(items, sel) by {
            lemma_exhaustive_optimal(items, cap, other);
        }
    }
}

/// The cache key of `(idx, rem)`: distinct pairs give distinct keys.
pub open spec fn memo_key(idx: int, rem: int) -> int {
    idx * 0x1_0000_0000_0000_0000 + rem
}

proof fn lemma_memo_key_injective(i: int, r: int, j: int, s: int)
    requires
        0 <= r < 0x1_0000_0000_0000_0000,
        0 <= s < 0x1_0000_0000_0000_0000,
        memo_key(i, r) == memo_key(j, s),
    ensures
        i == j,
        r == s,
{
    assert(i == j) by (nonlinear_arith)
        requires
            0 <= r < 0x1_0000_0000_0000_0000,
            0 <= s < 0x1_0000_0000_0000_0000,
            i * 0x1_0000_0000_0000_0000 + r == j * 0x1_0000_0000_0000_0000 + s,
    ;
}

/// Every cached entry holds the search's answer for its key.
pub open spec fn cache_holds_answers(items: Seq<Item>, m: Map<u128, (u64, Vec<usize>)>) -> bool {
    forall|i: int, r: int|
        0 <= i <= items.len() && 0 <= r <= u64::MAX && #[trigger] m.contains_key(
            memo_key(i, r) as u128,
        ) ==> m[memo_key(i, r) as u128].0 == best_choice(items, i, r).0 && m[memo_key(
            i,
            r,
        ) as u128].1@ == best_choice(items, i, r).1
}

fn memo_key_exec(idx: usize, remaining: u64) -> (k: u128)
    ensures
        k == memo_key(idx as int, remaining as int),
{
    proof {
        assert(idx * 0x1_0000_0000_0000_0000 + remaining < 0x1_0000_0000_0000_0000_0000_0000_0000_0000)
            by (nonlinear_arith)
            requires
                idx <= 0xffff_ffff_ffff_ffffu64,
                remaining <= 0xffff_ffff_ffff_ffffu64,
        ;
    }
    (idx as u128) * 0x1_0000_0000_0000_0000u128 + (remaining as u128)
}

fn search_from_cached(
    items: &Vec<Item>,
    idx: usize,
    remaining: u64,
    cache: &mut HashMap<u128, (u64, Vec<usize>)>,
) -> (r: (u64, Vec<usize>))
    requires
        idx <= items@.len(),
        exhaustive_fits(items@, idx as int, remaining as int),
        cache_holds_answers(items@, old(cache)@),
    ensures
        cache_holds_answers(items@, final(cache)@),
        r.0 == best_choice(items@, idx as int, remaining as int).0,
        r.1@ == best_choice(items@, idx as int, remaining as int).1,
    decreases items@.len() - idx,
{
    if idx == items.len() || remaining == 0 {
        return (0, Vec::new());
    }
    let key = memo_key_exec(idx, remaining);
    match cache.get(&key) {
        Some(cached) => {
            assert(cache@.contains_key(memo_key(idx as int, remaining as int) as u128));
            return (cached.0, copy_indices(&cached.1));
        },
        None => {},
    }
    let (skip_val, skip_sel) = search_from_cached(items, idx + 1, remaining, cache);
    let best = if items[idx].weight <= remaining {
        let (take_val, mut take_sel) = search_from_cached(
            items,
            idx + 1,
            remaining - items[idx].weight,
            cache,
        );
        let take_val = take_val + items[idx].value;
        if take_val > skip_val {
            take_sel.push(idx);
            (take_val, take_sel)
        } else {
            (skip_val, skip_sel)
        }
    } else {
        (skip_val, skip_sel)
    };
    let ghost before = cache@;
    cache.insert(key, (best.0, copy_indices(&best.1)));
    proof {
        assert forall|i: int, r: int|
            0 <= i <= items@.len() && 0 <= r <= u64::MAX && #[trigger] cache@.contains_key(
                memo_key(i, r) as u128,
            ) implies cache@[memo_key(i, r) as u128].0 == best_choice(items@, i, r).0
            && cache@[memo_key(i, r) as u128].1@ == best_choice(items@, i, r).1 by {
            if memo_key(i, r) as u128 == key {
                lemma_memo_key_injective(i, r, idx as int, remaining as int);
            } else {
                assert(before.contains_key(memo_key(i, r) as u128));
            }
        }
    }
    best
}

/// Exhaustive search with a cache of answers per `(item, room)`: the same
/// answer as [`solve_recursive`], so feasible, and optimal when every item
/// weighs something.
pub fn solve_recursive_memo(problem: &KnapsackProblem) -> (sol: KnapsackSolution)
    requires
        exhaustive_fits(problem.items@, 0, problem.capacity as int),
    ensures
        sol.selected@ == best_choice(problem.items@, 0, problem.capacity as int).1,
        is_valid_selection(problem.items@, sol.selected@, problem.capacity as int),
        weights_positive(problem.items@) ==> forall|other: Seq<usize>|
            is_valid_selection(problem.items@, other, problem.capacity as int) ==> sum_values(
                problem.items@,
                other,
            ) <= sum_values(problem.items@, sol.selected@),
{
    let mut cache: HashMap<u128, (u64, Vec<usize>)> = HashMap::new();
    assert(cache_holds_answers(problem.items@, cache@));
    let (_, selected) = search_from_cached(&problem.items, 0, problem.capacity, &mut cache);
    let n = problem.items.len();
    proof {
        assert(problem.items@.len() == n);
        lemma_exhaustive_laws(problem.items@, problem.capacity as int);
    }
    KnapsackSolution { selected }
}

} // verus!
