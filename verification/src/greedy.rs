//! The greedy pass: walk the items in a given order and take each one that
//! still fits in what is left of the capacity.

use crate::problem::{
    indices_distinct, indices_in_range, is_valid_selection, sum_weights, Item,
    KnapsackProblem, KnapsackSolution,
};
use vstd::prelude::*;

verus! {

/// The greedy pass over the first `k` positions of `order`: an item is taken
/// when it fits in what is left. Gives what was taken and what is left.
pub open spec fn greedy_fill(items: Seq<Item>, order: Seq<usize>, cap: int, k: int) -> (
    Seq<usize>,
    int,
)
    decreases k,
{
    if k <= 0 {
        (seq![], cap)
    } else {
        let (taken, left) = greedy_fill(items, order, cap, k - 1);
        let i = order[k - 1];
        if items[i as int].weight <= left {
            (taken.push(i), left - items[i as int].weight)
        } else {
            (taken, left)
        }
    }
}

/// The greedy answer for a given visiting order: each item of `order`, in
/// turn, is taken when its weight fits in what is left. Over an order that
/// names no item twice, the answer is always feasible.
pub fn greedy_pass(problem: &KnapsackProblem, order: &Vec<usize>) -> (sol: KnapsackSolution)
    requires
        indices_in_range(order@, problem.items@.len() as int),
    ensures
        sol.selected@ == greedy_fill(
            problem.items@,
            order@,
            problem.capacity as int,
            order@.len() as int,
        ).0,
        indices_distinct(order@) ==> is_valid_selection(
            problem.items@,
            sol.selected@,
            problem.capacity as int,
        ),
        forall|q: int|
            0 <= q < order@.len() && !sol.selected@.contains(#[trigger] order@[q]) ==> problem.items@[order@[q] as int].weight
                + sum_weights(problem.items@, sol.selected@) > problem.capacity,
{
    let ghost items = problem.items@;
    let ghost cap = problem.capacity as int;
    let ghost ord = order@;
    let n = problem.items.len();
    let mut remaining = problem.capacity;
    let mut selected: Vec<usize> = Vec::new();
    let mut k: usize = 0;
    while k < order.len()
        invariant
            n == items.len(),
            items == problem.items@,
            cap == problem.capacity,
            ord == order@,
            indices_in_range(ord, n as int),
            k <= ord.len(),
            (selected@, remaining as int) == greedy_fill(items, ord, cap, k as int),
        decreases ord.len() - k,
    {
        let i = order[k];
        if problem.items[i].weight <= remaining {
            selected.push(i);
            remaining = remaining - problem.items[i].weight;
        }
        k = k + 1;
    }
    proof {
        lemma_greedy_leaves_out_only_what_does_not_fit(items, ord, cap, ord.len() as int);
        if indices_distinct(ord) {
            lemma_greedy_fill_valid(items, ord, cap, ord.len() as int);
        }
    }
    KnapsackSolution { selected }
}

/// Over any visiting order, the greedy pass leaves out only what no longer
/// fits: the room left is the capacity less the weight taken, and every
/// item of the order that was not taken weighs more than that room.
pub proof fn lemma_greedy_leaves_out_only_what_does_not_fit(
    items: Seq<Item>,
    order: Seq<usize>,
    cap: int,
    k: int,
)
    requires
        0 <= cap,
        0 <= k <= order.len(),
        indices_in_range(order, items.len() as int),
    ensures
        greedy_fill(items, order, cap, k).1 == cap - sum_weights(items, greedy_fill(items, order, cap, k).0),
        greedy_fill(items, order, cap, k).1 >= 0,
        forall|q: int|
            0 <= q < k && !greedy_fill(items, order, cap, k).0.contains(#[trigger] order[q])
                ==> items[order[q] as int].weight > greedy_fill(items, order, cap, k).1,
    decreases k,
{
    if k > 0 {
        lemma_greedy_leaves_out_only_what_does_not_fit(items, order, cap, k - 1);
        let (s, l) = greedy_fill(items, order, cap, k - 1);
        let i = order[k - 1];
        if items[i as int].weight <= l {
            let t = s.push(i);
            assert(t.drop_last() =~= s);
            assert(t[t.len() - 1] == i);
            assert forall|q: int|
                0 <= q < k && !t.contains(#[trigger] order[q]) implies items[order[q] as int].weight > l
                - items[i as int].weight by {
                if q < k - 1 {
                    if s.contains(order[q]) {
                        let p = choose|p: int| 0 <= p < s.len() && s[p] == order[q];
                        assert(t[p] == order[q]);
                    }
                } else {
                    assert(t.contains(order[q]));
                }
            }
        }
    }
}

/// `pos` places each item of `taken` at its own position of `order`, in
/// increasing positions.
pub open spec fn placed_in_order(order: Seq<usize>, taken: Seq<usize>, pos: Seq<int>) -> bool {
    &&& pos.len() == taken.len()
    &&& forall|j: int| 0 <= j < pos.len() ==> 0 <= #[trigger] pos[j] < order.len() && order[pos[j]] == taken[j]
    &&& forall|a: int, b: int| 0 <= a < b < pos.len() ==> pos[a] < pos[b]
}

/// The greedy pass decides each position when it comes to it: what it takes
/// is a subsequence of the order, and at every position it did not take, the
/// item there weighs more than the room left by the items taken before it.
pub proof fn lemma_greedy_skips_only_what_does_not_fit_then(
    items: Seq<Item>,
    order: Seq<usize>,
    cap: int,
    k: int,
)
    requires
        0 <= cap,
        0 <= k <= order.len(),
        indices_in_range(order, items.len() as int),
    ensures
        exists|pos: Seq<int>|
            #[trigger] placed_in_order(order, greedy_fill(items, order, cap, k).0, pos) && (forall|j: int|
                0 <= j < pos.len() ==> pos[j] < k) && forall|q: int, c: int|
                0 <= q < k && 0 <= c <= pos.len() && (c == 0 || pos[c - 1] < q) && (c == pos.len() || q
                    < pos[c]) ==> items[#[trigger] order[q] as int].weight > cap - sum_weights(
                    items,
                    #[trigger] greedy_fill(items, order, cap, k).0.take(c),
                ),
    decreases k,
{
    let taken = greedy_fill(items, order, cap, k).0;
    if k == 0 {
        let pos = Seq::<int>::empty();
        assert(placed_in_order(order, taken, pos));
    } else {
        lemma_greedy_skips_only_what_does_not_fit_then(items, order, cap, k - 1);
        lemma_greedy_leaves_out_only_what_does_not_fit(items, order, cap, k - 1);
        let (s, l) = greedy_fill(items, order, cap, k - 1);
        let pos = choose|pos: Seq<int>|
            #[trigger] placed_in_order(order, s, pos) && (forall|j: int| 0 <= j < pos.len() ==> pos[j] < k - 1)
                && forall|q: int, c: int|
                0 <= q < k - 1 && 0 <= c <= pos.len() && (c == 0 || pos[c - 1] < q) && (c == pos.len() || q
                    < pos[c]) ==> items[#[trigger] order[q] as int].weight > cap - sum_weights(
                    items,
                    #[trigger] s.take(c),
                );
        let i = order[k - 1];
        if items[i as int].weight <= l {
            let p2 = pos.push(k - 1);
            assert(taken == s.push(i));
            assert(placed_in_order(order, taken, p2));
            assert forall|q: int, c: int|
                0 <= q < k && 0 <= c <= p2.len() && (c == 0 || p2[c - 1] < q) && (c == p2.len() || q
                    < p2[c]) implies items[#[trigger] order[q] as int].weight > cap - sum_weights(
                    items,
                    #[trigger] taken.take(c),
                ) by {
                assert(c <= s.len());
                assert(taken.take(c) =~= s.take(c));
                if c == s.len() {
                    assert(q < k - 1);
                } else {
                    assert(p2[c] == pos[c]);
                }
                if c > 0 {
                    assert(p2[c - 1] == pos[c - 1]);
                }
            }
        } else {
            assert(taken == s);
            assert forall|q: int, c: int|
                0 <= q < k && 0 <= c <= pos.len() && (c == 0 || pos[c - 1] < q) && (c == pos.len() || q
                    < pos[c]) implies items[#[trigger] order[q] as int].weight > cap - sum_weights(
                    items,
                    #[trigger] taken.take(c),
                ) by {
                if q == k - 1 {
                    if c < pos.len() {
                        assert(pos[c] < k - 1);
                    }
                    assert(c == s.len());
                    assert(s.take(c) =~= s);
                }
            }
        }
    }
}

/// The greedy pass over distinct item indices takes distinct items from
/// among those visited, and what is left is the room minus their weight.
pub proof fn lemma_greedy_fill_valid(items: Seq<Item>, order: Seq<usize>, cap: int, k: int)
    requires
        0 <= cap,
        0 <= k <= order.len(),
        indices_in_range(order, items.len() as int),
        indices_distinct(order),
    ensures
        greedy_fill(items, order, cap, k).1 == cap - sum_weights(items, greedy_fill(items, order, cap, k).0),
        greedy_fill(items, order, cap, k).1 >= 0,
        forall|p: int|
            0 <= p < greedy_fill(items, order, cap, k).0.len() ==> exists|q: int|
                0 <= q < k && order[q] == #[trigger] greedy_fill(items, order, cap, k).0[p],
        is_valid_selection(items, greedy_fill(items, order, cap, k).0, cap),
    decreases k,
{
    if k > 0 {
        lemma_greedy_fill_valid(items, order, cap, k - 1);
        let (s, left) = greedy_fill(items, order, cap, k - 1);
        let i = order[k - 1];
        if items[i as int].weight <= left {
            let t = s.push(i);
            assert(t.drop_last() =~= s);
            assert forall|p: int| 0 <= p < s.len() implies s[p] != i by {
                let q = choose|q: int| 0 <= q < k - 1 && order[q] == #[trigger] s[p];
                assert(order[q] != order[k - 1]);
            }
            assert forall|p: int| 0 <= p < t.len() implies exists|q: int|
                0 <= q < k && order[q] == #[trigger] t[p] by {
                if p == t.len() - 1 {
                    assert(order[k - 1] == t[p]);
                } else {
                    assert(t[p] == s[p]);
                    let q = choose|q: int| 0 <= q < k - 1 && order[q] == #[trigger] s[p];
                }
            }
            assert forall|a: int, b: int| 0 <= a < b < t.len() implies t[a] != t[b] by {
                if b < t.len() - 1 {
                    assert(t[a] == s[a] && t[b] == s[b]);
                } else {
                    assert(t[a] == s[a]);
                }
            }
            assert(indices_in_range(t, items.len() as int)) by {
                assert forall|p: int| 0 <= p < t.len() implies t[p] < items.len() by {
                    if p < t.len() - 1 {
                        assert(t[p] == s[p]);
                    }
                }
            }
        } else {
            assert forall|p: int| 0 <= p < s.len() implies exists|q: int|
                0 <= q < k && order[q] == #[trigger] s[p] by {
                let q = choose|q: int| 0 <= q < k - 1 && order[q] == #[trigger] s[p];
            }
        }
    }
}

} // verus!
