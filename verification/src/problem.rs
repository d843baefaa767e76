//! Knapsack instances, selections of items and what they are worth.

use vstd::prelude::*;

verus! {

/// One item: what it weighs and what it is worth.
#[derive(Debug, Clone)]
pub struct Item {
    pub weight: u64,
    pub value: u64,
}

/// A 0/1 knapsack instance: the items and the weight that the knapsack holds.
#[derive(Debug, Clone)]
pub struct KnapsackProblem {
    pub items: Vec<Item>,
    pub capacity: u64,
}

/// An answer: the indices of the chosen items.
#[derive(Debug, Clone)]
pub struct KnapsackSolution {
    pub selected: Vec<usize>,
}

/// The summed value of the items at the indices of `sel`, counted with repetition.
pub open spec fn sum_values(items: Seq<Item>, sel: Seq<usize>) -> int
    decreases sel.len(),
{
    if sel.len() == 0 {
        0
    } else {
        sum_values(items, sel.drop_last()) + items[sel.last() as int].value
    }
}

/// The summed weight of the items at the indices of `sel`, counted with repetition.
pub open spec fn sum_weights(items: Seq<Item>, sel: Seq<usize>) -> int
    decreases sel.len(),
{
    if sel.len() == 0 {
        0
    } else {
        sum_weights(items, sel.drop_last()) + items[sel.last() as int].weight
    }
}

/// Every index of `sel` names an item.
pub open spec fn indices_in_range(sel: Seq<usize>, n: int) -> bool {
    forall|k: int| 0 <= k < sel.len() ==> sel[k] < n
}

/// No index occurs twice in `sel`.
pub open spec fn indices_distinct(sel: Seq<usize>) -> bool {
    forall|a: int, b: int| 0 <= a < b < sel.len() ==> sel[a] != sel[b]
}

/// A feasible answer: distinct indices of items whose weights sum to at most `cap`.
pub open spec fn is_valid_selection(items: Seq<Item>, sel: Seq<usize>, cap: int) -> bool {
    &&& indices_in_range(sel, items.len() as int)
    &&& indices_distinct(sel)
    &&& sum_weights(items, sel) <= cap
}

/// All items weigh something.
pub open spec fn weights_positive(items: Seq<Item>) -> bool {
    forall|i: int| 0 <= i < items.len() ==> items[i].weight > 0
}

pub proof fn lemma_sums_nonneg(items: Seq<Item>, sel: Seq<usize>)
    ensures
        sum_values(items, sel) >= 0,
        sum_weights(items, sel) >= 0,
    decreases sel.len(),
{
    if sel.len() > 0 {
        lemma_sums_nonneg(items, sel.drop_last());
    }
}

/// Sums over a prefix of a selection never exceed the sums over all of it.
pub proof fn lemma_prefix_sums_le(items: Seq<Item>, sel: Seq<usize>, k: int)
    requires
        0 <= k <= sel.len(),
    ensures
        sum_values(items, sel.take(k)) <= sum_values(items, sel),
        sum_weights(items, sel.take(k)) <= sum_weights(items, sel),
    decreases sel.len() - k,
{
    if k < sel.len() {
        lemma_prefix_sums_le(items, sel, k + 1);
        assert(sel.take(k + 1).drop_last() =~= sel.take(k));
    } else {
        assert(sel.take(k) =~= sel);
    }
}

/// A vector of `n` times `false`.
pub fn all_false(n: usize) -> (v: Vec<bool>)
    ensures
        v@.len() == n,
        forall|i: int| 0 <= i < n ==> !v@[i],
{
    let mut v: Vec<bool> = Vec::new();
    let mut k: usize = 0;
    while k < n
        invariant
            k <= n,
            v@.len() == k,
            forall|i: int| 0 <= i < k ==> !v@[i],
        decreases n - k,
    {
        v.push(false);
        k = k + 1;
    }
    v
}

impl KnapsackSolution {
    /// The summed value of the chosen items.
    pub fn total_value(&self, problem: &KnapsackProblem) -> (r: u64)
        requires
            indices_in_range(self.selected@, problem.items@.len() as int),
            sum_values(problem.items@, self.selected@) <= u64::MAX,
        ensures
            r == sum_values(problem.items@, self.selected@),
    {
        let ghost items = problem.items@;
        let ghost sel = self.selected@;
        let mut total: u64 = 0;
        let mut k: usize = 0;
        while k < self.selected.len()
            invariant
                sel == self.selected@,
                items == problem.items@,
                k <= sel.len(),
                total == sum_values(items, sel.take(k as int)),
                indices_in_range(sel, items.len() as int),
                sum_values(items, sel) <= u64::MAX,
            decreases sel.len() - k,
        {
            let i = self.selected[k];
            proof {
                assert(sel.take(k + 1).drop_last() =~= sel.take(k as int));
                lemma_prefix_sums_le(items, sel, k + 1);
            }
            total = total + problem.items[i].value;
            k = k + 1;
        }
        assert(sel.take(sel.len() as int) =~= sel);
        total
    }

    /// The summed weight of the chosen items.
    pub fn total_weight(&self, problem: &KnapsackProblem) -> (r: u64)
        requires
            indices_in_range(self.selected@, problem.items@.len() as int),
            sum_weights(problem.items@, self.selected@) <= u64::MAX,
        ensures
            r == sum_weights(problem.items@, self.selected@),
    {
        let ghost items = problem.items@;
        let ghost sel = self.selected@;
        let mut total: u64 = 0;
        let mut k: usize = 0;
        while k < self.selected.len()
            invariant
                sel == self.selected@,
                items == problem.items@,
                k <= sel.len(),
                total == sum_weights(items, sel.take(k as int)),
                indices_in_range(sel, items.len() as int),
                sum_weights(items, sel) <= u64::MAX,
            decreases sel.len() - k,
        {
            let i = self.selected[k];
            proof {
                assert(sel.take(k + 1).drop_last() =~= sel.take(k as int));
                lemma_prefix_sums_le(items, sel, k + 1);
            }
            total = total + problem.items[i].weight;
            k = k + 1;
        }
        assert(sel.take(sel.len() as int) =~= sel);
        total
    }

    /// Whether every index names an item and none occurs twice.
    pub fn indices_ok(&self, problem: &KnapsackProblem) -> (r: bool)
        ensures
            r == (indices_in_range(self.selected@, problem.items@.len() as int) && indices_distinct(
                self.selected@,
            )),
    {
        let ghost sel = self.selected@;
        let n = problem.items.len();
        let mut seen = all_false(n);
        let mut k: usize = 0;
        while k < self.selected.len()
            invariant
                sel == self.selected@,
                n == problem.items@.len(),
                k <= sel.len(),
                seen@.len() == n,
                indices_in_range(sel.take(k as int), n as int),
                indices_distinct(sel.take(k as int)),
                forall|j: int| 0 <= j < n ==> (seen@[j] <==> sel.take(k as int).contains(j as usize)),
            decreases sel.len() - k,
        {
            let i = self.selected[k];
            if i >= n {
                assert(!indices_in_range(sel, n as int));
                return false;
            }
            if seen[i] {
                proof {
                    let p = choose|p: int| 0 <= p < k && sel.take(k as int)[p] == i;
                    assert(sel[p] == sel[k as int]);
                    assert(!indices_distinct(sel));
                }
                return false;
            }
            seen.set(i, true);
            proof {
                let t = sel.take(k + 1);
                assert(t =~= sel.take(k as int).push(i));
                assert forall|j: int| 0 <= j < n implies (seen@[j] <==> t.contains(j as usize)) by {
                    if t.contains(j as usize) && j != i {
                        let q = choose|q: int| 0 <= q < t.len() && t[q] == j as usize;
                        assert(sel.take(k as int)[q] == j as usize);
                    }
                    if j != i && sel.take(k as int).contains(j as usize) {
                        let q = choose|q: int| 0 <= q < k && sel.take(k as int)[q] == j as usize;
                        assert(t[q] == j as usize);
                    }
                    if j == i {
                        assert(t[k as int] == i);
                    }
                }
                assert forall|a: int, b: int| 0 <= a < b < t.len() implies t[a] != t[b] by {
                    if b == k {
                        assert(sel.take(k as int)[a] == t[a]);
                        assert(sel.take(k as int).contains(t[a]));
                    } else {
                        assert(sel.take(k as int)[a] == t[a]);
                        assert(sel.take(k as int)[b] == t[b]);
                    }
                }
            }
            k = k + 1;
        }
        assert(sel.take(sel.len() as int) =~= sel);
        true
    }

    /// Whether the answer is feasible: every index names an item, none occurs
    /// twice, and the chosen items fit in the knapsack.
    pub fn is_valid(&self, problem: &KnapsackProblem) -> (r: bool)
        requires
            indices_in_range(self.selected@, problem.items@.len() as int) && indices_distinct(
                self.selected@,
            ) ==> sum_weights(problem.items@, self.selected@) <= u64::MAX,
        ensures
            r == is_valid_selection(problem.items@, self.selected@, problem.capacity as int),
    {
        if !self.indices_ok(problem) {
            return false;
        }
        let w = self.total_weight(problem);
        w <= problem.capacity
    }

    /// The summed weight of the chosen items, or `None` when it does not fit
    /// in a `u64`.
    pub fn checked_total_weight(&self, problem: &KnapsackProblem) -> (r: Option<u64>)
        requires
            indices_in_range(self.selected@, problem.items@.len() as int),
        ensures
            r matches Some(w) ==> w == sum_weights(problem.items@, self.selected@),
            r is None <==> sum_weights(problem.items@, self.selected@) > u64::MAX,
    {
        let ghost items = problem.items@;
        let ghost sel = self.selected@;
        let mut total: u64 = 0;
        let mut k: usize = 0;
        while k < self.selected.len()
            invariant
                sel == self.selected@,
                items == problem.items@,
                k <= sel.len(),
                total == sum_weights(items, sel.take(k as int)),
                indices_in_range(sel, items.len() as int),
            decreases sel.len() - k,
        {
            let i = self.selected[k];
            proof {
                assert(sel.take(k + 1).drop_last() =~= sel.take(k as int));
                lemma_prefix_sums_le(items, sel, k + 1);
            }
            match total.checked_add(problem.items[i].weight) {
                Some(t) => {
                    total = t;
                },
                None => {
                    return None;
                },
            }
            k = k + 1;
        }
        assert(sel.take(sel.len() as int) =~= sel);
        Some(total)
    }

    /// The summed value of the chosen items, or `None` when it does not fit
    /// in a `u64`.
    pub fn checked_total_value(&self, problem: &KnapsackProblem) -> (r: Option<u64>)
        requires
            indices_in_range(self.selected@, problem.items@.len() as int),
        ensures
            r matches Some(v) ==> v == sum_values(problem.items@, self.selected@),
            r is None <==> sum_values(problem.items@, self.selected@) > u64::MAX,
    {
        let ghost items = problem.items@;
        let ghost sel = self.selected@;
        let mut total: u64 = 0;
        let mut k: usize = 0;
        while k < self.selected.len()
            invariant
                sel == self.selected@,
                items == problem.items@,
                k <= sel.len(),
                total == sum_values(items, sel.take(k as int)),
                indices_in_range(sel, items.len() as int),
            decreases sel.len() - k,
        {
            let i = self.selected[k];
            proof {
                assert(sel.take(k + 1).drop_last() =~= sel.take(k as int));
                lemma_prefix_sums_le(items, sel, k + 1);
            }
            match total.checked_add(problem.items[i].value) {
                Some(t) => {
                    total = t;
                },
                None => {
                    return None;
                },
            }
            k = k + 1;
        }
        assert(sel.take(sel.len() as int) =~= sel);
        Some(total)
    }
}

} // verus!
