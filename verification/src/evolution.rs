//! The evolutionary search: a population of masks is scored, the best are
//! kept as parents, bred by uniform crossover, mutated, repaired to fit, and
//! joined by the unchanged elite, generation after generation.
//!
//! The random draws decide which masks arise; the contracts say what holds
//! of every outcome: every candidate fits the knapsack, and the elite keeps
//! the best candidate found so far.

use crate::masks::{
    copy_mask, items_value, mask_indices, lemma_mask_indices, lemma_mask_le_all, lemma_mask_nonneg,
    lemma_mask_update, lemma_mask_zero, mask_fits, mask_to_indices, mask_total_value,
    mask_total_weight, mask_value_exec, mask_weight_wide,
};
use crate::problem::{
    all_false, is_valid_selection, sum_values, Item, KnapsackProblem, KnapsackSolution,
};
use crate::ranking::{is_rank_order, rank_by_ratio, ranks_before};
use crate::rng::{random_ratio, random_u64_in, seeded_rng, shuffle_indices};
use rand::rngs::StdRng;
use vstd::prelude::*;

verus! {

broadcast use vstd::seq_lib::group_to_multiset_ensures;

/// A probability written as `numerator / denominator`.
#[derive(Debug, Clone, Copy)]
pub struct Rate {
    pub numerator: u32,
    pub denominator: u32,
}

impl Rate {
    /// The ratio is a probability: a positive denominator, at most the numerator.
    pub open spec fn is_probability(self) -> bool {
        0 < self.denominator && self.numerator <= self.denominator
    }
}

/// The parameters of a run.
#[derive(Debug, Clone, Copy)]
pub struct EvolutionConfig {
    pub population_size: usize,
    pub generations: usize,
    pub elite_count: usize,
    /// The share of the scored population that becomes parents.
    pub selection_rate: Rate,
    /// The chance with which each gene of a child flips.
    pub mutation_rate: Rate,
    pub seed: usize,
}

/// A run can proceed: the elite fits in the population, the selection share
/// has a denominator, and the mutation rate is a probability.
pub open spec fn config_ok(config: EvolutionConfig) -> bool {
    &&& config.elite_count <= config.population_size
    &&& config.selection_rate.denominator > 0
    &&& config.mutation_rate.is_probability()
}

/// A candidate with one gene per item whose marked items fit in `cap`.
pub open spec fn fits_knapsack(items: Seq<Item>, c: Seq<bool>, cap: int) -> bool {
    c.len() == items.len() && mask_total_weight(items, c) <= cap
}

/// A candidate's score: the value of what it marks, or 0 when that is too heavy.
pub open spec fn fitness(items: Seq<Item>, c: Seq<bool>, cap: int) -> int {
    if mask_total_weight(items, c) <= cap {
        mask_total_value(items, c)
    } else {
        0
    }
}

/// Every candidate that fits is worth at most `u64::MAX`.
pub open spec fn values_fit(items: Seq<Item>, cap: int) -> bool {
    forall|m: Seq<bool>|
        m.len() == items.len() && mask_total_weight(items, m) <= cap ==> #[trigger] mask_total_value(
            items,
            m,
        ) <= u64::MAX
}

/// Every candidate of the population fits the knapsack.
pub open spec fn population_fits(items: Seq<Item>, pop: Seq<Vec<bool>>, cap: int) -> bool {
    forall|p: int| 0 <= p < pop.len() ==> fits_knapsack(items, #[trigger] pop[p]@, cap)
}

/// The ratio keys that rank candidates by score: each score over one.
pub open spec fn score_keys(items: Seq<Item>, cands: Seq<Vec<bool>>, cap: int) -> Seq<(u64, u64)> {
    Seq::new(cands.len(), |p: int| (fitness(items, cands[p]@, cap) as u64, 1u64))
}

/// How many candidates become parents: the selection share of `len`,
/// rounded down, and no more than `len`.
pub open spec fn selection_count(len: int, rate: Rate) -> int {
    let c = len * rate.numerator / (rate.denominator as int);
    if c < len {
        c
    } else {
        len
    }
}

/// The positions `0..n`.
fn positions(n: usize) -> (v: Vec<usize>)
    ensures
        v@.len() == n,
        forall|k: int| 0 <= k < n ==> v@[k] == k,
{
    let mut v: Vec<usize> = Vec::new();
    let mut k: usize = 0;
    while k < n
        invariant
            k <= n,
            v@.len() == k,
            forall|j: int| 0 <= j < k ==> v@[j] == j,
        decreases n - k,
    {
        v.push(k);
        k = k + 1;
    }
    v
}

/// A candidate that cannot take any item it leaves out: every unmarked
/// item would make it too heavy.
pub open spec fn is_maximal(items: Seq<Item>, c: Seq<bool>, cap: int) -> bool {
    forall|j: int|
        0 <= j < items.len() && !#[trigger] c[j] ==> mask_total_weight(items, c) + items[j].weight
            > cap
}

/// One random candidate: the items in a shuffled order, each taken if it
/// still fits. It fits, and no item left out would still fit.
fn random_candidate(problem: &KnapsackProblem, rng: &mut StdRng) -> (c: Vec<bool>)
    ensures
        fits_knapsack(problem.items@, c@, problem.capacity as int),
        is_maximal(problem.items@, c@, problem.capacity as int),
{
    let ghost items = problem.items@;
    let n = problem.items.len();
    let capacity = problem.capacity;
    let mut cand = all_false(n);
    proof {
        lemma_mask_zero(items, cand@, n as int);
    }
    let mut cand_weight: u64 = 0;
    let mut order = positions(n);
    let ghost before = order@;
    proof {
        assert(before.no_duplicates());
        before.lemma_multiset_has_no_duplicates();
    }
    shuffle_indices(&mut order, rng);
    let ghost ord = order@;
    proof {
        assert forall|p: int| 0 <= p < ord.len() implies #[trigger] ord[p] < n by {
            let x = ord[p];
            assert(ord.contains(x));
            assert(ord.to_multiset().count(x) > 0);
            assert(before.contains(x));
            let q = choose|q: int| 0 <= q < before.len() && before[q] == x;
        }
        assert forall|x: usize| ord.to_multiset().contains(x) implies ord.to_multiset().count(x)
            == 1 by {
            assert(before.to_multiset().contains(x));
        }
        ord.lemma_multiset_has_no_duplicates_conv();
        assert forall|j: int| 0 <= j < n implies #[trigger] ord.contains(j as usize) by {
            assert(before[j] == j as usize);
            assert(before.contains(j as usize));
            assert(before.to_multiset().count(j as usize) > 0);
        }
    }
    let mut k: usize = 0;
    while k < order.len()
        invariant
            items == problem.items@,
            n == items.len(),
            capacity == problem.capacity,
            ord == order@,
            ord.no_duplicates(),
            forall|p: int| 0 <= p < ord.len() ==> #[trigger] ord[p] < n,
            k <= ord.len(),
            cand@.len() == n,
            mask_total_weight(items, cand@) == cand_weight,
            cand_weight <= capacity,
            forall|j: int| 0 <= j < n && #[trigger] cand@[j] ==> ord.take(k as int).contains(j as usize),
            forall|p: int|
                0 <= p < k && !cand@[#[trigger] ord[p] as int] ==> cand_weight + items[ord[p] as int].weight
                    > capacity,
        decreases ord.len() - k,
    {
        let idx = order[k];
        let w = problem.items[idx].weight;
        proof {
            if cand@[idx as int] {
                let q = choose|q: int| 0 <= q < k && ord.take(k as int)[q] == idx;
                assert(ord[q] == ord[k as int]);
            }
        }
        let ghost c0 = cand@;
        if w <= capacity - cand_weight {
            proof {
                lemma_mask_update(items, cand@, idx as int, true, n as int);
            }
            cand.set(idx, true);
            cand_weight = cand_weight + w;
        }
        proof {
            let t = ord.take(k + 1);
            assert forall|j: int| 0 <= j < n && #[trigger] cand@[j] implies t.contains(j as usize) by {
                if j == idx as int {
                    assert(t[k as int] == idx);
                } else {
                    assert(c0[j]);
                    let q = choose|q: int| 0 <= q < k && ord.take(k as int)[q] == j as usize;
                    assert(t[q] == j as usize);
                }
            }
            assert forall|p: int|
                0 <= p < k + 1 && !cand@[#[trigger] ord[p] as int] implies cand_weight
                + items[ord[p] as int].weight > capacity by {
                if p < k {
                    if ord[p] == idx {
                        assert(ord[p] == ord[k as int]);
                    }
                    assert(!c0[ord[p] as int]);
                }
            }
        }
        k = k + 1;
    }
    proof {
        assert forall|j: int|
            0 <= j < items.len() && !#[trigger] cand@[j] implies mask_total_weight(items, cand@)
            + items[j].weight > capacity by {
            assert(ord.contains(j as usize));
            let p = choose|p: int| 0 <= p < ord.len() && ord[p] == j as usize;
        }
    }
    cand
}

/// A population of `size` random candidates, each fitting the knapsack with
/// no room left for any item it leaves out.
pub fn initialize_population(problem: &KnapsackProblem, size: usize, rng: &mut StdRng) -> (pop:
    Vec<Vec<bool>>)
    ensures
        pop@.len() == size,
        population_fits(problem.items@, pop@, problem.capacity as int),
        forall|p: int|
            0 <= p < pop@.len() ==> is_maximal(problem.items@, #[trigger] pop@[p]@, problem.capacity as int),
{
    let mut candidates: Vec<Vec<bool>> = Vec::new();
    while candidates.len() < size
        invariant
            candidates@.len() <= size,
            population_fits(problem.items@, candidates@, problem.capacity as int),
            forall|p: int|
                0 <= p < candidates@.len() ==> is_maximal(problem.items@, #[trigger] candidates@[p]@, problem.capacity as int),
        decreases size - candidates@.len(),
    {
        let c = random_candidate(problem, rng);
        let ghost c0 = candidates@;
        candidates.push(c);
        proof {
            assert forall|p: int| 0 <= p < candidates@.len() implies fits_knapsack(
                problem.items@,
                #[trigger] candidates@[p]@,
                problem.capacity as int,
            ) by {
                if p < candidates@.len() - 1 {
                    assert(candidates@[p] == c0[p]);
                }
            }
            assert forall|p: int| 0 <= p < candidates@.len() implies is_maximal(
                problem.items@,
                #[trigger] candidates@[p]@,
                problem.capacity as int,
            ) by {
                if p < candidates@.len() - 1 {
                    assert(candidates@[p] == c0[p]);
                }
            }
        }
    }
    candidates
}

/// The first population, drawn from a generator seeded with `config.seed`:
/// `population_size` candidates, each fitting the knapsack with no room
/// left for any item it leaves out.
pub fn initialize(problem: &KnapsackProblem, config: &EvolutionConfig) -> (pop: Vec<Vec<bool>>)
    ensures
        pop@.len() == config.population_size,
        population_fits(problem.items@, pop@, problem.capacity as int),
        forall|p: int|
            0 <= p < pop@.len() ==> is_maximal(problem.items@, #[trigger] pop@[p]@, problem.capacity as int),
{
    let mut rng = seeded_rng(config.seed as u64);
    initialize_population(problem, config.population_size, &mut rng)
}

/// Scores each candidate (the value of what it marks, or 0 when that is too
/// heavy) and sorts by score, best first; equal scores keep their order.
pub fn evaluate(candidates: Vec<Vec<bool>>, problem: &KnapsackProblem) -> (scored: Vec<(Vec<bool>, u64)>)
    requires
        forall|p: int|
            0 <= p < candidates@.len() ==> mask_fits(#[trigger] candidates@[p]@, problem.items@.len() as int),
        forall|p: int|
            0 <= p < candidates@.len() && mask_total_weight(problem.items@, #[trigger] candidates@[p]@)
                <= problem.capacity ==> mask_total_value(problem.items@, candidates@[p]@) <= u64::MAX,
    ensures
        scored@.len() == candidates@.len(),
        exists|order: Seq<usize>|
            {
                &&& is_rank_order(score_keys(problem.items@, candidates@, problem.capacity as int), order)
                &&& forall|k: int|
                    0 <= k < scored@.len() ==> (#[trigger] scored@[k]).0@ == candidates@[order[k] as int]@
                        && scored@[k].1 == fitness(
                        problem.items@,
                        candidates@[order[k] as int]@,
                        problem.capacity as int,
                    )
            },
        forall|a: int, b: int| 0 <= a < b < scored@.len() ==> scored@[a].1 >= scored@[b].1,
        forall|p: int|
            0 <= p < candidates@.len() ==> fitness(problem.items@, #[trigger] candidates@[p]@, problem.capacity as int)
                <= scored@[0].1,
{
    let ghost items = problem.items@;
    let ghost cap = problem.capacity as int;
    let mut keys: Vec<(u64, u64)> = Vec::new();
    let mut k: usize = 0;
    while k < candidates.len()
        invariant
            items == problem.items@,
            cap == problem.capacity,
            k <= candidates@.len(),
            forall|p: int|
                0 <= p < candidates@.len() ==> mask_fits(#[trigger] candidates@[p]@, items.len() as int),
            forall|p: int|
                0 <= p < candidates@.len() && mask_total_weight(items, #[trigger] candidates@[p]@) <= cap
                    ==> mask_total_value(items, candidates@[p]@) <= u64::MAX,
            keys@ == score_keys(items, candidates@, cap).take(k as int),
        decreases candidates@.len() - k,
    {
        let c = &candidates[k];
        let wt = mask_weight_wide(&problem.items, c);
        let score = if wt <= problem.capacity as u128 {
            mask_value_exec(&problem.items, c)
        } else {
            0
        };
        keys.push((score, 1));
        proof {
            assert(score_keys(items, candidates@, cap).take(k + 1) =~= score_keys(
                items,
                candidates@,
                cap,
            ).take(k as int).push((score, 1u64)));
        }
        k = k + 1;
    }
    assert(keys@ =~= score_keys(items, candidates@, cap));
    let order = rank_by_ratio(&keys);
    let mut scored: Vec<(Vec<bool>, u64)> = Vec::new();
    let mut k: usize = 0;
    while k < order.len()
        invariant
            items == problem.items@,
            cap == problem.capacity,
            keys@ == score_keys(items, candidates@, cap),
            is_rank_order(keys@, order@),
            k <= order@.len(),
            scored@.len() == k,
            forall|j: int|
                0 <= j < k ==> (#[trigger] scored@[j]).0@ == candidates@[order@[j] as int]@
                    && scored@[j].1 == keys@[order@[j] as int].0,
        decreases order@.len() - k,
    {
        let i = order[k];
        scored.push((copy_mask(&candidates[i]), keys[i].0));
        k = k + 1;
    }
    proof {
        let ks = keys@;
        let ord = order@;
        assert forall|p: int| 0 <= p < ks.len() implies (#[trigger] ks[p]).0 == fitness(items, candidates@[p]@, cap) by {
            if mask_total_weight(items, candidates@[p]@) <= cap {
                assert(mask_total_value(items, candidates@[p]@) <= u64::MAX);
            }
            lemma_mask_nonneg(items, candidates@[p]@, candidates@[p]@.len() as int);
        }
        assert forall|a: int, b: int| 0 <= a < b < scored@.len() implies scored@[a].1 >= scored@[b].1 by {
            assert(ranks_before(ks, ord[a] as int, ord[b] as int));
            assert(ks[ord[a] as int].1 == 1 && ks[ord[b] as int].1 == 1);
        }
        assert forall|p: int| 0 <= p < candidates@.len() implies fitness(items, #[trigger] candidates@[p]@, cap)
            <= scored@[0].1 by {
            assert(ord.contains(p as usize));
            let q = choose|q: int| 0 <= q < ord.len() && ord[q] == p as usize;
            assert(scored@[q].1 == ks[p].0);
            if q > 0 {
                assert(ranks_before(ks, ord[0] as int, ord[q] as int));
                assert(ks[ord[0] as int].1 == 1 && ks[ord[q] as int].1 == 1);
            }
        }
        assert forall|k: int| 0 <= k < scored@.len() implies (#[trigger] scored@[k]).0@
            == candidates@[ord[k] as int]@ && scored@[k].1 == fitness(items, candidates@[ord[k] as int]@, cap) by {
            assert(ks[ord[k] as int].0 == fitness(items, candidates@[ord[k] as int]@, cap));
        }
    }
    scored
}

/// A copy of a scored population.
fn copy_scored(v: &Vec<(Vec<bool>, u64)>) -> (r: Vec<(Vec<bool>, u64)>)
    ensures
        r@.len() == v@.len(),
        forall|k: int| 0 <= k < v@.len() ==> (#[trigger] r@[k]).0@ == v@[k].0@ && r@[k].1 == v@[k].1,
{
    let mut r: Vec<(Vec<bool>, u64)> = Vec::new();
    let mut k: usize = 0;
    while k < v.len()
        invariant
            k <= v@.len(),
            r@.len() == k,
            forall|j: int| 0 <= j < k ==> (#[trigger] r@[j]).0@ == v@[j].0@ && r@[j].1 == v@[j].1,
        decreases v@.len() - k,
    {
        r.push((copy_mask(&v[k].0), v[k].1));
        k = k + 1;
    }
    r
}

/// The parents: the first `selection_count` candidates of the scored
/// population (truncation selection), without their scores.
pub fn select(candidates: Vec<(Vec<bool>, u64)>, config: &EvolutionConfig) -> (parents: Vec<Vec<bool>>)
    requires
        config.selection_rate.denominator > 0,
    ensures
        parents@.len() == selection_count(candidates@.len() as int, config.selection_rate),
        forall|k: int| 0 <= k < parents@.len() ==> (#[trigger] parents@[k])@ == candidates@[k].0@,
{
    let len = candidates.len();
    let num = config.selection_rate.numerator;
    let den = config.selection_rate.denominator;
    proof {
        assert((len as int) * (num as int) <= 0xffff_ffff_ffff_ffffu128 * 0xffff_ffff_ffff_ffffu128)
            by (nonlinear_arith)
            requires
                len <= 0xffff_ffff_ffff_ffffu64,
                num <= 0xffff_ffff_ffff_ffffu64,
        ;
    }
    let count_wide = (len as u128) * (num as u128) / (den as u128);
    let count: usize = if count_wide < len as u128 {
        count_wide as usize
    } else {
        len
    };
    let mut parents: Vec<Vec<bool>> = Vec::new();
    let mut k: usize = 0;
    while k < count
        invariant
            count <= len,
            len == candidates@.len(),
            k <= count,
            parents@.len() == k,
            forall|j: int| 0 <= j < k ==> (#[trigger] parents@[j])@ == candidates@[j].0@,
        decreases count - k,
    {
        parents.push(copy_mask(&candidates[k].0));
        k = k + 1;
    }
    parents
}

/// Removes randomly chosen marked items, one at a time, until what is
/// marked fits. Only marks are removed, a candidate that fits already is
/// left as it is, and removal stops as soon as the candidate fits: the last
/// item removed took the weight from above the capacity to within it.
pub fn repair(candidate: &mut Vec<bool>, problem: &KnapsackProblem, rng: &mut StdRng)
    requires
        old(candidate)@.len() == problem.items@.len(),
    ensures
        fits_knapsack(problem.items@, final(candidate)@, problem.capacity as int),
        repaired_from(problem.items@, problem.capacity as int, old(candidate)@, final(candidate)@),
{
    let ghost items = problem.items@;
    let ghost orig = candidate@;
    let n = problem.items.len();
    let mut weight = mask_weight_wide(&problem.items, candidate);
    let mut chosen = mask_to_indices(candidate);
    proof {
        lemma_mask_indices(items, candidate@, n as int);
    }
    while weight > problem.capacity as u128
        invariant
            items == problem.items@,
            n == items.len(),
            candidate@.len() == n,
            weight == mask_total_weight(items, candidate@),
            chosen@.no_duplicates(),
            forall|p: int| 0 <= p < chosen@.len() ==> #[trigger] chosen@[p] < n,
            forall|j: int| 0 <= j < n ==> (#[trigger] candidate@[j] <==> chosen@.contains(j as usize)),
            forall|j: int| 0 <= j < n && #[trigger] candidate@[j] ==> orig[j],
            mask_total_weight(items, orig) <= problem.capacity ==> candidate@ == orig,
            orig.len() == n,
            weight <= problem.capacity ==> (mask_total_weight(items, orig) > problem.capacity ==> exists|j: int|
                0 <= j < n && orig[j] && !candidate@[j] && weight + items[j].weight > problem.capacity),
        decreases chosen@.len(),
    {
        proof {
            if chosen@.len() == 0 {
                assert forall|j: int| 0 <= j < n implies !candidate@[j] by {
                    if candidate@[j] {
                        assert(chosen@.contains(j as usize));
                    }
                }
                lemma_mask_zero(items, candidate@, n as int);
            }
        }
        let pos = random_u64_in(rng, 0, (chosen.len() - 1) as u64) as usize;
        let ghost c0 = chosen@;
        let i = chosen.remove(pos);
        proof {
            assert(c0[pos as int] == i);
            assert(c0.contains(i));
            assert(candidate@[i as int]);
            lemma_mask_update(items, candidate@, i as int, false, n as int);
        }
        let ghost before = candidate@;
        candidate.set(i, false);
        proof {
            lemma_mask_nonneg(items, candidate@, n as int);
            assert(candidate@ == before.update(i as int, false));
            let c1 = chosen@;
            assert(c1 =~= c0.remove(pos as int));
            assert forall|q: int| 0 <= q < c1.len() implies c1[q] == (if q < pos {
                c0[q]
            } else {
                c0[q + 1]
            }) by {
                if q < pos {
                    assert(c1[q] == c0.subrange(0, pos as int)[q]);
                } else {
                    assert(c1[q] == c0.subrange(pos + 1, c0.len() as int)[q - pos]);
                }
            }
            assert forall|a: int, b: int| 0 <= a < c1.len() && 0 <= b < c1.len() && a != b implies c1[a]
                != c1[b] by {
                let a0 = if a < pos {
                    a
                } else {
                    a + 1
                };
                let b0 = if b < pos {
                    b
                } else {
                    b + 1
                };
                assert(c1[a] == c0[a0] && c1[b] == c0[b0]);
            }
            assert forall|p: int| 0 <= p < c1.len() implies #[trigger] c1[p] < n by {
                let p0 = if p < pos {
                    p
                } else {
                    p + 1
                };
                assert(c1[p] == c0[p0]);
            }
            assert forall|j: int| 0 <= j < n implies (#[trigger] candidate@[j] <==> c1.contains(
                j as usize,
            )) by {
                if j == i as int {
                    if c1.contains(j as usize) {
                        let q = choose|q: int| 0 <= q < c1.len() && c1[q] == j as usize;
                        let q0 = if q < pos {
                            q
                        } else {
                            q + 1
                        };
                        assert(c0[q0] == c0[pos as int]);
                    }
                } else {
                    if before[j] {
                        assert(c0.contains(j as usize));
                        let q0 = choose|q: int| 0 <= q < c0.len() && c0[q] == j as usize;
                        assert(q0 != pos);
                        let q = if q0 < pos {
                            q0
                        } else {
                            q0 - 1
                        };
                        assert(c1[q] == j as usize);
                    }
                    if c1.contains(j as usize) {
                        let q = choose|q: int| 0 <= q < c1.len() && c1[q] == j as usize;
                        let q0 = if q < pos {
                            q
                        } else {
                            q + 1
                        };
                        assert(c0[q0] == j as usize);
                        assert(c0.contains(j as usize));
                    }
                }
            }
        }
        let ghost prev = weight;
        weight = weight - problem.items[i].weight as u128;
        proof {
            assert(orig[i as int] && !candidate@[i as int]);
            assert(weight + items[i as int].weight == prev);
        }
    }
}

/// `mix` takes every gene from `pa` or from `pb`.
pub open spec fn is_mix(pa: Seq<bool>, pb: Seq<bool>, mix: Seq<bool>) -> bool {
    &&& mix.len() == pa.len()
    &&& forall|j: int| 0 <= j < mix.len() ==> #[trigger] mix[j] == pa[j] || mix[j] == pb[j]
}

/// `after` is what repair may make of `before`: only marks are removed, a
/// candidate that fits already is left as it is, and removal stops once it
/// fits (the last item removed took the weight to within the capacity).
pub open spec fn repaired_from(items: Seq<Item>, cap: int, before: Seq<bool>, after: Seq<bool>) -> bool {
    &&& after.len() == before.len()
    &&& forall|j: int| 0 <= j < after.len() && #[trigger] after[j] ==> before[j]
    &&& mask_total_weight(items, before) <= cap ==> after == before
    &&& mask_total_weight(items, before) > cap ==> exists|j: int|
        0 <= j < before.len() && before[j] && !after[j] && mask_total_weight(items, after)
            + items[j].weight > cap
}

/// `child` is what crossing `pa` with `pb` may give: a mix of the two,
/// then repaired.
pub open spec fn bred_from(items: Seq<Item>, cap: int, pa: Seq<bool>, pb: Seq<bool>, child: Seq<bool>) -> bool {
    exists|mix: Seq<bool>| #[trigger] is_mix(pa, pb, mix) && repaired_from(items, cap, mix, child)
}

/// `child` is what crossing two of `parents` may give.
pub open spec fn bred_from_any(items: Seq<Item>, cap: int, parents: Seq<Vec<bool>>, child: Seq<bool>) -> bool {
    exists|a: int, b: int|
        0 <= a < parents.len() && 0 <= b < parents.len() && #[trigger] bred_from(
            items,
            cap,
            parents[a]@,
            parents[b]@,
            child,
        )
}

/// Uniform crossover: `population_size - elite_count` children, each from
/// two parents drawn at random, taking every gene from one of them on a
/// fair coin, then repaired to fit. Without parents there are no children.
/// A child marks only genes that some parent marks.
pub fn crossover(
    parents: Vec<Vec<bool>>,
    problem: &KnapsackProblem,
    config: &EvolutionConfig,
    rng: &mut StdRng,
) -> (children: Vec<Vec<bool>>)
    requires
        config.elite_count <= config.population_size,
        forall|p: int| 0 <= p < parents@.len() ==> (#[trigger] parents@[p])@.len() == problem.items@.len(),
    ensures
        parents@.len() == 0 ==> children@.len() == 0,
        parents@.len() > 0 ==> children@.len() == config.population_size - config.elite_count,
        population_fits(problem.items@, children@, problem.capacity as int),
        forall|c: int, j: int|
            0 <= c < children@.len() && 0 <= j < problem.items@.len() && #[trigger] children@[c]@[j]
                ==> exists|p: int| 0 <= p < parents@.len() && #[trigger] parents@[p]@[j],
        forall|c: int|
            0 <= c < children@.len() ==> #[trigger] bred_from_any(
                problem.items@,
                problem.capacity as int,
                parents@,
                children@[c]@,
            ),
        parents@.len() == 1 && fits_knapsack(problem.items@, parents@[0]@, problem.capacity as int)
            ==> forall|c: int| 0 <= c < children@.len() ==> (#[trigger] children@[c])@ == parents@[0]@,
{
    let ghost items = problem.items@;
    let ghost cap = problem.capacity as int;
    let n = problem.items.len();
    let num_children = config.population_size - config.elite_count;
    let mut children: Vec<Vec<bool>> = Vec::new();
    if parents.len() == 0 {
        return children;
    }
    while children.len() < num_children
        invariant
            items == problem.items@,
            n == items.len(),
            parents@.len() > 0,
            forall|p: int| 0 <= p < parents@.len() ==> (#[trigger] parents@[p])@.len() == n,
            children@.len() <= num_children,
            population_fits(items, children@, problem.capacity as int),
            cap == problem.capacity,
            forall|c: int, j: int|
                0 <= c < children@.len() && 0 <= j < n && #[trigger] children@[c]@[j]
                    ==> exists|p: int| 0 <= p < parents@.len() && #[trigger] parents@[p]@[j],
            forall|c: int|
                0 <= c < children@.len() ==> #[trigger] bred_from_any(items, cap, parents@, children@[c]@),
            parents@.len() == 1 && fits_knapsack(items, parents@[0]@, cap) ==> forall|c: int|
                0 <= c < children@.len() ==> (#[trigger] children@[c])@ == parents@[0]@,
        decreases num_children - children@.len(),
    {
        let a = random_u64_in(rng, 0, (parents.len() - 1) as u64) as usize;
        let b = random_u64_in(rng, 0, (parents.len() - 1) as u64) as usize;
        let mut child: Vec<bool> = Vec::new();
        let mut j: usize = 0;
        while j < n
            invariant
                n == items.len(),
                a < parents@.len(),
                b < parents@.len(),
                forall|p: int| 0 <= p < parents@.len() ==> (#[trigger] parents@[p])@.len() == n,
                j <= n,
                child@.len() == j,
                forall|g: int|
                    0 <= g < j ==> #[trigger] child@[g] == parents@[a as int]@[g] || child@[g]
                        == parents@[b as int]@[g],
            decreases n - j,
        {
            let gene = if random_ratio(rng, 1, 2) {
                parents[a][j]
            } else {
                parents[b][j]
            };
            child.push(gene);
            j = j + 1;
        }
        let ghost bred = child@;
        repair(&mut child, problem, rng);
        let ghost c0 = children@;
        children.push(child);
        proof {
            let pa = parents@[a as int]@;
            let pb = parents@[b as int]@;
            assert(is_mix(pa, pb, bred));
            assert(repaired_from(items, cap, bred, child@));
            assert(bred_from(items, cap, pa, pb, child@));
            assert forall|c: int| 0 <= c < children@.len() implies #[trigger] bred_from_any(
                items,
                cap,
                parents@,
                children@[c]@,
            ) by {
                if c < c0.len() {
                    assert(children@[c] == c0[c]);
                } else {
                    assert(children@[c]@ == child@);
                    assert(bred_from(items, cap, parents@[a as int]@, parents@[b as int]@, children@[c]@));
                }
            }
            if parents@.len() == 1 && fits_knapsack(items, parents@[0]@, cap) {
                assert(a == 0 && b == 0);
                assert(bred =~= pa);
                assert forall|c: int| 0 <= c < children@.len() implies (#[trigger] children@[c])@
                    == parents@[0]@ by {
                    if c < c0.len() {
                        assert(children@[c] == c0[c]);
                    }
                }
            }
            assert forall|p: int| 0 <= p < children@.len() implies fits_knapsack(
                items,
                #[trigger] children@[p]@,
                problem.capacity as int,
            ) by {
                if p < c0.len() {
                    assert(children@[p] == c0[p]);
                }
            }
            assert forall|c: int, g: int|
                0 <= c < children@.len() && 0 <= g < n && #[trigger] children@[c]@[g]
                    implies exists|p: int| 0 <= p < parents@.len() && #[trigger] parents@[p]@[g] by {
                if c < c0.len() {
                    assert(children@[c] == c0[c]);
                } else {
                    assert(bred[g]);
                    assert(bred[g] == parents@[a as int]@[g] || bred[g] == parents@[b as int]@[g]);
                    if parents@[a as int]@[g] {
                        assert(parents@[a as int]@[g]);
                    } else {
                        assert(parents@[b as int]@[g]);
                    }
                }
            }
        }
    }
    children
}

/// Every gene of `c` flipped.
pub open spec fn flip_all(c: Seq<bool>) -> Seq<bool> {
    c.map_values(|g: bool| !g)
}

/// Mutation: every gene of every child flips with probability
/// `mutation_rate`; each child is then repaired to fit. With a rate of zero,
/// children that fit stay as they are.
pub fn mutate(
    children: &mut Vec<Vec<bool>>,
    problem: &KnapsackProblem,
    config: &EvolutionConfig,
    rng: &mut StdRng,
)
    requires
        config.mutation_rate.is_probability(),
        forall|p: int| 0 <= p < old(children)@.len() ==> (#[trigger] old(children)@[p])@.len() == problem.items@.len(),
    ensures
        final(children)@.len() == old(children)@.len(),
        population_fits(problem.items@, final(children)@, problem.capacity as int),
        config.mutation_rate.numerator == 0 && population_fits(
            problem.items@,
            old(children)@,
            problem.capacity as int,
        ) ==> forall|k: int| 0 <= k < final(children)@.len() ==> (#[trigger] final(children)@[k])@ == old(children)@[k]@,
        config.mutation_rate.numerator == 0 ==> forall|k: int|
            0 <= k < final(children)@.len() ==> repaired_from(
                problem.items@,
                problem.capacity as int,
                old(children)@[k]@,
                (#[trigger] final(children)@[k])@,
            ),
        config.mutation_rate.numerator == config.mutation_rate.denominator ==> forall|k: int|
            0 <= k < final(children)@.len() ==> repaired_from(
                problem.items@,
                problem.capacity as int,
                flip_all(old(children)@[k]@),
                (#[trigger] final(children)@[k])@,
            ),
{
    let ghost items = problem.items@;
    let ghost start = children@;
    let n = problem.items.len();
    let num = config.mutation_rate.numerator;
    let den = config.mutation_rate.denominator;
    let mut out: Vec<Vec<bool>> = Vec::new();
    let mut k: usize = 0;
    while k < children.len()
        invariant
            items == problem.items@,
            n == items.len(),
            start == children@,
            0 < den,
            num <= den,
            num == config.mutation_rate.numerator,
            forall|p: int| 0 <= p < start.len() ==> (#[trigger] start[p])@.len() == n,
            k <= start.len(),
            out@.len() == k,
            population_fits(items, out@, problem.capacity as int),
            num == 0 && population_fits(items, start, problem.capacity as int) ==> forall|q: int|
                0 <= q < k ==> (#[trigger] out@[q])@ == start[q]@,
            num == 0 ==> forall|q: int|
                0 <= q < k ==> repaired_from(items, problem.capacity as int, start[q]@, (#[trigger] out@[q])@),
            num == den ==> forall|q: int|
                0 <= q < k ==> repaired_from(
                    items,
                    problem.capacity as int,
                    flip_all(start[q]@),
                    (#[trigger] out@[q])@,
                ),
        decreases start.len() - k,
    {
        let mut child = copy_mask(&children[k]);
        let mut j: usize = 0;
        while j < n
            invariant
                n == items.len(),
                child@.len() == n,
                0 < den,
                num <= den,
                j <= n,
                num == 0 ==> child@ == start[k as int]@,
                k < start.len(),
                forall|p: int| 0 <= p < start.len() ==> (#[trigger] start[p])@.len() == n,
                num == den ==> forall|g: int| 0 <= g < j ==> #[trigger] child@[g] == !start[k as int]@[g],
                num == den ==> forall|g: int| j <= g < n ==> #[trigger] child@[g] == start[k as int]@[g],
            decreases n - j,
        {
            if random_ratio(rng, num, den) {
                let flipped = !child[j];
                child.set(j, flipped);
            }
            j = j + 1;
        }
        let ghost mutated = child@;
        proof {
            if num == den {
                assert(mutated =~= flip_all(start[k as int]@));
            }
        }
        repair(&mut child, problem, rng);
        let ghost o0 = out@;
        out.push(child);
        proof {
            assert(out@[k as int]@ == child@);
            assert forall|q: int| 0 <= q < k + 1 && num == 0 implies repaired_from(
                items,
                problem.capacity as int,
                start[q]@,
                (#[trigger] out@[q])@,
            ) by {
                if q < k {
                    assert(out@[q] == o0[q]);
                }
            }
            assert forall|q: int| 0 <= q < k + 1 && num == den implies repaired_from(
                items,
                problem.capacity as int,
                flip_all(start[q]@),
                (#[trigger] out@[q])@,
            ) by {
                if q < k {
                    assert(out@[q] == o0[q]);
                }
            }
            assert forall|p: int| 0 <= p < out@.len() implies fits_knapsack(
                items,
                #[trigger] out@[p]@,
                problem.capacity as int,
            ) by {
                if p < o0.len() {
                    assert(out@[p] == o0[p]);
                }
            }
            if num == 0 && population_fits(items, start, problem.capacity as int) {
                assert(fits_knapsack(items, start[k as int]@, problem.capacity as int));
                assert forall|q: int| 0 <= q < k + 1 implies (#[trigger] out@[q])@ == start[q]@ by {
                    if q < k {
                        assert(out@[q] == o0[q]);
                    }
                }
            }
        }
        k = k + 1;
    }
    *children = out;
}

/// The next population: the first `elite_count` scored candidates,
/// unchanged, followed by the children.
pub fn replace(candidates: &Vec<(Vec<bool>, u64)>, children: Vec<Vec<bool>>, elite_count: usize) -> (pop:
    Vec<Vec<bool>>)
    ensures
        pop@.len() == (if elite_count < candidates@.len() {
            elite_count as int
        } else {
            candidates@.len() as int
        }) + children@.len(),
        forall|k: int|
            0 <= k < elite_count && k < candidates@.len() ==> (#[trigger] pop@[k])@ == candidates@[k].0@,
        forall|k: int|
            0 <= k < children@.len() ==> pop@[(if elite_count < candidates@.len() {
                elite_count as int
            } else {
                candidates@.len() as int
            }) + k]@ == (#[trigger] children@[k])@,
{
    let e = if elite_count < candidates.len() {
        elite_count
    } else {
        candidates.len()
    };
    let mut pop: Vec<Vec<bool>> = Vec::new();
    let mut k: usize = 0;
    while k < e
        invariant
            e <= candidates@.len(),
            k <= e,
            pop@.len() == k,
            forall|j: int| 0 <= j < k ==> (#[trigger] pop@[j])@ == candidates@[j].0@,
        decreases e - k,
    {
        pop.push(copy_mask(&candidates[k].0));
        k = k + 1;
    }
    let mut k: usize = 0;
    while k < children.len()
        invariant
            e <= candidates@.len(),
            k <= children@.len(),
            pop@.len() == e + k,
            forall|j: int| 0 <= j < e ==> (#[trigger] pop@[j])@ == candidates@[j].0@,
            forall|j: int| 0 <= j < k ==> pop@[e + j]@ == (#[trigger] children@[j])@,
        decreases children@.len() - k,
    {
        pop.push(copy_mask(&children[k]));
        k = k + 1;
    }
    pop
}

/// What one round of [`next_generation`] can make of the population `prev`:
/// a population that fits, of the size the elite and the children give, whose
/// first candidate (with an elite of at least one) is as fit as every
/// candidate of `prev`.
pub open spec fn generation_step(
    items: Seq<Item>,
    cap: int,
    config: EvolutionConfig,
    prev: Seq<Vec<bool>>,
    next: Seq<Vec<bool>>,
) -> bool {
    &&& population_fits(items, next, cap)
    &&& next.len() == (if config.elite_count < prev.len() {
        config.elite_count as int
    } else {
        prev.len() as int
    }) + (if selection_count(prev.len() as int, config.selection_rate) > 0 {
        config.population_size - config.elite_count
    } else {
        0
    })
    &&& config.elite_count >= 1 && prev.len() > 0 ==> forall|p: int|
        0 <= p < prev.len() ==> fitness(items, next[0]@, cap) >= fitness(items, #[trigger] prev[p]@, cap)
}

/// `trace` is a run of `rounds` rounds from `start`: it begins with `start`
/// and each population is one round of the one before.
pub open spec fn is_run(
    items: Seq<Item>,
    cap: int,
    config: EvolutionConfig,
    start: Seq<Vec<bool>>,
    trace: Seq<Seq<Vec<bool>>>,
    rounds: int,
) -> bool {
    &&& trace.len() == rounds + 1
    &&& trace[0] == start
    &&& forall|g: int| 0 <= g < rounds ==> generation_step(items, cap, config, trace[g], #[trigger] trace[g + 1])
}

/// Elitism over a whole run: after at least one round with an elite of at
/// least one, the first candidate is as fit as every candidate the run
/// started from.
pub proof fn lemma_run_keeps_the_best(
    items: Seq<Item>,
    cap: int,
    config: EvolutionConfig,
    start: Seq<Vec<bool>>,
    trace: Seq<Seq<Vec<bool>>>,
    rounds: int,
)
    requires
        is_run(items, cap, config, start, trace, rounds),
        1 <= config.elite_count <= config.population_size,
        rounds >= 1,
        start.len() > 0,
    ensures
        trace.last().len() > 0,
        forall|p: int|
            0 <= p < start.len() ==> fitness(items, trace.last()[0]@, cap) >= fitness(items, #[trigger] start[p]@, cap),
    decreases rounds,
{
    let prev = trace[rounds - 1];
    let last = trace[rounds];
    assert(generation_step(items, cap, config, trace[rounds - 1], trace[rounds - 1 + 1]));
    if rounds == 1 {
        assert(prev == start);
        assert(last.len() > 0);
    } else {
        let shorter = trace.take(rounds);
        assert forall|g: int| 0 <= g < rounds - 1 implies generation_step(
            items,
            cap,
            config,
            shorter[g],
            #[trigger] shorter[g + 1],
        ) by {
            assert(shorter[g] == trace[g] && shorter[g + 1] == trace[g + 1]);
            assert(generation_step(items, cap, config, trace[g], trace[g + 1]));
        }
        lemma_run_keeps_the_best(items, cap, config, start, shorter, rounds - 1);
        assert(shorter.last() == prev);
        assert(prev.len() > 0);
        assert forall|p: int| 0 <= p < start.len() implies fitness(items, last[0]@, cap) >= fitness(
            items,
            #[trigger] start[p]@,
            cap,
        ) by {
            assert(fitness(items, last[0]@, cap) >= fitness(items, prev[0]@, cap));
        }
    }
}

/// `selected` lists the items marked by a candidate of `pop` at least as fit
/// as every other, in increasing order; nothing when `pop` is empty.
pub open spec fn picks_best(items: Seq<Item>, cap: int, pop: Seq<Vec<bool>>, selected: Seq<usize>) -> bool {
    &&& pop.len() == 0 ==> selected.len() == 0
    &&& pop.len() > 0 ==> exists|q: int|
        0 <= q < pop.len() && selected == mask_indices(#[trigger] pop[q]@, pop[q]@.len() as int) && forall|p: int|
            0 <= p < pop.len() ==> fitness(items, pop[q]@, cap) >= fitness(items, #[trigger] pop[p]@, cap)
}

/// One generation: score, select parents, breed, mutate, and put the elite
/// in front of the children. Every candidate of the result fits; with an
/// elite of at least one, the first candidate is as fit as the best of the
/// old population, so the best answer is never lost.
pub fn next_generation(
    candidates: Vec<Vec<bool>>,
    problem: &KnapsackProblem,
    config: &EvolutionConfig,
    rng: &mut StdRng,
) -> (next: Vec<Vec<bool>>)
    requires
        config_ok(*config),
        population_fits(problem.items@, candidates@, problem.capacity as int),
        values_fit(problem.items@, problem.capacity as int),
    ensures
        population_fits(problem.items@, next@, problem.capacity as int),
        next@.len() == (if config.elite_count < candidates@.len() {
            config.elite_count as int
        } else {
            candidates@.len() as int
        }) + (if selection_count(candidates@.len() as int, config.selection_rate) > 0 {
            config.population_size - config.elite_count
        } else {
            0
        }),
        config.elite_count >= 1 && candidates@.len() > 0 ==> forall|p: int|
            0 <= p < candidates@.len() ==> fitness(
                problem.items@,
                next@[0]@,
                problem.capacity as int,
            ) >= fitness(problem.items@, #[trigger] candidates@[p]@, problem.capacity as int),
        generation_step(problem.items@, problem.capacity as int, *config, candidates@, next@),
{
    let ghost items = problem.items@;
    let ghost cap = problem.capacity as int;
    let ghost cands = candidates@;
    proof {
        assert forall|p: int| 0 <= p < cands.len() implies mask_fits(#[trigger] cands[p]@, items.len() as int) by {
            assert(fits_knapsack(items, cands[p]@, cap));
        }
        assert forall|p: int| 0 <= p < cands.len() && mask_total_weight(items, #[trigger] cands[p]@) <= cap
            implies mask_total_value(items, cands[p]@) <= u64::MAX by {
            assert(fits_knapsack(items, cands[p]@, cap));
        }
    }
    let scored = evaluate(candidates, problem);
    let ghost order = choose|order: Seq<usize>|
        {
            &&& is_rank_order(score_keys(items, cands, cap), order)
            &&& forall|k: int|
                0 <= k < scored@.len() ==> (#[trigger] scored@[k]).0@ == cands[order[k] as int]@
                    && scored@[k].1 == fitness(items, cands[order[k] as int]@, cap)
        };
    proof {
        assert forall|k: int| 0 <= k < scored@.len() implies fits_knapsack(items, (#[trigger] scored@[k]).0@, cap) by {
            assert(scored@[k].0@ == cands[order[k] as int]@);
            assert(fits_knapsack(items, cands[order[k] as int]@, cap));
        }
    }
    let parents = select(copy_scored(&scored), config);
    let mut children = crossover(parents, problem, config, rng);
    mutate(&mut children, problem, config, rng);
    let next = replace(&scored, children, config.elite_count);
    proof {
        let e = if config.elite_count < scored@.len() {
            config.elite_count as int
        } else {
            scored@.len() as int
        };
        assert forall|p: int| 0 <= p < next@.len() implies fits_knapsack(items, #[trigger] next@[p]@, cap) by {
            if p < e {
                assert(next@[p]@ == scored@[p].0@);
                assert(fits_knapsack(items, scored@[p].0@, cap));
            } else {
                let q = p - e;
                assert(next@[e + q]@ == children@[q]@);
                assert(fits_knapsack(items, children@[q]@, cap));
            }
        }
        if config.elite_count >= 1 && cands.len() > 0 {
            assert(next@[0]@ == scored@[0].0@);
            assert(scored@[0].0@ == cands[order[0] as int]@);
            assert(scored@[0].1 == fitness(items, cands[order[0] as int]@, cap));
        }
    }
    next
}

/// `pop` can be a first population of `size` candidates: each fits the
/// knapsack with no room left for any item it leaves out.
pub open spec fn is_first_population(items: Seq<Item>, cap: int, pop: Seq<Vec<bool>>, size: int) -> bool {
    &&& pop.len() == size
    &&& population_fits(items, pop, cap)
    &&& forall|p: int| 0 <= p < pop.len() ==> is_maximal(items, #[trigger] pop[p]@, cap)
}

/// Some candidate of `pop` has a fitness of at least `f`.
pub open spec fn reaches(items: Seq<Item>, cap: int, pop: Seq<Vec<bool>>, f: int) -> bool {
    exists|q: int| 0 <= q < pop.len() && fitness(items, #[trigger] pop[q]@, cap) >= f
}

/// The evolutionary search from a given first population: `generations`
/// rounds of [`next_generation`], then the indices marked by the best
/// candidate of the last population (none when it is empty). The answer is
/// always feasible; with an elite of at least one (or no rounds at all) it
/// is worth at least every candidate of the first population, so the best
/// answer is never lost over the whole run.
pub fn evolve_from(
    population: Vec<Vec<bool>>,
    problem: &KnapsackProblem,
    config: &EvolutionConfig,
    rng: &mut StdRng,
) -> (selected: Vec<usize>)
    requires
        config_ok(*config),
        values_fit(problem.items@, problem.capacity as int),
        population_fits(problem.items@, population@, problem.capacity as int),
    ensures
        is_valid_selection(problem.items@, selected@, problem.capacity as int),
        forall|a: int, b: int| 0 <= a < b < selected@.len() ==> selected@[a] < selected@[b],
        population@.len() == 0 ==> selected@.len() == 0,
        config.elite_count >= 1 || config.generations == 0 ==> forall|p: int|
            0 <= p < population@.len() ==> sum_values(problem.items@, selected@) >= fitness(
                problem.items@,
                #[trigger] population@[p]@,
                problem.capacity as int,
            ),
        exists|trace: Seq<Seq<Vec<bool>>>|
            #[trigger] is_run(
                problem.items@,
                problem.capacity as int,
                *config,
                population@,
                trace,
                config.generations as int,
            ) && picks_best(problem.items@, problem.capacity as int, trace.last(), selected@),
{
    let ghost items = problem.items@;
    let ghost cap = problem.capacity as int;
    let ghost start = population@;
    let n = problem.items.len();
    let mut candidates = population;
    proof {
        assert forall|p: int| #![trigger start[p]] 0 <= p < start.len() implies reaches(
            items,
            cap,
            start,
            fitness(items, start[p]@, cap),
        ) by {
            assert(fitness(items, start[p]@, cap) >= fitness(items, start[p]@, cap));
        }
    }
    let ghost mut trace: Seq<Seq<Vec<bool>>> = seq![start];
    let mut generation: usize = 0;
    while generation < config.generations
        invariant
            items == problem.items@,
            cap == problem.capacity,
            is_run(items, cap, *config, start, trace, generation as int),
            trace.last() == candidates@,
            config_ok(*config),
            values_fit(items, cap),
            population_fits(items, candidates@, cap),
            generation <= config.generations,
            start.len() == 0 ==> candidates@.len() == 0,
            config.elite_count >= 1 || generation == 0 ==> forall|p: int|
                #![trigger start[p]]
                0 <= p < start.len() ==> reaches(items, cap, candidates@, fitness(items, start[p]@, cap)),
        decreases config.generations - generation,
    {
        let ghost prev = candidates@;
        candidates = next_generation(candidates, problem, config, &mut *rng);
        proof {
            let t0 = trace;
            trace = trace.push(candidates@);
            assert forall|g: int| 0 <= g < generation + 1 implies generation_step(
                items,
                cap,
                *config,
                trace[g],
                #[trigger] trace[g + 1],
            ) by {
                if g < generation {
                    assert(trace[g] == t0[g] && trace[g + 1] == t0[g + 1]);
                } else {
                    assert(trace[g] == prev && trace[g + 1] == candidates@);
                }
            }
            if prev.len() == 0 {
                assert(selection_count(0, config.selection_rate) == 0);
            }
            if config.elite_count >= 1 {
                assert forall|p: int| #![trigger start[p]] 0 <= p < start.len() implies reaches(
                    items,
                    cap,
                    candidates@,
                    fitness(items, start[p]@, cap),
                ) by {
                    assert(reaches(items, cap, prev, fitness(items, start[p]@, cap)));
                    let q = choose|q: int|
                        0 <= q < prev.len() && fitness(items, #[trigger] prev[q]@, cap) >= fitness(
                            items,
                            start[p]@,
                            cap,
                        );
                    assert(fitness(items, candidates@[0]@, cap) >= fitness(items, prev[q]@, cap));
                    assert(fitness(items, candidates@[0]@, cap) >= fitness(items, start[p]@, cap));
                }
            }
        }
        generation = generation + 1;
    }
    let ghost cands = candidates@;
    proof {
        assert forall|p: int| 0 <= p < cands.len() implies mask_fits(#[trigger] cands[p]@, items.len() as int) by {
            assert(fits_knapsack(items, cands[p]@, cap));
        }
        assert forall|p: int| 0 <= p < cands.len() && mask_total_weight(items, #[trigger] cands[p]@) <= cap
            implies mask_total_value(items, cands[p]@) <= u64::MAX by {
            assert(fits_knapsack(items, cands[p]@, cap));
        }
    }
    let scored = evaluate(candidates, problem);
    if scored.len() == 0 {
        proof {
            if config.elite_count >= 1 || config.generations == 0 {
                if start.len() > 0 {
                    assert(reaches(items, cap, cands, fitness(items, start[0]@, cap)));
                    let q = choose|q: int|
                        0 <= q < cands.len() && fitness(items, #[trigger] cands[q]@, cap) >= fitness(
                            items,
                            start[0]@,
                            cap,
                        );
                }
            }
            assert(is_run(items, cap, *config, start, trace, config.generations as int));
            assert(picks_best(items, cap, trace.last(), Seq::<usize>::empty()));
        }
        return Vec::new();
    }
    let ghost order = choose|order: Seq<usize>|
        {
            &&& is_rank_order(score_keys(items, cands, cap), order)
            &&& forall|k: int|
                0 <= k < scored@.len() ==> (#[trigger] scored@[k]).0@ == cands[order[k] as int]@
                    && scored@[k].1 == fitness(items, cands[order[k] as int]@, cap)
        };
    let best = &scored[0].0;
    proof {
        assert(scored@[0].0@ == cands[order[0] as int]@);
        assert(fits_knapsack(items, cands[order[0] as int]@, cap));
        assert(n == items.len());
        lemma_mask_indices(items, best@, best@.len() as int);
        if config.elite_count >= 1 || config.generations == 0 {
            assert forall|p: int| 0 <= p < start.len() implies sum_values(items, mask_indices(best@, best@.len() as int))
                >= fitness(items, #[trigger] start[p]@, cap) by {
                assert(reaches(items, cap, cands, fitness(items, start[p]@, cap)));
                let q = choose|q: int|
                    0 <= q < cands.len() && fitness(items, #[trigger] cands[q]@, cap) >= fitness(
                        items,
                        start[p]@,
                        cap,
                    );
                assert(fitness(items, cands[q]@, cap) <= scored@[0].1);
            }
        }
        let q0 = order[0] as int;
        assert(0 <= q0 < cands.len());
        assert forall|p: int| 0 <= p < cands.len() implies fitness(items, cands[q0]@, cap) >= fitness(
            items,
            #[trigger] cands[p]@,
            cap,
        ) by {
            assert(fitness(items, cands[p]@, cap) <= scored@[0].1);
        }
        assert(mask_indices(best@, best@.len() as int) == mask_indices(cands[q0]@, cands[q0]@.len() as int));
        assert(picks_best(items, cap, cands, mask_indices(best@, best@.len() as int)));
        assert(is_run(items, cap, *config, start, trace, config.generations as int));
    }
    mask_to_indices(best)
}

/// The evolutionary search: a first population drawn from a generator
/// seeded with `config.seed`, then [`evolve_from`] with the same generator.
/// The answer is always feasible; with an elite of at least one (or no
/// rounds) it is worth at least every candidate of that first population.
pub fn evolve(problem: &KnapsackProblem, config: &EvolutionConfig) -> (selected: Vec<usize>)
    requires
        config_ok(*config),
        values_fit(problem.items@, problem.capacity as int),
    ensures
        is_valid_selection(problem.items@, selected@, problem.capacity as int),
        forall|a: int, b: int| 0 <= a < b < selected@.len() ==> selected@[a] < selected@[b],
        config.population_size == 0 ==> selected@.len() == 0,
        exists|first: Seq<Vec<bool>>|
            #[trigger] is_first_population(
                problem.items@,
                problem.capacity as int,
                first,
                config.population_size as int,
            ) && (config.elite_count >= 1 || config.generations == 0 ==> forall|p: int|
                0 <= p < first.len() ==> sum_values(problem.items@, selected@) >= fitness(
                    problem.items@,
                    #[trigger] first[p]@,
                    problem.capacity as int,
                )),
        config.population_size > 0 && (config.elite_count >= 1 || config.generations == 0)
            ==> exists|m: Seq<bool>|
            #[trigger] is_maximal(problem.items@, m, problem.capacity as int) && fits_knapsack(
                problem.items@,
                m,
                problem.capacity as int,
            ) && sum_values(problem.items@, selected@) >= mask_total_value(problem.items@, m),
{
    let ghost items = problem.items@;
    let ghost cap = problem.capacity as int;
    let mut rng = seeded_rng(config.seed as u64);
    let candidates = initialize_population(problem, config.population_size, &mut rng);
    let ghost first = candidates@;
    let selected = evolve_from(candidates, problem, config, &mut rng);
    proof {
        assert(is_first_population(items, cap, first, config.population_size as int));
        if config.population_size > 0 && (config.elite_count >= 1 || config.generations == 0) {
            assert(fits_knapsack(items, first[0]@, cap));
            assert(is_maximal(items, first[0]@, cap));
            assert(sum_values(items, selected@) >= fitness(items, first[0]@, cap));
        }
    }
    selected
}

/// The run parameters for `n` items: smaller populations and fewer
/// generations as the instance grows; seed 42.
pub open spec fn evolution_settings(n: int) -> EvolutionConfig {
    if n <= 100 {
        EvolutionConfig {
            population_size: 50,
            generations: 150,
            elite_count: 2,
            selection_rate: Rate { numerator: 2, denominator: 5 },
            mutation_rate: Rate { numerator: 1, denominator: 20 },
            seed: 42,
        }
    } else if n <= 500 {
        EvolutionConfig {
            population_size: 40,
            generations: 100,
            elite_count: 2,
            selection_rate: Rate { numerator: 2, denominator: 5 },
            mutation_rate: Rate { numerator: 3, denominator: 100 },
            seed: 42,
        }
    } else if n <= 2_000 {
        EvolutionConfig {
            population_size: 30,
            generations: 60,
            elite_count: 2,
            selection_rate: Rate { numerator: 2, denominator: 5 },
            mutation_rate: Rate { numerator: 1, denominator: 50 },
            seed: 42,
        }
    } else if n <= 10_000 {
        EvolutionConfig {
            population_size: 20,
            generations: 40,
            elite_count: 2,
            selection_rate: Rate { numerator: 3, denominator: 10 },
            mutation_rate: Rate { numerator: 1, denominator: 100 },
            seed: 42,
        }
    } else if n <= 50_000 {
        EvolutionConfig {
            population_size: 15,
            generations: 20,
            elite_count: 1,
            selection_rate: Rate { numerator: 3, denominator: 10 },
            mutation_rate: Rate { numerator: 1, denominator: 200 },
            seed: 42,
        }
    } else {
        EvolutionConfig {
            population_size: 10,
            generations: 10,
            elite_count: 1,
            selection_rate: Rate { numerator: 3, denominator: 10 },
            mutation_rate: Rate { numerator: 1, denominator: 500 },
            seed: 42,
        }
    }
}

/// The run parameters for `n` items (see [`evolution_settings`]); they
/// always allow a run.
pub fn evolution_config(n: usize) -> (config: EvolutionConfig)
    ensures
        config == evolution_settings(n as int),
        config_ok(config),
{
    if n <= 100 {
        EvolutionConfig {
            population_size: 50,
            generations: 150,
            elite_count: 2,
            selection_rate: Rate { numerator: 2, denominator: 5 },
            mutation_rate: Rate { numerator: 1, denominator: 20 },
            seed: 42,
        }
    } else if n <= 500 {
        EvolutionConfig {
            population_size: 40,
            generations: 100,
            elite_count: 2,
            selection_rate: Rate { numerator: 2, denominator: 5 },
            mutation_rate: Rate { numerator: 3, denominator: 100 },
            seed: 42,
        }
    } else if n <= 2_000 {
        EvolutionConfig {
            population_size: 30,
            generations: 60,
            elite_count: 2,
            selection_rate: Rate { numerator: 2, denominator: 5 },
            mutation_rate: Rate { numerator: 1, denominator: 50 },
            seed: 42,
        }
    } else if n <= 10_000 {
        EvolutionConfig {
            population_size: 20,
            generations: 40,
            elite_count: 2,
            selection_rate: Rate { numerator: 3, denominator: 10 },
            mutation_rate: Rate { numerator: 1, denominator: 100 },
            seed: 42,
        }
    } else if n <= 50_000 {
        EvolutionConfig {
            population_size: 15,
            generations: 20,
            elite_count: 1,
            selection_rate: Rate { numerator: 3, denominator: 10 },
            mutation_rate: Rate { numerator: 1, denominator: 200 },
            seed: 42,
        }
    } else {
        EvolutionConfig {
            population_size: 10,
            generations: 10,
            elite_count: 1,
            selection_rate: Rate { numerator: 3, denominator: 10 },
            mutation_rate: Rate { numerator: 1, denominator: 500 },
            seed: 42,
        }
    }
}

/// The evolutionary solver: [`evolve`] with the run parameters for the
/// instance's size. Its answer is always feasible.
pub fn solve_evolution(problem: &KnapsackProblem) -> (sol: KnapsackSolution)
    requires
        values_fit(problem.items@, problem.capacity as int),
    ensures
        is_valid_selection(problem.items@, sol.selected@, problem.capacity as int),
        exists|m: Seq<bool>|
            #[trigger] is_maximal(problem.items@, m, problem.capacity as int) && fits_knapsack(
                problem.items@,
                m,
                problem.capacity as int,
            ) && sum_values(problem.items@, sol.selected@) >= mask_total_value(problem.items@, m),
        call_ensures(
            evolve,
            (problem, &evolution_settings(problem.items@.len() as int)),
            sol.selected,
        ),
{
    let config = evolution_config(problem.items.len());
    let selected = evolve(problem, &config);
    KnapsackSolution { selected }
}

/// When all values together fit in a `u64`, so does the value of every candidate.
pub proof fn lemma_values_fit(items: Seq<Item>, cap: int)
    requires
        items_value(items) <= u64::MAX,
    ensures
        values_fit(items, cap),
{
    assert forall|m: Seq<bool>|
        m.len() == items.len() && mask_total_weight(items, m) <= cap implies #[trigger] mask_total_value(
        items,
        m,
    ) <= u64::MAX by {
        lemma_mask_le_all(items, m, items.len() as int);
    }
}

} // verus!
