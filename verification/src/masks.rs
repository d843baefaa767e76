//! Selections written as masks: `m[i]` tells whether item `i` is chosen.
//!
//! The evolutionary search breeds masks; the optimality proofs compare the
//! solvers' answers with every mask that fits.

use crate::problem::{
    indices_distinct, indices_in_range, sum_values, sum_weights, Item,
};
use vstd::prelude::*;

verus! {

/// The summed value of the items that `m` marks among positions `0..k`.
pub open spec fn mask_value(items: Seq<Item>, m: Seq<bool>, k: int) -> int
    decreases k,
{
    if k <= 0 {
        0
    } else {
        mask_value(items, m, k - 1) + if m[k - 1] {
            items[k - 1].value as int
        } else {
            0
        }
    }
}

/// The summed weight of the items that `m` marks among positions `0..k`.
pub open spec fn mask_weight(items: Seq<Item>, m: Seq<bool>, k: int) -> int
    decreases k,
{
    if k <= 0 {
        0
    } else {
        mask_weight(items, m, k - 1) + if m[k - 1] {
            items[k - 1].weight as int
        } else {
            0
        }
    }
}

/// Every position that `m` marks names one of `n` items.
pub open spec fn mask_fits(m: Seq<bool>, n: int) -> bool {
    forall|j: int| 0 <= j < m.len() && #[trigger] m[j] ==> j < n
}

/// The summed value of everything `m` marks.
pub open spec fn mask_total_value(items: Seq<Item>, m: Seq<bool>) -> int {
    mask_value(items, m, m.len() as int)
}

/// The summed weight of everything `m` marks.
pub open spec fn mask_total_weight(items: Seq<Item>, m: Seq<bool>) -> int {
    mask_weight(items, m, m.len() as int)
}

/// The mask of length `n` that marks the indices occurring in `sel`.
pub open spec fn mask_of(sel: Seq<usize>, n: int) -> Seq<bool> {
    Seq::new(n as nat, |j: int| sel.contains(j as usize))
}

/// The positions below `k` that `m` marks, in increasing order.
pub open spec fn mask_indices(m: Seq<bool>, k: int) -> Seq<usize>
    decreases k,
{
    if k <= 0 {
        seq![]
    } else if m[k - 1] {
        mask_indices(m, k - 1).push((k - 1) as usize)
    } else {
        mask_indices(m, k - 1)
    }
}

pub proof fn lemma_mask_nonneg(items: Seq<Item>, m: Seq<bool>, k: int)
    ensures
        mask_value(items, m, k) >= 0,
        mask_weight(items, m, k) >= 0,
    decreases k,
{
    if k > 0 {
        lemma_mask_nonneg(items, m, k - 1);
    }
}

/// Sums over fewer positions are no larger.
pub proof fn lemma_mask_monotone(items: Seq<Item>, m: Seq<bool>, j: int, k: int)
    requires
        j <= k,
    ensures
        mask_value(items, m, j) <= mask_value(items, m, k),
        mask_weight(items, m, j) <= mask_weight(items, m, k),
    decreases k - j,
{
    if j < k {
        lemma_mask_monotone(items, m, j, k - 1);
    }
}

/// Each item weighs at most `u64::MAX`, so `k` positions weigh at most `k` times that.
pub proof fn lemma_mask_weight_bound(items: Seq<Item>, m: Seq<bool>, k: int)
    requires
        0 <= k,
    ensures
        mask_weight(items, m, k) <= k * (u64::MAX as int),
    decreases k,
{
    if k > 0 {
        lemma_mask_weight_bound(items, m, k - 1);
    }
}

/// Masks that agree on positions `0..k` have the same sums there.
pub proof fn lemma_mask_agree(items: Seq<Item>, m1: Seq<bool>, m2: Seq<bool>, k: int)
    requires
        forall|j: int| 0 <= j < k ==> m1[j] == m2[j],
    ensures
        mask_value(items, m1, k) == mask_value(items, m2, k),
        mask_weight(items, m1, k) == mask_weight(items, m2, k),
    decreases k,
{
    if k > 0 {
        lemma_mask_agree(items, m1, m2, k - 1);
    }
}

/// Setting position `i` to `b` changes the sums over `0..k` by that item alone.
pub proof fn lemma_mask_update(items: Seq<Item>, m: Seq<bool>, i: int, b: bool, k: int)
    requires
        0 <= i < m.len(),
        k <= m.len(),
    ensures
        i < k ==> mask_value(items, m.update(i, b), k) == mask_value(items, m, k) - (if m[i] {
            items[i].value as int
        } else {
            0
        }) + (if b {
            items[i].value as int
        } else {
            0
        }),
        i < k ==> mask_weight(items, m.update(i, b), k) == mask_weight(items, m, k) - (if m[i] {
            items[i].weight as int
        } else {
            0
        }) + (if b {
            items[i].weight as int
        } else {
            0
        }),
        k <= i ==> mask_value(items, m.update(i, b), k) == mask_value(items, m, k),
        k <= i ==> mask_weight(items, m.update(i, b), k) == mask_weight(items, m, k),
    decreases k,
{
    if k > 0 {
        lemma_mask_update(items, m, i, b, k - 1);
    }
}

/// A list of distinct item indices and its mask have the same sums.
pub proof fn lemma_mask_of_sums(items: Seq<Item>, sel: Seq<usize>, n: int)
    requires
        0 <= n <= usize::MAX,
        indices_in_range(sel, n),
        indices_distinct(sel),
    ensures
        mask_value(items, mask_of(sel, n), n) == sum_values(items, sel),
        mask_weight(items, mask_of(sel, n), n) == sum_weights(items, sel),
    decreases sel.len(),
{
    if sel.len() == 0 {
        lemma_mask_agree(items, mask_of(sel, n), Seq::new(n as nat, |j: int| false), n);
        lemma_mask_zero(items, Seq::new(n as nat, |j: int| false), n);
    } else {
        let s = sel.drop_last();
        let x = sel.last();
        assert(indices_distinct(s));
        assert(indices_in_range(s, n));
        lemma_mask_of_sums(items, s, n);
        let m = mask_of(s, n);
        assert(!s.contains(x)) by {
            if s.contains(x) {
                let p = choose|p: int| 0 <= p < s.len() && s[p] == x;
                assert(sel[p] == sel[sel.len() - 1]);
            }
        }
        assert(mask_of(sel, n) =~= m.update(x as int, true)) by {
            assert forall|j: int| 0 <= j < n implies mask_of(sel, n)[j] == m.update(
                x as int,
                true,
            )[j] by {
                if j == x {
                    assert(sel[sel.len() - 1] == x);
                } else {
                    if sel.contains(j as usize) {
                        let p = choose|p: int| 0 <= p < sel.len() && sel[p] == j as usize;
                        assert(s[p] == j as usize);
                    }
                    if s.contains(j as usize) {
                        let p = choose|p: int| 0 <= p < s.len() && s[p] == j as usize;
                        assert(sel[p] == j as usize);
                    }
                }
            }
        }
        lemma_mask_update(items, m, x as int, true, n);
    }
}

/// A mask that marks nothing sums to zero.
pub proof fn lemma_mask_zero(items: Seq<Item>, m: Seq<bool>, k: int)
    requires
        forall|j: int| 0 <= j < k ==> !m[j],
    ensures
        mask_value(items, m, k) == 0,
        mask_weight(items, m, k) == 0,
    decreases k,
{
    if k > 0 {
        lemma_mask_zero(items, m, k - 1);
    }
}

/// The marked positions of a mask, listed, have the mask's sums; they are
/// increasing, below `k`, and exactly the marked ones.
pub proof fn lemma_mask_indices(items: Seq<Item>, m: Seq<bool>, k: int)
    requires
        0 <= k <= m.len(),
        k <= usize::MAX,
    ensures
        sum_values(items, mask_indices(m, k)) == mask_value(items, m, k),
        sum_weights(items, mask_indices(m, k)) == mask_weight(items, m, k),
        indices_in_range(mask_indices(m, k), k),
        forall|a: int, b: int|
            0 <= a < b < mask_indices(m, k).len() ==> mask_indices(m, k)[a] < mask_indices(
                m,
                k,
            )[b],
        indices_distinct(mask_indices(m, k)),
        forall|j: int| 0 <= j < k ==> (m[j] <==> mask_indices(m, k).contains(j as usize)),
    decreases k,
{
    if k > 0 {
        lemma_mask_indices(items, m, k - 1);
        let s = mask_indices(m, k - 1);
        if m[k - 1] {
            let t = s.push((k - 1) as usize);
            assert(t.drop_last() =~= s);
            assert forall|j: int| 0 <= j < k implies (m[j] <==> t.contains(j as usize)) by {
                if j < k - 1 {
                    if t.contains(j as usize) {
                        let p = choose|p: int| 0 <= p < t.len() && t[p] == j as usize;
                        assert(p < s.len());
                        assert(s[p] == j as usize);
                    }
                    if s.contains(j as usize) {
                        let p = choose|p: int| 0 <= p < s.len() && s[p] == j as usize;
                        assert(t[p] == j as usize);
                    }
                } else {
                    assert(t[t.len() - 1] == j as usize);
                }
            }
        } else {
            assert forall|j: int| 0 <= j < k implies (m[j] <==> s.contains(j as usize)) by {
                if j == k - 1 && s.contains(j as usize) {
                    let p = choose|p: int| 0 <= p < s.len() && s[p] == j as usize;
                    assert(s[p] < k - 1);
                }
            }
        }
    }
}

/// A copy of a mask.
pub fn copy_mask(m: &Vec<bool>) -> (r: Vec<bool>)
    ensures
        r@ == m@,
{
    let mut r: Vec<bool> = Vec::new();
    let mut k: usize = 0;
    while k < m.len()
        invariant
            k <= m@.len(),
            r@ == m@.take(k as int),
        decreases m@.len() - k,
    {
        r.push(m[k]);
        proof {
            assert(m@.take(k + 1) =~= m@.take(k as int).push(m@[k as int]));
        }
        k = k + 1;
    }
    assert(m@.take(m@.len() as int) =~= m@);
    r
}

/// The summed weight of what `m` marks, in a type wide enough never to overflow.
pub fn mask_weight_wide(items: &Vec<Item>, m: &Vec<bool>) -> (r: u128)
    requires
        mask_fits(m@, items@.len() as int),
    ensures
        r == mask_total_weight(items@, m@),
{
    let mut total: u128 = 0;
    let mut k: usize = 0;
    while k < m.len()
        invariant
            k <= m@.len(),
            mask_fits(m@, items@.len() as int),
            total == mask_weight(items@, m@, k as int),
        decreases m@.len() - k,
    {
        proof {
            lemma_mask_weight_bound(items@, m@, k as int);
            lemma_mask_nonneg(items@, m@, k as int);
            assert(k * (u64::MAX as int) <= 0xffff_ffff_ffff_ffffu128 * 0xffff_ffff_ffff_ffffu128)
                by (nonlinear_arith)
                requires
                    k <= 0xffff_ffff_ffff_ffffu128,
            ;
        }
        if m[k] {
            total = total + items[k].weight as u128;
        }
        k = k + 1;
    }
    total
}

/// The summed value of what `m` marks.
pub fn mask_value_exec(items: &Vec<Item>, m: &Vec<bool>) -> (r: u64)
    requires
        mask_fits(m@, items@.len() as int),
        mask_total_value(items@, m@) <= u64::MAX,
    ensures
        r == mask_total_value(items@, m@),
{
    let mut total: u64 = 0;
    let mut k: usize = 0;
    while k < m.len()
        invariant
            k <= m@.len(),
            mask_fits(m@, items@.len() as int),
            mask_total_value(items@, m@) <= u64::MAX,
            total == mask_value(items@, m@, k as int),
        decreases m@.len() - k,
    {
        proof {
            lemma_mask_monotone(items@, m@, k + 1, m@.len() as int);
        }
        if m[k] {
            total = total + items[k].value;
        }
        k = k + 1;
    }
    total
}

/// The marked positions of `m`, in increasing order.
pub fn mask_to_indices(m: &Vec<bool>) -> (r: Vec<usize>)
    ensures
        r@ == mask_indices(m@, m@.len() as int),
{
    let mut r: Vec<usize> = Vec::new();
    let mut k: usize = 0;
    while k < m.len()
        invariant
            k <= m@.len(),
            r@ == mask_indices(m@, k as int),
        decreases m@.len() - k,
    {
        if m[k] {
            r.push(k);
        }
        k = k + 1;
    }
    r
}

/// The mask that marks every item.
pub open spec fn all_items(n: int) -> Seq<bool> {
    Seq::new(n as nat, |j: int| true)
}

/// The summed value of all items.
pub open spec fn items_value(items: Seq<Item>) -> int {
    mask_value(items, all_items(items.len() as int), items.len() as int)
}

/// The summed weight of all items.
pub open spec fn items_weight(items: Seq<Item>) -> int {
    mask_weight(items, all_items(items.len() as int), items.len() as int)
}

/// No mask is worth or weighs more than all items together.
pub proof fn lemma_mask_le_all(items: Seq<Item>, m: Seq<bool>, k: int)
    requires
        k <= items.len(),
    ensures
        mask_value(items, m, k) <= mask_value(items, all_items(items.len() as int), k),
        mask_weight(items, m, k) <= mask_weight(items, all_items(items.len() as int), k),
    decreases k,
{
    if k > 0 {
        lemma_mask_le_all(items, m, k - 1);
    }
}

/// The summed value of all items, or `None` when it exceeds `u64::MAX`.
pub fn total_item_value(items: &Vec<Item>) -> (r: Option<u64>)
    ensures
        r matches Some(v) ==> v == items_value(items@),
        r is None <==> items_value(items@) > u64::MAX,
{
    let ghost all = all_items(items@.len() as int);
    let mut total: u64 = 0;
    let mut k: usize = 0;
    while k < items.len()
        invariant
            k <= items@.len(),
            all == all_items(items@.len() as int),
            total == mask_value(items@, all, k as int),
        decreases items@.len() - k,
    {
        match total.checked_add(items[k].value) {
            Some(t) => {
                total = t;
            },
            None => {
                proof {
                    lemma_mask_monotone(items@, all, k + 1, items@.len() as int);
                }
                return None;
            },
        }
        k = k + 1;
    }
    Some(total)
}

/// The summed weight of all items, or `None` when it exceeds `u64::MAX`.
pub fn total_item_weight(items: &Vec<Item>) -> (r: Option<u64>)
    ensures
        r matches Some(v) ==> v == items_weight(items@),
        r is None <==> items_weight(items@) > u64::MAX,
{
    let ghost all = all_items(items@.len() as int);
    let mut total: u64 = 0;
    let mut k: usize = 0;
    while k < items.len()
        invariant
            k <= items@.len(),
            all == all_items(items@.len() as int),
            total == mask_weight(items@, all, k as int),
        decreases items@.len() - k,
    {
        match total.checked_add(items[k].weight) {
            Some(t) => {
                total = t;
            },
            None => {
                proof {
                    lemma_mask_monotone(items@, all, k + 1, items@.len() as int);
                }
                return None;
            },
        }
        k = k + 1;
    }
    Some(total)
}

} // verus!
