//! Ranking by ratio: a stable merge sort of positions by the ratio
//! `numerator / denominator` of their keys, largest first.
//!
//! Ratios are compared exactly, by cross-multiplication; equal ratios keep
//! their positions' order.

use crate::problem::indices_in_range;
use vstd::prelude::*;

verus! {

/// Position `i` has a strictly larger ratio than position `j`.
pub open spec fn ratio_gt(keys: Seq<(u64, u64)>, i: int, j: int) -> bool {
    keys[i].0 * keys[j].1 > keys[j].0 * keys[i].1
}

/// Positions `i` and `j` have equal ratios.
pub open spec fn ratio_eq(keys: Seq<(u64, u64)>, i: int, j: int) -> bool {
    keys[i].0 * keys[j].1 == keys[j].0 * keys[i].1
}

/// Position `i` ranks before position `j`: a larger ratio, or an equal one
/// at a smaller position.
pub open spec fn ranks_before(keys: Seq<(u64, u64)>, i: int, j: int) -> bool {
    ratio_gt(keys, i, j) || (ratio_eq(keys, i, j) && i < j)
}

/// No key is `0 / 0`, whose ratio is undefined.
pub open spec fn keys_defined(keys: Seq<(u64, u64)>) -> bool {
    forall|i: int| 0 <= i < keys.len() ==> !(#[trigger] keys[i].0 == 0 && keys[i].1 == 0)
}

/// `order` lists every position of `keys` once, best ratio first, ties in
/// position order.
pub open spec fn is_rank_order(keys: Seq<(u64, u64)>, order: Seq<usize>) -> bool {
    &&& order.len() == keys.len()
    &&& indices_in_range(order, keys.len() as int)
    &&& forall|a: int, b: int|
        0 <= a < b < order.len() ==> ranks_before(keys, order[a] as int, order[b] as int)
    &&& covers(order, 0, keys.len() as int)
}

/// Every position in `lo..hi` occurs in `s`.
pub open spec fn covers(s: Seq<usize>, lo: int, hi: int) -> bool {
    forall|x: int| lo <= x < hi ==> #[trigger] s.contains(x as usize)
}

/// `s` lists positions in `lo..hi`, ranked, each before the next.
pub open spec fn ranked_run(keys: Seq<(u64, u64)>, s: Seq<usize>, lo: int, hi: int) -> bool {
    &&& forall|p: int| 0 <= p < s.len() ==> lo <= #[trigger] s[p] < hi
    &&& forall|a: int, b: int|
        0 <= a < b < s.len() ==> ranks_before(keys, s[a] as int, s[b] as int)
}

/// Cross-multiplied comparison is transitive on defined ratios.
proof fn lemma_cross_trans(va: int, wa: int, vb: int, wb: int, vc: int, wc: int)
    requires
        va >= 0,
        wa >= 0,
        vb >= 0,
        wb >= 0,
        vc >= 0,
        wc >= 0,
        !(va == 0 && wa == 0),
        !(vb == 0 && wb == 0),
        !(vc == 0 && wc == 0),
    ensures
        va * wb > vb * wa && vb * wc > vc * wb ==> va * wc > vc * wa,
        va * wb > vb * wa && vb * wc == vc * wb ==> va * wc > vc * wa,
        va * wb == vb * wa && vb * wc > vc * wb ==> va * wc > vc * wa,
        va * wb == vb * wa && vb * wc == vc * wb ==> va * wc == vc * wa,
{
    let x = va * wb - vb * wa;
    let y = vb * wc - vc * wb;
    let z = va * wc - vc * wa;
    assert(wb * z == wc * x + wa * y) by (nonlinear_arith)
        requires
            x == va * wb - vb * wa,
            y == vb * wc - vc * wb,
            z == va * wc - vc * wa,
    ;
    assert(vc * wb >= 0 && vb * wa >= 0 && vb * wc >= 0 && va * wb >= 0) by (nonlinear_arith)
        requires
            va >= 0,
            wa >= 0,
            vb >= 0,
            wb >= 0,
            vc >= 0,
            wc >= 0,
    ;
    if wb > 0 {
        if wc == 0 {
            assert(vb * wc == 0);
            assert(vc * wb > 0) by (nonlinear_arith)
                requires
                    vc > 0,
                    wb > 0,
            ;
        }
        if wa == 0 {
            assert(vb * wa == 0);
            assert(va * wb > 0) by (nonlinear_arith)
                requires
                    va > 0,
                    wb > 0,
            ;
        }
        assert(x > 0 && wc > 0 ==> wc * x > 0) by (nonlinear_arith);
        assert(y > 0 && wa > 0 ==> wa * y > 0) by (nonlinear_arith);
        assert(x >= 0 && wc >= 0 ==> wc * x >= 0) by (nonlinear_arith);
        assert(y >= 0 && wa >= 0 ==> wa * y >= 0) by (nonlinear_arith);
        assert(x == 0 ==> wc * x == 0) by (nonlinear_arith);
        assert(y == 0 ==> wa * y == 0) by (nonlinear_arith);
        assert(wb * z > 0 ==> z > 0) by (nonlinear_arith)
            requires
                wb > 0,
        ;
        assert(wb * z == 0 ==> z == 0) by (nonlinear_arith)
            requires
                wb > 0,
        ;
        if x == 0 && y == 0 {
            assert(wb * z == 0);
            assert(z == 0);
        }
    } else {
        assert(vb > 0);
        assert(va * wb == 0 && vc * wb == 0);
        assert(x == -(vb * wa));
        assert(y == vb * wc);
        if wa > 0 {
            assert(vb * wa > 0) by (nonlinear_arith)
                requires
                    vb > 0,
                    wa > 0,
            ;
        } else {
            assert(vc * wa == 0);
            assert(z == va * wc);
            if wc > 0 {
                assert(va * wc > 0 && vb * wc > 0) by (nonlinear_arith)
                    requires
                        va > 0,
                        vb > 0,
                        wc > 0,
                ;
            } else {
                assert(vb * wc == 0);
                assert(va * wc == 0);
            }
        }
    }
}

/// Ranking is transitive.
pub proof fn lemma_ranks_before_trans(keys: Seq<(u64, u64)>, i: int, j: int, k: int)
    requires
        0 <= i < keys.len(),
        0 <= j < keys.len(),
        0 <= k < keys.len(),
        !(keys[i].0 == 0 && keys[i].1 == 0),
        !(keys[j].0 == 0 && keys[j].1 == 0),
        !(keys[k].0 == 0 && keys[k].1 == 0),
        ranks_before(keys, i, j),
        ranks_before(keys, j, k),
    ensures
        ranks_before(keys, i, k),
{
    lemma_cross_trans(
        keys[i].0 as int,
        keys[i].1 as int,
        keys[j].0 as int,
        keys[j].1 as int,
        keys[k].0 as int,
        keys[k].1 as int,
    );
}

/// Two different positions are ranked one way or the other.
pub proof fn lemma_ranks_before_total(keys: Seq<(u64, u64)>, i: int, j: int)
    requires
        i != j,
    ensures
        ranks_before(keys, i, j) || ranks_before(keys, j, i),
{
}

/// Whether position `i` ranks before position `j`.
fn ranks_before_exec(keys: &Vec<(u64, u64)>, i: usize, j: usize) -> (r: bool)
    requires
        i < keys@.len(),
        j < keys@.len(),
    ensures
        r == ranks_before(keys@, i as int, j as int),
{
    let (vi, wi) = keys[i];
    let (vj, wj) = keys[j];
    proof {
        assert((vi as int) * (wj as int) <= 0xffff_ffff_ffff_ffffu128 * 0xffff_ffff_ffff_ffffu128)
            by (nonlinear_arith)
            requires
                vi <= 0xffff_ffff_ffff_ffffu64,
                wj <= 0xffff_ffff_ffff_ffffu64,
        ;
        assert((vj as int) * (wi as int) <= 0xffff_ffff_ffff_ffffu128 * 0xffff_ffff_ffff_ffffu128)
            by (nonlinear_arith)
            requires
                vj <= 0xffff_ffff_ffff_ffffu64,
                wi <= 0xffff_ffff_ffff_ffffu64,
        ;
    }
    let left = (vi as u128) * (wj as u128);
    let right = (vj as u128) * (wi as u128);
    left > right || (left == right && i < j)
}

/// Merges two ranked runs from adjacent ranges into one ranked run.
fn merge_runs(
    keys: &Vec<(u64, u64)>,
    a: &Vec<usize>,
    b: &Vec<usize>,
    Ghost(lo): Ghost<int>,
    Ghost(mid): Ghost<int>,
    Ghost(hi): Ghost<int>,
) -> (r: Vec<usize>)
    requires
        0 <= lo <= mid <= hi <= keys@.len(),
        ranked_run(keys@, a@, lo, mid),
        ranked_run(keys@, b@, mid, hi),
        covers(a@, lo, mid),
        covers(b@, mid, hi),
        hi <= usize::MAX,
        forall|p: int| lo <= p < hi ==> !(#[trigger] keys@[p].0 == 0 && keys@[p].1 == 0),
    ensures
        r@.len() == a@.len() + b@.len(),
        ranked_run(keys@, r@, lo, hi),
        covers(r@, lo, hi),
{
    let mut r: Vec<usize> = Vec::new();
    let mut i: usize = 0;
    let mut j: usize = 0;
    while i < a.len() || j < b.len()
        invariant
            0 <= lo <= mid <= hi <= keys@.len(),
            ranked_run(keys@, a@, lo, mid),
            ranked_run(keys@, b@, mid, hi),
            forall|p: int| lo <= p < hi ==> !(#[trigger] keys@[p].0 == 0 && keys@[p].1 == 0),
            i <= a@.len(),
            j <= b@.len(),
            r@.len() == i + j,
            ranked_run(keys@, r@, lo, hi),
            forall|x: int| 0 <= x < i ==> r@.contains(#[trigger] a@[x]),
            forall|y: int| 0 <= y < j ==> r@.contains(#[trigger] b@[y]),
            forall|p: int, x: int|
                0 <= p < r@.len() && i <= x < a@.len() ==> ranks_before(
                    keys@,
                    #[trigger] r@[p] as int,
                    #[trigger] a@[x] as int,
                ),
            forall|p: int, y: int|
                0 <= p < r@.len() && j <= y < b@.len() ==> ranks_before(
                    keys@,
                    #[trigger] r@[p] as int,
                    #[trigger] b@[y] as int,
                ),
        decreases a@.len() + b@.len() - i - j,
    {
        let take_a = if j >= b.len() {
            true
        } else if i >= a.len() {
            false
        } else {
            !ranks_before_exec(keys, b[j], a[i])
        };
        if take_a {
            let e = a[i];
            proof {
                let kd = keys@;
                assert(lo <= e < mid);
                if j < b@.len() {
                    assert(mid <= b@[j as int] < hi);
                    lemma_ranks_before_total(kd, e as int, b@[j as int] as int);
                }
                assert forall|y: int| j <= y < b@.len() implies ranks_before(
                    kd,
                    e as int,
                    #[trigger] b@[y] as int,
                ) by {
                    assert(mid <= b@[y] < hi);
                    if y > j {
                        assert(mid <= b@[j as int] < hi);
                        lemma_ranks_before_trans(kd, e as int, b@[j as int] as int, b@[y] as int);
                    }
                }
            }
            let ghost r0 = r@;
            r.push(e);
            proof {
                assert forall|x: int| 0 <= x < i + 1 implies r@.contains(#[trigger] a@[x]) by {
                    if x == i {
                        assert(r@[r0.len() as int] == e);
                    } else {
                        let p = choose|p: int| 0 <= p < r0.len() && r0[p] == a@[x];
                        assert(r@[p] == a@[x]);
                    }
                }
                assert forall|y: int| 0 <= y < j implies r@.contains(#[trigger] b@[y]) by {
                    let p = choose|p: int| 0 <= p < r0.len() && r0[p] == b@[y];
                    assert(r@[p] == b@[y]);
                }
            }
            i = i + 1;
        } else {
            let e = b[j];
            proof {
                let kd = keys@;
                assert(mid <= e < hi);
                assert forall|x: int| i <= x < a@.len() implies ranks_before(
                    kd,
                    e as int,
                    #[trigger] a@[x] as int,
                ) by {
                    assert(lo <= a@[x] < mid);
                    if x > i {
                        assert(lo <= a@[i as int] < mid);
                        lemma_ranks_before_trans(kd, e as int, a@[i as int] as int, a@[x] as int);
                    }
                }
            }
            let ghost r0 = r@;
            r.push(e);
            proof {
                assert forall|y: int| 0 <= y < j + 1 implies r@.contains(#[trigger] b@[y]) by {
                    if y == j {
                        assert(r@[r0.len() as int] == e);
                    } else {
                        let p = choose|p: int| 0 <= p < r0.len() && r0[p] == b@[y];
                        assert(r@[p] == b@[y]);
                    }
                }
                assert forall|x: int| 0 <= x < i implies r@.contains(#[trigger] a@[x]) by {
                    let p = choose|p: int| 0 <= p < r0.len() && r0[p] == a@[x];
                    assert(r@[p] == a@[x]);
                }
            }
            j = j + 1;
        }
    }
    proof {
        assert forall|x: int| lo <= x < hi implies #[trigger] r@.contains(x as usize) by {
            if x < mid {
                assert(a@.contains(x as usize));
                let q = choose|q: int| 0 <= q < a@.len() && a@[q] == x as usize;
                assert(r@.contains(a@[q]));
            } else {
                assert(b@.contains(x as usize));
                let q = choose|q: int| 0 <= q < b@.len() && b@[q] == x as usize;
                assert(r@.contains(b@[q]));
            }
        }
    }
    r
}

/// Ranks the positions `lo..hi`.
fn rank_range(keys: &Vec<(u64, u64)>, lo: usize, hi: usize) -> (r: Vec<usize>)
    requires
        lo <= hi <= keys@.len(),
        hi - lo >= 2 ==> forall|p: int| lo <= p < hi ==> !(#[trigger] keys@[p].0 == 0 && keys@[p].1
            == 0),
    ensures
        r@.len() == hi - lo,
        ranked_run(keys@, r@, lo as int, hi as int),
        covers(r@, lo as int, hi as int),
    decreases hi - lo,
{
    if hi - lo == 0 {
        Vec::new()
    } else if hi - lo == 1 {
        let mut r: Vec<usize> = Vec::new();
        r.push(lo);
        assert(r@[0] == lo);
        r
    } else {
        let mid = lo + (hi - lo) / 2;
        let a = rank_range(keys, lo, mid);
        let b = rank_range(keys, mid, hi);
        merge_runs(keys, &a, &b, Ghost(lo as int), Ghost(mid as int), Ghost(hi as int))
    }
}

/// All positions of `keys`, ranked by ratio, largest first; equal ratios
/// keep their positions' order (a stable sort).
pub fn rank_by_ratio(keys: &Vec<(u64, u64)>) -> (order: Vec<usize>)
    requires
        keys@.len() >= 2 ==> keys_defined(keys@),
    ensures
        is_rank_order(keys@, order@),
{
    let order = rank_range(keys, 0, keys.len());
    order
}

/// A ranking is unique: two orders that both rank the same keys are equal.
pub proof fn lemma_rank_order_unique(keys: Seq<(u64, u64)>, o1: Seq<usize>, o2: Seq<usize>)
    requires
        is_rank_order(keys, o1),
        is_rank_order(keys, o2),
    ensures
        o1 == o2,
{
    assert forall|k: int| 0 <= k < o1.len() implies o1[k] == o2[k] by {
        lemma_rank_prefix_equal(keys, o1, o2, k + 1);
    }
    assert(o1 =~= o2);
}

proof fn lemma_rank_prefix_equal(keys: Seq<(u64, u64)>, o1: Seq<usize>, o2: Seq<usize>, k: int)
    requires
        is_rank_order(keys, o1),
        is_rank_order(keys, o2),
        0 <= k <= o1.len(),
    ensures
        forall|j: int| 0 <= j < k ==> o1[j] == o2[j],
    decreases k,
{
    if k > 0 {
        lemma_rank_prefix_equal(keys, o1, o2, k - 1);
        let m = k - 1;
        let x = o1[m];
        let y = o2[m];
        if x != y {
            assert(x < keys.len());
            assert(y < keys.len());
            assert(o1.contains(y)) by {
                assert(covers(o1, 0, keys.len() as int));
                assert(o1.contains(y as int as usize));
            }
            assert(o2.contains(x)) by {
                assert(covers(o2, 0, keys.len() as int));
                assert(o2.contains(x as int as usize));
            }
            let p = choose|p: int| 0 <= p < o1.len() && o1[p] == y;
            let q = choose|q: int| 0 <= q < o2.len() && o2[q] == x;
            if p < m {
                assert(o2[p] == y);
                assert(ranks_before(keys, o2[p] as int, o2[m] as int));
            }
            if q < m {
                assert(o1[q] == x);
                assert(ranks_before(keys, o1[q] as int, o1[m] as int));
            }
            assert(p > m);
            assert(q > m);
            assert(ranks_before(keys, x as int, y as int));
            assert(ranks_before(keys, y as int, x as int));
        }
    }
}

} // verus!
