//! The order in which rows are listed.
//!
//! A table lists its rows by time of creation, newest first or oldest first.
//! Rows created at the same instant keep the order they have in the table.
//! The order is described on positions: an arrangement of a table with `n`
//! rows is the sequence of the positions `0..n` in the order of listing.

use vstd::prelude::*;
use vstd::relations::total_ordering;

verus! {

/// True when the row at position `a` is listed before the row at position `b`.
pub open spec fn ahead(times: Seq<i64>, a: int, b: int, newest_first: bool) -> bool {
    if times[a] == times[b] {
        a < b
    } else if newest_first {
        times[a] > times[b]
    } else {
        times[a] < times[b]
    }
}

/// True when `order` lists each of the first `upto` positions once, each
/// before all that it is ahead of.
pub open spec fn arranges(times: Seq<i64>, order: Seq<int>, upto: int, newest_first: bool) -> bool {
    &&& order.len() == upto
    &&& forall|i: int| 0 <= i < order.len() ==> 0 <= #[trigger] order[i] < upto
    &&& forall|i: int, j: int|
        0 <= i < j < order.len() ==> ahead(times, #[trigger] order[i], #[trigger] order[j], newest_first)
    &&& forall|k: int| 0 <= k < upto ==> #[trigger] order.contains(k)
}

/// True when `order` is the listing order of the whole table.
pub open spec fn is_arrangement(times: Seq<i64>, order: Seq<int>, newest_first: bool) -> bool {
    arranges(times, order, times.len() as int, newest_first)
}

/// The positions `0..n` in the order of the table.
pub open spec fn table_order(n: nat) -> Seq<int> {
    Seq::new(n, |i: int| i)
}

/// The positions `0..n` of a table whose rows were created at `times`, in
/// the order of listing.
pub open spec fn arrangement(times: Seq<i64>, newest_first: bool) -> Seq<int> {
    table_order(times.len()).sort_by(|a: int, b: int| a == b || ahead(times, a, b, newest_first))
}

/// The positions held in a vector of indices.
pub open spec fn positions(indices: Seq<usize>) -> Seq<int> {
    indices.map_values(|k: usize| k as int)
}

/// The listing order exists: `arrangement` lists every position once, in order.
pub proof fn lemma_arrangement_is_arrangement(times: Seq<i64>, newest_first: bool)
    ensures
        is_arrangement(times, arrangement(times, newest_first), newest_first),
{
    broadcast use vstd::seq_lib::group_to_multiset_ensures;

    let n = times.len() as int;
    let all = table_order(times.len());
    let leq = |a: int, b: int| a == b || ahead(times, a, b, newest_first);
    assert(total_ordering(leq));
    all.lemma_sort_by_ensures(leq);
    let sorted = all.sort_by(leq);
    assert(sorted.len() == n) by {
        assert(sorted.to_multiset().len() == all.to_multiset().len());
    }
    assert forall|i: int| 0 <= i < sorted.len() implies 0 <= #[trigger] sorted[i] < n by {
        let x = sorted[i];
        assert(sorted.contains(x));
        assert(all.contains(x));
    }
    assert(all.no_duplicates());
    all.lemma_multiset_has_no_duplicates();
    sorted.lemma_multiset_has_no_duplicates_conv();
    assert forall|i: int, j: int| 0 <= i < j < sorted.len() implies ahead(
        times,
        #[trigger] sorted[i],
        #[trigger] sorted[j],
        newest_first,
    ) by {
        assert(leq(sorted[i], sorted[j]));
    }
    assert forall|k: int| 0 <= k < n implies #[trigger] sorted.contains(k) by {
        assert(all[k] == k);
        assert(all.contains(k));
        assert(all.to_multiset().count(k) > 0);
        assert(sorted.to_multiset().count(k) > 0);
    }
}

/// The listing order is unique: whatever lists every position once, in order,
/// is the arrangement.
pub proof fn lemma_arrangement_unique(times: Seq<i64>, order: Seq<int>, newest_first: bool)
    requires
        is_arrangement(times, order, newest_first),
    ensures
        order == arrangement(times, newest_first),
{
    let other = arrangement(times, newest_first);
    lemma_arrangement_is_arrangement(times, newest_first);
    assert forall|i: int| 0 <= i < order.len() implies order[i] == other[i] by {
        lemma_same_at(times, order, other, newest_first, i);
    }
    assert(order =~= other);
}

proof fn lemma_same_at(times: Seq<i64>, p: Seq<int>, q: Seq<int>, newest_first: bool, i: int)
    requires
        is_arrangement(times, p, newest_first),
        is_arrangement(times, q, newest_first),
        0 <= i < times.len(),
    ensures
        p[i] == q[i],
    decreases i,
{
    assert forall|k: int| 0 <= k < i implies p[k] == q[k] by {
        lemma_same_at(times, p, q, newest_first, k);
    }
    assert(q.contains(p[i]));
    let j = choose|j: int| 0 <= j < q.len() && q[j] == p[i];
    assert(p.contains(q[i]));
    let m = choose|m: int| 0 <= m < p.len() && p[m] == q[i];
    if j < i {
        assert(ahead(times, p[j], p[i], newest_first));
    } else if m < i {
        assert(ahead(times, q[m], q[i], newest_first));
    } else if j > i && m > i {
        assert(ahead(times, q[i], q[j], newest_first));
        assert(ahead(times, p[i], p[m], newest_first));
    }
}

/// The listing order holds the same positions as the table order.
pub proof fn lemma_arrangement_permutes(times: Seq<i64>, newest_first: bool)
    ensures
        arrangement(times, newest_first).to_multiset() == table_order(times.len()).to_multiset(),
{
    let all = table_order(times.len());
    let leq = |a: int, b: int| a == b || ahead(times, a, b, newest_first);
    assert(total_ordering(leq));
    all.lemma_sort_by_ensures(leq);
}

/// Two sequences that hold the same items, in whatever order, hold equally
/// many items of any kind.
pub proof fn lemma_filter_len_rearranged<A>(a: Seq<A>, b: Seq<A>, pred: spec_fn(A) -> bool)
    requires
        a.to_multiset() == b.to_multiset(),
    ensures
        a.filter(pred).len() == b.filter(pred).len(),
    decreases a.len(),
{
    broadcast use vstd::seq_lib::group_to_multiset_ensures;

    if a.len() == 0 {
        assert(b.len() == b.to_multiset().len());
        assert(a =~= b);
    } else {
        let x = a.last();
        let shorter = a.drop_last();
        assert(a[a.len() - 1] == x);
        assert(a.contains(x));
        assert(b.to_multiset().count(x) > 0);
        assert(b.contains(x));
        let j = choose|j: int| 0 <= j < b.len() && b[j] == x;
        let without = b.remove(j);
        assert(a.remove(a.len() - 1) =~= shorter);
        assert(shorter.to_multiset() =~= without.to_multiset());
        lemma_filter_len_rearranged(shorter, without, pred);
        assert(a =~= shorter.push(x));
        shorter.lemma_filter_len_push(pred, x);
        let left = b.take(j);
        let right = b.skip(j + 1);
        assert(b =~= left.push(x) + right);
        assert(without =~= left + right);
        Seq::filter_distributes_over_add(left.push(x), right, pred);
        Seq::filter_distributes_over_add(left, right, pred);
        left.lemma_filter_len_push(pred, x);
    }
}

/// Leaving rows out of a listing keeps the others in their order: what is
/// kept meets the condition, was in the listing, and is ordered as before.
pub proof fn lemma_filter_keeps_order(
    times: Seq<i64>,
    order: Seq<int>,
    newest_first: bool,
    pred: spec_fn(int) -> bool,
)
    requires
        forall|i: int, j: int|
            0 <= i < j < order.len() ==> ahead(times, #[trigger] order[i], #[trigger] order[j], newest_first),
    ensures
        forall|i: int|
            0 <= i < order.filter(pred).len() ==> pred(#[trigger] order.filter(pred)[i])
                && order.contains(order.filter(pred)[i]),
        forall|i: int, j: int|
            0 <= i < j < order.filter(pred).len() ==> ahead(
                times,
                #[trigger] order.filter(pred)[i],
                #[trigger] order.filter(pred)[j],
                newest_first,
            ),
    decreases order.len(),
{
    let kept = order.filter(pred);
    if order.len() == 0 {
        order.lemma_filter_len(pred);
    } else {
        let last = order.last();
        let shorter = order.drop_last();
        assert(order =~= shorter.push(last));
        shorter.lemma_filter_push(last, pred);
        lemma_filter_keeps_order(times, shorter, newest_first, pred);
        let kept_before = shorter.filter(pred);
        assert forall|i: int| 0 <= i < kept.len() implies pred(#[trigger] kept[i]) && order.contains(
            kept[i],
        ) by {
            if i < kept_before.len() {
                assert(kept[i] == kept_before[i]);
                assert(shorter.contains(kept_before[i]));
                let at = choose|at: int| 0 <= at < shorter.len() && shorter[at] == kept_before[i];
                assert(order[at] == kept[i]);
            } else {
                assert(order[order.len() - 1] == kept[i]);
            }
        }
        assert forall|i: int, j: int| 0 <= i < j < kept.len() implies ahead(
            times,
            #[trigger] kept[i],
            #[trigger] kept[j],
            newest_first,
        ) by {
            assert(kept[i] == kept_before[i]);
            if j < kept_before.len() {
                assert(kept[j] == kept_before[j]);
            } else {
                assert(shorter.contains(kept_before[i]));
                let at = choose|at: int| 0 <= at < shorter.len() && shorter[at] == kept_before[i];
                assert(ahead(times, order[at], order[order.len() - 1], newest_first));
            }
        }
    }
}

/// Whether the row at `k` goes before the row at the smaller position `x`.
fn goes_before(times: &Vec<i64>, k: usize, x: usize, newest_first: bool) -> (yes: bool)
    requires
        x < k < times.len(),
    ensures
        yes == ahead(times@, k as int, x as int, newest_first),
{
    if newest_first {
        times[k] > times[x]
    } else {
        times[k] < times[x]
    }
}

/// Where the row at `k` goes among the rows before it.
fn find_slot(times: &Vec<i64>, order: &Vec<usize>, k: usize, newest_first: bool) -> (slot: usize)
    requires
        k < times.len(),
        arranges(times@, positions(order@), k as int, newest_first),
    ensures
        slot <= order.len(),
        forall|i: int| 0 <= i < slot ==> ahead(times@, #[trigger] order[i] as int, k as int, newest_first),
        forall|i: int|
            slot <= i < order.len() ==> ahead(times@, k as int, #[trigger] order[i] as int, newest_first),
{
    let mut slot: usize = 0;
    let mut found = false;
    while slot < order.len() && !found
        invariant
            k < times.len(),
            slot <= order.len(),
            arranges(times@, positions(order@), k as int, newest_first),
            forall|i: int|
                0 <= i < slot ==> ahead(times@, #[trigger] order[i] as int, k as int, newest_first),
            found ==> slot < order.len() && ahead(
                times@,
                k as int,
                order[slot as int] as int,
                newest_first,
            ),
        decreases order.len() - slot + (if found { 0int } else { 1int }),
    {
        proof {
            assert(positions(order@)[slot as int] == order[slot as int] as int);
        }
        if goes_before(times, k, order[slot], newest_first) {
            found = true;
        } else {
            slot += 1;
        }
    }
    proof {
        let ord = positions(order@);
        assert forall|i: int| slot <= i < order.len() implies ahead(
            times@,
            k as int,
            #[trigger] order[i] as int,
            newest_first,
        ) by {
            assert(ord[slot as int] == order[slot as int] as int);
            assert(ord[i] == order[i] as int);
            if i > slot {
                assert(ahead(times@, ord[slot as int], ord[i], newest_first));
            }
        }
    }
    slot
}

/// Computes the listing order of a table from the creation times of its rows.
pub fn arrange(times: &Vec<i64>, newest_first: bool) -> (order: Vec<usize>)
    ensures
        positions(order@) == arrangement(times@, newest_first),
{
    let mut order: Vec<usize> = Vec::new();
    let mut k: usize = 0;
    while k < times.len()
        invariant
            k <= times.len(),
            arranges(times@, positions(order@), k as int, newest_first),
        decreases times.len() - k,
    {
        let slot = find_slot(times, &order, k, newest_first);
        let ghost before = order@;
        order.insert(slot, k);
        proof {
            let old_ord = positions(before);
            let new_ord = positions(order@);
            assert forall|i: int| 0 <= i < new_ord.len() implies new_ord[i] == (if i < slot {
                old_ord[i]
            } else if i == slot {
                k as int
            } else {
                old_ord[i - 1]
            }) by {}
            assert forall|x: int| 0 <= x < k + 1 implies #[trigger] new_ord.contains(x) by {
                if x == k {
                    assert(new_ord[slot as int] == x);
                } else {
                    assert(old_ord.contains(x));
                    let i = choose|i: int| 0 <= i < old_ord.len() && old_ord[i] == x;
                    if i < slot {
                        assert(new_ord[i] == x);
                    } else {
                        assert(new_ord[i + 1] == x);
                    }
                }
            }
            assert forall|i: int, j: int| 0 <= i < j < new_ord.len() implies ahead(
                times@,
                #[trigger] new_ord[i],
                #[trigger] new_ord[j],
                newest_first,
            ) by {
                if j < slot {
                    assert(ahead(times@, old_ord[i], old_ord[j], newest_first));
                } else if j == slot {
                    assert(old_ord[i] == before[i] as int);
                } else if i < slot {
                    assert(ahead(times@, old_ord[i], old_ord[j - 1], newest_first));
                } else if i == slot {
                    assert(old_ord[j - 1] == before[j - 1] as int);
                } else {
                    assert(ahead(times@, old_ord[i - 1], old_ord[j - 1], newest_first));
                }
            }
        }
        k += 1;
    }
    proof {
        lemma_arrangement_unique(times@, positions(order@), newest_first);
    }
    order
}

} // verus!
