//! Stable sorting.

use vstd::prelude::*;
use crate::text;

verus! {

/// A type whose values are ordered by rank; values of equal rank keep the
/// order in which they came.
pub trait Ranked: View + Sized {
    /// Whether `a` ranks strictly before `b`.
    spec fn ranks_before(a: Self::V, b: Self::V) -> bool;

    /// Whether `self` ranks strictly before `other`.
    fn is_before(&self, other: &Self) -> (r: bool)
        ensures
            r == Self::ranks_before(self@, other@),
    ;

    /// The ranks form a strict weak order: what ranks before has a rank of its
    /// own, and not ranking before is passed on from one value to the next.
    proof fn lemma_strict_weak_order(a: Self::V, b: Self::V, c: Self::V)
        ensures
            !Self::ranks_before(a, a),
            Self::ranks_before(a, b) ==> !Self::ranks_before(b, a),
            !Self::ranks_before(a, b) && !Self::ranks_before(b, c) ==> !Self::ranks_before(a, c),
    ;
}

/// The contents of a sequence of values.
pub open spec fn views<T: View>(items: Seq<T>) -> Seq<T::V> {
    items.map_values(|item: T| item@)
}

/// Changing a sequence changes its contents in the same way.
pub proof fn lemma_views<T: View>(items: Seq<T>, at: int, item: T)
    ensures
        views(items.push(item)) == views(items).push(item@),
        0 <= at < items.len() ==> views(items.update(at, item)) == views(items).update(at, item@),
        0 <= at <= items.len() ==> views(items.insert(at, item)) == views(items).insert(at, item@),
        0 <= at < items.len() ==> views(items.remove(at)) == views(items).remove(at),
{
    assert(views(items.push(item)) =~= views(items).push(item@));
    if 0 <= at < items.len() {
        assert(views(items.update(at, item)) =~= views(items).update(at, item@));
        assert(views(items.remove(at)) =~= views(items).remove(at));
    }
    if 0 <= at <= items.len() {
        assert(views(items.insert(at, item)) =~= views(items).insert(at, item@));
    }
}

/// The position at which `item` goes into `sorted`: before the first value
/// that ranks strictly behind it.
pub open spec fn slot<T: Ranked>(sorted: Seq<T::V>, item: T::V) -> int
    decreases sorted.len(),
{
    if sorted.len() == 0 {
        0
    } else if T::ranks_before(item, sorted[0]) {
        0
    } else {
        1 + slot::<T>(sorted.skip(1), item)
    }
}

/// `sorted` with `item` put at its place.
pub open spec fn placed<T: Ranked>(sorted: Seq<T::V>, item: T::V) -> Seq<T::V> {
    sorted.insert(slot::<T>(sorted, item), item)
}

/// `items` by rank, those of equal rank in the order in which they came.
pub open spec fn stable_sorted<T: Ranked>(items: Seq<T::V>) -> Seq<T::V>
    decreases items.len(),
{
    if items.len() == 0 {
        Seq::empty()
    } else {
        placed::<T>(stable_sorted::<T>(items.drop_last()), items.last())
    }
}

/// Whether no value ranks strictly before an earlier one.
pub open spec fn is_ranked<T: Ranked>(items: Seq<T::V>) -> bool {
    forall|i: int, j: int|
        0 <= i < j < items.len() ==> !T::ranks_before(#[trigger] items[j], #[trigger] items[i])
}

proof fn lemma_slot<T: Ranked>(sorted: Seq<T::V>, item: T::V)
    ensures
        0 <= slot::<T>(sorted, item) <= sorted.len(),
        forall|i: int|
            0 <= i < slot::<T>(sorted, item) ==> !T::ranks_before(item, #[trigger] sorted[i]),
        slot::<T>(sorted, item) < sorted.len() ==> T::ranks_before(
            item,
            sorted[slot::<T>(sorted, item)],
        ),
    decreases sorted.len(),
{
    if sorted.len() > 0 && !T::ranks_before(item, sorted[0]) {
        let rest = sorted.skip(1);
        lemma_slot::<T>(rest, item);
        assert forall|i: int| 0 <= i < slot::<T>(sorted, item) implies !T::ranks_before(
            item,
            #[trigger] sorted[i],
        ) by {
            if i > 0 {
                assert(rest[i - 1] == sorted[i]);
            }
        }
        if slot::<T>(sorted, item) < sorted.len() {
            assert(rest[slot::<T>(rest, item)] == sorted[slot::<T>(sorted, item)]);
        }
    }
}

proof fn lemma_placed<T: Ranked>(sorted: Seq<T::V>, item: T::V)
    requires
        is_ranked::<T>(sorted),
    ensures
        is_ranked::<T>(placed::<T>(sorted, item)),
{
    let at = slot::<T>(sorted, item);
    let after = placed::<T>(sorted, item);
    lemma_slot::<T>(sorted, item);
    assert forall|i: int, j: int| 0 <= i < j < after.len() implies !T::ranks_before(
        #[trigger] after[j],
        #[trigger] after[i],
    ) by {
        if j < at {
            assert(!T::ranks_before(sorted[j], sorted[i]));
        } else if j == at {
            assert(after[i] == sorted[i]);
        } else if i < at {
            assert(after[j] == sorted[j - 1]);
            assert(after[i] == sorted[i]);
            assert(!T::ranks_before(sorted[j - 1], sorted[i]));
        } else if i == at {
            assert(after[j] == sorted[j - 1]);
            T::lemma_strict_weak_order(item, sorted[at], item);
            if j - 1 > at {
                assert(!T::ranks_before(sorted[j - 1], sorted[at]));
            }
            T::lemma_strict_weak_order(sorted[j - 1], sorted[at], item);
            T::lemma_strict_weak_order(sorted[at], sorted[at], item);
        } else {
            assert(after[j] == sorted[j - 1]);
            assert(after[i] == sorted[i - 1]);
        }
    }
}

/// A sorted sequence holds what it was made of, as often, and nothing in it
/// ranks before what comes earlier.
pub proof fn lemma_stable_sorted<T: Ranked>(items: Seq<T::V>)
    ensures
        is_ranked::<T>(stable_sorted::<T>(items)),
        stable_sorted::<T>(items).to_multiset() == items.to_multiset(),
        stable_sorted::<T>(items).len() == items.len(),
    decreases items.len(),
{
    broadcast use vstd::seq_lib::group_to_multiset_ensures;

    if items.len() > 0 {
        let before = items.drop_last();
        let sorted = stable_sorted::<T>(before);
        lemma_stable_sorted::<T>(before);
        lemma_placed::<T>(sorted, items.last());
        lemma_slot::<T>(sorted, items.last());
        assert(items =~= before.push(items.last()));
        vstd::seq_lib::to_multiset_insert(sorted, slot::<T>(sorted, items.last()), items.last());
    } else {
        assert(items =~= Seq::empty());
    }
}

proof fn lemma_slot_at_end<T: Ranked>(sorted: Seq<T::V>, item: T::V)
    requires
        forall|i: int| 0 <= i < sorted.len() ==> !T::ranks_before(item, #[trigger] sorted[i]),
    ensures
        slot::<T>(sorted, item) == sorted.len(),
{
    lemma_slot::<T>(sorted, item);
}

/// What is in order already is left as it is, so values of equal rank keep the
/// order in which they came.
pub proof fn lemma_sorting_is_stable<T: Ranked>(items: Seq<T::V>)
    requires
        is_ranked::<T>(items),
    ensures
        stable_sorted::<T>(items) == items,
    decreases items.len(),
{
    if items.len() > 0 {
        let before = items.drop_last();
        let item = items.last();
        assert(is_ranked::<T>(before)) by {
            assert forall|i: int, j: int| 0 <= i < j < before.len() implies !T::ranks_before(
                #[trigger] before[j],
                #[trigger] before[i],
            ) by {
                assert(before[i] == items[i] && before[j] == items[j]);
            }
        }
        lemma_sorting_is_stable::<T>(before);
        assert forall|i: int| 0 <= i < before.len() implies !T::ranks_before(
            item,
            #[trigger] before[i],
        ) by {
            assert(before[i] == items[i] && item == items[items.len() - 1]);
        }
        lemma_slot_at_end::<T>(before, item);
        assert(before.insert(before.len() as int, item) =~= items);
    } else {
        assert(stable_sorted::<T>(items) =~= items);
    }
}

/// A value that comes last goes behind every value of its rank.
pub proof fn lemma_later_goes_behind<T: Ranked>(items: Seq<T::V>, item: T::V)
    ensures
        ({
            let sorted = stable_sorted::<T>(items);
            let after = stable_sorted::<T>(items.push(item));
            exists|at: int|
                0 <= at <= sorted.len() && after == #[trigger] sorted.insert(at, item) && (forall|
                    i: int,
                |
                    0 <= i < at ==> !T::ranks_before(item, #[trigger] sorted[i])) && (forall|i: int|
                    at <= i < sorted.len() ==> T::ranks_before(item, #[trigger] sorted[i]))
        }),
{
    let sorted = stable_sorted::<T>(items);
    let at = slot::<T>(sorted, item);
    assert(items.push(item).drop_last() =~= items);
    lemma_slot::<T>(sorted, item);
    lemma_stable_sorted::<T>(items);
    assert forall|i: int| at <= i < sorted.len() implies T::ranks_before(
        item,
        #[trigger] sorted[i],
    ) by {
        if i > at {
            assert(!T::ranks_before(sorted[i], sorted[at]));
            T::lemma_strict_weak_order(item, sorted[i], sorted[at]);
        }
    }
    assert(stable_sorted::<T>(items.push(item)) == sorted.insert(at, item));
}

/// What a sorted sequence holds, and that it holds nothing twice where it was
/// made of different values.
pub proof fn lemma_sorted_members<T: Ranked>(items: Seq<T::V>)
    ensures
        forall|item: T::V| #[trigger]
            stable_sorted::<T>(items).contains(item) <==> items.contains(item),
        items.no_duplicates() ==> stable_sorted::<T>(items).no_duplicates(),
{
    broadcast use vstd::seq_lib::group_to_multiset_ensures;

    let sorted = stable_sorted::<T>(items);
    lemma_stable_sorted::<T>(items);
    assert forall|item: T::V| #[trigger] sorted.contains(item) <==> items.contains(item) by {
        assert(sorted.to_multiset().count(item) == items.to_multiset().count(item));
    }
    if items.no_duplicates() {
        items.lemma_multiset_has_no_duplicates();
        sorted.lemma_multiset_has_no_duplicates_conv();
    }
}

/// Sorts by rank; values of equal rank keep their order.
pub fn stable_sort<T: Ranked>(items: Vec<T>) -> (sorted: Vec<T>)
    ensures
        views(sorted@) == stable_sorted::<T>(views(items@)),
{
    let mut out: Vec<T> = Vec::new();
    let mut rest = items;
    let ghost all = views(items@);
    // Turn the items around, so that popping hands them out as they came.
    let mut queue: Vec<T> = Vec::new();
    while rest.len() > 0
        invariant
            views(rest@) + views(queue@).reverse() == all,
        decreases rest@.len(),
    {
        let ghost before = rest@;
        let ghost queued = queue@;
        match rest.pop() {
            Some(item) => {
                queue.push(item);
                proof {
                    assert(views(before) =~= views(rest@).push(item@));
                    assert(views(queue@).reverse() =~= seq![item@] + views(queued).reverse());
                    assert(views(rest@) + views(queue@).reverse() =~= views(before) + views(
                        queued,
                    ).reverse());
                }
            },
            None => {},
        }
    }
    proof {
        assert(views(queue@).reverse() =~= all);
        assert(all.take(0) =~= Seq::empty());
        assert(views(out@) =~= Seq::empty());
    }
    let ghost total = all.len();
    while queue.len() > 0
        invariant
            queue@.len() <= total == all.len(),
            views(queue@).reverse() == all.skip(total - queue@.len()),
            views(out@) == stable_sorted::<T>(all.take(total - queue@.len())),
        decreases queue@.len(),
    {
        let ghost queued = queue@;
        let ghost done = total - queued.len();
        match queue.pop() {
            Some(item) => {
                let ghost sorted = views(out@);
                proof {
                    assert(views(queued).reverse()[0] == item@);
                    assert(all.skip(done)[0] == all[done]);
                    assert(all.take(done + 1).drop_last() =~= all.take(done));
                    assert(views(queue@).reverse() =~= views(queued).reverse().skip(1));
                    assert(all.skip(done).skip(1) =~= all.skip(done + 1));
                    assert(sorted.skip(0) =~= sorted);
                }
                let mut at: usize = 0;
                while at < out.len() && !item.is_before(&out[at])
                    invariant
                        at <= out@.len(),
                        sorted == views(out@),
                        slot::<T>(sorted, item@) == at + slot::<T>(sorted.skip(at as int), item@),
                    decreases out@.len() - at,
                {
                    proof {
                        assert(sorted.skip(at as int)[0] == out@[at as int]@);
                        assert(sorted.skip(at as int).skip(1) =~= sorted.skip(at + 1));
                    }
                    at = at + 1;
                }
                proof {
                    if at < out@.len() {
                        assert(sorted.skip(at as int)[0] == out@[at as int]@);
                    }
                }
                let ghost placed_items = out@.insert(at as int, item);
                out.insert(at, item);
                proof {
                    assert(views(placed_items) =~= sorted.insert(at as int, item@));
                }
            },
            None => {},
        }
    }
    proof {
        assert(all.take(total as int) =~= all);
    }
    out
}

// ---------------------------------------------------------------------------
// Orders in use
// ---------------------------------------------------------------------------

/// The order of texts is a strict total order.
pub proof fn lemma_text_order(a: Seq<char>, b: Seq<char>, c: Seq<char>)
    ensures
        !text::text_before(a, a),
        text::text_before(a, b) ==> !text::text_before(b, a),
        !text::text_before(a, b) && !text::text_before(b, a) ==> a == b,
        text::text_before(a, b) && text::text_before(b, c) ==> text::text_before(a, c),
        !text::text_before(a, b) && !text::text_before(b, c) ==> !text::text_before(a, c),
    decreases a.len() + b.len() + c.len(),
{
    if a.len() > 0 {
        lemma_text_order(a.skip(1), if b.len() > 0 { b.skip(1) } else { b }, if c.len() > 0 {
            c.skip(1)
        } else {
            c
        });
    } else if b.len() > 0 {
        lemma_text_order(a, b.skip(1), if c.len() > 0 { c.skip(1) } else { c });
    } else if c.len() > 0 {
        lemma_text_order(a, b, c.skip(1));
    }
    if !text::text_before(a, b) && !text::text_before(b, a) {
        if a.len() == 0 || b.len() == 0 {
            assert(a =~= b);
        } else {
            assert(a =~= seq![a[0]] + a.skip(1));
            assert(b =~= seq![b[0]] + b.skip(1));
        }
    }
}

/// Whether a pair of numbers comes strictly before another.
pub open spec fn pair_before(a: (usize, usize), b: (usize, usize)) -> bool {
    a.0 < b.0 || (a.0 == b.0 && a.1 < b.1)
}

impl Ranked for (usize, usize) {
    open spec fn ranks_before(a: (usize, usize), b: (usize, usize)) -> bool {
        pair_before(a, b)
    }

    fn is_before(&self, other: &Self) -> (r: bool) {
        self.0 < other.0 || (self.0 == other.0 && self.1 < other.1)
    }

    proof fn lemma_strict_weak_order(a: (usize, usize), b: (usize, usize), c: (usize, usize)) {
    }
}

} // verus!
