//! Stable sorting of a list, and removal of neighbours with the same name.

use crate::text::lowercase;
use crate::text::to_lower;
use vstd::prelude::*;

verus! {

/// Items that a list can be sorted by.
pub trait Ordered: DeepView {
    /// Whether an item with view `a` may stand before one with view `b`.
    spec fn may_precede(a: Self::V, b: Self::V) -> bool;

    /// Of two items, one may stand before the other.
    proof fn order_is_total(a: Self::V, b: Self::V)
        ensures
            Self::may_precede(a, b) || Self::may_precede(b, a),
    ;

    /// What may stand before an item may stand before all that the item may
    /// stand before.
    proof fn order_is_transitive(a: Self::V, b: Self::V, c: Self::V)
        requires
            Self::may_precede(a, b),
            Self::may_precede(b, c),
        ensures
            Self::may_precede(a, c),
    ;

    fn precedes(&self, other: &Self) -> (r: bool)
        ensures
            r == Self::may_precede(self.deep_view(), other.deep_view()),
    ;
}

/// Items that carry a name.
pub trait Named: DeepView {
    spec fn name_of(v: Self::V) -> Seq<char>;

    fn name(&self) -> (r: &String)
        ensures
            r@ == Self::name_of(self.deep_view()),
    ;
}

/// `s` with `x` put behind the last item that may stand before it.
pub open spec fn inserted<T: Ordered>(s: Seq<T::V>, x: T::V) -> Seq<T::V>
    decreases s.len(),
{
    if s.len() == 0 || T::may_precede(s.last(), x) {
        s.push(x)
    } else {
        inserted::<T>(s.drop_last(), x).push(s.last())
    }
}

/// The items of `s` in order; items that may stand either way keep the order
/// they had in `s`.
pub open spec fn sorted<T: Ordered>(s: Seq<T::V>) -> Seq<T::V>
    decreases s.len(),
{
    if s.len() == 0 {
        s
    } else {
        inserted::<T>(sorted::<T>(s.drop_last()), s.last())
    }
}

/// Whether every item may stand before its right neighbour.
pub open spec fn in_order<T: Ordered>(s: Seq<T::V>) -> bool {
    forall|i: int| #![trigger s[i]] 0 <= i < s.len() - 1 ==> T::may_precede(s[i], s[i + 1])
}

/// Where `inserted` puts the new item: at `j`, when nothing from `j` on may
/// stand before it and the item before `j`, if there is one, may.
pub proof fn lemma_inserted_at<T: Ordered>(s: Seq<T::V>, x: T::V, j: int)
    requires
        0 <= j <= s.len(),
        forall|k: int| j <= k < s.len() ==> !T::may_precede(#[trigger] s[k], x),
        j == 0 || T::may_precede(s[j - 1], x),
    ensures
        inserted::<T>(s, x) == s.insert(j, x),
    decreases s.len() - j,
{
    if j == s.len() {
        assert(s.insert(j, x) =~= s.push(x));
    } else {
        let t = s.drop_last();
        assert(!T::may_precede(s[s.len() - 1], x));
        lemma_inserted_at::<T>(t, x, j);
        assert(t.insert(j, x).push(s.last()) =~= s.insert(j, x));
    }
}

/// Inserting makes a list one longer; its last item is then the new item or
/// the last item of before.
pub proof fn lemma_inserted_len<T: Ordered>(s: Seq<T::V>, x: T::V)
    ensures
        inserted::<T>(s, x).len() == s.len() + 1,
        inserted::<T>(s, x).last() == x || (s.len() > 0 && inserted::<T>(s, x).last()
            == s.last()),
    decreases s.len(),
{
    if !(s.len() == 0 || T::may_precede(s.last(), x)) {
        lemma_inserted_len::<T>(s.drop_last(), x);
    }
}

/// Insertion keeps a list in order.
pub proof fn lemma_inserted_in_order<T: Ordered>(s: Seq<T::V>, x: T::V)
    requires
        in_order::<T>(s),
    ensures
        in_order::<T>(inserted::<T>(s, x)),
    decreases s.len(),
{
    let r = inserted::<T>(s, x);
    if s.len() == 0 || T::may_precede(s.last(), x) {
        assert forall|i: int| #![trigger r[i]] 0 <= i < r.len() - 1 implies T::may_precede(
            r[i],
            r[i + 1],
        ) by {
            if i < s.len() - 1 {
                assert(T::may_precede(s[i], s[i + 1]));
            }
        }
    } else {
        let t = s.drop_last();
        assert forall|i: int| #![trigger t[i]] 0 <= i < t.len() - 1 implies T::may_precede(
            t[i],
            t[i + 1],
        ) by {
            assert(T::may_precede(s[i], s[i + 1]));
        }
        lemma_inserted_in_order::<T>(t, x);
        lemma_inserted_len::<T>(t, x);
        let u = inserted::<T>(t, x);
        T::order_is_total(s.last(), x);
        assert forall|i: int| #![trigger r[i]] 0 <= i < r.len() - 1 implies T::may_precede(
            r[i],
            r[i + 1],
        ) by {
            if i < u.len() - 1 {
                assert(T::may_precede(u[i], u[i + 1]));
            } else {
                assert(r[i] == u.last());
                assert(r[i + 1] == s.last());
                if u.last() != x {
                    assert(u.last() == t.last());
                    assert(T::may_precede(s[s.len() - 2], s[s.len() - 2 + 1]));
                }
            }
        }
    }
}

/// A sorted list is in order and as long as the list it came from.
pub proof fn lemma_sorted_in_order<T: Ordered>(s: Seq<T::V>)
    ensures
        in_order::<T>(sorted::<T>(s)),
        sorted::<T>(s).len() == s.len(),
    decreases s.len(),
{
    if s.len() > 0 {
        lemma_sorted_in_order::<T>(s.drop_last());
        lemma_inserted_in_order::<T>(sorted::<T>(s.drop_last()), s.last());
        lemma_inserted_len::<T>(sorted::<T>(s.drop_last()), s.last());
    }
}

/// Sorting leaves a list that is in order as it is.
pub proof fn lemma_sorted_fixpoint<T: Ordered>(s: Seq<T::V>)
    requires
        in_order::<T>(s),
    ensures
        sorted::<T>(s) == s,
    decreases s.len(),
{
    if s.len() > 0 {
        let t = s.drop_last();
        assert forall|i: int| #![trigger t[i]] 0 <= i < t.len() - 1 implies T::may_precede(
            t[i],
            t[i + 1],
        ) by {
            assert(T::may_precede(s[i], s[i + 1]));
        }
        lemma_sorted_fixpoint::<T>(t);
        if t.len() > 0 {
            assert(T::may_precede(s[s.len() - 2], s[s.len() - 2 + 1]));
            assert(t.last() == s[s.len() - 2]);
        }
        assert(t.push(s.last()) =~= s);
    }
}

/// Inserting adds the new item and nothing else.
pub proof fn lemma_inserted_permutes<T: Ordered>(s: Seq<T::V>, x: T::V)
    ensures
        inserted::<T>(s, x).to_multiset() == s.to_multiset().insert(x),
    decreases s.len(),
{
    broadcast use vstd::seq_lib::group_to_multiset_ensures;

    if s.len() == 0 || T::may_precede(s.last(), x) {
    } else {
        let t = s.drop_last();
        lemma_inserted_permutes::<T>(t, x);
        assert(t.push(s.last()) =~= s);
        assert(inserted::<T>(s, x).to_multiset() =~= s.to_multiset().insert(x));
    }
}

/// A sorted list holds the items of the list it came from, each as often.
pub proof fn lemma_sorted_permutes<T: Ordered>(s: Seq<T::V>)
    ensures
        sorted::<T>(s).to_multiset() == s.to_multiset(),
    decreases s.len(),
{
    broadcast use vstd::seq_lib::group_to_multiset_ensures;

    if s.len() > 0 {
        let t = s.drop_last();
        lemma_sorted_permutes::<T>(t);
        lemma_inserted_permutes::<T>(sorted::<T>(t), s.last());
        assert(t.push(s.last()) =~= s);
    }
}

/// The views of a list after the item at `i` was taken out.
pub proof fn lemma_deep_view_remove<T: DeepView>(before: Vec<T>, after: Vec<T>, i: int)
    requires
        0 <= i < before@.len(),
        after@ == before@.remove(i),
    ensures
        after.deep_view() == before.deep_view().remove(i),
{
    assert(after.deep_view() =~= before.deep_view().remove(i));
}

/// The views of a list after `item` was put in at `i`.
pub proof fn lemma_deep_view_insert<T: DeepView>(before: Vec<T>, after: Vec<T>, i: int, item: T)
    requires
        0 <= i <= before@.len(),
        after@ == before@.insert(i, item),
    ensures
        after.deep_view() == before.deep_view().insert(i, item.deep_view()),
{
    assert(after.deep_view() =~= before.deep_view().insert(i, item.deep_view()));
}

proof fn lemma_remove_at_seam<A>(head: Seq<A>, tail: Seq<A>)
    requires
        tail.len() > 0,
    ensures
        (head + tail).remove(head.len() as int) == head + tail.drop_first(),
        (head + tail)[head.len() as int] == tail[0],
{
    assert((head + tail).remove(head.len() as int) =~= head + tail.drop_first());
}

proof fn lemma_insert_in_head<A>(head: Seq<A>, tail: Seq<A>, j: int, x: A)
    requires
        0 <= j <= head.len(),
    ensures
        (head + tail).insert(j, x) == head.insert(j, x) + tail,
{
    assert((head + tail).insert(j, x) =~= head.insert(j, x) + tail);
}

/// Sorting one item more is inserting it into the sorted items before it.
proof fn lemma_sorted_next<T: Ordered>(all: Seq<T::V>, i: int)
    requires
        0 <= i < all.len(),
    ensures
        sorted::<T>(all.take(i + 1)) == inserted::<T>(sorted::<T>(all.take(i)), all[i]),
        all.skip(i).drop_first() == all.skip(i + 1),
        all.skip(i)[0] == all[i],
{
    assert(all.take(i + 1).drop_last() =~= all.take(i));
    assert(all.take(i + 1).last() == all[i]);
    assert(all.skip(i).drop_first() =~= all.skip(i + 1));
}

/// Sorts `items` in place. The sort is stable.
pub fn sort<T: Ordered>(items: &mut Vec<T>)
    ensures
        final(items).deep_view() == sorted::<T>(old(items).deep_view()),
{
    let ghost all = items.deep_view();
    let n = items.len();
    let mut i: usize = 0;
    proof {
        assert(all.take(0) =~= Seq::empty());
        assert(items.deep_view() =~= sorted::<T>(all.take(0)) + all.skip(0));
    }
    while i < n
        invariant
            i <= n,
            n == all.len(),
            items@.len() == n,
            items.deep_view() == sorted::<T>(all.take(i as int)) + all.skip(i as int),
        decreases n - i,
    {
        let ghost head = sorted::<T>(all.take(i as int));
        let ghost tail = all.skip(i + 1);
        let ghost before = *items;
        let x = items.remove(i);
        let ghost xv = x.deep_view();
        proof {
            lemma_sorted_in_order::<T>(all.take(i as int));
            lemma_sorted_next::<T>(all, i as int);
            lemma_remove_at_seam(head, all.skip(i as int));
            lemma_deep_view_remove(before, *items, i as int);
            assert(before.deep_view()[i as int] == before@[i as int].deep_view());
        }
        assert(xv == all[i as int]);
        assert(items.deep_view() == head + tail);
        let j = insertion_point(items, &x, i, Ghost(head), Ghost(tail));
        let ghost mid = *items;
        items.insert(j, x);
        proof {
            lemma_inserted_at::<T>(head, xv, j as int);
            lemma_deep_view_insert(mid, *items, j as int, x);
            lemma_insert_in_head(head, tail, j as int, xv);
        }
        i += 1;
    }
    proof {
        assert(all.take(n as int) =~= all);
        assert(sorted::<T>(all) + all.skip(n as int) =~= sorted::<T>(all));
    }
}

/// Where among the first `len` items, which are in order, `x` goes: behind
/// the last of them that may stand before it.
fn insertion_point<T: Ordered>(
    items: &Vec<T>,
    x: &T,
    len: usize,
    Ghost(head): Ghost<Seq<T::V>>,
    Ghost(tail): Ghost<Seq<T::V>>,
) -> (j: usize)
    requires
        head.len() == len,
        len <= items@.len(),
        items.deep_view() == head + tail,
    ensures
        j <= len,
        forall|k: int| j <= k < len ==> !T::may_precede(#[trigger] head[k], x.deep_view()),
        j == 0 || T::may_precede(head[j - 1], x.deep_view()),
{
    let mut j: usize = len;
    while j > 0
        invariant
            j <= len,
            head.len() == len,
            len <= items@.len(),
            items.deep_view() == head + tail,
            forall|k: int| j <= k < len ==> !T::may_precede(#[trigger] head[k], x.deep_view()),
        decreases j,
    {
        assert(items.deep_view()[j - 1] == head[j - 1]);
        assert(items.deep_view()[j - 1] == items@[j - 1].deep_view());
        if items[j - 1].precedes(x) {
            return j;
        }
        j -= 1;
    }
    j
}

/// Whether two items have the same name once both are in lower case.
pub open spec fn same_name<T: Named>(a: T::V, b: T::V) -> bool {
    to_lower(T::name_of(a)) == to_lower(T::name_of(b))
}

/// `s` without the items that have the same name, in lower case, as the last
/// item kept before them.
pub open spec fn deduplicated<T: Named>(s: Seq<T::V>) -> Seq<T::V>
    decreases s.len(),
{
    if s.len() == 0 {
        s
    } else {
        let d = deduplicated::<T>(s.drop_last());
        if d.len() > 0 && same_name::<T>(d.last(), s.last()) {
            d
        } else {
            d.push(s.last())
        }
    }
}

/// Whether no item has the same name, in lower case, as its right neighbour.
pub open spec fn no_repeats<T: Named>(s: Seq<T::V>) -> bool {
    forall|i: int| #![trigger s[i]] 0 <= i < s.len() - 1 ==> !same_name::<T>(s[i], s[i + 1])
}

/// What `deduplicated` leaves: no more items than before, none where there
/// were none, the first item first and the last kept item a match of the
/// last item.
pub proof fn lemma_deduplicated_shape<T: Named>(s: Seq<T::V>)
    ensures
        deduplicated::<T>(s).len() <= s.len(),
        s.len() > 0 ==> deduplicated::<T>(s).len() > 0,
        s.len() > 0 ==> deduplicated::<T>(s)[0] == s[0],
        s.len() > 0 ==> same_name::<T>(deduplicated::<T>(s).last(), s.last()),
        no_repeats::<T>(deduplicated::<T>(s)),
    decreases s.len(),
{
    if s.len() > 0 {
        let t = s.drop_last();
        lemma_deduplicated_shape::<T>(t);
        let d = deduplicated::<T>(t);
        let r = deduplicated::<T>(s);
        if !(d.len() > 0 && same_name::<T>(d.last(), s.last())) {
            assert forall|i: int| #![trigger r[i]] 0 <= i < r.len() - 1 implies !same_name::<T>(
                r[i],
                r[i + 1],
            ) by {
                if i < d.len() - 1 {
                    assert(!same_name::<T>(d[i], d[i + 1]));
                }
            }
        }
    }
}

/// Removing repeats leaves a list without repeats as it is.
pub proof fn lemma_deduplicated_fixpoint<T: Named>(s: Seq<T::V>)
    requires
        no_repeats::<T>(s),
    ensures
        deduplicated::<T>(s) == s,
    decreases s.len(),
{
    if s.len() > 0 {
        let t = s.drop_last();
        assert forall|i: int| #![trigger t[i]] 0 <= i < t.len() - 1 implies !same_name::<T>(
            t[i],
            t[i + 1],
        ) by {
            assert(!same_name::<T>(s[i], s[i + 1]));
        }
        lemma_deduplicated_fixpoint::<T>(t);
        if t.len() > 0 {
            assert(!same_name::<T>(s[s.len() - 2], s[s.len() - 2 + 1]));
            assert(t.last() == s[s.len() - 2]);
        }
        assert(t.push(s.last()) =~= s);
    }
}

/// Removes from `items`, in place, every item that has the same name, in
/// lower case, as the last item kept before it.
pub fn dedup<T: Named>(items: &mut Vec<T>)
    ensures
        final(items).deep_view() == deduplicated::<T>(old(items).deep_view()),
{
    let ghost all = items.deep_view();
    if items.len() == 0 {
        return ;
    }
    let mut kept: usize = 1;
    let ghost mut seen: int = 1;
    assert(all.take(1).drop_last() =~= Seq::empty());
    assert(deduplicated::<T>(Seq::empty()).len() == 0);
    assert(deduplicated::<T>(all.take(1)) =~= seq![all[0]]);
    assert(items.deep_view() =~= deduplicated::<T>(all.take(1)) + all.skip(1));
    while kept < items.len()
        invariant
            1 <= kept <= items@.len(),
            1 <= seen <= all.len(),
            items@.len() - kept == all.len() - seen,
            deduplicated::<T>(all.take(seen)).len() == kept,
            items.deep_view() == deduplicated::<T>(all.take(seen)) + all.skip(seen),
        decreases items@.len() - kept,
    {
        let ghost head = deduplicated::<T>(all.take(seen));
        let ghost before = items.deep_view();
        assert(before[kept - 1] == head.last());
        assert(before[kept as int] == all[seen]);
        let left = lowercase(items[kept - 1].name().as_str());
        let right = lowercase(items[kept].name().as_str());
        proof {
            assert(all.take(seen + 1).drop_last() =~= all.take(seen));
            assert(all.take(seen + 1).last() == all[seen]);
        }
        if left.eq(&right) {
            items.remove(kept);
            assert(items.deep_view() =~= head + all.skip(seen + 1)) by {
                assert(items.deep_view() =~= before.remove(kept as int));
            }
        } else {
            assert(before =~= head.push(all[seen]) + all.skip(seen + 1));
            kept += 1;
        }
        proof {
            seen = seen + 1;
        }
    }
    assert(all.take(seen) =~= all);
    assert(deduplicated::<T>(all) + all.skip(seen) =~= deduplicated::<T>(all));
}

/// Whether some item of `s` has the name `name` once both are in lower case.
pub open spec fn has_name<T: Named>(s: Seq<T::V>, name: Seq<char>) -> bool {
    exists|i: int| 0 <= i < s.len() && to_lower(T::name_of(#[trigger] s[i])) == to_lower(name)
}

/// Whether some item of `items` has the name `name` once both are in lower
/// case.
pub fn contains_name<T: Named>(items: &Vec<T>, name: &str) -> (r: bool)
    ensures
        r == has_name::<T>(items.deep_view(), name@),
{
    let wanted = lowercase(name);
    let n = items.len();
    let mut i: usize = 0;
    while i < n
        invariant
            i <= n,
            n == items@.len(),
            wanted@ == to_lower(name@),
            forall|k: int|
                0 <= k < i ==> to_lower(T::name_of(#[trigger] items.deep_view()[k])) != to_lower(
                    name@,
                ),
        decreases n - i,
    {
        let here = lowercase(items[i].name().as_str());
        if here.eq(&wanted) {
            assert(items.deep_view()[i as int] == items@[i as int].deep_view());
            return true;
        }
        i += 1;
    }
    false
}

/// Every item of `inserted(s, x)` is `x` or an item of `s`.
pub proof fn lemma_inserted_within<T: Ordered>(s: Seq<T::V>, x: T::V)
    ensures
        forall|i: int|
            0 <= i < inserted::<T>(s, x).len() ==> (#[trigger] inserted::<T>(s, x)[i]) == x
                || s.contains(inserted::<T>(s, x)[i]),
    decreases s.len(),
{
    let r = inserted::<T>(s, x);
    if s.len() == 0 || T::may_precede(s.last(), x) {
        assert forall|i: int| 0 <= i < r.len() implies (#[trigger] r[i]) == x || s.contains(
            r[i],
        ) by {
            if i < s.len() {
                assert(r[i] == s[i]);
            }
        }
    } else {
        let t = s.drop_last();
        lemma_inserted_within::<T>(t, x);
        lemma_inserted_len::<T>(t, x);
        let u = inserted::<T>(t, x);
        assert forall|i: int| 0 <= i < r.len() implies (#[trigger] r[i]) == x || s.contains(
            r[i],
        ) by {
            if i < u.len() {
                assert(r[i] == u[i]);
                if u[i] != x {
                    let k = choose|k: int| 0 <= k < t.len() && t[k] == u[i];
                    assert(s[k] == u[i]);
                }
            } else {
                assert(r[i] == s[s.len() - 1]);
            }
        }
    }
}

/// Every item of a sorted list is an item of the list it came from.
pub proof fn lemma_sorted_within<T: Ordered>(s: Seq<T::V>)
    ensures
        forall|i: int| 0 <= i < sorted::<T>(s).len() ==> s.contains(#[trigger] sorted::<T>(s)[i]),
    decreases s.len(),
{
    if s.len() > 0 {
        let t = s.drop_last();
        lemma_sorted_within::<T>(t);
        lemma_inserted_within::<T>(sorted::<T>(t), s.last());
        let r = sorted::<T>(s);
        assert forall|i: int| 0 <= i < r.len() implies s.contains(#[trigger] r[i]) by {
            if r[i] == s.last() {
                assert(s[s.len() - 1] == r[i]);
            } else {
                let k = choose|k: int| 0 <= k < sorted::<T>(t).len() && sorted::<T>(t)[k] == r[i];
                let m = choose|m: int| 0 <= m < t.len() && t[m] == sorted::<T>(t)[k];
                assert(s[m] == r[i]);
            }
        }
    }
}

/// Every item that `deduplicated` keeps is an item of the list it came from.
pub proof fn lemma_deduplicated_within<T: Named>(s: Seq<T::V>)
    ensures
        forall|i: int|
            0 <= i < deduplicated::<T>(s).len() ==> s.contains(#[trigger] deduplicated::<T>(s)[i]),
    decreases s.len(),
{
    if s.len() > 0 {
        let t = s.drop_last();
        lemma_deduplicated_within::<T>(t);
        let d = deduplicated::<T>(t);
        let r = deduplicated::<T>(s);
        assert forall|i: int| 0 <= i < r.len() implies s.contains(#[trigger] r[i]) by {
            if i < d.len() {
                assert(r[i] == d[i]);
                let k = choose|k: int| 0 <= k < t.len() && t[k] == d[i];
                assert(s[k] == r[i]);
            } else {
                assert(r[i] == s[s.len() - 1]);
            }
        }
    }
}

/// Removing repeats keeps a list in order.
pub proof fn lemma_deduplicated_in_order<T: Ordered + Named>(s: Seq<T::V>)
    requires
        in_order::<T>(s),
    ensures
        in_order::<T>(deduplicated::<T>(s)),
        s.len() > 0 ==> T::may_precede(deduplicated::<T>(s).last(), s.last()),
    decreases s.len(),
{
    if s.len() > 0 {
        let t = s.drop_last();
        assert forall|i: int| #![trigger t[i]] 0 <= i < t.len() - 1 implies T::may_precede(
            t[i],
            t[i + 1],
        ) by {
            assert(T::may_precede(s[i], s[i + 1]));
        }
        lemma_deduplicated_in_order::<T>(t);
        lemma_deduplicated_shape::<T>(t);
        lemma_deduplicated_shape::<T>(s);
        let d = deduplicated::<T>(t);
        let r = deduplicated::<T>(s);
        T::order_is_total(s.last(), s.last());
        if t.len() > 0 {
            assert(T::may_precede(s[s.len() - 2], s[s.len() - 2 + 1]));
            assert(t.last() == s[s.len() - 2]);
            T::order_is_transitive(d.last(), t.last(), s.last());
        }
        if !(d.len() > 0 && same_name::<T>(d.last(), s.last())) {
            assert forall|i: int| #![trigger r[i]] 0 <= i < r.len() - 1 implies T::may_precede(
                r[i],
                r[i + 1],
            ) by {
                if i < d.len() - 1 {
                    assert(T::may_precede(d[i], d[i + 1]));
                } else {
                    assert(r[i] == d.last());
                    assert(r[i + 1] == s.last());
                }
            }
        }
    }
}

/// Sorting and then removing repeats, done twice, is the same as done once.
pub proof fn lemma_tidy_twice<T: Ordered + Named>(s: Seq<T::V>)
    ensures
        deduplicated::<T>(sorted::<T>(deduplicated::<T>(sorted::<T>(s)))) == deduplicated::<T>(
            sorted::<T>(s),
        ),
{
    let once = deduplicated::<T>(sorted::<T>(s));
    lemma_sorted_in_order::<T>(s);
    lemma_deduplicated_in_order::<T>(sorted::<T>(s));
    lemma_deduplicated_shape::<T>(sorted::<T>(s));
    lemma_sorted_fixpoint::<T>(once);
    lemma_deduplicated_fixpoint::<T>(once);
}

/// Whether no two items have the same name once both are in lower case.
pub open spec fn distinct_names<T: Named>(s: Seq<T::V>) -> bool {
    forall|i: int, j: int|
        #![trigger s[i], s[j]]
        0 <= i < j < s.len() ==> !same_name::<T>(s[i], s[j])
}

/// A list whose names are distinct stays so when an item of yet another name
/// is inserted.
pub proof fn lemma_inserted_distinct<T: Ordered + Named>(s: Seq<T::V>, x: T::V)
    requires
        distinct_names::<T>(s),
        forall|i: int| 0 <= i < s.len() ==> !same_name::<T>(#[trigger] s[i], x),
    ensures
        distinct_names::<T>(inserted::<T>(s, x)),
    decreases s.len(),
{
    let r = inserted::<T>(s, x);
    if s.len() == 0 || T::may_precede(s.last(), x) {
        assert forall|i: int, j: int| #![trigger r[i], r[j]] 0 <= i < j < r.len() implies !same_name::<
            T,
        >(r[i], r[j]) by {
            if j < s.len() {
                assert(!same_name::<T>(s[i], s[j]));
            } else {
                assert(!same_name::<T>(s[i], x));
            }
        }
    } else {
        let t = s.drop_last();
        assert forall|i: int, j: int| #![trigger t[i], t[j]] 0 <= i < j < t.len() implies !same_name::<
            T,
        >(t[i], t[j]) by {
            assert(!same_name::<T>(s[i], s[j]));
        }
        assert forall|i: int| 0 <= i < t.len() implies !same_name::<T>(#[trigger] t[i], x) by {
            assert(!same_name::<T>(s[i], x));
        }
        lemma_inserted_distinct::<T>(t, x);
        lemma_inserted_within::<T>(t, x);
        lemma_inserted_len::<T>(t, x);
        let u = inserted::<T>(t, x);
        assert forall|i: int, j: int| #![trigger r[i], r[j]] 0 <= i < j < r.len() implies !same_name::<
            T,
        >(r[i], r[j]) by {
            if j < u.len() {
                assert(!same_name::<T>(u[i], u[j]));
            } else {
                assert(r[j] == s[s.len() - 1]);
                assert(r[i] == u[i]);
                if u[i] == x {
                    assert(!same_name::<T>(s[s.len() - 1], x));
                } else {
                    let k = choose|k: int| 0 <= k < t.len() && t[k] == u[i];
                    assert(!same_name::<T>(s[k], s[s.len() - 1]));
                }
            }
        }
    }
}

/// Sorting keeps names distinct.
pub proof fn lemma_sorted_distinct<T: Ordered + Named>(s: Seq<T::V>)
    requires
        distinct_names::<T>(s),
    ensures
        distinct_names::<T>(sorted::<T>(s)),
    decreases s.len(),
{
    if s.len() > 0 {
        let t = s.drop_last();
        assert forall|i: int, j: int| #![trigger t[i], t[j]] 0 <= i < j < t.len() implies !same_name::<
            T,
        >(t[i], t[j]) by {
            assert(!same_name::<T>(s[i], s[j]));
        }
        lemma_sorted_distinct::<T>(t);
        lemma_sorted_within::<T>(t);
        let head = sorted::<T>(t);
        assert forall|i: int| 0 <= i < head.len() implies !same_name::<T>(
            #[trigger] head[i],
            s.last(),
        ) by {
            let k = choose|k: int| 0 <= k < t.len() && t[k] == head[i];
            assert(!same_name::<T>(s[k], s[s.len() - 1]));
        }
        lemma_inserted_distinct::<T>(head, s.last());
    }
}

/// A list whose names are distinct has no repeats to remove.
pub proof fn lemma_distinct_has_no_repeats<T: Named>(s: Seq<T::V>)
    requires
        distinct_names::<T>(s),
    ensures
        no_repeats::<T>(s),
        deduplicated::<T>(s) == s,
{
    assert forall|i: int| #![trigger s[i]] 0 <= i < s.len() - 1 implies !same_name::<T>(
        s[i],
        s[i + 1],
    ) by {
        assert(!same_name::<T>(s[i], s[i + 1]));
    }
    lemma_deduplicated_fixpoint::<T>(s);
}

/// In a list that is in order, every item may stand before every later one.
pub proof fn lemma_in_order_pairwise<T: Ordered>(s: Seq<T::V>, i: int, j: int)
    requires
        in_order::<T>(s),
        0 <= i <= j < s.len(),
    ensures
        T::may_precede(s[i], s[j]),
    decreases j - i,
{
    if i == j {
        T::order_is_total(s[i], s[i]);
    } else {
        lemma_in_order_pairwise::<T>(s, i, j - 1);
        assert(T::may_precede(s[j - 1], s[j - 1 + 1]));
        T::order_is_transitive(s[i], s[j - 1], s[j]);
    }
}

} // verus!
