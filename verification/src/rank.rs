//! Putting values in order. Values of equal rank keep the order they came in.

use vstd::prelude::*;

verus! {

/// A value that has a place among others of its kind.
pub trait Ranked: View + Sized {
    /// Does `a` stand before `b`?
    spec fn before(a: Self::V, b: Self::V) -> bool;

    /// Does this value stand before `other`?
    fn goes_before(&self, other: &Self) -> (r: bool)
        ensures
            r == Self::before(self@, other@),
    ;
}

/// The values that a list stands for.
pub open spec fn views<T: View>(list: Seq<T>) -> Seq<T::V> {
    list.map_values(|t: T| t@)
}

/// The list with `x` behind the last value that `x` does not stand before.
pub open spec fn insert_ranked<T: Ranked>(list: Seq<T::V>, x: T::V) -> Seq<T::V>
    decreases list.len(),
{
    if list.len() == 0 || !T::before(x, list.last()) {
        list.push(x)
    } else {
        insert_ranked::<T>(list.drop_last(), x).push(list.last())
    }
}

/// The values in order, those of equal rank in the order they came in.
pub open spec fn ranked<T: Ranked>(list: Seq<T::V>) -> Seq<T::V>
    decreases list.len(),
{
    if list.len() == 0 {
        Seq::empty()
    } else {
        insert_ranked::<T>(ranked::<T>(list.drop_last()), list.last())
    }
}

proof fn lemma_insert_place<T: Ranked>(list: Seq<T::V>, x: T::V, n: int)
    requires
        0 <= n <= list.len(),
        forall|k: int| n <= k < list.len() ==> T::before(x, #[trigger] list[k]),
        n > 0 ==> !T::before(x, list[n - 1]),
    ensures
        insert_ranked::<T>(list, x) == list.insert(n, x),
    decreases list.len(),
{
    if n == list.len() {
        assert(list.insert(n, x) =~= list.push(x));
    } else {
        let front = list.drop_last();
        assert forall|k: int| n <= k < front.len() implies T::before(x, #[trigger] front[k]) by {
            assert(front[k] == list[k]);
        }
        assert(T::before(x, list[list.len() - 1]));
        lemma_insert_place::<T>(front, x, n);
        assert(list.insert(n, x) =~= front.insert(n, x).push(list.last()));
    }
}

/// Puts `x` in its place in a list.
pub fn insert_in_order<T: Ranked>(list: &mut Vec<T>, x: T)
    ensures
        views(final(list)@) == insert_ranked::<T>(views(old(list)@), x@),
        final(list)@.len() == old(list)@.len() + 1,
{
    let ghost vs = views(list@);
    let mut n: usize = list.len();
    while n > 0 && x.goes_before(&list[n - 1])
        invariant
            n <= list@.len(),
            *list == *old(list),
            vs == views(list@),
            forall|k: int| n <= k < list@.len() ==> T::before(x@, #[trigger] vs[k]),
        decreases n,
    {
        n -= 1;
    }
    proof {
        if n > 0 {
            assert(vs[n - 1] == list@[n - 1]@);
        }
        lemma_insert_place::<T>(vs, x@, n as int);
    }
    list.insert(n, x);
    assert(views(list@) =~= vs.insert(n as int, x@));
}

/// `before` orders the values: no two stand before each other, and a value that stands before
/// another also stands before everything that does not stand before that other.
pub open spec fn orders<T: Ranked>() -> bool {
    &&& forall|a: T::V, b: T::V| #[trigger] T::before(a, b) ==> !T::before(b, a)
    &&& forall|a: T::V, b: T::V, c: T::V| #[trigger]
        T::before(a, b) && !(#[trigger] T::before(c, b)) ==> T::before(a, c)
}

/// No value stands before one that comes earlier in the list.
pub open spec fn in_order<T: Ranked>(list: Seq<T::V>) -> bool {
    forall|i: int, j: int|
        0 <= i < j < list.len() ==> !T::before(#[trigger] list[j], #[trigger] list[i])
}

proof fn lemma_insert_ranked<T: Ranked>(list: Seq<T::V>, x: T::V)
    requires
        orders::<T>(),
        in_order::<T>(list),
    ensures
        in_order::<T>(insert_ranked::<T>(list, x)),
        insert_ranked::<T>(list, x).to_multiset() == list.to_multiset().insert(x),
        forall|y: T::V| #[trigger]
            insert_ranked::<T>(list, x).contains(y) <==> list.contains(y) || y == x,
    decreases list.len(),
{
    broadcast use vstd::seq_lib::group_to_multiset_ensures;

    if list.len() == 0 || !T::before(x, list.last()) {
        let r = list.push(x);
        assert forall|i: int, j: int| 0 <= i < j < r.len() implies !T::before(
            #[trigger] r[j],
            #[trigger] r[i],
        ) by {
            if j == list.len() && T::before(x, list[i]) {
                let last = list[list.len() - 1];
                if i < list.len() - 1 {
                    assert(!T::before(last, list[i]));
                }
                assert(T::before(x, last));
            }
        }
        assert forall|y: T::V| #[trigger] r.contains(y) implies list.contains(y) || y == x by {
            let i = choose|i: int| 0 <= i < r.len() && r[i] == y;
            if i < list.len() {
                assert(list[i] == y);
            }
        }
        assert forall|y: T::V| list.contains(y) || y == x implies #[trigger] r.contains(y) by {
            if y == x {
                assert(r[list.len() as int] == y);
            } else {
                let i = choose|i: int| 0 <= i < list.len() && list[i] == y;
                assert(r[i] == y);
            }
        }
    } else {
        let front = list.drop_last();
        let last = list.last();
        assert forall|i: int, j: int| 0 <= i < j < front.len() implies !T::before(
            #[trigger] front[j],
            #[trigger] front[i],
        ) by {
            assert(front[i] == list[i] && front[j] == list[j]);
        }
        lemma_insert_ranked::<T>(front, x);
        let inner = insert_ranked::<T>(front, x);
        let r = inner.push(last);
        assert(list =~= front.push(last));
        assert forall|i: int, j: int| 0 <= i < j < r.len() implies !T::before(
            #[trigger] r[j],
            #[trigger] r[i],
        ) by {
            if j == inner.len() {
                assert(inner.contains(inner[i]));
                if inner[i] == x {
                    assert(T::before(x, last));
                } else {
                    let k = choose|k: int| 0 <= k < front.len() && front[k] == inner[i];
                    assert(list[k] == inner[i]);
                    assert(list[list.len() - 1] == last);
                }
            }
        }
        assert forall|y: T::V| #[trigger] r.contains(y) implies list.contains(y) || y == x by {
            let i = choose|i: int| 0 <= i < r.len() && r[i] == y;
            if i < inner.len() {
                assert(inner.contains(inner[i]));
                if y != x {
                    let k = choose|k: int| 0 <= k < front.len() && front[k] == y;
                    assert(list[k] == y);
                }
            } else {
                assert(list[list.len() - 1] == y);
            }
        }
        assert forall|y: T::V| list.contains(y) || y == x implies #[trigger] r.contains(y) by {
            if y == x {
                assert(inner.contains(x));
                let i = choose|i: int| 0 <= i < inner.len() && inner[i] == y;
                assert(r[i] == y);
            } else {
                let k = choose|k: int| 0 <= k < list.len() && list[k] == y;
                if k < front.len() {
                    assert(front[k] == y);
                    assert(inner.contains(y));
                    let i = choose|i: int| 0 <= i < inner.len() && inner[i] == y;
                    assert(r[i] == y);
                } else {
                    assert(r[inner.len() as int] == y);
                }
            }
        }
        assert(list.to_multiset() =~= front.to_multiset().insert(last));
        assert(r.to_multiset() =~= inner.to_multiset().insert(last));
        assert(r.to_multiset() =~= list.to_multiset().insert(x));
    }
}

/// Putting values in order loses none, adds none, and leaves no value before one that it stands
/// behind.
pub proof fn ranked_list_is_in_order<T: Ranked>(list: Seq<T::V>)
    requires
        orders::<T>(),
    ensures
        in_order::<T>(ranked::<T>(list)),
        ranked::<T>(list).to_multiset() == list.to_multiset(),
        ranked::<T>(list).len() == list.len(),
    decreases list.len(),
{
    broadcast use vstd::seq_lib::group_to_multiset_ensures;

    if list.len() > 0 {
        let front = list.drop_last();
        ranked_list_is_in_order::<T>(front);
        lemma_insert_ranked::<T>(ranked::<T>(front), list.last());
        assert(list =~= front.push(list.last()));
        assert(ranked::<T>(list).to_multiset() =~= list.to_multiset());
        assert(ranked::<T>(list).len() == ranked::<T>(list).to_multiset().len());
        assert(list.len() == list.to_multiset().len());
    }
}

/// Neither of the two stands before the other.
pub open spec fn tied<T: Ranked>(a: T::V, b: T::V) -> bool {
    !T::before(a, b) && !T::before(b, a)
}

/// The values of the list that have the same rank as `v`.
pub open spec fn ties_of<T: Ranked>(list: Seq<T::V>, v: T::V) -> Seq<T::V>
    decreases list.len(),
{
    if list.len() == 0 {
        Seq::empty()
    } else if tied::<T>(v, list.last()) {
        ties_of::<T>(list.drop_last(), v).push(list.last())
    } else {
        ties_of::<T>(list.drop_last(), v)
    }
}

proof fn lemma_insert_keeps_ties<T: Ranked>(list: Seq<T::V>, x: T::V, v: T::V)
    requires
        orders::<T>(),
    ensures
        ties_of::<T>(insert_ranked::<T>(list, x), v) == ties_of::<T>(list.push(x), v),
    decreases list.len(),
{
    reveal_with_fuel(ties_of, 3);
    if list.len() > 0 && T::before(x, list.last()) {
        let front = list.drop_last();
        let last = list.last();
        lemma_insert_keeps_ties::<T>(front, x, v);
        assert(front.push(x).drop_last() =~= front);
        assert(insert_ranked::<T>(front, x).push(last).drop_last() =~= insert_ranked::<T>(
            front,
            x,
        ));
        assert(list.push(x).drop_last() =~= list);
        if tied::<T>(v, x) && tied::<T>(v, last) {
            // `x` stands before `last`, which does not stand before `v`, so `x` stands before `v`.
            assert(T::before(x, last) && !T::before(v, last) ==> T::before(x, v));
        }
    }
}

/// Values of equal rank keep the order they came in.
pub proof fn ranked_list_keeps_ties<T: Ranked>(list: Seq<T::V>, v: T::V)
    requires
        orders::<T>(),
    ensures
        ties_of::<T>(ranked::<T>(list), v) == ties_of::<T>(list, v),
    decreases list.len(),
{
    if list.len() > 0 {
        let front = list.drop_last();
        let done = ranked::<T>(front);
        ranked_list_keeps_ties::<T>(front, v);
        lemma_insert_keeps_ties::<T>(done, list.last(), v);
        assert(done.push(list.last()).drop_last() =~= done);
    }
}

/// Putting a list in order neither adds nor removes anything: what stands in it once, stands in
/// the ordered list once.
pub proof fn ranked_list_holds_the_same<T: Ranked>(list: Seq<T::V>)
    requires
        orders::<T>(),
    ensures
        forall|v: T::V| #[trigger] ranked::<T>(list).contains(v) <==> list.contains(v),
        list.no_duplicates() ==> ranked::<T>(list).no_duplicates(),
{
    broadcast use vstd::seq_lib::group_to_multiset_ensures;

    ranked_list_is_in_order::<T>(list);
    let r = ranked::<T>(list);
    assert forall|v: T::V| #[trigger] r.contains(v) <==> list.contains(v) by {
        assert(r.to_multiset().count(v) == list.to_multiset().count(v));
        assert(r.contains(v) <==> r.to_multiset().count(v) > 0);
        assert(list.contains(v) <==> list.to_multiset().count(v) > 0);
    }
    if list.no_duplicates() {
        list.lemma_multiset_has_no_duplicates();
        r.lemma_multiset_has_no_duplicates_conv();
    }
}

/// Where a value is put: behind it stand only values that it stands before.
proof fn lemma_place<T: Ranked>(list: Seq<T::V>, x: T::V) -> (n: int)
    ensures
        0 <= n <= list.len(),
        forall|k: int| n <= k < list.len() ==> T::before(x, #[trigger] list[k]),
        insert_ranked::<T>(list, x) == list.insert(n, x),
    decreases list.len(),
{
    if list.len() == 0 || !T::before(x, list.last()) {
        assert(list.insert(list.len() as int, x) =~= list.push(x));
        list.len() as int
    } else {
        let front = list.drop_last();
        let n = lemma_place::<T>(front, x);
        assert(list.insert(n, x) =~= front.insert(n, x).push(list.last()));
        assert forall|k: int| n <= k < list.len() implies T::before(x, #[trigger] list[k]) by {
            if k < front.len() {
                assert(front[k] == list[k]);
            }
        }
        n
    }
}

/// Of two values of equal rank, the one that comes first in the ordered list came first before.
pub proof fn equal_ranks_keep_their_order<T: Ranked>(list: Seq<T::V>, i: int, j: int)
    requires
        orders::<T>(),
        0 <= i < j < ranked::<T>(list).len(),
        !T::before(ranked::<T>(list)[i], ranked::<T>(list)[j]),
    ensures
        exists|a: int, b: int|
            0 <= a < b < list.len() && #[trigger] list[a] == ranked::<T>(list)[i]
                && #[trigger] list[b] == ranked::<T>(list)[j],
    decreases list.len(),
{
    let front = list.drop_last();
    let x = list.last();
    let done = ranked::<T>(front);
    let n = lemma_place::<T>(done, x);
    let r = ranked::<T>(list);
    assert(r == done.insert(n, x));
    if i == n {
        assert(r[j] == done[j - 1]);
    } else if j == n {
        assert(r[i] == done[i]);
        ranked_list_holds_the_same::<T>(front);
        assert(done.contains(done[i]));
        let a = choose|a: int| 0 <= a < front.len() && front[a] == done[i];
        assert(list[a] == r[i] && list[list.len() - 1] == r[j]);
    } else {
        let i2 = if i < n {
            i
        } else {
            i - 1
        };
        let j2 = if j < n {
            j
        } else {
            j - 1
        };
        assert(r[i] == done[i2] && r[j] == done[j2]);
        equal_ranks_keep_their_order::<T>(front, i2, j2);
        let (a, b) = choose|a: int, b: int|
            0 <= a < b < front.len() && #[trigger] front[a] == done[i2] && #[trigger] front[b]
                == done[j2];
        assert(list[a] == r[i] && list[b] == r[j]);
    }
}

} // verus!
