//! A stable sort by insertion.

use vstd::prelude::*;

verus! {

/// An order to sort by.
pub trait Order<T> {
    /// Whether `a` belongs after `b`.
    spec fn after(&self, a: T, b: T) -> bool;

    /// Whether `a` belongs after `b`.
    fn is_after(&self, a: &T, b: &T) -> (r: bool)
        ensures
            r == self.after(*a, *b),
    ;
}

/// A sorted run with one element more: behind all that do not belong after
/// it.
pub open spec fn inserted<T, O: Order<T>>(o: &O, s: Seq<T>, x: T) -> Seq<T>
    decreases s.len(),
{
    if s.len() > 0 && o.after(s.last(), x) {
        inserted(o, s.drop_last(), x).push(s.last())
    } else {
        s.push(x)
    }
}

/// A run, sorted: its elements inserted one after the other, so that those
/// that neither belongs after the other keep their order.
pub open spec fn sorted<T, O: Order<T>>(o: &O, s: Seq<T>) -> Seq<T>
    decreases s.len(),
{
    if s.len() == 0 {
        seq![]
    } else {
        inserted(o, sorted(o, s.drop_last()), s.last())
    }
}

/// Nothing belongs after what comes behind it.
pub open spec fn in_order<T, O: Order<T>>(o: &O, s: Seq<T>) -> bool {
    forall|i: int, j: int| 0 <= i < j < s.len() ==> !o.after(#[trigger] s[i], #[trigger] s[j])
}

/// The order is one that a sort can establish among some elements: of two of
/// them, at most one belongs after the other, and what belongs after neither of
/// two neighbours follows both.
pub open spec fn is_weak_order<T, O: Order<T>>(o: &O, among: Seq<T>) -> bool {
    &&& forall|a: T, b: T|
        among.contains(a) && among.contains(b) && #[trigger] o.after(a, b) ==> !o.after(b, a)
    &&& forall|a: T, b: T, c: T|
        among.contains(a) && among.contains(b) && among.contains(c) && !(#[trigger] o.after(a, b))
            && !(#[trigger] o.after(b, c)) ==> !o.after(a, c)
}

/// Whether the elements of a run are among some.
pub open spec fn are_among<T>(s: Seq<T>, among: Seq<T>) -> bool {
    forall|i: int| 0 <= i < s.len() ==> among.contains(#[trigger] s[i])
}

/// Inserting keeps the elements.
proof fn lemma_inserted_multiset<T, O: Order<T>>(o: &O, s: Seq<T>, x: T)
    ensures
        inserted(o, s, x).to_multiset() == s.push(x).to_multiset(),
        inserted(o, s, x).len() == s.len() + 1,
    decreases s.len(),
{
    broadcast use vstd::seq_lib::group_to_multiset_ensures;

    if s.len() > 0 && o.after(s.last(), x) {
        lemma_inserted_multiset(o, s.drop_last(), x);
        let t = s.drop_last();
        assert(s =~= t.push(s.last()));
        assert(inserted(o, s, x).to_multiset() =~= s.push(x).to_multiset());
    }
}

/// A sorted run holds the elements of the run, each as often.
pub proof fn law_sorted_same_elements<T, O: Order<T>>(o: &O, s: Seq<T>)
    ensures
        sorted(o, s).to_multiset() == s.to_multiset(),
        sorted(o, s).len() == s.len(),
    decreases s.len(),
{
    broadcast use vstd::seq_lib::group_to_multiset_ensures;

    if s.len() > 0 {
        law_sorted_same_elements(o, s.drop_last());
        lemma_inserted_multiset(o, sorted(o, s.drop_last()), s.last());
        assert(s =~= s.drop_last().push(s.last()));
        assert(sorted(o, s).to_multiset() =~= s.to_multiset());
    } else {
        assert(sorted(o, s) =~= s);
    }
}

/// Where an inserted element goes.
proof fn lemma_inserted_at<T, O: Order<T>>(o: &O, s: Seq<T>, x: T, k: int)
    requires
        0 <= k <= s.len(),
        forall|j: int| k <= j < s.len() ==> o.after(#[trigger] s[j], x),
        k > 0 ==> !o.after(s[k - 1], x),
    ensures
        inserted(o, s, x) == s.insert(k, x),
    decreases s.len() - k,
{
    if k == s.len() {
        assert(s.insert(k, x) =~= s.push(x));
    } else {
        assert(o.after(s[s.len() - 1], x));
        lemma_inserted_at(o, s.drop_last(), x, k);
        assert(s.insert(k, x) =~= s.drop_last().insert(k, x).push(s.last()));
    }
}

/// Inserting into a run in order leaves it in order.
proof fn lemma_inserted_in_order<T, O: Order<T>>(o: &O, s: Seq<T>, x: T, among: Seq<T>)
    requires
        is_weak_order(o, among),
        are_among(s, among),
        among.contains(x),
        in_order(o, s),
    ensures
        in_order(o, inserted(o, s, x)),
    decreases s.len(),
{
    if s.len() > 0 && o.after(s.last(), x) {
        let t = s.drop_last();
        assert forall|i: int, j: int| 0 <= i < j < t.len() implies !o.after(
            #[trigger] t[i],
            #[trigger] t[j],
        ) by {
            assert(!o.after(s[i], s[j]));
        }
        assert(are_among(t, among)) by {
            assert forall|i: int| 0 <= i < t.len() implies among.contains(#[trigger] t[i]) by {
                assert(t[i] == s[i]);
            }
        }
        assert(among.contains(s[s.len() - 1]));
        lemma_inserted_in_order(o, t, x, among);
        lemma_inserted_multiset(o, t, x);
        let u = inserted(o, t, x);
        let r = u.push(s.last());
        assert forall|i: int, j: int| 0 <= i < j < r.len() implies !o.after(
            #[trigger] r[i],
            #[trigger] r[j],
        ) by {
            if j < u.len() {
                assert(!o.after(u[i], u[j]));
            } else {
                broadcast use vstd::seq_lib::group_to_multiset_ensures;

                assert(u.to_multiset().count(u[i]) > 0);
                assert(t.push(x).to_multiset().count(u[i]) > 0);
                assert(t.push(x).contains(u[i]));
                let p = choose|p: int| 0 <= p < t.push(x).len() && t.push(x)[p] == u[i];
                if p < t.len() {
                    assert(!o.after(s[p], s[s.len() - 1]));
                } else {
                    assert(u[i] == x);
                }
            }
        }
    } else {
        let r = s.push(x);
        assert forall|i: int, j: int| 0 <= i < j < r.len() implies !o.after(
            #[trigger] r[i],
            #[trigger] r[j],
        ) by {
            if j < s.len() {
                assert(!o.after(s[i], s[j]));
            } else if i < s.len() - 1 {
                assert(among.contains(s[i]) && among.contains(s[s.len() - 1]));
                assert(!o.after(s[i], s[s.len() - 1]));
                assert(!o.after(s.last(), x));
            }
        }
    }
}

/// A sorted run holds nothing that the run does not hold.
proof fn lemma_sorted_among<T, O: Order<T>>(o: &O, s: Seq<T>, among: Seq<T>)
    requires
        are_among(s, among),
    ensures
        are_among(sorted(o, s), among),
{
    law_sorted_same_elements(o, s);
    let u = sorted(o, s);
    assert forall|i: int| 0 <= i < u.len() implies among.contains(#[trigger] u[i]) by {
        broadcast use vstd::seq_lib::group_to_multiset_ensures;

        assert(u.to_multiset().count(u[i]) > 0);
        assert(s.to_multiset().count(u[i]) > 0);
        assert(s.contains(u[i]));
        let p = choose|p: int| 0 <= p < s.len() && s[p] == u[i];
        assert(among.contains(s[p]));
    }
}

/// A sorted run is in order, by an order that a sort can establish.
proof fn lemma_sorted_in_order<T, O: Order<T>>(o: &O, s: Seq<T>, among: Seq<T>)
    requires
        is_weak_order(o, among),
        are_among(s, among),
    ensures
        in_order(o, sorted(o, s)),
    decreases s.len(),
{
    if s.len() > 0 {
        let t = s.drop_last();
        assert forall|i: int| 0 <= i < t.len() implies among.contains(#[trigger] t[i]) by {
            assert(t[i] == s[i]);
        }
        assert(among.contains(s[s.len() - 1]));
        lemma_sorted_in_order(o, t, among);
        lemma_sorted_among(o, t, among);
        lemma_inserted_in_order(o, sorted(o, t), s.last(), among);
    }
}

/// By an order that a sort can establish among them, the elements of a sorted
/// run are in order.
pub proof fn law_sorted_in_order<T, O: Order<T>>(o: &O, s: Seq<T>)
    requires
        is_weak_order(o, s),
    ensures
        in_order(o, sorted(o, s)),
{
    assert(are_among(s, s));
    lemma_sorted_in_order(o, s, s);
}

/// A run that is in order is left as it is.
pub proof fn law_sorted_keeps_order<T, O: Order<T>>(o: &O, s: Seq<T>)
    requires
        in_order(o, s),
    ensures
        sorted(o, s) == s,
    decreases s.len(),
{
    if s.len() > 0 {
        let t = s.drop_last();
        assert forall|i: int, j: int| 0 <= i < j < t.len() implies !o.after(
            #[trigger] t[i],
            #[trigger] t[j],
        ) by {
            assert(!o.after(s[i], s[j]));
        }
        law_sorted_keeps_order(o, t);
        if t.len() > 0 {
            assert(!o.after(s[t.len() - 1], s[s.len() - 1]));
        }
        assert(s =~= t.push(s.last()));
    } else {
        assert(sorted(o, s) =~= s);
    }
}

/// What belongs after by the first order, or by the second where the first
/// does not tell.
pub open spec fn after_by_both<T, O1: Order<T>, O2: Order<T>>(o1: &O1, o2: &O2, a: T, b: T) -> bool {
    o1.after(a, b) || (!o1.after(b, a) && o2.after(a, b))
}

/// Nothing belongs after what comes behind it, by two orders.
pub open spec fn in_order_by_both<T, O1: Order<T>, O2: Order<T>>(
    o1: &O1,
    o2: &O2,
    s: Seq<T>,
) -> bool {
    forall|i: int, j: int|
        0 <= i < j < s.len() ==> !after_by_both(o1, o2, #[trigger] s[i], #[trigger] s[j])
}

/// Inserting what the second order puts last keeps a run in order by both.
proof fn lemma_inserted_by_both<T, O1: Order<T>, O2: Order<T>>(
    o1: &O1,
    o2: &O2,
    s: Seq<T>,
    x: T,
    among: Seq<T>,
)
    requires
        is_weak_order(o1, among),
        are_among(s, among),
        among.contains(x),
        in_order_by_both(o1, o2, s),
        forall|i: int| 0 <= i < s.len() ==> !o2.after(#[trigger] s[i], x),
    ensures
        in_order_by_both(o1, o2, inserted(o1, s, x)),
    decreases s.len(),
{
    if s.len() > 0 && o1.after(s.last(), x) {
        let t = s.drop_last();
        assert forall|i: int, j: int| 0 <= i < j < t.len() implies !after_by_both(
            o1,
            o2,
            #[trigger] t[i],
            #[trigger] t[j],
        ) by {
            assert(!after_by_both(o1, o2, s[i], s[j]));
        }
        assert forall|i: int| 0 <= i < t.len() implies !o2.after(#[trigger] t[i], x)
            && among.contains(t[i]) by {
            assert(t[i] == s[i]);
        }
        assert(among.contains(s[s.len() - 1]));
        lemma_inserted_by_both(o1, o2, t, x, among);
        lemma_inserted_multiset(o1, t, x);
        let u = inserted(o1, t, x);
        let r = u.push(s.last());
        assert forall|i: int, j: int| 0 <= i < j < r.len() implies !after_by_both(
            o1,
            o2,
            #[trigger] r[i],
            #[trigger] r[j],
        ) by {
            if j < u.len() {
                assert(!after_by_both(o1, o2, u[i], u[j]));
            } else {
                broadcast use vstd::seq_lib::group_to_multiset_ensures;

                assert(u.to_multiset().count(u[i]) > 0);
                assert(t.push(x).to_multiset().count(u[i]) > 0);
                assert(t.push(x).contains(u[i]));
                let p = choose|p: int| 0 <= p < t.push(x).len() && t.push(x)[p] == u[i];
                if p < t.len() {
                    assert(!after_by_both(o1, o2, s[p], s[s.len() - 1]));
                } else {
                    assert(u[i] == x);
                }
            }
        }
    } else {
        let r = s.push(x);
        assert forall|i: int, j: int| 0 <= i < j < r.len() implies !after_by_both(
            o1,
            o2,
            #[trigger] r[i],
            #[trigger] r[j],
        ) by {
            if j < s.len() {
                assert(!after_by_both(o1, o2, s[i], s[j]));
            } else {
                assert(!o2.after(s[i], x));
                assert(among.contains(s[i]));
                if i < s.len() - 1 {
                    assert(among.contains(s[s.len() - 1]));
                    assert(!after_by_both(o1, o2, s[i], s[s.len() - 1]));
                    assert(!o1.after(s[i], s.last()));
                    assert(!o1.after(s.last(), x));
                }
            }
        }
    }
}

/// Sorting by a second order and then by a first one leaves a run in order by
/// the first, and by the second where the first does not tell.
pub proof fn law_two_level_sort<T, O1: Order<T>, O2: Order<T>>(o1: &O1, o2: &O2, s: Seq<T>)
    requires
        is_weak_order(o1, s),
        is_weak_order(o2, s),
    ensures
        in_order_by_both(o1, o2, sorted(o1, sorted(o2, s))),
{
    law_sorted_in_order(o2, s);
    assert(are_among(s, s));
    lemma_sorted_among(o2, s, s);
    lemma_sorted_by_both(o1, o2, sorted(o2, s), s);
}

/// Sorting what is in order by the second order.
proof fn lemma_sorted_by_both<T, O1: Order<T>, O2: Order<T>>(
    o1: &O1,
    o2: &O2,
    s: Seq<T>,
    among: Seq<T>,
)
    requires
        is_weak_order(o1, among),
        are_among(s, among),
        in_order(o2, s),
    ensures
        in_order_by_both(o1, o2, sorted(o1, s)),
    decreases s.len(),
{
    if s.len() > 0 {
        let t = s.drop_last();
        assert forall|i: int, j: int| 0 <= i < j < t.len() implies !o2.after(
            #[trigger] t[i],
            #[trigger] t[j],
        ) by {
            assert(!o2.after(s[i], s[j]));
        }
        assert forall|i: int| 0 <= i < t.len() implies among.contains(#[trigger] t[i]) by {
            assert(t[i] == s[i]);
        }
        assert(among.contains(s[s.len() - 1]));
        lemma_sorted_among(o1, t, among);
        lemma_sorted_by_both(o1, o2, t, among);
        law_sorted_same_elements(o1, t);
        let u = sorted(o1, t);
        assert forall|i: int| 0 <= i < u.len() implies !o2.after(#[trigger] u[i], s.last()) by {
            broadcast use vstd::seq_lib::group_to_multiset_ensures;

            assert(u.to_multiset().count(u[i]) > 0);
            assert(t.to_multiset().count(u[i]) > 0);
            assert(t.contains(u[i]));
            let p = choose|p: int| 0 <= p < t.len() && t[p] == u[i];
            assert(!o2.after(s[p], s[s.len() - 1]));
        }
        lemma_inserted_by_both(o1, o2, u, s.last(), among);
    }
}

/// Of some elements, none belongs after another.
pub open spec fn are_tied<T, O: Order<T>>(o: &O, s: Seq<T>, some: spec_fn(T) -> bool) -> bool {
    forall|i: int, j: int|
        0 <= i < s.len() && 0 <= j < s.len() && some(#[trigger] s[i]) && some(#[trigger] s[j])
            ==> !o.after(s[i], s[j])
}

/// What a filter keeps of one element more.
proof fn lemma_filter_push<T>(s: Seq<T>, x: T, some: spec_fn(T) -> bool)
    ensures
        s.push(x).filter(some) == (if some(x) {
            s.filter(some).push(x)
        } else {
            s.filter(some)
        }),
{
    reveal(Seq::filter);
    assert(s.push(x).drop_last() =~= s);
}

/// Inserting an element leaves some that are tied with it in their order, and
/// puts it behind them.
proof fn lemma_inserted_is_stable<T, O: Order<T>>(
    o: &O,
    s: Seq<T>,
    x: T,
    some: spec_fn(T) -> bool,
)
    requires
        some(x) ==> forall|i: int| 0 <= i < s.len() && some(#[trigger] s[i]) ==> !o.after(s[i], x),
    ensures
        inserted(o, s, x).filter(some) == s.push(x).filter(some),
    decreases s.len(),
{
    if s.len() > 0 && o.after(s.last(), x) {
        let t = s.drop_last();
        let y = s.last();
        assert(s[s.len() - 1] == y);
        assert forall|i: int| some(x) && 0 <= i < t.len() && some(#[trigger] t[i]) implies !o.after(
            t[i],
            x,
        ) by {
            assert(t[i] == s[i]);
        }
        lemma_inserted_is_stable(o, t, x, some);
        assert(s =~= t.push(y));
        lemma_filter_push(inserted(o, t, x), y, some);
        lemma_filter_push(t, x, some);
        lemma_filter_push(t, y, some);
        lemma_filter_push(s, x, some);
    }
}

/// A sort keeps the order of elements of which none belongs after another.
pub proof fn law_sorted_is_stable<T, O: Order<T>>(o: &O, s: Seq<T>, some: spec_fn(T) -> bool)
    requires
        are_tied(o, s, some),
    ensures
        sorted(o, s).filter(some) == s.filter(some),
    decreases s.len(),
{
    if s.len() > 0 {
        let t = s.drop_last();
        let x = s.last();
        assert(are_tied(o, t, some)) by {
            assert forall|i: int, j: int|
                0 <= i < t.len() && 0 <= j < t.len() && some(#[trigger] t[i]) && some(
                    #[trigger] t[j],
                ) implies !o.after(t[i], t[j]) by {
                assert(t[i] == s[i] && t[j] == s[j]);
            }
        }
        law_sorted_is_stable(o, t, some);
        let u = sorted(o, t);
        assert(are_among(t, t));
        lemma_sorted_among(o, t, t);
        assert forall|i: int| some(x) && 0 <= i < u.len() && some(#[trigger] u[i]) implies !o.after(
            u[i],
            x,
        ) by {
            assert(t.contains(u[i]));
            let k = choose|k: int| 0 <= k < t.len() && t[k] == u[i];
            assert(s[k] == u[i] && s[s.len() - 1] == x);
        }
        lemma_inserted_is_stable(o, u, x, some);
        assert(s =~= t.push(x));
        lemma_filter_push(t, x, some);
        lemma_filter_push(u, x, some);
    } else {
        assert(sorted(o, s) =~= s);
    }
}

/// Sorting by a second order and then by a first one keeps the order of
/// elements that are tied by both.
pub proof fn law_two_level_sort_is_stable<T, O1: Order<T>, O2: Order<T>>(
    o1: &O1,
    o2: &O2,
    s: Seq<T>,
    some: spec_fn(T) -> bool,
)
    requires
        are_tied(o1, s, some),
        are_tied(o2, s, some),
    ensures
        sorted(o1, sorted(o2, s)).filter(some) == s.filter(some),
{
    let u = sorted(o2, s);
    law_sorted_is_stable(o2, s, some);
    assert(are_among(s, s));
    lemma_sorted_among(o2, s, s);
    assert(are_tied(o1, u, some)) by {
        assert forall|i: int, j: int|
            0 <= i < u.len() && 0 <= j < u.len() && some(#[trigger] u[i]) && some(#[trigger] u[j])
            implies !o1.after(u[i], u[j]) by {
            assert(s.contains(u[i]) && s.contains(u[j]));
            let k = choose|k: int| 0 <= k < s.len() && s[k] == u[i];
            let l = choose|l: int| 0 <= l < s.len() && s[l] == u[j];
            assert(!o1.after(s[k], s[l]));
        }
    }
    law_sorted_is_stable(o1, u, some);
}

/// Sorts a run, keeping the order of what neither belongs after the other:
/// `slice::sort_by`.
pub fn sort<T, O: Order<T>>(o: &O, v: Vec<T>) -> (out: Vec<T>)
    ensures
        out@ == sorted(o, v@),
{
    let ghost all = v@;
    let mut rest = v;
    let mut out: Vec<T> = Vec::new();
    // The elements come off the front, one at a time.
    let n: usize = rest.len();
    let mut i: usize = 0;
    assert(all.take(0) =~= Seq::<T>::empty());
    assert(all.skip(0) =~= all);
    while i < n
        invariant
            i <= n,
            n == all.len(),
            rest@ == all.skip(i as int),
            out@ == sorted(o, all.take(i as int)),
        decreases n - i,
    {
        let x = rest.remove(0);
        proof {
            assert(all.skip(i as int)[0] == all[i as int]);
            assert(all.skip(i as int).remove(0) =~= all.skip(i + 1));
            assert(all.take(i + 1).drop_last() =~= all.take(i as int));
            assert(all.take(i + 1).last() == x);
        }
        let mut k: usize = out.len();
        while k > 0 && o.is_after(&out[k - 1], &x)
            invariant
                k <= out.len(),
                forall|j: int| k <= j < out@.len() ==> o.after(#[trigger] out@[j], x),
            decreases k,
        {
            k -= 1;
        }
        proof {
            lemma_inserted_at(o, out@, x, k as int);
        }
        out.insert(k, x);
        i += 1;
    }
    assert(all.take(i as int) =~= all);
    out
}

// ---------------------------------------------------------------------------
// Sorting by contents
// ---------------------------------------------------------------------------

/// A value put into a sorted run of values, behind those it does not precede.
pub open spec fn inserted_by<V>(after: spec_fn(V, V) -> bool, s: Seq<V>, x: V) -> Seq<V>
    decreases s.len(),
{
    if s.len() > 0 && after(s.last(), x) {
        inserted_by(after, s.drop_last(), x).push(s.last())
    } else {
        s.push(x)
    }
}

/// Values, sorted.
pub open spec fn sorted_by<V>(after: spec_fn(V, V) -> bool, s: Seq<V>) -> Seq<V>
    decreases s.len(),
{
    if s.len() == 0 {
        seq![]
    } else {
        inserted_by(after, sorted_by(after, s.drop_last()), s.last())
    }
}

/// The contents of a run.
pub open spec fn contents<T: View>(s: Seq<T>) -> Seq<T::V> {
    s.map_values(|t: T| t@)
}

/// Inserting and looking at the contents commute.
proof fn lemma_inserted_contents<T: View, O: Order<T>>(
    o: &O,
    after: spec_fn(T::V, T::V) -> bool,
    s: Seq<T>,
    x: T,
)
    requires
        forall|a: T, b: T| #[trigger] o.after(a, b) == after(a@, b@),
    ensures
        contents(inserted(o, s, x)) == inserted_by(after, contents(s), x@),
    decreases s.len(),
{
    let v = contents(s);
    if s.len() > 0 && o.after(s.last(), x) {
        lemma_inserted_contents(o, after, s.drop_last(), x);
        assert(contents(s.drop_last()) =~= v.drop_last());
        assert(contents(inserted(o, s, x)) =~= inserted_by(after, v.drop_last(), x@).push(
            v.last(),
        ));
    } else {
        assert(contents(s.push(x)) =~= v.push(x@));
    }
}

/// Sorting and looking at the contents commute.
pub proof fn lemma_sorted_contents<T: View, O: Order<T>>(
    o: &O,
    after: spec_fn(T::V, T::V) -> bool,
    s: Seq<T>,
)
    requires
        forall|a: T, b: T| #[trigger] o.after(a, b) == after(a@, b@),
    ensures
        contents(sorted(o, s)) == sorted_by(after, contents(s)),
    decreases s.len(),
{
    let v = contents(s);
    if s.len() > 0 {
        lemma_sorted_contents(o, after, s.drop_last());
        assert(contents(s.drop_last()) =~= v.drop_last());
        lemma_inserted_contents(o, after, sorted(o, s.drop_last()), s.last());
    } else {
        assert(contents(sorted(o, s)) =~= sorted_by(after, v));
    }
}

/// Sorting keeps the values, one for one.
pub proof fn law_sorted_by_same_values<V>(after: spec_fn(V, V) -> bool, s: Seq<V>)
    ensures
        sorted_by(after, s).to_multiset() == s.to_multiset(),
        sorted_by(after, s).len() == s.len(),
    decreases s.len(),
{
    broadcast use vstd::seq_lib::group_to_multiset_ensures;

    if s.len() > 0 {
        law_sorted_by_same_values(after, s.drop_last());
        lemma_inserted_by_multiset(after, sorted_by(after, s.drop_last()), s.last());
        let t = sorted_by(after, s.drop_last());
        assert(t.push(s.last()).to_multiset() == t.to_multiset().insert(s.last()));
        assert(s.drop_last().push(s.last()) =~= s);
    } else {
        assert(sorted_by(after, s) =~= s);
    }
}

/// Of two values, at most one belongs after the other, and what belongs after
/// neither of two neighbours follows both.
pub open spec fn is_weak_order_by<V>(after: spec_fn(V, V) -> bool) -> bool {
    &&& forall|a: V, b: V| #[trigger] after(a, b) ==> !after(b, a)
    &&& forall|a: V, b: V, c: V|
        !(#[trigger] after(a, b)) && !(#[trigger] after(b, c)) ==> !after(a, c)
}

/// No value belongs after one that comes behind it.
pub open spec fn in_order_by<V>(after: spec_fn(V, V) -> bool, s: Seq<V>) -> bool {
    forall|i: int, j: int| 0 <= i < j < s.len() ==> !after(#[trigger] s[i], #[trigger] s[j])
}

/// Inserting a value into values in order leaves them in order.
proof fn lemma_inserted_by_in_order<V>(after: spec_fn(V, V) -> bool, s: Seq<V>, x: V)
    requires
        is_weak_order_by(after),
        in_order_by(after, s),
    ensures
        in_order_by(after, inserted_by(after, s, x)),
    decreases s.len(),
{
    let r = inserted_by(after, s, x);
    if s.len() > 0 && after(s.last(), x) {
        let t = s.drop_last();
        assert forall|i: int, j: int| 0 <= i < j < t.len() implies !after(
            #[trigger] t[i],
            #[trigger] t[j],
        ) by {
            assert(!after(s[i], s[j]));
        }
        lemma_inserted_by_in_order(after, t, x);
        lemma_inserted_by_multiset(after, t, x);
        let u = inserted_by(after, t, x);
        assert forall|i: int, j: int| 0 <= i < j < r.len() implies !after(
            #[trigger] r[i],
            #[trigger] r[j],
        ) by {
            if j < u.len() {
                assert(!after(u[i], u[j]));
            } else {
                broadcast use vstd::seq_lib::group_to_multiset_ensures;

                assert(u.to_multiset().count(u[i]) > 0);
                assert(t.push(x).to_multiset().count(u[i]) > 0);
                assert(t.push(x).contains(u[i]));
                let p = choose|p: int| 0 <= p < t.push(x).len() && t.push(x)[p] == u[i];
                if p < t.len() {
                    assert(!after(s[p], s[s.len() - 1]));
                } else {
                    assert(u[i] == x);
                }
            }
        }
    } else {
        assert forall|i: int, j: int| 0 <= i < j < r.len() implies !after(
            #[trigger] r[i],
            #[trigger] r[j],
        ) by {
            if j < s.len() {
                assert(!after(s[i], s[j]));
            } else if i < s.len() - 1 {
                assert(!after(s[i], s[s.len() - 1]));
                assert(!after(s.last(), x));
            }
        }
    }
}

/// By an order that a sort can establish, sorted values are in order.
pub proof fn law_sorted_by_in_order<V>(after: spec_fn(V, V) -> bool, s: Seq<V>)
    requires
        is_weak_order_by(after),
    ensures
        in_order_by(after, sorted_by(after, s)),
    decreases s.len(),
{
    if s.len() > 0 {
        law_sorted_by_in_order(after, s.drop_last());
        lemma_inserted_by_in_order(after, sorted_by(after, s.drop_last()), s.last());
    }
}

/// Inserting keeps the values.
proof fn lemma_inserted_by_multiset<V>(after: spec_fn(V, V) -> bool, s: Seq<V>, x: V)
    ensures
        inserted_by(after, s, x).to_multiset() == s.push(x).to_multiset(),
        inserted_by(after, s, x).len() == s.len() + 1,
    decreases s.len(),
{
    broadcast use vstd::seq_lib::group_to_multiset_ensures;

    if s.len() > 0 && after(s.last(), x) {
        let front = s.drop_last();
        lemma_inserted_by_multiset(after, front, x);
        assert(front.push(s.last()) =~= s);
        assert(front.push(x).to_multiset() == front.to_multiset().insert(x));
        assert(inserted_by(after, s, x).to_multiset() =~= s.push(x).to_multiset());
    }
}

} // verus!
