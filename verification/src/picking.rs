//! Picking elements out of a run: which ones, and in what order.

use vstd::prelude::*;

verus! {

/// Whether places ascend.
pub open spec fn ascend(at: Seq<int>) -> bool {
    forall|i: int, j: int| 0 <= i < j < at.len() ==> (#[trigger] at[i]) < (#[trigger] at[j])
}

/// Whether a run holds the elements of another one that stand at some places,
/// in the same order, and no others.
pub open spec fn picks<T>(s: Seq<T>, at: Seq<int>, out: Seq<T>) -> bool {
    &&& ascend(at)
    &&& at.len() == out.len()
    &&& forall|k: int| 0 <= k < at.len() ==> 0 <= (#[trigger] at[k]) < s.len() && out[k] == s[at[k]]
}

/// The places of what a filter keeps.
pub proof fn lemma_filter_places<T>(s: Seq<T>, keep: spec_fn(T) -> bool) -> (at: Seq<int>)
    ensures
        picks(s, at, s.filter(keep)),
        forall|i: int| #[trigger] at.contains(i) <==> 0 <= i < s.len() && keep(s[i]),
    decreases s.len(),
{
    reveal(Seq::filter);
    if s.len() == 0 {
        let at = Seq::<int>::empty();
        assert(s.filter(keep).len() == 0);
        at
    } else {
        let t = s.drop_last();
        let n = s.len() - 1;
        let before = lemma_filter_places(t, keep);
        if keep(s.last()) {
            let at = before.push(n);
            let out = s.filter(keep);
            assert(out == t.filter(keep).push(s.last()));
            assert forall|k: int| 0 <= k < at.len() implies 0 <= (#[trigger] at[k]) < s.len()
                && out[k] == s[at[k]] by {
                if k < before.len() {
                    assert(before[k] == at[k]);
                }
            }
            assert forall|i: int, j: int| 0 <= i < j < at.len() implies (#[trigger] at[i]) < (
            #[trigger] at[j]) by {
                assert(before[i] == at[i]);
                if j < before.len() {
                    assert(before[j] == at[j]);
                }
            }
            assert forall|i: int| #[trigger] at.contains(i) <==> 0 <= i < s.len() && keep(s[i]) by {
                lemma_push_holds(before, n, i);
                assert(before.contains(i) <==> 0 <= i < t.len() && keep(t[i]));
            }
            at
        } else {
            assert forall|k: int| 0 <= k < before.len() implies 0 <= (#[trigger] before[k])
                < s.len() && s.filter(keep)[k] == s[before[k]] by {}
            assert forall|i: int| #[trigger] before.contains(i) <==> 0 <= i < s.len() && keep(
                s[i],
            ) by {
                assert(before.contains(i) <==> 0 <= i < t.len() && keep(t[i]));
            }
            before
        }
    }
}

/// What a run with one element more holds.
pub proof fn lemma_push_holds<T>(s: Seq<T>, x: T, y: T)
    ensures
        s.push(x).contains(y) <==> s.contains(y) || y == x,
{
    if s.contains(y) {
        let k = choose|k: int| 0 <= k < s.len() && s[k] == y;
        assert(s.push(x)[k] == y);
    }
    assert(s.push(x)[s.len() as int] == x);
    if s.push(x).contains(y) {
        let k = choose|k: int| 0 <= k < s.push(x).len() && s.push(x)[k] == y;
        if k < s.len() {
            assert(s[k] == y);
        }
    }
}

} // verus!
