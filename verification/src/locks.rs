//! Advisory locks: named claims, each held by one agent, kept apart by
//! project. Nothing enforces them; agents cooperate.

use vstd::prelude::*;
use vstd::string::*;

use crate::model;
use crate::model::{Lock, LockView};
use crate::sorting;
use crate::sorting::Order;
use crate::text;

verus! {

/// A lock and its project.
#[derive(Debug)]
pub struct Held {
    pub project: i64,
    pub lock: Lock,
}

impl View for Held {
    type V = (i64, LockView);

    open spec fn view(&self) -> (i64, LockView) {
        (self.project, self.lock@)
    }
}

/// The locks that are held.
#[derive(Debug)]
pub struct Locks {
    held: Vec<Held>,
}

impl View for Locks {
    type V = Seq<(i64, LockView)>;

    closed spec fn view(&self) -> Seq<(i64, LockView)> {
        sorting::contents(self.held@)
    }
}

/// Whether an entry is the lock of a project with a name.
pub open spec fn is_lock(e: (i64, LockView), project: i64, name: Seq<char>) -> bool {
    e.0 == project && e.1.name == name
}

/// The place of a lock.
pub open spec fn lock_place(held: Seq<(i64, LockView)>, project: i64, name: Seq<char>) -> Option<int>
    decreases held.len(),
{
    if held.len() == 0 {
        None
    } else if is_lock(held[0], project, name) {
        Some(0int)
    } else {
        match lock_place(held.drop_first(), project, name) {
            Some(i) => Some(i + 1),
            None => None,
        }
    }
}

/// Who holds a lock.
pub open spec fn holder(held: Seq<(i64, LockView)>, project: i64, name: Seq<char>) -> Option<
    Seq<char>,
> {
    match lock_place(held, project, name) {
        Some(i) => Some(held[i].1.holder_key),
        None => None,
    }
}

/// The claims after an agent asked for a lock: a free one is taken, one's own
/// gets the new note, and another's stays as it is.
pub open spec fn acquired(
    held: Seq<(i64, LockView)>,
    project: i64,
    key: Seq<char>,
    name: Seq<char>,
    note: Option<Seq<char>>,
    now: u64,
) -> Seq<(i64, LockView)> {
    match lock_place(held, project, name) {
        Some(i) => if held[i].1.holder_key != key || note is None {
            held
        } else {
            held.update(i, (held[i].0, LockView { note: note->0, ..held[i].1 }))
        },
        None => held.push(
            (
                project,
                LockView {
                    name,
                    holder_key: key,
                    holder_name: seq![],
                    note: match note {
                        Some(n) => n,
                        None => seq![],
                    },
                    acquired_at: now,
                },
            ),
        ),
    }
}

/// Who is in the way of an agent.
pub open spec fn in_the_way(
    held: Seq<(i64, LockView)>,
    project: i64,
    key: Seq<char>,
    name: Seq<char>,
) -> Option<Seq<char>> {
    match holder(held, project, name) {
        Some(h) => if h != key {
            Some(h)
        } else {
            None
        },
        None => None,
    }
}

/// The claims after an agent gave a lock back: only its own goes.
pub open spec fn released(
    held: Seq<(i64, LockView)>,
    project: i64,
    key: Seq<char>,
    name: Seq<char>,
) -> Seq<(i64, LockView)> {
    match lock_place(held, project, name) {
        Some(i) => if held[i].1.holder_key != key {
            held
        } else {
            held.remove(i)
        },
        None => held,
    }
}

/// The claims without those of an agent in a project.
pub open spec fn without_holder(
    held: Seq<(i64, LockView)>,
    project: i64,
    key: Seq<char>,
) -> Seq<(i64, LockView)>
    decreases held.len(),
{
    if held.len() == 0 {
        seq![]
    } else if held.last().0 == project && held.last().1.holder_key == key {
        without_holder(held.drop_last(), project, key)
    } else {
        without_holder(held.drop_last(), project, key).push(held.last())
    }
}

/// The locks of a project.
pub open spec fn locks_in(held: Seq<(i64, LockView)>, project: i64) -> Seq<LockView>
    decreases held.len(),
{
    if held.len() == 0 {
        seq![]
    } else if held.last().0 == project {
        locks_in(held.drop_last(), project).push(held.last().1)
    } else {
        locks_in(held.drop_last(), project)
    }
}

/// Whether a lock is listed after another: by when it was taken, then by name.
pub open spec fn lock_after(a: LockView, b: LockView) -> bool {
    a.acquired_at > b.acquired_at || (a.acquired_at == b.acquired_at && text::precedes(
        b.name,
        a.name,
    ))
}

/// The locks of a project in the order in which they are listed.
pub open spec fn listed(held: Seq<(i64, LockView)>, project: i64) -> Seq<LockView> {
    sorting::sorted_by(|a: LockView, b: LockView| lock_after(a, b), locks_in(held, project))
}

/// Whether locks are listed as those of a project are: each before those behind
/// it, by when it was taken and then by name; each once; and none with the name
/// of its holder.
pub open spec fn is_lock_list(list: Seq<LockView>) -> bool {
    &&& forall|i: int, j: int|
        0 <= i < j < list.len() ==> lock_after(#[trigger] list[j], #[trigger] list[i])
    &&& forall|i: int, j: int|
        0 <= i < j < list.len() ==> (#[trigger] list[i]).name != (#[trigger] list[j]).name
    &&& forall|i: int| 0 <= i < list.len() ==> (#[trigger] list[i]).holder_name.len() == 0
}

/// No lock stands twice.
pub open spec fn unique_locks(held: Seq<(i64, LockView)>) -> bool {
    forall|i: int, j: int|
        0 <= i < j < held.len() ==> !((#[trigger] held[i]).0 == (#[trigger] held[j]).0 && held[i].1.name
            == held[j].1.name)
}

/// The claims are sound: no lock stands twice, and none names its holder, whose
/// name only the registry knows.
pub open spec fn are_sound(held: Seq<(i64, LockView)>) -> bool {
    &&& unique_locks(held)
    &&& forall|i: int| 0 <= i < held.len() ==> (#[trigger] held[i]).1.holder_name.len() == 0
}

/// What a search finds is the lock; where it finds none, there is none.
pub proof fn lemma_lock_place(held: Seq<(i64, LockView)>, project: i64, name: Seq<char>)
    ensures
        match lock_place(held, project, name) {
            Some(i) => 0 <= i < held.len() && is_lock(held[i], project, name) && forall|j: int|
                0 <= j < i ==> !is_lock(#[trigger] held[j], project, name),
            None => forall|j: int|
                0 <= j < held.len() ==> !is_lock(#[trigger] held[j], project, name),
        },
    decreases held.len(),
{
    if held.len() > 0 && !is_lock(held[0], project, name) {
        let rest = held.drop_first();
        lemma_lock_place(rest, project, name);
        assert forall|j: int| 0 < j < held.len() implies #[trigger] held[j] == rest[j - 1] by {}
    }
}

/// A lock has one holder: asking for it gives it to the asker where it is
/// free, and leaves it with its holder where it is not. Asking keeps every
/// lock unique.
pub proof fn law_lock_is_exclusive(
    held: Seq<(i64, LockView)>,
    project: i64,
    key: Seq<char>,
    name: Seq<char>,
    note: Option<Seq<char>>,
    now: u64,
)
    requires
        unique_locks(held),
    ensures
        ({
            let after = acquired(held, project, key, name, note, now);
            &&& unique_locks(after)
            &&& holder(after, project, name) == (match holder(held, project, name) {
                Some(h) => Some(h),
                None => Some(key),
            })
        }),
{
    let after = acquired(held, project, key, name, note, now);
    lemma_lock_place(held, project, name);
    lemma_lock_place(after, project, name);
    match lock_place(held, project, name) {
        Some(i) => {
            assert(is_lock(after[i], project, name));
            assert forall|a: int, b: int| 0 <= a < b < after.len() implies !((
            #[trigger] after[a]).0 == (#[trigger] after[b]).0 && after[a].1.name
                == after[b].1.name) by {
                assert(after[a].0 == held[a].0 && after[a].1.name == held[a].1.name);
                assert(after[b].0 == held[b].0 && after[b].1.name == held[b].1.name);
            }
            if let Some(j) = lock_place(after, project, name) {
                if j < i {
                    assert(after[j].0 == held[j].0 && after[j].1.name == held[j].1.name);
                    assert(is_lock(held[j], project, name));
                }
                assert(j == i);
            }
        },
        None => {
            let n = held.len() as int;
            assert(is_lock(after[n], project, name));
            assert forall|a: int, b: int| 0 <= a < b < after.len() implies !((
            #[trigger] after[a]).0 == (#[trigger] after[b]).0 && after[a].1.name
                == after[b].1.name) by {
                assert(after[a] == held[a]);
                assert(!is_lock(held[a], project, name));
                if b < n {
                    assert(after[b] == held[b]);
                }
            }
            if let Some(j) = lock_place(after, project, name) {
                if j < n {
                    assert(after[j] == held[j]);
                    assert(is_lock(held[j], project, name));
                }
            }
        },
    }
}

/// Asking for a lock changes no other lock, of this project or another.
pub proof fn law_locks_are_isolated(
    held: Seq<(i64, LockView)>,
    project: i64,
    key: Seq<char>,
    name: Seq<char>,
    note: Option<Seq<char>>,
    now: u64,
    other: i64,
    lock: Seq<char>,
)
    requires
        other != project || lock != name,
    ensures
        holder(acquired(held, project, key, name, note, now), other, lock) == holder(
            held,
            other,
            lock,
        ),
{
    let after = acquired(held, project, key, name, note, now);
    lemma_lock_place(held, project, name);
    lemma_lock_place(held, other, lock);
    lemma_lock_place(after, other, lock);
    assert forall|j: int| 0 <= j < held.len() implies is_lock(#[trigger] after[j], other, lock)
        == is_lock(held[j], other, lock) && after[j].1.holder_key == held[j].1.holder_key by {}
    if after.len() > held.len() {
        assert(!is_lock(after[held.len() as int], other, lock));
    }
    match (lock_place(held, other, lock), lock_place(after, other, lock)) {
        (Some(a), Some(b)) => {
            if a < b {
                assert(is_lock(after[a], other, lock));
            }
            if b < a {
                assert(is_lock(after[b], other, lock));
            }
        },
        (Some(a), None) => {
            assert(is_lock(after[a], other, lock));
        },
        (None, Some(b)) => {
            assert(is_lock(after[b], other, lock));
        },
        (None, None) => {},
    }
}

/// A lock that its holder gave back is free; one that another holds is not
/// touched.
pub proof fn law_release_frees(
    held: Seq<(i64, LockView)>,
    project: i64,
    key: Seq<char>,
    name: Seq<char>,
)
    requires
        unique_locks(held),
    ensures
        holder(released(held, project, key, name), project, name) == in_the_way(
            held,
            project,
            key,
            name,
        ),
{
    let after = released(held, project, key, name);
    lemma_lock_place(held, project, name);
    lemma_lock_place(after, project, name);
    if let Some(i) = lock_place(held, project, name) {
        if held[i].1.holder_key == key {
            if let Some(j) = lock_place(after, project, name) {
                if j < i {
                    assert(after[j] == held[j]);
                } else {
                    assert(after[j] == held[j + 1]);
                    assert(is_lock(held[j + 1], project, name));
                    assert(held[i].0 == held[j + 1].0);
                }
            }
        }
    }
}

/// An agent that is gone holds nothing in the project.
pub proof fn law_gone_holds_nothing(
    held: Seq<(i64, LockView)>,
    project: i64,
    key: Seq<char>,
    i: int,
)
    ensures
        0 <= i < without_holder(held, project, key).len() ==> !(without_holder(
            held,
            project,
            key,
        )[i].0 == project && without_holder(held, project, key)[i].1.holder_key == key),
        without_holder(held, project, key).len() <= held.len(),
    decreases held.len(),
{
    if held.len() > 0 {
        law_gone_holds_nothing(held.drop_last(), project, key, i);
    }
}

/// What is left of the claims was there before.
proof fn lemma_left_were_held(held: Seq<(i64, LockView)>, project: i64, key: Seq<char>)
    ensures
        forall|i: int|
            0 <= i < without_holder(held, project, key).len() ==> held.contains(
                #[trigger] without_holder(held, project, key)[i],
            ),
    decreases held.len(),
{
    if held.len() > 0 {
        let less = held.drop_last();
        lemma_left_were_held(less, project, key);
        let before = without_holder(less, project, key);
        let after = without_holder(held, project, key);
        assert forall|i: int| 0 <= i < after.len() implies held.contains(#[trigger] after[i]) by {
            if i < before.len() {
                assert(after[i] == before[i]);
                let k = choose|k: int| 0 <= k < less.len() && less[k] == before[i];
                assert(held[k] == after[i]);
            } else {
                assert(held[held.len() - 1] == after[i]);
            }
        }
    }
}

/// A lock stands once, also after locks were given back.
pub proof fn law_locks_stand_once(
    held: Seq<(i64, LockView)>,
    project: i64,
    key: Seq<char>,
    name: Seq<char>,
)
    requires
        unique_locks(held),
    ensures
        unique_locks(released(held, project, key, name)),
        unique_locks(without_holder(held, project, key)),
    decreases held.len(),
{
    lemma_lock_place(held, project, name);
    if let Some(i) = lock_place(held, project, name) {
        let after = held.remove(i);
        assert forall|a: int, b: int| 0 <= a < b < after.len() implies !((#[trigger] after[a]).0
            == (#[trigger] after[b]).0 && after[a].1.name == after[b].1.name) by {
            let x = if a < i {
                a
            } else {
                a + 1
            };
            let y = if b < i {
                b
            } else {
                b + 1
            };
            assert(after[a] == held[x] && after[b] == held[y]);
        }
    }
    if held.len() > 0 {
        let less = held.drop_last();
        assert forall|a: int, b: int| 0 <= a < b < less.len() implies !((#[trigger] less[a]).0 == (
        #[trigger] less[b]).0 && less[a].1.name == less[b].1.name) by {
            assert(!(held[a].0 == held[b].0 && held[a].1.name == held[b].1.name));
        }
        law_locks_stand_once(less, project, key, name);
        lemma_left_were_held(less, project, key);
        let before = without_holder(less, project, key);
        let after = without_holder(held, project, key);
        assert forall|a: int, b: int| 0 <= a < b < after.len() implies !((#[trigger] after[a]).0
            == (#[trigger] after[b]).0 && after[a].1.name == after[b].1.name) by {
            assert(after[a] == before[a]);
            if b < before.len() {
                assert(after[b] == before[b]);
                assert(!(before[a].0 == before[b].0 && before[a].1.name == before[b].1.name));
            } else {
                assert(less.contains(before[a]));
                let k = choose|k: int| 0 <= k < less.len() && less[k] == before[a];
                assert(held[k] == before[a]);
                assert(!(held[k].0 == held[held.len() - 1].0 && held[k].1.name == held[held.len()
                    - 1].1.name));
            }
        }
    }
}

/// Whatever is asked for and given back, the claims stay sound.
pub proof fn law_locks_stay_sound(
    held: Seq<(i64, LockView)>,
    project: i64,
    key: Seq<char>,
    name: Seq<char>,
    note: Option<Seq<char>>,
    now: u64,
)
    requires
        are_sound(held),
    ensures
        are_sound(acquired(held, project, key, name, note, now)),
        are_sound(released(held, project, key, name)),
        are_sound(without_holder(held, project, key)),
{
    law_lock_is_exclusive(held, project, key, name, note, now);
    law_locks_stand_once(held, project, key, name);
    lemma_lock_place(held, project, name);
    lemma_left_were_held(held, project, key);
    let taken = acquired(held, project, key, name, note, now);
    assert forall|i: int| 0 <= i < taken.len() implies (#[trigger] taken[i]).1.holder_name.len()
        == 0 by {
        if i < held.len() {
            assert(taken[i].1.holder_name == held[i].1.holder_name);
        }
    }
    let given = released(held, project, key, name);
    assert forall|i: int| 0 <= i < given.len() implies (#[trigger] given[i]).1.holder_name.len()
        == 0 by {
        if given.len() < held.len() {
            let at = lock_place(held, project, name)->0;
            assert(given[i] == if i < at {
                held[i]
            } else {
                held[i + 1]
            });
        }
    }
    let left = without_holder(held, project, key);
    assert forall|i: int| 0 <= i < left.len() implies (#[trigger] left[i]).1.holder_name.len()
        == 0 by {
        assert(held.contains(left[i]));
    }
}

/// The locks of a project are those that are held there.
proof fn lemma_locks_in(held: Seq<(i64, LockView)>, project: i64)
    ensures
        forall|l: LockView| #[trigger]
            locks_in(held, project).contains(l) <==> held.contains((project, l)),
    decreases held.len(),
{
    let out = locks_in(held, project);
    if held.len() > 0 {
        let front = held.drop_last();
        lemma_locks_in(front, project);
        let before = locks_in(front, project);
        assert(held =~= front.push(held.last()));
        assert forall|l: LockView| #[trigger] out.contains(l) <==> held.contains((project, l)) by {
            if out.contains(l) {
                let i = choose|i: int| 0 <= i < out.len() && out[i] == l;
                if i < before.len() {
                    assert(before[i] == l);
                    assert(before.contains(l));
                    let k = choose|k: int| 0 <= k < front.len() && front[k] == (project, l);
                    assert(held[k] == (project, l));
                } else {
                    assert(held[held.len() - 1] == (project, l));
                }
            }
            if held.contains((project, l)) {
                let k = choose|k: int| 0 <= k < held.len() && held[k] == (project, l);
                if k < front.len() {
                    assert(front[k] == (project, l));
                    assert(front.contains((project, l)));
                    assert(before.contains(l));
                    let i = choose|i: int| 0 <= i < before.len() && before[i] == l;
                    assert(out[i] == l);
                } else {
                    assert(out[out.len() - 1] == l);
                }
            }
        }
    }
}

/// No lock of a project stands twice among its locks.
proof fn lemma_locks_in_unique(held: Seq<(i64, LockView)>, project: i64)
    requires
        unique_locks(held),
    ensures
        forall|i: int, j: int|
            0 <= i < j < locks_in(held, project).len() ==> (#[trigger] locks_in(
                held,
                project,
            )[i]).name != (#[trigger] locks_in(held, project)[j]).name,
    decreases held.len(),
{
    if held.len() > 0 {
        let front = held.drop_last();
        assert forall|a: int, b: int| 0 <= a < b < front.len() implies !((#[trigger] front[a]).0
            == (#[trigger] front[b]).0 && front[a].1.name == front[b].1.name) by {
            assert(held[a] == front[a] && held[b] == front[b]);
        }
        lemma_locks_in_unique(front, project);
        lemma_locks_in(front, project);
        let before = locks_in(front, project);
        let out = locks_in(held, project);
        assert forall|i: int, j: int| 0 <= i < j < out.len() implies (#[trigger] out[i]).name != (
        #[trigger] out[j]).name by {
            assert(out[i] == before[i]);
            if j < before.len() {
                assert(out[j] == before[j]);
            } else {
                assert(before.contains(out[i]));
                let k = choose|k: int| 0 <= k < front.len() && front[k] == (project, out[i]);
                assert(held[k].0 == held[held.len() - 1].0);
            }
        }
    }
}

/// The order in which locks are listed is one that a sort can establish.
proof fn lemma_lock_order()
    ensures
        sorting::is_weak_order_by(|a: LockView, b: LockView| lock_after(a, b)),
{
    let after = |a: LockView, b: LockView| lock_after(a, b);
    assert forall|a: LockView, b: LockView| #[trigger] after(a, b) implies !after(b, a) by {
        text::lemma_precedes_total(a.name, b.name);
    }
    assert forall|a: LockView, b: LockView, c: LockView|
        !(#[trigger] after(a, b)) && !(#[trigger] after(b, c)) implies !after(a, c) by {
        text::lemma_precedes_total(a.name, b.name);
        text::lemma_precedes_total(b.name, c.name);
        text::lemma_precedes_total(a.name, c.name);
        if text::precedes(a.name, b.name) && text::precedes(b.name, c.name) {
            text::lemma_precedes_trans(a.name, b.name, c.name);
        }
    }
}

/// Of sound claims, the list of a project is a rearrangement of the locks that
/// are held there, which are each listed once. Each comes strictly before those
/// behind it, by when it was taken and then by name, and none names its holder.
pub proof fn law_locks_are_listed(held: Seq<(i64, LockView)>, project: i64)
    requires
        are_sound(held),
    ensures
        listed(held, project).to_multiset() == locks_in(held, project).to_multiset(),
        forall|l: LockView| #[trigger]
            listed(held, project).contains(l) <==> held.contains((project, l)),
        is_lock_list(listed(held, project)),
{
    let after = |a: LockView, b: LockView| lock_after(a, b);
    let inside = locks_in(held, project);
    let out = listed(held, project);
    lemma_lock_order();
    lemma_locks_in(held, project);
    lemma_locks_in_unique(held, project);
    sorting::law_sorted_by_same_values(after, inside);
    sorting::law_sorted_by_in_order(after, inside);
    broadcast use vstd::seq_lib::group_to_multiset_ensures;

    assert forall|l: LockView| #[trigger] out.contains(l) <==> held.contains((project, l)) by {
        assert(out.contains(l) <==> out.to_multiset().count(l) > 0);
        assert(inside.contains(l) <==> inside.to_multiset().count(l) > 0);
    }
    assert forall|i: int| 0 <= i < out.len() implies (#[trigger] out[i]).holder_name.len() == 0 by {
        assert(out.contains(out[i]));
        let k = choose|k: int| 0 <= k < held.len() && held[k] == (project, out[i]);
        assert(held[k].1.holder_name.len() == 0);
    }
    lemma_named_once(inside, out);
    assert forall|i: int, j: int| 0 <= i < j < out.len() implies lock_after(
        #[trigger] out[j],
        #[trigger] out[i],
    ) by {
        assert(!after(out[i], out[j]));
        text::lemma_precedes_total(out[i].name, out[j].name);
    }
}

/// Locks that are each named once are so in any order.
proof fn lemma_named_once(a: Seq<LockView>, b: Seq<LockView>)
    requires
        a.to_multiset() == b.to_multiset(),
        forall|i: int, j: int|
            0 <= i < j < a.len() ==> (#[trigger] a[i]).name != (#[trigger] a[j]).name,
    ensures
        forall|i: int, j: int|
            0 <= i < j < b.len() ==> (#[trigger] b[i]).name != (#[trigger] b[j]).name,
{
    broadcast use vstd::seq_lib::group_to_multiset_ensures;

    assert(a.no_duplicates());
    a.lemma_multiset_has_no_duplicates();
    assert forall|x: LockView| b.to_multiset().contains(x) implies #[trigger] b.to_multiset().count(
        x,
    ) == 1 by {
        assert(a.to_multiset().count(x) == 1);
    }
    b.lemma_multiset_has_no_duplicates_conv();
    assert forall|i: int, j: int| 0 <= i < j < b.len() implies (#[trigger] b[i]).name != (
    #[trigger] b[j]).name by {
        assert(b.to_multiset().count(b[i]) > 0 && b.to_multiset().count(b[j]) > 0);
        assert(a.contains(b[i]) && a.contains(b[j]));
        let x = choose|x: int| 0 <= x < a.len() && a[x] == b[i];
        let y = choose|y: int| 0 <= y < a.len() && a[y] == b[j];
        assert(b[i] != b[j]);
        if x < y {
            assert(a[x].name != a[y].name);
        } else {
            assert(a[y].name != a[x].name);
        }
    }
}

/// The order in which locks are listed.
struct ByTime;

impl Order<Lock> for ByTime {
    closed spec fn after(&self, a: Lock, b: Lock) -> bool {
        lock_after(a@, b@)
    }

    fn is_after(&self, a: &Lock, b: &Lock) -> (r: bool) {
        a.acquired_at > b.acquired_at || (a.acquired_at == b.acquired_at && text::before(
            b.name.as_str(),
            a.name.as_str(),
        ))
    }
}

impl Default for Locks {
    /// No locks.
    fn default() -> (l: Locks)
        ensures
            l@ == Seq::<(i64, LockView)>::empty(),
    {
        let l = Locks { held: Vec::new() };
        assert(l@ =~= Seq::<(i64, LockView)>::empty());
        l
    }
}

impl Locks {
    /// The claims are sound.
    #[verifier::type_invariant]
    spec fn holds_sound_claims(self) -> bool {
        are_sound(self@)
    }

    /// The place of a lock.
    fn find(&self, project: i64, name: &str) -> (r: Option<usize>)
        ensures
            text::opt_index(r) == lock_place(self@, project, name@),
            r matches Some(i) ==> i < self.held.len() && self.held@[i as int]@ == self@[i as int],
    {
        let ghost all = self@;
        let mut i: usize = 0;
        assert(all.skip(0) =~= all);
        while i < self.held.len()
            invariant
                i <= self.held.len(),
                all == self@,
                all == sorting::contents(self.held@),
                lock_place(all, project, name@) == (match lock_place(
                    all.skip(i as int),
                    project,
                    name@,
                ) {
                    Some(j) => Some(j + i),
                    None => None,
                }),
            decreases self.held.len() - i,
        {
            assert(all.skip(i as int)[0] == self.held@[i as int]@);
            if self.held[i].project == project && text::same(
                self.held[i].lock.name.as_str(),
                name,
            ) {
                return Some(i);
            }
            assert(all.skip(i as int).drop_first() =~= all.skip(i + 1));
            i += 1;
        }
        None
    }

    /// Asks for a lock on behalf of an agent. Returns who is in the way, if
    /// anyone is. Never blocks.
    pub fn acquire(
        &mut self,
        project: i64,
        key: &str,
        name: String,
        note: Option<String>,
        now: u64,
    ) -> (r: Option<String>)
        ensures
            final(self)@ == acquired(old(self)@, project, key@, name@, text::opt_text(note), now),
            text::opt_text(r) == in_the_way(old(self)@, project, key@, name@),
    {
        proof {
            use_type_invariant(&*self);
            law_locks_stay_sound(self@, project, key@, name@, text::opt_text(note), now);
        }
        match self.find(project, name.as_str()) {
            Some(i) => {
                if !text::same(self.held[i].lock.holder_key.as_str(), key) {
                    return Some(self.held[i].lock.holder_key.clone());
                }
                if let Some(note) = note {
                    let lock = &self.held[i].lock;
                    let changed = Held {
                        project: self.held[i].project,
                        lock: Lock {
                            name: lock.name.clone(),
                            holder_key: lock.holder_key.clone(),
                            holder_name: lock.holder_name.clone(),
                            note,
                            acquired_at: lock.acquired_at,
                        },
                    };
                    let mut held: Vec<Held> = Vec::new();
                    std::mem::swap(&mut held, &mut self.held);
                    held.set(i, changed);
                    assert(sorting::contents(held@) =~= acquired(
                        old(self)@,
                        project,
                        key@,
                        name@,
                        Some(note@),
                        now,
                    ));
                    self.held = held;
                }
                None
            },
            None => {
                let note = match note {
                    Some(note) => note,
                    None => String::new(),
                };
                let lock = Lock {
                    name,
                    holder_key: key.to_owned(),
                    holder_name: String::new(),
                    note,
                    acquired_at: now,
                };
                let mut held: Vec<Held> = Vec::new();
                std::mem::swap(&mut held, &mut self.held);
                held.push(Held { project, lock });
                assert(sorting::contents(held@) =~= old(self)@.push((project, lock@)));
                self.held = held;
                None
            },
        }
    }

    /// Gives a lock back on behalf of an agent. Returns who else holds it, if
    /// anyone does.
    pub fn release(&mut self, project: i64, key: &str, name: &str) -> (r: Option<String>)
        ensures
            final(self)@ == released(old(self)@, project, key@, name@),
            text::opt_text(r) == in_the_way(old(self)@, project, key@, name@),
    {
        proof {
            use_type_invariant(&*self);
            law_locks_stay_sound(self@, project, key@, name@, None, 0);
        }
        match self.find(project, name) {
            Some(i) => {
                if !text::same(self.held[i].lock.holder_key.as_str(), key) {
                    return Some(self.held[i].lock.holder_key.clone());
                }
                let mut held: Vec<Held> = Vec::new();
                std::mem::swap(&mut held, &mut self.held);
                held.remove(i);
                assert(sorting::contents(held@) =~= old(self)@.remove(i as int));
                self.held = held;
                None
            },
            None => None,
        }
    }

    /// Gives back every lock of an agent in a project. Returns how many.
    pub fn release_all(&mut self, project: i64, key: &str) -> (n: usize)
        ensures
            final(self)@ == without_holder(old(self)@, project, key@),
            n == old(self)@.len() - without_holder(old(self)@, project, key@).len(),
    {
        let ghost all = self@;
        let mut n: usize = 0;
        let mut kept: Vec<Held> = Vec::new();
        let count: usize = self.held.len();
        let mut i: usize = 0;
        assert(all.take(0) =~= seq![]);
        assert(sorting::contents(kept@) =~= seq![]);
        while i < count
            invariant
                i <= count,
                count == self.held.len(),
                n <= i,
                all == sorting::contents(self.held@),
                n + kept.len() == i,
                sorting::contents(kept@) == without_holder(all.take(i as int), project, key@),
            decreases count - i,
        {
            let ghost before = kept@;
            proof {
                assert(all.take(i + 1).drop_last() =~= all.take(i as int));
                assert(all.take(i + 1).last() == self.held@[i as int]@);
            }
            let h = &self.held[i];
            if h.project == project && text::same(h.lock.holder_key.as_str(), key) {
                n += 1;
            } else {
                let copy = Held { project: h.project, lock: h.lock.copy() };
                kept.push(copy);
                assert(sorting::contents(kept@) =~= sorting::contents(before).push(copy@));
            }
            i += 1;
        }
        proof {
            assert(all.take(i as int) =~= all);
            assert(sorting::contents(kept@).len() == kept.len());
            use_type_invariant(&*self);
            law_locks_stay_sound(all, project, key@, seq![], None, 0);
        }
        self.held = kept;
        n
    }

    /// The locks of a project, by when they were taken, then by name. Each is
    /// listed once, and whoever lists them resolves the names of the holders.
    pub fn list(&self, project: i64) -> (out: Vec<Lock>)
        ensures
            model::lock_views(out@) == listed(self@, project),
            forall|l: LockView| #[trigger]
                model::lock_views(out@).contains(l) <==> self@.contains((project, l)),
            is_lock_list(model::lock_views(out@)),
    {
        proof {
            use_type_invariant(self);
            law_locks_are_listed(self@, project);
        }
        let ghost all = self@;
        let mut out: Vec<Lock> = Vec::new();
        let mut i: usize = 0;
        assert(all.take(0) =~= seq![]);
        assert(sorting::contents(out@) =~= seq![]);
        while i < self.held.len()
            invariant
                i <= self.held.len(),
                all == sorting::contents(self.held@),
                sorting::contents(out@) == locks_in(all.take(i as int), project),
            decreases self.held.len() - i,
        {
            let ghost before = out@;
            proof {
                assert(all.take(i + 1).drop_last() =~= all.take(i as int));
                assert(all.take(i + 1).last() == self.held@[i as int]@);
            }
            if self.held[i].project == project {
                let lock = self.held[i].lock.copy();
                out.push(lock);
                assert(sorting::contents(out@) =~= sorting::contents(before).push(lock@));
            }
            i += 1;
        }
        assert(all.take(i as int) =~= all);
        proof {
            sorting::lemma_sorted_contents(
                &ByTime,
                |a: LockView, b: LockView| lock_after(a, b),
                out@,
            );
        }
        let ghost unsorted = out@;
        let sorted = sorting::sort(&ByTime, out);
        assert(model::lock_views(sorted@) =~= sorting::contents(sorted@));
        sorted
    }
}

} // verus!
