//! Who is there, and who holds what: what each call makes of the agents and of the
//! locks of a project, said of the entries themselves.

use vstd::prelude::*;

use crate::error::{CoreError, ErrorView};
use crate::locks;
use crate::model::{AgentView, KeySource, LockView};
use crate::picking;
use crate::project::ProjectView;
use crate::project_laws;
use crate::registry;
use crate::sorting;
use crate::store;
use crate::store::{StoreView, Surface};
use crate::store_agents;
use crate::text;

verus! {

// ---------------------------------------------------------------------------
// Agents
// ---------------------------------------------------------------------------

/// Whether the agent with a key stands somewhere among those of a project.
pub open spec fn stands(known: Seq<(i64, AgentView)>, i: int, project: i64, key: Seq<char>) -> bool {
    0 <= i < known.len() && known[i].0 == project && known[i].1.key == key
}

/// The agent that is found under a key is the first that has it.
pub proof fn law_agent_is_found_by_key(
    known: Seq<(i64, AgentView)>,
    project: i64,
    key: Seq<char>,
)
    ensures
        match registry::agent_place(known, project, key) {
            Some(i) => stands(known, i, project, key) && registry::agent_of(known, project, key)
                == Some(known[i].1) && forall|k: int| 0 <= k < i ==> !stands(known, k, project, key),
            None => registry::agent_of(known, project, key) is None && forall|k: int|
                !stands(known, k, project, key),
        },
    decreases known.len(),
{
    if known.len() > 0 && !registry::is_agent(known[0], project, key) {
        let rest = known.drop_first();
        law_agent_is_found_by_key(rest, project, key);
        assert forall|k: int| #![trigger stands(known, k, project, key)] stands(
            known,
            k,
            project,
            key,
        ) implies k > 0 && stands(rest, k - 1, project, key) by {}
    }
}

/// Where agents stand once, each is found at its place.
proof fn lemma_agent_at(known: Seq<(i64, AgentView)>, project: i64, key: Seq<char>, i: int)
    requires
        registry::unique_agents(known),
        stands(known, i, project, key),
    ensures
        registry::agent_place(known, project, key) == Some(i),
{
    law_agent_is_found_by_key(known, project, key);
    let k = registry::agent_place(known, project, key)->0;
    if k < i {
        assert(known[k].0 == known[i].0 && known[k].1.key == known[i].1.key);
    }
    if i < k {
        assert(known[i].0 == known[k].0 && known[i].1.key == known[k].1.key);
    }
}

/// An agent that is heard for the first time comes behind the others, named by its
/// key, with no status, first and last seen now. One that is known is only seen
/// anew. No other agent changes.
pub proof fn law_hearing_an_agent(
    known: Seq<(i64, AgentView)>,
    project: i64,
    key: Seq<char>,
    source: KeySource,
    now: u64,
    i: int,
)
    requires
        registry::unique_agents(known),
    ensures
        (forall|k: int| !stands(known, k, project, key)) ==> registry::touched(
            known,
            project,
            key,
            source,
            now,
        ) == known + seq![
            (
                project,
                AgentView {
                    key,
                    name: key,
                    status: seq![],
                    key_source: source,
                    first_seen: now,
                    last_seen: now,
                },
            ),
        ],
        stands(known, i, project, key) ==> {
            let after = registry::touched(known, project, key, source, now);
            &&& after.len() == known.len()
            &&& after[i] == (project, AgentView { last_seen: now, ..known[i].1 })
            &&& forall|k: int| 0 <= k < known.len() && k != i ==> #[trigger] after[k] == known[k]
        },
{
    law_agent_is_found_by_key(known, project, key);
    if stands(known, i, project, key) {
        lemma_agent_at(known, project, key, i);
    } else if forall|k: int| !stands(known, k, project, key) {
        let after = registry::touched(known, project, key, source, now);
        assert(after =~= known + seq![after.last()]);
    }
}

/// An agent that says who it is has the name from then on, and the status where it
/// gives one. All else of it stays, and so do the others; one that is not known is
/// not made known by it.
pub proof fn law_naming_an_agent(
    known: Seq<(i64, AgentView)>,
    project: i64,
    key: Seq<char>,
    name: Seq<char>,
    status: Option<Seq<char>>,
    i: int,
)
    requires
        registry::unique_agents(known),
    ensures
        (forall|k: int| !stands(known, k, project, key)) ==> registry::identified(
            known,
            project,
            key,
            name,
            status,
        ) == known,
        stands(known, i, project, key) ==> {
            let after = registry::identified(known, project, key, name, status);
            &&& after.len() == known.len()
            &&& after[i].0 == project
            &&& after[i].1 == (AgentView { name, status: after[i].1.status, ..known[i].1 })
            &&& status is Some ==> after[i].1.status == status->0
            &&& status is None ==> after[i].1.status == known[i].1.status
            &&& forall|k: int| 0 <= k < known.len() && k != i ==> #[trigger] after[k] == known[k]
        },
{
    law_agent_is_found_by_key(known, project, key);
    if stands(known, i, project, key) {
        lemma_agent_at(known, project, key, i);
    }
}

/// Whether an agent is let go: it is a session and was not seen for a span.
pub open spec fn is_let_go(a: AgentView, now: u64, span: u64) -> bool {
    a.key_source == KeySource::Session && a.last_seen + span <= now
}

/// The sessions that were silent for the span are let go, and no others; those
/// that stay keep their order, and those that went are named in order.
pub proof fn law_silent_sessions_are_let_go(
    known: Seq<(i64, AgentView)>,
    project: Option<i64>,
    now: u64,
    span: u64,
) -> (r: (Seq<int>, Seq<int>))
    ensures
        ({
            let (stay, go) = r;
            let kept = registry::pruned(known, project, now, span);
            let gone = registry::silent(known, project, now, span);
            &&& picking::ascend(stay) && picking::ascend(go)
            &&& stay.len() == kept.len() && go.len() == gone.len()
            &&& forall|k: int|
                0 <= k < stay.len() ==> 0 <= (#[trigger] stay[k]) < known.len() && kept[k]
                    == known[stay[k]]
            &&& forall|k: int|
                0 <= k < go.len() ==> 0 <= (#[trigger] go[k]) < known.len() && gone[k] == (
                    known[go[k]].0,
                    known[go[k]].1.key,
                )
            &&& forall|i: int| #[trigger]
                go.contains(i) <==> 0 <= i < known.len() && is_let_go(known[i].1, now, span) && (
                project is None || project == Some(known[i].0))
            &&& forall|i: int| #[trigger]
                stay.contains(i) <==> 0 <= i < known.len() && !go.contains(i)
        }),
    decreases known.len(),
{
    if known.len() == 0 {
        (Seq::empty(), Seq::empty())
    } else {
        let front = known.drop_last();
        let n = known.len() - 1;
        let (stay0, go0) = law_silent_sessions_are_let_go(front, project, now, span);
        let goes = is_let_go(known[n].1, now, span) && (project is None || project == Some(
            known[n].0,
        ));
        assert(goes <==> registry::is_concerned(known.last(), project) && registry::is_silent(
            known.last().1,
            now,
            span,
        ));
        let stay = if goes {
            stay0
        } else {
            stay0.push(n)
        };
        let go = if goes {
            go0.push(n)
        } else {
            go0
        };
        let kept0 = registry::pruned(front, project, now, span);
        let gone0 = registry::silent(front, project, now, span);
        let kept = registry::pruned(known, project, now, span);
        let gone = registry::silent(known, project, now, span);
        lemma_grown(stay0, n);
        lemma_grown(go0, n);
        assert forall|k: int| 0 <= k < stay.len() implies 0 <= (#[trigger] stay[k]) < known.len()
            && kept[k] == known[stay[k]] by {
            if k < stay0.len() {
                assert(stay0[k] == stay[k]);
                assert(front[stay0[k]] == known[stay[k]]);
                assert(kept0[k] == kept[k]);
            }
        }
        assert forall|k: int| 0 <= k < go.len() implies 0 <= (#[trigger] go[k]) < known.len()
            && gone[k] == (known[go[k]].0, known[go[k]].1.key) by {
            if k < go0.len() {
                assert(go0[k] == go[k]);
                assert(front[go0[k]] == known[go[k]]);
                assert(gone0[k] == gone[k]);
            }
        }
        assert forall|i: int| #[trigger] go.contains(i) <==> 0 <= i < known.len() && is_let_go(
            known[i].1,
            now,
            span,
        ) && (project is None || project == Some(known[i].0)) by {
            picking::lemma_push_holds(go0, n, i);
            let _ = go0.contains(i);
            if 0 <= i < front.len() {
                assert(front[i] == known[i]);
            }
        }
        assert forall|i: int| #[trigger] stay.contains(i) <==> 0 <= i < known.len()
            && !go.contains(i) by {
            picking::lemma_push_holds(go0, n, i);
            picking::lemma_push_holds(stay0, n, i);
            let _ = stay0.contains(i);
            let _ = go0.contains(i);
            if go0.contains(n) {
                let k = choose|k: int| 0 <= k < go0.len() && go0[k] == n;
                assert(0 <= go0[k] < front.len());
            }
        }
        (stay, go)
    }
}

/// Places that ascend, with one more behind them.
pub proof fn lemma_grown(at: Seq<int>, n: int)
    requires
        picking::ascend(at),
        forall|k: int| 0 <= k < at.len() ==> (#[trigger] at[k]) < n,
    ensures
        picking::ascend(at.push(n)),
{
    let more = at.push(n);
    assert forall|i: int, j: int| 0 <= i < j < more.len() implies (#[trigger] more[i]) < (
    #[trigger] more[j]) by {
        assert(at[i] == more[i]);
        if j < at.len() {
            assert(at[j] == more[j]);
        }
    }
}

/// The agents of a project are listed in the order in which they were first seen,
/// and by their keys where that is the same; those of other projects are not.
pub proof fn law_agents_are_listed(known: Seq<(i64, AgentView)>, project: i64)
    ensures
        forall|a: AgentView| #[trigger]
            registry::listed(known, project).contains(a) <==> known.contains((project, a)),
        registry::listed(known, project).len() == known.filter(
            |e: (i64, AgentView)| e.0 == project,
        ).len(),
        forall|i: int, j: int|
            0 <= i < j < registry::listed(known, project).len() ==> {
                let a = #[trigger] registry::listed(known, project)[i];
                let b = #[trigger] registry::listed(known, project)[j];
                a.first_seen < b.first_seen || (a.first_seen == b.first_seen && !text::precedes(
                    b.key,
                    a.key,
                ))
            },
{
    let after = |a: AgentView, b: AgentView| registry::agent_after(a, b);
    let all = registry::agents_in(known, project);
    sorting::law_sorted_by_same_values(after, all);
    lemma_agent_order();
    sorting::law_sorted_by_in_order(after, all);
    let out = registry::listed(known, project);
    lemma_agents_in(known, project);
    broadcast use vstd::seq_lib::group_to_multiset_ensures;

    assert forall|i: int, j: int| 0 <= i < j < out.len() implies {
        let a = #[trigger] out[i];
        let b = #[trigger] out[j];
        a.first_seen < b.first_seen || (a.first_seen == b.first_seen && !text::precedes(
            b.key,
            a.key,
        ))
    } by {
        assert(!after(out[i], out[j]));
    }
    assert forall|a: AgentView| #[trigger] out.contains(a) <==> known.contains((project, a)) by {
        assert(out.contains(a) <==> out.to_multiset().count(a) > 0);
        assert(all.contains(a) <==> all.to_multiset().count(a) > 0);
    }
}

/// Agents can be put in order.
proof fn lemma_agent_order()
    ensures
        sorting::is_weak_order_by(|a: AgentView, b: AgentView| registry::agent_after(a, b)),
{
    let after = |a: AgentView, b: AgentView| registry::agent_after(a, b);
    assert forall|a: AgentView, b: AgentView| #[trigger] after(a, b) implies !after(b, a) by {
        text::lemma_precedes_total(a.key, b.key);
    }
    assert forall|a: AgentView, b: AgentView, c: AgentView|
        !(#[trigger] after(a, b)) && !(#[trigger] after(b, c)) implies !after(a, c) by {
        text::lemma_precedes_total(a.key, b.key);
        text::lemma_precedes_total(b.key, c.key);
        text::lemma_precedes_total(a.key, c.key);
        if text::precedes(a.key, b.key) && text::precedes(b.key, c.key) {
            text::lemma_precedes_trans(a.key, b.key, c.key);
        }
    }
}

/// The agents of a project are those entries.
proof fn lemma_agents_in(known: Seq<(i64, AgentView)>, project: i64)
    ensures
        forall|a: AgentView| #[trigger]
            registry::agents_in(known, project).contains(a) <==> known.contains((project, a)),
        registry::agents_in(known, project).len() == known.filter(
            |e: (i64, AgentView)| e.0 == project,
        ).len(),
    decreases known.len(),
{
    let keep = |e: (i64, AgentView)| e.0 == project;
    reveal(Seq::filter);
    if known.len() > 0 {
        let front = known.drop_last();
        lemma_agents_in(front, project);
        let before = registry::agents_in(front, project);
        assert(front.push(known.last()) =~= known);
        assert forall|a: AgentView| #[trigger]
            registry::agents_in(known, project).contains(a) <==> known.contains((project, a)) by {
            picking::lemma_push_holds(before, known.last().1, a);
            picking::lemma_push_holds(front, known.last(), (project, a));
            let _ = before.contains(a);
        }
    }
}

/// An agent counts as connected for the span after it was last seen; as many are
/// counted as there are, in all and in each project.
pub proof fn law_connected_agents_are_counted(
    known: Seq<(i64, AgentView)>,
    project: i64,
    now: u64,
    span: u64,
)
    ensures
        registry::active_count(known, now, span) == known.filter(
            |e: (i64, AgentView)| now <= e.1.last_seen + span,
        ).len(),
        registry::active_in(known, project, now, span) == known.filter(
            |e: (i64, AgentView)| e.0 == project && now <= e.1.last_seen + span,
        ).len(),
    decreases known.len(),
{
    reveal(Seq::filter);
    if known.len() > 0 {
        law_connected_agents_are_counted(known.drop_last(), project, now, span);
    }
}

// ---------------------------------------------------------------------------
// Locks
// ---------------------------------------------------------------------------

/// Whether the lock of a name stands somewhere among those of a project.
pub open spec fn is_held(held: Seq<(i64, LockView)>, i: int, project: i64, name: Seq<char>) -> bool {
    0 <= i < held.len() && held[i].0 == project && held[i].1.name == name
}

/// The lock that is found under a name is the first that has it.
proof fn lemma_lock_at(held: Seq<(i64, LockView)>, project: i64, name: Seq<char>, i: int)
    ensures
        match locks::lock_place(held, project, name) {
            Some(k) => is_held(held, k, project, name),
            None => forall|k: int| !is_held(held, k, project, name),
        },
        locks::unique_locks(held) && is_held(held, i, project, name) ==> locks::lock_place(
            held,
            project,
            name,
        ) == Some(i),
    decreases held.len(),
{
    if held.len() > 0 && !locks::is_lock(held[0], project, name) {
        let rest = held.drop_first();
        lemma_lock_at(rest, project, name, i - 1);
        assert forall|k: int| #![trigger is_held(held, k, project, name)] is_held(
            held,
            k,
            project,
            name,
        ) implies k > 0 && is_held(rest, k - 1, project, name) by {}
        if locks::unique_locks(held) {
            assert forall|a: int, b: int| 0 <= a < b < rest.len() implies !((
            #[trigger] rest[a]).0 == (#[trigger] rest[b]).0 && rest[a].1.name == rest[b].1.name) by {
                assert(!(held[a + 1].0 == held[b + 1].0 && held[a + 1].1.name == held[b
                    + 1].1.name));
            }
        }
    } else if held.len() > 0 && locks::unique_locks(held) && is_held(held, i, project, name) && i
        > 0 {
        assert(!(held[0].0 == held[i].0 && held[0].1.name == held[i].1.name));
    }
}

/// A lock that is free is taken: it is held by the key, with the note, from now.
/// One that the key holds keeps its moment, and its note unless another is given.
/// One that another holds stays as it is, and the answer names that holder. No
/// other lock changes.
pub proof fn law_acquiring(
    held: Seq<(i64, LockView)>,
    project: i64,
    key: Seq<char>,
    name: Seq<char>,
    note: Option<Seq<char>>,
    now: u64,
    i: int,
)
    requires
        locks::unique_locks(held),
    ensures
        (forall|k: int| !is_held(held, k, project, name)) ==> {
            &&& locks::in_the_way(held, project, key, name) is None
            &&& locks::acquired(held, project, key, name, note, now) == held + seq![
                (
                    project,
                    LockView {
                        name,
                        holder_key: key,
                        holder_name: seq![],
                        note: if note is Some {
                            note->0
                        } else {
                            seq![]
                        },
                        acquired_at: now,
                    },
                ),
            ]
        },
        is_held(held, i, project, name) && held[i].1.holder_key != key ==> {
            &&& locks::in_the_way(held, project, key, name) == Some(held[i].1.holder_key)
            &&& locks::acquired(held, project, key, name, note, now) == held
        },
        is_held(held, i, project, name) && held[i].1.holder_key == key ==> {
            let after = locks::acquired(held, project, key, name, note, now);
            &&& locks::in_the_way(held, project, key, name) is None
            &&& after.len() == held.len()
            &&& after[i].0 == project
            &&& after[i].1 == (LockView { note: after[i].1.note, ..held[i].1 })
            &&& note is Some ==> after[i].1.note == note->0
            &&& note is None ==> after[i].1.note == held[i].1.note
            &&& forall|k: int| 0 <= k < held.len() && k != i ==> #[trigger] after[k] == held[k]
        },
{
    lemma_lock_at(held, project, name, i);
    if forall|k: int| !is_held(held, k, project, name) {
        if locks::lock_place(held, project, name) is Some {
            assert(is_held(held, locks::lock_place(held, project, name)->0, project, name));
        }
        let after = locks::acquired(held, project, key, name, note, now);
        assert(after =~= held + seq![after.last()]);
    }
}

/// A lock is released by its holder, and by nobody else; the other locks stay, in
/// their order. To release what is free changes nothing.
pub proof fn law_releasing(
    held: Seq<(i64, LockView)>,
    project: i64,
    key: Seq<char>,
    name: Seq<char>,
    i: int,
)
    requires
        locks::unique_locks(held),
    ensures
        (forall|k: int| !is_held(held, k, project, name)) ==> locks::released(
            held,
            project,
            key,
            name,
        ) == held,
        is_held(held, i, project, name) && held[i].1.holder_key != key ==> locks::released(
            held,
            project,
            key,
            name,
        ) == held,
        is_held(held, i, project, name) && held[i].1.holder_key == key ==> locks::released(
            held,
            project,
            key,
            name,
        ) == held.take(i) + held.skip(i + 1),
{
    lemma_lock_at(held, project, name, i);
    if is_held(held, i, project, name) && held[i].1.holder_key == key {
        assert(held.remove(i) =~= held.take(i) + held.skip(i + 1));
    } else if forall|k: int| !is_held(held, k, project, name) {
        if locks::lock_place(held, project, name) is Some {
            assert(is_held(held, locks::lock_place(held, project, name)->0, project, name));
        }
    }
}

/// Who leaves gives back all that it holds in the project, and nothing else is
/// given back.
pub proof fn law_leaving_gives_back_all(
    held: Seq<(i64, LockView)>,
    project: i64,
    key: Seq<char>,
) -> (at: Seq<int>)
    ensures
        ({
            let after = locks::without_holder(held, project, key);
            &&& picking::ascend(at)
            &&& at.len() == after.len()
            &&& forall|k: int|
                0 <= k < at.len() ==> 0 <= (#[trigger] at[k]) < held.len() && after[k] == held[at[k]]
            &&& forall|i: int| #[trigger]
                at.contains(i) <==> 0 <= i < held.len() && !(held[i].0 == project
                    && held[i].1.holder_key == key)
        }),
    decreases held.len(),
{
    if held.len() == 0 {
        Seq::empty()
    } else {
        let front = held.drop_last();
        let n = held.len() - 1;
        let at0 = law_leaving_gives_back_all(front, project, key);
        let out0 = locks::without_holder(front, project, key);
        let out = locks::without_holder(held, project, key);
        let at = if held[n].0 == project && held[n].1.holder_key == key {
            at0
        } else {
            at0.push(n)
        };
        lemma_grown(at0, n);
        assert forall|k: int| 0 <= k < at.len() implies 0 <= (#[trigger] at[k]) < held.len()
            && out[k] == held[at[k]] by {
            if k < at0.len() {
                assert(at0[k] == at[k]);
                assert(front[at0[k]] == held[at[k]]);
                assert(out0[k] == out[k]);
            }
        }
        assert forall|i: int| #[trigger] at.contains(i) <==> 0 <= i < held.len() && !(held[i].0
            == project && held[i].1.holder_key == key) by {
            picking::lemma_push_holds(at0, n, i);
            let _ = at0.contains(i);
            if 0 <= i < front.len() {
                assert(front[i] == held[i]);
            }
        }
        at
    }
}

/// The locks of those that went are given back, whichever project they were in,
/// and no others.
pub proof fn law_sweep_gives_back_locks(
    held: Seq<(i64, LockView)>,
    gone: Seq<(i64, Seq<char>)>,
    project: i64,
    keys: Seq<Seq<char>>,
    e: (i64, LockView),
)
    ensures
        store_agents::without_gone(held, gone).contains(e) <==> held.contains(e) && !gone.contains(
            (e.0, e.1.holder_key),
        ),
        store_agents::without_holders(held, project, keys).contains(e) <==> held.contains(e) && !(
        e.0 == project && keys.contains(e.1.holder_key)),
    decreases gone.len() + keys.len(),
{
    if gone.len() > 0 {
        let rest = gone.drop_last();
        law_sweep_gives_back_locks(held, rest, project, Seq::empty(), e);
        let before = store_agents::without_gone(held, rest);
        lemma_given_back(before, gone.last().0, gone.last().1, e);
        assert(rest.push(gone.last()) =~= gone);
        picking::lemma_push_holds(rest, gone.last(), (e.0, e.1.holder_key));
    }
    if keys.len() > 0 {
        let rest = keys.drop_last();
        law_sweep_gives_back_locks(held, Seq::empty(), project, rest, e);
        let before = store_agents::without_holders(held, project, rest);
        lemma_given_back(before, project, keys.last(), e);
        assert(rest.push(keys.last()) =~= keys);
        picking::lemma_push_holds(rest, keys.last(), e.1.holder_key);
    }
}

/// An entry stays unless it is held by who leaves.
proof fn lemma_given_back(
    held: Seq<(i64, LockView)>,
    project: i64,
    key: Seq<char>,
    e: (i64, LockView),
)
    ensures
        locks::without_holder(held, project, key).contains(e) <==> held.contains(e) && !(e.0
            == project && e.1.holder_key == key),
{
    let at = law_leaving_gives_back_all(held, project, key);
    let out = locks::without_holder(held, project, key);
    if out.contains(e) {
        let x = choose|x: int| 0 <= x < out.len() && out[x] == e;
        assert(at.contains(at[x]));
        assert(held[at[x]] == e);
    }
    if held.contains(e) && !(e.0 == project && e.1.holder_key == key) {
        let y = choose|y: int| 0 <= y < held.len() && held[y] == e;
        assert(at.contains(y));
        let x = choose|x: int| 0 <= x < at.len() && at[x] == y;
        assert(out[x] == e);
    }
}

/// A lock is shown with the name of the agent that holds it, or with its key where
/// that agent is not known; all else is shown as it is held.
pub proof fn law_locks_name_their_holder(s: StoreView, project: i64, i: int)
    requires
        0 <= i < locks::listed(s.locks, project).len(),
    ensures
        ({
            let l = locks::listed(s.locks, project)[i];
            let shown = store_agents::locks_shown(s, project);
            &&& shown.len() == locks::listed(s.locks, project).len()
            &&& shown[i] == (LockView { holder_name: shown[i].holder_name, ..l })
            &&& (forall|k: int| !stands(s.agents, k, project, l.holder_key))
                ==> shown[i].holder_name == l.holder_key
            &&& forall|k: int|
                registry::unique_agents(s.agents) && #[trigger] stands(
                    s.agents,
                    k,
                    project,
                    l.holder_key,
                ) ==> shown[i].holder_name == s.agents[k].1.name
        }),
{
    let l = locks::listed(s.locks, project)[i];
    law_agent_is_found_by_key(s.agents, project, l.holder_key);
    assert forall|k: int|
        registry::unique_agents(s.agents) && #[trigger] stands(
            s.agents,
            k,
            project,
            l.holder_key,
        ) implies store_agents::locks_shown(s, project)[i].holder_name == s.agents[k].1.name by {
        lemma_agent_at(s.agents, project, l.holder_key, k);
    }
}

/// Sessions are let go after half an hour of silence, and count as connected for
/// five seconds after they were last seen.
pub proof fn law_spans_of_presence()
    ensures
        store_agents::AGENT_MAX_IDLE == 30 * 60 * 1_000_000_000,
        store_agents::ACTIVE_PRESENCE == 5 * 1_000_000_000,
{
}

// ---------------------------------------------------------------------------
// Coming and going
// ---------------------------------------------------------------------------

/// Whether an agent of a project is let go after half an hour of silence.
pub open spec fn is_overdue(e: (i64, AgentView), project: i64, now: u64) -> bool {
    e.0 == project && is_let_go(e.1, now, 1_800_000_000_000)
}

/// Whether a lock of a project is held by an agent that is let go.
pub open spec fn is_forfeit(
    known: Seq<(i64, AgentView)>,
    l: (i64, LockView),
    project: i64,
    now: u64,
) -> bool {
    l.0 == project && exists|i: int|
        0 <= i < known.len() && is_overdue(#[trigger] known[i], project, now) && known[i].1.key
            == l.1.holder_key
}

/// With each call on a project the agents that are overdue in it go, and with them
/// the locks that they hold there; nothing else changes. It is shown again where
/// anybody went.
pub proof fn law_overdue_agents_go(s: StoreView, project: i64, now: u64, l: (i64, LockView))
    ensures
        ({
            let after = store_agents::without_silent(s, project, now);
            let shown = store_agents::silent_shown(s, project, now);
            let any = exists|i: int|
                0 <= i < s.agents.len() && is_overdue(#[trigger] s.agents[i], project, now);
            &&& after == (StoreView { agents: after.agents, locks: after.locks, ..s })
            &&& after.agents == s.agents.filter(
                |e: (i64, AgentView)| !is_overdue(e, project, now),
            )
            &&& after.locks.contains(l) <==> s.locks.contains(l) && !is_forfeit(
                s.agents,
                l,
                project,
                now,
            )
            &&& any ==> shown.len() > 0 && shown[0] == Surface::Agents
            &&& !any ==> shown.len() == 0 && after.locks == s.locks
            &&& shown.contains(Surface::Locks) ==> after.locks.len() < s.locks.len()
            &&& any && after.locks.len() < s.locks.len() ==> shown == seq![
                Surface::Agents,
                Surface::Locks,
            ]
        }),
{
    let span = store_agents::AGENT_MAX_IDLE;
    let after = store_agents::without_silent(s, project, now);
    let (stay, go) = law_silent_sessions_are_let_go(s.agents, Some(project), now, span);
    let gone = registry::silent(s.agents, Some(project), now, span);
    let keys = registry::keys_of(gone);
    law_sweep_gives_back_locks(s.locks, gone, project, keys, l);
    lemma_pruned_is_filter(s.agents, project, now);
    if keys.contains(l.1.holder_key) && l.0 == project {
        let k = choose|k: int| 0 <= k < keys.len() && keys[k] == l.1.holder_key;
        assert(go.contains(go[k]));
        assert(is_overdue(s.agents[go[k]], project, now));
        assert(gone[k].1 == l.1.holder_key);
    }
    if is_forfeit(s.agents, l, project, now) {
        let i = choose|i: int|
            0 <= i < s.agents.len() && is_overdue(#[trigger] s.agents[i], project, now)
                && s.agents[i].1.key == l.1.holder_key;
        assert(go.contains(i));
        let k = choose|k: int| 0 <= k < go.len() && go[k] == i;
        assert(keys[k] == gone[k].1);
        assert(keys.contains(l.1.holder_key));
    }
    if gone.len() > 0 {
        assert(go.contains(go[0]));
        assert(is_overdue(s.agents[go[0]], project, now));
    }
    if exists|i: int| 0 <= i < s.agents.len() && is_overdue(#[trigger] s.agents[i], project, now) {
        let i = choose|i: int|
            0 <= i < s.agents.len() && is_overdue(#[trigger] s.agents[i], project, now);
        assert(go.contains(i));
    }
    assert(keys.len() == gone.len());
}

/// Those that stay are those that are not overdue.
proof fn lemma_pruned_is_filter(known: Seq<(i64, AgentView)>, project: i64, now: u64)
    ensures
        registry::pruned(known, Some(project), now, 1_800_000_000_000) == known.filter(
            |e: (i64, AgentView)| !is_overdue(e, project, now),
        ),
    decreases known.len(),
{
    reveal(Seq::filter);
    if known.len() > 0 {
        lemma_pruned_is_filter(known.drop_last(), project, now);
    }
}

/// A call of an agent makes it known or seen anew; its project is shown again where
/// it was not known, or where another went.
pub proof fn law_calling_makes_known(
    s: StoreView,
    project: i64,
    key: Seq<char>,
    source: KeySource,
    now: u64,
)
    ensures
        ({
            let heard = store_agents::heard(s, project, key, source, now);
            let shown = store_agents::heard_shown(s, project, key, source, now);
            let known = exists|i: int| stands(s.agents, i, project, key);
            let quiet = store_agents::silent_shown(heard, project, now).len() == 0;
            &&& heard == (StoreView { agents: heard.agents, ..s })
            &&& heard.agents == registry::touched(s.agents, project, key, source, now)
            &&& known && quiet ==> shown.len() == 0
            &&& !known && quiet ==> shown == seq![Surface::Agents]
            &&& !quiet ==> shown == store_agents::silent_shown(heard, project, now)
        }),
{
    law_agent_is_found_by_key(s.agents, project, key);
    if registry::agent_place(s.agents, project, key) is Some {
        assert(stands(s.agents, registry::agent_place(s.agents, project, key)->0, project, key));
    }
}

/// The answer of a lock that is taken names its holder by the name that the agent
/// gave itself, or by its key where it is not known.
pub proof fn law_holder_is_named(
    s: StoreView,
    project: i64,
    key: Seq<char>,
    name: Seq<char>,
    i: int,
    k: int,
)
    requires
        registry::unique_agents(s.agents),
        locks::unique_locks(s.locks),
    ensures
        ({
            let told = store_agents::name_in_the_way(s, project, key, name);
            let l = s.locks[i].1;
            &&& (forall|j: int| !is_held(s.locks, j, project, name)) ==> told is None
            &&& is_held(s.locks, i, project, name) && l.holder_key == key ==> told is None
            &&& is_held(s.locks, i, project, name) && l.holder_key != key && stands(
                s.agents,
                k,
                project,
                l.holder_key,
            ) ==> told == Some(s.agents[k].1.name)
            &&& is_held(s.locks, i, project, name) && l.holder_key != key && (forall|j: int|
                !stands(s.agents, j, project, l.holder_key)) ==> told == Some(l.holder_key)
        }),
{
    lemma_lock_at(s.locks, project, name, i);
    if locks::lock_place(s.locks, project, name) is Some {
        let at = locks::lock_place(s.locks, project, name)->0;
        assert(is_held(s.locks, at, project, name));
        let h = s.locks[at].1.holder_key;
        law_agent_is_found_by_key(s.agents, project, h);
        if registry::agent_place(s.agents, project, h) is Some {
            assert(stands(s.agents, registry::agent_place(s.agents, project, h)->0, project, h));
        }
        if stands(s.agents, k, project, h) {
            lemma_agent_at(s.agents, project, h, k);
        }
    }
}

/// A sweep of all projects lets go of every session that was silent for half an
/// hour, with its locks, and shows each project that lost one, once.
pub proof fn law_sweep_goes_over_all_projects(s: StoreView, now: u64, l: (i64, LockView), p: i64)
    ensures
        ({
            let after = store_agents::without_all_silent(s, now);
            let gone = registry::silent(s.agents, None, now, store_agents::AGENT_MAX_IDLE);
            &&& after == (StoreView { agents: after.agents, locks: after.locks, ..s })
            &&& after.agents == registry::pruned(s.agents, None, now, 1_800_000_000_000)
            &&& after.locks.contains(l) <==> s.locks.contains(l) && !is_forfeit(
                s.agents,
                l,
                l.0,
                now,
            )
            &&& store_agents::each_once(gone).no_duplicates()
            &&& store_agents::each_once(gone).contains(p) <==> exists|i: int|
                0 <= i < s.agents.len() && is_overdue(#[trigger] s.agents[i], p, now)
        }),
{
    let span = store_agents::AGENT_MAX_IDLE;
    let (stay, go) = law_silent_sessions_are_let_go(s.agents, None, now, span);
    let gone = registry::silent(s.agents, None, now, span);
    law_sweep_gives_back_locks(s.locks, gone, 0, Seq::empty(), l);
    lemma_each_once(gone, p);
    let who = (l.0, l.1.holder_key);
    if gone.contains(who) {
        let k = choose|k: int| 0 <= k < gone.len() && gone[k] == who;
        assert(go.contains(go[k]));
        assert(is_overdue(s.agents[go[k]], l.0, now));
    }
    if is_forfeit(s.agents, l, l.0, now) {
        let i = choose|i: int|
            0 <= i < s.agents.len() && is_overdue(#[trigger] s.agents[i], l.0, now)
                && s.agents[i].1.key == l.1.holder_key;
        assert(go.contains(i));
        let k = choose|k: int| 0 <= k < go.len() && go[k] == i;
        assert(gone[k] == who);
    }
    if exists|k: int| 0 <= k < gone.len() && (#[trigger] gone[k]).0 == p {
        let k = choose|k: int| 0 <= k < gone.len() && (#[trigger] gone[k]).0 == p;
        assert(go.contains(go[k]));
        assert(is_overdue(s.agents[go[k]], p, now));
    }
    if exists|i: int| 0 <= i < s.agents.len() && is_overdue(#[trigger] s.agents[i], p, now) {
        let i = choose|i: int|
            0 <= i < s.agents.len() && is_overdue(#[trigger] s.agents[i], p, now);
        assert(go.contains(i));
        let k = choose|k: int| 0 <= k < go.len() && go[k] == i;
        assert(gone[k].0 == p);
    }
}

/// Each project stands once.
proof fn lemma_each_once(gone: Seq<(i64, Seq<char>)>, p: i64)
    ensures
        store_agents::each_once(gone).no_duplicates(),
        store_agents::each_once(gone).contains(p) <==> exists|k: int|
            0 <= k < gone.len() && (#[trigger] gone[k]).0 == p,
    decreases gone.len(),
{
    if gone.len() > 0 {
        let front = gone.drop_last();
        let n = gone.len() - 1;
        lemma_each_once(front, p);
        lemma_each_once(front, gone[n].0);
        let before = store_agents::each_once(front);
        picking::lemma_push_holds(before, gone[n].0, p);
        if exists|k: int| 0 <= k < front.len() && (#[trigger] front[k]).0 == p {
            let k = choose|k: int| 0 <= k < front.len() && (#[trigger] front[k]).0 == p;
            assert(gone[k].0 == p);
        }
        if exists|k: int| 0 <= k < gone.len() && (#[trigger] gone[k]).0 == p {
            let k = choose|k: int| 0 <= k < gone.len() && (#[trigger] gone[k]).0 == p;
            if k < n {
                assert(front[k].0 == p);
            }
        }
        assert(gone[n] == gone.last());
    }
}

/// What an operation on the agents or the locks of a project comes to: where it
/// changes nothing that is shown, it is done; where the project is there, it is done
/// and shown again; where it is not, the error says so.
pub proof fn law_operations_are_shown<T>(
    r: Result<T, CoreError>,
    s: StoreView,
    project: i64,
    what: Seq<Surface>,
    after: StoreView,
)
    requires
        store_agents::lands(r, s, project, what, after),
    ensures
        what.len() == 0 ==> r is Ok && after == s,
        what.len() > 0 && s.has(project) ==> r is Ok && after == (StoreView {
            pending: after.pending,
            ..s
        }) && after.pending == s.pending + Seq::new(what.len(), |i: int| (project, what[i])),
        what.len() > 0 && !s.has(project) ==> r is Err && r->Err_0@ == ErrorView::ProjectNotFound(
            project,
        ) && after == s,
{
    if what.len() > 0 && s.has(project) {
        assert(after.pending =~= s.pending + Seq::new(what.len(), |i: int| (project, what[i])));
    }
}

/// What an operation on a project comes to: its value is what was asked for, no
/// other project changes, and what was named is shown again; where it is refused,
/// nothing changes.
pub proof fn law_operation_settles<T>(
    r: Result<T, CoreError>,
    want: Result<ProjectView, ErrorView>,
    at: int,
    what: Seq<Surface>,
    before: StoreView,
    after: StoreView,
)
    requires
        before.wf(),
        0 <= at < before.projects.len(),
        store::settles(r, want, before.projects[at].id, what, before, after),
    ensures
        r is Ok <==> want is Ok,
        want is Err ==> r->Err_0@ == want->Err_0 && after == before,
        want is Ok ==> {
            &&& after == (StoreView {
                projects: after.projects,
                pending: after.pending,
                ..before
            })
            &&& after.projects.len() == before.projects.len()
            &&& after.projects[at] == want->Ok_0
            &&& forall|k: int|
                0 <= k < before.projects.len() && k != at ==> #[trigger] after.projects[k]
                    == before.projects[k]
            &&& after.pending == before.pending + Seq::new(
                what.len(),
                |i: int| (before.projects[at].id, what[i]),
            )
        },
{
    project_laws::lemma_project_place(before.projects, at);
    if want is Ok {
        assert(after.pending =~= before.pending + Seq::new(
            what.len(),
            |i: int| (before.projects[at].id, what[i]),
        ));
    }
}

} // verus!
