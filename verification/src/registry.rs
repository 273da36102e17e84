//! The agents that the daemon knows, kept apart by project. A declared agent
//! stays until it leaves; one that is known by its session only is forgotten
//! when it falls silent. Moments and durations are counted in nanoseconds.

use vstd::prelude::*;
use vstd::string::*;

use crate::model;
use crate::model::{Agent, AgentView, KeySource};
use crate::sorting;
use crate::sorting::Order;
use crate::text;

verus! {

/// An agent and its project.
#[derive(Debug)]
pub struct Known {
    pub project: i64,
    pub agent: Agent,
}

impl View for Known {
    type V = (i64, AgentView);

    open spec fn view(&self) -> (i64, AgentView) {
        (self.project, self.agent@)
    }
}

/// The agents that are known.
#[derive(Debug)]
pub struct Registry {
    known: Vec<Known>,
}

impl View for Registry {
    type V = Seq<(i64, AgentView)>;

    closed spec fn view(&self) -> Seq<(i64, AgentView)> {
        sorting::contents(self.known@)
    }
}

/// Whether an entry is the agent of a project with a key.
pub open spec fn is_agent(e: (i64, AgentView), project: i64, key: Seq<char>) -> bool {
    e.0 == project && e.1.key == key
}

/// The place of an agent.
pub open spec fn agent_place(known: Seq<(i64, AgentView)>, project: i64, key: Seq<char>) -> Option<
    int,
>
    decreases known.len(),
{
    if known.len() == 0 {
        None
    } else if is_agent(known[0], project, key) {
        Some(0int)
    } else {
        match agent_place(known.drop_first(), project, key) {
            Some(i) => Some(i + 1),
            None => None,
        }
    }
}

/// An agent of a project.
pub open spec fn agent_of(known: Seq<(i64, AgentView)>, project: i64, key: Seq<char>) -> Option<
    AgentView,
> {
    match agent_place(known, project, key) {
        Some(i) => Some(known[i].1),
        None => None,
    }
}

/// The agents after one was heard of: a new one is added, of a known one only
/// the moment is noted.
pub open spec fn touched(
    known: Seq<(i64, AgentView)>,
    project: i64,
    key: Seq<char>,
    source: KeySource,
    now: u64,
) -> Seq<(i64, AgentView)> {
    match agent_place(known, project, key) {
        Some(i) => known.update(i, (known[i].0, AgentView { last_seen: now, ..known[i].1 })),
        None => known.push(
            (
                project,
                AgentView {
                    key,
                    name: key,
                    status: seq![],
                    key_source: source,
                    first_seen: now,
                    last_seen: now,
                },
            ),
        ),
    }
}

/// The agents after one said who it is.
pub open spec fn identified(
    known: Seq<(i64, AgentView)>,
    project: i64,
    key: Seq<char>,
    name: Seq<char>,
    status: Option<Seq<char>>,
) -> Seq<(i64, AgentView)> {
    match agent_place(known, project, key) {
        Some(i) => known.update(
            i,
            (
                known[i].0,
                AgentView {
                    name,
                    status: match status {
                        Some(s) => s,
                        None => known[i].1.status,
                    },
                    ..known[i].1
                },
            ),
        ),
        None => known,
    }
}

/// Whether an agent has been silent for too long. A declared agent never is,
/// and a clock that went back tells nothing.
pub open spec fn is_silent(a: AgentView, now: u64, max_idle: u64) -> bool {
    a.key_source == KeySource::Session && now >= a.last_seen && now - a.last_seen >= max_idle
}

/// Whether pruning a project, or all, concerns an entry.
pub open spec fn is_concerned(e: (i64, AgentView), project: Option<i64>) -> bool {
    project is None || project == Some(e.0)
}

/// The agents that are not silent.
pub open spec fn pruned(
    known: Seq<(i64, AgentView)>,
    project: Option<i64>,
    now: u64,
    max_idle: u64,
) -> Seq<(i64, AgentView)>
    decreases known.len(),
{
    if known.len() == 0 {
        seq![]
    } else {
        let before = pruned(known.drop_last(), project, now, max_idle);
        if is_concerned(known.last(), project) && is_silent(known.last().1, now, max_idle) {
            before
        } else {
            before.push(known.last())
        }
    }
}

/// The projects and keys of the agents that are silent.
pub open spec fn silent(
    known: Seq<(i64, AgentView)>,
    project: Option<i64>,
    now: u64,
    max_idle: u64,
) -> Seq<(i64, Seq<char>)>
    decreases known.len(),
{
    if known.len() == 0 {
        seq![]
    } else {
        let before = silent(known.drop_last(), project, now, max_idle);
        if is_concerned(known.last(), project) && is_silent(known.last().1, now, max_idle) {
            before.push((known.last().0, known.last().1.key))
        } else {
            before
        }
    }
}

/// The keys of pairs.
pub open spec fn keys_of(pairs: Seq<(i64, Seq<char>)>) -> Seq<Seq<char>> {
    pairs.map_values(|p: (i64, Seq<char>)| p.1)
}

/// The contents of pairs.
pub open spec fn pair_views(v: Seq<(i64, String)>) -> Seq<(i64, Seq<char>)> {
    v.map_values(|p: (i64, String)| (p.0, p.1@))
}

/// The agents of a project.
pub open spec fn agents_in(known: Seq<(i64, AgentView)>, project: i64) -> Seq<AgentView>
    decreases known.len(),
{
    if known.len() == 0 {
        seq![]
    } else if known.last().0 == project {
        agents_in(known.drop_last(), project).push(known.last().1)
    } else {
        agents_in(known.drop_last(), project)
    }
}

/// Whether an agent is listed after another: by when it was first seen, then
/// by key.
pub open spec fn agent_after(a: AgentView, b: AgentView) -> bool {
    a.first_seen > b.first_seen || (a.first_seen == b.first_seen && text::precedes(b.key, a.key))
}

/// The agents of a project in the order in which they are listed.
pub open spec fn listed(known: Seq<(i64, AgentView)>, project: i64) -> Seq<AgentView> {
    sorting::sorted_by(|a: AgentView, b: AgentView| agent_after(a, b), agents_in(known, project))
}

/// Whether an agent was heard of lately. A clock that went back counts as
/// lately.
pub open spec fn is_active(a: AgentView, now: u64, within: u64) -> bool {
    now < a.last_seen || now - a.last_seen <= within
}

/// How many agents were heard of lately.
pub open spec fn active_count(known: Seq<(i64, AgentView)>, now: u64, within: u64) -> nat
    decreases known.len(),
{
    if known.len() == 0 {
        0
    } else {
        active_count(known.drop_last(), now, within) + (if is_active(known.last().1, now, within) {
            1nat
        } else {
            0nat
        })
    }
}

/// How many agents of a project were heard of lately.
pub open spec fn active_in(known: Seq<(i64, AgentView)>, project: i64, now: u64, within: u64) -> nat
    decreases known.len(),
{
    if known.len() == 0 {
        0
    } else {
        active_in(known.drop_last(), project, now, within) + (if known.last().0 == project
            && is_active(known.last().1, now, within) {
            1nat
        } else {
            0nat
        })
    }
}

/// Whether counts break the agents that were heard of lately down by project:
/// the projects go up, each has such agents and as many as its count says, and
/// no project with such agents is left out.
pub open spec fn breaks_down(
    known: Seq<(i64, AgentView)>,
    counts: Seq<(i64, usize)>,
    now: u64,
    within: u64,
) -> bool {
    &&& forall|i: int, j: int|
        0 <= i < j < counts.len() ==> (#[trigger] counts[i]).0 < (#[trigger] counts[j]).0
    &&& forall|i: int|
        0 <= i < counts.len() ==> (#[trigger] counts[i]).1 > 0 && counts[i].1 == active_in(
            known,
            counts[i].0,
            now,
            within,
        )
    &&& forall|p: i64|
        #[trigger] active_in(known, p, now, within) > 0 ==> exists|i: int|
            0 <= i < counts.len() && (#[trigger] counts[i]).0 == p
}

/// What counts add up to.
pub open spec fn total(counts: Seq<(i64, usize)>) -> nat
    decreases counts.len(),
{
    if counts.len() == 0 {
        0
    } else {
        total(counts.drop_last()) + counts.last().1 as nat
    }
}

/// How many agents of some projects were heard of lately.
spec fn active_among(known: Seq<(i64, AgentView)>, projects: Seq<i64>, now: u64, within: u64) -> nat
    decreases projects.len(),
{
    if projects.len() == 0 {
        0
    } else {
        active_among(known, projects.drop_last(), now, within) + active_in(
            known,
            projects.last(),
            now,
            within,
        )
    }
}

/// One agent more counts once, where its project is among different ones.
proof fn lemma_active_among_step(
    known: Seq<(i64, AgentView)>,
    projects: Seq<i64>,
    now: u64,
    within: u64,
)
    requires
        known.len() > 0,
        projects.no_duplicates(),
    ensures
        active_among(known, projects, now, within) == active_among(
            known.drop_last(),
            projects,
            now,
            within,
        ) + (if is_active(known.last().1, now, within) && projects.contains(known.last().0) {
            1nat
        } else {
            0nat
        }),
    decreases projects.len(),
{
    if projects.len() > 0 {
        let front = projects.drop_last();
        lemma_active_among_step(known, front, now, within);
        let p = known.last().0;
        assert(front.push(projects.last()) =~= projects);
        if front.contains(p) {
            let k = choose|k: int| 0 <= k < front.len() && front[k] == p;
            assert(projects[k] == p);
            assert(projects[projects.len() - 1] != p);
        } else if projects.contains(p) {
            let k = choose|k: int| 0 <= k < projects.len() && projects[k] == p;
            assert(k == front.len() || front[k] == p);
        }
        if projects.last() == p {
            assert(projects[projects.len() - 1] == p);
        }
    }
}

/// Different projects that all active agents belong to have all of them.
proof fn lemma_active_among_all(
    known: Seq<(i64, AgentView)>,
    projects: Seq<i64>,
    now: u64,
    within: u64,
)
    requires
        projects.no_duplicates(),
        forall|k: int|
            0 <= k < known.len() && is_active((#[trigger] known[k]).1, now, within)
                ==> projects.contains(known[k].0),
    ensures
        active_among(known, projects, now, within) == active_count(known, now, within),
    decreases known.len(),
{
    if known.len() == 0 {
        lemma_active_among_none(known, projects, now, within);
    } else {
        let front = known.drop_last();
        assert forall|k: int| 0 <= k < front.len() && is_active(
            (#[trigger] front[k]).1,
            now,
            within,
        ) implies projects.contains(front[k].0) by {
            assert(known[k] == front[k]);
        }
        lemma_active_among_all(front, projects, now, within);
        lemma_active_among_step(known, projects, now, within);
        assert(known[known.len() - 1] == known.last());
    }
}

/// Without agents there are none in any project.
proof fn lemma_active_among_none(
    known: Seq<(i64, AgentView)>,
    projects: Seq<i64>,
    now: u64,
    within: u64,
)
    requires
        known.len() == 0,
    ensures
        active_among(known, projects, now, within) == 0,
    decreases projects.len(),
{
    if projects.len() > 0 {
        lemma_active_among_none(known, projects.drop_last(), now, within);
    }
}

/// An active agent is one of its project.
proof fn lemma_active_is_counted(known: Seq<(i64, AgentView)>, k: int, now: u64, within: u64)
    requires
        0 <= k < known.len(),
        is_active(known[k].1, now, within),
    ensures
        active_in(known, known[k].0, now, within) > 0,
    decreases known.len(),
{
    if k < known.len() - 1 {
        lemma_active_is_counted(known.drop_last(), k, now, within);
    }
}

/// Counts are the numbers of the projects that they name.
proof fn lemma_total(
    known: Seq<(i64, AgentView)>,
    counts: Seq<(i64, usize)>,
    now: u64,
    within: u64,
)
    requires
        forall|i: int|
            0 <= i < counts.len() ==> (#[trigger] counts[i]).1 == active_in(
                known,
                counts[i].0,
                now,
                within,
            ),
    ensures
        total(counts) == active_among(
            known,
            counts.map_values(|c: (i64, usize)| c.0),
            now,
            within,
        ),
    decreases counts.len(),
{
    let projects = counts.map_values(|c: (i64, usize)| c.0);
    if counts.len() > 0 {
        let front = counts.drop_last();
        assert forall|i: int| 0 <= i < front.len() implies (#[trigger] front[i]).1 == active_in(
            known,
            front[i].0,
            now,
            within,
        ) by {
            assert(counts[i] == front[i]);
        }
        lemma_total(known, front, now, within);
        assert(projects.drop_last() =~= front.map_values(|c: (i64, usize)| c.0));
        assert(counts[counts.len() - 1] == counts.last());
    }
}

/// The counts by project add up to how many agents were heard of lately.
pub proof fn law_counts_add_up(
    known: Seq<(i64, AgentView)>,
    counts: Seq<(i64, usize)>,
    now: u64,
    within: u64,
)
    requires
        breaks_down(known, counts, now, within),
    ensures
        total(counts) == active_count(known, now, within),
{
    let projects = counts.map_values(|c: (i64, usize)| c.0);
    assert(projects.no_duplicates()) by {
        assert forall|i: int, j: int|
            0 <= i < projects.len() && 0 <= j < projects.len() && i != j implies projects[i]
            != projects[j] by {
            if i < j {
                assert(counts[i].0 < counts[j].0);
            } else {
                assert(counts[j].0 < counts[i].0);
            }
        }
    }
    assert forall|k: int| 0 <= k < known.len() && is_active(
        (#[trigger] known[k]).1,
        now,
        within,
    ) implies projects.contains(known[k].0) by {
        lemma_active_is_counted(known, k, now, within);
        let i = choose|i: int| 0 <= i < counts.len() && (#[trigger] counts[i]).0 == known[k].0;
        assert(projects[i] == known[k].0);
    }
    lemma_active_among_all(known, projects, now, within);
    lemma_total(known, counts, now, within);
}

/// The agents after the moment one was last seen was put back.
pub open spec fn backdated(
    known: Seq<(i64, AgentView)>,
    project: i64,
    key: Seq<char>,
    by: u64,
) -> Seq<(i64, AgentView)> {
    match agent_place(known, project, key) {
        Some(i) => known.update(
            i,
            (
                known[i].0,
                AgentView { last_seen: (known[i].1.last_seen - by) as u64, ..known[i].1 },
            ),
        ),
        None => known,
    }
}

/// No agent stands twice.
pub open spec fn unique_agents(known: Seq<(i64, AgentView)>) -> bool {
    forall|i: int, j: int|
        0 <= i < j < known.len() ==> !((#[trigger] known[i]).0 == (#[trigger] known[j]).0
            && known[i].1.key == known[j].1.key)
}

/// What a search finds is the agent; where it finds none, there is none.
pub proof fn lemma_agent_place(known: Seq<(i64, AgentView)>, project: i64, key: Seq<char>)
    ensures
        match agent_place(known, project, key) {
            Some(i) => 0 <= i < known.len() && is_agent(known[i], project, key) && forall|j: int|
                0 <= j < i ==> !is_agent(#[trigger] known[j], project, key),
            None => forall|j: int|
                0 <= j < known.len() ==> !is_agent(#[trigger] known[j], project, key),
        },
    decreases known.len(),
{
    if known.len() > 0 && !is_agent(known[0], project, key) {
        let rest = known.drop_first();
        lemma_agent_place(rest, project, key);
        assert forall|j: int| 0 < j < known.len() implies #[trigger] known[j] == rest[j - 1] by {}
    }
}

/// Another value for an agent keeps every agent once.
proof fn lemma_update_unique(known: Seq<(i64, AgentView)>, i: int, e: (i64, AgentView))
    requires
        unique_agents(known),
        0 <= i < known.len(),
        is_agent(e, known[i].0, known[i].1.key),
    ensures
        unique_agents(known.update(i, e)),
{
    let after = known.update(i, e);
    assert forall|a: int, b: int| 0 <= a < b < after.len() implies !((#[trigger] after[a]).0 == (
    #[trigger] after[b]).0 && after[a].1.key == after[b].1.key) by {
        assert(!(known[a].0 == known[b].0 && known[a].1.key == known[b].1.key));
    }
}

/// What is left of the agents was there before.
proof fn lemma_pruned_were_known(
    known: Seq<(i64, AgentView)>,
    project: Option<i64>,
    now: u64,
    max_idle: u64,
)
    ensures
        forall|i: int|
            0 <= i < pruned(known, project, now, max_idle).len() ==> known.contains(
                #[trigger] pruned(known, project, now, max_idle)[i],
            ),
    decreases known.len(),
{
    if known.len() > 0 {
        let less = known.drop_last();
        lemma_pruned_were_known(less, project, now, max_idle);
        let after = pruned(known, project, now, max_idle);
        assert forall|i: int| 0 <= i < after.len() implies known.contains(#[trigger] after[i]) by {
            let before = pruned(less, project, now, max_idle);
            if i < before.len() {
                assert(after[i] == before[i]);
                let k = choose|k: int| 0 <= k < less.len() && less[k] == before[i];
                assert(known[k] == after[i]);
            } else {
                assert(known[known.len() - 1] == after[i]);
            }
        }
    }
}

/// Forgetting silent agents keeps every agent once.
proof fn lemma_pruned_unique(
    known: Seq<(i64, AgentView)>,
    project: Option<i64>,
    now: u64,
    max_idle: u64,
)
    requires
        unique_agents(known),
    ensures
        unique_agents(pruned(known, project, now, max_idle)),
    decreases known.len(),
{
    if known.len() > 0 {
        let less = known.drop_last();
        let before = pruned(less, project, now, max_idle);
        let after = pruned(known, project, now, max_idle);
        assert forall|a: int, b: int| 0 <= a < b < less.len() implies !((#[trigger] less[a]).0 == (
        #[trigger] less[b]).0 && less[a].1.key == less[b].1.key) by {
            assert(!(known[a].0 == known[b].0 && known[a].1.key == known[b].1.key));
        }
        lemma_pruned_unique(less, project, now, max_idle);
        lemma_pruned_were_known(less, project, now, max_idle);
        assert forall|a: int, b: int| 0 <= a < b < after.len() implies !((#[trigger] after[a]).0
            == (#[trigger] after[b]).0 && after[a].1.key == after[b].1.key) by {
            assert(after[a] == before[a]);
            if b < before.len() {
                assert(after[b] == before[b]);
                assert(!(before[a].0 == before[b].0 && before[a].1.key == before[b].1.key));
            } else {
                assert(less.contains(before[a]));
                let k = choose|k: int| 0 <= k < less.len() && less[k] == before[a];
                assert(known[k] == before[a]);
                assert(!(known[k].0 == known[known.len() - 1].0 && known[k].1.key
                    == known[known.len() - 1].1.key));
            }
        }
    }
}

/// A project has one agent of a key: whoever comes, goes, speaks or falls
/// silent.
pub proof fn law_agents_stand_once(
    known: Seq<(i64, AgentView)>,
    project: i64,
    key: Seq<char>,
    source: KeySource,
    name: Seq<char>,
    status: Option<Seq<char>>,
    among: Option<i64>,
    now: u64,
    span: u64,
    i: int,
)
    requires
        unique_agents(known),
    ensures
        unique_agents(touched(known, project, key, source, now)),
        unique_agents(identified(known, project, key, name, status)),
        unique_agents(pruned(known, among, now, span)),
        unique_agents(backdated(known, project, key, span)),
        0 <= i < known.len() ==> unique_agents(known.remove(i)),
{
    lemma_agent_place(known, project, key);
    lemma_pruned_unique(known, among, now, span);
    match agent_place(known, project, key) {
        Some(k) => {
            lemma_update_unique(
                known,
                k,
                (known[k].0, AgentView { last_seen: now, ..known[k].1 }),
            );
            lemma_update_unique(
                known,
                k,
                (
                    known[k].0,
                    AgentView { last_seen: (known[k].1.last_seen - span) as u64, ..known[k].1 },
                ),
            );
            lemma_update_unique(known, k, identified(known, project, key, name, status)[k]);
        },
        None => {
            let after = touched(known, project, key, source, now);
            assert forall|a: int, b: int| 0 <= a < b < after.len() implies !((#[trigger] after[a]).0
                == (#[trigger] after[b]).0 && after[a].1.key == after[b].1.key) by {
                assert(after[a] == known[a]);
                if b < known.len() {
                    assert(after[b] == known[b]);
                } else {
                    assert(!is_agent(known[a], project, key));
                }
            }
        },
    }
    if 0 <= i < known.len() {
        let after = known.remove(i);
        assert forall|a: int, b: int| 0 <= a < b < after.len() implies !((#[trigger] after[a]).0
            == (#[trigger] after[b]).0 && after[a].1.key == after[b].1.key) by {
            let x = if a < i {
                a
            } else {
                a + 1
            };
            let y = if b < i {
                b
            } else {
                b + 1
            };
            assert(after[a] == known[x] && after[b] == known[y]);
        }
    }
}

/// An agent that was heard of is known, and how it was first known stays: a
/// declared agent is declared for good.
pub proof fn law_source_stays(
    known: Seq<(i64, AgentView)>,
    project: i64,
    key: Seq<char>,
    source: KeySource,
    now: u64,
)
    ensures
        ({
            let after = agent_of(touched(known, project, key, source, now), project, key);
            &&& after is Some
            &&& after->0.last_seen == now
            &&& after->0.key_source == (match agent_of(known, project, key) {
                Some(a) => a.key_source,
                None => source,
            })
        }),
{
    let after = touched(known, project, key, source, now);
    lemma_agent_place(known, project, key);
    lemma_agent_place(after, project, key);
    match agent_place(known, project, key) {
        Some(i) => {
            assert(is_agent(after[i], project, key));
            if let Some(j) = agent_place(after, project, key) {
                if j < i {
                    assert(after[j] == known[j]);
                }
            }
        },
        None => {
            assert(is_agent(after[known.len() as int], project, key));
            if let Some(j) = agent_place(after, project, key) {
                if j < known.len() {
                    assert(after[j] == known[j]);
                }
            }
        },
    }
}

/// A declared agent is never pruned, however long it is silent.
pub proof fn law_declared_stay(
    known: Seq<(i64, AgentView)>,
    project: Option<i64>,
    now: u64,
    max_idle: u64,
    e: (i64, AgentView),
)
    requires
        known.contains(e),
        e.1.key_source == KeySource::Declared,
    ensures
        pruned(known, project, now, max_idle).contains(e),
    decreases known.len(),
{
    let i = choose|i: int| 0 <= i < known.len() && known[i] == e;
    let before = pruned(known.drop_last(), project, now, max_idle);
    let after = pruned(known, project, now, max_idle);
    if i < known.len() - 1 {
        assert(known.drop_last()[i] == e);
        law_declared_stay(known.drop_last(), project, now, max_idle, e);
        let k = choose|k: int| 0 <= k < before.len() && before[k] == e;
        assert(after[k] == e);
    } else {
        assert(after[before.len() as int] == e);
    }
}

/// Pruning a project leaves the agents of the others alone.
pub proof fn law_pruning_is_isolated(
    known: Seq<(i64, AgentView)>,
    project: i64,
    other: i64,
    now: u64,
    max_idle: u64,
)
    requires
        other != project,
    ensures
        agents_in(pruned(known, Some(project), now, max_idle), other) == agents_in(known, other),
    decreases known.len(),
{
    if known.len() > 0 {
        law_pruning_is_isolated(known.drop_last(), project, other, now, max_idle);
        let before = pruned(known.drop_last(), Some(project), now, max_idle);
        assert(before.push(known.last()).drop_last() =~= before);
    }
}

/// The order in which agents are listed.
struct BySight;

impl Order<Agent> for BySight {
    closed spec fn after(&self, a: Agent, b: Agent) -> bool {
        agent_after(a@, b@)
    }

    fn is_after(&self, a: &Agent, b: &Agent) -> (r: bool) {
        a.first_seen > b.first_seen || (a.first_seen == b.first_seen && text::before(
            b.key.as_str(),
            a.key.as_str(),
        ))
    }
}

impl Default for Registry {
    /// Nobody is known.
    fn default() -> (r: Registry)
        ensures
            r@ == Seq::<(i64, AgentView)>::empty(),
    {
        let r = Registry { known: Vec::new() };
        assert(r@ =~= Seq::<(i64, AgentView)>::empty());
        r
    }
}

/// Whether an agent has been silent for too long.
fn silent_for(a: &Agent, now: u64, max_idle: u64) -> (r: bool)
    ensures
        r == is_silent(a@, now, max_idle),
{
    a.key_source == KeySource::Session && now >= a.last_seen && now - a.last_seen >= max_idle
}

/// Whether an agent was heard of lately.
fn active_now(a: &Agent, now: u64, within: u64) -> (r: bool)
    ensures
        r == is_active(a@, now, within),
{
    now < a.last_seen || now - a.last_seen <= within
}

impl Registry {
    /// The place of an agent.
    fn find(&self, project: i64, key: &str) -> (r: Option<usize>)
        ensures
            text::opt_index(r) == agent_place(self@, project, key@),
            r matches Some(i) ==> i < self.known.len() && self.known@[i as int]@ == self@[i as int],
    {
        let ghost all = self@;
        let mut i: usize = 0;
        assert(all.skip(0) =~= all);
        while i < self.known.len()
            invariant
                i <= self.known.len(),
                all == self@,
                all == sorting::contents(self.known@),
                agent_place(all, project, key@) == (match agent_place(
                    all.skip(i as int),
                    project,
                    key@,
                ) {
                    Some(j) => Some(j + i),
                    None => None,
                }),
            decreases self.known.len() - i,
        {
            assert(all.skip(i as int)[0] == self.known@[i as int]@);
            if self.known[i].project == project && text::same(
                self.known[i].agent.key.as_str(),
                key,
            ) {
                return Some(i);
            }
            assert(all.skip(i as int).drop_first() =~= all.skip(i + 1));
            i += 1;
        }
        None
    }

    /// An agent was heard of. Returns whether it is new.
    pub fn touch(&mut self, project: i64, key: &str, source: KeySource, now: u64) -> (new: bool)
        ensures
            final(self)@ == touched(old(self)@, project, key@, source, now),
            new == (agent_place(old(self)@, project, key@) is None),
    {
        match self.find(project, key) {
            Some(i) => {
                let mut agent = self.known[i].agent.copy();
                agent.last_seen = now;
                let owner: i64 = self.known[i].project;
                self.known.set(i, Known { project: owner, agent });
                assert(self@ =~= touched(old(self)@, project, key@, source, now));
                false
            },
            None => {
                let agent = Agent {
                    key: key.to_owned(),
                    name: key.to_owned(),
                    status: String::new(),
                    key_source: source,
                    first_seen: now,
                    last_seen: now,
                };
                self.known.push(Known { project, agent });
                assert(self@ =~= old(self)@.push((project, agent@)));
                true
            },
        }
    }

    /// Forgets the silent agents of a project, or of all.
    fn prune_some(&mut self, project: Option<i64>, max_idle: u64, now: u64) -> (gone: Vec<
        (i64, String),
    >)
        ensures
            final(self)@ == pruned(old(self)@, project, now, max_idle),
            pair_views(gone@) == silent(old(self)@, project, now, max_idle),
    {
        let ghost all = self@;
        let mut kept: Vec<Known> = Vec::new();
        let mut gone: Vec<(i64, String)> = Vec::new();
        let mut i: usize = 0;
        assert(all.take(0) =~= seq![]);
        assert(sorting::contents(kept@) =~= seq![]);
        assert(pair_views(gone@) =~= seq![]);
        while i < self.known.len()
            invariant
                i <= self.known.len(),
                all == sorting::contents(self.known@),
                sorting::contents(kept@) == pruned(all.take(i as int), project, now, max_idle),
                pair_views(gone@) == silent(all.take(i as int), project, now, max_idle),
            decreases self.known.len() - i,
        {
            let ghost kept_before = kept@;
            let ghost gone_before = gone@;
            proof {
                assert(all.take(i + 1).drop_last() =~= all.take(i as int));
                assert(all.take(i + 1).last() == self.known@[i as int]@);
            }
            let k = &self.known[i];
            let concerned = match project {
                Some(p) => p == k.project,
                None => true,
            };
            if concerned && silent_for(&k.agent, now, max_idle) {
                gone.push((k.project, k.agent.key.clone()));
                assert(pair_views(gone@) =~= pair_views(gone_before).push((k.project, k.agent.key@)));
            } else {
                let copy = Known { project: k.project, agent: k.agent.copy() };
                kept.push(copy);
                assert(sorting::contents(kept@) =~= sorting::contents(kept_before).push(copy@));
            }
            i += 1;
        }
        assert(all.take(i as int) =~= all);
        self.known = kept;
        gone
    }

    /// Forgets the silent agents of a project. Returns their keys.
    pub fn prune(&mut self, project: i64, max_idle: u64, now: u64) -> (gone: Vec<String>)
        ensures
            final(self)@ == pruned(old(self)@, Some(project), now, max_idle),
            text::texts(gone@) == keys_of(silent(old(self)@, Some(project), now, max_idle)),
    {
        let pairs = self.prune_some(Some(project), max_idle, now);
        let mut out: Vec<String> = Vec::new();
        let ghost goal = keys_of(pair_views(pairs@));
        let mut i: usize = 0;
        assert(text::texts(out@) =~= goal.take(0));
        while i < pairs.len()
            invariant
                i <= pairs.len(),
                goal == keys_of(pair_views(pairs@)),
                text::texts(out@) == goal.take(i as int),
            decreases pairs.len() - i,
        {
            let ghost before = out@;
            out.push(pairs[i].1.clone());
            proof {
                assert(text::texts(out@) =~= text::texts(before).push(pairs@[i as int].1@));
                assert(goal.take(i + 1) =~= goal.take(i as int).push(goal[i as int]));
            }
            i += 1;
        }
        assert(goal.take(i as int) =~= goal);
        out
    }

    /// Forgets the silent agents of every project. Returns their projects and
    /// keys.
    pub fn prune_all(&mut self, max_idle: u64, now: u64) -> (gone: Vec<(i64, String)>)
        ensures
            final(self)@ == pruned(old(self)@, None, now, max_idle),
            pair_views(gone@) == silent(old(self)@, None, now, max_idle),
    {
        self.prune_some(None, max_idle, now)
    }

    /// Forgets an agent, however it is known.
    pub fn remove(&mut self, project: i64, key: &str) -> (r: Option<Agent>)
        ensures
            match agent_place(old(self)@, project, key@) {
                Some(i) => {
                    &&& final(self)@ == old(self)@.remove(i)
                    &&& r is Some
                    &&& r->0@ == old(self)@[i].1
                },
                None => final(self)@ == old(self)@ && r is None,
            },
    {
        match self.find(project, key) {
            Some(i) => {
                let gone = self.known.remove(i);
                assert(self@ =~= old(self)@.remove(i as int));
                Some(gone.agent)
            },
            None => None,
        }
    }

    /// An agent says who it is.
    pub fn identify(&mut self, project: i64, key: &str, name: String, status: Option<String>)
        ensures
            final(self)@ == identified(
                old(self)@,
                project,
                key@,
                name@,
                text::opt_text(status),
            ),
    {
        if let Some(i) = self.find(project, key) {
            let mut agent = self.known[i].agent.copy();
            agent.name = name;
            if let Some(status) = status {
                agent.status = status;
            }
            let owner: i64 = self.known[i].project;
            self.known.set(i, Known { project: owner, agent });
            assert(self@ =~= identified(old(self)@, project, key@, name@, text::opt_text(status)));
        }
    }

    /// An agent of a project.
    pub fn get(&self, project: i64, key: &str) -> (r: Option<Agent>)
        ensures
            match agent_of(self@, project, key@) {
                Some(a) => r is Some && r->0@ == a,
                None => r is None,
            },
    {
        match self.find(project, key) {
            Some(i) => Some(self.known[i].agent.copy()),
            None => None,
        }
    }

    /// The agents of a project, by when they were first seen, then by key.
    pub fn list(&self, project: i64) -> (out: Vec<Agent>)
        ensures
            model::agent_views(out@) == listed(self@, project),
    {
        let ghost all = self@;
        let mut out: Vec<Agent> = Vec::new();
        let mut i: usize = 0;
        assert(all.take(0) =~= seq![]);
        assert(sorting::contents(out@) =~= seq![]);
        while i < self.known.len()
            invariant
                i <= self.known.len(),
                all == sorting::contents(self.known@),
                sorting::contents(out@) == agents_in(all.take(i as int), project),
            decreases self.known.len() - i,
        {
            let ghost before = out@;
            proof {
                assert(all.take(i + 1).drop_last() =~= all.take(i as int));
                assert(all.take(i + 1).last() == self.known@[i as int]@);
            }
            if self.known[i].project == project {
                let agent = self.known[i].agent.copy();
                out.push(agent);
                assert(sorting::contents(out@) =~= sorting::contents(before).push(agent@));
            }
            i += 1;
        }
        assert(all.take(i as int) =~= all);
        proof {
            sorting::lemma_sorted_contents(
                &BySight,
                |a: AgentView, b: AgentView| agent_after(a, b),
                out@,
            );
        }
        let sorted = sorting::sort(&BySight, out);
        assert(model::agent_views(sorted@) =~= sorting::contents(sorted@));
        sorted
    }

    /// How many agents were heard of lately.
    pub fn active_total(&self, within: u64, now: u64) -> (n: usize)
        ensures
            n == active_count(self@, now, within),
    {
        let ghost all = self@;
        let mut n: usize = 0;
        let mut i: usize = 0;
        assert(all.take(0) =~= seq![]);
        while i < self.known.len()
            invariant
                i <= self.known.len(),
                n <= i,
                all == sorting::contents(self.known@),
                n == active_count(all.take(i as int), now, within),
            decreases self.known.len() - i,
        {
            proof {
                assert(all.take(i + 1).drop_last() =~= all.take(i as int));
                assert(all.take(i + 1).last() == self.known@[i as int]@);
            }
            if active_now(&self.known[i].agent, now, within) {
                n += 1;
            }
            i += 1;
        }
        assert(all.take(i as int) =~= all);
        n
    }

    /// How many agents of a project were heard of lately.
    pub fn active_of(&self, project: i64, within: u64, now: u64) -> (n: usize)
        ensures
            n == active_in(self@, project, now, within),
    {
        let ghost all = self@;
        let mut n: usize = 0;
        let mut i: usize = 0;
        assert(all.take(0) =~= seq![]);
        while i < self.known.len()
            invariant
                i <= self.known.len(),
                n <= i,
                all == sorting::contents(self.known@),
                n == active_in(all.take(i as int), project, now, within),
            decreases self.known.len() - i,
        {
            proof {
                assert(all.take(i + 1).drop_last() =~= all.take(i as int));
                assert(all.take(i + 1).last() == self.known@[i as int]@);
            }
            if self.known[i].project == project && active_now(&self.known[i].agent, now, within) {
                n += 1;
            }
            i += 1;
        }
        assert(all.take(i as int) =~= all);
        n
    }

    /// The projects with agents that were heard of lately, ascending, each
    /// with how many there are. They add up to all that were.
    pub fn active_counts_by_project(&self, within: u64, now: u64) -> (out: Vec<(i64, usize)>)
        ensures
            breaks_down(self@, out@, now, within),
            total(out@) == active_count(self@, now, within),
    {
        let mut projects: Vec<i64> = Vec::new();
        let mut i: usize = 0;
        while i < self.known.len()
            invariant
                i <= self.known.len(),
                forall|a: int, b: int|
                    0 <= a < b < projects@.len() ==> (#[trigger] projects@[a]) < (
                    #[trigger] projects@[b]),
                forall|k: int| 0 <= k < i ==> projects@.contains((#[trigger] self.known@[k]).project),
            decreases self.known.len() - i,
        {
            let ghost before = projects@;
            insert_sorted(&mut projects, self.known[i].project);
            proof {
                assert forall|k: int| 0 <= k < i + 1 implies projects@.contains(
                    (#[trigger] self.known@[k]).project,
                ) by {
                    if k < i {
                        assert(before.contains(self.known@[k].project));
                    }
                }
            }
            i += 1;
        }
        let mut out: Vec<(i64, usize)> = Vec::new();
        let mut j: usize = 0;
        while j < projects.len()
            invariant
                j <= projects.len(),
                forall|a: int, b: int|
                    0 <= a < b < projects@.len() ==> (#[trigger] projects@[a]) < (
                    #[trigger] projects@[b]),
                forall|a: int, b: int|
                    0 <= a < b < out@.len() ==> (#[trigger] out@[a]).0 < (#[trigger] out@[b]).0,
                forall|a: int|
                    0 <= a < out@.len() ==> (#[trigger] out@[a]).1 > 0 && out@[a].1 == active_in(
                        self@,
                        out@[a].0,
                        now,
                        within,
                    ),
                forall|a: int, b: int|
                    0 <= a < out@.len() && j <= b < projects@.len() ==> (#[trigger] out@[a]).0 < (
                    #[trigger] projects@[b]),
                forall|b: int|
                    0 <= b < j && active_in(self@, #[trigger] projects@[b], now, within) > 0
                        ==> exists|a: int|
                        0 <= a < out@.len() && (#[trigger] out@[a]).0 == projects@[b],
            decreases projects.len() - j,
        {
            let p: i64 = projects[j];
            let n: usize = self.active_of(p, within, now);
            let ghost before = out@;
            if n > 0 {
                out.push((p, n));
            }
            proof {
                assert forall|b: int|
                    0 <= b < j + 1 && active_in(self@, #[trigger] projects@[b], now, within)
                        > 0 implies exists|a: int|
                    0 <= a < out@.len() && (#[trigger] out@[a]).0 == projects@[b] by {
                    if b < j {
                        let a = choose|a: int|
                            0 <= a < before.len() && (#[trigger] before[a]).0 == projects@[b];
                        assert(out@[a].0 == projects@[b]);
                    } else {
                        assert(out@[before.len() as int].0 == p);
                    }
                }
            }
            j += 1;
        }
        proof {
            assert forall|p: i64| #[trigger] active_in(self@, p, now, within) > 0 implies exists|
                i: int,
            |
                0 <= i < out@.len() && (#[trigger] out@[i]).0 == p by {
                lemma_active_somewhere(self@, p, now, within);
                let k = choose|k: int| 0 <= k < self@.len() && (#[trigger] self@[k]).0 == p;
                assert(self.known@[k].project == p);
                assert(projects@.contains(p));
                let b = choose|b: int| 0 <= b < projects@.len() && projects@[b] == p;
                assert(projects@[b] == p);
            }
            law_counts_add_up(self@, out@, now, within);
        }
        out
    }

    /// Puts the moment an agent was last seen back by `by`.
    pub fn backdate_last_seen(&mut self, project: i64, key: &str, by: u64)
        requires
            match agent_of(old(self)@, project, key@) {
                Some(a) => a.last_seen >= by,
                None => true,
            },
        ensures
            final(self)@ == backdated(old(self)@, project, key@, by),
    {
        if let Some(i) = self.find(project, key) {
            let mut agent = self.known[i].agent.copy();
            agent.last_seen = agent.last_seen - by;
            let owner: i64 = self.known[i].project;
            let ghost was = self@;
            self.known.set(i, Known { project: owner, agent });
            assert(self@ =~= was.update(i as int, (owner, agent@)));
        }
    }
}

/// A project with active agents has an entry.
proof fn lemma_active_somewhere(
    known: Seq<(i64, AgentView)>,
    project: i64,
    now: u64,
    within: u64,
)
    requires
        active_in(known, project, now, within) > 0,
    ensures
        exists|k: int| 0 <= k < known.len() && (#[trigger] known[k]).0 == project,
    decreases known.len(),
{
    if known.last().0 == project && is_active(known.last().1, now, within) {
        assert(known[known.len() - 1].0 == project);
    } else {
        let front = known.drop_last();
        lemma_active_somewhere(front, project, now, within);
        let k = choose|k: int| 0 <= k < front.len() && (#[trigger] front[k]).0 == project;
        assert(known[k].0 == project);
    }
}

/// Puts a number into an ascending list, once.
fn insert_sorted(v: &mut Vec<i64>, x: i64)
    requires
        forall|a: int, b: int|
            0 <= a < b < old(v)@.len() ==> (#[trigger] old(v)@[a]) < (#[trigger] old(v)@[b]),
    ensures
        forall|a: int, b: int|
            0 <= a < b < final(v)@.len() ==> (#[trigger] final(v)@[a]) < (#[trigger] final(v)@[b]),
        final(v)@.contains(x),
        forall|y: i64| old(v)@.contains(y) ==> #[trigger] final(v)@.contains(y),
{
    let ghost was = v@;
    let mut i: usize = 0;
    while i < v.len() && v[i] < x
        invariant
            i <= v.len(),
            v@ == was,
            forall|a: int| 0 <= a < i ==> (#[trigger] was[a]) < x,
        decreases v.len() - i,
    {
        i += 1;
    }
    if i < v.len() && v[i] == x {
        assert(was[i as int] == x);
        return;
    }
    v.insert(i, x);
    proof {
        let now = v@;
        assert(now == was.insert(i as int, x));
        assert(now[i as int] == x);
        assert forall|y: i64| was.contains(y) implies #[trigger] now.contains(y) by {
            let k = choose|k: int| 0 <= k < was.len() && was[k] == y;
            if k < i {
                assert(now[k] == y);
            } else {
                assert(now[k + 1] == y);
            }
        }
    }
}

} // verus!
