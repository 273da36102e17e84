//! What the sidebar finds among the panes and the processes that it knows.

use vstd::prelude::*;
use vstd::string::*;

use crate::host::PaneId;
use crate::panes::PaneRole;
use crate::rows::ProcessRowView;
use crate::sidebar;
use crate::sidebar::{PaneQuery, PaneRowView};

verus! {

/// The pane that is found is the first that answers.
pub proof fn lemma_first_pane(panes: Seq<PaneRowView>, q: PaneQuery)
    ensures
        match sidebar::first_pane(panes, q) {
            Some(p) => exists|i: int|
                0 <= i < panes.len() && #[trigger] panes[i] == p && sidebar::answers(q, p)
                    && forall|j: int| 0 <= j < i ==> !sidebar::answers(q, #[trigger] panes[j]),
            None => forall|j: int|
                0 <= j < panes.len() ==> !sidebar::answers(q, #[trigger] panes[j]),
        },
    decreases panes.len(),
{
    if panes.len() > 0 {
        let rest = panes.drop_first();
        if sidebar::answers(q, panes[0]) {
            assert(panes[0] == sidebar::first_pane(panes, q)->0);
        } else {
            lemma_first_pane(rest, q);
            assert forall|j: int| 0 < j < panes.len() implies #[trigger] panes[j] == rest[j
                - 1] by {}
            if let Some(p) = sidebar::first_pane(rest, q) {
                let i = choose|i: int|
                    0 <= i < rest.len() && #[trigger] rest[i] == p && sidebar::answers(q, p)
                        && forall|j: int| 0 <= j < i ==> !sidebar::answers(q, #[trigger] rest[j]);
                assert(panes[i + 1] == p);
            }
        }
    }
}

/// The pane with an id is the first of the list that has it.
pub proof fn law_pane_is_found_by_id(panes: Seq<PaneRowView>, id: PaneId)
    ensures
        match sidebar::first_pane(panes, PaneQuery::Id(id)) {
            Some(p) => exists|i: int|
                0 <= i < panes.len() && #[trigger] panes[i] == p && p.id == id && forall|j: int|
                    0 <= j < i ==> (#[trigger] panes[j]).id != id,
            None => forall|j: int| 0 <= j < panes.len() ==> (#[trigger] panes[j]).id != id,
        },
{
    lemma_first_pane(panes, PaneQuery::Id(id));
}

/// A pane is visible where the list holds it and it is not hidden.
pub proof fn law_visible_pane_is_not_hidden(panes: Seq<PaneRowView>, id: PaneId)
    ensures
        sidebar::first_pane(panes, PaneQuery::Visible(id)) is Some <==> exists|i: int|
            0 <= i < panes.len() && (#[trigger] panes[i]).id == id && !panes[i].suppressed,
{
    lemma_first_pane(panes, PaneQuery::Visible(id));
}

/// The pane of a process is the first that runs it and has not exited.
pub proof fn law_process_pane_runs_it(panes: Seq<PaneRowView>, id: u64)
    ensures
        match sidebar::first_pane_id(panes, PaneQuery::Process(id)) {
            Some(x) => exists|i: int|
                0 <= i < panes.len() && (#[trigger] panes[i]).id == x && panes[i].role
                    == PaneRole::Process(id) && !panes[i].exited && forall|j: int|
                    0 <= j < i ==> (#[trigger] panes[j]).role != PaneRole::Process(id)
                        || panes[j].exited,
            None => forall|j: int|
                0 <= j < panes.len() ==> (#[trigger] panes[j]).role != PaneRole::Process(id)
                    || panes[j].exited,
        },
{
    lemma_first_pane(panes, PaneQuery::Process(id));
}

/// A viewer to show again is a hidden one; a viewer to use is one that is not
/// hidden.
pub proof fn law_viewers_are_found(panes: Seq<PaneRowView>)
    ensures
        match sidebar::first_pane_id(panes, PaneQuery::SuppressedViewer) {
            Some(x) => exists|i: int|
                0 <= i < panes.len() && (#[trigger] panes[i]).id == x && panes[i].role
                    == PaneRole::Viewer && panes[i].suppressed,
            None => forall|j: int|
                0 <= j < panes.len() ==> (#[trigger] panes[j]).role != PaneRole::Viewer
                    || !panes[j].suppressed,
        },
        match sidebar::first_pane_id(panes, PaneQuery::VisibleViewer) {
            Some(x) => exists|i: int|
                0 <= i < panes.len() && (#[trigger] panes[i]).id == x && panes[i].role
                    == PaneRole::Viewer && !panes[i].suppressed,
            None => forall|j: int|
                0 <= j < panes.len() ==> (#[trigger] panes[j]).role != PaneRole::Viewer
                    || panes[j].suppressed,
        },
{
    lemma_first_pane(panes, PaneQuery::SuppressedViewer);
    lemma_first_pane(panes, PaneQuery::VisibleViewer);
}

/// The pane of the agent with a stable id.
proof fn lemma_first_agent_pane(panes: Seq<PaneRowView>, agent: Seq<char>)
    ensures
        match sidebar::first_agent_pane(panes, agent) {
            Some(x) => exists|i: int|
                0 <= i < panes.len() && (#[trigger] panes[i]).id == x && !panes[i].exited
                    && panes[i].agent_id == Some(agent),
            None => forall|j: int|
                0 <= j < panes.len() ==> (#[trigger] panes[j]).exited || panes[j].agent_id != Some(
                    agent,
                ),
        },
    decreases panes.len(),
{
    if panes.len() > 0 {
        let rest = panes.drop_first();
        if !panes[0].exited && panes[0].agent_id == Some(agent) {
            assert(panes[0].id == sidebar::first_agent_pane(panes, agent)->0);
        } else {
            lemma_first_agent_pane(rest, agent);
            assert forall|j: int| 0 < j < panes.len() implies #[trigger] panes[j] == rest[j
                - 1] by {}
            if let Some(x) = sidebar::first_agent_pane(rest, agent) {
                let i = choose|i: int|
                    0 <= i < rest.len() && (#[trigger] rest[i]).id == x && !rest[i].exited
                        && rest[i].agent_id == Some(agent);
                assert(panes[i + 1].id == x);
            }
        }
    }
}

/// Whether a pane hosts an agent: it has not exited, and has the agent's stable
/// id or runs its process.
pub open spec fn hosts(p: PaneRowView, id: u64, agent_id: Option<Seq<char>>) -> bool {
    !p.exited && ((agent_id matches Some(a) && a.len() > 0 && p.agent_id == Some(a)) || p.role
        == PaneRole::Process(id))
}

/// The pane of an agent is one that hosts it, and there is one wherever one
/// does; a pane with its stable id comes before one that only runs its process.
pub proof fn law_agent_pane_hosts_it(
    panes: Seq<PaneRowView>,
    id: u64,
    agent_id: Option<Seq<char>>,
)
    ensures
        match sidebar::agent_pane_of(panes, id, agent_id) {
            Some(x) => exists|i: int|
                0 <= i < panes.len() && (#[trigger] panes[i]).id == x && hosts(
                    panes[i],
                    id,
                    agent_id,
                ) && (panes[i].agent_id == agent_id || forall|j: int|
                    0 <= j < panes.len() && agent_id is Some && agent_id->0.len() > 0 ==> (
                    #[trigger] panes[j]).exited || panes[j].agent_id != agent_id),
            None => forall|j: int|
                0 <= j < panes.len() ==> !hosts(#[trigger] panes[j], id, agent_id),
        },
{
    lemma_first_pane(panes, PaneQuery::Process(id));
    if let Some(a) = agent_id {
        lemma_first_agent_pane(panes, a);
    }
}

/// The process with an id is the first of the list that has it.
pub proof fn law_process_is_found_by_id(processes: Seq<ProcessRowView>, id: u64)
    ensures
        match sidebar::process_in(processes, id) {
            Some(r) => exists|i: int|
                0 <= i < processes.len() && #[trigger] processes[i] == r && r.id == id
                    && forall|j: int| 0 <= j < i ==> (#[trigger] processes[j]).id != id,
            None => forall|j: int| 0 <= j < processes.len() ==> (#[trigger] processes[j]).id != id,
        },
    decreases processes.len(),
{
    if processes.len() > 0 {
        let rest = processes.drop_first();
        if processes[0].id == id {
            assert(processes[0] == sidebar::process_in(processes, id)->0);
        } else {
            law_process_is_found_by_id(rest, id);
            assert forall|j: int| 0 < j < processes.len() implies #[trigger] processes[j] == rest[j
                - 1] by {}
            if let Some(r) = sidebar::process_in(rest, id) {
                let i = choose|i: int|
                    0 <= i < rest.len() && #[trigger] rest[i] == r && r.id == id && forall|j: int|
                        0 <= j < i ==> (#[trigger] rest[j]).id != id;
                assert(processes[i + 1] == r);
            }
        }
    }
}

/// The instance of a config is the first agent of the list that was started
/// from it.
pub proof fn law_instance_is_an_agent_of_the_config(processes: Seq<ProcessRowView>, config: u64)
    ensures
        match sidebar::instance_in(processes, config) {
            Some(r) => exists|i: int|
                0 <= i < processes.len() && #[trigger] processes[i] == r && r.kind == "agent"@
                    && r.agent_tool_id == Some(config) && forall|j: int|
                    0 <= j < i ==> (#[trigger] processes[j]).kind != "agent"@
                        || processes[j].agent_tool_id != Some(config),
            None => forall|j: int|
                0 <= j < processes.len() ==> (#[trigger] processes[j]).kind != "agent"@
                    || processes[j].agent_tool_id != Some(config),
        },
    decreases processes.len(),
{
    if processes.len() > 0 {
        let rest = processes.drop_first();
        if processes[0].kind == "agent"@ && processes[0].agent_tool_id == Some(config) {
            assert(processes[0] == sidebar::instance_in(processes, config)->0);
        } else {
            law_instance_is_an_agent_of_the_config(rest, config);
            assert forall|j: int| 0 < j < processes.len() implies #[trigger] processes[j] == rest[j
                - 1] by {}
            if let Some(r) = sidebar::instance_in(rest, config) {
                let i = choose|i: int|
                    0 <= i < rest.len() && #[trigger] rest[i] == r && r.kind == "agent"@
                        && r.agent_tool_id == Some(config) && forall|j: int|
                        0 <= j < i ==> (#[trigger] rest[j]).kind != "agent"@
                            || rest[j].agent_tool_id != Some(config);
                assert(processes[i + 1] == r);
            }
        }
    }
}

} // verus!
