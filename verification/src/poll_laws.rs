//! What the gatekeeper's poll comes to: which processes get panes, which panes
//! are hidden, and how the content panes are titled.

use vstd::prelude::*;
use vstd::string::*;

use crate::finding_laws;
use crate::host::{ActionView, Document, PaneId, Purpose};
use crate::modes::Mode;
use crate::panes::PaneRole;
use crate::picking;
use crate::rows::ProcessRowView;
use crate::sidebar;
use crate::sidebar::{PaneQuery, PaneRowView, PanoptPane};
use crate::sidebar_gate;
use crate::sidebar_ingest;
use crate::sidebar_items;
use crate::sidebar_poll;
use crate::text;
use crate::titles;
use crate::wire;

verus! {

/// The poll acts only in the Todos pane, and only once it is permitted to.
pub proof fn law_only_the_permitted_gatekeeper_polls(s: PanoptPane)
    ensures
        sidebar_poll::keeps_gate(s) <==> s.mode == Mode::Todos && s.permitted,
{
}

/// The processes to start are those whose status says so, in the order of the
/// list, each as often as it is listed.
pub proof fn law_starting_processes_are_found(processes: Seq<ProcessRowView>) -> (at: Seq<int>)
    ensures
        ({
            let out = sidebar_poll::starting_ids(processes);
            &&& picking::ascend(at)
            &&& at.len() == out.len()
            &&& forall|k: int|
                0 <= k < at.len() ==> 0 <= (#[trigger] at[k]) < processes.len() && out[k]
                    == processes[at[k]].id
            &&& forall|i: int| #[trigger]
                at.contains(i) <==> 0 <= i < processes.len() && processes[i].status == Some(
                    "starting"@,
                )
        }),
    decreases processes.len(),
{
    if processes.len() == 0 {
        Seq::empty()
    } else {
        let front = processes.drop_last();
        let n = processes.len() - 1;
        let at0 = law_starting_processes_are_found(front);
        let out = sidebar_poll::starting_ids(processes);
        let out0 = sidebar_poll::starting_ids(front);
        if processes.last().status == Some("starting"@) {
            let at = at0.push(n);
            assert forall|k: int| 0 <= k < at.len() implies 0 <= (#[trigger] at[k])
                < processes.len() && out[k] == processes[at[k]].id by {
                if k < at0.len() {
                    assert(at0[k] == at[k]);
                    assert(front[at0[k]] == processes[at[k]]);
                    assert(out[k] == out0[k]);
                }
            }
            assert forall|i: int, j: int| 0 <= i < j < at.len() implies (#[trigger] at[i]) < (
            #[trigger] at[j]) by {
                assert(at0[i] == at[i]);
                if j < at0.len() {
                    assert(at0[j] == at[j]);
                }
            }
            assert forall|i: int| #[trigger] at.contains(i) <==> 0 <= i < processes.len()
                && processes[i].status == Some("starting"@) by {
                picking::lemma_push_holds(at0, n, i);
                let _ = at0.contains(i);
                if 0 <= i < front.len() {
                    assert(front[i] == processes[i]);
                }
            }
            at
        } else {
            assert forall|k: int| 0 <= k < at0.len() implies front[#[trigger] at0[k]]
                == processes[at0[k]] by {}
            assert forall|i: int| #[trigger] at0.contains(i) <==> 0 <= i < processes.len()
                && processes[i].status == Some("starting"@) by {
                if 0 <= i < front.len() {
                    assert(front[i] == processes[i]);
                }
            }
            at0
        }
    }
}

/// A process is started in a pane of its own, in the background, exactly where
/// none was given to it before, no pane runs it, and something can be launched.
pub proof fn law_process_is_started_once(s: PanoptPane, id: u64)
    ensures
        ({
            let acts = sidebar_poll::start_actions(s, id);
            let has_pane = exists|i: int|
                0 <= i < s.pane_list().len() && (#[trigger] s.pane_list()[i]).role
                    == PaneRole::Process(id) && !s.pane_list()[i].exited;
            &&& s.reconciled_panes.has(id) || has_pane || !s.permitted || s.ws is None
                ==> acts.len() == 0
            &&& !s.reconciled_panes.has(id) && !has_pane && s.permitted && s.ws is Some ==> acts
                == seq![
                ActionView::Spawn {
                    slot: s.slot_pane,
                    args: seq!["_process-run"@, "--port"@, s.port@, text::decimal(id as nat)],
                    focus: false,
                    purpose: Purpose::Starting(id),
                },
            ]
        }),
{
    finding_laws::law_process_pane_runs_it(s.pane_list(), id);
}

/// Of the processes that were given panes, those are over that are no longer
/// listed, or are listed first as stopped or exited; a process that starts or
/// runs is never among them.
pub proof fn law_over_is_gone_or_ended(
    processes: Seq<ProcessRowView>,
    given: Seq<(u64, u32)>,
) -> (at: Seq<int>)
    ensures
        picking::picks(given, at, sidebar_poll::disposed_among(processes, given)),
        forall|i: int| #[trigger]
            at.contains(i) <==> 0 <= i < given.len() && {
                ||| forall|j: int|
                    0 <= j < processes.len() ==> (#[trigger] processes[j]).id != given[i].0
                ||| exists|j: int|
                    0 <= j < processes.len() && (#[trigger] processes[j]).id == given[i].0 && (
                    processes[j].status == Some("stopped"@) || processes[j].status == Some(
                        "exited"@,
                    )) && forall|k: int|
                        0 <= k < j ==> (#[trigger] processes[k]).id != given[i].0
            },
    decreases given.len(),
{
    if given.len() == 0 {
        Seq::empty()
    } else {
        let front = given.drop_last();
        let n = given.len() - 1;
        let at0 = law_over_is_gone_or_ended(processes, front);
        let out = sidebar_poll::disposed_among(processes, given);
        lemma_is_disposed(processes, given.last().0);
        if sidebar_poll::is_disposed(processes, given.last().0) {
            let at = at0.push(n);
            assert forall|k: int| 0 <= k < at.len() implies 0 <= (#[trigger] at[k]) < given.len()
                && out[k] == given[at[k]] by {
                if k < at0.len() {
                    assert(at0[k] == at[k]);
                }
            }
            assert forall|i: int, j: int| 0 <= i < j < at.len() implies (#[trigger] at[i]) < (
            #[trigger] at[j]) by {
                assert(at0[i] == at[i]);
                if j < at0.len() {
                    assert(at0[j] == at[j]);
                }
            }
            assert forall|i: int| #[trigger] at.contains(i) <==> 0 <= i < given.len()
                && sidebar_poll::is_disposed(processes, given[i].0) by {
                picking::lemma_push_holds(at0, n, i);
                let _ = at0.contains(i);
                if 0 <= i < front.len() {
                    assert(front[i] == given[i]);
                    lemma_is_disposed(processes, front[i].0);
                }
            }
            lemma_disposed_each(processes, given, at);
            at
        } else {
            assert forall|i: int| #[trigger] at0.contains(i) <==> 0 <= i < given.len()
                && sidebar_poll::is_disposed(processes, given[i].0) by {
                if 0 <= i < front.len() {
                    assert(front[i] == given[i]);
                    lemma_is_disposed(processes, front[i].0);
                }
            }
            lemma_disposed_each(processes, given, at0);
            at0
        }
    }
}

/// When a process is over.
proof fn lemma_is_disposed(processes: Seq<ProcessRowView>, id: u64)
    ensures
        sidebar_poll::is_disposed(processes, id) <==> {
            ||| forall|j: int| 0 <= j < processes.len() ==> (#[trigger] processes[j]).id != id
            ||| exists|j: int|
                0 <= j < processes.len() && (#[trigger] processes[j]).id == id && (
                processes[j].status == Some("stopped"@) || processes[j].status == Some("exited"@))
                    && forall|k: int| 0 <= k < j ==> (#[trigger] processes[k]).id != id
        },
{
    finding_laws::law_process_is_found_by_id(processes, id);
    if let Some(r) = sidebar::process_in(processes, id) {
        let i = choose|i: int|
            0 <= i < processes.len() && #[trigger] processes[i] == r && r.id == id && forall|j: int|
                0 <= j < i ==> (#[trigger] processes[j]).id != id;
        assert(processes[i].id == id);
        assert forall|j: int|
            0 <= j < processes.len() && (#[trigger] processes[j]).id == id && (forall|k: int|
                0 <= k < j ==> (#[trigger] processes[k]).id != id) implies j == i by {
            if j < i {
                assert(processes[j].id != id);
            }
            if i < j {
                assert(processes[i].id != id);
            }
        }
    }
}

/// The places of what is over.
proof fn lemma_disposed_each(
    processes: Seq<ProcessRowView>,
    given: Seq<(u64, u32)>,
    at: Seq<int>,
)
    requires
        forall|i: int| #[trigger]
            at.contains(i) <==> 0 <= i < given.len() && sidebar_poll::is_disposed(
                processes,
                given[i].0,
            ),
    ensures
        forall|i: int| #[trigger]
            at.contains(i) <==> 0 <= i < given.len() && {
                ||| forall|j: int|
                    0 <= j < processes.len() ==> (#[trigger] processes[j]).id != given[i].0
                ||| exists|j: int|
                    0 <= j < processes.len() && (#[trigger] processes[j]).id == given[i].0 && (
                    processes[j].status == Some("stopped"@) || processes[j].status == Some(
                        "exited"@,
                    )) && forall|k: int|
                        0 <= k < j ==> (#[trigger] processes[k]).id != given[i].0
            },
{
    assert forall|i: int| #[trigger] at.contains(i) <==> 0 <= i < given.len() && {
        ||| forall|j: int| 0 <= j < processes.len() ==> (#[trigger] processes[j]).id != given[i].0
        ||| exists|j: int|
            0 <= j < processes.len() && (#[trigger] processes[j]).id == given[i].0 && (
            processes[j].status == Some("stopped"@) || processes[j].status == Some("exited"@))
                && forall|k: int| 0 <= k < j ==> (#[trigger] processes[k]).id != given[i].0
    } by {
        if 0 <= i < given.len() {
            lemma_is_disposed(processes, given[i].0);
        }
    }
}

/// Panes of processes that are over are hidden behind an empty viewer, and never
/// closed: a pane is covered where it belongs to one of them and the list shows
/// it neither hidden nor floating. Nothing else is asked for but the routing of
/// the viewers to nothing.
#[verifier::spinoff_prover]
#[verifier::rlimit(80)]
pub proof fn law_panes_of_what_is_over_are_hidden(s: PanoptPane, over: Seq<(u64, u32)>)
    requires
        s.next_viewer_slot + over.len() <= u32::MAX,
    ensures
        ({
            let (after, acts) = sidebar_poll::covers(s, over);
            &&& after == (PanoptPane { next_viewer_slot: after.next_viewer_slot, ..s })
            &&& forall|k: int|
                0 <= k < acts.len() ==> match #[trigger] acts[k] {
                    ActionView::Route { document, .. } => document == Document::Empty,
                    ActionView::Cover { target, .. } => exists|i: int|
                        0 <= i < over.len() && target == PaneId::Terminal(
                            (#[trigger] over[i]).1,
                        ) && is_drawn(s, target),
                    _ => false,
                }
            &&& s.permitted && s.ws is Some ==> forall|i: int|
                0 <= i < over.len() && is_drawn(s, PaneId::Terminal((#[trigger] over[i]).1)) ==> covered_in(
                    acts,
                    PaneId::Terminal(over[i].1),
                )
        }),
    decreases over.len(),
{
    if over.len() > 0 {
        let front = over.drop_last();
        let n = over.len() - 1;
        law_panes_of_what_is_over_are_hidden(s, front);
        let (before, acts0) = sidebar_poll::covers(s, front);
        let (after, acts) = sidebar_poll::covers(s, over);
        let pane = PaneId::Terminal(over.last().1);
        finding_laws::law_pane_is_found_by_id(s.pane_list(), pane);
        assert(over[n] == over.last());
        lemma_is_drawn(s, pane);
        if is_drawn(s, pane) {
            let more = sidebar_gate::pane_covered(before, pane).1;
            assert(acts == acts0 + more);
            if s.permitted && s.ws is Some {
                assert(more.len() == 2);
                assert(acts[acts0.len() as int + 1] == more[1]);
                assert(more[1] matches ActionView::Cover { target, .. } && target == pane);
                assert(covered_in(acts, pane));
            }
            assert forall|k: int| 0 <= k < acts.len() implies (#[trigger] acts[k]) == (if k
                < acts0.len() {
                acts0[k]
            } else {
                more[k - acts0.len()]
            }) by {}
        }
        assert forall|k: int| 0 <= k < acts.len() implies match #[trigger] acts[k] {
            ActionView::Route { document, .. } => document == Document::Empty,
            ActionView::Cover { target, .. } => exists|i: int|
                0 <= i < over.len() && target == PaneId::Terminal((#[trigger] over[i]).1)
                    && is_drawn(s, target),
            _ => false,
        } by {
            if k < acts0.len() {
                assert(acts[k] == acts0[k]);
                if let ActionView::Cover { target, .. } = acts[k] {
                    let i = choose|i: int|
                        0 <= i < front.len() && target == PaneId::Terminal((#[trigger] front[i]).1)
                            && is_drawn(s, target);
                    assert(over[i] == front[i]);
                }
            } else {
                assert(PaneId::Terminal(over[n].1) == pane);
            }
        }
        if s.permitted && s.ws is Some {
            assert forall|i: int|
                0 <= i < over.len() && is_drawn(
                    s,
                    PaneId::Terminal((#[trigger] over[i]).1),
                ) implies covered_in(acts, PaneId::Terminal(over[i].1)) by {
                if i < n {
                    assert(front[i] == over[i]);
                    assert(covered_in(acts0, PaneId::Terminal(front[i].1)));
                    let k = choose|k: int|
                        0 <= k < acts0.len() && (#[trigger] acts0[k] matches ActionView::Cover {
                            target,
                            ..
                        } && target == PaneId::Terminal(front[i].1));
                    assert(acts[k] == acts0[k]);
                }
            }
        }
    }
}

/// Whether the first listed pane of an id is neither hidden nor floating.
pub open spec fn is_drawn(s: PanoptPane, pane: PaneId) -> bool {
    exists|i: int|
        0 <= i < s.pane_list().len() && (#[trigger] s.pane_list()[i]).id == pane
            && !s.pane_list()[i].suppressed && !s.pane_list()[i].floating && forall|j: int|
            0 <= j < i ==> (#[trigger] s.pane_list()[j]).id != pane
}

/// Whether a pane is covered by some actions.
pub open spec fn covered_in(acts: Seq<ActionView>, pane: PaneId) -> bool {
    exists|k: int|
        0 <= k < acts.len() && (#[trigger] acts[k] matches ActionView::Cover { target, .. }
            && target == pane)
}

/// A pane is drawn where the one that is found is neither hidden nor floating.
proof fn lemma_is_drawn(s: PanoptPane, pane: PaneId)
    ensures
        is_drawn(s, pane) <==> (match sidebar::first_pane(s.pane_list(), PaneQuery::Id(pane)) {
            Some(p) => !p.suppressed && !p.floating,
            None => false,
        }),
{
    finding_laws::law_pane_is_found_by_id(s.pane_list(), pane);
    if let Some(p) = sidebar::first_pane(s.pane_list(), PaneQuery::Id(pane)) {
        let i = choose|i: int|
            0 <= i < s.pane_list().len() && #[trigger] s.pane_list()[i] == p && p.id == pane
                && forall|j: int| 0 <= j < i ==> (#[trigger] s.pane_list()[j]).id != pane;
        assert(s.pane_list()[i].id == pane);
        if is_drawn(s, pane) {
            let k = choose|k: int|
                0 <= k < s.pane_list().len() && (#[trigger] s.pane_list()[k]).id == pane
                    && !s.pane_list()[k].suppressed && !s.pane_list()[k].floating && forall|j: int|
                    0 <= j < k ==> (#[trigger] s.pane_list()[j]).id != pane;
            if k < i {
                assert(s.pane_list()[k].id != pane);
            }
            if i < k {
                assert(s.pane_list()[i].id != pane);
            }
        }
    }
}

/// A process that is over is forgotten once its pane is listed.
pub proof fn law_forgotten_once_listed(
    panes: Seq<PaneRowView>,
    over: Seq<(u64, u32)>,
    id: u64,
)
    ensures
        sidebar_poll::done_with(panes, over).contains(id) <==> exists|i: int, k: int|
            0 <= i < over.len() && 0 <= k < panes.len() && (#[trigger] over[i]).0 == id && (
            #[trigger] panes[k]).id == PaneId::Terminal(over[i].1),
    decreases over.len(),
{
    if over.len() > 0 {
        let front = over.drop_last();
        let n = over.len() - 1;
        law_forgotten_once_listed(panes, front, id);
        let before = sidebar_poll::done_with(panes, front);
        let pane = PaneId::Terminal(over.last().1);
        finding_laws::law_pane_is_found_by_id(panes, pane);
        picking::lemma_push_holds(before, over.last().0, id);
        assert forall|i: int| 0 <= i < n implies front[i] == over[i] by {}
        if before.contains(id) {
            let (i, k) = choose|i: int, k: int|
                0 <= i < front.len() && 0 <= k < panes.len() && (#[trigger] front[i]).0 == id && (
                #[trigger] panes[k]).id == PaneId::Terminal(front[i].1);
            assert(over[i].0 == id && panes[k].id == PaneId::Terminal(over[i].1));
        }
        if let Some(p) = sidebar::first_pane(panes, PaneQuery::Id(pane)) {
            let k = choose|k: int|
                0 <= k < panes.len() && #[trigger] panes[k] == p && p.id == pane && forall|j: int|
                    0 <= j < k ==> (#[trigger] panes[j]).id != pane;
            assert(panes[k].id == PaneId::Terminal(over[n].1));
        }
        if exists|i: int, k: int|
            0 <= i < over.len() && 0 <= k < panes.len() && (#[trigger] over[i]).0 == id && (
            #[trigger] panes[k]).id == PaneId::Terminal(over[i].1) {
            let (i, k) = choose|i: int, k: int|
                0 <= i < over.len() && 0 <= k < panes.len() && (#[trigger] over[i]).0 == id && (
                #[trigger] panes[k]).id == PaneId::Terminal(over[i].1);
            if i < n {
                assert(front[i].0 == id && panes[k].id == PaneId::Terminal(front[i].1));
            }
        }
    }
}

// ---------------------------------------------------------------------------
// Titles
// ---------------------------------------------------------------------------

/// The title of a process's pane names its kind and its number; the label comes
/// behind it without that number.
pub proof fn law_process_titles(processes: Seq<ProcessRowView>, id: u64, k: int)
    ensures
        (forall|j: int| 0 <= j < processes.len() ==> (#[trigger] processes[j]).id != id)
            ==> sidebar_poll::process_pane_title(processes, id) == "Process #"@ + text::decimal(
            id as nat,
        ),
        0 <= k < processes.len() && processes[k].id == id && (forall|j: int|
            0 <= j < k ==> (#[trigger] processes[j]).id != id) ==> {
            let row = processes[k];
            let title = sidebar_poll::process_pane_title(processes, id);
            &&& row.kind == "agent"@ ==> title == titles::process_title("Agent"@, id, row.label)
            &&& row.kind == "command"@ ==> title == titles::process_title(
                "Command"@,
                id,
                row.label,
            )
            &&& row.kind == "terminal"@ ==> title == titles::process_title(
                "Terminal"@,
                id,
                row.label,
            )
            &&& row.kind != "agent"@ && row.kind != "command"@ && row.kind != "terminal"@ ==> title
                == "Process #"@ + text::decimal(id as nat) + ": "@ + row.label
        },
{
    reveal_strlit("agent");
    reveal_strlit("command");
    reveal_strlit("terminal");
    assert("agent"@.len() == 5 && "command"@.len() == 7 && "terminal"@.len() == 8);
    finding_laws::law_process_is_found_by_id(processes, id);
    if let Some(r) = sidebar::process_in(processes, id) {
        let i = choose|i: int|
            0 <= i < processes.len() && #[trigger] processes[i] == r && r.id == id && forall|j: int|
                0 <= j < i ==> (#[trigger] processes[j]).id != id;
        assert(processes[i].id == id);
        if 0 <= k < processes.len() && processes[k].id == id && (forall|j: int|
            0 <= j < k ==> (#[trigger] processes[j]).id != id) {
            if k < i {
                assert(processes[k].id != id);
            }
            if i < k {
                assert(processes[i].id != id);
            }
        }
    }
}

/// A plain shell keeps the multiplexer's own title; every other pane is titled by
/// its role.
pub proof fn law_titles_go_by_role(
    s: PanoptPane,
    routing: Seq<(Seq<char>, Seq<char>)>,
    p: PaneRowView,
)
    ensures
        sidebar_poll::pane_title(s, routing, p) is None <==> p.role == PaneRole::Shell,
        p.role matches PaneRole::Process(id) ==> sidebar_poll::pane_title(s, routing, p) == Some(
            sidebar_poll::process_pane_title(s.process_list(), id),
        ),
        p.role == PaneRole::Viewer && p.viewer_slot is None ==> sidebar_poll::pane_title(
            s,
            routing,
            p,
        ) == Some("Viewer"@),
{
}

/// Every terminal pane that has a title has it set where it differs from the one
/// last set, and only there; the titles that were set are remembered.
pub proof fn law_titles_are_set_where_they_changed(
    s: PanoptPane,
    routing: Seq<(Seq<char>, Seq<char>)>,
    panes: Seq<PaneRowView>,
    tid: u32,
    title: Seq<char>,
)
    ensures
        sidebar_poll::titled(s, routing, panes).1.contains(
            ActionView::RenameTerminal(tid, title),
        ) <==> exists|i: int|
            0 <= i < panes.len() && (#[trigger] panes[i]).id == PaneId::Terminal(tid)
                && sidebar_poll::pane_title(s, routing, panes[i]) == Some(title)
                && !sidebar_ingest::label_map(s.last_pane_titles).contains_pair(tid as u64, title),
    decreases panes.len(),
{
    if panes.len() > 0 {
        let front = panes.drop_last();
        let n = panes.len() - 1;
        let p = panes.last();
        law_titles_are_set_where_they_changed(s, routing, front, tid, title);
        let acts = sidebar_poll::titled(s, routing, panes).1;
        let acts0 = sidebar_poll::titled(s, routing, front).1;
        if let (PaneId::Terminal(t), Some(x)) = (p.id, sidebar_poll::pane_title(s, routing, p)) {
            picking::lemma_push_holds(
                acts0,
                ActionView::RenameTerminal(t, x),
                ActionView::RenameTerminal(tid, title),
            );
        }
        if acts0.contains(ActionView::RenameTerminal(tid, title)) {
            let i = choose|i: int|
                0 <= i < front.len() && (#[trigger] front[i]).id == PaneId::Terminal(tid)
                    && sidebar_poll::pane_title(s, routing, front[i]) == Some(title)
                    && !sidebar_ingest::label_map(s.last_pane_titles).contains_pair(
                    tid as u64,
                    title,
                );
            assert(panes[i] == front[i]);
            assert(panes[i].id == PaneId::Terminal(tid));
        }
        if exists|i: int|
            0 <= i < panes.len() && (#[trigger] panes[i]).id == PaneId::Terminal(tid)
                && sidebar_poll::pane_title(s, routing, panes[i]) == Some(title)
                && !sidebar_ingest::label_map(s.last_pane_titles).contains_pair(
                tid as u64,
                title,
            ) {
            let i = choose|i: int|
                0 <= i < panes.len() && (#[trigger] panes[i]).id == PaneId::Terminal(tid)
                    && sidebar_poll::pane_title(s, routing, panes[i]) == Some(title)
                    && !sidebar_ingest::label_map(s.last_pane_titles).contains_pair(
                    tid as u64,
                    title,
                );
            if i < n {
                assert(front[i] == panes[i]);
                assert(front[i].id == PaneId::Terminal(tid));
            }
        }
        assert(panes[n] == p);
    }
}

/// A viewer is titled by what the routing of its slot says that it shows: the first
/// that there is for the slot, or nothing.
pub proof fn law_viewer_is_titled_by_its_routing(
    s: PanoptPane,
    routing: Seq<(Seq<char>, Seq<char>)>,
    p: PaneRowView,
    i: int,
)
    requires
        p.role == PaneRole::Viewer,
        p.viewer_slot is Some,
    ensures
        ({
            let title = sidebar_poll::pane_title(s, routing, p);
            let slot = p.viewer_slot->0;
            let shown = |body: Seq<char>|
                Some(
                    titles::viewer_title(
                        wire::routing_in(body).0,
                        wire::routing_in(body).1,
                        titles::entries(s.todos@),
                        titles::entries(s.notes@),
                    ),
                );
            &&& 0 <= i < routing.len() && routing[i].0 == slot && (forall|k: int|
                0 <= k < i ==> (#[trigger] routing[k]).0 != slot) ==> title == shown(routing[i].1)
            &&& (forall|k: int| 0 <= k < routing.len() ==> (#[trigger] routing[k]).0 != slot)
                ==> title == shown(Seq::empty())
        }),
{
    lemma_routing_text_of(routing, p.viewer_slot->0, i);
}

/// The routing of a slot is the first that there is for it.
proof fn lemma_routing_text_of(routing: Seq<(Seq<char>, Seq<char>)>, slot: Seq<char>, i: int)
    ensures
        0 <= i < routing.len() && routing[i].0 == slot && (forall|k: int|
            0 <= k < i ==> (#[trigger] routing[k]).0 != slot) ==> sidebar_poll::routing_text_of(
            routing,
            slot,
        ) == routing[i].1,
        (forall|k: int| 0 <= k < routing.len() ==> (#[trigger] routing[k]).0 != slot)
            ==> sidebar_poll::routing_text_of(routing, slot) == Seq::<char>::empty(),
    decreases routing.len(),
{
    if routing.len() > 0 && routing[0].0 != slot {
        let rest = routing.drop_first();
        lemma_routing_text_of(rest, slot, i - 1);
        if 0 <= i < routing.len() && routing[i].0 == slot && (forall|k: int|
            0 <= k < i ==> (#[trigger] routing[k]).0 != slot) {
            assert(rest[i - 1] == routing[i]);
            assert forall|k: int| 0 <= k < i - 1 implies (#[trigger] rest[k]).0 != slot by {
                assert(routing[k + 1] == rest[k]);
            }
        }
        if forall|k: int| 0 <= k < routing.len() ==> (#[trigger] routing[k]).0 != slot {
            assert forall|k: int| 0 <= k < rest.len() implies (#[trigger] rest[k]).0 != slot by {
                assert(routing[k + 1] == rest[k]);
            }
        }
    }
}

/// A pane of an agent is titled by its label, behind the word for an agent unless
/// the label says it.
pub proof fn law_agent_is_titled_by_its_label(
    s: PanoptPane,
    routing: Seq<(Seq<char>, Seq<char>)>,
    p: PaneRowView,
    tid: u32,
)
    requires
        p.role == PaneRole::Agent,
        p.id == PaneId::Terminal(tid),
    ensures
        s.agent_labels.lookup(tid as u64) is Some ==> sidebar_poll::pane_title(s, routing, p)
            == Some(titles::prefixed_title("Agent"@, s.agent_labels.lookup(tid as u64)->0@)),
        s.agent_labels.lookup(tid as u64) is None ==> sidebar_poll::pane_title(s, routing, p)
            == Some(titles::prefixed_title("Agent"@, sidebar_items::pane_label_text(p))),
{
}

} // verus!
