//! What watching the agents comes to: which inputs are typed, what is reported,
//! and when the bell rings.

use vstd::prelude::*;
use vstd::string::*;

use crate::finding_laws;
use crate::host::{ActionView, PaneId};
use crate::inputs;
use crate::panes::PaneRole;
use crate::picking;
use crate::reading_laws;
use crate::rows::ProcessRowView;
use crate::sidebar;
use crate::sidebar::PanoptPane;
use crate::sidebar_watch;
use crate::sidebar_watch::ObservedView;
use crate::status;
use crate::status::{AgentState, StatusMatcher};
use crate::text;
use crate::textmap::TextMap;

verus! {

// ---------------------------------------------------------------------------
// Input
// ---------------------------------------------------------------------------

/// Whether the prompt of a process is up: it runs, and what it is doing was
/// told, or cannot be told because its type has no patterns.
pub open spec fn prompt_is_up(s: PanoptPane, r: ProcessRowView) -> bool {
    &&& r.status == Some("running"@)
    &&& r.agent_state is Some || r.tool_type is None || !s.status_matchers.has(r.tool_type->0)
}

/// Whether a text is what is typed of an input: all of it but the line feeds
/// and carriage returns at its end.
pub open spec fn is_typed_of(typed: Seq<char>, content: Seq<char>) -> bool {
    &&& typed.len() <= content.len()
    &&& typed == content.take(typed.len() as int)
    &&& forall|i: int|
        typed.len() <= i < content.len() ==> (#[trigger] content[i]) == '\r' || content[i] == '\n'
    &&& typed.len() > 0 ==> typed.last() != '\r' && typed.last() != '\n'
}

/// What is typed of an input.
proof fn lemma_typed_text(content: Seq<char>)
    ensures
        is_typed_of(sidebar_watch::typed_text(content), content),
    decreases content.len(),
{
    reveal_strlit("\r\n");
    let set = "\r\n"@;
    assert(set[0] == '\r' && set[1] == '\n');
    if content.len() > 0 && set.contains(content.last()) {
        let front = content.drop_last();
        lemma_typed_text(front);
        let t = sidebar_watch::typed_text(front);
        assert(sidebar_watch::typed_text(content) == t);
        assert(front.take(t.len() as int) =~= content.take(t.len() as int));
        assert forall|i: int| t.len() <= i < content.len() implies (#[trigger] content[i]) == '\r'
            || content[i] == '\n' by {
            if i < front.len() {
                assert(front[i] == content[i]);
            }
        }
    } else {
        assert(content.take(content.len() as int) =~= content);
        if content.len() > 0 {
            if content.last() == '\r' {
                assert(set.contains(set[0]));
            }
            if content.last() == '\n' {
                assert(set.contains(set[1]));
            }
        }
    }
}

/// The process that takes an input is one whose prompt is up, and there is one
/// wherever one's is.
proof fn lemma_ready_process(s: PanoptPane, processes: Seq<ProcessRowView>, id: u64)
    ensures
        match sidebar_watch::ready_process(s.status_matchers, processes, id) {
            Some(r) => r.id == id && prompt_is_up(s, r) && processes.contains(r),
            None => forall|i: int|
                0 <= i < processes.len() ==> (#[trigger] processes[i]).id != id || !prompt_is_up(
                    s,
                    processes[i],
                ),
        },
    decreases processes.len(),
{
    if processes.len() > 0 {
        let rest = processes.drop_first();
        lemma_ready_process(s, rest, id);
        assert forall|j: int| 0 < j < processes.len() implies #[trigger] processes[j] == rest[j
            - 1] by {}
        if sidebar_watch::is_ready(s.status_matchers, processes[0], id) {
            assert(processes.contains(processes[0]));
        } else if let Some(r) = sidebar_watch::ready_process(s.status_matchers, rest, id) {
            let i = choose|i: int| 0 <= i < rest.len() && rest[i] == r;
            assert(processes[i + 1] == r);
        }
    }
}

/// Whether an input may be typed into a pane: it was not typed before, its
/// process is listed with its prompt up, and the pane hosts that process.
pub open spec fn may_type(s: PanoptPane, input: (i64, u64, Seq<char>), pane: PaneId) -> bool {
    &&& !s.delivered_inputs@.contains(input.0)
    &&& exists|r: ProcessRowView, k: int|
        0 <= k < s.pane_list().len() && #[trigger] s.process_list().contains(r) && r.id == input.1
            && prompt_is_up(s, r) && (#[trigger] s.pane_list()[k]).id == pane
            && finding_laws::hosts(s.pane_list()[k], input.1, r.agent_id)
}

/// The pane that takes an input.
proof fn lemma_input_pane(s: PanoptPane, input: (i64, u64, Seq<char>))
    ensures
        match sidebar_watch::input_pane(s, input) {
            Some(pane) => may_type(s, input, pane),
            None => {
                ||| s.delivered_inputs@.contains(input.0)
                ||| forall|i: int|
                    0 <= i < s.process_list().len() ==> (#[trigger] s.process_list()[i]).id
                        != input.1 || !prompt_is_up(s, s.process_list()[i])
                ||| forall|k: int|
                    0 <= k < s.pane_list().len() ==> (#[trigger] s.pane_list()[k]).role
                        != PaneRole::Process(input.1) || s.pane_list()[k].exited
            },
        },
{
    lemma_ready_process(s, s.process_list(), input.1);
    if let Some(r) = sidebar_watch::ready_process(s.status_matchers, s.process_list(), input.1) {
        finding_laws::law_agent_pane_hosts_it(s.pane_list(), input.1, r.agent_id);
        assert(s.process_list().contains(r));
        match sidebar::agent_pane_of(s.pane_list(), input.1, r.agent_id) {
            Some(x) => {
                let k = choose|k: int|
                    0 <= k < s.pane_list().len() && (#[trigger] s.pane_list()[k]).id == x
                        && finding_laws::hosts(s.pane_list()[k], input.1, r.agent_id);
                assert(s.pane_list()[k].id == x);
            },
            None => {
                assert forall|k: int| 0 <= k < s.pane_list().len() implies (
                #[trigger] s.pane_list()[k]).role != PaneRole::Process(input.1)
                    || s.pane_list()[k].exited by {
                    assert(!finding_laws::hosts(s.pane_list()[k], input.1, r.agent_id));
                }
            },
        }
    }
}

/// Of the queued inputs, those are typed that were not typed before and whose
/// process is listed, runs, and is known to have its prompt up, or to be of a
/// kind of which that cannot be known; each into a pane that hosts the process,
/// and each is acknowledged right after. Where a pane runs such a process, its
/// inputs are typed. Enter is due in the panes whose input ends with a line
/// feed.
pub proof fn law_typed_inputs_have_their_prompt_up(
    s: PanoptPane,
    queued: Seq<(i64, u64, Seq<char>)>,
) -> (r: (Seq<int>, Seq<PaneId>))
    ensures
        ({
            let d = sidebar_watch::delivered(s, queued);
            let (at, panes) = r;
            &&& picking::ascend(at)
            &&& at.len() == panes.len()
            &&& d.seqs.len() == at.len()
            &&& d.acts.len() == 2 * at.len()
            &&& forall|m: int|
                0 <= m < at.len() ==> {
                    &&& 0 <= (#[trigger] at[m]) < queued.len()
                    &&& may_type(s, queued[at[m]], panes[m])
                    &&& d.seqs[m] == queued[at[m]].0
                    &&& d.acts[2 * m] matches ActionView::Type(pane, typed) && pane == panes[m]
                        && is_typed_of(typed, queued[at[m]].2)
                    &&& d.acts[2 * m + 1] == ActionView::Run(
                        seq![
                            "_input-ack"@,
                            "--port"@,
                            s.port@,
                            "--seq"@,
                            text::signed_decimal(queued[at[m]].0 as int),
                        ],
                    )
                }
            &&& forall|i: int, p: int, k: int|
                0 <= i < queued.len() && 0 <= p < s.process_list().len() && 0 <= k
                    < s.pane_list().len() && !s.delivered_inputs@.contains(
                    (#[trigger] queued[i]).0,
                ) && (#[trigger] s.process_list()[p]).id == queued[i].1 && prompt_is_up(
                    s,
                    s.process_list()[p],
                ) && (#[trigger] s.pane_list()[k]).role == PaneRole::Process(queued[i].1)
                    && !s.pane_list()[k].exited ==> at.contains(i)
            &&& forall|pane: PaneId| #[trigger]
                d.due.contains(pane) <==> exists|m: int|
                    0 <= m < at.len() && panes[m] == pane && queued[#[trigger] at[m]].2.len() > 0
                        && queued[at[m]].2.last() == '\n'
        }),
    decreases queued.len(),
{
    let d = sidebar_watch::delivered(s, queued);
    if queued.len() == 0 {
        (Seq::empty(), Seq::empty())
    } else {
        let front = queued.drop_last();
        let n = queued.len() - 1;
        let input = queued.last();
        let (at0, panes0) = law_typed_inputs_have_their_prompt_up(s, front);
        let e = sidebar_watch::delivered(s, front);
        lemma_input_pane(s, input);
        lemma_typed_text(input.2);
        match sidebar_watch::input_pane(s, input) {
            Some(pane) => {
                let at = at0.push(n);
                let panes = panes0.push(pane);
                assert forall|m: int| 0 <= m < at.len() implies {
                    &&& 0 <= (#[trigger] at[m]) < queued.len()
                    &&& may_type(s, queued[at[m]], panes[m])
                    &&& d.seqs[m] == queued[at[m]].0
                    &&& d.acts[2 * m] matches ActionView::Type(pane, typed) && pane == panes[m]
                        && is_typed_of(typed, queued[at[m]].2)
                    &&& d.acts[2 * m + 1] == ActionView::Run(
                        seq![
                            "_input-ack"@,
                            "--port"@,
                            s.port@,
                            "--seq"@,
                            text::signed_decimal(queued[at[m]].0 as int),
                        ],
                    )
                } by {
                    if m < at0.len() {
                        assert(at0[m] == at[m]);
                        assert(d.acts[2 * m] == e.acts[2 * m]);
                        assert(d.acts[2 * m + 1] == e.acts[2 * m + 1]);
                    }
                }
                assert forall|i: int, j: int| 0 <= i < j < at.len() implies (#[trigger] at[i]) < (
                #[trigger] at[j]) by {
                    assert(at0[i] == at[i]);
                    if j < at0.len() {
                        assert(at0[j] == at[j]);
                    }
                }
                assert forall|i: int, p: int, k: int|
                    0 <= i < queued.len() && 0 <= p < s.process_list().len() && 0 <= k
                        < s.pane_list().len() && !s.delivered_inputs@.contains(
                        (#[trigger] queued[i]).0,
                    ) && (#[trigger] s.process_list()[p]).id == queued[i].1 && prompt_is_up(
                        s,
                        s.process_list()[p],
                    ) && (#[trigger] s.pane_list()[k]).role == PaneRole::Process(queued[i].1)
                        && !s.pane_list()[k].exited implies at.contains(i) by {
                    picking::lemma_push_holds(at0, n, i);
                    if i < n {
                        assert(front[i] == queued[i]);
                        assert(at0.contains(i));
                    }
                }
                assert forall|x: PaneId| #[trigger] d.due.contains(x) <==> exists|m: int|
                    0 <= m < at.len() && panes[m] == x && queued[#[trigger] at[m]].2.len() > 0
                        && queued[at[m]].2.last() == '\n' by {
                    lemma_due_grows(e.due, at0, panes0, front, input, pane, x);
                    assert(at[at0.len() as int] == n);
                    assert(queued[n] == input);
                    if exists|m: int|
                        0 <= m < at.len() && panes[m] == x && queued[#[trigger] at[m]].2.len() > 0
                            && queued[at[m]].2.last() == '\n' {
                        let m = choose|m: int|
                            0 <= m < at.len() && panes[m] == x && queued[#[trigger] at[m]].2.len()
                                > 0 && queued[at[m]].2.last() == '\n';
                        if m < at0.len() {
                            assert(at0[m] == at[m]);
                            assert(front[at0[m]] == queued[at[m]]);
                        }
                    }
                    if e.due.contains(x) {
                        let m = choose|m: int|
                            0 <= m < at0.len() && panes0[m] == x && front[#[trigger] at0[m]].2.len()
                                > 0 && front[at0[m]].2.last() == '\n';
                        assert(at[m] == at0[m]);
                        assert(front[at0[m]] == queued[at[m]]);
                    }
                }
                (at, panes)
            },
            None => {
                assert forall|m: int| 0 <= m < at0.len() implies queued[#[trigger] at0[m]]
                    == front[at0[m]] by {}
                assert forall|i: int, p: int, k: int|
                    0 <= i < queued.len() && 0 <= p < s.process_list().len() && 0 <= k
                        < s.pane_list().len() && !s.delivered_inputs@.contains(
                        (#[trigger] queued[i]).0,
                    ) && (#[trigger] s.process_list()[p]).id == queued[i].1 && prompt_is_up(
                        s,
                        s.process_list()[p],
                    ) && (#[trigger] s.pane_list()[k]).role == PaneRole::Process(queued[i].1)
                        && !s.pane_list()[k].exited implies at0.contains(i) by {
                    if i < n {
                        assert(front[i] == queued[i]);
                    }
                }
                assert forall|x: PaneId| #[trigger] d.due.contains(x) <==> exists|m: int|
                    0 <= m < at0.len() && panes0[m] == x && queued[#[trigger] at0[m]].2.len() > 0
                        && queued[at0[m]].2.last() == '\n' by {
                    assert(d.due.contains(x) <==> exists|m: int|
                        0 <= m < at0.len() && panes0[m] == x && front[#[trigger] at0[m]].2.len() > 0
                            && front[at0[m]].2.last() == '\n');
                }
                (at0, panes0)
            },
        }
    }
}

/// Enter is due in the panes of before, and in the one that was typed into where
/// its input ends with a line feed.
proof fn lemma_due_grows(
    due: Seq<PaneId>,
    at: Seq<int>,
    panes: Seq<PaneId>,
    front: Seq<(i64, u64, Seq<char>)>,
    input: (i64, u64, Seq<char>),
    pane: PaneId,
    x: PaneId,
)
    ensures
        (if sidebar_watch::submits(input.2) {
            due.push(pane)
        } else {
            due
        }).contains(x) <==> due.contains(x) || (x == pane && input.2.len() > 0 && input.2.last()
            == '\n'),
{
    picking::lemma_push_holds(due, pane, x);
}

/// What is asked for when input is delivered: first the Enter that is due from
/// the last round, each in its pane, and then what is typed now. Without a
/// queue, or where nothing can be launched, there is nothing but the Enter.
pub proof fn law_enter_comes_a_round_later(s: PanoptPane, body: Option<&str>)
    ensures
        ({
            let d = sidebar_watch::deliveries(s, body);
            let n = s.pending_submit@.len();
            &&& d.acts.len() >= n
            &&& forall|i: int|
                0 <= i < n ==> #[trigger] d.acts[i] == ActionView::Type(
                    s.pending_submit@[i],
                    seq!['\r'],
                )
            &&& body is None || !s.permitted || s.ws is None ==> d.acts.len() == n && d.due.len()
                == 0 && d.seqs.len() == 0
            &&& body is Some && s.permitted && s.ws is Some ==> {
                let now = sidebar_watch::delivered(
                    s,
                    inputs::inputs_on(text::line_seq(body->0@)),
                );
                d.acts.skip(n as int) == now.acts && d.due == now.due && d.seqs == now.seqs
            }
        }),
{
    reveal_strlit("\r");
    assert("\r"@ =~= seq!['\r']);
    let d = sidebar_watch::deliveries(s, body);
    let e = sidebar_watch::enters(s.pending_submit@);
    if body is Some && s.permitted && s.ws is Some {
        let now = sidebar_watch::delivered(s, inputs::inputs_on(text::line_seq(body->0@)));
        assert((e + now.acts).skip(e.len() as int) =~= now.acts);
    }
}

// ---------------------------------------------------------------------------
// What agents do
// ---------------------------------------------------------------------------

/// The bell rings when an agent that was last seen at something else has fallen
/// idle, and never otherwise: not where it is off, not for an agent seen for the
/// first time, not for one that was idle before, and not for one at work.
pub proof fn law_bell_rings_when_work_ends(s: PanoptPane, id: u64, state: AgentState)
    ensures
        !s.idle_bell ==> !sidebar_watch::rings(s, id, state),
        state != AgentState::Idle ==> !sidebar_watch::rings(s, id, state),
        s.reported_states.lookup(id) is None ==> !sidebar_watch::rings(s, id, state),
        s.reported_states.lookup(id) == Some(AgentState::Idle) ==> !sidebar_watch::rings(
            s,
            id,
            state,
        ),
        s.idle_bell && state == AgentState::Idle && s.reported_states.lookup(id) is Some
            && s.reported_states.lookup(id) != Some(AgentState::Idle) ==> sidebar_watch::rings(
            s,
            id,
            state,
        ),
{
}

/// Looking at an agent keeps the last of its output, at most three hundred
/// rows, and reports what it is doing exactly where that is told and differs
/// from what was reported last; the report names the process and the state.
pub proof fn law_changes_are_reported(
    s: PanoptPane,
    o: ObservedView,
    viewport: Seq<Seq<char>>,
)
    ensures
        ({
            let acts = sidebar_watch::observation_actions(s, o, viewport);
            let k = if viewport.len() <= 300 {
                viewport.len() as int
            } else {
                300int
            };
            let state = sidebar_watch::shown_state(s.status_matchers, o.tool_type, viewport);
            &&& acts.len() >= 1
            &&& acts[0] == ActionView::SaveOutput(
                o.id,
                text::joined(
                    Seq::new(k as nat, |i: int| viewport[viewport.len() - k + i]),
                    "\n"@,
                ),
            )
            &&& state is None || state == s.reported_states.lookup(o.id) ==> acts.len() == 1
            &&& state is Some && state != s.reported_states.lookup(o.id) ==> acts.len() == 2
                && acts[1] == ActionView::Run(
                seq![
                    "_process-report"@,
                    "--port"@,
                    s.port@,
                    "--id"@,
                    text::decimal(o.id as nat),
                    "--agent-state"@,
                    state->0.name(),
                ],
            )
        }),
{
    let k = if viewport.len() <= 300 {
        viewport.len() as int
    } else {
        300int
    };
    let tail = Seq::new(k as nat, |i: int| viewport[viewport.len() - k + i]);
    if viewport.len() > sidebar_watch::OUTPUT_ROWS {
        assert(viewport.skip(viewport.len() - sidebar_watch::OUTPUT_ROWS) =~= tail);
    } else {
        assert(viewport =~= tail);
    }
}

/// The agents to observe are those of the list that run, have a type, and have
/// a pane that hosts them; each is observed there, in the order of the list.
pub proof fn law_running_agents_are_observed(s: PanoptPane) -> (at: Seq<int>)
    ensures
        ({
            let list = s.process_list();
            let out = sidebar_watch::observables(list, s.pane_list());
            &&& picking::ascend(at)
            &&& at.len() == out.len()
            &&& forall|m: int|
                0 <= m < at.len() ==> {
                    &&& 0 <= (#[trigger] at[m]) < list.len()
                    &&& out[m].id == list[at[m]].id
                    &&& Some(out[m].tool_type) == list[at[m]].tool_type
                    &&& sidebar::agent_pane_of(
                        s.pane_list(),
                        list[at[m]].id,
                        list[at[m]].agent_id,
                    ) == Some(out[m].pane)
                }
            &&& forall|i: int| #[trigger]
                at.contains(i) <==> 0 <= i < list.len() && list[i].kind == "agent"@
                    && list[i].status == Some("running"@) && list[i].tool_type is Some
                    && sidebar::agent_pane_of(s.pane_list(), list[i].id, list[i].agent_id) is Some
        }),
{
    lemma_observables(s.process_list(), s)
}

/// The agents to observe among some processes.
proof fn lemma_observables(list: Seq<ProcessRowView>, s: PanoptPane) -> (at: Seq<int>)
    ensures
        ({
            let out = sidebar_watch::observables(list, s.pane_list());
            &&& picking::ascend(at)
            &&& at.len() == out.len()
            &&& forall|m: int|
                0 <= m < at.len() ==> {
                    &&& 0 <= (#[trigger] at[m]) < list.len()
                    &&& out[m].id == list[at[m]].id
                    &&& Some(out[m].tool_type) == list[at[m]].tool_type
                    &&& sidebar::agent_pane_of(
                        s.pane_list(),
                        list[at[m]].id,
                        list[at[m]].agent_id,
                    ) == Some(out[m].pane)
                }
            &&& forall|i: int| #[trigger]
                at.contains(i) <==> 0 <= i < list.len() && list[i].kind == "agent"@
                    && list[i].status == Some("running"@) && list[i].tool_type is Some
                    && sidebar::agent_pane_of(s.pane_list(), list[i].id, list[i].agent_id) is Some
        }),
    decreases list.len(),
{
    if list.len() == 0 {
        Seq::empty()
    } else {
        let front = list.drop_last();
        let n = list.len() - 1;
        let at0 = lemma_observables(front, s);
        let r = list.last();
        let out = sidebar_watch::observables(list, s.pane_list());
        let out0 = sidebar_watch::observables(front, s.pane_list());
        if r.kind == "agent"@ && r.status == Some("running"@) && r.tool_type is Some
            && sidebar::agent_pane_of(s.pane_list(), r.id, r.agent_id) is Some {
            let at = at0.push(n);
            assert forall|m: int| 0 <= m < at.len() implies {
                &&& 0 <= (#[trigger] at[m]) < list.len()
                &&& out[m].id == list[at[m]].id
                &&& Some(out[m].tool_type) == list[at[m]].tool_type
                &&& sidebar::agent_pane_of(s.pane_list(), list[at[m]].id, list[at[m]].agent_id)
                    == Some(out[m].pane)
            } by {
                if m < at0.len() {
                    assert(at0[m] == at[m]);
                    assert(front[at0[m]] == list[at[m]]);
                    assert(out[m] == out0[m]);
                }
            }
            assert forall|i: int, j: int| 0 <= i < j < at.len() implies (#[trigger] at[i]) < (
            #[trigger] at[j]) by {
                assert(at0[i] == at[i]);
                if j < at0.len() {
                    assert(at0[j] == at[j]);
                }
            }
            assert forall|i: int| #[trigger] at.contains(i) <==> 0 <= i < list.len()
                && list[i].kind == "agent"@ && list[i].status == Some("running"@)
                && list[i].tool_type is Some && sidebar::agent_pane_of(
                s.pane_list(),
                list[i].id,
                list[i].agent_id,
            ) is Some by {
                picking::lemma_push_holds(at0, n, i);
                let _ = at0.contains(i);
                if 0 <= i < front.len() {
                    assert(front[i] == list[i]);
                }
            }
            at
        } else {
            assert(out == out0);
            assert forall|m: int| 0 <= m < at0.len() implies front[#[trigger] at0[m]]
                == list[at0[m]] by {}
            assert forall|i: int| #[trigger] at0.contains(i) <==> 0 <= i < list.len()
                && list[i].kind == "agent"@ && list[i].status == Some("running"@)
                && list[i].tool_type is Some && sidebar::agent_pane_of(
                s.pane_list(),
                list[i].id,
                list[i].agent_id,
            ) is Some by {
                if 0 <= i < front.len() {
                    assert(front[i] == list[i]);
                }
            }
            at0
        }
    }
}

/// What an agent is doing is made out of the last twelve lines of its pane that are
/// not blank, by the patterns of its type; of a type without patterns nothing is
/// made out.
pub proof fn law_state_is_made_out_of_the_last_lines(
    matchers: TextMap<StatusMatcher>,
    tool_type: Seq<char>,
    viewport: Seq<Seq<char>>,
) -> (at: Seq<int>)
    ensures
        picking::ascend(at),
        forall|i: int| #[trigger]
            at.contains(i) <==> 0 <= i < viewport.len() && text::trimmed(viewport[i]).len() > 0,
        forall|k: int| 0 <= k < at.len() ==> 0 <= #[trigger] at[k] < viewport.len(),
        ({
            let from: int = if at.len() <= 12 {
                0
            } else {
                at.len() - 12
            };
            let seen = text::joined(
                Seq::new((at.len() - from) as nat, |k: int| viewport[at[from + k]]),
                "\n"@,
            );
            let state = sidebar_watch::shown_state(matchers, tool_type, viewport);
            let m = matchers.value(tool_type);
            let waiting = reading_laws::shows(m, AgentState::Waiting, seen);
            let thinking = reading_laws::shows(m, AgentState::Thinking, seen);
            let done = reading_laws::shows(m, AgentState::Done, seen);
            &&& !matchers.has(tool_type) ==> state is None
            &&& matchers.has(tool_type) && waiting ==> state == Some(AgentState::Waiting)
            &&& matchers.has(tool_type) && !waiting && thinking ==> state == Some(
                AgentState::Thinking,
            )
            &&& matchers.has(tool_type) && !waiting && !thinking && done ==> state == Some(
                AgentState::Done,
            )
            &&& matchers.has(tool_type) && !waiting && !thinking && !done ==> state == Some(
                AgentState::Idle,
            )
        }),
{
    let at = reading_laws::law_last_filled_lines_are_looked_at(viewport);
    reading_laws::law_waiting_comes_first(
        matchers.value(tool_type),
        status::live_region(viewport),
    );
    at
}

/// What was reported is remembered of the agents that run and have a type, and of
/// no others.
pub proof fn law_running_agents_are_remembered(processes: Seq<ProcessRowView>, id: u64)
    ensures
        sidebar_watch::observable_ids(processes).contains(id) <==> exists|i: int|
            0 <= i < processes.len() && (#[trigger] processes[i]).id == id && processes[i].kind
                == "agent"@ && processes[i].status == Some("running"@)
                && processes[i].tool_type is Some,
    decreases processes.len(),
{
    if processes.len() > 0 {
        let front = processes.drop_last();
        let n = processes.len() - 1;
        law_running_agents_are_remembered(front, id);
        let before = sidebar_watch::observable_ids(front);
        picking::lemma_push_holds(before, processes[n].id, id);
        assert(processes[n] == processes.last());
        if before.contains(id) {
            let i = choose|i: int|
                0 <= i < front.len() && (#[trigger] front[i]).id == id && front[i].kind
                    == "agent"@ && front[i].status == Some("running"@)
                    && front[i].tool_type is Some;
            assert(processes[i] == front[i]);
        }
        if exists|i: int|
            0 <= i < processes.len() && (#[trigger] processes[i]).id == id && processes[i].kind
                == "agent"@ && processes[i].status == Some("running"@)
                && processes[i].tool_type is Some {
            let i = choose|i: int|
                0 <= i < processes.len() && (#[trigger] processes[i]).id == id
                    && processes[i].kind == "agent"@ && processes[i].status == Some("running"@)
                    && processes[i].tool_type is Some;
            if i < n {
                assert(front[i] == processes[i]);
            }
        }
    }
}

} // verus!
