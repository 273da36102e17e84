//! Watching the agents at work: what their panes show is classified and
//! reported, and the input queued for them is typed.

use vstd::prelude::*;
use vstd::string::*;

use crate::host;
use crate::host::{Action, ActionView, PaneId};
use crate::inputs;
use crate::inputs::PendingInputRow;
use crate::modes::Mode;
use crate::rows::{ProcessRow, ProcessRowView};
use crate::sidebar;
use crate::sidebar::{PaneRowView, PanoptPane};
use crate::sidebar_poll;
use crate::sidebar_slots;
use crate::status;
use crate::status::{AgentState, StatusMatcher};
use crate::text;
use crate::textmap::TextMap;

verus! {

/// How many lines of an agent's output are kept.
pub const OUTPUT_ROWS: usize = 300;

/// A running agent whose pane can be read.
#[derive(Debug)]
pub struct Observed {
    pub id: u64,
    pub tool_type: String,
    pub pane: PaneId,
}

/// The contents of an [`Observed`].
pub struct ObservedView {
    pub id: u64,
    pub tool_type: Seq<char>,
    pub pane: PaneId,
}

impl View for Observed {
    type V = ObservedView;

    open spec fn view(&self) -> ObservedView {
        ObservedView { id: self.id, tool_type: self.tool_type@, pane: self.pane }
    }
}

/// The contents of observed agents.
pub open spec fn observed_views(v: Seq<Observed>) -> Seq<ObservedView> {
    v.map_values(|o: Observed| o@)
}

/// Whether a process is a running agent backed by a config.
pub open spec fn is_observable(r: ProcessRowView) -> bool {
    r.kind == "agent"@ && r.status == Some("running"@) && r.tool_type is Some
}

/// The agents to observe.
pub open spec fn observable_ids(processes: Seq<ProcessRowView>) -> Seq<u64>
    decreases processes.len(),
{
    if processes.len() == 0 {
        seq![]
    } else if is_observable(processes.last()) {
        observable_ids(processes.drop_last()).push(processes.last().id)
    } else {
        observable_ids(processes.drop_last())
    }
}

/// The agents to observe whose panes are there.
pub open spec fn observables(
    processes: Seq<ProcessRowView>,
    panes: Seq<PaneRowView>,
) -> Seq<ObservedView>
    decreases processes.len(),
{
    if processes.len() == 0 {
        seq![]
    } else {
        let before = observables(processes.drop_last(), panes);
        let r = processes.last();
        match sidebar::agent_pane_of(panes, r.id, r.agent_id) {
            Some(pane) => if is_observable(r) {
                before.push(ObservedView { id: r.id, tool_type: r.tool_type->0, pane })
            } else {
                before
            },
            None => before,
        }
    }
}

/// The last lines of an output.
pub open spec fn output_tail(viewport: Seq<Seq<char>>) -> Seq<char> {
    text::joined(
        if viewport.len() > OUTPUT_ROWS {
            viewport.skip(viewport.len() - OUTPUT_ROWS)
        } else {
            viewport
        },
        "\n"@,
    )
}

/// The command that reports what an agent is doing.
pub open spec fn state_report(port: Seq<char>, id: u64, state: AgentState) -> Seq<Seq<char>> {
    seq![
        "_process-report"@,
        "--port"@,
        port,
        "--id"@,
        text::decimal(id as nat),
        "--agent-state"@,
        state.name(),
    ]
}

/// What an agent's pane shows, if its type has patterns.
pub open spec fn shown_state(
    matchers: TextMap<StatusMatcher>,
    tool_type: Seq<char>,
    viewport: Seq<Seq<char>>,
) -> Option<AgentState> {
    if matchers.has(tool_type) {
        Some(matchers.value(tool_type).state_of(status::live_region(viewport)))
    } else {
        None
    }
}

/// Whether the bell rings: an agent that was at work has fallen idle. What is
/// seen first of an agent never rings.
pub open spec fn rings(s: PanoptPane, id: u64, state: AgentState) -> bool {
    s.idle_bell && state == AgentState::Idle && (s.reported_states.lookup(id) matches Some(prev)
        && prev != AgentState::Idle)
}

/// What looking at an agent's pane leads to: its output is kept, and a change
/// of what it is doing is reported.
pub open spec fn observation_actions(
    s: PanoptPane,
    o: ObservedView,
    viewport: Seq<Seq<char>>,
) -> Seq<ActionView> {
    seq![ActionView::SaveOutput(o.id, output_tail(viewport))] + (match shown_state(
        s.status_matchers,
        o.tool_type,
        viewport,
    ) {
        Some(state) => if s.reported_states.lookup(o.id) == Some(state) {
            seq![]
        } else {
            seq![ActionView::Run(state_report(s.port@, o.id, state))]
        },
        None => seq![],
    })
}

/// A steady agent is reported once.
pub proof fn law_reports_are_changes(
    s: PanoptPane,
    o: ObservedView,
    viewport: Seq<Seq<char>>,
)
    requires
        shown_state(s.status_matchers, o.tool_type, viewport) is Some,
        s.reported_states.lookup(o.id) == shown_state(s.status_matchers, o.tool_type, viewport),
    ensures
        observation_actions(s, o, viewport) == seq![
            ActionView::SaveOutput(o.id, output_tail(viewport)),
        ],
        !rings(s, o.id, shown_state(s.status_matchers, o.tool_type, viewport)->0),
{
    let head = seq![ActionView::SaveOutput(o.id, output_tail(viewport))];
    assert(head + Seq::<ActionView>::empty() =~= head);
}

// ---------------------------------------------------------------------------
// Input
// ---------------------------------------------------------------------------

/// Whether a process can take input: it runs, and its prompt is up. The prompt
/// is known to be up once the agent was classified; an agent that cannot be is
/// taken to be ready.
pub open spec fn is_ready(matchers: TextMap<StatusMatcher>, r: ProcessRowView, id: u64) -> bool {
    r.id == id && r.status == Some("running"@) && (r.agent_state is Some || !(r.tool_type matches Some(
        t,
    ) && matchers.has(t)))
}

/// The process that takes an input.
pub open spec fn ready_process(
    matchers: TextMap<StatusMatcher>,
    processes: Seq<ProcessRowView>,
    id: u64,
) -> Option<ProcessRowView>
    decreases processes.len(),
{
    if processes.len() == 0 {
        None
    } else if is_ready(matchers, processes[0], id) {
        Some(processes[0])
    } else {
        ready_process(matchers, processes.drop_first(), id)
    }
}

/// The pane that takes an input, if it is not delivered yet.
pub open spec fn input_pane(s: PanoptPane, input: (i64, u64, Seq<char>)) -> Option<PaneId> {
    if s.delivered_inputs@.contains(input.0) {
        None
    } else {
        match ready_process(s.status_matchers, s.process_list(), input.1) {
            Some(r) => sidebar::agent_pane_of(s.pane_list(), input.1, r.agent_id),
            None => None,
        }
    }
}

/// The command that acknowledges an input.
pub open spec fn ack_args(port: Seq<char>, seq: i64) -> Seq<Seq<char>> {
    seq!["_input-ack"@, "--port"@, port, "--seq"@, text::signed_decimal(seq as int)]
}

/// What is typed of an input: all but the line end that submits it.
pub open spec fn typed_text(content: Seq<char>) -> Seq<char> {
    text::trim_right_of(content, "\r\n"@)
}

/// Whether an input is submitted.
pub open spec fn submits(content: Seq<char>) -> bool {
    content.len() > 0 && content.last() == '\n'
}

/// The inputs that are typed now: which ones, into which panes Enter is due,
/// and what is asked for.
pub struct Delivery {
    pub seqs: Seq<i64>,
    pub due: Seq<PaneId>,
    pub acts: Seq<ActionView>,
}

/// What is delivered of queued inputs.
pub open spec fn delivered(s: PanoptPane, queued: Seq<(i64, u64, Seq<char>)>) -> Delivery
    decreases queued.len(),
{
    if queued.len() == 0 {
        Delivery { seqs: seq![], due: seq![], acts: seq![] }
    } else {
        let before = delivered(s, queued.drop_last());
        let input = queued.last();
        match input_pane(s, input) {
            Some(pane) => Delivery {
                seqs: before.seqs.push(input.0),
                due: if submits(input.2) {
                    before.due.push(pane)
                } else {
                    before.due
                },
                acts: before.acts.push(ActionView::Type(pane, typed_text(input.2))).push(
                    ActionView::Run(ack_args(s.port@, input.0)),
                ),
            },
            None => before,
        }
    }
}

/// The Enter that is due is typed.
pub open spec fn enters(panes: Seq<PaneId>) -> Seq<ActionView> {
    panes.map_values(|p: PaneId| ActionView::Type(p, "\r"@))
}

/// What is asked for, and what the pane knows, after input was delivered: the
/// Enter of the last round comes first, and that of this round is due in the
/// next.
pub open spec fn deliveries(s: PanoptPane, body: Option<&str>) -> Delivery {
    let now = match body {
        Some(b) => if sidebar_slots::can_launch(s) {
            delivered(s, inputs::inputs_on(text::line_seq(b@)))
        } else {
            Delivery { seqs: seq![], due: seq![], acts: seq![] }
        },
        None => Delivery { seqs: seq![], due: seq![], acts: seq![] },
    };
    Delivery { seqs: now.seqs, due: now.due, acts: enters(s.pending_submit@) + now.acts }
}

/// What was delivered is not delivered again.
pub proof fn law_delivered_once(s: PanoptPane, queued: Seq<(i64, u64, Seq<char>)>, i: int)
    ensures
        0 <= i < delivered(s, queued).seqs.len() ==> !s.delivered_inputs@.contains(
            delivered(s, queued).seqs[i],
        ),
    decreases queued.len(),
{
    if queued.len() > 0 {
        law_delivered_once(s, queued.drop_last(), i);
    }
}

/// Whether every queued input has an id of its own.
pub open spec fn seqs_differ(queued: Seq<(i64, u64, Seq<char>)>) -> bool {
    forall|i: int, j: int| 0 <= i < j < queued.len() ==> queued[i].0 != queued[j].0
}

/// What is delivered stands in the queue.
proof fn lemma_delivered_was_queued(
    s: PanoptPane,
    queued: Seq<(i64, u64, Seq<char>)>,
    i: int,
) -> (k: int)
    requires
        0 <= i < delivered(s, queued).seqs.len(),
    ensures
        0 <= k < queued.len() && queued[k].0 == delivered(s, queued).seqs[i],
    decreases queued.len(),
{
    let before = delivered(s, queued.drop_last()).seqs;
    if i < before.len() {
        lemma_delivered_was_queued(s, queued.drop_last(), i)
    } else {
        queued.len() - 1
    }
}

/// One round types each input of a queue at most once.
pub proof fn law_round_types_once(
    s: PanoptPane,
    queued: Seq<(i64, u64, Seq<char>)>,
    i: int,
    j: int,
)
    requires
        seqs_differ(queued),
        0 <= i < j < delivered(s, queued).seqs.len(),
    ensures
        delivered(s, queued).seqs[i] != delivered(s, queued).seqs[j],
    decreases queued.len(),
{
    let front = queued.drop_last();
    let before = delivered(s, front).seqs;
    if j < before.len() {
        law_round_types_once(s, front, i, j);
    } else {
        let k = lemma_delivered_was_queued(s, front, i);
        assert(queued[k].0 == before[i]);
    }
}

/// A round on inputs that were all delivered types nothing and acknowledges
/// nothing.
pub proof fn law_delivered_stay_quiet(s: PanoptPane, queued: Seq<(i64, u64, Seq<char>)>)
    requires
        forall|k: int|
            0 <= k < queued.len() ==> s.delivered_inputs@.contains(#[trigger] queued[k].0),
    ensures
        delivered(s, queued) == (Delivery { seqs: seq![], due: seq![], acts: seq![] }),
    decreases queued.len(),
{
    if queued.len() > 0 {
        assert(s.delivered_inputs@.contains(queued[queued.len() - 1].0));
        law_delivered_stay_quiet(s, queued.drop_last());
    }
}

impl PanoptPane {
    /// Whether a process is a running agent backed by a config.
    fn observable(r: &ProcessRow) -> (b: bool)
        ensures
            b == is_observable(r@),
    {
        text::same(r.kind.as_str(), "agent") && text::is_some_text(&r.status, "running")
            && r.tool_type.is_some()
    }

    /// Forgets what was reported of agents that run no more.
    fn prune_reported(&mut self)
        requires
            old(self).wf(),
        ensures
            *final(self) == (PanoptPane {
                reported_states: final(self).reported_states,
                ..*old(self)
            }),
            final(self).wf(),
            forall|k: u64|
                #[trigger] final(self).reported_states.lookup(k) == (if observable_ids(
                    old(self).process_list(),
                ).contains(k) {
                    old(self).reported_states.lookup(k)
                } else {
                    None
                }),
    {
        let ghost all = self.process_list();
        let mut live: Vec<u64> = Vec::new();
        let mut i: usize = 0;
        assert(all.take(0) =~= seq![]);
        while i < self.processes.len()
            invariant
                i <= self.processes.len(),
                all == self.process_list(),
                *self == *old(self),
                live@ == observable_ids(all.take(i as int)),
            decreases self.processes.len() - i,
        {
            let r = &self.processes[i];
            proof {
                assert(all.take(i + 1).drop_last() =~= all.take(i as int));
                assert(all.take(i + 1).last() == r@);
            }
            if PanoptPane::observable(r) {
                live.push(r.id);
            }
            i += 1;
        }
        assert(all.take(i as int) =~= all);
        self.reported_states.retain(&live);
    }

    /// Forgets what was reported of agents that run no more, and lists those
    /// whose panes are to be read.
    pub fn observable_agents(&mut self) -> (out: Vec<Observed>)
        requires
            old(self).wf(),
        ensures
            *final(self) == (PanoptPane {
                reported_states: final(self).reported_states,
                ..*old(self)
            }),
            final(self).wf(),
            if sidebar_poll::keeps_gate(*old(self)) {
                &&& forall|k: u64|
                    #[trigger] final(self).reported_states.lookup(k) == (if observable_ids(
                        old(self).process_list(),
                    ).contains(k) {
                        old(self).reported_states.lookup(k)
                    } else {
                        None
                    })
                &&& observed_views(out@) == (if sidebar_slots::can_launch(*old(self)) {
                    observables(old(self).process_list(), old(self).pane_list())
                } else {
                    seq![]
                })
            } else {
                final(self).reported_states == old(self).reported_states && out@.len() == 0
            },
    {
        let mut out: Vec<Observed> = Vec::new();
        assert(observed_views(out@) =~= seq![]);
        if self.mode != Mode::Todos || !self.permitted {
            return out;
        }
        self.prune_reported();
        if self.launch_cwd().is_none() {
            return out;
        }
        let ghost all = self.process_list();
        let ghost panes = self.pane_list();
        let mut i: usize = 0;
        assert(all.take(0) =~= seq![]);
        while i < self.processes.len()
            invariant
                i <= self.processes.len(),
                all == self.process_list(),
                panes == self.pane_list(),
                observed_views(out@) == observables(all.take(i as int), panes),
            decreases self.processes.len() - i,
        {
            let r = &self.processes[i];
            let ghost before = out@;
            proof {
                assert(all.take(i + 1).drop_last() =~= all.take(i as int));
                assert(all.take(i + 1).last() == r@);
            }
            if PanoptPane::observable(r) {
                let agent_id = match &r.agent_id {
                    Some(a) => Some(a.as_str()),
                    None => None,
                };
                if let Some(pane) = self.agent_pane(r.id, agent_id) {
                    if let Some(t) = &r.tool_type {
                        let o = Observed { id: r.id, tool_type: t.clone(), pane };
                        out.push(o);
                        assert(observed_views(out@) =~= observed_views(before).push(o@));
                    }
                }
            }
            i += 1;
        }
        assert(all.take(i as int) =~= all);
        out
    }

    /// Looks at an agent's pane: its output is kept, a change of what it is
    /// doing is reported, and the bell may ring.
    pub fn observe_agent(&mut self, o: &Observed, viewport: &Vec<String>) -> (out: Vec<Action>)
        requires
            old(self).wf(),
        ensures
            *final(self) == (PanoptPane {
                reported_states: final(self).reported_states,
                pending_bell: final(self).pending_bell,
                ..*old(self)
            }),
            final(self).wf(),
            host::actions(out@) == observation_actions(*old(self), o@, text::texts(viewport@)),
            match shown_state(old(self).status_matchers, o.tool_type@, text::texts(viewport@)) {
                Some(state) => {
                    &&& forall|k: u64|
                        #[trigger] final(self).reported_states.lookup(k) == (if k == o.id {
                            Some(state)
                        } else {
                            old(self).reported_states.lookup(k)
                        })
                    &&& final(self).pending_bell == (old(self).pending_bell || rings(
                        *old(self),
                        o.id,
                        state,
                    ))
                },
                None => {
                    &&& final(self).reported_states == old(self).reported_states
                    &&& final(self).pending_bell == old(self).pending_bell
                },
            },
    {
        let shown = self.see_state(o, viewport);
        let out = self.act_on(o, viewport, shown);
        if let Some(state) = shown {
            let bell = self.pending_bell || self.would_ring(o.id, state);
            self.pending_bell = bell;
            self.reported_states.insert(o.id, state);
        }
        out
    }

    /// What an agent's pane shows.
    fn see_state(&self, o: &Observed, viewport: &Vec<String>) -> (r: Option<AgentState>)
        requires
            self.wf(),
        ensures
            r == shown_state(self.status_matchers, o.tool_type@, text::texts(viewport@)),
    {
        match self.status_matchers.get(o.tool_type.as_str()) {
            None => None,
            Some(matcher) => {
                let region = status::viewport_live_region(viewport.as_slice());
                Some(matcher.classify(region.as_str()))
            },
        }
    }

    /// Whether the bell rings.
    fn would_ring(&self, id: u64, state: AgentState) -> (r: bool)
        requires
            self.wf(),
        ensures
            r == rings(*self, id, state),
    {
        match self.known_state(id) {
            Some(prev) => self.idle_bell && state == AgentState::Idle && prev != AgentState::Idle,
            None => false,
        }
    }

    /// What looking at an agent's pane leads to.
    fn act_on(&self, o: &Observed, viewport: &Vec<String>, shown: Option<AgentState>) -> (out: Vec<
        Action,
    >)
        requires
            self.wf(),
            shown == shown_state(self.status_matchers, o.tool_type@, text::texts(viewport@)),
        ensures
            host::actions(out@) == observation_actions(*self, o@, text::texts(viewport@)),
    {
        let mut out = host::one_action(Action::SaveOutput(o.id, tail_of(viewport)));
        let ghost head = host::actions(out@);
        assert(head + Seq::<ActionView>::empty() =~= head);
        let state = match shown {
            None => {
                return out;
            },
            Some(state) => state,
        };
        if let Some(prev) = self.known_state(o.id) {
            if prev == state {
                return out;
            }
        }
        let id_text = text::number(o.id);
        let words = vec![
            "_process-report",
            "--port",
            self.port.as_str(),
            "--id",
            id_text.as_str(),
            "--agent-state",
            state.as_str(),
        ];
        let args = host::owned(&words);
        assert(text::texts(args@) =~= state_report(self.port@, o.id, state));
        host::push_action(&mut out, Action::Run(args));
        assert(host::actions(out@) =~= head + seq![
            ActionView::Run(state_report(self.port@, o.id, state)),
        ]);
        out
    }

    /// What was last reported of an agent.
    fn known_state(&self, id: u64) -> (r: Option<AgentState>)
        requires
            self.wf(),
        ensures
            r == self.reported_states.lookup(id),
    {
        match self.reported_states.get(id) {
            Some(state) => Some(*state),
            None => None,
        }
    }

    /// The place of the process that takes an input.
    fn find_ready(&self, id: u64) -> (r: Option<usize>)
        requires
            self.wf(),
        ensures
            match r {
                Some(i) => i < self.processes.len() && ready_process(
                    self.status_matchers,
                    self.process_list(),
                    id,
                ) == Some(self.processes@[i as int]@),
                None => ready_process(self.status_matchers, self.process_list(), id) is None,
            },
    {
        let ghost all = self.process_list();
        let mut i: usize = 0;
        assert(all.skip(0) =~= all);
        while i < self.processes.len()
            invariant
                i <= self.processes.len(),
                self.wf(),
                all == self.process_list(),
                ready_process(self.status_matchers, all, id) == ready_process(
                    self.status_matchers,
                    all.skip(i as int),
                    id,
                ),
            decreases self.processes.len() - i,
        {
            let r = &self.processes[i];
            assert(all.skip(i as int)[0] == r@);
            let classified = match &r.tool_type {
                Some(t) => self.status_matchers.contains(t.as_str()),
                None => false,
            };
            if r.id == id && text::is_some_text(&r.status, "running") && (r.agent_state.is_some()
                || !classified) {
                return Some(i);
            }
            assert(all.skip(i as int).drop_first() =~= all.skip(i + 1));
            i += 1;
        }
        None
    }

    /// The pane that takes an input.
    fn pane_for_input(&self, row: &PendingInputRow) -> (r: Option<PaneId>)
        requires
            self.wf(),
        ensures
            r == input_pane(*self, row@),
    {
        if holds_seq(&self.delivered_inputs, row.seq) {
            return None;
        }
        match self.find_ready(row.process_id) {
            Some(i) => {
                let agent_id = match &self.processes[i].agent_id {
                    Some(a) => Some(a.as_str()),
                    None => None,
                };
                self.agent_pane(row.process_id, agent_id)
            },
            None => None,
        }
    }

    /// Types and acknowledges the inputs whose panes are ready.
    fn type_inputs(&self, queued: &Vec<PendingInputRow>) -> (r: (Vec<i64>, Vec<PaneId>, Vec<Action>))
        requires
            self.wf(),
        ensures
            ({
                let d = delivered(*self, inputs::row_views(queued@));
                r.0@ == d.seqs && r.1@ == d.due && host::actions(r.2@) == d.acts
            }),
    {
        let ghost all = inputs::row_views(queued@);
        let mut seqs: Vec<i64> = Vec::new();
        let mut due: Vec<PaneId> = Vec::new();
        let mut out = host::no_actions();
        let mut i: usize = 0;
        assert(all.take(0) =~= seq![]);
        while i < queued.len()
            invariant
                i <= queued.len(),
                self.wf(),
                all == inputs::row_views(queued@),
                seqs@ == delivered(*self, all.take(i as int)).seqs,
                due@ == delivered(*self, all.take(i as int)).due,
                host::actions(out@) == delivered(*self, all.take(i as int)).acts,
            decreases queued.len() - i,
        {
            let row = &queued[i];
            proof {
                assert(all.take(i + 1).drop_last() =~= all.take(i as int));
                assert(all.take(i + 1).last() == row@);
            }
            if let Some(pane) = self.pane_for_input(row) {
                let body = text::trim_end_of(row.content.as_str(), "\r\n");
                host::push_action(&mut out, Action::Type(pane, body.to_owned()));
                if ends_line(row.content.as_str()) {
                    due.push(pane);
                }
                let seq_text = text::signed_number(row.seq);
                let words = vec![
                    "_input-ack",
                    "--port",
                    self.port.as_str(),
                    "--seq",
                    seq_text.as_str(),
                ];
                let args = host::owned(&words);
                assert(text::texts(args@) =~= ack_args(self.port@, row.seq));
                host::push_action(&mut out, Action::Run(args));
                seqs.push(row.seq);
            }
            i += 1;
        }
        assert(all.take(i as int) =~= all);
        (seqs, due, out)
    }

    /// Types the queued input into the agents' panes. The Enter that submits
    /// an input comes a round after its text: typed together, the two would
    /// be taken for a paste.
    pub fn deliver_pending_inputs(&mut self, body: Option<&str>) -> (out: Vec<Action>)
        requires
            old(self).wf(),
        ensures
            final(self).wf(),
            if sidebar_poll::keeps_gate(*old(self)) {
                let d = deliveries(*old(self), body);
                &&& *final(self) == (PanoptPane {
                    pending_submit: final(self).pending_submit,
                    delivered_inputs: final(self).delivered_inputs,
                    ..*old(self)
                })
                &&& final(self).pending_submit@ == d.due
                &&& final(self).delivered_inputs@ == old(self).delivered_inputs@ + d.seqs
                &&& host::actions(out@) == d.acts
            } else {
                *final(self) == *old(self) && out@.len() == 0
            },
    {
        if self.mode != Mode::Todos || !self.permitted {
            return Vec::new();
        }
        let mut out = enter_all(&self.pending_submit);
        let (mut seqs, due, more) = match body {
            Some(b) if self.launch_cwd().is_some() => self.type_inputs(&inputs::parse_inputs(b)),
            _ => (Vec::new(), Vec::new(), host::no_actions()),
        };
        host::append_actions(&mut out, more);
        self.pending_submit = due;
        self.delivered_inputs.append(&mut seqs);
        out
    }
}

/// The last lines of an output.
fn tail_of(viewport: &Vec<String>) -> (r: String)
    ensures
        r@ == output_tail(text::texts(viewport@)),
{
    let ghost all = text::texts(viewport@);
    let start: usize = if viewport.len() > OUTPUT_ROWS {
        viewport.len() - OUTPUT_ROWS
    } else {
        0
    };
    let mut kept: Vec<String> = Vec::new();
    let mut i: usize = start;
    assert(all.subrange(start as int, start as int) =~= text::texts(kept@));
    while i < viewport.len()
        invariant
            start <= i <= viewport.len(),
            all == text::texts(viewport@),
            text::texts(kept@) == all.subrange(start as int, i as int),
        decreases viewport.len() - i,
    {
        let ghost before = kept@;
        kept.push(viewport[i].clone());
        proof {
            assert(text::texts(kept@) =~= text::texts(before).push(viewport@[i as int]@));
            assert(all.subrange(start as int, i + 1) =~= all.subrange(start as int, i as int).push(
                viewport@[i as int]@,
            ));
        }
        i += 1;
    }
    assert(all.subrange(start as int, i as int) =~= (if all.len() > OUTPUT_ROWS {
        all.skip(all.len() - OUTPUT_ROWS)
    } else {
        all
    }));
    text::join_texts(&kept, "\n")
}

/// Whether a text ends with a line feed.
fn ends_line(s: &str) -> (r: bool)
    ensures
        r == submits(s@),
{
    let cs = text::chars_of(s);
    let n: usize = cs.len();
    n > 0 && cs[n - 1] == '\n'
}

/// Whether a number stands in a list.
fn holds_seq(seqs: &Vec<i64>, seq: i64) -> (r: bool)
    ensures
        r == seqs@.contains(seq),
{
    let mut i: usize = 0;
    while i < seqs.len()
        invariant
            i <= seqs.len(),
            forall|k: int| 0 <= k < i ==> seqs@[k] != seq,
        decreases seqs.len() - i,
    {
        if seqs[i] == seq {
            return true;
        }
        i += 1;
    }
    false
}

/// The Enter that is due is typed.
fn enter_all(panes: &Vec<PaneId>) -> (out: Vec<Action>)
    ensures
        host::actions(out@) == enters(panes@),
{
    let mut out = host::no_actions();
    let mut i: usize = 0;
    assert(host::actions(out@) =~= enters(panes@).take(0));
    while i < panes.len()
        invariant
            i <= panes.len(),
            host::actions(out@) == enters(panes@).take(i as int),
        decreases panes.len() - i,
    {
        host::push_action(&mut out, Action::Type(panes[i], "\r".to_owned()));
        assert(enters(panes@).take(i + 1) =~= enters(panes@).take(i as int).push(
            ActionView::Type(panes@[i as int], "\r"@),
        ));
        i += 1;
    }
    assert(enters(panes@).take(i as int) =~= enters(panes@));
    out
}

} // verus!
