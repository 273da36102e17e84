//! What the gatekeeper does every second: titles, panes for processes that
//! start and end, what the agents are doing, and the input they are sent.

use vstd::prelude::*;
use vstd::string::*;

use crate::host;
use crate::host::{Action, ActionView, PaneId, Purpose};
use crate::idmap::IdMap;
use crate::modes::Mode;
use crate::panes::PaneRole;
use crate::rows::ProcessRowView;
use crate::sidebar;
use crate::sidebar::{PaneQuery, PaneRow, PaneRowView, PanoptPane};
use crate::sidebar_gate;
use crate::sidebar_ingest;
use crate::sidebar_items;
use crate::sidebar_slots;
use crate::status;
use crate::text;
use crate::titles;
use crate::wire;

verus! {

// ---------------------------------------------------------------------------
// Titles
// ---------------------------------------------------------------------------

/// The routing files, each the name of a viewer's slot and the text.
pub open spec fn routing_views(v: Seq<(String, String)>) -> Seq<(Seq<char>, Seq<char>)> {
    v.map_values(|e: (String, String)| (e.0@, e.1@))
}

/// The text of a slot's routing file, empty where there is none.
pub open spec fn routing_text_of(
    routing: Seq<(Seq<char>, Seq<char>)>,
    slot: Seq<char>,
) -> Seq<char>
    decreases routing.len(),
{
    if routing.len() == 0 {
        seq![]
    } else if routing[0].0 == slot {
        routing[0].1
    } else {
        routing_text_of(routing.drop_first(), slot)
    }
}

/// The title of a process's pane: its kind, its number and its label.
pub open spec fn process_pane_title(processes: Seq<ProcessRowView>, id: u64) -> Seq<char> {
    match sidebar::process_in(processes, id) {
        None => "Process #"@ + text::decimal(id as nat),
        Some(row) => if row.kind == "agent"@ {
            titles::process_title("Agent"@, id, row.label)
        } else if row.kind == "command"@ {
            titles::process_title("Command"@, id, row.label)
        } else if row.kind == "terminal"@ {
            titles::process_title("Terminal"@, id, row.label)
        } else {
            "Process #"@ + text::decimal(id as nat) + ": "@ + row.label
        },
    }
}

/// The title of a content pane; a plain terminal keeps its own.
pub open spec fn pane_title(
    s: PanoptPane,
    routing: Seq<(Seq<char>, Seq<char>)>,
    p: PaneRowView,
) -> Option<Seq<char>> {
    match p.role {
        PaneRole::Viewer => match p.viewer_slot {
            None => Some("Viewer"@),
            Some(slot) => {
                let (kind, id) = wire::routing_in(routing_text_of(routing, slot));
                Some(
                    titles::viewer_title(
                        kind,
                        id,
                        titles::entries(s.todos@),
                        titles::entries(s.notes@),
                    ),
                )
            },
        },
        PaneRole::Agent => Some(
            titles::prefixed_title(
                "Agent"@,
                sidebar_items::agent_label_text(s.agent_labels, p),
            ),
        ),
        PaneRole::Process(id) => Some(process_pane_title(s.process_list(), id)),
        PaneRole::Shell => None,
    }
}

/// The titles of the first panes, by terminal, and what renames those that
/// changed.
pub open spec fn titled(
    s: PanoptPane,
    routing: Seq<(Seq<char>, Seq<char>)>,
    panes: Seq<PaneRowView>,
) -> (Map<u64, Seq<char>>, Seq<ActionView>)
    decreases panes.len(),
{
    if panes.len() == 0 {
        (Map::empty(), seq![])
    } else {
        let (map, acts) = titled(s, routing, panes.drop_last());
        match (panes.last().id, pane_title(s, routing, panes.last())) {
            (PaneId::Terminal(tid), Some(title)) => (
                map.insert(tid as u64, title),
                if sidebar_ingest::label_map(s.last_pane_titles).contains_pair(
                    tid as u64,
                    title,
                ) {
                    acts
                } else {
                    acts.push(ActionView::RenameTerminal(tid, title))
                },
            ),
            _ => (map, acts),
        }
    }
}

impl PanoptPane {
    /// The title of a process's pane.
    fn title_of_process(&self, id: u64) -> (r: String)
        ensures
            r@ == process_pane_title(self.process_list(), id),
    {
        let j: usize = match self.process_at(id) {
            None => {
                let mut out = "Process #".to_owned();
                out.append(text::number(id).as_str());
                return out;
            },
            Some(j) => j,
        };
        let row = &self.processes[j];
        if text::same(row.kind.as_str(), "agent") {
            titles::process_pane_title_for("Agent", id, row.label.as_str())
        } else if text::same(row.kind.as_str(), "command") {
            titles::process_pane_title_for("Command", id, row.label.as_str())
        } else if text::same(row.kind.as_str(), "terminal") {
            titles::process_pane_title_for("Terminal", id, row.label.as_str())
        } else {
            let mut out = "Process #".to_owned();
            out.append(text::number(id).as_str());
            out.append(": ");
            out.append(row.label.as_str());
            out
        }
    }

    /// The title of a viewer, by the text of its routing file.
    fn viewer_pane_title(&self, body: &str) -> (r: String)
        ensures
            r@ == titles::viewer_title(
                wire::routing_in(body@).0,
                wire::routing_in(body@).1,
                titles::entries(self.todos@),
                titles::entries(self.notes@),
            ),
    {
        let (kind, id) = wire::parse_viewer_routing(body);
        let kind_text = match &kind {
            Some(k) => Some(k.as_str()),
            None => None,
        };
        titles::viewer_title_for(kind_text, id, self.todos.as_slice(), self.notes.as_slice())
    }

    /// The title of a content pane.
    pub fn compose_pane_title(&self, p: &PaneRow, routing: &Vec<(String, String)>) -> (r: Option<
        String,
    >)
        requires
            self.wf(),
        ensures
            text::opt_text(r) == pane_title(*self, routing_views(routing@), p@),
    {
        match p.role {
            PaneRole::Viewer => match &p.viewer_slot {
                None => Some("Viewer".to_owned()),
                Some(slot) => Some(self.viewer_pane_title(find_routing(routing, slot.as_str()))),
            },
            PaneRole::Agent => {
                let label = self.agent_label(p);
                Some(titles::kind_prefixed_title("Agent", label.as_str()))
            },
            PaneRole::Process(id) => Some(self.title_of_process(id)),
            PaneRole::Shell => None,
        }
    }

    /// Titles the content panes by what they hold, given the routing files of
    /// the viewers. Only the gatekeeper does.
    pub fn sync_pane_titles(&mut self, routing: &Vec<(String, String)>) -> (out: Vec<Action>)
        requires
            old(self).wf(),
        ensures
            *final(self) == (PanoptPane {
                last_pane_titles: final(self).last_pane_titles,
                ..*old(self)
            }),
            final(self).wf(),
            if old(self).mode == Mode::Todos {
                (sidebar_ingest::label_map(final(self).last_pane_titles), host::actions(out@))
                    == titled(*old(self), routing_views(routing@), old(self).pane_list())
            } else {
                final(self).last_pane_titles == old(self).last_pane_titles && out@.len() == 0
            },
    {
        if self.mode != Mode::Todos {
            return Vec::new();
        }
        let ghost was = *self;
        let ghost all = self.pane_list();
        let ghost rv = routing_views(routing@);
        let mut alive: IdMap<String> = IdMap::new();
        let mut out = host::no_actions();
        let mut i: usize = 0;
        proof {
            assert(all.take(0) =~= seq![]);
            assert forall|k: u64| !(#[trigger] sidebar_ingest::label_map(alive).dom().contains(
                k,
            )) by {}
            assert(sidebar_ingest::label_map(alive) =~= Map::<u64, Seq<char>>::empty());
        }
        while i < self.panes.len()
            invariant
                i <= self.panes.len(),
                self.wf(),
                *self == was,
                all == self.pane_list(),
                rv == routing_views(routing@),
                alive.wf(),
                (sidebar_ingest::label_map(alive), host::actions(out@)) == titled(
                    was,
                    rv,
                    all.take(i as int),
                ),
            decreases self.panes.len() - i,
        {
            let p = &self.panes[i];
            proof {
                assert(all.take(i + 1).drop_last() =~= all.take(i as int));
                assert(all.take(i + 1).last() == p@);
            }
            let title = self.compose_pane_title(p, routing);
            if let PaneId::Terminal(tid) = p.id {
                if let Some(title) = title {
                    let ghost before = alive;
                    let same = match self.last_pane_titles.get(tid as u64) {
                        Some(last) => text::same(last.as_str(), title.as_str()),
                        None => false,
                    };
                    assert(same == sidebar_ingest::label_map(was.last_pane_titles).contains_pair(
                        tid as u64,
                        title@,
                    ));
                    if !same {
                        host::push_action(&mut out, Action::RenameTerminal(tid, title.clone()));
                    }
                    alive.insert(tid as u64, title);
                    proof {
                        sidebar_ingest::lemma_label_map_insert(before, alive, tid as u64, title);
                    }
                }
            }
            i += 1;
        }
        assert(all.take(i as int) =~= all);
        self.last_pane_titles = alive;
        out
    }
}

/// The text of a slot's routing file.
fn find_routing<'a>(routing: &'a Vec<(String, String)>, slot: &str) -> (r: &'a str)
    ensures
        r@ == routing_text_of(routing_views(routing@), slot@),
{
    let ghost all = routing_views(routing@);
    let mut i: usize = 0;
    assert(all.skip(0) =~= all);
    while i < routing.len()
        invariant
            i <= routing.len(),
            all == routing_views(routing@),
            routing_text_of(all, slot@) == routing_text_of(all.skip(i as int), slot@),
        decreases routing.len() - i,
    {
        assert(all.skip(i as int)[0] == (routing@[i as int].0@, routing@[i as int].1@));
        if text::same(routing[i].0.as_str(), slot) {
            return routing[i].1.as_str();
        }
        assert(all.skip(i as int).drop_first() =~= all.skip(i + 1));
        i += 1;
    }
    proof {
        reveal_strlit("");
        assert(""@ =~= Seq::<char>::empty());
    }
    ""
}

// ---------------------------------------------------------------------------
// Processes that start
// ---------------------------------------------------------------------------

/// Whether only the gatekeeper with its permissions acts.
pub open spec fn keeps_gate(s: PanoptPane) -> bool {
    s.mode == Mode::Todos && s.permitted
}

/// The ids of processes.
pub open spec fn ids_of(processes: Seq<ProcessRowView>) -> Seq<u64> {
    processes.map_values(|r: ProcessRowView| r.id)
}

/// The processes that the daemon wants started.
pub open spec fn starting_ids(processes: Seq<ProcessRowView>) -> Seq<u64>
    decreases processes.len(),
{
    if processes.len() == 0 {
        seq![]
    } else if processes.last().status == Some("starting"@) {
        starting_ids(processes.drop_last()).push(processes.last().id)
    } else {
        starting_ids(processes.drop_last())
    }
}

/// A process that has no pane is given one, in the background.
pub open spec fn start_actions(s: PanoptPane, id: u64) -> Seq<ActionView> {
    if s.reconciled_panes.has(id) || sidebar::first_pane_id(
        s.pane_list(),
        PaneQuery::Process(id),
    ) is Some {
        seq![]
    } else {
        sidebar_slots::spawn_actions(
            s,
            seq!["_process-run"@, "--port"@, s.port@, text::decimal(id as nat)],
            false,
            Purpose::Starting(id),
        )
    }
}

/// A process is given a pane once: when it has one, nothing is asked for.
pub proof fn law_started_once(s: PanoptPane, id: u64)
    requires
        s.reconciled_panes.has(id),
    ensures
        start_actions(s, id) == Seq::<ActionView>::empty(),
{
}

// ---------------------------------------------------------------------------
// Processes that ended
// ---------------------------------------------------------------------------

/// Whether a process is over: its row is gone, or says so.
pub open spec fn is_disposed(processes: Seq<ProcessRowView>, id: u64) -> bool {
    match sidebar::process_in(processes, id) {
        None => true,
        Some(r) => r.status == Some("stopped"@) || r.status == Some("exited"@),
    }
}

/// The panes that were given to processes that are over.
pub open spec fn disposed_among(
    processes: Seq<ProcessRowView>,
    given: Seq<(u64, u32)>,
) -> Seq<(u64, u32)>
    decreases given.len(),
{
    if given.len() == 0 {
        seq![]
    } else if is_disposed(processes, given.last().0) {
        disposed_among(processes, given.drop_last()).push(given.last())
    } else {
        disposed_among(processes, given.drop_last())
    }
}

/// The panes to hide, covered one after the other.
pub open spec fn covers(s: PanoptPane, over: Seq<(u64, u32)>) -> (PanoptPane, Seq<ActionView>)
    decreases over.len(),
{
    if over.len() == 0 {
        (s, seq![])
    } else {
        let (before, acts) = covers(s, over.drop_last());
        let pane = PaneId::Terminal(over.last().1);
        match sidebar::first_pane(s.pane_list(), PaneQuery::Id(pane)) {
            Some(p) => if !p.suppressed && !p.floating {
                let (after, more) = sidebar_gate::pane_covered(before, pane);
                (after, acts + more)
            } else {
                (before, acts)
            },
            None => (before, acts),
        }
    }
}

/// The processes that are done with: those whose pane is there, hidden by now.
pub open spec fn done_with(panes: Seq<PaneRowView>, over: Seq<(u64, u32)>) -> Seq<u64>
    decreases over.len(),
{
    if over.len() == 0 {
        seq![]
    } else if sidebar::first_pane(
        panes,
        PaneQuery::Id(PaneId::Terminal(over.last().1)),
    ) is Some {
        done_with(panes, over.drop_last()).push(over.last().0)
    } else {
        done_with(panes, over.drop_last())
    }
}

/// No more panes are over than were given out, and covering changes only the
/// number of viewers that were named.
proof fn lemma_covers_bounded(s: PanoptPane, over: Seq<(u64, u32)>)
    requires
        s.next_viewer_slot + over.len() <= u32::MAX,
    ensures
        covers(s, over).0 == (PanoptPane {
            next_viewer_slot: covers(s, over).0.next_viewer_slot,
            ..s
        }),
        s.next_viewer_slot <= covers(s, over).0.next_viewer_slot <= s.next_viewer_slot + over.len(),
    decreases over.len(),
{
    if over.len() > 0 {
        lemma_covers_bounded(s, over.drop_last());
    }
}

/// No more panes are over than were given out.
pub proof fn law_disposed_were_given(processes: Seq<ProcessRowView>, given: Seq<(u64, u32)>)
    ensures
        disposed_among(processes, given).len() <= given.len(),
    decreases given.len(),
{
    if given.len() > 0 {
        law_disposed_were_given(processes, given.drop_last());
    }
}

/// A pane is hidden only where its process is over: one that starts or runs
/// keeps its pane.
pub proof fn law_live_panes_stay(
    processes: Seq<ProcessRowView>,
    given: Seq<(u64, u32)>,
    id: u64,
    tid: u32,
)
    requires
        disposed_among(processes, given).contains((id, tid)),
    ensures
        is_disposed(processes, id),
    decreases given.len(),
{
    let all = disposed_among(processes, given);
    let i = choose|i: int| 0 <= i < all.len() && all[i] == (id, tid);
    if given.len() > 0 {
        let before = disposed_among(processes, given.drop_last());
        if i < before.len() {
            assert(before[i] == (id, tid));
            law_live_panes_stay(processes, given.drop_last(), id, tid);
        }
    }
}

impl PanoptPane {
    /// Forgets the panes of processes whose rows are gone, and lists the
    /// processes that are to be started.
    pub fn starting_processes(&mut self) -> (ids: Vec<u64>)
        requires
            old(self).wf(),
        ensures
            *final(self) == (PanoptPane {
                reconciled_panes: final(self).reconciled_panes,
                ..*old(self)
            }),
            final(self).wf(),
            if keeps_gate(*old(self)) {
                &&& forall|k: u64|
                    #[trigger] final(self).reconciled_panes.lookup(k) == (if ids_of(
                        old(self).process_list(),
                    ).contains(k) {
                        old(self).reconciled_panes.lookup(k)
                    } else {
                        None
                    })
                &&& ids@ == starting_ids(old(self).process_list())
            } else {
                final(self).reconciled_panes == old(self).reconciled_panes && ids@.len() == 0
            },
    {
        let mut starting: Vec<u64> = Vec::new();
        if self.mode != Mode::Todos || !self.permitted {
            return starting;
        }
        let ghost all = self.process_list();
        let mut live: Vec<u64> = Vec::new();
        let mut i: usize = 0;
        assert(all.take(0) =~= seq![]);
        while i < self.processes.len()
            invariant
                i <= self.processes.len(),
                all == self.process_list(),
                *self == *old(self),
                live@ == ids_of(all).take(i as int),
                starting@ == starting_ids(all.take(i as int)),
            decreases self.processes.len() - i,
        {
            let r = &self.processes[i];
            proof {
                assert(all.take(i + 1).drop_last() =~= all.take(i as int));
                assert(all.take(i + 1).last() == r@);
                assert(ids_of(all).take(i + 1) =~= ids_of(all).take(i as int).push(r.id));
            }
            live.push(r.id);
            if text::is_some_text(&r.status, "starting") {
                starting.push(r.id);
            }
            i += 1;
        }
        proof {
            assert(all.take(i as int) =~= all);
            assert(ids_of(all).take(i as int) =~= ids_of(all));
        }
        self.reconciled_panes.retain(&live);
        starting
    }

    /// Gives a process a pane, unless it has one.
    pub fn start_process(&self, id: u64) -> (out: Vec<Action>)
        requires
            self.wf(),
        ensures
            host::actions(out@) == start_actions(*self, id),
    {
        if self.reconciled_panes.contains(id) || self.process_pane(id).is_some() {
            return host::no_actions();
        }
        let args = self.process_run_args(id);
        self.spawn_in_slot(args, false, Purpose::Starting(id))
    }

    /// The panes that were given to processes that are over.
    pub fn disposed_reconciled_panes(&self) -> (out: Vec<(u64, u32)>)
        ensures
            out@ == disposed_among(self.process_list(), self.reconciled_panes.list()),
    {
        let ghost all = self.reconciled_panes.list();
        let mut out: Vec<(u64, u32)> = Vec::new();
        let mut i: usize = 0;
        assert(all.take(0) =~= seq![]);
        while i < self.reconciled_panes.len()
            invariant
                i <= all.len(),
                all == self.reconciled_panes.list(),
                out@ == disposed_among(self.process_list(), all.take(i as int)),
            decreases all.len() - i,
        {
            let e = self.reconciled_panes.at(i);
            proof {
                assert(all.take(i + 1).drop_last() =~= all.take(i as int));
                assert(all.take(i + 1).last() == all[i as int]);
            }
            let over = match self.process_at(e.0) {
                None => true,
                Some(j) => text::is_some_text(&self.processes[j].status, "stopped")
                    || text::is_some_text(&self.processes[j].status, "exited"),
            };
            if over {
                out.push((e.0, e.1));
            }
            i += 1;
        }
        assert(all.take(i as int) =~= all);
        out
    }

    /// Hides the panes of processes that are over; none is closed.
    pub fn reconcile_disposed_processes(&mut self) -> (out: Vec<Action>)
        requires
            old(self).wf(),
            old(self).next_viewer_slot + old(self).reconciled_panes.list().len() <= u32::MAX,
        ensures
            final(self).wf(),
            if keeps_gate(*old(self)) {
                let over = disposed_among(
                    old(self).process_list(),
                    old(self).reconciled_panes.list(),
                );
                let (after, acts) = covers(*old(self), over);
                &&& *final(self) == (PanoptPane {
                    reconciled_panes: final(self).reconciled_panes,
                    ..after
                })
                &&& host::actions(out@) == acts
                &&& forall|k: u64|
                    #[trigger] final(self).reconciled_panes.lookup(k) == (if done_with(
                        old(self).pane_list(),
                        over,
                    ).contains(k) {
                        None
                    } else {
                        old(self).reconciled_panes.lookup(k)
                    })
            } else {
                *final(self) == *old(self) && out@.len() == 0
            },
    {
        if self.mode != Mode::Todos || !self.permitted {
            return Vec::new();
        }
        let over = self.disposed_reconciled_panes();
        proof {
            law_disposed_were_given(self.process_list(), self.reconciled_panes.list());
        }
        let done = self.finished(&over);
        let out = self.cover_all(&over);
        forget_all(&mut self.reconciled_panes, &done);
        out
    }

    /// Covers the panes of processes that are over.
    fn cover_all(&mut self, over: &Vec<(u64, u32)>) -> (out: Vec<Action>)
        requires
            old(self).next_viewer_slot + over@.len() <= u32::MAX,
        ensures
            (*final(self), host::actions(out@)) == covers(*old(self), over@),
            *final(self) == (PanoptPane {
                next_viewer_slot: final(self).next_viewer_slot,
                ..*old(self)
            }),
    {
        let ghost was = *self;
        let ghost all = over@;
        let mut out = host::no_actions();
        let mut i: usize = 0;
        assert(all.take(0) =~= seq![]);
        while i < over.len()
            invariant
                i <= over.len(),
                all == over@,
                was.next_viewer_slot + all.len() <= u32::MAX,
                (*self, host::actions(out@)) == covers(was, all.take(i as int)),
            decreases over.len() - i,
        {
            let pane = PaneId::Terminal(over[i].1);
            proof {
                assert(all.take(i + 1).drop_last() =~= all.take(i as int));
                assert(all.take(i + 1).last() == all[i as int]);
                lemma_covers_bounded(was, all.take(i as int));
            }
            if let Some(j) = self.find_pane(PaneQuery::Id(pane)) {
                if !self.panes[j].suppressed && !self.panes[j].floating {
                    let more = self.suppress_pane(pane);
                    host::append_actions(&mut out, more);
                }
            }
            i += 1;
        }
        proof {
            assert(all.take(i as int) =~= all);
            lemma_covers_bounded(was, all);
        }
        out
    }

    /// The processes that are done with.
    fn finished(&self, over: &Vec<(u64, u32)>) -> (done: Vec<u64>)
        ensures
            done@ == done_with(self.pane_list(), over@),
    {
        let ghost all = over@;
        let mut done: Vec<u64> = Vec::new();
        let mut i: usize = 0;
        assert(all.take(0) =~= seq![]);
        while i < over.len()
            invariant
                i <= over.len(),
                all == over@,
                done@ == done_with(self.pane_list(), all.take(i as int)),
            decreases over.len() - i,
        {
            proof {
                assert(all.take(i + 1).drop_last() =~= all.take(i as int));
                assert(all.take(i + 1).last() == all[i as int]);
            }
            if self.find_pane(PaneQuery::Id(PaneId::Terminal(over[i].1))).is_some() {
                done.push(over[i].0);
            }
            i += 1;
        }
        assert(all.take(i as int) =~= all);
        done
    }
}

/// Forgets the panes of some processes.
fn forget_all(given: &mut IdMap<u32>, ids: &Vec<u64>)
    requires
        old(given).wf(),
    ensures
        final(given).wf(),
        forall|k: u64|
            #[trigger] final(given).lookup(k) == (if ids@.contains(k) {
                None
            } else {
                old(given).lookup(k)
            }),
{
    let ghost was = *given;
    let mut i: usize = 0;
    while i < ids.len()
        invariant
            i <= ids.len(),
            given.wf(),
            forall|k: u64|
                #[trigger] given.lookup(k) == (if ids@.take(i as int).contains(k) {
                    None
                } else {
                    was.lookup(k)
                }),
        decreases ids.len() - i,
    {
        let ghost before = *given;
        given.remove(ids[i]);
        proof {
            assert(ids@.take(i + 1) =~= ids@.take(i as int).push(ids@[i as int]));
            assert forall|k: u64|
                #[trigger] given.lookup(k) == (if ids@.take(i + 1).contains(k) {
                    None
                } else {
                    was.lookup(k)
                }) by {
                lemma_push_contains(ids@.take(i as int), ids@[i as int], k);
                let _ = before.lookup(k);
            }
        }
        i += 1;
    }
    assert(ids@.take(i as int) =~= ids@);
}

/// What a longer run holds.
proof fn lemma_push_contains(s: Seq<u64>, x: u64, k: u64)
    ensures
        s.push(x).contains(k) == (s.contains(k) || k == x),
{
    let t = s.push(x);
    if s.contains(k) {
        let i = choose|i: int| 0 <= i < s.len() && s[i] == k;
        assert(t[i] == k);
    }
    if k == x {
        assert(t[s.len() as int] == k);
    }
    if t.contains(k) {
        let i = choose|i: int| 0 <= i < t.len() && t[i] == k;
        if i < s.len() {
            assert(s[i] == k);
        }
    }
}

} // verus!
