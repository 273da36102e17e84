//! The sidebar as gatekeeper: what may be closed, and what the dialogs and
//! pipes decide.

use vstd::prelude::*;
use vstd::string::*;

use crate::host;
use crate::host::{Action, ActionView, Document, PaneId};
use crate::idmap::IdMap;
use crate::modes::Mode;
use crate::panes;
use crate::paths;
use crate::panes::PaneRole;
use crate::sidebar;
use crate::sidebar::{PaneQuery, PaneRowView, PanoptPane, Refusal};
use crate::sidebar_items;
use crate::sidebar_slots;
use crate::text;
use crate::wire;

verus! {

// ---------------------------------------------------------------------------
// Content panes
// ---------------------------------------------------------------------------

/// How many panes are content: neither floating nor exited.
pub open spec fn content_count(panes: Seq<PaneRowView>) -> nat
    decreases panes.len(),
{
    if panes.len() == 0 {
        0
    } else {
        content_count(panes.drop_last()) + (if !panes.last().floating && !panes.last().exited {
            1nat
        } else {
            0nat
        })
    }
}

/// How many panes are content that is not hidden.
pub open spec fn live_content_count(panes: Seq<PaneRowView>) -> nat
    decreases panes.len(),
{
    if panes.len() == 0 {
        0
    } else {
        live_content_count(panes.drop_last()) + (if !panes.last().floating
            && !panes.last().suppressed && !panes.last().exited {
            1nat
        } else {
            0nat
        })
    }
}

/// Counting stays within the number of panes, and what is not hidden is part
/// of what there is.
pub proof fn law_counts_bounded(panes: Seq<PaneRowView>)
    ensures
        live_content_count(panes) <= content_count(panes) <= panes.len(),
    decreases panes.len(),
{
    if panes.len() > 0 {
        law_counts_bounded(panes.drop_last());
    }
}

/// The slot is reclaimed: content that is not hidden arms it, and when none
/// is left after that, an empty viewer is shown.
pub open spec fn slot_kept(s: PanoptPane) -> (PanoptPane, Seq<ActionView>) {
    if s.mode != Mode::Todos || !s.permitted {
        (s, seq![])
    } else if live_content_count(s.pane_list()) > 0 {
        (PanoptPane { has_had_content: true, ..s }, seq![])
    } else if !s.has_had_content {
        (s, seq![])
    } else {
        sidebar_slots::viewer_shown(s, Document::Empty, false)
    }
}

/// The number of content panes is published where it changed.
pub open spec fn count_published(s: PanoptPane) -> (PanoptPane, Seq<ActionView>) {
    let count = content_count(s.pane_list()) as usize;
    if s.mode != Mode::Todos || s.last_content_count == Some(count) {
        (s, seq![])
    } else {
        (
            PanoptPane { last_content_count: Some(count), ..s },
            seq![ActionView::WriteCount(count)],
        )
    }
}

// ---------------------------------------------------------------------------
// Refusals
// ---------------------------------------------------------------------------

/// A request is refused, and the title says so.
pub open spec fn refused(s: PanoptPane, reason: Refusal) -> (PanoptPane, Seq<ActionView>) {
    (PanoptPane { last_gate_refusal: Some(reason), ..s }, seq![ActionView::SyncFrameTitle])
}

/// A refusal is forgotten.
pub open spec fn refusal_cleared(s: PanoptPane) -> (PanoptPane, Seq<ActionView>) {
    if s.last_gate_refusal is None {
        (s, seq![])
    } else {
        (PanoptPane { last_gate_refusal: None, ..s }, seq![ActionView::SyncFrameTitle])
    }
}

// ---------------------------------------------------------------------------
// Active items
// ---------------------------------------------------------------------------

/// What kind of work would be lost.
#[derive(Clone, Copy, PartialEq, Eq, Debug, Structural)]
pub enum ActiveKind {
    Agent,
    Command,
    Terminal,
}

impl ActiveKind {
    /// The name of the kind.
    pub open spec fn name(self) -> Seq<char> {
        match self {
            ActiveKind::Agent => "agent"@,
            ActiveKind::Command => "command"@,
            ActiveKind::Terminal => "terminal"@,
        }
    }

    /// The name of the kind.
    pub fn label(self) -> (r: &'static str)
        ensures
            r@ == self.name(),
    {
        match self {
            ActiveKind::Agent => "agent",
            ActiveKind::Command => "command",
            ActiveKind::Terminal => "terminal",
        }
    }
}

/// Work that closing a pane would lose.
#[derive(Debug)]
pub struct ActiveItem {
    pub label: String,
    pub kind: ActiveKind,
}

/// The contents of an [`ActiveItem`].
pub struct ActiveItemView {
    pub label: Seq<char>,
    pub kind: ActiveKind,
}

impl View for ActiveItem {
    type V = ActiveItemView;

    open spec fn view(&self) -> ActiveItemView {
        ActiveItemView { label: self.label@, kind: self.kind }
    }
}

/// The view of an optional item.
pub open spec fn opt_active(o: Option<ActiveItem>) -> Option<ActiveItemView> {
    match o {
        Some(a) => Some(a@),
        None => None,
    }
}

/// The contents of a run of items.
pub open spec fn active_views(v: Seq<ActiveItem>) -> Seq<ActiveItemView> {
    v.map_values(|a: ActiveItem| a@)
}

/// What the panes run, as the multiplexer tells it: each pane with the words
/// of its command.
pub open spec fn running_views(v: Seq<(PaneId, Vec<String>)>) -> Seq<(PaneId, Seq<Seq<char>>)> {
    v.map_values(|e: (PaneId, Vec<String>)| (e.0, text::texts(e.1@)))
}

/// The command that a pane runs.
pub open spec fn command_of(running: Seq<(PaneId, Seq<Seq<char>>)>, pane: PaneId) -> Option<
    Seq<Seq<char>>,
>
    decreases running.len(),
{
    if running.len() == 0 {
        None
    } else if running[0].0 == pane {
        Some(running[0].1)
    } else {
        command_of(running.drop_first(), pane)
    }
}

/// The file name at the end of a path, or the path itself where it has none.
pub open spec fn base_name(path: Seq<char>) -> Seq<char> {
    match paths::name_at_end(path) {
        Some(name) => name,
        None => path,
    }
}

/// What a plain pane would lose: a program that is not a user's shell.
pub open spec fn terminal_work(command: Option<Seq<Seq<char>>>, label: Seq<char>) -> Option<
    ActiveItemView,
> {
    match command {
        Some(argv) => if argv.len() == 0 || panes::shell_name(base_name(argv[0])) {
            None
        } else {
            Some(ActiveItemView { label, kind: ActiveKind::Terminal })
        },
        None => None,
    }
}

/// What closing a pane would lose.
pub open spec fn work_in(
    s: PanoptPane,
    running: Seq<(PaneId, Seq<Seq<char>>)>,
    pane: PaneId,
) -> Option<ActiveItemView> {
    match sidebar::first_pane(s.pane_list(), PaneQuery::Id(pane)) {
        None => None,
        Some(p) => if p.exited || p.role == PaneRole::Viewer {
            None
        } else {
            let row = match p.role {
                PaneRole::Process(id) => sidebar::process_in(s.process_list(), id),
                _ => None,
            };
            match row {
                Some(r) => if r.kind == "agent"@ {
                    Some(ActiveItemView { label: r.label, kind: ActiveKind::Agent })
                } else if r.kind == "command"@ {
                    Some(ActiveItemView { label: r.label, kind: ActiveKind::Command })
                } else if r.kind == "terminal"@ {
                    terminal_work(command_of(running, pane), r.label)
                } else {
                    None
                },
                None => terminal_work(
                    command_of(running, pane),
                    if p.role == PaneRole::Agent {
                        sidebar_items::agent_label_text(s.agent_labels, p)
                    } else {
                        sidebar_items::pane_label_text(p)
                    },
                ),
            }
        },
    }
}

/// What closing panes would lose: those of one tab, or all.
pub open spec fn work_among(
    s: PanoptPane,
    running: Seq<(PaneId, Seq<Seq<char>>)>,
    tab: Option<usize>,
    panes: Seq<PaneRowView>,
) -> Seq<ActiveItemView>
    decreases panes.len(),
{
    if panes.len() == 0 {
        seq![]
    } else {
        let before = work_among(s, running, tab, panes.drop_last());
        let p = panes.last();
        match work_in(s, running, p.id) {
            Some(item) => if tab is None || tab == Some(p.tab) {
                before.push(item)
            } else {
                before
            },
            None => before,
        }
    }
}

/// One item in the words of the dialog: its separators give way.
pub open spec fn dialog_item(a: ActiveItemView) -> Seq<char> {
    a.kind.name() + ":"@ + text::replaced(text::replaced(a.label, ";"@, ","@), ":"@, "-"@)
}

/// The dialog that asks before work is lost; where none can be shown, the
/// request is refused.
pub open spec fn close_dialog(
    s: PanoptPane,
    scope: Seq<char>,
    target: Option<PaneId>,
    active: Seq<ActiveItemView>,
) -> (PanoptPane, Seq<ActionView>) {
    if !sidebar_slots::can_launch(s) {
        refused(s, Refusal::NotPermitted(active.len() as usize))
    } else {
        (
            s,
            seq![
                ActionView::OpenFloating(
                    seq![
                        "_close-gate"@,
                        "--scope"@,
                        scope,
                        "--items"@,
                        text::joined(
                            active.map_values(|a: ActiveItemView| dialog_item(a)),
                            ";"@,
                        ),
                        "--port"@,
                        s.port@,
                    ] + (match target {
                        Some(PaneId::Terminal(tid)) => seq![
                            "--target-pane"@,
                            text::decimal(tid as nat),
                        ],
                        _ => seq![],
                    }),
                ),
            ],
        )
    }
}

/// Whether the focused pane may be closed: never the sidebar, never the last
/// content, and work only after a dialog.
pub open spec fn focus_gated(s: PanoptPane, running: Seq<(PaneId, Seq<Seq<char>>)>) -> (
    PanoptPane,
    Seq<ActionView>,
) {
    if !s.permitted {
        (s, seq![])
    } else if s.sidebar_focused {
        refused(s, Refusal::CloseSidebar)
    } else {
        match s.slot_pane {
            None => (s, seq![]),
            Some(target) => if content_count(s.pane_list()) <= 1 {
                refused(s, Refusal::CloseLastContent)
            } else {
                match work_in(s, running, target) {
                    Some(item) => close_dialog(s, "focus"@, Some(target), seq![item]),
                    None => (s, seq![ActionView::Close(target)]),
                }
            },
        }
    }
}

/// Whether the tab may be closed: work in it only after a dialog.
pub open spec fn tab_gated(s: PanoptPane, running: Seq<(PaneId, Seq<Seq<char>>)>) -> (
    PanoptPane,
    Seq<ActionView>,
) {
    if !s.permitted || s.focused_tab is None {
        (s, seq![])
    } else {
        let active = work_among(s, running, s.focused_tab, s.pane_list());
        if active.len() > 0 {
            close_dialog(s, "tab"@, None, active)
        } else {
            (s, seq![ActionView::CloseTab])
        }
    }
}

/// Whether the session may be quit: work anywhere only after a dialog.
pub open spec fn quit_gated(s: PanoptPane, running: Seq<(PaneId, Seq<Seq<char>>)>) -> (
    PanoptPane,
    Seq<ActionView>,
) {
    if !s.permitted {
        (s, seq![])
    } else {
        let active = work_among(s, running, None, s.pane_list());
        if active.len() > 0 {
            close_dialog(s, "quit"@, None, active)
        } else {
            (s, seq![ActionView::Quit])
        }
    }
}

/// A request to close the focused pane never closes a pane of the sidebar,
/// never the last content pane, and never one that would lose work.
pub proof fn law_close_gate_keeps_work(s: PanoptPane, running: Seq<(PaneId, Seq<Seq<char>>)>, p: PaneId)
    requires
        focus_gated(s, running).1.contains(ActionView::Close(p)),
    ensures
        s.permitted && !s.sidebar_focused && s.slot_pane == Some(p),
        content_count(s.pane_list()) > 1,
        work_in(s, running, p) is None,
{
    let acts = focus_gated(s, running).1;
    let i = choose|i: int| 0 <= i < acts.len() && acts[i] == ActionView::Close(p);
    assert(acts[0] == ActionView::Close(p));
}

// ---------------------------------------------------------------------------
// Payloads
// ---------------------------------------------------------------------------

/// The value of a key in a payload `<key>=<value>;...`, the last one winning.
pub open spec fn payload_value(fields: Seq<Seq<char>>, key: Seq<char>) -> Option<Seq<char>>
    decreases fields.len(),
{
    if fields.len() == 0 {
        None
    } else {
        match text::cut(fields.last(), "="@) {
            Some((k, v)) => if k == key {
                Some(v)
            } else {
                payload_value(fields.drop_last(), key)
            },
            None => payload_value(fields.drop_last(), key),
        }
    }
}

/// The value of a key in a payload.
pub open spec fn payload_field(payload: Seq<char>, key: Seq<char>) -> Option<Seq<char>> {
    payload_value(text::pieces(payload, ";"@), key)
}

/// The number that a key of a payload has.
pub open spec fn payload_number(payload: Seq<char>, key: Seq<char>) -> Option<u64> {
    match payload_field(payload, key) {
        Some(v) => text::u64_of(v),
        None => None,
    }
}

/// The value of a key in a payload.
fn payload_get<'a>(payload: &'a str, key: &str) -> (r: Option<&'a str>)
    ensures
        text::opt_str(r) == payload_field(payload@, key@),
{
    proof {
        reveal_strlit(";");
    }
    let fields = text::split(payload, ";");
    let ghost all = text::views(fields@);
    let mut i: usize = fields.len();
    assert(all.take(i as int) =~= all);
    while i > 0
        invariant
            i <= fields.len(),
            all == text::views(fields@),
            all == text::pieces(payload@, ";"@),
            payload_value(all, key@) == payload_value(all.take(i as int), key@),
        decreases i,
    {
        assert(all.take(i as int).last() == fields@[i - 1]@);
        assert(all.take(i as int).drop_last() =~= all.take(i - 1));
        if let Some((k, v)) = text::split_once(fields[i - 1], "=") {
            if text::same(k, key) {
                return Some(v);
            }
        }
        i -= 1;
    }
    None
}

/// The number that a key of a payload has.
fn payload_id(payload: &str, key: &str) -> (r: Option<u64>)
    ensures
        r == payload_number(payload@, key@),
{
    match payload_get(payload, key) {
        Some(v) => text::parse_u64(v),
        None => None,
    }
}

/// What the user chose in the search dialog is shown, and the dialog closed;
/// a pane that has no dialog open does nothing.
pub open spec fn search_answered(s: PanoptPane, payload: Option<Seq<char>>) -> (
    PanoptPane,
    Seq<ActionView>,
) {
    if s.search_pane is None || payload is None {
        (s, seq![])
    } else {
        match (payload_field(payload->0, "kind"@), payload_number(payload->0, "id"@)) {
            (Some(kind), Some(id)) => {
                let (closed, first) = sidebar_slots::search_closed(s);
                if kind == "todo"@ {
                    let (after, more) = sidebar_slots::document_opened(
                        closed,
                        Document::Todo(id),
                        true,
                    );
                    (after, first + more)
                } else if kind == "note"@ {
                    let (after, more) = sidebar_slots::document_opened(
                        closed,
                        Document::Note(id),
                        true,
                    );
                    (after, first + more)
                } else {
                    (closed, first)
                }
            },
            _ => (s, seq![]),
        }
    }
}

/// The command that deletes a resource.
pub open spec fn remove_args(noun: Seq<char>, verb: Seq<char>, id: u64, port: Seq<char>) -> Seq<
    Seq<char>,
> {
    seq![noun, verb, text::decimal(id as nat), "--port"@, port]
}

/// What the user confirmed is deleted: a process after its pane is closed, a
/// config after its instance is stopped.
pub open spec fn delete_answered(s: PanoptPane, payload: Option<Seq<char>>) -> Seq<ActionView> {
    if payload is None || payload_field(payload->0, "decision"@) != Some("delete"@)
        || !sidebar_slots::can_launch(s) {
        seq![]
    } else {
        match (payload_field(payload->0, "kind"@), payload_number(payload->0, "id"@)) {
            (Some(kind), Some(id)) => if kind == "todo"@ {
                seq![ActionView::Run(remove_args("todo"@, "rm"@, id, s.port@))]
            } else if kind == "note"@ {
                seq![ActionView::Run(remove_args("note"@, "rm"@, id, s.port@))]
            } else if kind == "process"@ {
                (match sidebar::first_pane_id(s.pane_list(), PaneQuery::Process(id)) {
                    Some(pane) => seq![ActionView::Close(pane)],
                    None => seq![],
                }) + seq![ActionView::Run(remove_args("process"@, "delete"@, id, s.port@))]
            } else if kind == "agent-tool"@ {
                sidebar_slots::config_stopped(s, id) + seq![
                    ActionView::Run(remove_args("agent-tool"@, "rm"@, id, s.port@)),
                ]
            } else {
                seq![]
            },
            _ => seq![],
        }
    }
}

/// The pane that a payload names.
pub open spec fn payload_pane(payload: Seq<char>) -> Option<u32> {
    match payload_field(payload, "target_pane"@) {
        Some(v) => text::u32_of(v),
        None => None,
    }
}

/// What the user confirmed is closed.
pub open spec fn close_answered(s: PanoptPane, payload: Option<Seq<char>>) -> (
    PanoptPane,
    Seq<ActionView>,
) {
    if payload is None || payload_field(payload->0, "decision"@) != Some("close"@) {
        (s, seq![])
    } else {
        let (after, first) = refusal_cleared(s);
        let scope = payload_field(payload->0, "scope"@);
        (
            after,
            first + (if scope == Some("focus"@) {
                match payload_pane(payload->0) {
                    Some(tid) => seq![ActionView::Close(PaneId::Terminal(tid))],
                    None => seq![],
                }
            } else if scope == Some("tab"@) {
                seq![ActionView::CloseTab]
            } else if scope == Some("quit"@) {
                seq![ActionView::Quit]
            } else {
                seq![]
            }),
        )
    }
}

// ---------------------------------------------------------------------------
// Spawning
// ---------------------------------------------------------------------------

/// A new empty viewer is opened beside the others.
pub open spec fn blank_opened(s: PanoptPane) -> (PanoptPane, Seq<ActionView>) {
    if sidebar_slots::can_launch(s) {
        let after = PanoptPane { next_viewer_slot: (s.next_viewer_slot + 1) as u32, ..s };
        let name = sidebar_slots::slot_name(s.mode, after.next_viewer_slot);
        (
            after,
            seq![
                ActionView::Route { viewer: name, document: Document::Empty },
                ActionView::OpenTiled(
                    sidebar_slots::viewer_args(name, s.port@, Document::Empty),
                ),
            ],
        )
    } else {
        (s, seq![])
    }
}

/// A pane is hidden behind a new empty viewer.
pub open spec fn pane_covered(s: PanoptPane, target: PaneId) -> (PanoptPane, Seq<ActionView>) {
    if sidebar_slots::can_launch(s) {
        let after = PanoptPane { next_viewer_slot: (s.next_viewer_slot + 1) as u32, ..s };
        let name = sidebar_slots::slot_name(s.mode, after.next_viewer_slot);
        (
            after,
            seq![
                ActionView::Route { viewer: name, document: Document::Empty },
                ActionView::Cover {
                    target,
                    args: sidebar_slots::viewer_args(name, s.port@, Document::Empty),
                },
            ],
        )
    } else {
        (s, seq![])
    }
}

/// An ad-hoc agent is spawned, under the id it was given or a new one.
pub open spec fn agent_asked(s: PanoptPane, id: Option<Seq<char>>) -> (PanoptPane, Seq<ActionView>) {
    let after = match id {
        Some(_) => s,
        None => PanoptPane { next_agent: (s.next_agent + 1) as u32, ..s },
    };
    let agent_id = match id {
        Some(given) => given,
        None => "cockpit-agent-"@ + text::decimal(after.next_agent as nat),
    };
    let label = match id {
        Some(given) => given,
        None => "Agent "@ + text::decimal(after.next_agent as nat),
    };
    (
        after,
        if sidebar_slots::can_launch(s) {
            seq![
                ActionView::SpawnAgent {
                    slot: s.slot_pane,
                    args: seq!["_agent"@, "--id"@, agent_id],
                    agent_id,
                    label,
                },
            ]
        } else {
            seq![]
        },
    )
}

/// The labels of a map, in the order of the panes.
pub open spec fn label_list(labels: IdMap<String>) -> Seq<(u32, Seq<char>)> {
    labels.list().map_values(|e: (u64, String)| (e.0 as u32, e.1@))
}

impl PanoptPane {
    /// How many content panes there are.
    pub fn content_pane_count(&self) -> (n: usize)
        ensures
            n == content_count(self.pane_list()),
    {
        let ghost all = self.pane_list();
        let mut n: usize = 0;
        let mut i: usize = 0;
        assert(all.take(0) =~= seq![]);
        while i < self.panes.len()
            invariant
                i <= self.panes.len(),
                n <= i,
                all == self.pane_list(),
                n == content_count(all.take(i as int)),
            decreases self.panes.len() - i,
        {
            assert(all.take(i + 1).drop_last() =~= all.take(i as int));
            assert(all.take(i + 1).last() == self.panes@[i as int]@);
            if !self.panes[i].floating && !self.panes[i].exited {
                n += 1;
            }
            i += 1;
        }
        assert(all.take(i as int) =~= all);
        n
    }

    /// How many content panes are not hidden.
    pub fn live_content_pane_count(&self) -> (n: usize)
        ensures
            n == live_content_count(self.pane_list()),
    {
        let ghost all = self.pane_list();
        let mut n: usize = 0;
        let mut i: usize = 0;
        assert(all.take(0) =~= seq![]);
        while i < self.panes.len()
            invariant
                i <= self.panes.len(),
                n <= i,
                all == self.pane_list(),
                n == live_content_count(all.take(i as int)),
            decreases self.panes.len() - i,
        {
            assert(all.take(i + 1).drop_last() =~= all.take(i as int));
            assert(all.take(i + 1).last() == self.panes@[i as int]@);
            if !self.panes[i].floating && !self.panes[i].suppressed && !self.panes[i].exited {
                n += 1;
            }
            i += 1;
        }
        assert(all.take(i as int) =~= all);
        n
    }

    /// Keeps one usable content pane.
    pub fn ensure_content_slot(&mut self) -> (out: Vec<Action>)
        requires
            old(self).mode == Mode::Todos ==> old(self).next_viewer_slot < u32::MAX,
        ensures
            (*final(self), host::actions(out@)) == slot_kept(*old(self)),
    {
        if self.mode != Mode::Todos || !self.permitted {
            return host::no_actions();
        }
        if self.live_content_pane_count() > 0 {
            self.has_had_content = true;
            return host::no_actions();
        }
        if !self.has_had_content {
            return host::no_actions();
        }
        self.clear_slot()
    }

    /// Publishes the number of content panes.
    pub fn publish_content_count(&mut self) -> (out: Vec<Action>)
        ensures
            (*final(self), host::actions(out@)) == count_published(*old(self)),
    {
        if self.mode != Mode::Todos {
            return host::no_actions();
        }
        let count: usize = self.content_pane_count();
        if let Some(last) = self.last_content_count {
            if last == count {
                return host::no_actions();
            }
        }
        self.last_content_count = Some(count);
        host::one_action(Action::WriteCount(count))
    }

    /// Refuses a request.
    pub fn refuse_gate(&mut self, reason: Refusal) -> (out: Vec<Action>)
        ensures
            (*final(self), host::actions(out@)) == refused(*old(self), reason),
            old(self).wf() ==> final(self).wf(),
    {
        self.last_gate_refusal = Some(reason);
        host::one_action(Action::SyncFrameTitle)
    }

    /// Forgets a refusal.
    pub fn clear_gate_refusal(&mut self) -> (out: Vec<Action>)
        ensures
            (*final(self), host::actions(out@)) == refusal_cleared(*old(self)),
            old(self).wf() ==> final(self).wf(),
    {
        if self.last_gate_refusal.is_none() {
            return host::no_actions();
        }
        self.last_gate_refusal = None;
        host::one_action(Action::SyncFrameTitle)
    }

    /// What closing a pane would lose, given what the panes run.
    pub fn pane_active(&self, pane: PaneId, running: &Vec<(PaneId, Vec<String>)>) -> (r: Option<
        ActiveItem,
    >)
        requires
            self.wf(),
        ensures
            opt_active(r) == work_in(*self, running_views(running@), pane),
    {
        let p = match self.find_pane(PaneQuery::Id(pane)) {
            None => {
                return None;
            },
            Some(i) => &self.panes[i],
        };
        if p.exited || p.role == PaneRole::Viewer {
            return None;
        }
        if let PaneRole::Process(id) = p.role {
            if let Some(j) = self.process_at(id) {
                let r = &self.processes[j];
                proof {
                    lemma_kinds_distinct();
                }
                return if text::same(r.kind.as_str(), "agent") {
                    Some(ActiveItem { label: r.label.clone(), kind: ActiveKind::Agent })
                } else if text::same(r.kind.as_str(), "command") {
                    Some(ActiveItem { label: r.label.clone(), kind: ActiveKind::Command })
                } else if text::same(r.kind.as_str(), "terminal") {
                    pane_active_terminal(pane, r.label.as_str(), running)
                } else {
                    None
                };
            }
        }
        let label = if p.role == PaneRole::Agent {
            self.agent_label(p)
        } else {
            sidebar_items::pane_label(p)
        };
        pane_active_terminal(pane, label.as_str(), running)
    }

    /// What closing panes would lose: those of one tab, or all.
    pub fn active_among(&self, tab: Option<usize>, running: &Vec<(PaneId, Vec<String>)>) -> (out:
        Vec<ActiveItem>)
        requires
            self.wf(),
        ensures
            active_views(out@) == work_among(
                *self,
                running_views(running@),
                tab,
                self.pane_list(),
            ),
    {
        let ghost all = self.pane_list();
        let ghost rv = running_views(running@);
        let mut out: Vec<ActiveItem> = Vec::new();
        let mut i: usize = 0;
        assert(all.take(0) =~= seq![]);
        assert(active_views(out@) =~= seq![]);
        while i < self.panes.len()
            invariant
                self.wf(),
                i <= self.panes.len(),
                all == self.pane_list(),
                rv == running_views(running@),
                active_views(out@) == work_among(*self, rv, tab, all.take(i as int)),
            decreases self.panes.len() - i,
        {
            let ghost before = out@;
            proof {
                assert(all.take(i + 1).drop_last() =~= all.take(i as int));
                assert(all.take(i + 1).last() == self.panes@[i as int]@);
            }
            let here = match tab {
                Some(t) => self.panes[i].tab == t,
                None => true,
            };
            match self.pane_active(self.panes[i].id, running) {
                Some(item) => {
                    if here {
                        out.push(item);
                        assert(active_views(out@) =~= active_views(before).push(item@));
                    }
                },
                None => {},
            }
            i += 1;
        }
        assert(all.take(i as int) =~= all);
        out
    }

    /// Floats the dialog that asks before work is lost.
    fn spawn_close_gate_dialog(
        &mut self,
        scope: &str,
        target: Option<PaneId>,
        active: &Vec<ActiveItem>,
    ) -> (out: Vec<Action>)
        ensures
            (*final(self), host::actions(out@)) == close_dialog(
                *old(self),
                scope@,
                target,
                active_views(active@),
            ),
    {
        if self.launch_cwd().is_none() {
            let n: usize = active.len();
            return self.refuse_gate(Refusal::NotPermitted(n));
        }
        let items = dialog_items(active);
        let words = vec![
            "_close-gate",
            "--scope",
            scope,
            "--items",
            items.as_str(),
            "--port",
            self.port.as_str(),
        ];
        let mut args = host::owned(&words);
        let ghost head = text::texts(args@);
        if let Some(PaneId::Terminal(tid)) = target {
            args.push("--target-pane".to_owned());
            args.push(text::number(tid as u64));
        }
        proof {
            assert(head =~= seq![
                "_close-gate"@,
                "--scope"@,
                scope@,
                "--items"@,
                items@,
                "--port"@,
                self.port@,
            ]);
            assert(text::texts(args@) =~= head + (match target {
                Some(PaneId::Terminal(tid)) => seq!["--target-pane"@, text::decimal(tid as nat)],
                _ => seq![],
            }));
        }
        host::one_action(Action::OpenFloating(args))
    }

    /// Gates a request to close the focused pane.
    pub fn gate_close_focus(&mut self, running: &Vec<(PaneId, Vec<String>)>) -> (out: Vec<Action>)
        requires
            old(self).wf(),
        ensures
            (*final(self), host::actions(out@)) == focus_gated(
                *old(self),
                running_views(running@),
            ),
            final(self).wf(),
    {
        if !self.permitted {
            return host::no_actions();
        }
        if self.sidebar_focused {
            return self.refuse_gate(Refusal::CloseSidebar);
        }
        let target = match self.slot_pane {
            None => {
                return host::no_actions();
            },
            Some(target) => target,
        };
        if self.content_pane_count() <= 1 {
            return self.refuse_gate(Refusal::CloseLastContent);
        }
        match self.pane_active(target, running) {
            Some(item) => {
                let mut active: Vec<ActiveItem> = Vec::new();
                active.push(item);
                assert(active_views(active@) =~= seq![item@]);
                self.spawn_close_gate_dialog("focus", Some(target), &active)
            },
            None => host::one_action(Action::Close(target)),
        }
    }

    /// Gates a request to close the tab.
    pub fn gate_close_tab(&mut self, running: &Vec<(PaneId, Vec<String>)>) -> (out: Vec<Action>)
        requires
            old(self).wf(),
        ensures
            (*final(self), host::actions(out@)) == tab_gated(*old(self), running_views(running@)),
            final(self).wf(),
    {
        if !self.permitted {
            return host::no_actions();
        }
        let tab: usize = match self.focused_tab {
            None => {
                return host::no_actions();
            },
            Some(tab) => tab,
        };
        let active = self.active_among(Some(tab), running);
        assert(active_views(active@).len() == active@.len());
        if active.len() > 0 {
            self.spawn_close_gate_dialog("tab", None, &active)
        } else {
            host::one_action(Action::CloseTab)
        }
    }

    /// Gates a request to quit the session.
    pub fn gate_quit(&mut self, running: &Vec<(PaneId, Vec<String>)>) -> (out: Vec<Action>)
        requires
            old(self).wf(),
        ensures
            (*final(self), host::actions(out@)) == quit_gated(*old(self), running_views(running@)),
            final(self).wf(),
    {
        if !self.permitted {
            return host::no_actions();
        }
        let active = self.active_among(None, running);
        assert(active_views(active@).len() == active@.len());
        if active.len() > 0 {
            self.spawn_close_gate_dialog("quit", None, &active)
        } else {
            host::one_action(Action::Quit)
        }
    }

    /// Shows what the user chose in the search dialog.
    pub fn handle_search_result(&mut self, payload: Option<&str>) -> (out: Vec<Action>)
        requires
            old(self).next_viewer_slot < u32::MAX,
        ensures
            (*final(self), host::actions(out@)) == search_answered(
                *old(self),
                text::opt_str(payload),
            ),
            old(self).wf() ==> final(self).wf(),
    {
        if self.search_pane.is_none() {
            return host::no_actions();
        }
        let payload = match payload {
            None => {
                return host::no_actions();
            },
            Some(p) => p,
        };
        let (kind, id) = match (payload_get(payload, "kind"), payload_id(payload, "id")) {
            (Some(kind), Some(id)) => (kind, id),
            _ => {
                return host::no_actions();
            },
        };
        let mut out = self.close_search_pane();
        if text::same(kind, "todo") {
            let more = self.open_document(Document::Todo(id), true);
            host::append_actions(&mut out, more);
        } else if text::same(kind, "note") {
            let more = self.open_document(Document::Note(id), true);
            host::append_actions(&mut out, more);
        }
        out
    }

    /// A command that deletes a resource.
    fn remove_command(&self, noun: &str, verb: &str, id: u64) -> (action: Action)
        ensures
            action@ == ActionView::Run(remove_args(noun@, verb@, id, self.port@)),
    {
        let id_text = text::number(id);
        let words = vec![noun, verb, id_text.as_str(), "--port", self.port.as_str()];
        let args = host::owned(&words);
        assert(text::texts(args@) =~= remove_args(noun@, verb@, id, self.port@));
        Action::Run(args)
    }

    /// Deletes what the user confirmed.
    pub fn handle_delete_decision(&self, payload: Option<&str>) -> (out: Vec<Action>)
        ensures
            host::actions(out@) == delete_answered(*self, text::opt_str(payload)),
    {
        let payload = match payload {
            None => {
                return host::no_actions();
            },
            Some(p) => p,
        };
        match payload_get(payload, "decision") {
            Some(decision) => {
                if !text::same(decision, "delete") {
                    return host::no_actions();
                }
            },
            None => {
                return host::no_actions();
            },
        }
        if self.launch_cwd().is_none() {
            return host::no_actions();
        }
        let (kind, id) = match (payload_get(payload, "kind"), payload_id(payload, "id")) {
            (Some(kind), Some(id)) => (kind, id),
            _ => {
                return host::no_actions();
            },
        };
        if text::same(kind, "todo") {
            host::one_action(self.remove_command("todo", "rm", id))
        } else if text::same(kind, "note") {
            host::one_action(self.remove_command("note", "rm", id))
        } else if text::same(kind, "process") {
            let mut out = match self.process_pane(id) {
                Some(pane) => host::one_action(Action::Close(pane)),
                None => host::no_actions(),
            };
            let more = host::one_action(self.remove_command("process", "delete", id));
            host::append_actions(&mut out, more);
            out
        } else if text::same(kind, "agent-tool") {
            let mut out = self.stop_config(id);
            let more = host::one_action(self.remove_command("agent-tool", "rm", id));
            host::append_actions(&mut out, more);
            out
        } else {
            host::no_actions()
        }
    }

    /// Closes what the user confirmed.
    pub fn handle_gate_decision(&mut self, payload: Option<&str>) -> (out: Vec<Action>)
        ensures
            (*final(self), host::actions(out@)) == close_answered(
                *old(self),
                text::opt_str(payload),
            ),
            old(self).wf() ==> final(self).wf(),
    {
        let payload = match payload {
            None => {
                return host::no_actions();
            },
            Some(p) => p,
        };
        match payload_get(payload, "decision") {
            Some(decision) => {
                if !text::same(decision, "close") {
                    return host::no_actions();
                }
            },
            None => {
                return host::no_actions();
            },
        }
        let mut out = self.clear_gate_refusal();
        let scope = match payload_get(payload, "scope") {
            Some(scope) => scope,
            None => {
                proof {
                    let none: Seq<ActionView> = seq![];
                    assert(host::actions(out@) + none =~= host::actions(out@));
                }
                return out;
            },
        };
        let more = if text::same(scope, "focus") {
            let pane = match payload_get(payload, "target_pane") {
                Some(v) => text::parse_u32(v),
                None => None,
            };
            match pane {
                Some(tid) => host::one_action(Action::Close(PaneId::Terminal(tid))),
                None => host::no_actions(),
            }
        } else if text::same(scope, "tab") {
            host::one_action(Action::CloseTab)
        } else if text::same(scope, "quit") {
            host::one_action(Action::Quit)
        } else {
            host::no_actions()
        };
        host::append_actions(&mut out, more);
        out
    }

    /// Opens a new empty viewer beside the others.
    pub fn spawn_blank_viewer(&mut self) -> (out: Vec<Action>)
        requires
            old(self).next_viewer_slot < u32::MAX,
        ensures
            (*final(self), host::actions(out@)) == blank_opened(*old(self)),
    {
        if self.launch_cwd().is_none() {
            return host::no_actions();
        }
        let name = self.allocate_viewer_slot();
        let args = self.viewer_command(name.as_str(), Document::Empty);
        let mut out = host::one_action(Action::Route { viewer: name, document: Document::Empty });
        host::push_action(&mut out, Action::OpenTiled(args));
        assert(host::actions(out@) =~= blank_opened(*old(self)).1);
        out
    }

    /// Opens a new empty viewer, unless the sidebar has the focus: its panes
    /// are not to be split.
    pub fn spawn_blank_pane(&mut self) -> (out: Vec<Action>)
        requires
            old(self).next_viewer_slot < u32::MAX,
        ensures
            (*final(self), host::actions(out@)) == (if old(self).sidebar_focused {
                refused(*old(self), Refusal::CreateFromSidebar)
            } else {
                blank_opened(*old(self))
            }),
            old(self).wf() ==> final(self).wf(),
    {
        if self.sidebar_focused {
            self.refuse_gate(Refusal::CreateFromSidebar)
        } else {
            self.spawn_blank_viewer()
        }
    }

    /// Hides a pane behind a new empty viewer; it is never closed.
    pub fn suppress_pane(&mut self, target: PaneId) -> (out: Vec<Action>)
        requires
            old(self).next_viewer_slot < u32::MAX,
        ensures
            (*final(self), host::actions(out@)) == pane_covered(*old(self), target),
    {
        if self.launch_cwd().is_none() {
            return host::no_actions();
        }
        let name = self.allocate_viewer_slot();
        let args = self.viewer_command(name.as_str(), Document::Empty);
        let mut out = host::one_action(Action::Route { viewer: name, document: Document::Empty });
        host::push_action(&mut out, Action::Cover { target, args });
        assert(host::actions(out@) =~= pane_covered(*old(self), target).1);
        out
    }

    /// A pane was hidden behind another: where it was the slot, the other one
    /// is now. The keyboard stays with the sidebar.
    pub fn covered(&mut self, target: PaneId, replacement: Option<PaneId>) -> (out: Vec<Action>)
        ensures
            *final(self) == (PanoptPane {
                slot_pane: if old(self).slot_pane == Some(target) {
                    replacement
                } else {
                    old(self).slot_pane
                },
                ..*old(self)
            }),
            host::actions(out@) == (match old(self).plugin_pane {
                Some(plugin) => seq![ActionView::Focus(plugin)],
                None => seq![],
            }),
    {
        if let Some(slot) = self.slot_pane {
            if slot == target {
                self.slot_pane = replacement;
            }
        }
        match self.plugin_pane {
            Some(plugin) => host::one_action(Action::Focus(plugin)),
            None => host::no_actions(),
        }
    }

    /// Spawns an ad-hoc agent.
    pub fn spawn_agent_pane(&mut self, id: Option<&str>) -> (out: Vec<Action>)
        requires
            old(self).next_agent < u32::MAX,
        ensures
            (*final(self), host::actions(out@)) == agent_asked(*old(self), text::opt_str(id)),
            old(self).wf() ==> final(self).wf(),
    {
        let (agent_id, label) = match id {
            Some(given) => (given.to_owned(), given.to_owned()),
            None => {
                self.next_agent = self.next_agent + 1;
                let n = text::number(self.next_agent as u64);
                let mut agent_id = "cockpit-agent-".to_owned();
                agent_id.append(n.as_str());
                let mut label = "Agent ".to_owned();
                label.append(n.as_str());
                (agent_id, label)
            },
        };
        if self.launch_cwd().is_none() {
            return host::no_actions();
        }
        let words = vec!["_agent", "--id", agent_id.as_str()];
        let args = host::owned(&words);
        assert(text::texts(args@) =~= seq!["_agent"@, "--id"@, agent_id@]);
        host::one_action(Action::SpawnAgent { slot: self.slot_pane, args, agent_id, label })
    }

    /// The pane of an ad-hoc agent is there: it is the slot now and has the
    /// focus, its label and id are remembered, and the labels published.
    pub fn agent_spawned(&mut self, agent_id: String, label: String, new: Option<PaneId>) -> (out:
        Vec<Action>)
        requires
            old(self).wf(),
        ensures
            final(self).wf(),
            match new {
                None => *final(self) == *old(self) && out@.len() == 0,
                Some(PaneId::Plugin(p)) => {
                    &&& *final(self) == (PanoptPane { slot_pane: new, ..*old(self) })
                    &&& host::actions(out@) == seq![ActionView::Focus(PaneId::Plugin(p))]
                },
                Some(PaneId::Terminal(tid)) => {
                    &&& *final(self) == (PanoptPane {
                        slot_pane: new,
                        agent_labels: final(self).agent_labels,
                        agent_pane_ids: final(self).agent_pane_ids,
                        ..*old(self)
                    })
                    &&& forall|k: u64|
                        #[trigger] final(self).agent_labels.lookup(k) == (if k == tid as u64 {
                            Some(label)
                        } else {
                            old(self).agent_labels.lookup(k)
                        })
                    &&& forall|k: u64|
                        #[trigger] final(self).agent_pane_ids.lookup(k) == (if k == tid as u64 {
                            Some(agent_id)
                        } else {
                            old(self).agent_pane_ids.lookup(k)
                        })
                    &&& host::actions(out@) == seq![
                        ActionView::Focus(PaneId::Terminal(tid)),
                        ActionView::WriteLabels(
                            wire::labels_text(label_list(final(self).agent_labels)),
                        ),
                    ]
                },
            },
    {
        match new {
            None => Vec::new(),
            Some(PaneId::Plugin(p)) => {
                self.slot_pane = new;
                host::one_action(Action::Focus(PaneId::Plugin(p)))
            },
            Some(PaneId::Terminal(tid)) => {
                self.slot_pane = new;
                self.agent_labels.insert(tid as u64, label);
                self.agent_pane_ids.insert(tid as u64, agent_id);
                let mut out = host::one_action(Action::Focus(PaneId::Terminal(tid)));
                host::push_action(
                    &mut out,
                    Action::WriteLabels(render_labels(&self.agent_labels)),
                );
                assert(host::actions(out@) =~= seq![
                    ActionView::Focus(PaneId::Terminal(tid)),
                    ActionView::WriteLabels(
                        wire::labels_text(label_list(self.agent_labels)),
                    ),
                ]);
                out
            },
        }
    }
}

/// The file of the labels of a map.
pub fn render_labels(labels: &IdMap<String>) -> (r: String)
    ensures
        r@ == wire::labels_text(label_list(*labels)),
{
    let mut list: Vec<(u32, String)> = Vec::new();
    let mut i: usize = 0;
    while i < labels.len()
        invariant
            i <= labels.list().len(),
            wire::label_views(list@) == label_list(*labels).take(i as int),
        decreases labels.list().len() - i,
    {
        let ghost before = list@;
        let e = labels.at(i);
        list.push((e.0 as u32, e.1.clone()));
        proof {
            let all = label_list(*labels);
            assert(wire::label_views(list@) =~= wire::label_views(before).push(all[i as int]));
            assert(all.take(i + 1) =~= all.take(i as int).push(all[i as int]));
        }
        i += 1;
    }
    assert(label_list(*labels).take(i as int) =~= label_list(*labels));
    wire::render_agent_labels(&list)
}

/// The kinds of processes are told apart.
proof fn lemma_kinds_distinct()
    ensures
        "agent"@ != "command"@,
        "agent"@ != "terminal"@,
        "command"@ != "terminal"@,
{
    reveal_strlit("agent");
    reveal_strlit("command");
    reveal_strlit("terminal");
    assert("agent"@[0] == 'a' && "command"@[0] == 'c' && "terminal"@[0] == 't');
}

/// The command that a pane runs.
fn find_command<'a>(running: &'a Vec<(PaneId, Vec<String>)>, pane: PaneId) -> (r: Option<
    &'a Vec<String>,
>)
    ensures
        match r {
            Some(argv) => command_of(running_views(running@), pane) == Some(text::texts(argv@)),
            None => command_of(running_views(running@), pane) is None,
        },
{
    let ghost all = running_views(running@);
    let mut i: usize = 0;
    assert(all.skip(0) =~= all);
    while i < running.len()
        invariant
            i <= running.len(),
            all == running_views(running@),
            command_of(all, pane) == command_of(all.skip(i as int), pane),
        decreases running.len() - i,
    {
        assert(all.skip(i as int)[0] == (running@[i as int].0, text::texts(running@[i as int].1@)));
        if running[i].0 == pane {
            return Some(&running[i].1);
        }
        assert(all.skip(i as int).drop_first() =~= all.skip(i + 1));
        i += 1;
    }
    None
}

/// The file name at the end of a path, or the path itself where it has none.
pub fn file_name_of<'a>(path: &'a str) -> (r: &'a str)
    ensures
        r@ == base_name(path@),
{
    match paths::file_name(path) {
        Some(name) => name,
        None => path,
    }
}

/// What a plain pane would lose.
fn pane_active_terminal(
    pane: PaneId,
    label: &str,
    running: &Vec<(PaneId, Vec<String>)>,
) -> (r: Option<ActiveItem>)
    ensures
        opt_active(r) == terminal_work(command_of(running_views(running@), pane), label@),
{
    match find_command(running, pane) {
        None => None,
        Some(argv) => {
            assert(text::texts(argv@).len() == argv@.len());
            if argv.len() == 0 {
                return None;
            }
            assert(text::texts(argv@)[0] == argv@[0]@);
            if panes::is_user_shell(file_name_of(argv[0].as_str())) {
                None
            } else {
                Some(ActiveItem { label: label.to_owned(), kind: ActiveKind::Terminal })
            }
        },
    }
}

/// The items in the words of the dialog.
fn dialog_items(active: &Vec<ActiveItem>) -> (r: String)
    ensures
        r@ == text::joined(
            active_views(active@).map_values(|a: ActiveItemView| dialog_item(a)),
            ";"@,
        ),
{
    proof {
        reveal_strlit(";");
        reveal_strlit(":");
    }
    let ghost goal = active_views(active@).map_values(|a: ActiveItemView| dialog_item(a));
    let mut parts: Vec<String> = Vec::new();
    let mut i: usize = 0;
    while i < active.len()
        invariant
            i <= active.len(),
            ";"@.len() > 0,
            ":"@.len() > 0,
            goal == active_views(active@).map_values(|a: ActiveItemView| dialog_item(a)),
            text::texts(parts@) == goal.take(i as int),
        decreases active.len() - i,
    {
        let ghost before = parts@;
        let commas = text::replace(active[i].label.as_str(), ";", ",");
        let label = text::replace(commas.as_str(), ":", "-");
        let mut part = active[i].kind.label().to_owned();
        part.append(":");
        part.append(label.as_str());
        parts.push(part);
        proof {
            assert(part@ == goal[i as int]);
            assert(text::texts(parts@) =~= text::texts(before).push(part@));
            assert(goal.take(i + 1) =~= goal.take(i as int).push(goal[i as int]));
        }
        i += 1;
    }
    assert(goal.take(i as int) =~= goal);
    text::join_texts(&parts, ";")
}

} // verus!
