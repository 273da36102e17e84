//! Showing what is selected: the content slot, and what spawns into it.

use vstd::prelude::*;
use vstd::string::*;

use crate::host;
use crate::host::{Action, ActionView, Document, PaneId, Purpose};
use crate::modes::Mode;
use crate::sidebar;
use crate::sidebar::{ItemTarget, PaneQuery, PanoptPane};
use crate::text;

verus! {

/// Whether panes can be spawned: permissions were granted and the project's
/// root is known.
pub open spec fn can_launch(s: PanoptPane) -> bool {
    s.permitted && s.ws is Some
}

/// The name of the `n`th viewer slot that a mode's pane allocates.
pub open spec fn slot_name(mode: Mode, n: u32) -> Seq<char> {
    "v"@.push(mode.letter_char()) + text::decimal(n as nat)
}

/// Two panes of different modes never allocate the same slot name, and one
/// pane never allocates a name twice.
pub proof fn law_slot_names_distinct(a: Mode, n: u32, b: Mode, m: u32)
    ensures
        slot_name(a, n) == slot_name(b, m) ==> a == b && n == m,
{
    reveal_strlit("v");
    text::lemma_decimal_value(n as nat);
    text::lemma_decimal_value(m as nat);
    Mode::law_letters_distinct(a, b);
    if slot_name(a, n) == slot_name(b, m) {
        assert(slot_name(a, n)[1] == a.letter_char());
        assert(slot_name(b, m)[1] == b.letter_char());
        assert(slot_name(a, n).skip(2) =~= text::decimal(n as nat));
        assert(slot_name(b, m).skip(2) =~= text::decimal(m as nat));
    }
}

/// The words of an id flag, if there is an id.
pub open spec fn id_flag(id: Option<u64>) -> Seq<Seq<char>> {
    match id {
        Some(i) => seq!["--id"@, text::decimal(i as nat)],
        None => seq![],
    }
}

/// The arguments of a viewer.
pub open spec fn viewer_args(slot: Seq<char>, port: Seq<char>, d: Document) -> Seq<Seq<char>> {
    seq!["_viewer"@, "--slot"@, slot, "--port"@, port, "--kind"@, d.kind_text()] + id_flag(
        d.id_of(),
    )
}

/// The pane asked to spawn something in the slot: nothing where panes cannot
/// be spawned.
pub open spec fn spawn_actions(
    s: PanoptPane,
    args: Seq<Seq<char>>,
    focus: bool,
    purpose: Purpose,
) -> Seq<ActionView> {
    if can_launch(s) {
        seq![ActionView::Spawn { slot: s.slot_pane, args, focus, purpose }]
    } else {
        seq![]
    }
}

/// Focus goes to the pane, or stays with the sidebar.
pub open spec fn focus_actions(s: PanoptPane, pane: PaneId, focus: bool) -> Seq<ActionView> {
    if focus {
        seq![ActionView::Focus(pane)]
    } else {
        match s.plugin_pane {
            Some(plugin) => seq![ActionView::Focus(plugin)],
            None => seq![],
        }
    }
}

/// Whether a pane is there and not hidden.
pub open spec fn is_visible(s: PanoptPane, pane: PaneId) -> bool {
    sidebar::first_pane(s.pane_list(), PaneQuery::Visible(pane)) is Some
}

/// An existing pane is put into the slot.
pub open spec fn shown_in_slot(s: PanoptPane, pane: PaneId, focus: bool) -> (
    PanoptPane,
    Seq<ActionView>,
) {
    if s.slot_pane == Some(pane) && is_visible(s, pane) {
        (
            s,
            if focus {
                seq![ActionView::Focus(pane)]
            } else {
                seq![]
            },
        )
    } else {
        (
            PanoptPane { slot_pane: Some(pane), ..s },
            seq![
                match s.slot_pane {
                    Some(place) => ActionView::Replace { place, pane },
                    None => ActionView::Show(pane),
                },
            ] + focus_actions(s, pane, focus),
        )
    }
}

/// A document is shown in the slot: by the viewer that sits there, or else by
/// a hidden viewer, or else by a new one.
pub open spec fn viewer_shown(s: PanoptPane, d: Document, focus: bool) -> (
    PanoptPane,
    Seq<ActionView>,
) {
    let in_slot = match s.slot_pane {
        Some(pane) => if is_visible(s, pane) {
            s.slot_name_of(pane)
        } else {
            None
        },
        None => None,
    };
    match in_slot {
        Some(name) => (
            s,
            seq![ActionView::Route { viewer: name, document: d }] + (if focus {
                seq![ActionView::Focus(s.slot_pane->0)]
            } else {
                seq![]
            }) + seq![ActionView::SyncPaneTitles],
        ),
        None => match sidebar::first_pane_id(s.pane_list(), PaneQuery::SuppressedViewer) {
            Some(viewer) => {
                let (after, shown) = shown_in_slot(s, viewer, focus);
                (
                    after,
                    (match s.slot_name_of(viewer) {
                        Some(name) => seq![ActionView::Route { viewer: name, document: d }],
                        None => seq![],
                    }) + shown + seq![ActionView::SyncPaneTitles],
                )
            },
            None => {
                let after = PanoptPane {
                    next_viewer_slot: (s.next_viewer_slot + 1) as u32,
                    ..s
                };
                let name = slot_name(s.mode, after.next_viewer_slot);
                (
                    after,
                    seq![ActionView::Route { viewer: name, document: d }] + spawn_actions(
                        after,
                        viewer_args(name, s.port@, d),
                        focus,
                        Purpose::Viewer,
                    ),
                )
            },
        },
    }
}

/// A document is opened, once permissions were granted.
pub open spec fn document_opened(s: PanoptPane, d: Document, focus: bool) -> (
    PanoptPane,
    Seq<ActionView>,
) {
    if s.permitted {
        viewer_shown(s, d, focus)
    } else {
        (s, seq![])
    }
}

/// A pane is routed into the slot. One that is visible elsewhere is focused
/// where it is, or else the slot is cleared: it cannot be in two places.
pub open spec fn pane_routed(s: PanoptPane, pane: PaneId, focus: bool) -> (
    PanoptPane,
    Seq<ActionView>,
) {
    if is_visible(s, pane) && s.slot_pane != Some(pane) {
        if focus {
            (s, seq![ActionView::Focus(pane)])
        } else {
            viewer_shown(s, Document::Empty, false)
        }
    } else {
        shown_in_slot(s, pane, focus)
    }
}

/// A pane is routed into the slot if there is one; otherwise the slot is
/// cleared.
pub open spec fn pane_previewed(s: PanoptPane, pane: Option<PaneId>) -> (
    PanoptPane,
    Seq<ActionView>,
) {
    match pane {
        Some(p) => pane_routed(s, p, false),
        None => viewer_shown(s, Document::Empty, false),
    }
}

/// The selected item is previewed in the slot; focus stays with the sidebar.
pub open spec fn cursor_previewed(s: PanoptPane) -> (PanoptPane, Seq<ActionView>) {
    match s.target_at_cursor() {
        Some(ItemTarget::Todo(id)) => document_opened(s, Document::Todo(id), false),
        Some(ItemTarget::Note(id)) => document_opened(s, Document::Note(id), false),
        Some(ItemTarget::Process(id)) => pane_previewed(
            s,
            sidebar::first_pane_id(s.pane_list(), PaneQuery::Process(id)),
        ),
        Some(ItemTarget::Config(id)) => pane_previewed(s, s.config_pane(id)),
        Some(ItemTarget::Pane(pane)) => pane_routed(s, pane, false),
        None => viewer_shown(s, Document::Empty, false),
    }
}

/// A background command of the launcher, where it can be run.
pub open spec fn run_actions(s: PanoptPane, args: Seq<Seq<char>>) -> Seq<ActionView> {
    if can_launch(s) {
        seq![ActionView::Run(args)]
    } else {
        seq![]
    }
}

/// A process is shown in the slot, or started there.
pub open spec fn process_activated(s: PanoptPane, id: u64, focus: bool) -> (
    PanoptPane,
    Seq<ActionView>,
) {
    match sidebar::first_pane_id(s.pane_list(), PaneQuery::Process(id)) {
        Some(pane) => pane_routed(s, pane, focus),
        None => (
            s,
            spawn_actions(
                s,
                seq!["_process-run"@, "--port"@, s.port@, text::decimal(id as nat)],
                focus,
                Purpose::Process,
            ),
        ),
    }
}

/// A config's live instance is shown in the slot, or one is started.
pub open spec fn config_activated(s: PanoptPane, id: u64, focus: bool) -> (
    PanoptPane,
    Seq<ActionView>,
) {
    match s.config_pane(id) {
        Some(pane) => pane_routed(s, pane, focus),
        None => (
            s,
            run_actions(
                s,
                seq!["process"@, "start"@, text::decimal(id as nat), "--port"@, s.port@],
            ),
        ),
    }
}

/// An item is acted on: shown, started, or both.
pub open spec fn item_activated(s: PanoptPane, target: Option<ItemTarget>, focus: bool) -> (
    PanoptPane,
    Seq<ActionView>,
) {
    match target {
        Some(ItemTarget::Todo(id)) => document_opened(s, Document::Todo(id), focus),
        Some(ItemTarget::Note(id)) => document_opened(s, Document::Note(id), focus),
        Some(ItemTarget::Process(id)) => process_activated(s, id, focus),
        Some(ItemTarget::Config(id)) => config_activated(s, id, focus),
        Some(ItemTarget::Pane(pane)) => pane_routed(s, pane, focus),
        None => (s, seq![]),
    }
}

/// Whether nothing of a pane changed but its slot and how many viewers it
/// named.
pub open spec fn only_slot_changed(s: PanoptPane, after: PanoptPane) -> bool {
    after == (PanoptPane {
        slot_pane: after.slot_pane,
        next_viewer_slot: after.next_viewer_slot,
        ..s
    })
}

/// Showing a document changes nothing else.
pub proof fn law_viewer_keeps_rest(s: PanoptPane, d: Document, focus: bool)
    ensures
        only_slot_changed(s, viewer_shown(s, d, focus).0),
        only_slot_changed(s, document_opened(s, d, focus).0),
{
}

/// Routing a pane into the slot changes nothing else.
pub proof fn law_routing_keeps_rest(s: PanoptPane, pane: PaneId, focus: bool)
    ensures
        only_slot_changed(s, pane_routed(s, pane, focus).0),
{
    law_viewer_keeps_rest(s, Document::Empty, false);
}

/// Previewing what the cursor is on changes nothing else.
pub proof fn law_preview_keeps_rest(s: PanoptPane)
    ensures
        only_slot_changed(s, cursor_previewed(s).0),
{
    law_viewer_keeps_rest(s, Document::Empty, false);
    match s.target_at_cursor() {
        Some(ItemTarget::Todo(id)) => law_viewer_keeps_rest(s, Document::Todo(id), false),
        Some(ItemTarget::Note(id)) => law_viewer_keeps_rest(s, Document::Note(id), false),
        Some(ItemTarget::Process(id)) => {
            if let Some(p) = sidebar::first_pane_id(s.pane_list(), PaneQuery::Process(id)) {
                law_routing_keeps_rest(s, p, false);
            }
        },
        Some(ItemTarget::Config(id)) => {
            if let Some(p) = s.config_pane(id) {
                law_routing_keeps_rest(s, p, false);
            }
        },
        Some(ItemTarget::Pane(pane)) => law_routing_keeps_rest(s, pane, false),
        None => {},
    }
}

/// Acting on an item changes nothing else.
pub proof fn law_activation_keeps_rest(s: PanoptPane, target: Option<ItemTarget>, focus: bool)
    ensures
        only_slot_changed(s, item_activated(s, target, focus).0),
{
    match target {
        Some(ItemTarget::Todo(id)) => law_viewer_keeps_rest(s, Document::Todo(id), focus),
        Some(ItemTarget::Note(id)) => law_viewer_keeps_rest(s, Document::Note(id), focus),
        Some(ItemTarget::Process(id)) => {
            if let Some(p) = sidebar::first_pane_id(s.pane_list(), PaneQuery::Process(id)) {
                law_routing_keeps_rest(s, p, focus);
            }
        },
        Some(ItemTarget::Config(id)) => {
            if let Some(p) = s.config_pane(id) {
                law_routing_keeps_rest(s, p, focus);
            }
        },
        Some(ItemTarget::Pane(pane)) => law_routing_keeps_rest(s, pane, focus),
        None => {},
    }
}

/// A config's live instance is stopped: the process by the daemon, then its
/// pane is closed.
pub open spec fn config_stopped(s: PanoptPane, id: u64) -> Seq<ActionView> {
    match sidebar::instance_in(s.process_list(), id) {
        Some(row) => run_actions(
            s,
            seq!["process"@, "stop"@, text::decimal(row.id as nat), "--port"@, s.port@],
        ) + (match sidebar::first_pane_id(s.pane_list(), PaneQuery::Process(row.id)) {
            Some(pane) => seq![ActionView::Close(pane)],
            None => seq![],
        }),
        None => seq![],
    }
}

/// The selected item is stopped. Documents have nothing to stop.
pub open spec fn cursor_stopped(s: PanoptPane) -> Seq<ActionView> {
    match s.target_at_cursor() {
        Some(ItemTarget::Process(id)) => match sidebar::first_pane_id(
            s.pane_list(),
            PaneQuery::Process(id),
        ) {
            Some(pane) => seq![ActionView::Close(pane)],
            None => seq![],
        },
        Some(ItemTarget::Config(id)) => config_stopped(s, id),
        Some(ItemTarget::Pane(pane)) => seq![ActionView::Close(pane)],
        _ => seq![],
    }
}

/// The dialog that asks before a resource is deleted.
pub open spec fn delete_dialog(
    kind: Seq<char>,
    id: u64,
    label: Seq<char>,
    port: Seq<char>,
) -> ActionView {
    ActionView::OpenFloating(
        seq![
            "_delete-gate"@,
            "--kind"@,
            kind,
            "--id"@,
            text::decimal(id as nat),
            "--label"@,
            label,
            "--port"@,
            port,
        ],
    )
}

/// The selected item is deleted: what the daemon keeps after a dialog, a bare
/// pane at once. A config goes by its name, without its state.
pub open spec fn cursor_deleted(s: PanoptPane) -> Seq<ActionView> {
    if s.cursor >= s.items.len() || !can_launch(s) {
        seq![]
    } else {
        let label = s.items@[s.cursor as int].label@;
        match s.items@[s.cursor as int].target {
            ItemTarget::Todo(id) => seq![delete_dialog("todo"@, id, label, s.port@)],
            ItemTarget::Note(id) => seq![delete_dialog("note"@, id, label, s.port@)],
            ItemTarget::Process(id) => seq![delete_dialog("process"@, id, label, s.port@)],
            ItemTarget::Config(id) => seq![
                delete_dialog("agent-tool"@, id, text::pieces(label, " · "@)[0], s.port@),
            ],
            ItemTarget::Pane(pane) => seq![ActionView::Close(pane)],
        }
    }
}

/// The form of a config is floated, in a viewer slot of its own.
pub open spec fn form_opened(s: PanoptPane, d: Document) -> (PanoptPane, Seq<ActionView>) {
    if can_launch(s) {
        let after = PanoptPane { next_viewer_slot: (s.next_viewer_slot + 1) as u32, ..s };
        let name = slot_name(s.mode, after.next_viewer_slot);
        (
            after,
            seq![
                ActionView::Route { viewer: name, document: d },
                ActionView::OpenFloating(
                    seq![
                        "_viewer"@,
                        "--slot"@,
                        name,
                        "--port"@,
                        s.port@,
                        "--kind"@,
                        d.kind_text(),
                        "--transient"@,
                    ] + id_flag(d.id_of()),
                ),
            ],
        )
    } else {
        (s, seq![])
    }
}

/// The search dialog is floated, unless one is open.
pub open spec fn search_opened(s: PanoptPane) -> Seq<ActionView> {
    if s.search_pane is None && can_launch(s) {
        seq![ActionView::OpenSearch(seq!["search"@, "--port"@, s.port@])]
    } else {
        seq![]
    }
}

/// The search dialog is closed, if one is open.
pub open spec fn search_closed(s: PanoptPane) -> (PanoptPane, Seq<ActionView>) {
    match s.search_pane {
        Some(pane) => (PanoptPane { search_pane: None, ..s }, seq![ActionView::Close(pane)]),
        None => (s, seq![]),
    }
}

/// The arguments that report the pane of a process.
pub open spec fn pane_report_args(port: Seq<char>, id: u64, tid: u32) -> Seq<Seq<char>> {
    seq![
        "_process-report"@,
        "--port"@,
        port,
        "--id"@,
        text::decimal(id as nat),
        "--pane-id"@,
        text::decimal(tid as nat),
    ]
}

/// The process that the daemon wanted started, and the terminal it is in.
pub open spec fn started_in(purpose: Purpose, pane: PaneId) -> Option<(u64, u32)> {
    match purpose {
        Purpose::Starting(id) => match pane {
            PaneId::Terminal(tid) => Some((id, tid)),
            PaneId::Plugin(_) => None,
        },
        _ => None,
    }
}

impl PanoptPane {
    /// The project's root, if panes can be spawned.
    pub fn launch_cwd(&self) -> (r: Option<&String>)
        ensures
            match r {
                Some(ws) => can_launch(*self) && Some(*ws) == self.ws,
                None => !can_launch(*self),
            },
    {
        if !self.permitted {
            return None;
        }
        match &self.ws {
            Some(ws) => Some(ws),
            None => None,
        }
    }

    /// Names the next viewer slot.
    pub fn allocate_viewer_slot(&mut self) -> (r: String)
        requires
            old(self).next_viewer_slot < u32::MAX,
        ensures
            *final(self) == (PanoptPane {
                next_viewer_slot: (old(self).next_viewer_slot + 1) as u32,
                ..*old(self)
            }),
            r@ == slot_name(old(self).mode, final(self).next_viewer_slot),
    {
        self.next_viewer_slot = self.next_viewer_slot + 1;
        let mut out = "v".to_owned();
        out.push(self.mode.letter());
        out.append(text::number(self.next_viewer_slot as u64).as_str());
        out
    }

    /// Asks for a pane in the slot.
    pub fn spawn_in_slot(&self, args: Vec<String>, focus: bool, purpose: Purpose) -> (out: Vec<Action>)
        ensures
            host::actions(out@) == spawn_actions(*self, text::texts(args@), focus, purpose),
    {
        if self.launch_cwd().is_some() {
            host::one_action(Action::Spawn { slot: self.slot_pane, args, focus, purpose })
        } else {
            host::no_actions()
        }
    }

    /// Asks for a background command.
    fn run_panopt(&self, args: Vec<String>) -> (out: Vec<Action>)
        ensures
            host::actions(out@) == run_actions(*self, text::texts(args@)),
    {
        if self.launch_cwd().is_some() {
            host::one_action(Action::Run(args))
        } else {
            host::no_actions()
        }
    }

    /// The report of the pane that a process was put into.
    fn pane_report(&self, id: u64, tid: u32) -> (out: Vec<Action>)
        ensures
            host::actions(out@) == run_actions(*self, pane_report_args(self.port@, id, tid)),
    {
        let id_text = text::number(id);
        let tid_text = text::number(tid as u64);
        let words = vec![
            "_process-report",
            "--port",
            self.port.as_str(),
            "--id",
            id_text.as_str(),
            "--pane-id",
            tid_text.as_str(),
        ];
        let args = host::owned(&words);
        assert(text::texts(args@) =~= pane_report_args(self.port@, id, tid));
        self.run_panopt(args)
    }

    /// Focus goes to the pane, or stays with the sidebar.
    fn focus_after(&self, pane: PaneId, focus: bool) -> (out: Vec<Action>)
        ensures
            host::actions(out@) == focus_actions(*self, pane, focus),
    {
        if focus {
            host::one_action(Action::Focus(pane))
        } else {
            match self.plugin_pane {
                Some(plugin) => host::one_action(Action::Focus(plugin)),
                None => host::no_actions(),
            }
        }
    }

    /// The pane that was asked for is there: it is the slot now, and focus
    /// goes where it was wanted. The pane of a process that the daemon wanted
    /// started is remembered and reported. A pane that could not be opened
    /// changes nothing.
    pub fn spawned(&mut self, purpose: Purpose, focus: bool, new: Option<PaneId>) -> (out: Vec<
        Action,
    >)
        requires
            old(self).wf(),
        ensures
            final(self).wf(),
            match new {
                None => *final(self) == *old(self) && out@.len() == 0,
                Some(pane) => {
                    &&& *final(self) == (PanoptPane {
                        slot_pane: Some(pane),
                        reconciled_panes: final(self).reconciled_panes,
                        ..*old(self)
                    })
                    &&& match started_in(purpose, pane) {
                        Some((id, tid)) => {
                            &&& forall|k: u64|
                                #[trigger] final(self).reconciled_panes.lookup(k) == (if k == id {
                                    Some(tid)
                                } else {
                                    old(self).reconciled_panes.lookup(k)
                                })
                            &&& host::actions(out@) == focus_actions(*old(self), pane, focus)
                                + run_actions(
                                *old(self),
                                pane_report_args(old(self).port@, id, tid),
                            )
                        },
                        None => {
                            &&& final(self).reconciled_panes == old(self).reconciled_panes
                            &&& host::actions(out@) == focus_actions(*old(self), pane, focus)
                        },
                    }
                },
            },
    {
        let pane = match new {
            None => {
                return Vec::new();
            },
            Some(pane) => pane,
        };
        let mut out = self.focus_after(pane, focus);
        if let Purpose::Starting(id) = purpose {
            if let PaneId::Terminal(tid) = pane {
                let more = self.pane_report(id, tid);
                host::append_actions(&mut out, more);
                self.reconciled_panes.insert(id, tid);
            }
        }
        self.slot_pane = Some(pane);
        out
    }

    /// Puts an existing pane into the slot.
    pub fn show_in_slot(&mut self, pane: PaneId, focus: bool) -> (out: Vec<Action>)
        ensures
            (*final(self), host::actions(out@)) == shown_in_slot(*old(self), pane, focus),
    {
        let is_slot = match self.slot_pane {
            Some(slot) => slot == pane && self.pane_is_visible(pane),
            None => false,
        };
        if is_slot {
            return if focus {
                host::one_action(Action::Focus(pane))
            } else {
                host::no_actions()
            };
        }
        let mut out = match self.slot_pane {
            Some(place) => host::one_action(Action::Replace { place, pane }),
            None => host::one_action(Action::Show(pane)),
        };
        self.slot_pane = Some(pane);
        let more = self.focus_after(pane, focus);
        host::append_actions(&mut out, more);
        out
    }

    /// Shows a document in the slot.
    pub fn ensure_viewer_in_slot(&mut self, d: Document, focus: bool) -> (out: Vec<Action>)
        requires
            old(self).next_viewer_slot < u32::MAX,
        ensures
            (*final(self), host::actions(out@)) == viewer_shown(*old(self), d, focus),
    {
        if let Some(slot) = self.slot_pane {
            if self.pane_is_visible(slot) {
                if let Some(name) = self.viewer_slot_of(slot) {
                    let mut out = host::one_action(Action::Route { viewer: name, document: d });
                    if focus {
                        let more = host::one_action(Action::Focus(slot));
                        host::append_actions(&mut out, more);
                    }
                    proof {
                        let none: Seq<ActionView> = seq![];
                        assert(seq![ActionView::Route { viewer: name@, document: d }] + none
                            =~= seq![ActionView::Route { viewer: name@, document: d }]);
                    }
                    let last = host::one_action(Action::SyncPaneTitles);
                    host::append_actions(&mut out, last);
                    return out;
                }
            }
        }
        if let Some(viewer) = self.first_suppressed_viewer() {
            let mut out = match self.viewer_slot_of(viewer) {
                Some(name) => host::one_action(Action::Route { viewer: name, document: d }),
                None => host::no_actions(),
            };
            let shown = self.show_in_slot(viewer, focus);
            host::append_actions(&mut out, shown);
            let last = host::one_action(Action::SyncPaneTitles);
            host::append_actions(&mut out, last);
            return out;
        }
        let name = self.allocate_viewer_slot();
        let args = self.viewer_command(name.as_str(), d);
        let mut out = host::one_action(Action::Route { viewer: name, document: d });
        let more = self.spawn_in_slot(args, focus, Purpose::Viewer);
        host::append_actions(&mut out, more);
        out
    }

    /// The arguments of a viewer.
    pub fn viewer_command(&self, name: &str, d: Document) -> (args: Vec<String>)
        ensures
            text::texts(args@) == viewer_args(name@, self.port@, d),
    {
        let words = vec![
            "_viewer",
            "--slot",
            name,
            "--port",
            self.port.as_str(),
            "--kind",
            d.kind(),
        ];
        let mut args = host::owned(&words);
        let ghost head = text::texts(args@);
        push_id(&mut args, d.id());
        proof {
            assert(head =~= seq![
                "_viewer"@,
                "--slot"@,
                name@,
                "--port"@,
                self.port@,
                "--kind"@,
                d.kind_text(),
            ]);
        }
        args
    }

    /// Opens a document, once permissions were granted.
    pub fn open_document(&mut self, d: Document, focus: bool) -> (out: Vec<Action>)
        requires
            old(self).next_viewer_slot < u32::MAX,
        ensures
            (*final(self), host::actions(out@)) == document_opened(*old(self), d, focus),
            old(self).wf() ==> final(self).wf(),
    {
        if self.permitted {
            self.ensure_viewer_in_slot(d, focus)
        } else {
            host::no_actions()
        }
    }

    /// Clears the slot.
    pub fn clear_slot(&mut self) -> (out: Vec<Action>)
        requires
            old(self).next_viewer_slot < u32::MAX,
        ensures
            (*final(self), host::actions(out@)) == viewer_shown(
                *old(self),
                Document::Empty,
                false,
            ),
    {
        self.ensure_viewer_in_slot(Document::Empty, false)
    }

    /// Routes a pane into the slot.
    pub fn route_pane_to_slot(&mut self, pane: PaneId, focus: bool) -> (out: Vec<Action>)
        requires
            old(self).next_viewer_slot < u32::MAX,
        ensures
            (*final(self), host::actions(out@)) == pane_routed(*old(self), pane, focus),
    {
        let in_slot = match self.slot_pane {
            Some(slot) => slot == pane,
            None => false,
        };
        if self.pane_is_visible(pane) && !in_slot {
            if focus {
                host::one_action(Action::Focus(pane))
            } else {
                self.clear_slot()
            }
        } else {
            self.show_in_slot(pane, focus)
        }
    }

    /// Previews the selected item.
    pub fn preview_cursor(&mut self) -> (out: Vec<Action>)
        requires
            old(self).next_viewer_slot < u32::MAX,
        ensures
            (*final(self), host::actions(out@)) == cursor_previewed(*old(self)),
    {
        match self.focused_target() {
            Some(ItemTarget::Todo(id)) => self.open_document(Document::Todo(id), false),
            Some(ItemTarget::Note(id)) => self.open_document(Document::Note(id), false),
            Some(ItemTarget::Process(id)) => match self.process_pane(id) {
                Some(pane) => self.route_pane_to_slot(pane, false),
                None => self.clear_slot(),
            },
            Some(ItemTarget::Config(id)) => match self.config_instance_pane(id) {
                Some(pane) => self.route_pane_to_slot(pane, false),
                None => self.clear_slot(),
            },
            Some(ItemTarget::Pane(pane)) => self.route_pane_to_slot(pane, false),
            None => self.clear_slot(),
        }
    }

    /// Shows a process in the slot, or starts it there.
    pub fn activate_process(&mut self, id: u64, focus: bool) -> (out: Vec<Action>)
        requires
            old(self).next_viewer_slot < u32::MAX,
        ensures
            (*final(self), host::actions(out@)) == process_activated(*old(self), id, focus),
    {
        if let Some(pane) = self.process_pane(id) {
            return self.route_pane_to_slot(pane, focus);
        }
        let args = self.process_run_args(id);
        self.spawn_in_slot(args, focus, Purpose::Process)
    }

    /// The arguments that run a process in a pane.
    pub fn process_run_args(&self, id: u64) -> (args: Vec<String>)
        ensures
            text::texts(args@) == seq![
                "_process-run"@,
                "--port"@,
                self.port@,
                text::decimal(id as nat),
            ],
    {
        let id_text = text::number(id);
        let words = vec!["_process-run", "--port", self.port.as_str(), id_text.as_str()];
        let args = host::owned(&words);
        assert(text::texts(args@) =~= seq![
            "_process-run"@,
            "--port"@,
            self.port@,
            text::decimal(id as nat),
        ]);
        args
    }

    /// Shows a config's live instance in the slot, or starts one.
    pub fn activate_config(&mut self, id: u64, focus: bool) -> (out: Vec<Action>)
        requires
            old(self).next_viewer_slot < u32::MAX,
        ensures
            (*final(self), host::actions(out@)) == config_activated(*old(self), id, focus),
    {
        if let Some(pane) = self.config_instance_pane(id) {
            return self.route_pane_to_slot(pane, focus);
        }
        let args = self.id_command("process", "start", id);
        self.run_panopt(args)
    }

    /// A command of the launcher about a resource.
    fn id_command(&self, noun: &str, verb: &str, id: u64) -> (args: Vec<String>)
        ensures
            text::texts(args@) == seq![
                noun@,
                verb@,
                text::decimal(id as nat),
                "--port"@,
                self.port@,
            ],
    {
        let id_text = text::number(id);
        let words = vec![noun, verb, id_text.as_str(), "--port", self.port.as_str()];
        let args = host::owned(&words);
        assert(text::texts(args@) =~= seq![
            noun@,
            verb@,
            text::decimal(id as nat),
            "--port"@,
            self.port@,
        ]);
        args
    }

    /// Acts on an item. `focus` moves the keyboard to the content pane.
    pub fn activate_item(&mut self, idx: usize, focus: bool) -> (out: Vec<Action>)
        requires
            old(self).next_viewer_slot < u32::MAX,
        ensures
            (*final(self), host::actions(out@)) == item_activated(
                *old(self),
                if idx < old(self).items.len() {
                    Some(old(self).items@[idx as int].target)
                } else {
                    None
                },
                focus,
            ),
    {
        if idx >= self.items.len() {
            return host::no_actions();
        }
        match self.items[idx].target {
            ItemTarget::Todo(id) => self.open_document(Document::Todo(id), focus),
            ItemTarget::Note(id) => self.open_document(Document::Note(id), focus),
            ItemTarget::Process(id) => self.activate_process(id, focus),
            ItemTarget::Config(id) => self.activate_config(id, focus),
            ItemTarget::Pane(pane) => self.route_pane_to_slot(pane, focus),
        }
    }

    /// Acts on the selected item and moves the keyboard to it.
    pub fn activate_cursor(&mut self) -> (out: Vec<Action>)
        requires
            old(self).next_viewer_slot < u32::MAX,
        ensures
            (*final(self), host::actions(out@)) == item_activated(
                *old(self),
                old(self).target_at_cursor(),
                true,
            ),
    {
        let at: usize = self.cursor;
        self.activate_item(at, true)
    }

    /// Acts on the selected item; the keyboard stays with the sidebar.
    pub fn start_focused(&mut self) -> (out: Vec<Action>)
        requires
            old(self).next_viewer_slot < u32::MAX,
        ensures
            (*final(self), host::actions(out@)) == item_activated(
                *old(self),
                old(self).target_at_cursor(),
                false,
            ),
    {
        let at: usize = self.cursor;
        self.activate_item(at, false)
    }

    /// Opens the whole list of a mode that has one.
    pub fn open_mode_list(&mut self, focus: bool) -> (out: Vec<Action>)
        requires
            old(self).next_viewer_slot < u32::MAX,
        ensures
            (*final(self), host::actions(out@)) == (match old(self).mode {
                Mode::Todos => document_opened(*old(self), Document::TodoList, focus),
                Mode::Notes => document_opened(*old(self), Document::NoteList, focus),
                _ => (*old(self), seq![]),
            }),
    {
        match self.mode {
            Mode::Todos => self.open_document(Document::TodoList, focus),
            Mode::Notes => self.open_document(Document::NoteList, focus),
            _ => host::no_actions(),
        }
    }

    /// Opens the form of the selected todo, with the keyboard in it.
    pub fn edit_focused_todo(&mut self) -> (out: Vec<Action>)
        requires
            old(self).next_viewer_slot < u32::MAX,
        ensures
            (*final(self), host::actions(out@)) == (match old(self).target_at_cursor() {
                Some(ItemTarget::Todo(id)) => document_opened(
                    *old(self),
                    Document::Todo(id),
                    true,
                ),
                _ => (*old(self), seq![]),
            }),
    {
        match self.focused_target() {
            Some(ItemTarget::Todo(id)) => self.open_document(Document::Todo(id), true),
            _ => host::no_actions(),
        }
    }

    /// Floats the form of a config.
    pub fn spawn_config_form(&mut self, d: Document) -> (out: Vec<Action>)
        requires
            old(self).next_viewer_slot < u32::MAX,
        ensures
            (*final(self), host::actions(out@)) == form_opened(*old(self), d),
    {
        if self.launch_cwd().is_none() {
            return host::no_actions();
        }
        let name = self.allocate_viewer_slot();
        let words = vec![
            "_viewer",
            "--slot",
            name.as_str(),
            "--port",
            self.port.as_str(),
            "--kind",
            d.kind(),
            "--transient",
        ];
        let mut args = host::owned(&words);
        let ghost head = text::texts(args@);
        push_id(&mut args, d.id());
        proof {
            assert(head =~= seq![
                "_viewer"@,
                "--slot"@,
                name@,
                "--port"@,
                self.port@,
                "--kind"@,
                d.kind_text(),
                "--transient"@,
            ]);
        }
        let mut out = host::one_action(Action::Route { viewer: name, document: d });
        host::push_action(&mut out, Action::OpenFloating(args));
        assert(host::actions(out@) =~= form_opened(*old(self), d).1);
        out
    }

    /// Floats the form of the selected config.
    pub fn edit_focused_config(&mut self) -> (out: Vec<Action>)
        requires
            old(self).next_viewer_slot < u32::MAX,
        ensures
            (*final(self), host::actions(out@)) == (match old(self).target_at_cursor() {
                Some(ItemTarget::Config(id)) => form_opened(*old(self), Document::Config(id)),
                _ => (*old(self), seq![]),
            }),
    {
        match self.focused_target() {
            Some(ItemTarget::Config(id)) => self.spawn_config_form(Document::Config(id)),
            _ => host::no_actions(),
        }
    }

    /// Stops a config's live instance.
    pub fn stop_config(&self, id: u64) -> (out: Vec<Action>)
        ensures
            host::actions(out@) == config_stopped(*self, id),
    {
        match self.config_instance(id) {
            Some(i) => {
                let inst: u64 = self.processes[i].id;
                let args = self.id_command("process", "stop", inst);
                let mut out = self.run_panopt(args);
                let more = match self.process_pane(inst) {
                    Some(pane) => host::one_action(Action::Close(pane)),
                    None => host::no_actions(),
                };
                host::append_actions(&mut out, more);
                out
            },
            None => host::no_actions(),
        }
    }

    /// Stops the selected item.
    pub fn stop_focused(&self) -> (out: Vec<Action>)
        ensures
            host::actions(out@) == cursor_stopped(*self),
    {
        match self.focused_target() {
            Some(ItemTarget::Process(id)) => match self.process_pane(id) {
                Some(pane) => host::one_action(Action::Close(pane)),
                None => host::no_actions(),
            },
            Some(ItemTarget::Config(id)) => self.stop_config(id),
            Some(ItemTarget::Pane(pane)) => host::one_action(Action::Close(pane)),
            _ => host::no_actions(),
        }
    }

    /// Floats the dialog that asks before a resource is deleted.
    fn spawn_delete_gate_dialog(&self, kind: &str, id: u64, label: &str) -> (out: Vec<Action>)
        ensures
            host::actions(out@) == seq![delete_dialog(kind@, id, label@, self.port@)],
    {
        let id_text = text::number(id);
        let words = vec![
            "_delete-gate",
            "--kind",
            kind,
            "--id",
            id_text.as_str(),
            "--label",
            label,
            "--port",
            self.port.as_str(),
        ];
        let args = host::owned(&words);
        assert(text::texts(args@) =~= seq![
            "_delete-gate"@,
            "--kind"@,
            kind@,
            "--id"@,
            text::decimal(id as nat),
            "--label"@,
            label@,
            "--port"@,
            self.port@,
        ]);
        host::one_action(Action::OpenFloating(args))
    }

    /// Deletes the selected item.
    pub fn delete_focused(&self) -> (out: Vec<Action>)
        ensures
            host::actions(out@) == cursor_deleted(*self),
    {
        if self.cursor >= self.items.len() || self.launch_cwd().is_none() {
            return host::no_actions();
        }
        let item = &self.items[self.cursor];
        let label = item.label.as_str();
        match item.target {
            ItemTarget::Todo(id) => self.spawn_delete_gate_dialog("todo", id, label),
            ItemTarget::Note(id) => self.spawn_delete_gate_dialog("note", id, label),
            ItemTarget::Process(id) => self.spawn_delete_gate_dialog("process", id, label),
            ItemTarget::Config(id) => {
                proof {
                    reveal_strlit(" · ");
                    text::lemma_pieces_some(label@, " · "@);
                }
                let parts = text::split(label, " · ");
                assert(text::views(parts@)[0] == parts@[0]@);
                self.spawn_delete_gate_dialog("agent-tool", id, parts[0])
            },
            ItemTarget::Pane(pane) => host::one_action(Action::Close(pane)),
        }
    }

    /// Floats the search dialog.
    pub fn spawn_search_dialog(&self) -> (out: Vec<Action>)
        ensures
            host::actions(out@) == search_opened(*self),
    {
        if self.search_pane.is_some() || self.launch_cwd().is_none() {
            return host::no_actions();
        }
        let words = vec!["search", "--port", self.port.as_str()];
        let args = host::owned(&words);
        assert(text::texts(args@) =~= seq!["search"@, "--port"@, self.port@]);
        host::one_action(Action::OpenSearch(args))
    }

    /// The search dialog is open in this pane, or could not be opened.
    pub fn search_spawned(&mut self, pane: Option<PaneId>)
        ensures
            *final(self) == (PanoptPane { search_pane: pane, ..*old(self) }),
    {
        self.search_pane = pane;
    }

    /// Closes the search dialog.
    pub fn close_search_pane(&mut self) -> (out: Vec<Action>)
        ensures
            (*final(self), host::actions(out@)) == search_closed(*old(self)),
            old(self).wf() ==> final(self).wf(),
    {
        match self.search_pane {
            Some(pane) => {
                self.search_pane = None;
                host::one_action(Action::Close(pane))
            },
            None => host::no_actions(),
        }
    }
}

/// Appends the words of an id flag.
fn push_id(args: &mut Vec<String>, id: Option<u64>)
    ensures
        text::texts(final(args)@) == text::texts(old(args)@) + id_flag(id),
{
    let ghost before = args@;
    if let Some(i) = id {
        args.push("--id".to_owned());
        args.push(text::number(i));
    }
    assert(text::texts(args@) =~= text::texts(before) + id_flag(id));
}

} // verus!
