//! The sidebar: one pane of it, what it knows and what it lists.
//!
//! A sidebar pane shows one kind of resource. A cursor walks its items;
//! selecting one shows it in the content slot on the right. Everything the
//! pane wants of the outside it returns as actions.

use vstd::prelude::*;
use vstd::string::*;

use crate::host::PaneId;
use crate::idmap::IdMap;
use crate::model::TodoStatus;
use crate::modes::{Mode, TodoFilter, TodoSort};
use crate::panes::PaneRole;
use crate::rows;
use crate::rows::{ConfigRow, ConfigRowView, ProcessRow, ProcessRowView};
use crate::status::{AgentState, StatusMatcher};
use crate::text;
use crate::textmap::TextMap;
use crate::titles;

verus! {

/// The colour of an agent's row that finished its work and was not looked at
/// since.
pub const AGENT_ATTENTION_FG: u8 = 214;

/// A content pane as the sidebar knows it.
#[derive(Debug)]
pub struct PaneRow {
    pub id: PaneId,
    pub title: String,
    pub focused: bool,
    pub suppressed: bool,
    pub exited: bool,
    pub floating: bool,
    pub role: PaneRole,
    /// The routing slot of a viewer.
    pub viewer_slot: Option<String>,
    /// The stable id of the agent in the pane.
    pub agent_id: Option<String>,
    pub tab: usize,
}

/// The contents of a [`PaneRow`].
pub struct PaneRowView {
    pub id: PaneId,
    pub title: Seq<char>,
    pub focused: bool,
    pub suppressed: bool,
    pub exited: bool,
    pub floating: bool,
    pub role: PaneRole,
    pub viewer_slot: Option<Seq<char>>,
    pub agent_id: Option<Seq<char>>,
    pub tab: usize,
}

impl View for PaneRow {
    type V = PaneRowView;

    open spec fn view(&self) -> PaneRowView {
        PaneRowView {
            id: self.id,
            title: self.title@,
            focused: self.focused,
            suppressed: self.suppressed,
            exited: self.exited,
            floating: self.floating,
            role: self.role,
            viewer_slot: text::opt_text(self.viewer_slot),
            agent_id: text::opt_text(self.agent_id),
            tab: self.tab,
        }
    }
}

/// What selecting an item is about.
#[derive(Clone, Copy, PartialEq, Eq, Debug, Structural)]
pub enum ItemTarget {
    Todo(u64),
    Note(u64),
    Process(u64),
    /// An agent config, by its id.
    Config(u64),
    /// A pane that exists: an ad-hoc agent or a terminal.
    Pane(PaneId),
}

/// One row of the sidebar.
#[derive(Debug)]
pub struct Item {
    pub label: String,
    pub target: ItemTarget,
    /// Whether the row carries the live marker.
    pub live: bool,
    /// The colour of the row, if not the terminal's own.
    pub fg: Option<u8>,
}

/// The contents of an [`Item`].
pub struct ItemView {
    pub label: Seq<char>,
    pub target: ItemTarget,
    pub live: bool,
    pub fg: Option<u8>,
}

impl View for Item {
    type V = ItemView;

    open spec fn view(&self) -> ItemView {
        ItemView { label: self.label@, target: self.target, live: self.live, fg: self.fg }
    }
}

/// What the sidebar remembers of a running agent.
#[derive(Clone, Copy, PartialEq, Eq, Debug, Structural)]
pub struct AgentWatch {
    pub id: u64,
    /// Whether it was idle when last seen.
    pub idle: bool,
    /// Whether it finished its work and was not looked at since.
    pub attention: bool,
}

/// Why the sidebar refused a request.
#[derive(Clone, Copy, PartialEq, Eq, Debug, Structural)]
pub enum Refusal {
    CreateFromSidebar,
    CloseSidebar,
    CloseLastContent,
    /// So many active items would be lost, and no dialog can be shown yet.
    NotPermitted(usize),
}

impl Refusal {
    /// What the title says of a refusal.
    pub open spec fn reason(self) -> Seq<char> {
        match self {
            Refusal::CreateFromSidebar => "cannot create panes from the sidebar"@,
            Refusal::CloseSidebar => "cannot close the sidebar"@,
            Refusal::CloseLastContent => "cannot close the last content pane"@,
            Refusal::NotPermitted(n) => text::decimal(n as nat)
                + " active - permissions not yet granted"@,
        }
    }

    /// What the title says of the refusal.
    pub fn message(self) -> (r: String)
        ensures
            r@ == self.reason(),
    {
        match self {
            Refusal::CreateFromSidebar => "cannot create panes from the sidebar".to_owned(),
            Refusal::CloseSidebar => "cannot close the sidebar".to_owned(),
            Refusal::CloseLastContent => "cannot close the last content pane".to_owned(),
            Refusal::NotPermitted(n) => {
                let mut out = text::number(n as u64);
                out.append(" active - permissions not yet granted");
                out
            },
        }
    }
}

/// One pane of the sidebar.
#[derive(Debug)]
pub struct PanoptPane {
    pub mode: Mode,
    /// Whether the configuration named a mode.
    pub mode_known: bool,
    /// The project's root, where spawned panes run.
    pub ws: Option<String>,
    /// The launcher.
    pub panopt_bin: String,
    /// The daemon's port.
    pub port: String,
    /// Whether the multiplexer granted the permissions.
    pub permitted: bool,
    /// The projected todos, each an id and a label.
    pub todos: Vec<(u64, String)>,
    /// The projected notes.
    pub notes: Vec<(u64, String)>,
    /// The projected process instances.
    pub processes: Vec<ProcessRow>,
    /// The projected agent configs.
    pub configs: Vec<ConfigRow>,
    /// The content panes, the hidden ones too.
    pub panes: Vec<PaneRow>,
    /// What the pane lists.
    pub items: Vec<Item>,
    /// The colours of the todos' rows by status; the rows of a status that has
    /// none stand in the terminal's own.
    pub todo_colors: Vec<(TodoStatus, u8)>,
    pub todo_filter: TodoFilter,
    pub todo_sort_1: TodoSort,
    pub todo_sort_2: TodoSort,
    /// Which item is selected.
    pub cursor: usize,
    /// Which item is on the top row.
    pub scroll: usize,
    /// The size of the pane when last drawn.
    pub last_rows: usize,
    pub last_cols: usize,
    /// This pane.
    pub plugin_pane: Option<PaneId>,
    /// The pane that a selection replaces.
    pub slot_pane: Option<PaneId>,
    /// The search dialog, while it is open.
    pub search_pane: Option<PaneId>,
    /// How many ad-hoc agents were numbered.
    pub next_agent: u32,
    /// How many viewer slots were named.
    pub next_viewer_slot: u32,
    /// The label of each ad-hoc agent's pane.
    pub agent_labels: IdMap<String>,
    /// The agent id of each pane that this one spawned an agent in.
    pub agent_pane_ids: IdMap<String>,
    /// The pane that each started process was put into.
    pub reconciled_panes: IdMap<u32>,
    /// How to tell what an agent of a type is doing.
    pub status_matchers: TextMap<StatusMatcher>,
    /// What the matchers were built from.
    pub agent_types_src: String,
    /// The state last reported of each process.
    pub reported_states: IdMap<AgentState>,
    /// The inputs that were typed.
    pub delivered_inputs: Vec<i64>,
    /// The panes whose typed input awaits its Enter.
    pub pending_submit: Vec<PaneId>,
    /// Whether a sidebar pane has the focus.
    pub sidebar_focused: bool,
    /// Whether a floating pane has the focus.
    pub focused_is_floating: bool,
    /// The tab with the focus.
    pub focused_tab: Option<usize>,
    /// What was refused last.
    pub last_gate_refusal: Option<Refusal>,
    /// The title that was last set.
    pub last_frame_title: String,
    /// The titles that were last set of content panes.
    pub last_pane_titles: IdMap<String>,
    pub initial_preview_done: bool,
    pub initial_preview_delay: u32,
    /// Whether the keys are listed in place of the items.
    pub show_help: bool,
    /// Whether the keys were last locked or given back.
    pub last_emitted_locked: Option<bool>,
    /// The number of content panes that was last published.
    pub last_content_count: Option<usize>,
    /// Whether there ever was a content pane to see.
    pub has_had_content: bool,
    /// The version of the view that this pane published or adopted.
    pub view_seq: u64,
    pub last_applied_seq: u64,
    /// Whether an agent that falls idle rings the bell.
    pub idle_bell: bool,
    pub pending_bell: bool,
    /// The running agents, as last seen.
    pub watched: Vec<AgentWatch>,
}

/// The contents of the panes.
pub open spec fn pane_views(v: Seq<PaneRow>) -> Seq<PaneRowView> {
    v.map_values(|p: PaneRow| p@)
}

/// The contents of the processes.
pub open spec fn process_views(v: Seq<ProcessRow>) -> Seq<ProcessRowView> {
    v.map_values(|p: ProcessRow| p@)
}

/// The contents of the configs.
pub open spec fn config_views(v: Seq<ConfigRow>) -> Seq<ConfigRowView> {
    v.map_values(|c: ConfigRow| c@)
}

/// The contents of the items.
pub open spec fn item_views(v: Seq<Item>) -> Seq<ItemView> {
    v.map_values(|i: Item| i@)
}

// ---------------------------------------------------------------------------
// Finding panes and processes
// ---------------------------------------------------------------------------

/// Which pane is looked for.
#[derive(Clone, Copy, Debug)]
pub enum PaneQuery<'a> {
    /// The pane itself.
    Id(PaneId),
    /// The pane itself, if it is not hidden.
    Visible(PaneId),
    /// The live pane of a process.
    Process(u64),
    /// The live pane of the agent with an id.
    Agent(&'a str),
    /// A hidden viewer.
    SuppressedViewer,
    /// A viewer that is not hidden.
    VisibleViewer,
    /// Any pane that is not hidden.
    AnyVisible,
}

/// Whether a pane is one that is looked for.
pub open spec fn answers(q: PaneQuery, p: PaneRowView) -> bool {
    match q {
        PaneQuery::Id(id) => p.id == id,
        PaneQuery::Visible(id) => p.id == id && !p.suppressed,
        PaneQuery::Process(id) => p.role == PaneRole::Process(id) && !p.exited,
        PaneQuery::Agent(id) => !p.exited && p.agent_id == Some(id@),
        PaneQuery::SuppressedViewer => p.role == PaneRole::Viewer && p.suppressed,
        PaneQuery::VisibleViewer => !p.suppressed && p.role == PaneRole::Viewer,
        PaneQuery::AnyVisible => !p.suppressed,
    }
}

/// The first pane that is looked for.
pub open spec fn first_pane(panes: Seq<PaneRowView>, q: PaneQuery) -> Option<PaneRowView>
    decreases panes.len(),
{
    if panes.len() == 0 {
        None
    } else if answers(q, panes[0]) {
        Some(panes[0])
    } else {
        first_pane(panes.drop_first(), q)
    }
}

/// The id of the first pane that is looked for.
pub open spec fn first_pane_id(panes: Seq<PaneRowView>, q: PaneQuery) -> Option<PaneId> {
    match first_pane(panes, q) {
        Some(p) => Some(p.id),
        None => None,
    }
}

/// Whether a pane is one that is looked for.
fn answers_query(q: PaneQuery, p: &PaneRow) -> (r: bool)
    ensures
        r == answers(q, p@),
{
    match q {
        PaneQuery::Id(id) => p.id == id,
        PaneQuery::Visible(id) => p.id == id && !p.suppressed,
        PaneQuery::Process(id) => p.role == PaneRole::Process(id) && !p.exited,
        PaneQuery::Agent(id) => !p.exited && text::is_some_text(&p.agent_id, id),
        PaneQuery::SuppressedViewer => p.role == PaneRole::Viewer && p.suppressed,
        PaneQuery::VisibleViewer => !p.suppressed && p.role == PaneRole::Viewer,
        PaneQuery::AnyVisible => !p.suppressed,
    }
}

/// The pane that hosts an agent: the one with its stable id, or else the
/// process's own.
pub open spec fn agent_pane_of(
    panes: Seq<PaneRowView>,
    id: u64,
    agent_id: Option<Seq<char>>,
) -> Option<PaneId> {
    match agent_id {
        Some(a) => if a.len() > 0 && first_agent_pane(panes, a) is Some {
            first_agent_pane(panes, a)
        } else {
            first_pane_id(panes, PaneQuery::Process(id))
        },
        None => first_pane_id(panes, PaneQuery::Process(id)),
    }
}

/// The first live pane of the agent with an id.
pub open spec fn first_agent_pane(panes: Seq<PaneRowView>, agent: Seq<char>) -> Option<PaneId>
    decreases panes.len(),
{
    if panes.len() == 0 {
        None
    } else if !panes[0].exited && panes[0].agent_id == Some(agent) {
        Some(panes[0].id)
    } else {
        first_agent_pane(panes.drop_first(), agent)
    }
}

/// Looking for an agent's pane by its id is a query.
proof fn lemma_agent_query(panes: Seq<PaneRowView>, agent: &str)
    ensures
        first_pane_id(panes, PaneQuery::Agent(agent)) == first_agent_pane(panes, agent@),
    decreases panes.len(),
{
    if panes.len() > 0 {
        lemma_agent_query(panes.drop_first(), agent);
    }
}

/// The first live instance of a config.
pub open spec fn instance_in(processes: Seq<ProcessRowView>, config: u64) -> Option<ProcessRowView>
    decreases processes.len(),
{
    if processes.len() == 0 {
        None
    } else if processes[0].kind == "agent"@ && processes[0].agent_tool_id == Some(config) {
        Some(processes[0])
    } else {
        instance_in(processes.drop_first(), config)
    }
}

/// The process with an id.
pub open spec fn process_in(processes: Seq<ProcessRowView>, id: u64) -> Option<ProcessRowView>
    decreases processes.len(),
{
    if processes.len() == 0 {
        None
    } else if processes[0].id == id {
        Some(processes[0])
    } else {
        process_in(processes.drop_first(), id)
    }
}

impl PanoptPane {
    /// The order of the maps that the pane keeps.
    pub open spec fn wf(self) -> bool {
        &&& self.agent_labels.wf()
        &&& self.agent_pane_ids.wf()
        &&& self.reconciled_panes.wf()
        &&& self.reported_states.wf()
        &&& self.last_pane_titles.wf()
        &&& self.status_matchers.wf()
    }

    /// The contents of the content panes.
    pub open spec fn pane_list(self) -> Seq<PaneRowView> {
        pane_views(self.panes@)
    }

    /// The contents of the processes.
    pub open spec fn process_list(self) -> Seq<ProcessRowView> {
        process_views(self.processes@)
    }

    /// A pane of the given mode that knows nothing yet.
    pub fn blank(mode: Mode) -> (s: PanoptPane)
        ensures
            s.wf(),
            s.mode == mode,
            !s.mode_known && !s.permitted && !s.show_help && !s.idle_bell && !s.pending_bell,
            s.ws is None,
            s.panopt_bin@ == Seq::<char>::empty(),
            s.port@ == Seq::<char>::empty(),
            s.todos@.len() == 0 && s.notes@.len() == 0 && s.processes@.len() == 0,
            s.configs@.len() == 0 && s.panes@.len() == 0 && s.items@.len() == 0,
            s.todo_filter == TodoFilter::Active,
            s.todo_sort_1 == TodoSort::PriorityDesc && s.todo_sort_2 == TodoSort::PriorityDesc,
            s.cursor == 0 && s.scroll == 0 && s.last_rows == 0 && s.last_cols == 0,
            s.todo_colors@.len() == 0,
            s.plugin_pane is None && s.slot_pane is None && s.search_pane is None,
            s.next_agent == 0 && s.next_viewer_slot == 0,
            s.agent_labels.list().len() == 0 && s.agent_pane_ids.list().len() == 0,
            s.reconciled_panes.list().len() == 0 && s.reported_states.list().len() == 0,
            s.last_pane_titles.list().len() == 0 && s.status_matchers.list().len() == 0,
            s.agent_types_src@ == Seq::<char>::empty(),
            s.last_frame_title@ == Seq::<char>::empty(),
            s.delivered_inputs@.len() == 0 && s.pending_submit@.len() == 0 && s.watched@.len() == 0,
            !s.sidebar_focused && !s.focused_is_floating && s.focused_tab is None,
            s.last_gate_refusal is None && s.last_emitted_locked is None,
            s.last_content_count is None && !s.has_had_content,
            !s.initial_preview_done && s.initial_preview_delay == 0,
            s.view_seq == 0 && s.last_applied_seq == 0,
    {
        PanoptPane {
            mode,
            mode_known: false,
            ws: None,
            panopt_bin: String::new(),
            port: String::new(),
            permitted: false,
            todos: Vec::new(),
            notes: Vec::new(),
            processes: Vec::new(),
            configs: Vec::new(),
            panes: Vec::new(),
            items: Vec::new(),
            todo_colors: Vec::new(),
            todo_filter: TodoFilter::Active,
            todo_sort_1: TodoSort::PriorityDesc,
            todo_sort_2: TodoSort::PriorityDesc,
            cursor: 0,
            scroll: 0,
            last_rows: 0,
            last_cols: 0,
            plugin_pane: None,
            slot_pane: None,
            search_pane: None,
            next_agent: 0,
            next_viewer_slot: 0,
            agent_labels: IdMap::new(),
            agent_pane_ids: IdMap::new(),
            reconciled_panes: IdMap::new(),
            status_matchers: TextMap::new(),
            agent_types_src: String::new(),
            reported_states: IdMap::new(),
            delivered_inputs: Vec::new(),
            pending_submit: Vec::new(),
            sidebar_focused: false,
            focused_is_floating: false,
            focused_tab: None,
            last_gate_refusal: None,
            last_frame_title: String::new(),
            last_pane_titles: IdMap::new(),
            initial_preview_done: false,
            initial_preview_delay: 0,
            show_help: false,
            last_emitted_locked: None,
            last_content_count: None,
            has_had_content: false,
            view_seq: 0,
            last_applied_seq: 0,
            idle_bell: false,
            pending_bell: false,
            watched: Vec::new(),
        }
    }

    /// Where the first pane that is looked for stands.
    pub fn find_pane(&self, q: PaneQuery) -> (r: Option<usize>)
        ensures
            match r {
                Some(i) => i < self.panes@.len() && first_pane(self.pane_list(), q) == Some(
                    self.panes@[i as int]@,
                ),
                None => first_pane(self.pane_list(), q) is None,
            },
    {
        let ghost all = self.pane_list();
        let mut i: usize = 0;
        assert(all.skip(0) =~= all);
        while i < self.panes.len()
            invariant
                i <= self.panes.len(),
                all == self.pane_list(),
                first_pane(all, q) == first_pane(all.skip(i as int), q),
            decreases self.panes.len() - i,
        {
            assert(all.skip(i as int)[0] == self.panes@[i as int]@);
            if answers_query(q, &self.panes[i]) {
                return Some(i);
            }
            assert(all.skip(i as int).drop_first() =~= all.skip(i + 1));
            i += 1;
        }
        None
    }

    /// The first pane that is looked for.
    pub fn pane_for(&self, q: PaneQuery) -> (r: Option<PaneId>)
        ensures
            r == first_pane_id(self.pane_list(), q),
    {
        match self.find_pane(q) {
            Some(i) => Some(self.panes[i].id),
            None => None,
        }
    }

    /// Whether a pane is there and not hidden.
    pub fn pane_is_visible(&self, pane: PaneId) -> (r: bool)
        ensures
            r == first_pane(self.pane_list(), PaneQuery::Visible(pane)) is Some,
    {
        self.find_pane(PaneQuery::Visible(pane)).is_some()
    }

    /// The routing slot of a viewer's pane.
    pub open spec fn slot_name_of(self, pane: PaneId) -> Option<Seq<char>> {
        match first_pane(self.pane_list(), PaneQuery::Id(pane)) {
            Some(p) => p.viewer_slot,
            None => None,
        }
    }

    /// The routing slot of a viewer's pane.
    pub fn viewer_slot_of(&self, pane: PaneId) -> (r: Option<String>)
        ensures
            text::opt_text(r) == self.slot_name_of(pane),
    {
        match self.find_pane(PaneQuery::Id(pane)) {
            Some(i) => match &self.panes[i].viewer_slot {
                Some(s) => Some(s.clone()),
                None => None,
            },
            None => None,
        }
    }

    /// The first viewer that is hidden.
    pub fn first_suppressed_viewer(&self) -> (r: Option<PaneId>)
        ensures
            r == first_pane_id(self.pane_list(), PaneQuery::SuppressedViewer),
    {
        self.pane_for(PaneQuery::SuppressedViewer)
    }

    /// The live pane of a process.
    pub fn process_pane(&self, id: u64) -> (r: Option<PaneId>)
        ensures
            r == first_pane_id(self.pane_list(), PaneQuery::Process(id)),
    {
        self.pane_for(PaneQuery::Process(id))
    }

    /// The live pane of an agent instance: by its stable id, or else as a
    /// process.
    pub fn agent_pane(&self, id: u64, agent_id: Option<&str>) -> (r: Option<PaneId>)
        ensures
            r == agent_pane_of(self.pane_list(), id, text::opt_str(agent_id)),
    {
        if let Some(a) = agent_id {
            if !a.is_empty() {
                proof {
                    lemma_agent_query(self.pane_list(), a);
                }
                if let Some(p) = self.pane_for(PaneQuery::Agent(a)) {
                    return Some(p);
                }
            }
        }
        self.process_pane(id)
    }

    /// Where the first live instance of a config stands.
    pub fn config_instance(&self, config: u64) -> (r: Option<usize>)
        ensures
            match r {
                Some(i) => i < self.processes@.len() && instance_in(self.process_list(), config)
                    == Some(self.processes@[i as int]@),
                None => instance_in(self.process_list(), config) is None,
            },
    {
        let ghost all = self.process_list();
        let mut i: usize = 0;
        assert(all.skip(0) =~= all);
        while i < self.processes.len()
            invariant
                i <= self.processes.len(),
                all == self.process_list(),
                instance_in(all, config) == instance_in(all.skip(i as int), config),
            decreases self.processes.len() - i,
        {
            assert(all.skip(i as int)[0] == self.processes@[i as int]@);
            if text::same(self.processes[i].kind.as_str(), "agent") {
                if let Some(c) = self.processes[i].agent_tool_id {
                    if c == config {
                        return Some(i);
                    }
                }
            }
            assert(all.skip(i as int).drop_first() =~= all.skip(i + 1));
            i += 1;
        }
        None
    }

    /// Where the process with an id stands.
    pub fn process_at(&self, id: u64) -> (r: Option<usize>)
        ensures
            match r {
                Some(i) => i < self.processes@.len() && process_in(self.process_list(), id) == Some(
                    self.processes@[i as int]@,
                ),
                None => process_in(self.process_list(), id) is None,
            },
    {
        let ghost all = self.process_list();
        let mut i: usize = 0;
        assert(all.skip(0) =~= all);
        while i < self.processes.len()
            invariant
                i <= self.processes.len(),
                all == self.process_list(),
                process_in(all, id) == process_in(all.skip(i as int), id),
            decreases self.processes.len() - i,
        {
            assert(all.skip(i as int)[0] == self.processes@[i as int]@);
            if self.processes[i].id == id {
                return Some(i);
            }
            assert(all.skip(i as int).drop_first() =~= all.skip(i + 1));
            i += 1;
        }
        None
    }

    /// The pane of a config's live instance.
    pub open spec fn config_pane(self, config: u64) -> Option<PaneId> {
        match instance_in(self.process_list(), config) {
            Some(row) => first_pane_id(self.pane_list(), PaneQuery::Process(row.id)),
            None => None,
        }
    }

    /// The pane of a config's live instance.
    pub fn config_instance_pane(&self, config: u64) -> (r: Option<PaneId>)
        ensures
            r == self.config_pane(config),
    {
        match self.config_instance(config) {
            Some(i) => self.process_pane(self.processes[i].id),
            None => None,
        }
    }
}

// ---------------------------------------------------------------------------
// Cursor and window
// ---------------------------------------------------------------------------

impl PanoptPane {
    /// How many rows show items: all but the status line of the Todos pane,
    /// and at least one.
    pub open spec fn rows_shown(self) -> int {
        let r = if self.mode == Mode::Todos {
            self.last_rows - 1
        } else {
            self.last_rows as int
        };
        if r < 1 {
            1
        } else {
            r
        }
    }

    /// How many rows show items.
    pub fn list_rows(&self) -> (r: usize)
        ensures
            r == self.rows_shown(),
    {
        let rows: usize = if self.mode == Mode::Todos && self.last_rows > 0 {
            self.last_rows - 1
        } else {
            self.last_rows
        };
        if rows < 1 {
            1
        } else {
            rows
        }
    }

    /// How far PageUp and PageDown go: a screenful.
    pub fn page_step(&self) -> (r: usize)
        ensures
            r == self.rows_shown(),
    {
        self.list_rows()
    }

    /// The item that a step of `delta` rows leads to.
    pub open spec fn stepped(self, delta: int) -> int {
        let to = self.cursor + delta;
        if to < 0 {
            0
        } else if to > self.items.len() - 1 {
            self.items.len() - 1
        } else {
            to
        }
    }

    /// The pane after the cursor went `delta` rows: the window follows the
    /// cursor by as little as it must.
    pub open spec fn moved(self, delta: int) -> PanoptPane {
        if self.items.len() == 0 {
            self
        } else {
            let to = self.stepped(delta);
            let top = if to < self.scroll {
                to
            } else if to >= self.scroll + self.rows_shown() {
                to + 1 - self.rows_shown()
            } else {
                self.scroll as int
            };
            PanoptPane { cursor: to as usize, scroll: top as usize, ..self }
        }
    }

    /// Whether a step of `delta` rows moves the cursor.
    pub open spec fn moves(self, delta: int) -> bool {
        self.items.len() > 0 && self.stepped(delta) != self.cursor
    }

    /// Steps the cursor and lets the window follow. Returns whether the
    /// cursor moved.
    pub fn move_cursor(&mut self, delta: i64) -> (r: bool)
        ensures
            *final(self) == old(self).moved(delta as int),
            r == old(self).moves(delta as int),
    {
        self.step_cursor(delta as i128)
    }

    /// Steps the cursor by as many rows as there can be.
    pub fn step_cursor(&mut self, delta: i128) -> (r: bool)
        requires
            -(u64::MAX as int) <= delta <= u64::MAX,
        ensures
            *final(self) == old(self).moved(delta as int),
            r == old(self).moves(delta as int),
    {
        let count: usize = self.items.len();
        if count == 0 {
            return false;
        }
        let visible: usize = self.list_rows();
        let last: usize = count - 1;
        let wanted: i128 = self.cursor as i128 + delta;
        let new: usize = if wanted < 0 {
            0
        } else if wanted > last as i128 {
            last
        } else {
            wanted as usize
        };
        let moved = new != self.cursor;
        self.cursor = new;
        if self.cursor < self.scroll {
            self.scroll = self.cursor;
        } else if self.cursor - self.scroll >= visible {
            self.scroll = self.cursor - (visible - 1);
        }
        moved
    }

    /// The last item that can stand on the top row without leaving rows
    /// empty.
    pub open spec fn last_top(self) -> int {
        if self.items.len() > self.rows_shown() {
            self.items.len() - self.rows_shown()
        } else {
            0
        }
    }

    /// The pane with its cursor on an item and its window over the list.
    pub open spec fn clamped(self) -> PanoptPane {
        let cursor = if self.items.len() == 0 {
            0
        } else if self.cursor > self.items.len() - 1 {
            self.items.len() - 1
        } else {
            self.cursor as int
        };
        let scroll = if self.scroll > self.last_top() {
            self.last_top()
        } else {
            self.scroll as int
        };
        PanoptPane { cursor: cursor as usize, scroll: scroll as usize, ..self }
    }

    /// Puts the cursor on an item and the window over the list.
    pub fn clamp_cursor(&mut self)
        ensures
            *final(self) == old(self).clamped(),
    {
        let count: usize = self.items.len();
        let visible: usize = self.list_rows();
        let top: usize = if count > visible {
            count - visible
        } else {
            0
        };
        let cursor: usize = if count == 0 {
            0
        } else if self.cursor > count - 1 {
            count - 1
        } else {
            self.cursor
        };
        let scroll: usize = if self.scroll > top {
            top
        } else {
            self.scroll
        };
        self.cursor = cursor;
        self.scroll = scroll;
    }

    /// What the selected item is about.
    pub open spec fn target_at_cursor(self) -> Option<ItemTarget> {
        if self.cursor < self.items.len() {
            Some(self.items@[self.cursor as int].target)
        } else {
            None
        }
    }

    /// What the selected item is about.
    pub fn focused_target(&self) -> (r: Option<ItemTarget>)
        ensures
            r == self.target_at_cursor(),
    {
        if self.cursor < self.items.len() {
            Some(self.items[self.cursor].target)
        } else {
            None
        }
    }

    /// After a step the cursor is on an item, and that item is in the window.
    pub proof fn law_cursor_stays_in_window(self, delta: int)
        requires
            self.items.len() > 0,
        ensures
            ({
                let after = self.moved(delta);
                &&& after.cursor < after.items.len()
                &&& after.scroll <= after.cursor < after.scroll + after.rows_shown()
            }),
    {
    }

    /// Clamping leaves the cursor on an item where there is one, and a window
    /// that shows as many items as it can.
    pub proof fn law_clamped_in_bounds(self)
        ensures
            ({
                let after = self.clamped();
                &&& self.items.len() > 0 ==> after.cursor < after.items.len()
                &&& self.items.len() == 0 ==> after.cursor == 0 && after.scroll == 0
                &&& self.items.len() > self.rows_shown() ==> after.scroll + after.rows_shown()
                    <= after.items.len()
                &&& self.items.len() <= self.rows_shown() ==> after.scroll == 0
                &&& after.clamped() == after
            }),
    {
    }

    /// A step down that moves, and then one up, leads back to the item.
    pub proof fn law_step_back(self)
        requires
            self.cursor < self.items.len(),
            self.moves(1),
        ensures
            self.moved(1).moved(-1).cursor == self.cursor,
    {
    }
}

// ---------------------------------------------------------------------------
// The attention latch
// ---------------------------------------------------------------------------

/// What is remembered of an agent.
pub open spec fn watch_of(watched: Seq<AgentWatch>, id: u64) -> Option<AgentWatch>
    decreases watched.len(),
{
    if watched.len() == 0 {
        None
    } else if watched.last().id == id {
        Some(watched.last())
    } else {
        watch_of(watched.drop_last(), id)
    }
}

/// A running agent: an agent's row whose status is `running`.
pub open spec fn runs_agent(row: ProcessRowView) -> bool {
    row.kind == "agent"@ && row.status == Some("running"@)
}

/// Whether the pane of an agent has the focus.
pub open spec fn agent_focused(panes: Seq<PaneRowView>, row: ProcessRowView) -> bool {
    match agent_pane_of(panes, row.id, row.agent_id) {
        Some(pane) => match first_pane(panes, PaneQuery::Id(pane)) {
            Some(p) => p.focused,
            None => false,
        },
        None => false,
    }
}

/// What is remembered of an agent after it was seen once more: attention is
/// due when it falls idle after something else, until its pane has the focus
/// or it works again. Of an agent never seen before, none is due.
pub open spec fn watched_again(
    before: Option<AgentWatch>,
    id: u64,
    idle: bool,
    focused: bool,
) -> AgentWatch {
    let due = match before {
        Some(w) => w.attention || (idle && !w.idle),
        None => false,
    };
    AgentWatch { id, idle, attention: due && idle && !focused }
}

/// What is remembered of the running agents, the rows seen one by one.
pub open spec fn watch_all(
    before: Seq<AgentWatch>,
    processes: Seq<ProcessRowView>,
    panes: Seq<PaneRowView>,
) -> Seq<AgentWatch>
    decreases processes.len(),
{
    if processes.len() == 0 {
        seq![]
    } else {
        let seen = watch_all(before, processes.drop_last(), panes);
        let row = processes.last();
        if runs_agent(row) {
            let last = match watch_of(seen, row.id) {
                Some(w) => Some(w),
                None => watch_of(before, row.id),
            };
            seen.push(
                watched_again(
                    last,
                    row.id,
                    row.agent_state == Some("idle"@),
                    agent_focused(panes, row),
                ),
            )
        } else {
            seen
        }
    }
}

/// What is remembered of an agent.
pub fn find_watch(watched: &Vec<AgentWatch>, id: u64) -> (r: Option<AgentWatch>)
    ensures
        r == watch_of(watched@, id),
{
    let mut i: usize = watched.len();
    assert(watched@.take(i as int) =~= watched@);
    while i > 0
        invariant
            i <= watched.len(),
            watch_of(watched@, id) == watch_of(watched@.take(i as int), id),
        decreases i,
    {
        assert(watched@.take(i as int).last() == watched@[i - 1]);
        assert(watched@.take(i as int).drop_last() =~= watched@.take(i - 1));
        if watched[i - 1].id == id {
            return Some(watched[i - 1]);
        }
        i -= 1;
    }
    None
}

/// Attention is due to an agent.
pub open spec fn needs_attention(watched: Seq<AgentWatch>, id: u64) -> bool {
    watch_of(watched, id) matches Some(w) && w.attention
}

impl PanoptPane {
    /// Whether the pane of an agent has the focus.
    fn pane_has_focus(&self, row: &ProcessRow) -> (r: bool)
        ensures
            r == agent_focused(self.pane_list(), row@),
    {
        let agent_id: Option<&str> = match &row.agent_id {
            Some(a) => Some(a.as_str()),
            None => None,
        };
        match self.agent_pane(row.id, agent_id) {
            Some(pane) => match self.find_pane(PaneQuery::Id(pane)) {
                Some(i) => self.panes[i].focused,
                None => false,
            },
            None => false,
        }
    }

    /// Looks at the running agents again: which fell idle, which work again,
    /// which were looked at.
    pub fn update_attention(&mut self)
        ensures
            *final(self) == (PanoptPane { watched: final(self).watched, ..*old(self) }),
            final(self).watched@ == watch_all(
                old(self).watched@,
                old(self).process_list(),
                old(self).pane_list(),
            ),
    {
        let mut seen: Vec<AgentWatch> = Vec::new();
        let ghost all = self.process_list();
        let ghost panes = self.pane_list();
        let mut i: usize = 0;
        assert(all.take(0) =~= seq![]);
        while i < self.processes.len()
            invariant
                *self == *old(self),
                i <= self.processes.len(),
                all == self.process_list(),
                panes == self.pane_list(),
                seen@ == watch_all(self.watched@, all.take(i as int), panes),
            decreases self.processes.len() - i,
        {
            let row = &self.processes[i];
            proof {
                assert(all.take(i + 1).drop_last() =~= all.take(i as int));
                assert(all.take(i + 1).last() == row@);
            }
            if text::same(row.kind.as_str(), "agent") && text::is_some_text(&row.status, "running") {
                let last = match find_watch(&seen, row.id) {
                    Some(w) => Some(w),
                    None => find_watch(&self.watched, row.id),
                };
                let idle = text::is_some_text(&row.agent_state, "idle");
                let focused = self.pane_has_focus(row);
                let due = match last {
                    Some(w) => w.attention || (idle && !w.idle),
                    None => false,
                };
                seen.push(AgentWatch { id: row.id, idle, attention: due && idle && !focused });
            }
            i += 1;
        }
        assert(all.take(i as int) =~= all);
        self.watched = seen;
    }
}

} // verus!
