//! What a sidebar pane lists and how it draws it.

use vstd::prelude::*;
use vstd::string::*;

use crate::host::PaneId;
use crate::idmap::IdMap;
use crate::model::TodoStatus;
use crate::modes;
use crate::modes::{Mode, TodoFilter};
use crate::panes::PaneRole;
use crate::rows;
use crate::rows::{ConfigRow, ConfigRowView, ProcessRowView};
use crate::sidebar;
use crate::sidebar::{
    AgentWatch, Item, ItemTarget, ItemView, PaneQuery, PaneRow, PaneRowView, PanoptPane,
    AGENT_ATTENTION_FG,
};
use crate::sorting;
use crate::text;

verus! {

// ---------------------------------------------------------------------------
// Items
// ---------------------------------------------------------------------------

/// The rows that a filter shows, in order.
pub open spec fn shown_rows(filter: TodoFilter, rows: Seq<(u64, String)>) -> Seq<(u64, String)>
    decreases rows.len(),
{
    if rows.len() == 0 {
        seq![]
    } else {
        let before = shown_rows(filter, rows.drop_last());
        if filter.shows(rows.last().1@) {
            before.push(rows.last())
        } else {
            before
        }
    }
}

/// The todos that the pane lists: what the filter shows, by the second axis,
/// then by the first.
pub open spec fn listed_todos(s: PanoptPane) -> Seq<(u64, String)> {
    sorting::sorted(
        &s.todo_sort_1,
        sorting::sorted(&s.todo_sort_2, shown_rows(s.todo_filter, s.todos@)),
    )
}

/// Every row that a filter lets through is one that it shows.
proof fn lemma_rows_are_shown(filter: TodoFilter, rows: Seq<(u64, String)>)
    ensures
        forall|i: int|
            0 <= i < shown_rows(filter, rows).len() ==> filter.shows(
                (#[trigger] shown_rows(filter, rows)[i]).1@,
            ) && rows.contains(shown_rows(filter, rows)[i]),
    decreases rows.len(),
{
    if rows.len() > 0 {
        let front = rows.drop_last();
        lemma_rows_are_shown(filter, front);
        let out = shown_rows(filter, rows);
        let before = shown_rows(filter, front);
        assert forall|i: int| 0 <= i < out.len() implies filter.shows((#[trigger] out[i]).1@)
            && rows.contains(out[i]) by {
            if i < before.len() {
                assert(out[i] == before[i]);
                let k = choose|k: int| 0 <= k < front.len() && front[k] == before[i];
                assert(rows[k] == out[i]);
            } else {
                assert(rows[rows.len() - 1] == out[i]);
            }
        }
    }
}

/// The todos that the filter shows, and no others, are listed in the order of
/// the first axis, and in that of the second where the first does not tell.
/// By their last change they can be listed where all name theirs, or none does.
pub proof fn law_todos_are_in_order(s: PanoptPane)
    requires
        modes::goes_by_change(s.todo_sort_1) || modes::goes_by_change(s.todo_sort_2)
            ==> modes::are_uniform(shown_rows(s.todo_filter, s.todos@)),
    ensures
        sorting::in_order_by_both(&s.todo_sort_1, &s.todo_sort_2, listed_todos(s)),
        listed_todos(s).to_multiset() == shown_rows(s.todo_filter, s.todos@).to_multiset(),
        forall|i: int|
            0 <= i < listed_todos(s).len() ==> s.todo_filter.shows(
                (#[trigger] listed_todos(s)[i]).1@,
            ),
{
    let rows = shown_rows(s.todo_filter, s.todos@);
    modes::law_axis_sorts(s.todo_sort_1, rows);
    modes::law_axis_sorts(s.todo_sort_2, rows);
    sorting::law_two_level_sort(&s.todo_sort_1, &s.todo_sort_2, rows);
    let by_second = sorting::sorted(&s.todo_sort_2, rows);
    sorting::law_sorted_same_elements(&s.todo_sort_2, rows);
    sorting::law_sorted_same_elements(&s.todo_sort_1, by_second);
    lemma_rows_are_shown(s.todo_filter, s.todos@);
    let out = listed_todos(s);
    assert forall|i: int| 0 <= i < out.len() implies s.todo_filter.shows(
        (#[trigger] out[i]).1@,
    ) by {
        broadcast use vstd::seq_lib::group_to_multiset_ensures;

        assert(out.to_multiset().count(out[i]) > 0);
        assert(rows.to_multiset().count(out[i]) > 0);
        assert(rows.contains(out[i]));
    }
}

/// Todos that are tied on both axes are listed in the order of the file.
pub proof fn law_tied_todos_keep_their_order(s: PanoptPane, some: spec_fn((u64, String)) -> bool)
    requires
        sorting::are_tied(&s.todo_sort_1, shown_rows(s.todo_filter, s.todos@), some),
        sorting::are_tied(&s.todo_sort_2, shown_rows(s.todo_filter, s.todos@), some),
    ensures
        listed_todos(s).filter(some) == shown_rows(s.todo_filter, s.todos@).filter(some),
{
    sorting::law_two_level_sort_is_stable(
        &s.todo_sort_1,
        &s.todo_sort_2,
        shown_rows(s.todo_filter, s.todos@),
        some,
    );
}

/// `#<id> <label>`.
pub open spec fn numbered(id: u64, label: Seq<char>) -> Seq<char> {
    "#"@ + text::decimal(id as nat) + " "@ + label
}

/// The colour that a status is given, the first where it is given several.
pub open spec fn color_of(colors: Seq<(TodoStatus, u8)>, status: Seq<char>) -> Option<u8>
    decreases colors.len(),
{
    if colors.len() == 0 {
        None
    } else if colors[0].0.token() == status {
        Some(colors[0].1)
    } else {
        color_of(colors.drop_first(), status)
    }
}

/// The colour of a todo's row: that of the status which its label names.
pub open spec fn row_color(colors: Seq<(TodoStatus, u8)>, label: Seq<char>) -> Option<u8> {
    match modes::status_of(label) {
        Some(status) => color_of(colors, status),
        None => None,
    }
}

/// The item of a todo, in the colour of its status.
pub open spec fn todo_item(colors: Seq<(TodoStatus, u8)>, row: (u64, String)) -> ItemView {
    ItemView {
        label: numbered(row.0, row.1@),
        target: ItemTarget::Todo(row.0),
        live: false,
        fg: row_color(colors, row.1@),
    }
}

/// The item of a note.
pub open spec fn note_item(row: (u64, String)) -> ItemView {
    ItemView {
        label: numbered(row.0, row.1@),
        target: ItemTarget::Note(row.0),
        live: false,
        fg: None,
    }
}

/// A pane's own title, and whether it exited.
pub open spec fn pane_label_text(p: PaneRowView) -> Seq<char> {
    let title = if text::trimmed(p.title).len() == 0 {
        "(untitled)"@
    } else {
        text::trimmed(p.title)
    };
    if p.exited {
        title + " (exited)"@
    } else {
        title
    }
}

/// The label of an agent's pane: the one it was given, or else the pane's own.
pub open spec fn agent_label_text(labels: IdMap<String>, p: PaneRowView) -> Seq<char> {
    match p.id {
        PaneId::Terminal(tid) => match labels.lookup(tid as u64) {
            Some(label) => label@,
            None => pane_label_text(p),
        },
        PaneId::Plugin(_) => pane_label_text(p),
    }
}

/// The item of an agent config: its live instance tells its state, its marker
/// and whether attention is due.
pub open spec fn config_item(
    config: ConfigRowView,
    processes: Seq<ProcessRowView>,
    panes: Seq<PaneRowView>,
    watched: Seq<AgentWatch>,
) -> ItemView {
    let inst = sidebar::instance_in(processes, config.id);
    ItemView {
        label: rows::config_label(config, inst),
        target: ItemTarget::Config(config.id),
        live: inst is Some && sidebar::first_pane(panes, PaneQuery::Process(inst->0.id)) is Some,
        fg: if inst is Some && sidebar::needs_attention(watched, inst->0.id) {
            Some(AGENT_ATTENTION_FG)
        } else {
            None
        },
    }
}

/// The items of ad-hoc agents: one for each agent's pane.
pub open spec fn agent_items(labels: IdMap<String>, panes: Seq<PaneRowView>) -> Seq<ItemView>
    decreases panes.len(),
{
    if panes.len() == 0 {
        seq![]
    } else {
        let before = agent_items(labels, panes.drop_last());
        let p = panes.last();
        if p.role == PaneRole::Agent {
            before.push(
                ItemView {
                    label: agent_label_text(labels, p),
                    target: ItemTarget::Pane(p.id),
                    live: p.focused,
                    fg: None,
                },
            )
        } else {
            before
        }
    }
}

/// The items of terminals: one for each plain pane.
pub open spec fn terminal_items(panes: Seq<PaneRowView>) -> Seq<ItemView>
    decreases panes.len(),
{
    if panes.len() == 0 {
        seq![]
    } else {
        let before = terminal_items(panes.drop_last());
        let p = panes.last();
        if p.role == PaneRole::Shell {
            before.push(
                ItemView {
                    label: pane_label_text(p),
                    target: ItemTarget::Pane(p.id),
                    live: p.focused,
                    fg: None,
                },
            )
        } else {
            before
        }
    }
}

/// The items of commands: one for each command process.
pub open spec fn command_items(
    processes: Seq<ProcessRowView>,
    panes: Seq<PaneRowView>,
) -> Seq<ItemView>
    decreases processes.len(),
{
    if processes.len() == 0 {
        seq![]
    } else {
        let before = command_items(processes.drop_last(), panes);
        let r = processes.last();
        if r.kind == "command"@ {
            before.push(
                ItemView {
                    label: r.label,
                    target: ItemTarget::Process(r.id),
                    live: sidebar::first_pane(panes, PaneQuery::Process(r.id)) is Some,
                    fg: None,
                },
            )
        } else {
            before
        }
    }
}

/// What the pane lists.
pub open spec fn items_of(s: PanoptPane) -> Seq<ItemView> {
    match s.mode {
        Mode::Todos => listed_todos(s).map_values(
            |row: (u64, String)| todo_item(s.todo_colors@, row),
        ),
        Mode::Notes => s.notes@.map_values(|row: (u64, String)| note_item(row)),
        Mode::Agents => sidebar::config_views(s.configs@).map_values(
            |c: ConfigRowView| config_item(c, s.process_list(), s.pane_list(), s.watched@),
        ) + agent_items(s.agent_labels, s.pane_list()),
        Mode::Commands => command_items(s.process_list(), s.pane_list()),
        Mode::Terminals => terminal_items(s.pane_list()),
    }
}

/// A pane's own title, and whether it exited.
pub fn pane_label(p: &PaneRow) -> (r: String)
    ensures
        r@ == pane_label_text(p@),
{
    let trimmed = text::trim(p.title.as_str());
    let mut out = if trimmed.is_empty() {
        "(untitled)".to_owned()
    } else {
        trimmed.to_owned()
    };
    if p.exited {
        out.append(" (exited)");
    }
    out
}

/// `#<id> <label>`.
fn number_label(id: u64, label: &str) -> (r: String)
    ensures
        r@ == numbered(id, label@),
{
    let mut out = "#".to_owned();
    out.append(text::number(id).as_str());
    out.append(" ");
    out.append(label);
    out
}

impl PanoptPane {
    /// The colour of a todo's row.
    fn color_of_row(&self, label: &str) -> (r: Option<u8>)
        ensures
            r == row_color(self.todo_colors@, label@),
    {
        let status = match modes::parse_status_suffix(label) {
            Some(status) => status,
            None => {
                return None;
            },
        };
        let ghost all = self.todo_colors@;
        let mut i: usize = 0;
        assert(all.skip(0) =~= all);
        while i < self.todo_colors.len()
            invariant
                i <= self.todo_colors.len(),
                all == self.todo_colors@,
                modes::status_of(label@) == Some(status@),
                color_of(all, status@) == color_of(all.skip(i as int), status@),
            decreases self.todo_colors.len() - i,
        {
            assert(all.skip(i as int).drop_first() =~= all.skip(i + 1));
            if text::same(self.todo_colors[i].0.as_str(), status) {
                return Some(self.todo_colors[i].1);
            }
            i += 1;
        }
        None
    }

    /// The label of an agent's pane.
    pub fn agent_label(&self, p: &PaneRow) -> (r: String)
        requires
            self.wf(),
        ensures
            r@ == agent_label_text(self.agent_labels, p@),
    {
        match p.id {
            PaneId::Terminal(tid) => match self.agent_labels.get(tid as u64) {
                Some(label) => label.clone(),
                None => pane_label(p),
            },
            PaneId::Plugin(_) => pane_label(p),
        }
    }

    /// The todos that the filter shows.
    fn filtered_todos(&self) -> (out: Vec<(u64, String)>)
        ensures
            out@ == shown_rows(self.todo_filter, self.todos@),
    {
        let mut out: Vec<(u64, String)> = Vec::new();
        let mut i: usize = 0;
        assert(self.todos@.take(0) =~= seq![]);
        while i < self.todos.len()
            invariant
                i <= self.todos.len(),
                out@ == shown_rows(self.todo_filter, self.todos@.take(i as int)),
            decreases self.todos.len() - i,
        {
            proof {
                assert(self.todos@.take(i + 1).drop_last() =~= self.todos@.take(i as int));
                assert(self.todos@.take(i + 1).last() == self.todos@[i as int]);
            }
            if self.todo_filter.includes_label(self.todos[i].1.as_str()) {
                out.push((self.todos[i].0, self.todos[i].1.clone()));
            }
            i += 1;
        }
        assert(self.todos@.take(i as int) =~= self.todos@);
        out
    }

    /// The items of the Todos pane.
    fn todo_items(&self) -> (out: Vec<Item>)
        ensures
            sidebar::item_views(out@) == listed_todos(*self).map_values(
                |row: (u64, String)| todo_item(self.todo_colors@, row),
            ),
    {
        let by_second = sorting::sort(&self.todo_sort_2, self.filtered_todos());
        let rows = sorting::sort(&self.todo_sort_1, by_second);
        let ghost goal = rows@.map_values(
            |row: (u64, String)| todo_item(self.todo_colors@, row),
        );
        let mut out: Vec<Item> = Vec::new();
        let mut i: usize = 0;
        while i < rows.len()
            invariant
                i <= rows.len(),
                goal == rows@.map_values(|row: (u64, String)| todo_item(self.todo_colors@, row)),
                sidebar::item_views(out@) == goal.take(i as int),
            decreases rows.len() - i,
        {
            let ghost before = out@;
            let item = Item {
                label: number_label(rows[i].0, rows[i].1.as_str()),
                target: ItemTarget::Todo(rows[i].0),
                live: false,
                fg: self.color_of_row(rows[i].1.as_str()),
            };
            out.push(item);
            proof {
                assert(item@ == goal[i as int]);
                assert(sidebar::item_views(out@) =~= sidebar::item_views(before).push(item@));
                assert(goal.take(i + 1) =~= goal.take(i as int).push(goal[i as int]));
            }
            i += 1;
        }
        assert(goal.take(i as int) =~= goal);
        out
    }

    /// The items of the Notes pane.
    fn note_items(&self) -> (out: Vec<Item>)
        ensures
            sidebar::item_views(out@) == self.notes@.map_values(
                |row: (u64, String)| note_item(row),
            ),
    {
        let ghost goal = self.notes@.map_values(|row: (u64, String)| note_item(row));
        let mut out: Vec<Item> = Vec::new();
        let mut i: usize = 0;
        while i < self.notes.len()
            invariant
                i <= self.notes.len(),
                goal == self.notes@.map_values(|row: (u64, String)| note_item(row)),
                sidebar::item_views(out@) == goal.take(i as int),
            decreases self.notes.len() - i,
        {
            let ghost before = out@;
            let item = Item {
                label: number_label(self.notes[i].0, self.notes[i].1.as_str()),
                target: ItemTarget::Note(self.notes[i].0),
                live: false,
                fg: None,
            };
            out.push(item);
            proof {
                assert(item@ == goal[i as int]);
                assert(sidebar::item_views(out@) =~= sidebar::item_views(before).push(item@));
                assert(goal.take(i + 1) =~= goal.take(i as int).push(goal[i as int]));
            }
            i += 1;
        }
        assert(goal.take(i as int) =~= goal);
        out
    }

    /// The item of one config.
    fn item_of_config(&self, c: &ConfigRow) -> (item: Item)
        ensures
            item@ == config_item(c@, self.process_list(), self.pane_list(), self.watched@),
    {
        match self.config_instance(c.id) {
            Some(i) => {
                let row = &self.processes[i];
                let due = match sidebar::find_watch(&self.watched, row.id) {
                    Some(w) => w.attention,
                    None => false,
                };
                Item {
                    label: rows::agent_config_label(c, Some(row)),
                    target: ItemTarget::Config(c.id),
                    live: self.process_pane(row.id).is_some(),
                    fg: if due {
                        Some(AGENT_ATTENTION_FG)
                    } else {
                        None
                    },
                }
            },
            None => Item {
                label: rows::agent_config_label(c, None),
                target: ItemTarget::Config(c.id),
                live: false,
                fg: None,
            },
        }
    }

    /// The items of the Agents pane.
    fn agent_rows(&self) -> (out: Vec<Item>)
        requires
            self.wf(),
        ensures
            sidebar::item_views(out@) == sidebar::config_views(self.configs@).map_values(
                |c: ConfigRowView|
                    config_item(c, self.process_list(), self.pane_list(), self.watched@),
            ) + agent_items(self.agent_labels, self.pane_list()),
    {
        let ghost goal = sidebar::config_views(self.configs@).map_values(
            |c: ConfigRowView| config_item(c, self.process_list(), self.pane_list(), self.watched@),
        );
        let mut out: Vec<Item> = Vec::new();
        let mut i: usize = 0;
        while i < self.configs.len()
            invariant
                i <= self.configs.len(),
                goal == sidebar::config_views(self.configs@).map_values(
                    |c: ConfigRowView|
                        config_item(c, self.process_list(), self.pane_list(), self.watched@),
                ),
                sidebar::item_views(out@) == goal.take(i as int),
            decreases self.configs.len() - i,
        {
            let ghost before = out@;
            let item = self.item_of_config(&self.configs[i]);
            out.push(item);
            proof {
                assert(item@ == goal[i as int]);
                assert(sidebar::item_views(out@) =~= sidebar::item_views(before).push(item@));
                assert(goal.take(i + 1) =~= goal.take(i as int).push(goal[i as int]));
            }
            i += 1;
        }
        assert(goal.take(i as int) =~= goal);
        let ghost all = self.pane_list();
        let mut j: usize = 0;
        assert(all.take(0) =~= seq![]);
        assert(goal + agent_items(self.agent_labels, all.take(0)) =~= goal);
        while j < self.panes.len()
            invariant
                self.wf(),
                j <= self.panes.len(),
                all == self.pane_list(),
                sidebar::item_views(out@) == goal + agent_items(
                    self.agent_labels,
                    all.take(j as int),
                ),
            decreases self.panes.len() - j,
        {
            let ghost before = out@;
            proof {
                assert(all.take(j + 1).drop_last() =~= all.take(j as int));
                assert(all.take(j + 1).last() == self.panes@[j as int]@);
            }
            if self.panes[j].role == PaneRole::Agent {
                let item = Item {
                    label: self.agent_label(&self.panes[j]),
                    target: ItemTarget::Pane(self.panes[j].id),
                    live: self.panes[j].focused,
                    fg: None,
                };
                out.push(item);
                proof {
                    assert(sidebar::item_views(out@) =~= sidebar::item_views(before).push(item@));
                    assert(goal + agent_items(self.agent_labels, all.take(j as int)).push(item@)
                        =~= (goal + agent_items(self.agent_labels, all.take(j as int))).push(
                        item@,
                    ));
                }
            }
            j += 1;
        }
        assert(all.take(j as int) =~= all);
        out
    }

    /// The items of the Commands pane.
    fn command_rows(&self) -> (out: Vec<Item>)
        ensures
            sidebar::item_views(out@) == command_items(self.process_list(), self.pane_list()),
    {
        let ghost all = self.process_list();
        let mut out: Vec<Item> = Vec::new();
        let mut i: usize = 0;
        assert(all.take(0) =~= seq![]);
        assert(sidebar::item_views(out@) =~= seq![]);
        while i < self.processes.len()
            invariant
                i <= self.processes.len(),
                all == self.process_list(),
                sidebar::item_views(out@) == command_items(all.take(i as int), self.pane_list()),
            decreases self.processes.len() - i,
        {
            let ghost before = out@;
            proof {
                assert(all.take(i + 1).drop_last() =~= all.take(i as int));
                assert(all.take(i + 1).last() == self.processes@[i as int]@);
            }
            if text::same(self.processes[i].kind.as_str(), "command") {
                let item = Item {
                    label: self.processes[i].label.clone(),
                    target: ItemTarget::Process(self.processes[i].id),
                    live: self.process_pane(self.processes[i].id).is_some(),
                    fg: None,
                };
                out.push(item);
                assert(sidebar::item_views(out@) =~= sidebar::item_views(before).push(item@));
            }
            i += 1;
        }
        assert(all.take(i as int) =~= all);
        out
    }

    /// The items of the Terminals pane.
    fn terminal_rows(&self) -> (out: Vec<Item>)
        ensures
            sidebar::item_views(out@) == terminal_items(self.pane_list()),
    {
        let ghost all = self.pane_list();
        let mut out: Vec<Item> = Vec::new();
        let mut i: usize = 0;
        assert(all.take(0) =~= seq![]);
        assert(sidebar::item_views(out@) =~= seq![]);
        while i < self.panes.len()
            invariant
                i <= self.panes.len(),
                all == self.pane_list(),
                sidebar::item_views(out@) == terminal_items(all.take(i as int)),
            decreases self.panes.len() - i,
        {
            let ghost before = out@;
            proof {
                assert(all.take(i + 1).drop_last() =~= all.take(i as int));
                assert(all.take(i + 1).last() == self.panes@[i as int]@);
            }
            if self.panes[i].role == PaneRole::Shell {
                let item = Item {
                    label: pane_label(&self.panes[i]),
                    target: ItemTarget::Pane(self.panes[i].id),
                    live: self.panes[i].focused,
                    fg: None,
                };
                out.push(item);
                assert(sidebar::item_views(out@) =~= sidebar::item_views(before).push(item@));
            }
            i += 1;
        }
        assert(all.take(i as int) =~= all);
        out
    }

    /// The pane after its list was rebuilt: in the Agents pane the agents are
    /// looked at first, and the cursor is clamped last.
    pub open spec fn rebuilds_to(self, after: PanoptPane) -> bool {
        let watched = if self.mode == Mode::Agents {
            sidebar::watch_all(self.watched@, self.process_list(), self.pane_list())
        } else {
            self.watched@
        };
        let listed = PanoptPane { watched: after.watched, items: after.items, ..self };
        &&& after == listed.clamped()
        &&& after.watched@ == watched
        &&& self.mode != Mode::Agents ==> after.watched == self.watched
        &&& sidebar::item_views(after.items@) == items_of(PanoptPane { watched: after.watched, ..self })
    }

    /// Rebuilds the list from what is known.
    pub fn rebuild_items(&mut self)
        requires
            old(self).wf(),
        ensures
            old(self).rebuilds_to(*final(self)),
            final(self).wf(),
    {
        if self.mode == Mode::Agents {
            self.update_attention();
        }
        let ghost seen = *self;
        let items = match self.mode {
            Mode::Todos => self.todo_items(),
            Mode::Notes => self.note_items(),
            Mode::Agents => self.agent_rows(),
            Mode::Commands => self.command_rows(),
            Mode::Terminals => self.terminal_rows(),
        };
        assert(sidebar::item_views(items@) == items_of(seen));
        self.items = items;
        self.clamp_cursor();
    }
}

} // verus!
