//! What the panes of the sidebar list, and when an agent asks for attention.

use vstd::prelude::*;
use vstd::string::*;

use crate::finding_laws;
use crate::host::PaneId;
use crate::model::{Priority, TodoStatus, TodoView};
use crate::modes;
use crate::modes::{Mode, TodoFilter, TodoSort};
use crate::panes::PaneRole;
use crate::picking;
use crate::projection;
use crate::projection_laws;
use crate::rows::ProcessRowView;
use crate::sidebar;
use crate::sidebar::{AgentWatch, ItemTarget, ItemView, PaneQuery, PaneRowView, PanoptPane};
use crate::sidebar_items;
use crate::text;

verus! {

// ---------------------------------------------------------------------------
// Filter and order of the todos
// ---------------------------------------------------------------------------

/// A filter shows the todos whose status it is named after; `all` shows every
/// todo, and `active` those that are open or in progress. The label of a todo is
/// the one that its list gives it.
pub proof fn law_filter_goes_by_status(filter: TodoFilter, t: TodoView)
    ensures
        filter.shows(text::trimmed(projection::todo_label(t))) <==> (match filter {
            TodoFilter::All => true,
            TodoFilter::Active => t.status == TodoStatus::Open || t.status
                == TodoStatus::InProgress,
            TodoFilter::Open => t.status == TodoStatus::Open,
            TodoFilter::InProgress => t.status == TodoStatus::InProgress,
            TodoFilter::Backlog => t.status == TodoStatus::Backlog,
            TodoFilter::Draft => t.status == TodoStatus::Draft,
            TodoFilter::Completed => t.status == TodoStatus::Completed,
            TodoFilter::NotDone => t.status == TodoStatus::NotDone,
        }),
{
    projection_laws::law_todo_label_tells(t);
    TodoStatus::law_tokens_distinct(t.status, TodoStatus::Open);
    TodoStatus::law_tokens_distinct(t.status, TodoStatus::InProgress);
    TodoStatus::law_tokens_distinct(t.status, TodoStatus::Backlog);
    TodoStatus::law_tokens_distinct(t.status, TodoStatus::Draft);
    TodoStatus::law_tokens_distinct(t.status, TodoStatus::Completed);
    TodoStatus::law_tokens_distinct(t.status, TodoStatus::NotDone);
}

/// How much a priority weighs.
pub open spec fn weight(p: Priority) -> int {
    match p {
        Priority::High => 3,
        Priority::Medium => 2,
        Priority::Low => 1,
    }
}

/// By priority, a todo comes after one that weighs more; by creation, after one
/// with a smaller number, or a larger one where the newest come first.
pub proof fn law_axes_order_todos(a: TodoView, b: TodoView)
    ensures
        ({
            let la = text::trimmed(projection::todo_label(a));
            let lb = text::trimmed(projection::todo_label(b));
            let greater = core::cmp::Ordering::Greater;
            &&& TodoSort::PriorityDesc.order_of(a.id, la, b.id, lb) == greater <==> weight(
                a.priority,
            ) < weight(b.priority)
            &&& TodoSort::CreatedAsc.order_of(a.id, la, b.id, lb) == greater <==> a.id > b.id
            &&& TodoSort::CreatedDesc.order_of(a.id, la, b.id, lb) == greater <==> a.id < b.id
        }),
{
    projection_laws::law_todo_label_tells(a);
    projection_laws::law_todo_label_tells(b);
    Priority::law_tokens_distinct(a.priority, Priority::High);
    Priority::law_tokens_distinct(a.priority, Priority::Medium);
    Priority::law_tokens_distinct(b.priority, Priority::High);
    Priority::law_tokens_distinct(b.priority, Priority::Medium);
}

/// By the last change, a row that names a later one comes after one that names
/// an earlier one; the other way round where the newest come first. Rows that do
/// not both name one stand by their numbers.
pub proof fn law_axes_order_by_change(
    id_a: u64,
    a: Seq<char>,
    id_b: u64,
    b: Seq<char>,
)
    ensures
        ({
            let greater = core::cmp::Ordering::Greater;
            let up = TodoSort::ModifiedAsc.order_of(id_a, a, id_b, b) == greater;
            let down = TodoSort::ModifiedDesc.order_of(id_a, a, id_b, b) == greater;
            match (modes::updated_of(a), modes::updated_of(b)) {
                (Some(x), Some(y)) => (up <==> text::precedes(y, x)) && (down <==> text::precedes(
                    x,
                    y,
                )),
                _ => (up <==> id_a > id_b) && (down <==> id_a < id_b),
            }
        }),
{
    if let (Some(x), Some(y)) = (modes::updated_of(a), modes::updated_of(b)) {
        text::lemma_precedes_total(x, y);
    }
}

/// The rows that a filter shows, in their order.
proof fn lemma_shown_rows(filter: TodoFilter, rows: Seq<(u64, String)>) -> (at: Seq<int>)
    ensures
        picking::picks(rows, at, sidebar_items::shown_rows(filter, rows)),
        forall|i: int| #[trigger]
            at.contains(i) <==> 0 <= i < rows.len() && filter.shows(rows[i].1@),
    decreases rows.len(),
{
    if rows.len() == 0 {
        Seq::empty()
    } else {
        let front = rows.drop_last();
        let n = rows.len() - 1;
        let at0 = lemma_shown_rows(filter, front);
        let out = sidebar_items::shown_rows(filter, rows);
        if filter.shows(rows.last().1@) {
            let at = at0.push(n);
            assert forall|k: int| 0 <= k < at.len() implies 0 <= (#[trigger] at[k]) < rows.len()
                && out[k] == rows[at[k]] by {
                if k < at0.len() {
                    assert(at0[k] == at[k]);
                }
            }
            assert forall|i: int, j: int| 0 <= i < j < at.len() implies (#[trigger] at[i]) < (
            #[trigger] at[j]) by {
                assert(at0[i] == at[i]);
                if j < at0.len() {
                    assert(at0[j] == at[j]);
                }
            }
            assert forall|i: int| #[trigger] at.contains(i) <==> 0 <= i < rows.len()
                && filter.shows(rows[i].1@) by {
                picking::lemma_push_holds(at0, n, i);
                let _ = at0.contains(i);
                if 0 <= i < front.len() {
                    assert(front[i] == rows[i]);
                }
            }
            at
        } else {
            assert forall|i: int| #[trigger] at0.contains(i) <==> 0 <= i < rows.len()
                && filter.shows(rows[i].1@) by {
                if 0 <= i < front.len() {
                    assert(front[i] == rows[i]);
                }
            }
            at0
        }
    }
}

/// Before they are sorted, the rows are those of the file that the filter shows,
/// in its order, and no others.
pub proof fn law_filter_keeps_the_order_of_the_file(
    filter: TodoFilter,
    rows: Seq<(u64, String)>,
) -> (at: Seq<int>)
    ensures
        picking::picks(rows, at, sidebar_items::shown_rows(filter, rows)),
        forall|i: int| #[trigger]
            at.contains(i) <==> 0 <= i < rows.len() && filter.shows(rows[i].1@),
{
    lemma_shown_rows(filter, rows)
}

// ---------------------------------------------------------------------------
// Items
// ---------------------------------------------------------------------------

/// A todo's item and a note's item lead to the record with their number, and
/// their label begins with it; a note has no colour and neither has a marker.
pub proof fn law_documents_are_listed(s: PanoptPane, k: int)
    requires
        s.mode == Mode::Todos || s.mode == Mode::Notes,
        0 <= k < sidebar_items::items_of(s).len(),
    ensures
        ({
            let item = sidebar_items::items_of(s)[k];
            let row = if s.mode == Mode::Todos {
                sidebar_items::listed_todos(s)[k]
            } else {
                s.notes@[k]
            };
            &&& item.label == "#"@ + text::decimal(row.0 as nat) + " "@ + row.1@
            &&& !item.live
            &&& s.mode == Mode::Todos ==> item.target == ItemTarget::Todo(row.0)
            &&& s.mode == Mode::Notes ==> item.target == ItemTarget::Note(row.0) && item.fg is None
        }),
        s.mode == Mode::Todos ==> sidebar_items::items_of(s).len() == sidebar_items::listed_todos(
            s,
        ).len(),
        s.mode == Mode::Notes ==> sidebar_items::items_of(s).len() == s.notes@.len(),
{
}

/// Panes of a role, as items.
pub open spec fn pane_item(p: PaneRowView, label: Seq<char>) -> ItemView {
    ItemView { label, target: ItemTarget::Pane(p.id), live: p.focused, fg: None }
}

/// The items of the plain terminals: one for each shell, in the order of the
/// panes, marked where it has the focus.
pub proof fn law_terminals_are_listed(panes: Seq<PaneRowView>) -> (at: Seq<int>)
    ensures
        ({
            let out = sidebar_items::terminal_items(panes);
            &&& picking::ascend(at)
            &&& at.len() == out.len()
            &&& forall|k: int|
                0 <= k < at.len() ==> 0 <= (#[trigger] at[k]) < panes.len() && out[k] == pane_item(
                    panes[at[k]],
                    sidebar_items::pane_label_text(panes[at[k]]),
                )
            &&& forall|i: int| #[trigger]
                at.contains(i) <==> 0 <= i < panes.len() && panes[i].role == PaneRole::Shell
        }),
    decreases panes.len(),
{
    if panes.len() == 0 {
        Seq::empty()
    } else {
        let front = panes.drop_last();
        let n = panes.len() - 1;
        let at0 = law_terminals_are_listed(front);
        let out = sidebar_items::terminal_items(panes);
        let out0 = sidebar_items::terminal_items(front);
        if panes.last().role == PaneRole::Shell {
            let at = at0.push(n);
            assert forall|k: int| 0 <= k < at.len() implies 0 <= (#[trigger] at[k]) < panes.len()
                && out[k] == pane_item(
                panes[at[k]],
                sidebar_items::pane_label_text(panes[at[k]]),
            ) by {
                if k < at0.len() {
                    assert(at0[k] == at[k]);
                    assert(front[at0[k]] == panes[at[k]]);
                    assert(out[k] == out0[k]);
                }
            }
            assert forall|i: int, j: int| 0 <= i < j < at.len() implies (#[trigger] at[i]) < (
            #[trigger] at[j]) by {
                assert(at0[i] == at[i]);
                if j < at0.len() {
                    assert(at0[j] == at[j]);
                }
            }
            assert forall|i: int| #[trigger] at.contains(i) <==> 0 <= i < panes.len()
                && panes[i].role == PaneRole::Shell by {
                picking::lemma_push_holds(at0, n, i);
                let _ = at0.contains(i);
                if 0 <= i < front.len() {
                    assert(front[i] == panes[i]);
                }
            }
            at
        } else {
            assert forall|k: int| 0 <= k < at0.len() implies front[#[trigger] at0[k]]
                == panes[at0[k]] by {}
            assert forall|i: int| #[trigger] at0.contains(i) <==> 0 <= i < panes.len()
                && panes[i].role == PaneRole::Shell by {
                if 0 <= i < front.len() {
                    assert(front[i] == panes[i]);
                }
            }
            at0
        }
    }
}

/// The items of the ad-hoc agents: one for each agent's pane, in the order of
/// the panes, marked where it has the focus.
pub proof fn law_agent_panes_are_listed(s: PanoptPane, panes: Seq<PaneRowView>) -> (at: Seq<int>)
    ensures
        ({
            let out = sidebar_items::agent_items(s.agent_labels, panes);
            &&& picking::ascend(at)
            &&& at.len() == out.len()
            &&& forall|k: int|
                0 <= k < at.len() ==> 0 <= (#[trigger] at[k]) < panes.len() && out[k] == pane_item(
                    panes[at[k]],
                    sidebar_items::agent_label_text(s.agent_labels, panes[at[k]]),
                )
            &&& forall|i: int| #[trigger]
                at.contains(i) <==> 0 <= i < panes.len() && panes[i].role == PaneRole::Agent
        }),
    decreases panes.len(),
{
    if panes.len() == 0 {
        Seq::empty()
    } else {
        let front = panes.drop_last();
        let n = panes.len() - 1;
        let at0 = law_agent_panes_are_listed(s, front);
        let out = sidebar_items::agent_items(s.agent_labels, panes);
        let out0 = sidebar_items::agent_items(s.agent_labels, front);
        if panes.last().role == PaneRole::Agent {
            let at = at0.push(n);
            assert forall|k: int| 0 <= k < at.len() implies 0 <= (#[trigger] at[k]) < panes.len()
                && out[k] == pane_item(
                panes[at[k]],
                sidebar_items::agent_label_text(s.agent_labels, panes[at[k]]),
            ) by {
                if k < at0.len() {
                    assert(at0[k] == at[k]);
                    assert(front[at0[k]] == panes[at[k]]);
                    assert(out[k] == out0[k]);
                }
            }
            assert forall|i: int, j: int| 0 <= i < j < at.len() implies (#[trigger] at[i]) < (
            #[trigger] at[j]) by {
                assert(at0[i] == at[i]);
                if j < at0.len() {
                    assert(at0[j] == at[j]);
                }
            }
            assert forall|i: int| #[trigger] at.contains(i) <==> 0 <= i < panes.len()
                && panes[i].role == PaneRole::Agent by {
                picking::lemma_push_holds(at0, n, i);
                let _ = at0.contains(i);
                if 0 <= i < front.len() {
                    assert(front[i] == panes[i]);
                }
            }
            at
        } else {
            assert forall|k: int| 0 <= k < at0.len() implies front[#[trigger] at0[k]]
                == panes[at0[k]] by {}
            assert forall|i: int| #[trigger] at0.contains(i) <==> 0 <= i < panes.len()
                && panes[i].role == PaneRole::Agent by {
                if 0 <= i < front.len() {
                    assert(front[i] == panes[i]);
                }
            }
            at0
        }
    }
}

/// A pane's label is its title without the white space around it, or a word
/// where there is none, and says so where the pane has exited. An agent's pane
/// goes by the label that it was given.
pub proof fn law_pane_labels(s: PanoptPane, p: PaneRowView)
    ensures
        ({
            let name = if text::trimmed(p.title).len() == 0 {
                "(untitled)"@
            } else {
                text::trimmed(p.title)
            };
            let plain = sidebar_items::pane_label_text(p);
            &&& !p.exited ==> plain == name
            &&& p.exited ==> plain == name + " (exited)"@
            &&& match p.id {
                PaneId::Terminal(t) => match s.agent_labels.lookup(t as u64) {
                    Some(label) => sidebar_items::agent_label_text(s.agent_labels, p) == label@,
                    None => sidebar_items::agent_label_text(s.agent_labels, p) == plain,
                },
                PaneId::Plugin(_) => sidebar_items::agent_label_text(s.agent_labels, p) == plain,
            }
        }),
{
}

/// The commands are listed in the order of the processes, each under its label,
/// marked where a pane runs it that has not exited.
pub proof fn law_commands_are_listed(
    processes: Seq<ProcessRowView>,
    panes: Seq<PaneRowView>,
) -> (at: Seq<int>)
    ensures
        ({
            let out = sidebar_items::command_items(processes, panes);
            &&& picking::ascend(at)
            &&& at.len() == out.len()
            &&& forall|k: int|
                0 <= k < at.len() ==> {
                    let r = processes[#[trigger] at[k]];
                    &&& 0 <= at[k] < processes.len()
                    &&& out[k].label == r.label
                    &&& out[k].target == ItemTarget::Process(r.id)
                    &&& out[k].fg is None
                    &&& out[k].live <==> exists|j: int|
                        0 <= j < panes.len() && (#[trigger] panes[j]).role == PaneRole::Process(
                            r.id,
                        ) && !panes[j].exited
                }
            &&& forall|i: int| #[trigger]
                at.contains(i) <==> 0 <= i < processes.len() && processes[i].kind == "command"@
        }),
    decreases processes.len(),
{
    if processes.len() == 0 {
        Seq::empty()
    } else {
        let front = processes.drop_last();
        let n = processes.len() - 1;
        let at0 = law_commands_are_listed(front, panes);
        let out = sidebar_items::command_items(processes, panes);
        let out0 = sidebar_items::command_items(front, panes);
        let last = processes.last();
        finding_laws::lemma_first_pane(panes, PaneQuery::Process(last.id));
        if last.kind == "command"@ {
            let at = at0.push(n);
            assert forall|k: int| 0 <= k < at.len() implies {
                let r = processes[#[trigger] at[k]];
                &&& 0 <= at[k] < processes.len()
                &&& out[k].label == r.label
                &&& out[k].target == ItemTarget::Process(r.id)
                &&& out[k].fg is None
                &&& out[k].live <==> exists|j: int|
                    0 <= j < panes.len() && (#[trigger] panes[j]).role == PaneRole::Process(r.id)
                        && !panes[j].exited
            } by {
                if k < at0.len() {
                    assert(at0[k] == at[k]);
                    assert(front[at0[k]] == processes[at[k]]);
                    assert(out[k] == out0[k]);
                }
            }
            assert forall|i: int, j: int| 0 <= i < j < at.len() implies (#[trigger] at[i]) < (
            #[trigger] at[j]) by {
                assert(at0[i] == at[i]);
                if j < at0.len() {
                    assert(at0[j] == at[j]);
                }
            }
            assert forall|i: int| #[trigger] at.contains(i) <==> 0 <= i < processes.len()
                && processes[i].kind == "command"@ by {
                picking::lemma_push_holds(at0, n, i);
                let _ = at0.contains(i);
                if 0 <= i < front.len() {
                    assert(front[i] == processes[i]);
                }
            }
            at
        } else {
            assert forall|k: int| 0 <= k < at0.len() implies front[#[trigger] at0[k]]
                == processes[at0[k]] by {}
            assert forall|i: int| #[trigger] at0.contains(i) <==> 0 <= i < processes.len()
                && processes[i].kind == "command"@ by {
                if 0 <= i < front.len() {
                    assert(front[i] == processes[i]);
                }
            }
            at0
        }
    }
}

/// The Agents pane lists every config, in order, and then the ad-hoc agents. A
/// config leads to itself; it is marked where its instance has a pane that has
/// not exited, and stands in the colour of attention where its instance asks for
/// it.
pub proof fn law_configs_are_listed(s: PanoptPane, k: int)
    requires
        s.mode == Mode::Agents,
    ensures
        ({
            let items = sidebar_items::items_of(s);
            let n = s.configs@.len();
            &&& items.len() == n + sidebar_items::agent_items(s.agent_labels, s.pane_list()).len()
            &&& items.skip(n as int) == sidebar_items::agent_items(s.agent_labels, s.pane_list())
            &&& 0 <= k < n ==> {
                let c = s.configs@[k]@;
                let inst = sidebar::instance_in(s.process_list(), c.id);
                &&& items[k].target == ItemTarget::Config(c.id)
                &&& items[k].live <==> (inst is Some && exists|j: int|
                    0 <= j < s.pane_list().len() && (#[trigger] s.pane_list()[j]).role
                        == PaneRole::Process(inst->0.id) && !s.pane_list()[j].exited)
                &&& items[k].fg == (if inst is Some && sidebar::needs_attention(
                    s.watched@,
                    inst->0.id,
                ) {
                    Some(214u8)
                } else {
                    None
                })
            }
        }),
{
    let items = sidebar_items::items_of(s);
    let n = s.configs@.len();
    assert(items.skip(n as int) =~= sidebar_items::agent_items(s.agent_labels, s.pane_list()));
    if 0 <= k < n {
        let c = s.configs@[k]@;
        if let Some(r) = sidebar::instance_in(s.process_list(), c.id) {
            finding_laws::lemma_first_pane(s.pane_list(), PaneQuery::Process(r.id));
        }
    }
}

/// The other panes list what they are named after.
pub proof fn law_commands_and_terminals_have_panes_of_their_own(s: PanoptPane)
    ensures
        s.mode == Mode::Commands ==> sidebar_items::items_of(s) == sidebar_items::command_items(
            s.process_list(),
            s.pane_list(),
        ),
        s.mode == Mode::Terminals ==> sidebar_items::items_of(s) == sidebar_items::terminal_items(
            s.pane_list(),
        ),
{
}

// ---------------------------------------------------------------------------
// Attention
// ---------------------------------------------------------------------------

/// An agent comes to ask for attention when it falls idle after having been at
/// something else; it stops asking when it works again or its pane has the
/// focus, and not before. One that was never seen does not ask.
pub proof fn law_attention_is_latched(
    before: Option<AgentWatch>,
    id: u64,
    idle: bool,
    focused: bool,
)
    ensures
        ({
            let after = sidebar::watched_again(before, id, idle, focused);
            &&& after.id == id
            &&& after.idle == idle
            &&& !idle ==> !after.attention
            &&& focused ==> !after.attention
            &&& before is None ==> !after.attention
            &&& (before matches Some(w) && !w.attention && w.idle) ==> !after.attention
            &&& (before matches Some(w) && !w.idle) && idle && !focused ==> after.attention
            &&& (before matches Some(w) && w.attention) && idle && !focused ==> after.attention
        }),
{
}

/// Of every agent that runs, something is remembered, and of nothing else.
pub proof fn law_running_agents_are_watched(
    before: Seq<AgentWatch>,
    processes: Seq<ProcessRowView>,
    panes: Seq<PaneRowView>,
    id: u64,
)
    ensures
        (exists|i: int|
            0 <= i < sidebar::watch_all(before, processes, panes).len() && (
            #[trigger] sidebar::watch_all(before, processes, panes)[i]).id == id) <==> exists|j: int|
            0 <= j < processes.len() && (#[trigger] processes[j]).id == id && processes[j].kind
                == "agent"@ && processes[j].status == Some("running"@),
    decreases processes.len(),
{
    if processes.len() > 0 {
        let front = processes.drop_last();
        let row = processes.last();
        law_running_agents_are_watched(before, front, panes, id);
        let out = sidebar::watch_all(before, processes, panes);
        let seen = sidebar::watch_all(before, front, panes);
        let n = processes.len() - 1;
        if exists|j: int|
            0 <= j < front.len() && (#[trigger] front[j]).id == id && front[j].kind == "agent"@
                && front[j].status == Some("running"@) {
            let j = choose|j: int|
                0 <= j < front.len() && (#[trigger] front[j]).id == id && front[j].kind == "agent"@
                    && front[j].status == Some("running"@);
            assert(processes[j].id == id);
            let i = choose|i: int| 0 <= i < seen.len() && (#[trigger] seen[i]).id == id;
            assert(out[i].id == id);
        }
        if exists|j: int|
            0 <= j < processes.len() && (#[trigger] processes[j]).id == id && processes[j].kind
                == "agent"@ && processes[j].status == Some("running"@) {
            let j = choose|j: int|
                0 <= j < processes.len() && (#[trigger] processes[j]).id == id && processes[j].kind
                    == "agent"@ && processes[j].status == Some("running"@);
            if j < n {
                assert(front[j].id == id);
            } else {
                assert(out[seen.len() as int].id == id);
            }
        }
        if exists|i: int| 0 <= i < out.len() && (#[trigger] out[i]).id == id {
            let i = choose|i: int| 0 <= i < out.len() && (#[trigger] out[i]).id == id;
            if i < seen.len() {
                assert(seen[i].id == id);
            } else {
                assert(processes[n].id == id);
            }
        }
    }
}

/// Where no other row has its number, what is remembered of a running agent
/// follows from what was remembered of it, whether its row says that it is idle,
/// and whether its pane has the focus.
pub proof fn law_watch_follows_the_row(
    before: Seq<AgentWatch>,
    processes: Seq<ProcessRowView>,
    panes: Seq<PaneRowView>,
    k: int,
)
    requires
        0 <= k < processes.len(),
        processes[k].kind == "agent"@,
        processes[k].status == Some("running"@),
        forall|j: int|
            0 <= j < processes.len() && j != k ==> (#[trigger] processes[j]).id != processes[k].id,
    ensures
        sidebar::watch_of(
            sidebar::watch_all(before, processes, panes),
            processes[k].id,
        ) == Some(
            sidebar::watched_again(
                sidebar::watch_of(before, processes[k].id),
                processes[k].id,
                processes[k].agent_state == Some("idle"@),
                sidebar::agent_focused(panes, processes[k]),
            ),
        ),
    decreases processes.len(),
{
    let front = processes.drop_last();
    let n = processes.len() - 1;
    let id = processes[k].id;
    let seen = sidebar::watch_all(before, front, panes);
    let out = sidebar::watch_all(before, processes, panes);
    if k == n {
        assert forall|i: int| 0 <= i < seen.len() implies (#[trigger] seen[i]).id != id by {
            if seen[i].id == id {
                law_running_agents_are_watched(before, front, panes, id);
                let j = choose|j: int|
                    0 <= j < front.len() && (#[trigger] front[j]).id == id && front[j].kind
                        == "agent"@ && front[j].status == Some("running"@);
                assert(processes[j].id == id);
            }
        }
        lemma_watch_of(seen, id);
        assert(out.last().id == id);
    } else {
        assert forall|j: int| 0 <= j < front.len() && j != k implies (#[trigger] front[j]).id
            != front[k].id by {
            assert(processes[j].id != processes[k].id);
        }
        law_watch_follows_the_row(before, front, panes, k);
        assert(processes[n].id != id);
        if sidebar::runs_agent(processes.last()) {
            assert(out.drop_last() =~= seen);
        }
    }
}

/// Nothing is remembered of what is not there.
proof fn lemma_watch_of(watched: Seq<AgentWatch>, id: u64)
    requires
        forall|i: int| 0 <= i < watched.len() ==> (#[trigger] watched[i]).id != id,
    ensures
        sidebar::watch_of(watched, id) is None,
    decreases watched.len(),
{
    if watched.len() > 0 {
        assert(watched[watched.len() - 1].id != id);
        lemma_watch_of(watched.drop_last(), id);
    }
}

/// An agent's pane has the focus where the pane that hosts it does.
pub proof fn law_agent_has_the_focus_of_its_pane(panes: Seq<PaneRowView>, row: ProcessRowView)
    ensures
        sidebar::agent_focused(panes, row) <==> exists|i: int|
            0 <= i < panes.len() && sidebar::agent_pane_of(panes, row.id, row.agent_id) == Some(
                (#[trigger] panes[i]).id,
            ) && panes[i].focused && forall|j: int|
                0 <= j < i ==> (#[trigger] panes[j]).id != panes[i].id,
{
    if let Some(x) = sidebar::agent_pane_of(panes, row.id, row.agent_id) {
        finding_laws::law_pane_is_found_by_id(panes, x);
        if let Some(p) = sidebar::first_pane(panes, PaneQuery::Id(x)) {
            let i = choose|i: int|
                0 <= i < panes.len() && #[trigger] panes[i] == p && p.id == x && forall|j: int|
                    0 <= j < i ==> (#[trigger] panes[j]).id != x;
            assert(panes[i].id == x);
            if exists|a: int|
                0 <= a < panes.len() && sidebar::agent_pane_of(panes, row.id, row.agent_id) == Some(
                    (#[trigger] panes[a]).id,
                ) && panes[a].focused && forall|j: int|
                    0 <= j < a ==> (#[trigger] panes[j]).id != panes[a].id {
                let a = choose|a: int|
                    0 <= a < panes.len() && sidebar::agent_pane_of(panes, row.id, row.agent_id)
                        == Some((#[trigger] panes[a]).id) && panes[a].focused && forall|j: int|
                        0 <= j < a ==> (#[trigger] panes[j]).id != panes[a].id;
                if a < i {
                    assert(panes[a].id != x);
                }
                if i < a {
                    assert(panes[i].id != panes[a].id);
                }
            }
        }
    }
}

/// A todo has the colour that is given for its status, the first where there are
/// several, and none where none is given or its label tells no status.
pub proof fn law_todos_have_the_color_of_their_status(s: PanoptPane, k: int, c: int)
    requires
        s.mode == Mode::Todos,
        0 <= k < sidebar_items::items_of(s).len(),
    ensures
        ({
            let fg = sidebar_items::items_of(s)[k].fg;
            let status = modes::status_of(sidebar_items::listed_todos(s)[k].1@);
            let colors = s.todo_colors@;
            &&& status is None ==> fg is None
            &&& status is Some && 0 <= c < colors.len() && colors[c].0.token() == status->0 && (
            forall|j: int| 0 <= j < c ==> (#[trigger] colors[j]).0.token() != status->0) ==> fg
                == Some(colors[c].1)
            &&& status is Some && (forall|j: int|
                0 <= j < colors.len() ==> (#[trigger] colors[j]).0.token() != status->0)
                ==> fg is None
        }),
{
    if let Some(status) = modes::status_of(sidebar_items::listed_todos(s)[k].1@) {
        lemma_color_of(s.todo_colors@, status, c);
    }
}

/// The colour of a status is the first that is given for it.
proof fn lemma_color_of(colors: Seq<(TodoStatus, u8)>, status: Seq<char>, c: int)
    ensures
        0 <= c < colors.len() && colors[c].0.token() == status && (forall|j: int|
            0 <= j < c ==> (#[trigger] colors[j]).0.token() != status) ==> sidebar_items::color_of(
            colors,
            status,
        ) == Some(colors[c].1),
        (forall|j: int| 0 <= j < colors.len() ==> (#[trigger] colors[j]).0.token() != status)
            ==> sidebar_items::color_of(colors, status) is None,
    decreases colors.len(),
{
    if colors.len() > 0 && colors[0].0.token() != status {
        let rest = colors.drop_first();
        lemma_color_of(rest, status, c - 1);
        if 0 <= c < colors.len() && colors[c].0.token() == status && (forall|j: int|
            0 <= j < c ==> (#[trigger] colors[j]).0.token() != status) {
            assert(rest[c - 1] == colors[c]);
            assert forall|j: int| 0 <= j < c - 1 implies (#[trigger] rest[j]).0.token()
                != status by {
                assert(colors[j + 1] == rest[j]);
            }
        }
        if forall|j: int| 0 <= j < colors.len() ==> (#[trigger] colors[j]).0.token() != status {
            assert forall|j: int| 0 <= j < rest.len() implies (#[trigger] rest[j]).0.token()
                != status by {
                assert(colors[j + 1] == rest[j]);
            }
        }
    }
}

/// Each list holds what its name says; agents that nobody configured come behind
/// the configs.
pub proof fn law_lists_hold_what_they_are_for(s: PanoptPane, k: int)
    ensures
        s.mode == Mode::Commands ==> sidebar_items::items_of(s) == sidebar_items::command_items(
            s.process_list(),
            s.pane_list(),
        ),
        s.mode == Mode::Terminals ==> sidebar_items::items_of(s) == sidebar_items::terminal_items(
            s.pane_list(),
        ),
        s.mode == Mode::Agents && 0 <= k < s.configs@.len() ==> sidebar_items::items_of(
            s,
        )[k].target == ItemTarget::Config(s.configs@[k].id),
        s.mode == Mode::Agents ==> sidebar_items::items_of(s).skip(s.configs@.len() as int)
            == sidebar_items::agent_items(s.agent_labels, s.pane_list()),
{
    if s.mode == Mode::Agents {
        assert(sidebar_items::items_of(s).skip(s.configs@.len() as int)
            =~= sidebar_items::agent_items(s.agent_labels, s.pane_list()));
    }
}

/// The list scrolls no further than it must: not at all where the cursor is in
/// sight, and otherwise so far that the cursor stands in the first row, or in the
/// last.
pub proof fn law_list_scrolls_as_little_as_it_must(s: PanoptPane, delta: int)
    requires
        s.items.len() > 0,
    ensures
        ({
            let after = s.moved(delta);
            let rows = s.rows_shown();
            &&& after == (PanoptPane { cursor: after.cursor, scroll: after.scroll, ..s })
            &&& s.scroll <= after.cursor < s.scroll + rows ==> after.scroll == s.scroll
            &&& after.cursor < s.scroll ==> after.scroll == after.cursor
            &&& after.cursor >= s.scroll + rows ==> after.scroll + rows == after.cursor + 1
        }),
{
}

/// One row more is remembered as what was remembered of it last says: by the newest
/// row with its number, or by the time before.
pub proof fn law_newest_watch_counts(
    before: Seq<AgentWatch>,
    processes: Seq<ProcessRowView>,
    row: ProcessRowView,
    panes: Seq<PaneRowView>,
    i: int,
)
    requires
        row.kind == "agent"@,
        row.status == Some("running"@),
    ensures
        ({
            let seen = sidebar::watch_all(before, processes, panes);
            let after = sidebar::watch_all(before, processes.push(row), panes);
            let idle = row.agent_state == Some("idle"@);
            let focused = sidebar::agent_focused(panes, row);
            let among = |list: Seq<AgentWatch>|
                0 <= i < list.len() && list[i].id == row.id && forall|k: int|
                    i < k < list.len() ==> (#[trigger] list[k]).id != row.id;
            let none = |list: Seq<AgentWatch>|
                forall|k: int| 0 <= k < list.len() ==> (#[trigger] list[k]).id != row.id;
            &&& after.len() == seen.len() + 1
            &&& after.take(seen.len() as int) == seen
            &&& after.last().id == row.id && after.last().idle == idle
            &&& among(seen) ==> after.last().attention == ((seen[i].attention || !seen[i].idle)
                && idle && !focused)
            &&& none(seen) && among(before) ==> after.last().attention == ((before[i].attention
                || !before[i].idle) && idle && !focused)
            &&& none(seen) && none(before) ==> !after.last().attention
        }),
{
    let all = processes.push(row);
    assert(all.drop_last() =~= processes);
    assert(all.last() == row);
    let seen = sidebar::watch_all(before, processes, panes);
    let after = sidebar::watch_all(before, all, panes);
    assert(after.take(seen.len() as int) =~= seen);
    lemma_newest_watch(seen, row.id, i);
    lemma_newest_watch(before, row.id, i);
}

/// What is remembered of a number is the newest.
proof fn lemma_newest_watch(watched: Seq<AgentWatch>, id: u64, i: int)
    ensures
        0 <= i < watched.len() && watched[i].id == id && (forall|k: int|
            i < k < watched.len() ==> (#[trigger] watched[k]).id != id) ==> sidebar::watch_of(
            watched,
            id,
        ) == Some(watched[i]),
        (forall|k: int| 0 <= k < watched.len() ==> (#[trigger] watched[k]).id != id)
            ==> sidebar::watch_of(watched, id) is None,
    decreases watched.len(),
{
    if watched.len() > 0 && watched.last().id != id {
        let front = watched.drop_last();
        lemma_newest_watch(front, id, i);
        if 0 <= i < watched.len() && watched[i].id == id && (forall|k: int|
            i < k < watched.len() ==> (#[trigger] watched[k]).id != id) {
            assert(front[i] == watched[i]);
            assert forall|k: int| i < k < front.len() implies (#[trigger] front[k]).id != id by {
                assert(watched[k] == front[k]);
            }
        }
        if forall|k: int| 0 <= k < watched.len() ==> (#[trigger] watched[k]).id != id {
            assert forall|k: int| 0 <= k < front.len() implies (#[trigger] front[k]).id != id by {
                assert(watched[k] == front[k]);
            }
        }
    } else if watched.len() > 0 {
        let n = watched.len() - 1;
        assert(watched[n] == watched.last());
    }
}

} // verus!
