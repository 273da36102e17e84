//! Taking in what the multiplexer reports: the panes of the session, the
//! focus, and the labels of ad-hoc agents.

use vstd::prelude::*;
use vstd::string::*;

use crate::host;
use crate::host::{Action, ActionView, PaneId, PaneInfo, PaneInfoView, PaneManifest};
use crate::idmap;
use crate::idmap::IdMap;
use crate::modes::Mode;
use crate::panes;
use crate::panes::PaneRole;
use crate::sidebar;
use crate::sidebar::{PaneQuery, PaneRow, PaneRowView, PanoptPane};
use crate::sidebar_gate;
use crate::sidebar_slots;
use crate::sorting;
use crate::sorting::Order;
use crate::text;
use crate::wire;

verus! {

// ---------------------------------------------------------------------------
// Panes
// ---------------------------------------------------------------------------

/// The order of the tabs by their position.
pub struct ByTab;

impl Order<(usize, Vec<PaneInfo>)> for ByTab {
    open spec fn after(&self, a: (usize, Vec<PaneInfo>), b: (usize, Vec<PaneInfo>)) -> bool {
        a.0 > b.0
    }

    fn is_after(&self, a: &(usize, Vec<PaneInfo>), b: &(usize, Vec<PaneInfo>)) -> (r: bool) {
        a.0 > b.0
    }
}

/// Whether an id comes after another: terminals first, each by number.
pub open spec fn id_after(a: PaneId, b: PaneId) -> bool {
    match (a, b) {
        (PaneId::Terminal(x), PaneId::Terminal(y)) => x > y,
        (PaneId::Plugin(x), PaneId::Plugin(y)) => x > y,
        (PaneId::Plugin(_), PaneId::Terminal(_)) => true,
        (PaneId::Terminal(_), PaneId::Plugin(_)) => false,
    }
}

/// The order of the panes by their ids.
pub struct ById;

impl Order<PaneRow> for ById {
    open spec fn after(&self, a: PaneRow, b: PaneRow) -> bool {
        id_after(a.id, b.id)
    }

    fn is_after(&self, a: &PaneRow, b: &PaneRow) -> (r: bool) {
        match (a.id, b.id) {
            (PaneId::Terminal(x), PaneId::Terminal(y)) => x > y,
            (PaneId::Plugin(x), PaneId::Plugin(y)) => x > y,
            (PaneId::Plugin(_), PaneId::Terminal(_)) => true,
            (PaneId::Terminal(_), PaneId::Plugin(_)) => false,
        }
    }
}

/// A pane put into a run that is ordered by id, behind those it does not come
/// before.
pub open spec fn row_placed(rows: Seq<PaneRowView>, row: PaneRowView) -> Seq<PaneRowView>
    decreases rows.len(),
{
    if rows.len() > 0 && id_after(rows.last().id, row.id) {
        row_placed(rows.drop_last(), row).push(rows.last())
    } else {
        rows.push(row)
    }
}

/// Panes in the order of their ids.
pub open spec fn rows_ordered(rows: Seq<PaneRowView>) -> Seq<PaneRowView>
    decreases rows.len(),
{
    if rows.len() == 0 {
        seq![]
    } else {
        row_placed(rows_ordered(rows.drop_last()), rows.last())
    }
}

/// Placing a pane and looking at its contents commute.
proof fn lemma_placed_views(rows: Seq<PaneRow>, row: PaneRow)
    ensures
        sidebar::pane_views(sorting::inserted(&ById, rows, row)) == row_placed(
            sidebar::pane_views(rows),
            row@,
        ),
    decreases rows.len(),
{
    let v = sidebar::pane_views(rows);
    if rows.len() > 0 && id_after(rows.last().id, row.id) {
        lemma_placed_views(rows.drop_last(), row);
        assert(sidebar::pane_views(rows.drop_last()) =~= v.drop_last());
        assert(sidebar::pane_views(sorting::inserted(&ById, rows, row)) =~= row_placed(
            v.drop_last(),
            row@,
        ).push(v.last()));
    } else {
        assert(sidebar::pane_views(rows.push(row)) =~= v.push(row@));
    }
}

/// Sorting panes and looking at their contents commute.
proof fn lemma_ordered_views(rows: Seq<PaneRow>)
    ensures
        sidebar::pane_views(sorting::sorted(&ById, rows)) == rows_ordered(
            sidebar::pane_views(rows),
        ),
    decreases rows.len(),
{
    let v = sidebar::pane_views(rows);
    if rows.len() > 0 {
        lemma_ordered_views(rows.drop_last());
        assert(sidebar::pane_views(rows.drop_last()) =~= v.drop_last());
        lemma_placed_views(sorting::sorted(&ById, rows.drop_last()), rows.last());
    } else {
        assert(sidebar::pane_views(sorting::sorted(&ById, rows)) =~= rows_ordered(v));
    }
}

/// Placing a pane keeps a run in the order of the ids, and puts in nothing
/// else.
proof fn lemma_placed_in_order(rows: Seq<PaneRowView>, row: PaneRowView)
    requires
        forall|i: int, j: int|
            0 <= i < j < rows.len() ==> !id_after((#[trigger] rows[i]).id, (#[trigger] rows[j]).id),
    ensures
        ({
            let placed = row_placed(rows, row);
            &&& placed.len() == rows.len() + 1
            &&& forall|i: int, j: int|
                0 <= i < j < placed.len() ==> !id_after(
                    (#[trigger] placed[i]).id,
                    (#[trigger] placed[j]).id,
                )
            &&& forall|i: int|
                0 <= i < placed.len() ==> #[trigger] placed[i] == row || rows.contains(placed[i])
            &&& placed.to_multiset() == rows.to_multiset().insert(row)
        }),
    decreases rows.len(),
{
    let placed = row_placed(rows, row);
    broadcast use vstd::seq_lib::group_to_multiset_ensures;

    if rows.len() > 0 && id_after(rows.last().id, row.id) {
        let front = rows.drop_last();
        assert forall|i: int, j: int| 0 <= i < j < front.len() implies !id_after(
            (#[trigger] front[i]).id,
            (#[trigger] front[j]).id,
        ) by {
            assert(rows[i] == front[i] && rows[j] == front[j]);
        }
        lemma_placed_in_order(front, row);
        let before = row_placed(front, row);
        assert(front.push(rows.last()) =~= rows);
        assert(placed.to_multiset() =~= rows.to_multiset().insert(row));
        assert forall|i: int, j: int| 0 <= i < j < placed.len() implies !id_after(
            (#[trigger] placed[i]).id,
            (#[trigger] placed[j]).id,
        ) by {
            if j < before.len() {
                assert(placed[i] == before[i] && placed[j] == before[j]);
            } else {
                assert(placed[i] == before[i]);
                assert(placed[j] == rows.last());
                if before[i] != row {
                    let k = choose|k: int| 0 <= k < front.len() && front[k] == before[i];
                    assert(rows[k] == front[k] && rows[rows.len() - 1] == rows.last());
                }
            }
        }
        assert forall|i: int| 0 <= i < placed.len() implies #[trigger] placed[i] == row
            || rows.contains(placed[i]) by {
            if i < before.len() {
                assert(placed[i] == before[i]);
                if before[i] != row {
                    let k = choose|k: int| 0 <= k < front.len() && front[k] == before[i];
                    assert(rows[k] == before[i]);
                }
            } else {
                assert(rows[rows.len() - 1] == placed[i]);
            }
        }
    } else {
        assert forall|i: int, j: int| 0 <= i < j < placed.len() implies !id_after(
            (#[trigger] placed[i]).id,
            (#[trigger] placed[j]).id,
        ) by {
            assert(placed[i] == rows[i]);
            if j < rows.len() {
                assert(placed[j] == rows[j]);
            } else {
                assert(placed[j] == row);
                if i < rows.len() - 1 {
                    assert(rows[rows.len() - 1] == rows.last());
                    assert(!id_after(rows[i].id, rows[rows.len() - 1].id));
                }
            }
        }
        assert forall|i: int| 0 <= i < placed.len() implies #[trigger] placed[i] == row
            || rows.contains(placed[i]) by {
            if i < rows.len() {
                assert(placed[i] == rows[i]);
            }
        }
    }
}

/// The same panes are listed in the order of their ids, whatever the layout is.
pub proof fn law_panes_ordered_by_id(rows: Seq<PaneRowView>)
    ensures
        rows_ordered(rows).len() == rows.len(),
        rows_ordered(rows).to_multiset() == rows.to_multiset(),
        forall|i: int, j: int|
            0 <= i < j < rows_ordered(rows).len() ==> !id_after(
                (#[trigger] rows_ordered(rows)[i]).id,
                (#[trigger] rows_ordered(rows)[j]).id,
            ),
    decreases rows.len(),
{
    broadcast use vstd::seq_lib::group_to_multiset_ensures;

    if rows.len() > 0 {
        law_panes_ordered_by_id(rows.drop_last());
        lemma_placed_in_order(rows_ordered(rows.drop_last()), rows.last());
        assert(rows.drop_last().push(rows.last()) =~= rows);
    } else {
        assert(rows_ordered(rows) =~= rows);
    }
}

/// The panes of a tab, each with the tab's position.
pub open spec fn tab_panes(tab: (usize, Vec<PaneInfo>)) -> Seq<(usize, PaneInfoView)> {
    tab.1@.map_values(|p: PaneInfo| (tab.0, p@))
}

/// The panes of all tabs, tab by tab.
pub open spec fn all_panes(tabs: Seq<(usize, Vec<PaneInfo>)>) -> Seq<(usize, PaneInfoView)>
    decreases tabs.len(),
{
    if tabs.len() == 0 {
        seq![]
    } else {
        all_panes(tabs.drop_last()) + tab_panes(tabs.last())
    }
}

/// Whether a pane only carries a message to the sidebar: it is gone at once.
pub open spec fn is_transient(p: PaneInfoView) -> bool {
    match p.command {
        Some(c) => panes::mentions(c, "zellij"@) && panes::mentions(c, "action"@)
            && panes::mentions(c, "pipe"@) && panes::mentions(c, "panopt:"@),
        None => false,
    }
}

/// Whether a pane is content.
pub open spec fn is_content(p: PaneInfoView) -> bool {
    !is_transient(p) && !p.is_plugin && p.is_selectable
}

/// A content pane as the sidebar knows it.
pub open spec fn row_of(tab: usize, p: PaneInfoView) -> PaneRowView {
    PaneRowView {
        id: PaneId::Terminal(p.id),
        title: p.title,
        focused: p.is_focused,
        suppressed: p.is_suppressed,
        exited: p.exited,
        floating: p.is_floating,
        role: panes::pane_role(p.command),
        viewer_slot: if panes::pane_role(p.command) == PaneRole::Viewer {
            panes::slot_of(p.command)
        } else {
            None
        },
        agent_id: panes::agent_id_of(p.command),
        tab,
    }
}

/// The content panes among all.
pub open spec fn rows_of(seen: Seq<(usize, PaneInfoView)>) -> Seq<PaneRowView>
    decreases seen.len(),
{
    if seen.len() == 0 {
        seq![]
    } else if is_content(seen.last().1) {
        rows_of(seen.drop_last()).push(row_of(seen.last().0, seen.last().1))
    } else {
        rows_of(seen.drop_last())
    }
}

/// Where the focus is.
#[derive(Clone, Copy, PartialEq, Eq, Debug, Structural)]
pub struct FocusSeen {
    /// The tiled content pane that has it.
    pub content: Option<PaneId>,
    /// Whether any pane has it.
    pub any: bool,
    /// Whether a pane of the sidebar has it.
    pub sidebar: bool,
    /// Whether the pane that has it floats.
    pub floating: bool,
    /// The tab of the pane that has it.
    pub tab: Option<usize>,
}

/// Nothing has the focus.
pub open spec fn unfocused() -> FocusSeen {
    FocusSeen { content: None, any: false, sidebar: false, floating: false, tab: None }
}

/// What one more pane says about the focus.
pub open spec fn focus_with(f: FocusSeen, tab: usize, p: PaneInfoView) -> FocusSeen {
    if is_transient(p) || !p.is_focused {
        f
    } else {
        FocusSeen {
            content: if is_content(p) && !p.is_floating {
                Some(PaneId::Terminal(p.id))
            } else {
                f.content
            },
            any: true,
            sidebar: f.sidebar || p.is_plugin,
            floating: p.is_floating,
            tab: Some(tab),
        }
    }
}

/// Where the focus is, by what the panes say.
pub open spec fn focus_of(seen: Seq<(usize, PaneInfoView)>) -> FocusSeen
    decreases seen.len(),
{
    if seen.len() == 0 {
        unfocused()
    } else {
        focus_with(focus_of(seen.drop_last()), seen.last().0, seen.last().1)
    }
}

/// Whether a pane only carries a message to the sidebar.
fn is_transient_pipe_pane(p: &PaneInfo) -> (r: bool)
    ensures
        r == is_transient(p@),
{
    match &p.terminal_command {
        Some(c) => text::contains(c.as_str(), "zellij") && text::contains(c.as_str(), "action")
            && text::contains(c.as_str(), "pipe") && text::contains(c.as_str(), "panopt:"),
        None => false,
    }
}

/// What one more pane says about the focus.
fn note_focus(f: FocusSeen, tab: usize, p: &PaneInfo) -> (r: FocusSeen)
    requires
        !is_transient(p@),
    ensures
        r == focus_with(f, tab, p@),
{
    if !p.is_focused {
        return f;
    }
    FocusSeen {
        content: if !p.is_plugin && p.is_selectable && !p.is_floating {
            Some(PaneId::Terminal(p.id))
        } else {
            f.content
        },
        any: true,
        sidebar: f.sidebar || p.is_plugin,
        floating: p.is_floating,
        tab: Some(tab),
    }
}

/// The launch command of a pane.
fn command_text(p: &PaneInfo) -> (r: Option<&str>)
    ensures
        text::opt_str(r) == p@.command,
{
    match &p.terminal_command {
        Some(c) => Some(c.as_str()),
        None => None,
    }
}

/// A content pane as the sidebar knows it.
fn make_row(tab: usize, p: &PaneInfo) -> (r: PaneRow)
    ensures
        r@ == row_of(tab, p@),
{
    let command = command_text(p);
    let role = panes::classify_pane(command);
    let viewer_slot = if role == PaneRole::Viewer {
        panes::parse_viewer_slot(command)
    } else {
        None
    };
    PaneRow {
        id: PaneId::Terminal(p.id),
        title: p.title.clone(),
        focused: p.is_focused,
        suppressed: p.is_suppressed,
        exited: p.exited,
        floating: p.is_floating,
        role,
        viewer_slot,
        agent_id: panes::agent_id_from_command(command),
        tab,
    }
}

/// The content panes of the tabs, and where the focus is.
fn flatten(tabs: &Vec<(usize, Vec<PaneInfo>)>) -> (r: (Vec<PaneRow>, FocusSeen))
    ensures
        sidebar::pane_views(r.0@) == rows_of(all_panes(tabs@)),
        r.1 == focus_of(all_panes(tabs@)),
{
    let mut rows: Vec<PaneRow> = Vec::new();
    let mut focus = FocusSeen {
        content: None,
        any: false,
        sidebar: false,
        floating: false,
        tab: None,
    };
    let mut i: usize = 0;
    assert(tabs@.take(0) =~= seq![]);
    assert(sidebar::pane_views(rows@) =~= seq![]);
    while i < tabs.len()
        invariant
            i <= tabs.len(),
            sidebar::pane_views(rows@) == rows_of(all_panes(tabs@.take(i as int))),
            focus == focus_of(all_panes(tabs@.take(i as int))),
        decreases tabs.len() - i,
    {
        let tab: usize = tabs[i].0;
        let ghost before = all_panes(tabs@.take(i as int));
        let ghost here = tab_panes(tabs@[i as int]);
        let infos = &tabs[i].1;
        let mut j: usize = 0;
        assert(before + here.take(0) =~= before);
        while j < infos.len()
            invariant
                j <= infos.len(),
                here == tab_panes((tab, *infos)),
                sidebar::pane_views(rows@) == rows_of(before + here.take(j as int)),
                focus == focus_of(before + here.take(j as int)),
            decreases infos.len() - j,
        {
            let p = &infos[j];
            let ghost was = rows@;
            proof {
                let next = before + here.take(j + 1);
                assert(here[j as int] == (tab, p@));
                assert(next.drop_last() =~= before + here.take(j as int));
                assert(next.last() == (tab, p@));
            }
            if !is_transient_pipe_pane(p) {
                focus = note_focus(focus, tab, p);
                if !p.is_plugin && p.is_selectable {
                    let row = make_row(tab, p);
                    rows.push(row);
                    assert(sidebar::pane_views(rows@) =~= sidebar::pane_views(was).push(row@));
                }
            }
            j += 1;
        }
        proof {
            assert(here.take(j as int) =~= here);
            assert(tabs@.take(i + 1).drop_last() =~= tabs@.take(i as int));
            assert(tabs@.take(i + 1).last() == tabs@[i as int]);
        }
        i += 1;
    }
    assert(tabs@.take(i as int) =~= tabs@);
    (rows, focus)
}

// ---------------------------------------------------------------------------
// Labels
// ---------------------------------------------------------------------------

/// The labels of a map, by pane.
pub open spec fn label_map(labels: IdMap<String>) -> Map<u64, Seq<char>> {
    Map::new(|k: u64| labels.has(k), |k: u64| labels.value(k)@)
}

/// The terminals that ad-hoc agents run in.
pub open spec fn agent_terminals(panes: Seq<PaneRowView>) -> Seq<u64>
    decreases panes.len(),
{
    if panes.len() == 0 {
        seq![]
    } else {
        let before = agent_terminals(panes.drop_last());
        match panes.last().id {
            PaneId::Terminal(tid) => if panes.last().role == PaneRole::Agent {
                before.push(tid as u64)
            } else {
                before
            },
            PaneId::Plugin(_) => before,
        }
    }
}

/// There are at most as many agents as panes.
pub proof fn law_agents_are_panes(panes: Seq<PaneRowView>)
    ensures
        agent_terminals(panes).len() <= panes.len(),
    decreases panes.len(),
{
    if panes.len() > 0 {
        law_agents_are_panes(panes.drop_last());
    }
}

/// The agents whose panes are gone.
pub open spec fn departed(spawned: Seq<(u64, String)>, alive: Seq<u64>) -> Seq<Seq<char>>
    decreases spawned.len(),
{
    if spawned.len() == 0 {
        seq![]
    } else if alive.contains(spawned.last().0) {
        departed(spawned.drop_last(), alive)
    } else {
        departed(spawned.drop_last(), alive).push(spawned.last().1@)
    }
}

/// The daemon is told that agents left.
pub open spec fn leave_actions(gone: Seq<Seq<char>>) -> Seq<ActionView> {
    gone.map_values(|id: Seq<char>| ActionView::Run(seq!["_agent-leave"@, "--id"@, id]))
}

/// Labels for agents that have none: `Agent <n>`, with numbers that go up.
pub open spec fn labelled(
    labels: Map<u64, Seq<char>>,
    numbered: int,
    terminals: Seq<u64>,
) -> (Map<u64, Seq<char>>, int)
    decreases terminals.len(),
{
    if terminals.len() == 0 {
        (labels, numbered)
    } else {
        let (before, n) = labelled(labels, numbered, terminals.drop_last());
        if before.dom().contains(terminals.last()) {
            (before, n)
        } else {
            (before.insert(terminals.last(), "Agent "@ + text::decimal((n + 1) as nat)), n + 1)
        }
    }
}

/// The numbers go up by one at most for each agent, and every agent has a
/// label in the end; a label that was there stays.
pub proof fn law_labels_stay(labels: Map<u64, Seq<char>>, numbered: int, terminals: Seq<u64>)
    ensures
        ({
            let (after, n) = labelled(labels, numbered, terminals);
            &&& numbered <= n <= numbered + terminals.len()
            &&& forall|k: u64|
                labels.dom().contains(k) ==> #[trigger] after.dom().contains(k) && after[k]
                    == labels[k]
            &&& forall|i: int| 0 <= i < terminals.len() ==> after.dom().contains(
                #[trigger] terminals[i],
            )
        }),
    decreases terminals.len(),
{
    if terminals.len() > 0 {
        let front = terminals.drop_last();
        law_labels_stay(labels, numbered, front);
        let (after, n) = labelled(labels, numbered, terminals);
        assert forall|i: int| 0 <= i < terminals.len() implies after.dom().contains(
            #[trigger] terminals[i],
        ) by {
            if i < front.len() {
                assert(front[i] == terminals[i]);
            }
        }
    }
}

/// What the labels become: those of panes that are gone are dropped, and
/// agents without one are numbered.
pub open spec fn labels_synced(s: PanoptPane) -> (Map<u64, Seq<char>>, int) {
    let alive = agent_terminals(s.pane_list());
    labelled(
        label_map(s.agent_labels).restrict(Set::new(|k: u64| alive.contains(k))),
        s.next_agent as int,
        alive,
    )
}

/// The maps after the labels were synced.
pub open spec fn labels_sync_to(s: PanoptPane, after: PanoptPane) -> bool {
    let alive = agent_terminals(s.pane_list());
    &&& after == (PanoptPane {
        agent_labels: after.agent_labels,
        agent_pane_ids: after.agent_pane_ids,
        next_agent: after.next_agent,
        ..s
    })
    &&& after.agent_labels.wf()
    &&& after.agent_pane_ids.wf()
    &&& label_map(after.agent_labels) == labels_synced(s).0
    &&& after.next_agent == labels_synced(s).1
    &&& forall|k: u64|
        #[trigger] after.agent_pane_ids.lookup(k) == (if alive.contains(k) {
            s.agent_pane_ids.lookup(k)
        } else {
            None
        })
}

/// What syncing the labels asks for: agents that left are reported, and the
/// gatekeeper publishes the labels.
pub open spec fn sync_label_actions(s: PanoptPane, labels: IdMap<String>) -> Seq<ActionView> {
    (if sidebar_slots::can_launch(s) {
        leave_actions(departed(s.agent_pane_ids.list(), agent_terminals(s.pane_list())))
    } else {
        seq![]
    }) + (if s.mode == Mode::Todos {
        seq![ActionView::WriteLabels(wire::labels_text(sidebar_gate::label_list(labels)))]
    } else {
        seq![]
    })
}

/// Labels that others wrote are taken over, the last of each pane winning.
pub open spec fn labels_merged(
    labels: Map<u64, Seq<char>>,
    read: Seq<(u32, Seq<char>)>,
) -> Map<u64, Seq<char>>
    decreases read.len(),
{
    if read.len() == 0 {
        labels
    } else {
        labels_merged(labels, read.drop_last()).insert(read.last().0 as u64, read.last().1)
    }
}

/// A map of labels is told by what it gives for each pane.
pub proof fn lemma_label_map_insert(before: IdMap<String>, after: IdMap<String>, key: u64, label: String)
    requires
        forall|k: u64|
            #[trigger] after.lookup(k) == (if k == key {
                Some(label)
            } else {
                before.lookup(k)
            }),
    ensures
        label_map(after) == label_map(before).insert(key, label@),
{
    let a = label_map(after);
    let b = label_map(before).insert(key, label@);
    assert forall|k: u64| #[trigger] a.dom().contains(k) == b.dom().contains(k) by {
        let _ = after.lookup(k);
        let _ = before.lookup(k);
    }
    assert forall|k: u64| #[trigger] a.dom().contains(k) implies a[k] == b[k] by {
        let _ = after.lookup(k);
        let _ = before.lookup(k);
    }
    assert(a =~= b);
}

// ---------------------------------------------------------------------------
// Focus and slots
// ---------------------------------------------------------------------------

/// What the focus changes: tiled content that has it is the slot, and where it
/// crosses between sidebar and content the gatekeeper locks the keys or gives
/// them back.
pub open spec fn focus_tracked(s: PanoptPane, f: FocusSeen) -> (PanoptPane, Seq<ActionView>) {
    let slotted = PanoptPane {
        slot_pane: if f.content is Some {
            f.content
        } else {
            s.slot_pane
        },
        ..s
    };
    if !f.any {
        (slotted, seq![])
    } else {
        let crossed = s.mode == Mode::Todos && s.last_emitted_locked != Some(!f.sidebar);
        (
            PanoptPane {
                sidebar_focused: f.sidebar,
                focused_is_floating: f.floating,
                focused_tab: f.tab,
                last_emitted_locked: if crossed {
                    Some(!f.sidebar)
                } else {
                    s.last_emitted_locked
                },
                ..slotted
            },
            if crossed {
                seq![ActionView::SetLocked(!f.sidebar)]
            } else {
                seq![]
            },
        )
    }
}

/// The slot after panes came and went: one that is gone or hidden gives way to
/// a viewer that is seen, or to any pane that is.
pub open spec fn slot_adopted(s: PanoptPane) -> Option<PaneId> {
    let kept = match s.slot_pane {
        Some(slot) => if sidebar::first_pane(s.pane_list(), PaneQuery::Visible(slot)) is Some {
            Some(slot)
        } else {
            None
        },
        None => None,
    };
    if kept is Some {
        kept
    } else if sidebar::first_pane(s.pane_list(), PaneQuery::VisibleViewer) is Some {
        sidebar::first_pane_id(s.pane_list(), PaneQuery::VisibleViewer)
    } else {
        sidebar::first_pane_id(s.pane_list(), PaneQuery::AnyVisible)
    }
}

/// The search dialog, while its pane is there.
pub open spec fn search_kept(s: PanoptPane) -> Option<PaneId> {
    match s.search_pane {
        Some(search) => if sidebar::first_pane(s.pane_list(), PaneQuery::Id(search)) is Some {
            Some(search)
        } else {
            None
        },
        None => None,
    }
}

/// The slot and the search dialog after panes came and went.
pub open spec fn slots_tracked(s: PanoptPane) -> PanoptPane {
    PanoptPane { slot_pane: slot_adopted(s), search_pane: search_kept(s), ..s }
}

/// What is done about the panes once they and their labels are known.
pub open spec fn panes_followed(s: PanoptPane, f: FocusSeen) -> (PanoptPane, Seq<ActionView>) {
    let (focused, locks) = focus_tracked(s, f);
    let (counted, counts) = sidebar_gate::count_published(slots_tracked(focused));
    let (kept, shown) = sidebar_gate::slot_kept(counted);
    (kept, locks + counts + shown + seq![ActionView::SyncPaneTitles])
}

/// What is known, and asked for, after the panes of the tabs were taken in.
pub open spec fn ingests_to(
    s: PanoptPane,
    tabs: Seq<(usize, Vec<PaneInfo>)>,
    after: PanoptPane,
    acts: Seq<ActionView>,
) -> bool {
    let seen = all_panes(sorting::sorted(&ByTab, tabs));
    let listed = PanoptPane { panes: after.panes, ..s };
    let named = PanoptPane {
        agent_labels: after.agent_labels,
        agent_pane_ids: after.agent_pane_ids,
        next_agent: after.next_agent,
        ..listed
    };
    let (followed, more) = panes_followed(named, focus_of(seen));
    &&& after.pane_list() == rows_ordered(rows_of(seen))
    &&& labels_sync_to(listed, named)
    &&& after == followed
    &&& acts == sync_label_actions(listed, named.agent_labels) + more
}

/// Whether the list and the view stayed as they were.
pub open spec fn keeps_list(s: PanoptPane, after: PanoptPane) -> bool {
    &&& after.items == s.items
    &&& after.cursor == s.cursor
    &&& after.scroll == s.scroll
    &&& after.watched == s.watched
    &&& after.mode == s.mode
}

/// There is room to number every agent.
pub open spec fn can_number(s: PanoptPane, tabs: Seq<(usize, Vec<PaneInfo>)>) -> bool {
    s.next_agent + rows_of(all_panes(sorting::sorted(&ByTab, tabs))).len() <= u32::MAX
}

/// The slot is a pane that is there and not hidden, wherever there is one.
pub proof fn law_slot_is_seen(s: PanoptPane)
    ensures
        match slot_adopted(s) {
            Some(pane) => exists|i: int|
                0 <= i < s.pane_list().len() && (#[trigger] s.pane_list()[i]).id == pane
                    && !s.pane_list()[i].suppressed,
            None => forall|i: int|
                0 <= i < s.pane_list().len() ==> (#[trigger] s.pane_list()[i]).suppressed,
        },
{
    let l = s.pane_list();
    lemma_found(l, PaneQuery::VisibleViewer);
    lemma_found(l, PaneQuery::AnyVisible);
    if let Some(slot) = s.slot_pane {
        lemma_found(l, PaneQuery::Visible(slot));
    }
}

/// Whether a row is that of a content pane of the tabs.
pub open spec fn is_row_of(tabs: Seq<(usize, Vec<PaneInfo>)>, row: PaneRowView) -> bool {
    exists|i: int, j: int|
        0 <= i < tabs.len() && 0 <= j < tabs[i].1@.len() && is_content(
            (#[trigger] tabs[i].1@[j])@,
        ) && row == row_of(tabs[i].0, tabs[i].1@[j]@)
}

/// Whether a row is that of a content pane that was seen.
spec fn is_seen(seen: Seq<(usize, PaneInfoView)>, row: PaneRowView) -> bool {
    exists|k: int|
        0 <= k < seen.len() && is_content((#[trigger] seen[k]).1) && row == row_of(
            seen[k].0,
            seen[k].1,
        )
}

/// No two content panes that were seen share an id.
pub open spec fn ids_differ(seen: Seq<(usize, PaneInfoView)>) -> bool {
    forall|i: int, j: int|
        0 <= i < j < seen.len() && is_content((#[trigger] seen[i]).1) && is_content(
            (#[trigger] seen[j]).1,
        ) ==> seen[i].1.id != seen[j].1.id
}

/// The rows are those of the content panes that were seen.
proof fn lemma_rows_of(seen: Seq<(usize, PaneInfoView)>)
    ensures
        forall|row: PaneRowView| #[trigger] rows_of(seen).contains(row) <==> is_seen(seen, row),
        ids_differ(seen) ==> forall|i: int, j: int|
            0 <= i < j < rows_of(seen).len() ==> (#[trigger] rows_of(seen)[i]).id != (
            #[trigger] rows_of(seen)[j]).id,
    decreases seen.len(),
{
    let out = rows_of(seen);
    if seen.len() > 0 {
        let front = seen.drop_last();
        let before = rows_of(front);
        lemma_rows_of(front);
        let n = seen.len() - 1;
        assert forall|row: PaneRowView| #[trigger] out.contains(row) <==> is_seen(seen, row) by {
            if out.contains(row) {
                let i = choose|i: int| 0 <= i < out.len() && out[i] == row;
                if i < before.len() {
                    assert(before[i] == row);
                    assert(before.contains(row));
                    let k = choose|k: int|
                        0 <= k < front.len() && is_content((#[trigger] front[k]).1) && row
                            == row_of(front[k].0, front[k].1);
                    assert(seen[k] == front[k]);
                } else {
                    assert(is_content(seen[n].1));
                }
            }
            if is_seen(seen, row) {
                let k = choose|k: int|
                    0 <= k < seen.len() && is_content((#[trigger] seen[k]).1) && row == row_of(
                        seen[k].0,
                        seen[k].1,
                    );
                if k < n {
                    assert(front[k] == seen[k]);
                    assert(is_seen(front, row));
                    assert(before.contains(row));
                    let i = choose|i: int| 0 <= i < before.len() && before[i] == row;
                    assert(out[i] == row);
                } else {
                    assert(out[out.len() - 1] == row);
                }
            }
        }
        if ids_differ(seen) {
            assert forall|i: int, j: int|
                0 <= i < j < front.len() && is_content((#[trigger] front[i]).1) && is_content(
                    (#[trigger] front[j]).1,
                ) implies front[i].1.id != front[j].1.id by {
                assert(seen[i] == front[i] && seen[j] == front[j]);
            }
            assert forall|i: int, j: int| 0 <= i < j < out.len() implies (#[trigger] out[i]).id != (
            #[trigger] out[j]).id by {
                assert(out[i] == before[i]);
                if j < before.len() {
                    assert(out[j] == before[j]);
                } else {
                    assert(before.contains(out[i]));
                    let k = choose|k: int|
                        0 <= k < front.len() && is_content((#[trigger] front[k]).1) && out[i]
                            == row_of(front[k].0, front[k].1);
                    assert(seen[k] == front[k]);
                    assert(is_content(seen[n].1));
                }
            }
        }
    } else {
        assert forall|row: PaneRowView| #[trigger] out.contains(row) <==> is_seen(seen, row) by {}
    }
}

/// What is seen of the tabs is the panes of each.
proof fn lemma_all_panes(tabs: Seq<(usize, Vec<PaneInfo>)>, e: (usize, PaneInfoView))
    ensures
        all_panes(tabs).contains(e) <==> exists|i: int|
            0 <= i < tabs.len() && tab_panes(#[trigger] tabs[i]).contains(e),
    decreases tabs.len(),
{
    if tabs.len() > 0 {
        let front = tabs.drop_last();
        let last = tab_panes(tabs.last());
        let before = all_panes(front);
        let all = all_panes(tabs);
        lemma_all_panes(front, e);
        if all.contains(e) {
            let k = choose|k: int| 0 <= k < all.len() && all[k] == e;
            if k < before.len() {
                assert(before[k] == e);
                let i = choose|i: int|
                    0 <= i < front.len() && tab_panes(#[trigger] front[i]).contains(e);
                assert(tabs[i] == front[i]);
            } else {
                assert(last[k - before.len()] == e);
                assert(tab_panes(tabs[tabs.len() - 1]).contains(e));
            }
        }
        if exists|i: int| 0 <= i < tabs.len() && tab_panes(#[trigger] tabs[i]).contains(e) {
            let i = choose|i: int| 0 <= i < tabs.len() && tab_panes(#[trigger] tabs[i]).contains(e);
            if i < front.len() {
                assert(front[i] == tabs[i]);
                let k = choose|k: int| 0 <= k < before.len() && before[k] == e;
                assert(all[k] == e);
            } else {
                let k = choose|k: int| 0 <= k < last.len() && last[k] == e;
                assert(all[before.len() + k] == e);
            }
        }
    }
}

/// A row is seen in sorted tabs where it is one of the tabs.
proof fn lemma_seen_in_tabs(tabs: Seq<(usize, Vec<PaneInfo>)>, row: PaneRowView)
    ensures
        is_seen(all_panes(sorting::sorted(&ByTab, tabs)), row) <==> is_row_of(tabs, row),
{
    let sorted = sorting::sorted(&ByTab, tabs);
    let seen = all_panes(sorted);
    sorting::law_sorted_same_elements(&ByTab, tabs);
    broadcast use vstd::seq_lib::group_to_multiset_ensures;

    if is_seen(seen, row) {
        let k = choose|k: int|
            0 <= k < seen.len() && is_content((#[trigger] seen[k]).1) && row == row_of(
                seen[k].0,
                seen[k].1,
            );
        lemma_all_panes(sorted, seen[k]);
        assert(seen.contains(seen[k]));
        let s = choose|s: int|
            0 <= s < sorted.len() && tab_panes(#[trigger] sorted[s]).contains(seen[k]);
        assert(sorted.to_multiset().count(sorted[s]) > 0);
        assert(tabs.to_multiset().count(sorted[s]) > 0);
        assert(tabs.contains(sorted[s]));
        let i = choose|i: int| 0 <= i < tabs.len() && tabs[i] == sorted[s];
        let j = choose|j: int|
            0 <= j < tab_panes(tabs[i]).len() && tab_panes(tabs[i])[j] == seen[k];
        assert(tabs[i].1@[j]@ == seen[k].1);
    }
    if is_row_of(tabs, row) {
        let (i, j) = choose|i: int, j: int|
            0 <= i < tabs.len() && 0 <= j < tabs[i].1@.len() && is_content(
                (#[trigger] tabs[i].1@[j])@,
            ) && row == row_of(tabs[i].0, tabs[i].1@[j]@);
        let e = (tabs[i].0, tabs[i].1@[j]@);
        assert(tab_panes(tabs[i])[j] == e);
        assert(tabs.to_multiset().count(tabs[i]) > 0);
        assert(sorted.to_multiset().count(tabs[i]) > 0);
        assert(sorted.contains(tabs[i]));
        let s = choose|s: int| 0 <= s < sorted.len() && sorted[s] == tabs[i];
        assert(tab_panes(sorted[s]).contains(e));
        lemma_all_panes(sorted, e);
        let k = choose|k: int| 0 <= k < seen.len() && seen[k] == e;
        assert(is_content(seen[k].1));
    }
}

/// Panes whose ids differ do so in any order.
proof fn lemma_ids_stay_different(a: Seq<PaneRowView>, b: Seq<PaneRowView>)
    requires
        a.to_multiset() == b.to_multiset(),
        forall|i: int, j: int| 0 <= i < j < a.len() ==> (#[trigger] a[i]).id != (#[trigger] a[j]).id,
    ensures
        forall|i: int, j: int| 0 <= i < j < b.len() ==> (#[trigger] b[i]).id != (#[trigger] b[j]).id,
{
    broadcast use vstd::seq_lib::group_to_multiset_ensures;

    assert(a.no_duplicates());
    a.lemma_multiset_has_no_duplicates();
    assert forall|x: PaneRowView| b.to_multiset().contains(x) implies
        #[trigger] b.to_multiset().count(x) == 1 by {
        assert(a.to_multiset().count(x) == 1);
    }
    b.lemma_multiset_has_no_duplicates_conv();
    assert forall|i: int, j: int| 0 <= i < j < b.len() implies (#[trigger] b[i]).id != (
    #[trigger] b[j]).id by {
        assert(b.to_multiset().count(b[i]) > 0 && b.to_multiset().count(b[j]) > 0);
        assert(a.contains(b[i]) && a.contains(b[j]));
        let x = choose|x: int| 0 <= x < a.len() && a[x] == b[i];
        let y = choose|y: int| 0 <= y < a.len() && a[y] == b[j];
        assert(b[i] != b[j]);
        if x < y {
            assert(a[x].id != a[y].id);
        } else {
            assert(a[y].id != a[x].id);
        }
    }
}

/// Whether a list holds the panes of the tabs that can be selected and belong
/// neither to the sidebar nor to a message on its way, the hidden ones too, and
/// no others, in the order of their ids, strictly where no two share one.
pub open spec fn lists_content(
    list: Seq<PaneRowView>,
    tabs: Seq<(usize, Vec<PaneInfo>)>,
) -> bool {
    &&& forall|row: PaneRowView| #[trigger] list.contains(row) <==> is_row_of(tabs, row)
    &&& forall|i: int, j: int|
        0 <= i < j < list.len() ==> !id_after((#[trigger] list[i]).id, (#[trigger] list[j]).id)
    &&& ids_differ(all_panes(sorting::sorted(&ByTab, tabs))) ==> forall|i: int, j: int|
        0 <= i < j < list.len() ==> id_after((#[trigger] list[j]).id, (#[trigger] list[i]).id)
}

/// Whether the slot is a listed pane that is not hidden, and there is none
/// exactly where all listed panes are hidden.
pub open spec fn slot_is_shown(slot: Option<PaneId>, list: Seq<PaneRowView>) -> bool {
    &&& slot matches Some(pane) ==> exists|i: int|
        0 <= i < list.len() && (#[trigger] list[i]).id == pane && !list[i].suppressed
    &&& slot is None <==> forall|i: int|
        0 <= i < list.len() ==> (#[trigger] list[i]).suppressed
}

/// After the panes were taken in, the list holds the content panes and no
/// others.
pub proof fn law_content_panes_are_listed(
    s: PanoptPane,
    tabs: Seq<(usize, Vec<PaneInfo>)>,
    after: PanoptPane,
    acts: Seq<ActionView>,
)
    requires
        ingests_to(s, tabs, after, acts),
    ensures
        lists_content(after.pane_list(), tabs),
{
    let seen = all_panes(sorting::sorted(&ByTab, tabs));
    let rows = rows_of(seen);
    let list = after.pane_list();
    law_panes_ordered_by_id(rows);
    lemma_rows_of(seen);
    broadcast use vstd::seq_lib::group_to_multiset_ensures;

    assert forall|row: PaneRowView| #[trigger] list.contains(row) <==> is_row_of(tabs, row) by {
        assert(list.contains(row) <==> list.to_multiset().count(row) > 0);
        assert(rows.contains(row) <==> rows.to_multiset().count(row) > 0);
        lemma_seen_in_tabs(tabs, row);
    }
    if ids_differ(seen) {
        lemma_ids_stay_different(rows, list);
        assert forall|i: int, j: int| 0 <= i < j < list.len() implies id_after(
            (#[trigger] list[j]).id,
            (#[trigger] list[i]).id,
        ) by {
            assert(!id_after(list[i].id, list[j].id));
        }
    }
}

/// After the panes were taken in, the slot of every pane of the sidebar but the
/// gatekeeper is a listed pane that is not hidden; it has none exactly where all
/// listed panes are hidden.
pub proof fn law_slot_is_listed(
    s: PanoptPane,
    tabs: Seq<(usize, Vec<PaneInfo>)>,
    after: PanoptPane,
    acts: Seq<ActionView>,
)
    requires
        ingests_to(s, tabs, after, acts),
        s.mode != Mode::Todos,
    ensures
        slot_is_shown(after.slot_pane, after.pane_list()),
{
    let seen = all_panes(sorting::sorted(&ByTab, tabs));
    let named = PanoptPane {
        agent_labels: after.agent_labels,
        agent_pane_ids: after.agent_pane_ids,
        next_agent: after.next_agent,
        panes: after.panes,
        ..s
    };
    let focused = focus_tracked(named, focus_of(seen)).0;
    law_slot_is_seen(focused);
    assert(focused.pane_list() == after.pane_list());
    assert(after.slot_pane == slot_adopted(focused));
}

/// What a search finds is in the list and answers; where it finds nothing,
/// nothing answers.
proof fn lemma_found(l: Seq<PaneRowView>, q: PaneQuery)
    ensures
        match sidebar::first_pane(l, q) {
            Some(p) => exists|i: int|
                0 <= i < l.len() && #[trigger] l[i] == p && sidebar::answers(q, l[i]),
            None => forall|i: int| 0 <= i < l.len() ==> !sidebar::answers(q, #[trigger] l[i]),
        },
    decreases l.len(),
{
    if l.len() > 0 {
        if sidebar::answers(q, l[0]) {
        } else {
            let rest = l.drop_first();
            lemma_found(rest, q);
            match sidebar::first_pane(rest, q) {
                Some(p) => {
                    let i = choose|i: int|
                        0 <= i < rest.len() && #[trigger] rest[i] == p && sidebar::answers(
                            q,
                            rest[i],
                        );
                    assert(l[i + 1] == p);
                },
                None => {
                    assert forall|i: int| 0 <= i < l.len() implies !sidebar::answers(
                        q,
                        #[trigger] l[i],
                    ) by {
                        if i > 0 {
                            assert(rest[i - 1] == l[i]);
                        }
                    }
                },
            }
        }
    }
}

impl PanoptPane {
    /// The terminals that ad-hoc agents run in.
    fn agent_panes(&self) -> (out: Vec<u64>)
        ensures
            out@ == agent_terminals(self.pane_list()),
    {
        let ghost all = self.pane_list();
        let mut out: Vec<u64> = Vec::new();
        let mut i: usize = 0;
        assert(all.take(0) =~= seq![]);
        while i < self.panes.len()
            invariant
                i <= self.panes.len(),
                all == self.pane_list(),
                out@ == agent_terminals(all.take(i as int)),
            decreases self.panes.len() - i,
        {
            let p = &self.panes[i];
            proof {
                assert(all.take(i + 1).drop_last() =~= all.take(i as int));
                assert(all.take(i + 1).last() == p@);
            }
            if let PaneId::Terminal(tid) = p.id {
                if p.role == PaneRole::Agent {
                    out.push(tid as u64);
                }
            }
            i += 1;
        }
        assert(all.take(i as int) =~= all);
        out
    }

    /// Reports the agents whose panes are gone.
    fn report_departed(&self, alive: &Vec<u64>) -> (out: Vec<Action>)
        ensures
            host::actions(out@) == (if sidebar_slots::can_launch(*self) {
                leave_actions(departed(self.agent_pane_ids.list(), alive@))
            } else {
                seq![]
            }),
    {
        if self.launch_cwd().is_none() {
            return host::no_actions();
        }
        let ghost all = self.agent_pane_ids.list();
        let mut out = host::no_actions();
        let mut i: usize = 0;
        assert(all.take(0) =~= seq![]);
        assert(host::actions(out@) =~= leave_actions(departed(all.take(0), alive@)));
        while i < self.agent_pane_ids.len()
            invariant
                i <= all.len(),
                all == self.agent_pane_ids.list(),
                host::actions(out@) == leave_actions(departed(all.take(i as int), alive@)),
            decreases all.len() - i,
        {
            let e = self.agent_pane_ids.at(i);
            proof {
                assert(all.take(i + 1).drop_last() =~= all.take(i as int));
                assert(all.take(i + 1).last() == all[i as int]);
            }
            if !idmap::holds_id(alive, e.0) {
                let words = vec!["_agent-leave", "--id", e.1.as_str()];
                let args = host::owned(&words);
                proof {
                    let before = departed(all.take(i as int), alive@);
                    assert(text::texts(args@) =~= seq!["_agent-leave"@, "--id"@, e.1@]);
                    assert(leave_actions(before.push(e.1@)) =~= leave_actions(before).push(
                        ActionView::Run(seq!["_agent-leave"@, "--id"@, e.1@]),
                    ));
                }
                host::push_action(&mut out, Action::Run(args));
            }
            i += 1;
        }
        assert(all.take(i as int) =~= all);
        out
    }

    /// Keeps the labels in step with the agents' panes.
    pub fn sync_agent_labels(&mut self) -> (out: Vec<Action>)
        requires
            old(self).wf(),
            old(self).next_agent + old(self).panes.len() <= u32::MAX,
        ensures
            labels_sync_to(*old(self), *final(self)),
            host::actions(out@) == sync_label_actions(*old(self), final(self).agent_labels),
            final(self).wf(),
    {
        let alive = self.agent_panes();
        let mut out = self.report_departed(&alive);
        self.agent_pane_ids.retain(&alive);
        let ghost start = label_map(self.agent_labels).restrict(
            Set::new(|k: u64| alive@.contains(k)),
        );
        self.agent_labels.retain(&alive);
        proof {
            law_agents_are_panes(self.pane_list());
            let a = label_map(self.agent_labels);
            assert forall|k: u64| #[trigger] a.dom().contains(k) == start.dom().contains(k) by {
                let _ = self.agent_labels.lookup(k);
                let _ = old(self).agent_labels.lookup(k);
            }
            assert forall|k: u64| #[trigger] a.dom().contains(k) implies a[k] == start[k] by {
                let _ = self.agent_labels.lookup(k);
                let _ = old(self).agent_labels.lookup(k);
            }
            assert(a =~= start);
            assert(alive@.take(0) =~= seq![]);
        }
        self.number_agents(&alive);
        if self.mode == Mode::Todos {
            let body = sidebar_gate::render_labels(&self.agent_labels);
            host::push_action(&mut out, Action::WriteLabels(body));
        }
        assert(host::actions(out@) =~= sync_label_actions(*old(self), self.agent_labels));
        out
    }

    /// Numbers the agents that have no label.
    fn number_agents(&mut self, terminals: &Vec<u64>)
        requires
            old(self).agent_labels.wf(),
            old(self).next_agent + terminals.len() <= u32::MAX,
        ensures
            *final(self) == (PanoptPane {
                agent_labels: final(self).agent_labels,
                next_agent: final(self).next_agent,
                ..*old(self)
            }),
            final(self).agent_labels.wf(),
            (label_map(final(self).agent_labels), final(self).next_agent as int) == labelled(
                label_map(old(self).agent_labels),
                old(self).next_agent as int,
                terminals@,
            ),
    {
        let ghost start = label_map(self.agent_labels);
        let ghost first = self.next_agent as int;
        let ghost was = *self;
        let mut i: usize = 0;
        assert(terminals@.take(0) =~= seq![]);
        while i < terminals.len()
            invariant
                i <= terminals.len(),
                first + terminals.len() <= u32::MAX,
                first <= self.next_agent <= first + i,
                self.agent_labels.wf(),
                *self == (PanoptPane {
                    agent_labels: self.agent_labels,
                    next_agent: self.next_agent,
                    ..was
                }),
                (label_map(self.agent_labels), self.next_agent as int) == labelled(
                    start,
                    first,
                    terminals@.take(i as int),
                ),
            decreases terminals.len() - i,
        {
            let tid: u64 = terminals[i];
            let ghost before = self.agent_labels;
            proof {
                assert(terminals@.take(i + 1).drop_last() =~= terminals@.take(i as int));
                assert(terminals@.take(i + 1).last() == tid);
            }
            if !self.agent_labels.contains(tid) {
                let n: u32 = self.next_agent + 1;
                let digits = text::number(n as u64);
                let mut label = "Agent ".to_owned();
                label.append(digits.as_str());
                self.next_agent = n;
                self.agent_labels.insert(tid, label);
                proof {
                    lemma_label_map_insert(before, self.agent_labels, tid, label);
                }
            }
            i += 1;
        }
        assert(terminals@.take(i as int) =~= terminals@);
    }

    /// Takes over the labels that the gatekeeper published. A file that is
    /// missing or malformed leaves those at hand as they are.
    pub fn read_agent_labels(&mut self, body: Option<&str>)
        requires
            old(self).wf(),
        ensures
            *final(self) == (PanoptPane {
                agent_labels: final(self).agent_labels,
                ..*old(self)
            }),
            final(self).wf(),
            label_map(final(self).agent_labels) == (match body {
                Some(b) => labels_merged(label_map(old(self).agent_labels), wire::labels_in(b@)),
                None => label_map(old(self).agent_labels),
            }),
    {
        let body = match body {
            Some(b) => b,
            None => {
                return;
            },
        };
        let read = wire::parse_agent_labels(body);
        let ghost all = wire::label_views(read@);
        let ghost start = label_map(self.agent_labels);
        let ghost was = *self;
        let mut i: usize = 0;
        assert(all.take(0) =~= seq![]);
        while i < read.len()
            invariant
                i <= read.len(),
                all == wire::label_views(read@),
                self.agent_labels.wf(),
                *self == (PanoptPane { agent_labels: self.agent_labels, ..was }),
                label_map(self.agent_labels) == labels_merged(start, all.take(i as int)),
            decreases read.len() - i,
        {
            let ghost before = self.agent_labels;
            let label = read[i].1.clone();
            let tid: u64 = read[i].0 as u64;
            self.agent_labels.insert(tid, label);
            proof {
                assert(all.take(i + 1).drop_last() =~= all.take(i as int));
                assert(all.take(i + 1).last() == (read@[i as int].0, read@[i as int].1@));
                lemma_label_map_insert(before, self.agent_labels, tid, label);
            }
            i += 1;
        }
        assert(all.take(i as int) =~= all);
    }

    /// Follows the focus.
    fn track_focus(&mut self, f: FocusSeen) -> (out: Vec<Action>)
        ensures
            (*final(self), host::actions(out@)) == focus_tracked(*old(self), f),
    {
        if f.content.is_some() {
            self.slot_pane = f.content;
        }
        if !f.any {
            return host::no_actions();
        }
        self.sidebar_focused = f.sidebar;
        self.focused_is_floating = f.floating;
        self.focused_tab = f.tab;
        let locked = !f.sidebar;
        let known = match self.last_emitted_locked {
            Some(l) => l == locked,
            None => false,
        };
        if self.mode == Mode::Todos && !known {
            self.last_emitted_locked = Some(locked);
            return host::one_action(Action::SetLocked(locked));
        }
        host::no_actions()
    }

    /// Follows the slot and the search dialog.
    fn track_slots(&mut self)
        ensures
            *final(self) == slots_tracked(*old(self)),
    {
        let kept = match self.slot_pane {
            Some(slot) => if self.pane_is_visible(slot) {
                Some(slot)
            } else {
                None
            },
            None => None,
        };
        let search = match self.search_pane {
            Some(search) => if self.find_pane(PaneQuery::Id(search)).is_some() {
                Some(search)
            } else {
                None
            },
            None => None,
        };
        let slot = match kept {
            Some(slot) => Some(slot),
            None => match self.pane_for(PaneQuery::VisibleViewer) {
                Some(viewer) => Some(viewer),
                None => self.pane_for(PaneQuery::AnyVisible),
            },
        };
        self.slot_pane = slot;
        self.search_pane = search;
    }

    /// Takes in the panes of the session: the content panes are listed. But
    /// for the gatekeeper, which fills an empty slot itself, the slot is one of
    /// them that is not hidden, if there is one.
    pub fn ingest_panes(&mut self, manifest: PaneManifest) -> (out: Vec<Action>)
        requires
            old(self).wf(),
            old(self).mode == Mode::Todos ==> old(self).next_viewer_slot < u32::MAX,
            can_number(*old(self), manifest.tabs@),
        ensures
            ingests_to(*old(self), manifest.tabs@, *final(self), host::actions(out@)),
            lists_content(final(self).pane_list(), manifest.tabs@),
            old(self).mode != Mode::Todos ==> slot_is_shown(
                final(self).slot_pane,
                final(self).pane_list(),
            ),
            keeps_list(*old(self), *final(self)),
            final(self).wf(),
    {
        let tabs = sorting::sort(&ByTab, manifest.tabs);
        let (rows, focus) = flatten(&tabs);
        let ghost seen = all_panes(sorting::sorted(&ByTab, manifest.tabs@));
        proof {
            lemma_ordered_views(rows@);
            law_panes_ordered_by_id(rows_of(seen));
        }
        self.panes = sorting::sort(&ById, rows);
        assert(self.panes@.len() == self.pane_list().len());
        let ghost listed = *self;
        let mut out = self.sync_agent_labels();
        let ghost named = *self;
        let more = self.follow_panes(focus);
        host::append_actions(&mut out, more);
        proof {
            law_content_panes_are_listed(
                *old(self),
                manifest.tabs@,
                *self,
                host::actions(out@),
            );
            if old(self).mode != Mode::Todos {
                law_slot_is_listed(*old(self), manifest.tabs@, *self, host::actions(out@));
            }
        }
        out
    }

    /// Follows the panes once they and their labels are known.
    fn follow_panes(&mut self, focus: FocusSeen) -> (out: Vec<Action>)
        requires
            old(self).mode == Mode::Todos ==> old(self).next_viewer_slot < u32::MAX,
        ensures
            (*final(self), host::actions(out@)) == panes_followed(*old(self), focus),
            final(self).panes == old(self).panes,
            final(self).agent_labels == old(self).agent_labels,
            final(self).agent_pane_ids == old(self).agent_pane_ids,
            final(self).next_agent == old(self).next_agent,
            keeps_list(*old(self), *final(self)),
            old(self).wf() ==> final(self).wf(),
    {
        let mut out = self.track_focus(focus);
        self.track_slots();
        let counts = self.publish_content_count();
        let shown = self.ensure_content_slot();
        host::append_actions(&mut out, counts);
        host::append_actions(&mut out, shown);
        host::push_action(&mut out, Action::SyncPaneTitles);
        assert(host::actions(out@) =~= panes_followed(*old(self), focus).1);
        out
    }
}

} // verus!
