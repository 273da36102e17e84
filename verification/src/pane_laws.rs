//! What the panes are taken for: what a command says of its pane, which panes are
//! listed, where the focus is, and which agents have which labels.

use vstd::prelude::*;
use vstd::string::*;

use crate::finding_laws;
use crate::host::{ActionView, PaneId, PaneInfo, PaneInfoView};
use crate::idmap::IdMap;
use crate::modes::Mode;
use crate::panes;
use crate::panes::PaneRole;
use crate::picking;
use crate::presence_laws;
use crate::search_laws;
use crate::sidebar::{PaneQuery, PaneRowView, PanoptPane};
use crate::sidebar_gate;
use crate::sidebar_ingest;
use crate::sidebar_ingest::FocusSeen;
use crate::text;
use crate::wire;

verus! {

// ---------------------------------------------------------------------------
// Commands
// ---------------------------------------------------------------------------

/// What follows the first of the parts that is a key: nothing where there is no
/// such part or nothing behind it.
pub proof fn law_value_follows_its_key(parts: Seq<Seq<char>>, key: Seq<char>, i: int)
    ensures
        (forall|k: int| 0 <= k < parts.len() ==> #[trigger] parts[k] != key) ==> panes::part_after(
            parts,
            key,
        ) is None,
        0 <= i < parts.len() && parts[i] == key && (forall|k: int|
            0 <= k < i ==> #[trigger] parts[k] != key) ==> panes::part_after(parts, key) == (if i
            + 1 < parts.len() {
            Some(parts[i + 1])
        } else {
            None
        }),
    decreases parts.len(),
{
    if parts.len() > 0 && parts[0] != key {
        let rest = parts.drop_first();
        law_value_follows_its_key(rest, key, i - 1);
        if forall|k: int| 0 <= k < parts.len() ==> #[trigger] parts[k] != key {
            assert forall|k: int| 0 <= k < rest.len() implies #[trigger] rest[k] != key by {
                assert(parts[k + 1] == rest[k]);
            }
        }
        if 0 <= i < parts.len() && parts[i] == key && (forall|k: int|
            0 <= k < i ==> #[trigger] parts[k] != key) {
            assert(i > 0);
            assert(rest[i - 1] == key);
            assert forall|k: int| 0 <= k < i - 1 implies #[trigger] rest[k] != key by {
                assert(parts[k + 1] == rest[k]);
            }
        }
    }
}

/// The last of the words that is a number.
pub proof fn law_last_number_is_the_last(words: Seq<Seq<char>>)
    ensures
        match panes::last_number(words) {
            Some(n) => exists|i: int|
                0 <= i < words.len() && text::u64_of(#[trigger] words[i]) == Some(n) && forall|
                    k: int,
                |
                    i < k < words.len() ==> text::u64_of(#[trigger] words[k]) is None,
            None => forall|k: int|
                0 <= k < words.len() ==> text::u64_of(#[trigger] words[k]) is None,
        },
    decreases words.len(),
{
    if words.len() > 0 {
        let front = words.drop_last();
        let n = words.len() - 1;
        if text::u64_of(words[n]) is Some {
            assert(words[n] == words.last());
        } else {
            law_last_number_is_the_last(front);
            assert forall|k: int| 0 <= k < front.len() implies front[k] == #[trigger] words[k] by {}
            if panes::last_number(front) is Some {
                let i = choose|i: int|
                    0 <= i < front.len() && text::u64_of(#[trigger] front[i]) == panes::last_number(
                        front,
                    ) && forall|k: int|
                        i < k < front.len() ==> text::u64_of(#[trigger] front[k]) is None;
                assert(words[i] == front[i]);
                assert forall|k: int| i < k < words.len() implies text::u64_of(
                    #[trigger] words[k],
                ) is None by {
                    if k < n {
                        assert(front[k] == words[k]);
                    }
                }
            } else {
                assert forall|k: int| 0 <= k < words.len() implies text::u64_of(
                    #[trigger] words[k],
                ) is None by {
                    if k < n {
                        assert(front[k] == words[k]);
                    }
                }
            }
        }
    }
}

/// What a pane is taken for by its command: a viewer where that is named; a
/// process where its runner is named, or where the directory of an instance is, by
/// its number; an agent where one is named; a shell otherwise, and where there is no
/// command.
pub proof fn law_pane_is_what_its_command_runs(cmd: Seq<char>)
    ensures
        panes::pane_role(None) == PaneRole::Shell,
        ({
            let role = panes::pane_role(Some(cmd));
            let viewer = search_laws::stands_in("_viewer"@, cmd);
            let runner = search_laws::stands_in("_process-run"@, cmd);
            let agent = search_laws::stands_in("_agent"@, cmd);
            let number = panes::last_number(text::words(cmd));
            let segment = panes::part_after(text::pieces(cmd, "/"@), "instances"@);
            let instance = segment is Some && text::u64_of(segment->0) is Some;
            &&& role == PaneRole::Viewer <==> viewer
            &&& !viewer && runner && number is Some ==> role == PaneRole::Process(number->0)
            &&& !viewer && runner && number is None ==> role == PaneRole::Shell
            &&& !viewer && !runner && instance ==> role == PaneRole::Process(
                text::u64_of(segment->0)->0,
            )
            &&& role == PaneRole::Agent <==> !viewer && !runner && !instance && agent
        }),
{
    search_laws::lemma_found_where_it_stands(cmd, "_viewer"@);
    search_laws::lemma_found_where_it_stands(cmd, "_process-run"@);
    search_laws::lemma_found_where_it_stands(cmd, "_agent"@);
}

/// The slot of a viewer follows its flag, wherever that stands among the words;
/// the id of an agent does too, in the command of an agent or of its proxy only.
pub proof fn law_flags_of_a_command(cmd: Seq<char>, i: int)
    requires
        0 <= i,
        i + 1 < text::words(cmd).len(),
    ensures
        text::words(cmd)[i] == "--slot"@ && (forall|k: int|
            0 <= k < i ==> #[trigger] text::words(cmd)[k] != "--slot"@) ==> panes::slot_of(
            Some(cmd),
        ) == Some(text::words(cmd)[i + 1]),
        text::words(cmd)[i] == "--id"@ && (forall|k: int|
            0 <= k < i ==> #[trigger] text::words(cmd)[k] != "--id"@) ==> panes::agent_id_of(
            Some(cmd),
        ) == (if search_laws::stands_in("_mcp-proxy"@, cmd) || search_laws::stands_in(
            "_agent"@,
            cmd,
        ) {
            Some(text::words(cmd)[i + 1])
        } else {
            None
        }),
        panes::slot_of(None) is None,
        panes::agent_id_of(None) is None,
{
    law_value_follows_its_key(text::words(cmd), "--slot"@, i);
    law_value_follows_its_key(text::words(cmd), "--id"@, i);
    search_laws::lemma_found_where_it_stands(cmd, "_mcp-proxy"@);
    search_laws::lemma_found_where_it_stands(cmd, "_agent"@);
}

/// The shells that a user works in: a program by another name is none.
pub proof fn law_shells_are_these(name: Seq<char>)
    ensures
        panes::shell_name(name) <==> seq![
            "zsh"@,
            "bash"@,
            "fish"@,
            "sh"@,
            "dash"@,
            "ksh"@,
            "tcsh"@,
            "nu"@,
            "ash"@,
            "elvish"@,
        ].contains(name),
{
    let all = seq![
        "zsh"@,
        "bash"@,
        "fish"@,
        "sh"@,
        "dash"@,
        "ksh"@,
        "tcsh"@,
        "nu"@,
        "ash"@,
        "elvish"@,
    ];
    assert(all[0] == "zsh"@ && all[1] == "bash"@ && all[2] == "fish"@ && all[3] == "sh"@ && all[4]
        == "dash"@ && all[5] == "ksh"@ && all[6] == "tcsh"@ && all[7] == "nu"@ && all[8] == "ash"@
        && all[9] == "elvish"@);
}

// ---------------------------------------------------------------------------
// What is seen
// ---------------------------------------------------------------------------

/// Whether a pane is one of the calls that tell of a change: it comes and goes.
pub open spec fn is_passing(p: PaneInfoView) -> bool {
    p.command is Some && search_laws::stands_in("zellij"@, p.command->0) && search_laws::stands_in(
        "action"@,
        p.command->0,
    ) && search_laws::stands_in("pipe"@, p.command->0) && search_laws::stands_in(
        "panopt:"@,
        p.command->0,
    )
}

/// A pane is listed where it is a terminal that can be selected and no call that
/// tells of a change; its row says of it what was seen, and of a viewer which slot
/// it serves.
pub proof fn law_panes_are_listed_as_seen(tab: usize, p: PaneInfoView)
    ensures
        sidebar_ingest::is_transient(p) <==> is_passing(p),
        sidebar_ingest::is_content(p) <==> !is_passing(p) && !p.is_plugin && p.is_selectable,
        ({
            let row = sidebar_ingest::row_of(tab, p);
            let role = panes::pane_role(p.command);
            &&& row.id == PaneId::Terminal(p.id)
            &&& row.tab == tab
            &&& row.title == p.title
            &&& row.focused == p.is_focused
            &&& row.suppressed == p.is_suppressed
            &&& row.exited == p.exited
            &&& row.floating == p.is_floating
            &&& row.role == role
            &&& role == PaneRole::Viewer ==> row.viewer_slot == panes::slot_of(p.command)
            &&& role != PaneRole::Viewer ==> row.viewer_slot is None
            &&& row.agent_id == panes::agent_id_of(p.command)
        }),
{
    if let Some(c) = p.command {
        search_laws::lemma_found_where_it_stands(c, "zellij"@);
        search_laws::lemma_found_where_it_stands(c, "action"@);
        search_laws::lemma_found_where_it_stands(c, "pipe"@);
        search_laws::lemma_found_where_it_stands(c, "panopt:"@);
    }
}

/// Whether a pane has the focus and is no call that tells of a change.
pub open spec fn has_focus(p: PaneInfoView) -> bool {
    p.is_focused && !is_passing(p)
}

/// Whether a pane with the focus is content that does not float.
pub open spec fn has_content_focus(p: PaneInfoView) -> bool {
    has_focus(p) && !p.is_plugin && p.is_selectable && !p.is_floating
}

/// The focus is on a sidebar where one of the panes with the focus is a plugin. The
/// tab, and whether it floats, are those of the last pane with the focus; the
/// content is the last one with the focus that does not float.
pub proof fn law_focus_is_where_it_was_seen(seen: Seq<(usize, PaneInfoView)>, i: int)
    ensures
        ({
            let f = sidebar_ingest::focus_of(seen);
            &&& f.any <==> exists|k: int| 0 <= k < seen.len() && has_focus((#[trigger] seen[k]).1)
            &&& f.sidebar <==> exists|k: int|
                0 <= k < seen.len() && has_focus((#[trigger] seen[k]).1) && seen[k].1.is_plugin
            &&& !f.any ==> f == (FocusSeen {
                content: None,
                any: false,
                sidebar: false,
                floating: false,
                tab: None,
            })
            &&& 0 <= i < seen.len() && has_focus(seen[i].1) && (forall|k: int|
                i < k < seen.len() ==> !has_focus((#[trigger] seen[k]).1)) ==> f.tab == Some(
                seen[i].0,
            ) && f.floating == seen[i].1.is_floating
            &&& 0 <= i < seen.len() && has_content_focus(seen[i].1) && (forall|k: int|
                i < k < seen.len() ==> !has_content_focus((#[trigger] seen[k]).1)) ==> f.content
                == Some(PaneId::Terminal(seen[i].1.id))
            &&& (forall|k: int|
                0 <= k < seen.len() ==> !has_content_focus((#[trigger] seen[k]).1))
                ==> f.content is None
        }),
    decreases seen.len(),
{
    if seen.len() > 0 {
        let front = seen.drop_last();
        let n = seen.len() - 1;
        let p = seen[n].1;
        law_focus_is_where_it_was_seen(front, i);
        law_panes_are_listed_as_seen(seen[n].0, p);
        let f0 = sidebar_ingest::focus_of(front);
        let f = sidebar_ingest::focus_of(seen);
        assert(f == sidebar_ingest::focus_with(f0, seen[n].0, p));
        assert forall|k: int| 0 <= k < n implies front[k] == #[trigger] seen[k] by {}
        if f0.any {
            let k = choose|k: int| 0 <= k < front.len() && has_focus((#[trigger] front[k]).1);
            assert(has_focus(seen[k].1));
        }
        if f0.sidebar {
            let k = choose|k: int|
                0 <= k < front.len() && has_focus((#[trigger] front[k]).1) && front[k].1.is_plugin;
            assert(has_focus(seen[k].1) && seen[k].1.is_plugin);
        }
        if exists|k: int| 0 <= k < seen.len() && has_focus((#[trigger] seen[k]).1) {
            let k = choose|k: int| 0 <= k < seen.len() && has_focus((#[trigger] seen[k]).1);
            if k < n {
                assert(has_focus(front[k].1));
            }
        }
        if exists|k: int|
            0 <= k < seen.len() && has_focus((#[trigger] seen[k]).1) && seen[k].1.is_plugin {
            let k = choose|k: int|
                0 <= k < seen.len() && has_focus((#[trigger] seen[k]).1) && seen[k].1.is_plugin;
            if k < n {
                assert(has_focus(front[k].1) && front[k].1.is_plugin);
            }
        }
        if 0 <= i < n {
            assert(front[i] == seen[i]);
            if forall|k: int| i < k < seen.len() ==> !has_focus((#[trigger] seen[k]).1) {
                assert(!has_focus(seen[n].1));
                assert forall|k: int| i < k < front.len() implies !has_focus(
                    (#[trigger] front[k]).1,
                ) by {
                    assert(!has_focus(seen[k].1));
                }
            }
            if forall|k: int| i < k < seen.len() ==> !has_content_focus((#[trigger] seen[k]).1) {
                assert(!has_content_focus(seen[n].1));
                assert forall|k: int| i < k < front.len() implies !has_content_focus(
                    (#[trigger] front[k]).1,
                ) by {
                    assert(!has_content_focus(seen[k].1));
                }
            }
        }
        if forall|k: int| 0 <= k < seen.len() ==> !has_content_focus((#[trigger] seen[k]).1) {
            assert(!has_content_focus(seen[n].1));
            assert forall|k: int| 0 <= k < front.len() implies !has_content_focus(
                (#[trigger] front[k]).1,
            ) by {
                assert(!has_content_focus(seen[k].1));
            }
        }
    }
}

/// The focus is kept as it was seen last; the slot follows the content that has
/// it. The sidebar of the todos says where its keys go when that changed, and only
/// then.
pub proof fn law_focus_is_followed(s: PanoptPane, f: FocusSeen)
    ensures
        ({
            let (after, acts) = sidebar_ingest::focus_tracked(s, f);
            &&& f.content is Some ==> after.slot_pane == f.content
            &&& f.content is None ==> after.slot_pane == s.slot_pane
            &&& !f.any ==> after == (PanoptPane { slot_pane: after.slot_pane, ..s }) && acts.len()
                == 0
            &&& f.any ==> {
                &&& after == (PanoptPane {
                    slot_pane: after.slot_pane,
                    sidebar_focused: f.sidebar,
                    focused_is_floating: f.floating,
                    focused_tab: f.tab,
                    last_emitted_locked: after.last_emitted_locked,
                    ..s
                })
                &&& s.mode != Mode::Todos || s.last_emitted_locked == Some(!f.sidebar)
                    ==> acts.len() == 0 && after.last_emitted_locked == s.last_emitted_locked
                &&& s.mode == Mode::Todos && s.last_emitted_locked != Some(!f.sidebar) ==> acts
                    == seq![ActionView::SetLocked(!f.sidebar)] && after.last_emitted_locked == Some(
                    !f.sidebar,
                )
            }
        }),
{
}

/// The slot stays where its pane can be seen; otherwise it is the first viewer that
/// can be seen, or else the first pane that can be.
pub proof fn law_slot_is_where_a_pane_is_seen(s: PanoptPane, i: int)
    ensures
        ({
            let list = s.pane_list();
            let slot = sidebar_ingest::slot_adopted(s);
            let kept = s.slot_pane is Some && exists|k: int|
                0 <= k < list.len() && (#[trigger] list[k]).id == s.slot_pane->0
                    && !list[k].suppressed;
            let viewer = |r: PaneRowView| r.role == PaneRole::Viewer && !r.suppressed;
            &&& kept ==> slot == s.slot_pane
            &&& !kept && 0 <= i < list.len() && viewer(list[i]) && (forall|k: int|
                0 <= k < i ==> !viewer(#[trigger] list[k])) ==> slot == Some(list[i].id)
            &&& !kept && (forall|k: int| 0 <= k < list.len() ==> !viewer(#[trigger] list[k])) && 0
                <= i < list.len() && !list[i].suppressed && (forall|k: int|
                0 <= k < i ==> (#[trigger] list[k]).suppressed) ==> slot == Some(list[i].id)
            &&& !kept && (forall|k: int| 0 <= k < list.len() ==> (#[trigger] list[k]).suppressed)
                ==> slot is None
        }),
{
    let list = s.pane_list();
    if s.slot_pane is Some {
        finding_laws::lemma_first_pane(list, PaneQuery::Visible(s.slot_pane->0));
    }
    finding_laws::lemma_first_pane(list, PaneQuery::VisibleViewer);
    finding_laws::lemma_first_pane(list, PaneQuery::AnyVisible);
}

/// A search dialog is remembered as long as its pane is there.
pub proof fn law_search_dialog_is_kept_while_open(s: PanoptPane)
    ensures
        ({
            let open = s.search_pane is Some && exists|k: int|
                0 <= k < s.pane_list().len() && (#[trigger] s.pane_list()[k]).id
                    == s.search_pane->0;
            &&& open ==> sidebar_ingest::search_kept(s) == s.search_pane
            &&& !open ==> sidebar_ingest::search_kept(s) is None
        }),
{
    if s.search_pane is Some {
        finding_laws::lemma_first_pane(s.pane_list(), PaneQuery::Id(s.search_pane->0));
    }
}

// ---------------------------------------------------------------------------
// Labels
// ---------------------------------------------------------------------------

/// The terminals of agents are those of the panes that are taken for agents.
pub proof fn law_terminals_of_agents(list: Seq<PaneRowView>, t: u64)
    ensures
        sidebar_ingest::agent_terminals(list).contains(t) <==> exists|i: int|
            0 <= i < list.len() && (#[trigger] list[i]).role == PaneRole::Agent
                && list[i].id is Terminal && list[i].id->Terminal_0 == t,
    decreases list.len(),
{
    if list.len() > 0 {
        let front = list.drop_last();
        let n = list.len() - 1;
        law_terminals_of_agents(front, t);
        let before = sidebar_ingest::agent_terminals(front);
        if let PaneId::Terminal(tid) = list[n].id {
            picking::lemma_push_holds(before, tid as u64, t);
        }
        if before.contains(t) {
            let i = choose|i: int|
                0 <= i < front.len() && (#[trigger] front[i]).role == PaneRole::Agent
                    && front[i].id is Terminal && front[i].id->Terminal_0 == t;
            assert(list[i] == front[i]);
        }
        if exists|i: int|
            0 <= i < list.len() && (#[trigger] list[i]).role == PaneRole::Agent
                && list[i].id is Terminal && list[i].id->Terminal_0 == t {
            let i = choose|i: int|
                0 <= i < list.len() && (#[trigger] list[i]).role == PaneRole::Agent
                    && list[i].id is Terminal && list[i].id->Terminal_0 == t;
            if i < n {
                assert(front[i] == list[i]);
            } else {
                assert(list[n] == list.last());
            }
        }
        assert(list[n] == list.last());
    }
}

/// Labels are those of the agents that are there, and no others. One that has a
/// label keeps it; a new one is called an agent, with a number that was not given
/// before.
pub proof fn law_agents_are_labelled(s: PanoptPane, t: u64)
    ensures
        ({
            let had = sidebar_ingest::label_map(s.agent_labels);
            let alive = sidebar_ingest::agent_terminals(s.pane_list());
            let (labels, n) = sidebar_ingest::labels_synced(s);
            &&& labels.dom().contains(t) <==> alive.contains(t)
            &&& alive.contains(t) && had.dom().contains(t) ==> labels[t] == had[t]
            &&& alive.contains(t) && !had.dom().contains(t) ==> exists|k: int|
                s.next_agent < k <= n && labels[t] == "Agent "@ + #[trigger] text::decimal(
                    k as nat,
                )
        }),
{
    let had = sidebar_ingest::label_map(s.agent_labels);
    let alive = sidebar_ingest::agent_terminals(s.pane_list());
    lemma_labelled(
        had.restrict(Set::new(|k: u64| alive.contains(k))),
        s.next_agent as int,
        alive,
        t,
    );
}

/// Terminals get labels one by one.
proof fn lemma_labelled(labels: Map<u64, Seq<char>>, from: int, terminals: Seq<u64>, t: u64)
    ensures
        ({
            let (after, n) = sidebar_ingest::labelled(labels, from, terminals);
            &&& from <= n
            &&& after.dom().contains(t) <==> labels.dom().contains(t) || terminals.contains(t)
            &&& labels.dom().contains(t) ==> after[t] == labels[t]
            &&& terminals.contains(t) && !labels.dom().contains(t) ==> exists|k: int|
                from < k <= n && after[t] == "Agent "@ + #[trigger] text::decimal(k as nat)
        }),
    decreases terminals.len(),
{
    if terminals.len() > 0 {
        let front = terminals.drop_last();
        lemma_labelled(labels, from, front, t);
        picking::lemma_push_holds(front, terminals.last(), t);
        assert(front.push(terminals.last()) =~= terminals);
        let (before, n) = sidebar_ingest::labelled(labels, from, front);
        let (after, m) = sidebar_ingest::labelled(labels, from, terminals);
        if terminals.contains(t) && !labels.dom().contains(t) {
            if front.contains(t) {
                let k = choose|k: int|
                    from < k <= n && before[t] == "Agent "@ + #[trigger] text::decimal(k as nat);
                assert(after[t] == "Agent "@ + text::decimal(k as nat));
            } else {
                assert(after[t] == "Agent "@ + text::decimal((n + 1) as nat));
            }
        }
    }
}

/// Those that were launched and have no pane any more are told to leave, each by
/// its id, in order, and nobody else is.
pub proof fn law_departed_agents_leave(spawned: Seq<(u64, String)>, alive: Seq<u64>) -> (at: Seq<
    int,
>)
    ensures
        ({
            let acts = sidebar_ingest::leave_actions(sidebar_ingest::departed(spawned, alive));
            &&& picking::ascend(at)
            &&& at.len() == acts.len()
            &&& forall|k: int|
                0 <= k < at.len() ==> 0 <= (#[trigger] at[k]) < spawned.len() && acts[k]
                    == ActionView::Run(seq!["_agent-leave"@, "--id"@, spawned[at[k]].1@])
            &&& forall|i: int| #[trigger]
                at.contains(i) <==> 0 <= i < spawned.len() && !alive.contains(spawned[i].0)
        }),
    decreases spawned.len(),
{
    if spawned.len() == 0 {
        Seq::empty()
    } else {
        let front = spawned.drop_last();
        let n = spawned.len() - 1;
        let at0 = law_departed_agents_leave(front, alive);
        let gone0 = sidebar_ingest::departed(front, alive);
        let gone = sidebar_ingest::departed(spawned, alive);
        let out0 = sidebar_ingest::leave_actions(gone0);
        let out = sidebar_ingest::leave_actions(gone);
        let at = if alive.contains(spawned[n].0) {
            at0
        } else {
            at0.push(n)
        };
        presence_laws::lemma_grown(at0, n);
        assert forall|k: int| 0 <= k < at.len() implies 0 <= (#[trigger] at[k]) < spawned.len()
            && out[k] == ActionView::Run(seq!["_agent-leave"@, "--id"@, spawned[at[k]].1@]) by {
            if k < at0.len() {
                assert(at0[k] == at[k]);
                assert(front[at0[k]] == spawned[at[k]]);
                assert(gone0[k] == gone[k]);
                assert(out0[k] == out[k]);
            }
        }
        assert forall|i: int| #[trigger] at.contains(i) <==> 0 <= i < spawned.len()
            && !alive.contains(spawned[i].0) by {
            picking::lemma_push_holds(at0, n, i);
            let _ = at0.contains(i);
            if 0 <= i < front.len() {
                assert(front[i] == spawned[i]);
            }
        }
        at
    }
}

/// Labels that are read replace those that there are for the same terminals, the
/// last one read where there are several; the others stay.
pub proof fn law_labels_are_read_over(
    labels: Map<u64, Seq<char>>,
    read: Seq<(u32, Seq<char>)>,
    t: u64,
    i: int,
)
    ensures
        ({
            let after = sidebar_ingest::labels_merged(labels, read);
            &&& 0 <= i < read.len() && read[i].0 == t && (forall|k: int|
                i < k < read.len() ==> (#[trigger] read[k]).0 != t) ==> after.dom().contains(t)
                && after[t] == read[i].1
            &&& (forall|k: int| 0 <= k < read.len() ==> (#[trigger] read[k]).0 != t) ==> (
            after.dom().contains(t) <==> labels.dom().contains(t)) && after[t] == labels[t]
        }),
    decreases read.len(),
{
    if read.len() > 0 {
        let front = read.drop_last();
        let n = read.len() - 1;
        law_labels_are_read_over(labels, front, t, i);
        assert forall|k: int| 0 <= k < n implies front[k] == #[trigger] read[k] by {}
        if 0 <= i < n && read[i].0 == t && (forall|k: int|
            i < k < read.len() ==> (#[trigger] read[k]).0 != t) {
            assert(read[n].0 != t);
            assert(front[i].0 == t);
            assert forall|k: int| i < k < front.len() implies (#[trigger] front[k]).0 != t by {
                assert(read[k].0 != t);
            }
        }
        if forall|k: int| 0 <= k < read.len() ==> (#[trigger] read[k]).0 != t {
            assert(read[n].0 != t);
            assert forall|k: int| 0 <= k < front.len() implies (#[trigger] front[k]).0 != t by {
                assert(read[k].0 != t);
            }
        }
    }
}

/// With each look at the panes the agents that went are told to leave, where that
/// can be done, and then the sidebar of the todos writes the labels down for the
/// others; nothing else is done.
pub proof fn law_labels_are_written_down(s: PanoptPane, labels: IdMap<String>)
    ensures
        ({
            let acts = sidebar_ingest::sync_label_actions(s, labels);
            let leave = sidebar_ingest::leave_actions(
                sidebar_ingest::departed(
                    s.agent_pane_ids.list(),
                    sidebar_ingest::agent_terminals(s.pane_list()),
                ),
            );
            let write = ActionView::WriteLabels(
                wire::labels_text(
                    Seq::new(
                        labels.list().len(),
                        |i: int| (labels.list()[i].0 as u32, labels.list()[i].1@),
                    ),
                ),
            );
            let may = s.permitted && s.ws is Some;
            &&& may && s.mode == Mode::Todos ==> acts == leave.push(write)
            &&& may && s.mode != Mode::Todos ==> acts == leave
            &&& !may && s.mode == Mode::Todos ==> acts == seq![write]
            &&& !may && s.mode != Mode::Todos ==> acts.len() == 0
        }),
{
    let acts = sidebar_ingest::sync_label_actions(s, labels);
    let leave = sidebar_ingest::leave_actions(
        sidebar_ingest::departed(
            s.agent_pane_ids.list(),
            sidebar_ingest::agent_terminals(s.pane_list()),
        ),
    );
    let listed = Seq::new(
        labels.list().len(),
        |i: int| (labels.list()[i].0 as u32, labels.list()[i].1@),
    );
    assert(sidebar_gate::label_list(labels) =~= listed);
    let write = ActionView::WriteLabels(wire::labels_text(listed));
    assert(leave + seq![write] =~= leave.push(write));
    assert(Seq::<ActionView>::empty() + seq![write] =~= seq![write]);
    assert(leave + Seq::<ActionView>::empty() =~= leave);
}

/// A look at the panes has their titles set at the end, and leaves the records, the
/// items and the cursor as they are.
pub proof fn law_titles_follow_a_look_at_the_panes(
    s: PanoptPane,
    tabs: Seq<(usize, Vec<PaneInfo>)>,
    after: PanoptPane,
    acts: Seq<ActionView>,
)
    requires
        sidebar_ingest::ingests_to(s, tabs, after, acts),
    ensures
        acts.len() > 0,
        acts.last() == ActionView::SyncPaneTitles,
        after.mode == s.mode && after.todos == s.todos && after.notes == s.notes && after.items
            == s.items && after.cursor == s.cursor && after.scroll == s.scroll && after.processes
            == s.processes && after.configs == s.configs,
{
}

} // verus!
