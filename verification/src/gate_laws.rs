//! Closing and quitting: running work is lost only after the user was asked.

use vstd::prelude::*;
use vstd::string::*;

use crate::finding_laws;
use crate::host::{ActionView, PaneId};
use crate::panes;
use crate::panes::PaneRole;
use crate::picking;
use crate::sidebar;
use crate::sidebar::{PaneQuery, PaneRowView, PanoptPane};
use crate::sidebar_gate;
use crate::sidebar_gate::{ActiveItemView, ActiveKind};
use crate::sidebar_items;
use crate::text;

verus! {

/// Whether a pane runs a program that is not a user's shell, as the multiplexer
/// tells it: the first word that it tells of the pane.
pub open spec fn runs_program(running: Seq<(PaneId, Seq<Seq<char>>)>, pane: PaneId) -> bool {
    exists|i: int|
        0 <= i < running.len() && (#[trigger] running[i]).0 == pane && (forall|j: int|
            0 <= j < i ==> (#[trigger] running[j]).0 != pane) && running[i].1.len() > 0
            && !panes::shell_name(sidebar_gate::base_name(running[i].1[0]))
}

/// Whether a process row is the one of a number: the first that has it.
pub open spec fn is_row(s: PanoptPane, i: int, id: u64) -> bool {
    0 <= i < s.process_list().len() && s.process_list()[i].id == id && forall|j: int|
        0 <= j < i ==> (#[trigger] s.process_list()[j]).id != id
}

/// Whether a pane is at work: it has not exited, it is no viewer, and it runs
/// an agent or a command, or a program other than a shell.
pub open spec fn is_busy(
    s: PanoptPane,
    running: Seq<(PaneId, Seq<Seq<char>>)>,
    p: PaneRowView,
) -> bool {
    &&& !p.exited
    &&& p.role != PaneRole::Viewer
    &&& {
        ||| exists|i: int| #[trigger]
            is_row(s, i, p.role->Process_0) && p.role is Process && (s.process_list()[i].kind
                == "agent"@ || s.process_list()[i].kind == "command"@ || (s.process_list()[i].kind
                == "terminal"@ && runs_program(running, p.id)))
        ||| runs_program(running, p.id) && (p.role is Process ==> forall|j: int|
            0 <= j < s.process_list().len() ==> (#[trigger] s.process_list()[j]).id
                != p.role->Process_0)
    }
}

/// Whether the list has a pane at a place, the first with its id.
pub open spec fn is_pane(s: PanoptPane, i: int, pane: PaneId) -> bool {
    0 <= i < s.pane_list().len() && s.pane_list()[i].id == pane && forall|j: int|
        0 <= j < i ==> (#[trigger] s.pane_list()[j]).id != pane
}

/// The command of a pane that is at work is no shell.
proof fn lemma_terminal_work(
    running: Seq<(PaneId, Seq<Seq<char>>)>,
    pane: PaneId,
    label: Seq<char>,
)
    ensures
        sidebar_gate::terminal_work(sidebar_gate::command_of(running, pane), label) == (
        if runs_program(running, pane) {
            Some(ActiveItemView { label, kind: ActiveKind::Terminal })
        } else {
            None
        }),
    decreases running.len(),
{
    if running.len() > 0 {
        let rest = running.drop_first();
        assert forall|j: int| 0 < j < running.len() implies #[trigger] running[j] == rest[j
            - 1] by {}
        if running[0].0 != pane {
            lemma_terminal_work(rest, pane, label);
            if runs_program(rest, pane) {
                let i = choose|i: int|
                    0 <= i < rest.len() && (#[trigger] rest[i]).0 == pane && (forall|j: int|
                        0 <= j < i ==> (#[trigger] rest[j]).0 != pane) && rest[i].1.len() > 0
                        && !panes::shell_name(sidebar_gate::base_name(rest[i].1[0]));
                assert(running[i + 1].0 == pane);
            }
            if runs_program(running, pane) {
                let i = choose|i: int|
                    0 <= i < running.len() && (#[trigger] running[i]).0 == pane && (forall|j: int|
                        0 <= j < i ==> (#[trigger] running[j]).0 != pane) && running[i].1.len() > 0
                        && !panes::shell_name(sidebar_gate::base_name(running[i].1[0]));
                assert(rest[i - 1].0 == pane);
                assert forall|j: int| 0 <= j < i - 1 implies (#[trigger] rest[j]).0 != pane by {
                    assert(running[j + 1].0 != pane);
                }
            }
        } else {
            if runs_program(running, pane) {
                let i = choose|i: int|
                    0 <= i < running.len() && (#[trigger] running[i]).0 == pane && (forall|j: int|
                        0 <= j < i ==> (#[trigger] running[j]).0 != pane) && running[i].1.len() > 0
                        && !panes::shell_name(sidebar_gate::base_name(running[i].1[0]));
                if i > 0 {
                    assert(running[0].0 != pane);
                }
            } else if running[0].1.len() > 0 {
                assert(running[0].0 == pane);
            }
        }
    }
}

/// Closing a pane loses work exactly where it is at work; an agent and a
/// command are lost as such, under the label of their row.
pub proof fn law_work_is_lost_where_a_pane_is_busy(
    s: PanoptPane,
    running: Seq<(PaneId, Seq<Seq<char>>)>,
    pane: PaneId,
)
    ensures
        sidebar_gate::work_in(s, running, pane) is Some <==> exists|i: int| #[trigger]
            is_pane(s, i, pane) && is_busy(s, running, s.pane_list()[i]),
        forall|i: int, k: int| #[trigger]
            is_pane(s, i, pane) && !s.pane_list()[i].exited && s.pane_list()[i].role is Process
                && #[trigger] is_row(s, k, s.pane_list()[i].role->Process_0) ==> {
                let r = s.process_list()[k];
                &&& r.kind == "agent"@ ==> sidebar_gate::work_in(s, running, pane) == Some(
                    ActiveItemView { label: r.label, kind: ActiveKind::Agent },
                )
                &&& r.kind == "command"@ ==> sidebar_gate::work_in(s, running, pane) == Some(
                    ActiveItemView { label: r.label, kind: ActiveKind::Command },
                )
                &&& r.kind == "terminal"@ && runs_program(running, pane)
                    ==> sidebar_gate::work_in(s, running, pane) == Some(
                    ActiveItemView { label: r.label, kind: ActiveKind::Terminal },
                )
            },
{
    reveal_strlit("agent");
    reveal_strlit("command");
    reveal_strlit("terminal");
    assert("agent"@.len() == 5 && "command"@.len() == 7 && "terminal"@.len() == 8);
    finding_laws::law_pane_is_found_by_id(s.pane_list(), pane);
    if let Some(p) = sidebar::first_pane(s.pane_list(), PaneQuery::Id(pane)) {
        let i = choose|i: int|
            0 <= i < s.pane_list().len() && #[trigger] s.pane_list()[i] == p && p.id == pane
                && forall|j: int| 0 <= j < i ==> (#[trigger] s.pane_list()[j]).id != pane;
        assert(is_pane(s, i, pane));
        assert forall|x: int| #[trigger] is_pane(s, x, pane) implies x == i by {
            if x < i {
                assert(s.pane_list()[x].id != pane);
            }
            if i < x {
                assert(s.pane_list()[i].id != pane);
            }
        }
        let label = if p.role == PaneRole::Agent {
            sidebar_items::agent_label_text(s.agent_labels, p)
        } else {
            sidebar_items::pane_label_text(p)
        };
        lemma_terminal_work(running, pane, label);
        if let PaneRole::Process(id) = p.role {
            finding_laws::law_process_is_found_by_id(s.process_list(), id);
            match sidebar::process_in(s.process_list(), id) {
                Some(r) => {
                    let k = choose|k: int|
                        0 <= k < s.process_list().len() && #[trigger] s.process_list()[k] == r
                            && r.id == id && forall|j: int|
                            0 <= j < k ==> (#[trigger] s.process_list()[j]).id != id;
                    assert(is_row(s, k, id));
                    assert(s.process_list()[k].id == id);
                    assert forall|x: int| #[trigger] is_row(s, x, id) implies x == k by {
                        if x < k {
                            assert(s.process_list()[x].id != id);
                        }
                        if k < x {
                            assert(s.process_list()[k].id != id);
                        }
                    }
                    lemma_terminal_work(running, pane, r.label);
                    if is_busy(s, running, p) {
                        assert(s.process_list()[k].id == p.role->Process_0);
                    }
                },
                None => {
                    assert forall|x: int| !(#[trigger] is_row(s, x, id)) by {}
                },
            }
        }
    }
}

/// Among the panes of a scope, those at work are listed, each once, in their
/// order.
proof fn lemma_work_among(
    s: PanoptPane,
    running: Seq<(PaneId, Seq<Seq<char>>)>,
    tab: Option<usize>,
    list: Seq<PaneRowView>,
) -> (at: Seq<int>)
    ensures
        ({
            let out = sidebar_gate::work_among(s, running, tab, list);
            &&& picking::ascend(at)
            &&& at.len() == out.len()
            &&& forall|m: int|
                0 <= m < at.len() ==> 0 <= (#[trigger] at[m]) < list.len()
                    && sidebar_gate::work_in(s, running, list[at[m]].id) == Some(out[m])
            &&& forall|i: int| #[trigger]
                at.contains(i) <==> 0 <= i < list.len() && (tab is None || tab == Some(list[i].tab))
                    && sidebar_gate::work_in(s, running, list[i].id) is Some
        }),
    decreases list.len(),
{
    if list.len() == 0 {
        Seq::empty()
    } else {
        let front = list.drop_last();
        let n = list.len() - 1;
        let p = list.last();
        let at0 = lemma_work_among(s, running, tab, front);
        let out = sidebar_gate::work_among(s, running, tab, list);
        let out0 = sidebar_gate::work_among(s, running, tab, front);
        if (tab is None || tab == Some(p.tab)) && sidebar_gate::work_in(s, running, p.id) is Some {
            let at = at0.push(n);
            assert forall|m: int| 0 <= m < at.len() implies 0 <= (#[trigger] at[m]) < list.len()
                && sidebar_gate::work_in(s, running, list[at[m]].id) == Some(out[m]) by {
                if m < at0.len() {
                    assert(at0[m] == at[m]);
                    assert(front[at0[m]] == list[at[m]]);
                    assert(out[m] == out0[m]);
                }
            }
            assert forall|i: int, j: int| 0 <= i < j < at.len() implies (#[trigger] at[i]) < (
            #[trigger] at[j]) by {
                assert(at0[i] == at[i]);
                if j < at0.len() {
                    assert(at0[j] == at[j]);
                }
            }
            assert forall|i: int| #[trigger] at.contains(i) <==> 0 <= i < list.len() && (tab is None
                || tab == Some(list[i].tab)) && sidebar_gate::work_in(s, running, list[i].id)
                is Some by {
                picking::lemma_push_holds(at0, n, i);
                let _ = at0.contains(i);
                if 0 <= i < front.len() {
                    assert(front[i] == list[i]);
                }
            }
            at
        } else {
            assert(out == out0);
            assert forall|m: int| 0 <= m < at0.len() implies front[#[trigger] at0[m]]
                == list[at0[m]] by {}
            assert forall|i: int| #[trigger] at0.contains(i) <==> 0 <= i < list.len() && (
            tab is None || tab == Some(list[i].tab)) && sidebar_gate::work_in(
                s,
                running,
                list[i].id,
            ) is Some by {
                if 0 <= i < front.len() {
                    assert(front[i] == list[i]);
                }
            }
            at0
        }
    }
}

/// There is content to spare where two panes are neither floating nor exited.
proof fn lemma_content_count(list: Seq<PaneRowView>)
    ensures
        sidebar_gate::content_count(list) > 0 <==> exists|i: int|
            0 <= i < list.len() && !(#[trigger] list[i]).floating && !list[i].exited,
        sidebar_gate::content_count(list) > 1 <==> exists|i: int, j: int|
            0 <= i < j < list.len() && !(#[trigger] list[i]).floating && !list[i].exited
                && !(#[trigger] list[j]).floating && !list[j].exited,
    decreases list.len(),
{
    if list.len() > 0 {
        let front = list.drop_last();
        let n = list.len() - 1;
        lemma_content_count(front);
        assert forall|i: int| 0 <= i < front.len() implies front[i] == list[i] by {}
        if sidebar_gate::content_count(front) > 0 {
            let i = choose|i: int|
                0 <= i < front.len() && !(#[trigger] front[i]).floating && !front[i].exited;
            assert(!list[i].floating && !list[i].exited);
            if !list[n].floating && !list[n].exited {
                assert(!list[i].floating && !list[n].floating);
            }
        }
        if sidebar_gate::content_count(front) > 1 {
            let (i, j) = choose|i: int, j: int|
                0 <= i < j < front.len() && !(#[trigger] front[i]).floating && !front[i].exited
                    && !(#[trigger] front[j]).floating && !front[j].exited;
            assert(!list[i].floating && !list[j].floating);
        }
        if !list[n].floating && !list[n].exited {
            assert(!list[n].floating);
        }
        if exists|i: int, j: int|
            0 <= i < j < list.len() && !(#[trigger] list[i]).floating && !list[i].exited
                && !(#[trigger] list[j]).floating && !list[j].exited {
            let (i, j) = choose|i: int, j: int|
                0 <= i < j < list.len() && !(#[trigger] list[i]).floating && !list[i].exited
                    && !(#[trigger] list[j]).floating && !list[j].exited;
            assert(front[i] == list[i]);
            assert(!front[i].floating);
            if j < n {
                assert(front[j] == list[j]);
                assert(!front[j].floating);
            }
        }
        if exists|i: int| 0 <= i < list.len() && !(#[trigger] list[i]).floating && !list[i].exited {
            let i = choose|i: int|
                0 <= i < list.len() && !(#[trigger] list[i]).floating && !list[i].exited;
            if i < n {
                assert(front[i] == list[i]);
                assert(!front[i].floating);
            }
        }
    }
}

/// A request to close the focused pane closes the pane in the slot, without a
/// question, exactly where that is permitted, the focus is not in the sidebar,
/// another content pane is left, and the pane is not at work. It closes no other
/// pane, no tab and not the session.
pub proof fn law_closing_a_pane(
    s: PanoptPane,
    running: Seq<(PaneId, Seq<Seq<char>>)>,
    pane: PaneId,
)
    ensures
        sidebar_gate::focus_gated(s, running).1.contains(ActionView::Close(pane)) <==> {
            &&& s.permitted
            &&& !s.sidebar_focused
            &&& s.slot_pane == Some(pane)
            &&& exists|i: int, j: int|
                0 <= i < j < s.pane_list().len() && !(#[trigger] s.pane_list()[i]).floating
                    && !s.pane_list()[i].exited && !(#[trigger] s.pane_list()[j]).floating
                    && !s.pane_list()[j].exited
            &&& forall|i: int| #[trigger]
                is_pane(s, i, pane) ==> !is_busy(s, running, s.pane_list()[i])
        },
        !sidebar_gate::focus_gated(s, running).1.contains(ActionView::CloseTab),
        !sidebar_gate::focus_gated(s, running).1.contains(ActionView::Quit),
{
    lemma_content_count(s.pane_list());
    law_work_is_lost_where_a_pane_is_busy(s, running, pane);
    let acts = sidebar_gate::focus_gated(s, running).1;
    assert(acts.len() <= 1);
    if acts.len() == 1 {
        assert(acts.contains(acts[0]));
        assert forall|a: ActionView| acts.contains(a) implies a == acts[0] by {}
    }
}

/// A tab is closed, and the session quit, without a question exactly where that
/// is permitted and no pane in the tab, or in the session, is at work.
#[verifier::spinoff_prover]
#[verifier::rlimit(80)]
pub proof fn law_closing_a_tab_and_quitting(
    s: PanoptPane,
    running: Seq<(PaneId, Seq<Seq<char>>)>,
)
    ensures
        sidebar_gate::tab_gated(s, running).1.contains(ActionView::CloseTab) <==> {
            &&& s.permitted
            &&& s.focused_tab is Some
            &&& forall|k: int, i: int|
                0 <= k < s.pane_list().len() && s.focused_tab == Some(
                    (#[trigger] s.pane_list()[k]).tab,
                ) && #[trigger] is_pane(s, i, s.pane_list()[k].id) ==> !is_busy(
                    s,
                    running,
                    s.pane_list()[i],
                )
        },
        sidebar_gate::quit_gated(s, running).1.contains(ActionView::Quit) <==> {
            &&& s.permitted
            &&& forall|k: int, i: int|
                0 <= k < s.pane_list().len() && #[trigger] is_pane(
                    s,
                    i,
                    (#[trigger] s.pane_list()[k]).id,
                ) ==> !is_busy(s, running, s.pane_list()[i])
        },
        !sidebar_gate::tab_gated(s, running).1.contains(ActionView::Quit),
        !sidebar_gate::quit_gated(s, running).1.contains(ActionView::CloseTab),
{
    let list = s.pane_list();
    let in_tab = lemma_work_among(s, running, s.focused_tab, list);
    let anywhere = lemma_work_among(s, running, None, list);
    let tab_acts = sidebar_gate::tab_gated(s, running).1;
    let quit_acts = sidebar_gate::quit_gated(s, running).1;
    assert forall|k: int| 0 <= k < list.len() implies (sidebar_gate::work_in(
        s,
        running,
        (#[trigger] list[k]).id,
    ) is Some <==> exists|i: int| #[trigger]
        is_pane(s, i, list[k].id) && is_busy(s, running, list[i])) by {
        law_work_is_lost_where_a_pane_is_busy(s, running, list[k].id);
    }
    if in_tab.len() > 0 {
        assert(in_tab.contains(in_tab[0]));
    }
    if anywhere.len() > 0 {
        assert(anywhere.contains(anywhere[0]));
    }
    assert forall|k: int| 0 <= k < list.len() && sidebar_gate::work_in(
        s,
        running,
        (#[trigger] list[k]).id,
    ) is Some implies anywhere.len() > 0 && (s.focused_tab == Some(list[k].tab) ==> in_tab.len()
        > 0) by {
        assert(anywhere.contains(k));
        if s.focused_tab == Some(list[k].tab) {
            assert(in_tab.contains(k));
        }
    }
    if tab_acts.len() > 0 {
        assert(tab_acts.contains(tab_acts[0]));
        assert forall|a: ActionView| tab_acts.contains(a) implies a == tab_acts[0] by {}
    }
    if quit_acts.len() > 0 {
        assert(quit_acts.contains(quit_acts[0]));
        assert forall|a: ActionView| quit_acts.contains(a) implies a == quit_acts[0] by {}
    }
}

/// A label as the dialog names it: what separates its items is replaced, each
/// semicolon by a comma and each colon by a hyphen.
pub open spec fn plainly(label: Seq<char>) -> Seq<char> {
    label.map_values(
        |c: char|
            if c == ';' {
                ','
            } else if c == ':' {
                '-'
            } else {
                c
            },
    )
}

/// Replacing one character by another goes character by character.
pub proof fn lemma_replaced_each(s: Seq<char>, a: char, b: char)
    ensures
        text::replaced(s, seq![a], seq![b]) == s.map_values(
            |c: char|
                if c == a {
                    b
                } else {
                    c
                },
        ),
    decreases s.len(),
{
    let f = |c: char|
        if c == a {
            b
        } else {
            c
        };
    if s.len() == 0 {
        assert(text::find_seq(s, seq![a]) is None);
        assert(text::pieces(s, seq![a]) =~= seq![s]);
        assert(s.map_values(f) =~= s);
    } else {
        let t = s.drop_first();
        lemma_replaced_each(t, a, b);
        assert(s =~= seq![s[0]] + t);
        if s[0] == a {
            text::lemma_replaced_at(t, seq![a], seq![b]);
        } else {
            text::lemma_occurs_char(s, a, 0);
            text::lemma_replaced_past(seq![s[0]], t, seq![a], seq![b]);
        }
        assert(s.map_values(f) =~= seq![f(s[0])] + t.map_values(f));
    }
}

/// An item stands in the words of the dialog under its kind and its label.
pub proof fn law_dialog_item_names_kind_and_label(a: ActiveItemView)
    ensures
        sidebar_gate::dialog_item(a) == (match a.kind {
            ActiveKind::Agent => "agent:"@,
            ActiveKind::Command => "command:"@,
            ActiveKind::Terminal => "terminal:"@,
        }) + plainly(a.label),
{
    reveal_strlit("agent");
    reveal_strlit("command");
    reveal_strlit("terminal");
    reveal_strlit("agent:");
    reveal_strlit("command:");
    reveal_strlit("terminal:");
    reveal_strlit(":");
    reveal_strlit(";");
    reveal_strlit(",");
    reveal_strlit("-");
    assert(":"@ =~= seq![':'] && ";"@ =~= seq![';'] && ","@ =~= seq![','] && "-"@ =~= seq!['-']);
    lemma_replaced_each(a.label, ';', ',');
    let once = text::replaced(a.label, ";"@, ","@);
    lemma_replaced_each(once, ':', '-');
    assert(text::replaced(once, ":"@, "-"@) =~= plainly(a.label));
    assert("agent"@ + ":"@ =~= "agent:"@);
    assert("command"@ + ":"@ =~= "command:"@);
    assert("terminal"@ + ":"@ =~= "terminal:"@);
}

/// Whether a request was answered with the dialog that asks before work is
/// lost: it is floated, and nothing else is asked for. The dialog is told the
/// scope, what would be lost, the port, and which pane is meant.
pub open spec fn asks(
    acts: Seq<ActionView>,
    scope: Seq<char>,
    items: Seq<char>,
    port: Seq<char>,
    target: Option<PaneId>,
) -> bool {
    acts == seq![
        ActionView::OpenFloating(
            seq!["_close-gate"@, "--scope"@, scope, "--items"@, items, "--port"@, port] + (
            match target {
                Some(PaneId::Terminal(t)) => seq!["--target-pane"@, text::decimal(t as nat)],
                _ => seq![],
            }),
        ),
    ]
}

/// Where the pane in the slot is at work and could be closed otherwise, the
/// dialog is floated and names it. Until something can be launched the request
/// is refused. The pane is not closed either way.
pub proof fn law_work_in_the_slot_is_asked_about(
    s: PanoptPane,
    running: Seq<(PaneId, Seq<Seq<char>>)>,
    pane: PaneId,
    i: int,
)
    requires
        s.permitted,
        !s.sidebar_focused,
        s.slot_pane == Some(pane),
        sidebar_gate::content_count(s.pane_list()) > 1,
        is_pane(s, i, pane),
        is_busy(s, running, s.pane_list()[i]),
    ensures
        !sidebar_gate::focus_gated(s, running).1.contains(ActionView::Close(pane)),
        s.ws is Some ==> exists|item: ActiveItemView|
            sidebar_gate::work_in(s, running, pane) == Some(item) && #[trigger] asks(
                sidebar_gate::focus_gated(s, running).1,
                "focus"@,
                sidebar_gate::dialog_item(item),
                s.port@,
                Some(pane),
            ),
        s.ws is None ==> sidebar_gate::focus_gated(s, running).0.last_gate_refusal is Some,
{
    law_work_is_lost_where_a_pane_is_busy(s, running, pane);
    law_closing_a_pane(s, running, pane);
    let item = sidebar_gate::work_in(s, running, pane)->0;
    if s.ws is Some {
        assert(seq![item].map_values(|a: ActiveItemView| sidebar_gate::dialog_item(a))
            =~= seq![sidebar_gate::dialog_item(item)]);
        assert(asks(
            sidebar_gate::focus_gated(s, running).1,
            "focus"@,
            sidebar_gate::dialog_item(item),
            s.port@,
            Some(pane),
        ));
    }
}

/// Where a pane of the session is at work, quitting floats the dialog, and so
/// does closing its tab. The dialog names every pane of its scope that is at
/// work, with a semicolon between two, and no others.
#[verifier::spinoff_prover]
#[verifier::rlimit(80)]
pub proof fn law_work_in_a_scope_is_asked_about(
    s: PanoptPane,
    running: Seq<(PaneId, Seq<Seq<char>>)>,
    k: int,
    i: int,
) -> (r: (Seq<int>, Seq<int>))
    requires
        s.permitted,
        s.ws is Some,
        0 <= k < s.pane_list().len(),
        is_pane(s, i, s.pane_list()[k].id),
        is_busy(s, running, s.pane_list()[i]),
    ensures
        ({
            let list = s.pane_list();
            let (in_tab, anywhere) = r;
            &&& forall|x: int| #[trigger]
                anywhere.contains(x) <==> 0 <= x < list.len() && exists|y: int| #[trigger]
                    is_pane(s, y, list[x].id) && is_busy(s, running, list[y])
            &&& forall|x: int| #[trigger]
                in_tab.contains(x) <==> 0 <= x < list.len() && s.focused_tab == Some(list[x].tab)
                    && exists|y: int| #[trigger]
                    is_pane(s, y, list[x].id) && is_busy(s, running, list[y])
            &&& asks(
                sidebar_gate::quit_gated(s, running).1,
                "quit"@,
                text::joined(
                    anywhere.map_values(
                        |x: int|
                            sidebar_gate::dialog_item(
                                sidebar_gate::work_in(s, running, list[x].id)->0,
                            ),
                    ),
                    ";"@,
                ),
                s.port@,
                None,
            )
            &&& s.focused_tab == Some(list[k].tab) ==> asks(
                sidebar_gate::tab_gated(s, running).1,
                "tab"@,
                text::joined(
                    in_tab.map_values(
                        |x: int|
                            sidebar_gate::dialog_item(
                                sidebar_gate::work_in(s, running, list[x].id)->0,
                            ),
                    ),
                    ";"@,
                ),
                s.port@,
                None,
            )
        }),
{
    let list = s.pane_list();
    let anywhere = lemma_work_among(s, running, None, list);
    let in_tab = if s.focused_tab is Some {
        lemma_work_among(s, running, s.focused_tab, list)
    } else {
        Seq::empty()
    };
    assert forall|x: int| 0 <= x < list.len() implies (sidebar_gate::work_in(
        s,
        running,
        (#[trigger] list[x]).id,
    ) is Some <==> exists|y: int| #[trigger]
        is_pane(s, y, list[x].id) && is_busy(s, running, list[y])) by {
        law_work_is_lost_where_a_pane_is_busy(s, running, list[x].id);
    }
    assert(anywhere.contains(k));
    let name = |x: int|
        sidebar_gate::dialog_item(sidebar_gate::work_in(s, running, list[x].id)->0);
    let all = sidebar_gate::work_among(s, running, None, list);
    assert(all.map_values(|a: ActiveItemView| sidebar_gate::dialog_item(a))
        =~= anywhere.map_values(name));
    if s.focused_tab == Some(list[k].tab) {
        assert(in_tab.contains(k));
        let some = sidebar_gate::work_among(s, running, s.focused_tab, list);
        assert(some.map_values(|a: ActiveItemView| sidebar_gate::dialog_item(a))
            =~= in_tab.map_values(name));
    }
    (in_tab, anywhere)
}

/// An agent's or a command's pane that has not exited is never closed without a
/// question, and neither is its tab or the session.
pub proof fn law_agents_and_commands_are_not_lost(
    s: PanoptPane,
    running: Seq<(PaneId, Seq<Seq<char>>)>,
    i: int,
    k: int,
)
    requires
        0 <= i < s.pane_list().len(),
        0 <= k < s.process_list().len(),
        forall|j: int| 0 <= j < i ==> (#[trigger] s.pane_list()[j]).id != s.pane_list()[i].id,
        forall|j: int|
            0 <= j < k ==> (#[trigger] s.process_list()[j]).id != s.process_list()[k].id,
        s.pane_list()[i].role == PaneRole::Process(s.process_list()[k].id),
        !s.pane_list()[i].exited,
        s.process_list()[k].kind == "agent"@ || s.process_list()[k].kind == "command"@,
    ensures
        !sidebar_gate::focus_gated(s, running).1.contains(ActionView::Close(s.pane_list()[i].id)),
        s.focused_tab == Some(s.pane_list()[i].tab) ==> !sidebar_gate::tab_gated(
            s,
            running,
        ).1.contains(ActionView::CloseTab),
        !sidebar_gate::quit_gated(s, running).1.contains(ActionView::Quit),
{
    let p = s.pane_list()[i];
    assert(is_pane(s, i, p.id));
    assert(is_row(s, k, p.role->Process_0));
    assert(is_busy(s, running, p));
    law_closing_a_pane(s, running, p.id);
    law_closing_a_tab_and_quitting(s, running);
}

/// The shells that a pane may be left in are these ten and no others.
pub proof fn law_shells(name: Seq<char>)
    ensures
        panes::shell_name(name) <==> seq![
            "ash"@,
            "bash"@,
            "dash"@,
            "elvish"@,
            "fish"@,
            "ksh"@,
            "nu"@,
            "sh"@,
            "tcsh"@,
            "zsh"@,
        ].contains(name),
{
    let all = seq![
        "ash"@,
        "bash"@,
        "dash"@,
        "elvish"@,
        "fish"@,
        "ksh"@,
        "nu"@,
        "sh"@,
        "tcsh"@,
        "zsh"@,
    ];
    assert(all[0] == "ash"@ && all[1] == "bash"@ && all[2] == "dash"@ && all[3] == "elvish"@
        && all[4] == "fish"@ && all[5] == "ksh"@ && all[6] == "nu"@ && all[7] == "sh"@ && all[8]
        == "tcsh"@ && all[9] == "zsh"@);
}

} // verus!
