//! What selecting, stopping and deleting items comes to: which pane or document
//! is shown where, and what is asked before something is lost.

use vstd::prelude::*;
use vstd::string::*;

use crate::finding_laws;
use crate::host::{ActionView, Document, PaneId, Purpose};
use crate::modes::Mode;
use crate::panes::PaneRole;
use crate::sidebar;
use crate::sidebar::{ItemTarget, PaneQuery, PanoptPane};
use crate::sidebar_gate;
use crate::sidebar_slots;
use crate::text;

verus! {

/// Whether a pane is listed and not hidden.
pub open spec fn is_shown(s: PanoptPane, pane: PaneId) -> bool {
    exists|i: int|
        0 <= i < s.pane_list().len() && (#[trigger] s.pane_list()[i]).id == pane
            && !s.pane_list()[i].suppressed
}

/// Whether a pane is listed as a viewer with a routing slot: the first pane of
/// the list with its id has one.
pub open spec fn is_viewer_with(s: PanoptPane, pane: PaneId, name: Seq<char>) -> bool {
    exists|i: int|
        0 <= i < s.pane_list().len() && (#[trigger] s.pane_list()[i]).id == pane
            && s.pane_list()[i].viewer_slot == Some(name) && forall|j: int|
            0 <= j < i ==> (#[trigger] s.pane_list()[j]).id != pane
}

/// The routing slot of a pane is the one that the list gives it.
proof fn lemma_slot_name_of(s: PanoptPane, pane: PaneId)
    ensures
        match s.slot_name_of(pane) {
            Some(name) => is_viewer_with(s, pane, name),
            None => forall|name: Seq<char>| !is_viewer_with(s, pane, name),
        },
{
    finding_laws::law_pane_is_found_by_id(s.pane_list(), pane);
    if let Some(p) = sidebar::first_pane(s.pane_list(), PaneQuery::Id(pane)) {
        let i = choose|i: int|
            0 <= i < s.pane_list().len() && #[trigger] s.pane_list()[i] == p && p.id == pane
                && forall|j: int| 0 <= j < i ==> (#[trigger] s.pane_list()[j]).id != pane;
        assert(s.pane_list()[i].id == pane);
        assert forall|name: Seq<char>| is_viewer_with(s, pane, name) implies p.viewer_slot == Some(
            name,
        ) by {
            let k = choose|k: int|
                0 <= k < s.pane_list().len() && (#[trigger] s.pane_list()[k]).id == pane
                    && s.pane_list()[k].viewer_slot == Some(name) && forall|j: int|
                    0 <= j < k ==> (#[trigger] s.pane_list()[j]).id != pane;
            if k < i {
                assert(s.pane_list()[k].id != pane);
            }
            if i < k {
                assert(s.pane_list()[i].id != pane);
            }
        }
    }
}

/// A document is shown in the viewer that is in the slot, where that is shown:
/// its routing is changed, and nothing else.
pub proof fn law_viewer_in_the_slot_is_used(
    s: PanoptPane,
    d: Document,
    focus: bool,
    pane: PaneId,
    name: Seq<char>,
)
    requires
        s.slot_pane == Some(pane),
        is_shown(s, pane),
        is_viewer_with(s, pane, name),
    ensures
        sidebar_slots::viewer_shown(s, d, focus).0 == s,
        sidebar_slots::viewer_shown(s, d, focus).1 == (if focus {
            seq![
                ActionView::Route { viewer: name, document: d },
                ActionView::Focus(pane),
                ActionView::SyncPaneTitles,
            ]
        } else {
            seq![ActionView::Route { viewer: name, document: d }, ActionView::SyncPaneTitles]
        }),
{
    finding_laws::law_visible_pane_is_not_hidden(s.pane_list(), pane);
    lemma_slot_name_of(s, pane);
    assert(s.slot_name_of(pane) == Some(name)) by {
        let got = s.slot_name_of(pane)->0;
        let i = choose|i: int|
            0 <= i < s.pane_list().len() && (#[trigger] s.pane_list()[i]).id == pane
                && s.pane_list()[i].viewer_slot == Some(name) && forall|j: int|
                0 <= j < i ==> (#[trigger] s.pane_list()[j]).id != pane;
        let k = choose|k: int|
            0 <= k < s.pane_list().len() && (#[trigger] s.pane_list()[k]).id == pane
                && s.pane_list()[k].viewer_slot == Some(got) && forall|j: int|
                0 <= j < k ==> (#[trigger] s.pane_list()[j]).id != pane;
        if i < k {
            assert(s.pane_list()[i].id != pane);
        }
        if k < i {
            assert(s.pane_list()[k].id != pane);
        }
    }
    assert(sidebar_slots::viewer_shown(s, d, focus).1 =~= (if focus {
        seq![
            ActionView::Route { viewer: name, document: d },
            ActionView::Focus(pane),
            ActionView::SyncPaneTitles,
        ]
    } else {
        seq![ActionView::Route { viewer: name, document: d }, ActionView::SyncPaneTitles]
    }));
}

/// Where the slot holds no viewer that is shown, a hidden viewer takes it over;
/// where there is none, a new one is started, under a slot name of its own.
/// Whatever is shown is the document that was asked for, and the only one.
pub proof fn law_another_viewer_takes_the_slot(s: PanoptPane, d: Document, focus: bool)
    requires
        s.slot_pane matches Some(pane) ==> !is_shown(s, pane) || forall|name: Seq<char>|
            !is_viewer_with(s, pane, name),
        s.next_viewer_slot < u32::MAX,
    ensures
        ({
            let (after, acts) = sidebar_slots::viewer_shown(s, d, focus);
            let hidden = exists|i: int|
                0 <= i < s.pane_list().len() && (#[trigger] s.pane_list()[i]).role
                    == PaneRole::Viewer && s.pane_list()[i].suppressed;
            &&& hidden ==> {
                &&& after.next_viewer_slot == s.next_viewer_slot
                &&& after.slot_pane matches Some(v) && exists|i: int|
                    0 <= i < s.pane_list().len() && (#[trigger] s.pane_list()[i]).id == v
                        && s.pane_list()[i].role == PaneRole::Viewer && s.pane_list()[i].suppressed
            }
            &&& !hidden ==> {
                let n = s.next_viewer_slot + 1;
                let name = "v"@.push(s.mode.letter_char()) + text::decimal(n as nat);
                &&& after == (PanoptPane { next_viewer_slot: n as u32, ..s })
                &&& acts.len() >= 1
                &&& acts[0] == (ActionView::Route { viewer: name, document: d })
                &&& s.permitted && s.ws is Some ==> acts.len() == 2 && acts[1] == (
                ActionView::Spawn {
                    slot: s.slot_pane,
                    args: seq![
                        "_viewer"@,
                        "--slot"@,
                        name,
                        "--port"@,
                        s.port@,
                        "--kind"@,
                        d.kind_text(),
                    ] + (match d.id_of() {
                        Some(id) => seq!["--id"@, text::decimal(id as nat)],
                        None => seq![],
                    }),
                    focus,
                    purpose: Purpose::Viewer,
                })
                &&& !s.permitted || s.ws is None ==> acts.len() == 1
            }
        }),
{
    if let Some(pane) = s.slot_pane {
        finding_laws::law_visible_pane_is_not_hidden(s.pane_list(), pane);
        lemma_slot_name_of(s, pane);
    }
    finding_laws::law_viewers_are_found(s.pane_list());
    if let Some(v) = sidebar::first_pane_id(s.pane_list(), PaneQuery::SuppressedViewer) {
        let i = choose|i: int|
            0 <= i < s.pane_list().len() && (#[trigger] s.pane_list()[i]).id == v
                && s.pane_list()[i].role == PaneRole::Viewer && s.pane_list()[i].suppressed;
        assert(s.pane_list()[i].role == PaneRole::Viewer);
    }
}

/// Every document that is routed is the one that was asked for.
pub proof fn law_only_the_document_is_routed(
    s: PanoptPane,
    d: Document,
    focus: bool,
    viewer: Seq<char>,
    other: Document,
)
    requires
        sidebar_slots::viewer_shown(s, d, focus).1.contains(
            (ActionView::Route { viewer, document: other }),
        ),
    ensures
        other == d,
{
    let acts = sidebar_slots::viewer_shown(s, d, focus).1;
    let k = choose|k: int|
        0 <= k < acts.len() && acts[k] == (ActionView::Route { viewer, document: other });
}

/// Nothing is opened before the multiplexer has granted its permissions.
pub proof fn law_nothing_is_opened_unpermitted(s: PanoptPane, d: Document, focus: bool)
    ensures
        !s.permitted ==> sidebar_slots::document_opened(s, d, focus) == (
            s,
            Seq::<ActionView>::empty(),
        ),
        s.permitted ==> sidebar_slots::document_opened(s, d, focus) == sidebar_slots::viewer_shown(
            s,
            d,
            focus,
        ),
{
}

/// A pane that is put into the slot is the slot afterwards. It takes the place of
/// what was there, or is shown where nothing was; where it was the slot and not
/// hidden, nothing is moved. The focus goes to it where that is asked for, and
/// otherwise never.
pub proof fn law_pane_is_put_into_the_slot(s: PanoptPane, pane: PaneId, focus: bool)
    ensures
        ({
            let (after, acts) = sidebar_slots::shown_in_slot(s, pane, focus);
            &&& after == (PanoptPane { slot_pane: Some(pane), ..s })
            &&& acts.contains(ActionView::Show(pane)) <==> s.slot_pane is None
            &&& (s.slot_pane matches Some(place) && !(place == pane && is_shown(s, pane)))
                ==> acts.len() > 0 && acts[0] == (ActionView::Replace {
                place: s.slot_pane->0,
                pane,
            })
            &&& s.slot_pane == Some(pane) && is_shown(s, pane) ==> acts.len() == (if focus {
                1nat
            } else {
                0nat
            })
            &&& focus ==> acts.len() > 0 && acts.last() == ActionView::Focus(pane)
            &&& !focus && s.plugin_pane != Some(pane) ==> !acts.contains(ActionView::Focus(pane))
        }),
{
    finding_laws::law_visible_pane_is_not_hidden(s.pane_list(), pane);
    let (after, acts) = sidebar_slots::shown_in_slot(s, pane, focus);
    if s.slot_pane == Some(pane) && is_shown(s, pane) {
        assert(after == (PanoptPane { slot_pane: Some(pane), ..s }));
    }
    if s.slot_pane is None {
        assert(acts[0] == ActionView::Show(pane));
    }
    if acts.contains(ActionView::Show(pane)) {
        let k = choose|k: int| 0 <= k < acts.len() && acts[k] == ActionView::Show(pane);
    }
    if acts.contains(ActionView::Focus(pane)) {
        let k = choose|k: int| 0 <= k < acts.len() && acts[k] == ActionView::Focus(pane);
    }
}

/// A pane that is shown elsewhere stays where it is: it gets the focus where that
/// is asked for; otherwise the slot is cleared, since a pane cannot stand twice.
/// A pane that is not shown elsewhere is put into the slot.
pub proof fn law_pane_elsewhere_stays(s: PanoptPane, pane: PaneId, focus: bool)
    ensures
        is_shown(s, pane) && s.slot_pane != Some(pane) && focus ==> sidebar_slots::pane_routed(
            s,
            pane,
            focus,
        ) == (s, seq![ActionView::Focus(pane)]),
        is_shown(s, pane) && s.slot_pane != Some(pane) && !focus ==> sidebar_slots::pane_routed(
            s,
            pane,
            focus,
        ) == sidebar_slots::viewer_shown(s, Document::Empty, false),
        !is_shown(s, pane) || s.slot_pane == Some(pane) ==> sidebar_slots::pane_routed(
            s,
            pane,
            focus,
        ) == sidebar_slots::shown_in_slot(s, pane, focus),
{
    finding_laws::law_visible_pane_is_not_hidden(s.pane_list(), pane);
}

/// Whether nothing but the pane of the sidebar gets the focus.
pub open spec fn focus_stays(s: PanoptPane, acts: Seq<ActionView>) -> bool {
    forall|k: int|
        0 <= k < acts.len() ==> match #[trigger] acts[k] {
            ActionView::Focus(pane) => s.plugin_pane == Some(pane),
            ActionView::Spawn { focus, .. } => !focus,
            _ => true,
        }
}

/// Whether nothing is run, closed or started but a viewer.
pub open spec fn only_views(acts: Seq<ActionView>) -> bool {
    forall|k: int|
        0 <= k < acts.len() ==> match #[trigger] acts[k] {
            ActionView::Spawn { purpose, .. } => purpose == Purpose::Viewer,
            ActionView::Run(_) | ActionView::Close(_) | ActionView::SpawnAgent { .. } => false,
            _ => true,
        }
}

/// Two runs of actions make one.
proof fn lemma_quiet_add(s: PanoptPane, a: Seq<ActionView>, b: Seq<ActionView>)
    requires
        focus_stays(s, a),
        only_views(a),
        focus_stays(s, b),
        only_views(b),
    ensures
        focus_stays(s, a + b),
        only_views(a + b),
{
    assert forall|k: int| 0 <= k < (a + b).len() implies (#[trigger] (a + b)[k]) == (if k < a.len() {
        a[k]
    } else {
        b[k - a.len()]
    }) by {}
}

/// A pane is put into the slot without the focus.
proof fn lemma_shown_quietly(s: PanoptPane, pane: PaneId)
    ensures
        focus_stays(s, sidebar_slots::shown_in_slot(s, pane, false).1),
        only_views(sidebar_slots::shown_in_slot(s, pane, false).1),
{
    let acts = sidebar_slots::shown_in_slot(s, pane, false).1;
    assert(acts.len() <= 2);
}

/// A document is shown without the focus.
proof fn lemma_viewed_quietly(s: PanoptPane, d: Document)
    ensures
        focus_stays(s, sidebar_slots::viewer_shown(s, d, false).1),
        only_views(sidebar_slots::viewer_shown(s, d, false).1),
{
    let acts = sidebar_slots::viewer_shown(s, d, false).1;
    if let Some(v) = sidebar::first_pane_id(s.pane_list(), PaneQuery::SuppressedViewer) {
        lemma_shown_quietly(s, v);
        let shown = sidebar_slots::shown_in_slot(s, v, false).1;
        let first = match s.slot_name_of(v) {
            Some(name) => seq![ActionView::Route { viewer: name, document: d }],
            None => seq![],
        };
        lemma_quiet_add(s, first, shown);
        lemma_quiet_add(s, first + shown, seq![ActionView::SyncPaneTitles]);
    }
}

/// A pane is routed without the focus.
proof fn lemma_routed_quietly(s: PanoptPane, pane: PaneId)
    ensures
        focus_stays(s, sidebar_slots::pane_routed(s, pane, false).1),
        only_views(sidebar_slots::pane_routed(s, pane, false).1),
{
    lemma_shown_quietly(s, pane);
    lemma_viewed_quietly(s, Document::Empty);
}

/// Walking over the items shows each one without taking the focus from the
/// sidebar, and starts nothing but a viewer.
pub proof fn law_preview_leaves_the_focus(s: PanoptPane)
    ensures
        focus_stays(s, sidebar_slots::cursor_previewed(s).1),
        only_views(sidebar_slots::cursor_previewed(s).1),
{
    lemma_viewed_quietly(s, Document::Empty);
    match s.target_at_cursor() {
        Some(ItemTarget::Todo(id)) => lemma_viewed_quietly(s, Document::Todo(id)),
        Some(ItemTarget::Note(id)) => lemma_viewed_quietly(s, Document::Note(id)),
        Some(ItemTarget::Process(id)) => {
            if let Some(p) = sidebar::first_pane_id(s.pane_list(), PaneQuery::Process(id)) {
                lemma_routed_quietly(s, p);
            }
        },
        Some(ItemTarget::Config(id)) => {
            if let Some(p) = s.config_pane(id) {
                lemma_routed_quietly(s, p);
            }
        },
        Some(ItemTarget::Pane(pane)) => lemma_routed_quietly(s, pane),
        None => {},
    }
}

/// What walking over an item shows: its document, or the pane that runs it; and
/// an empty slot where nothing runs it.
pub proof fn law_preview_shows_the_item(s: PanoptPane)
    ensures
        match s.target_at_cursor() {
            Some(ItemTarget::Todo(id)) => sidebar_slots::cursor_previewed(s)
                == sidebar_slots::document_opened(s, Document::Todo(id), false),
            Some(ItemTarget::Note(id)) => sidebar_slots::cursor_previewed(s)
                == sidebar_slots::document_opened(s, Document::Note(id), false),
            Some(ItemTarget::Pane(pane)) => sidebar_slots::cursor_previewed(s)
                == sidebar_slots::pane_routed(s, pane, false),
            Some(ItemTarget::Process(id)) => {
                ||| exists|i: int|
                    0 <= i < s.pane_list().len() && (#[trigger] s.pane_list()[i]).role
                        == PaneRole::Process(id) && !s.pane_list()[i].exited
                        && sidebar_slots::cursor_previewed(s) == sidebar_slots::pane_routed(
                        s,
                        s.pane_list()[i].id,
                        false,
                    )
                ||| (forall|i: int|
                    0 <= i < s.pane_list().len() ==> (#[trigger] s.pane_list()[i]).role
                        != PaneRole::Process(id) || s.pane_list()[i].exited)
                    && sidebar_slots::cursor_previewed(s) == sidebar_slots::viewer_shown(
                    s,
                    Document::Empty,
                    false,
                )
            },
            Some(ItemTarget::Config(id)) => match s.config_pane(id) {
                Some(pane) => sidebar_slots::cursor_previewed(s) == sidebar_slots::pane_routed(
                    s,
                    pane,
                    false,
                ),
                None => sidebar_slots::cursor_previewed(s) == sidebar_slots::viewer_shown(
                    s,
                    Document::Empty,
                    false,
                ),
            },
            None => sidebar_slots::cursor_previewed(s) == sidebar_slots::viewer_shown(
                s,
                Document::Empty,
                false,
            ),
        },
{
    if let Some(ItemTarget::Process(id)) = s.target_at_cursor() {
        finding_laws::law_process_pane_runs_it(s.pane_list(), id);
    }
}

/// What an item leads to: a document of its number, the pane that runs it, or
/// the pane itself. A process without a pane is run in the slot, and a config
/// without an instance is started by the daemon.
pub proof fn law_items_lead_to_what_they_name(s: PanoptPane, id: u64, pane: PaneId, focus: bool)
    ensures
        sidebar_slots::item_activated(s, Some(ItemTarget::Todo(id)), focus)
            == sidebar_slots::document_opened(s, Document::Todo(id), focus),
        sidebar_slots::item_activated(s, Some(ItemTarget::Note(id)), focus)
            == sidebar_slots::document_opened(s, Document::Note(id), focus),
        sidebar_slots::item_activated(s, Some(ItemTarget::Pane(pane)), focus)
            == sidebar_slots::pane_routed(s, pane, focus),
        sidebar_slots::item_activated(s, None, focus) == (s, Seq::<ActionView>::empty()),
        forall|i: int|
            0 <= i < s.pane_list().len() && (#[trigger] s.pane_list()[i]).role == PaneRole::Process(
                id,
            ) && !s.pane_list()[i].exited && (forall|j: int|
                0 <= j < i ==> (#[trigger] s.pane_list()[j]).role != PaneRole::Process(id)
                    || s.pane_list()[j].exited) ==> sidebar_slots::item_activated(
                s,
                Some(ItemTarget::Process(id)),
                focus,
            ) == sidebar_slots::pane_routed(s, s.pane_list()[i].id, focus),
        (forall|j: int|
            0 <= j < s.pane_list().len() ==> (#[trigger] s.pane_list()[j]).role
                != PaneRole::Process(id) || s.pane_list()[j].exited) && s.permitted && s.ws is Some
            ==> sidebar_slots::item_activated(s, Some(ItemTarget::Process(id)), focus) == (
            s,
            seq![
                ActionView::Spawn {
                    slot: s.slot_pane,
                    args: seq!["_process-run"@, "--port"@, s.port@, text::decimal(id as nat)],
                    focus,
                    purpose: Purpose::Process,
                },
            ],
        ),
        s.config_pane(id) is None && s.permitted && s.ws is Some ==> sidebar_slots::item_activated(
            s,
            Some(ItemTarget::Config(id)),
            focus,
        ) == (
            s,
            seq![
                ActionView::Run(
                    seq!["process"@, "start"@, text::decimal(id as nat), "--port"@, s.port@],
                ),
            ],
        ),
        s.config_pane(id) matches Some(p) ==> sidebar_slots::item_activated(
            s,
            Some(ItemTarget::Config(id)),
            focus,
        ) == sidebar_slots::pane_routed(s, p, focus),
{
    finding_laws::law_process_pane_runs_it(s.pane_list(), id);
    if let Some(x) = sidebar::first_pane_id(s.pane_list(), PaneQuery::Process(id)) {
        let a = choose|a: int|
            0 <= a < s.pane_list().len() && (#[trigger] s.pane_list()[a]).id == x
                && s.pane_list()[a].role == PaneRole::Process(id) && !s.pane_list()[a].exited
                && forall|j: int|
                0 <= j < a ==> (#[trigger] s.pane_list()[j]).role != PaneRole::Process(id)
                    || s.pane_list()[j].exited;
        assert forall|i: int|
            0 <= i < s.pane_list().len() && (#[trigger] s.pane_list()[i]).role == PaneRole::Process(
                id,
            ) && !s.pane_list()[i].exited && (forall|j: int|
                0 <= j < i ==> (#[trigger] s.pane_list()[j]).role != PaneRole::Process(id)
                    || s.pane_list()[j].exited) implies i == a by {
            if i < a {
                assert(s.pane_list()[i].exited || s.pane_list()[i].role != PaneRole::Process(id));
            }
            if a < i {
                assert(s.pane_list()[a].exited || s.pane_list()[a].role != PaneRole::Process(id));
            }
        }
    }
}

/// The pane of a config is that of the first agent that was started from it.
pub proof fn law_config_pane_is_that_of_its_instance(s: PanoptPane, config: u64)
    ensures
        match s.config_pane(config) {
            Some(x) => exists|r: int, i: int|
                0 <= r < s.process_list().len() && 0 <= i < s.pane_list().len() && (
                #[trigger] s.process_list()[r]).kind == "agent"@
                    && s.process_list()[r].agent_tool_id == Some(config) && (
                #[trigger] s.pane_list()[i]).id == x && s.pane_list()[i].role == PaneRole::Process(
                    s.process_list()[r].id,
                ) && !s.pane_list()[i].exited,
            None => forall|r: int, i: int|
                0 <= r < s.process_list().len() && 0 <= i < s.pane_list().len() && (
                #[trigger] s.process_list()[r]).kind == "agent"@
                    && s.process_list()[r].agent_tool_id == Some(config) && (forall|j: int|
                    0 <= j < r ==> (#[trigger] s.process_list()[j]).kind != "agent"@
                        || s.process_list()[j].agent_tool_id != Some(config)) ==> (
                #[trigger] s.pane_list()[i]).role != PaneRole::Process(s.process_list()[r].id)
                    || s.pane_list()[i].exited,
        },
{
    finding_laws::law_instance_is_an_agent_of_the_config(s.process_list(), config);
    if let Some(row) = sidebar::instance_in(s.process_list(), config) {
        finding_laws::law_process_pane_runs_it(s.pane_list(), row.id);
        let k = choose|k: int|
            0 <= k < s.process_list().len() && #[trigger] s.process_list()[k] == row && row.kind
                == "agent"@ && row.agent_tool_id == Some(config) && forall|j: int|
                0 <= j < k ==> (#[trigger] s.process_list()[j]).kind != "agent"@
                    || s.process_list()[j].agent_tool_id != Some(config);
        assert(s.process_list()[k].kind == "agent"@);
        assert forall|r: int|
            0 <= r < s.process_list().len() && (#[trigger] s.process_list()[r]).kind == "agent"@
                && s.process_list()[r].agent_tool_id == Some(config) && (forall|j: int|
                0 <= j < r ==> (#[trigger] s.process_list()[j]).kind != "agent"@
                    || s.process_list()[j].agent_tool_id != Some(config)) implies r == k by {
            if r < k {
                assert(s.process_list()[r].kind != "agent"@ || s.process_list()[r].agent_tool_id
                    != Some(config));
            }
            if k < r {
                assert(s.process_list()[k].kind != "agent"@ || s.process_list()[k].agent_tool_id
                    != Some(config));
            }
        }
    }
}

/// Stopping an item closes the pane that runs it, or the pane that it is; a
/// document is not stopped, and nothing is deleted. A config's instance is told
/// to stop as well.
pub proof fn law_stopping(s: PanoptPane)
    ensures
        ({
            let acts = sidebar_slots::cursor_stopped(s);
            match s.target_at_cursor() {
                Some(ItemTarget::Pane(pane)) => acts == seq![ActionView::Close(pane)],
                Some(ItemTarget::Process(id)) => {
                    &&& acts.len() <= 1
                    &&& acts.len() == 1 ==> exists|i: int|
                        0 <= i < s.pane_list().len() && (#[trigger] s.pane_list()[i]).role
                            == PaneRole::Process(id) && !s.pane_list()[i].exited && acts[0]
                            == ActionView::Close(s.pane_list()[i].id)
                    &&& acts.len() == 0 ==> forall|i: int|
                        0 <= i < s.pane_list().len() ==> (#[trigger] s.pane_list()[i]).role
                            != PaneRole::Process(id) || s.pane_list()[i].exited
                },
                Some(ItemTarget::Config(id)) => {
                    &&& sidebar::instance_in(s.process_list(), id) is None ==> acts.len() == 0
                    &&& sidebar::instance_in(s.process_list(), id) matches Some(row) ==> {
                        &&& s.permitted && s.ws is Some ==> acts.len() >= 1 && acts[0]
                            == ActionView::Run(
                            seq![
                                "process"@,
                                "stop"@,
                                text::decimal(row.id as nat),
                                "--port"@,
                                s.port@,
                            ],
                        )
                        &&& s.config_pane(id) matches Some(pane) ==> acts.len() >= 1 && acts.last()
                            == ActionView::Close(pane)
                    }
                },
                _ => acts.len() == 0,
            }
        }),
{
    if let Some(ItemTarget::Process(id)) = s.target_at_cursor() {
        finding_laws::law_process_pane_runs_it(s.pane_list(), id);
    }
}

/// Deleting an item only asks, in a dialog that names its kind, its number and
/// its label, where something can be launched; an item that is a pane is closed.
/// Nothing is deleted before the user has answered.
#[verifier::spinoff_prover]
#[verifier::rlimit(80)]
pub proof fn law_deleting_asks(s: PanoptPane)
    ensures
        ({
            let acts = sidebar_slots::cursor_deleted(s);
            &&& s.cursor >= s.items.len() || !s.permitted || s.ws is None ==> acts.len() == 0
            &&& forall|k: int|
                0 <= k < acts.len() ==> match #[trigger] acts[k] {
                    ActionView::Run(_) => false,
                    ActionView::Close(pane) => s.items@[s.cursor as int].target == ItemTarget::Pane(
                        pane,
                    ),
                    _ => true,
                }
            &&& s.cursor < s.items.len() && s.permitted && s.ws is Some ==> {
                let label = s.items@[s.cursor as int].label@;
                let asked = |kind: Seq<char>, id: u64, label: Seq<char>|
                    seq![
                        ActionView::OpenFloating(
                            seq![
                                "_delete-gate"@,
                                "--kind"@,
                                kind,
                                "--id"@,
                                text::decimal(id as nat),
                                "--label"@,
                                label,
                                "--port"@,
                                s.port@,
                            ],
                        ),
                    ];
                match s.items@[s.cursor as int].target {
                    ItemTarget::Todo(id) => acts == asked("todo"@, id, label),
                    ItemTarget::Note(id) => acts == asked("note"@, id, label),
                    ItemTarget::Process(id) => acts == asked("process"@, id, label),
                    ItemTarget::Config(id) => exists|name: Seq<char>| #[trigger]
                        asked("agent-tool"@, id, name) == acts && name.len() <= label.len()
                            && label.take(name.len() as int) == name,
                    ItemTarget::Pane(pane) => acts == seq![ActionView::Close(pane)],
                }
            }
        }),
{
    if s.cursor < s.items.len() && s.permitted && s.ws is Some {
        let label = s.items@[s.cursor as int].label@;
        if let ItemTarget::Config(id) = s.items@[s.cursor as int].target {
            let name = text::pieces(label, " · "@)[0];
            text::lemma_find_from(label, " · "@, 0);
            assert(name.len() <= label.len());
            assert(label.take(name.len() as int) =~= name);
            let asked = |kind: Seq<char>, id: u64, label: Seq<char>|
                seq![
                    ActionView::OpenFloating(
                        seq![
                            "_delete-gate"@,
                            "--kind"@,
                            kind,
                            "--id"@,
                            text::decimal(id as nat),
                            "--label"@,
                            label,
                            "--port"@,
                            s.port@,
                        ],
                    ),
                ];
            assert(asked("agent-tool"@, id, name) == sidebar_slots::cursor_deleted(s));
        }
    }
}

/// Whether a payload says that a key has a value: a field of it, and the last
/// one of that key.
pub open spec fn says(payload: Seq<char>, key: Seq<char>, value: Seq<char>) -> bool {
    let fields = text::pieces(payload, ";"@);
    exists|i: int|
        0 <= i < fields.len() && text::cut(#[trigger] fields[i], "="@) == Some((key, value))
            && forall|j: int|
            i < j < fields.len() ==> !(text::cut(#[trigger] fields[j], "="@) matches Some((k, v))
                && k == key)
}

/// The value of a key is the one that the payload says it has.
proof fn lemma_payload_value(fields: Seq<Seq<char>>, key: Seq<char>)
    ensures
        match sidebar_gate::payload_value(fields, key) {
            Some(value) => exists|i: int|
                0 <= i < fields.len() && text::cut(#[trigger] fields[i], "="@) == Some((key, value))
                    && forall|j: int|
                    i < j < fields.len() ==> !(text::cut(
                        #[trigger] fields[j],
                        "="@,
                    ) matches Some((k, v)) && k == key),
            None => forall|j: int|
                0 <= j < fields.len() ==> !(text::cut(
                    #[trigger] fields[j],
                    "="@,
                ) matches Some((k, v)) && k == key),
        },
    decreases fields.len(),
{
    if fields.len() > 0 {
        let front = fields.drop_last();
        let n = fields.len() - 1;
        lemma_payload_value(front, key);
        assert forall|j: int| 0 <= j < n implies front[j] == fields[j] by {}
        if text::cut(fields.last(), "="@) matches Some((k, v)) && k == key {
            assert(text::cut(fields[n], "="@) == Some((key, sidebar_gate::payload_value(
                fields,
                key,
            )->0)));
        } else if let Some(value) = sidebar_gate::payload_value(front, key) {
            let i = choose|i: int|
                0 <= i < front.len() && text::cut(#[trigger] front[i], "="@) == Some((key, value))
                    && forall|j: int|
                    i < j < front.len() ==> !(text::cut(
                        #[trigger] front[j],
                        "="@,
                    ) matches Some((k, v)) && k == key);
            assert(text::cut(fields[i], "="@) == Some((key, value)));
        }
    }
}

/// A field of a payload has the value that the payload says it has; where it has
/// one, the payload says so.
pub proof fn law_payload_field_is_what_it_says(payload: Seq<char>, key: Seq<char>)
    ensures
        match sidebar_gate::payload_field(payload, key) {
            Some(value) => says(payload, key, value),
            None => forall|value: Seq<char>| !says(payload, key, value),
        },
        forall|v: Seq<char>, w: Seq<char>|
            says(payload, key, v) && says(payload, key, w) ==> v == w,
{
    let fields = text::pieces(payload, ";"@);
    lemma_payload_value(fields, key);
    assert forall|v: Seq<char>, w: Seq<char>|
        says(payload, key, v) && says(payload, key, w) implies v == w by {
        let i = choose|i: int|
            0 <= i < fields.len() && text::cut(#[trigger] fields[i], "="@) == Some((key, v))
                && forall|j: int|
                i < j < fields.len() ==> !(text::cut(
                    #[trigger] fields[j],
                    "="@,
                ) matches Some((k, x)) && k == key);
        let m = choose|m: int|
            0 <= m < fields.len() && text::cut(#[trigger] fields[m], "="@) == Some((key, w))
                && forall|j: int|
                m < j < fields.len() ==> !(text::cut(
                    #[trigger] fields[j],
                    "="@,
                ) matches Some((k, x)) && k == key);
        if i < m {
            assert(!(text::cut(fields[m], "="@) matches Some((k, x)) && k == key));
        }
        if m < i {
            assert(!(text::cut(fields[i], "="@) matches Some((k, x)) && k == key));
        }
    }
}

/// Nothing is deleted unless the user decided so; then what is deleted is what
/// the dialog was about, by the command for its kind and its number. The pane of
/// a process is closed first.
pub proof fn law_only_what_was_confirmed_is_deleted(s: PanoptPane, payload: Seq<char>)
    ensures
        ({
            let acts = sidebar_gate::delete_answered(s, Some(payload));
            let decided = sidebar_gate::payload_field(payload, "decision"@) == Some("delete"@)
                && s.permitted && s.ws is Some;
            let command = |noun: Seq<char>, verb: Seq<char>, id: u64|
                ActionView::Run(
                    seq![noun, verb, text::decimal(id as nat), "--port"@, s.port@],
                );
            &&& !decided ==> acts.len() == 0
            &&& decided ==> match (
                sidebar_gate::payload_field(payload, "kind"@),
                sidebar_gate::payload_number(payload, "id"@),
            ) {
                (Some(kind), Some(id)) => {
                    &&& kind == "todo"@ ==> acts == seq![command("todo"@, "rm"@, id)]
                    &&& kind == "note"@ ==> acts == seq![command("note"@, "rm"@, id)]
                    &&& kind == "process"@ ==> acts.len() >= 1 && acts.last() == command(
                        "process"@,
                        "delete"@,
                        id,
                    ) && forall|i: int|
                        0 <= i < acts.len() - 1 ==> (#[trigger] acts[i] matches ActionView::Close(
                            pane,
                        ) && exists|k: int|
                            0 <= k < s.pane_list().len() && (#[trigger] s.pane_list()[k]).id == pane
                                && s.pane_list()[k].role == PaneRole::Process(id))
                    &&& kind == "agent-tool"@ ==> acts == sidebar_slots::config_stopped(s, id)
                        + seq![command("agent-tool"@, "rm"@, id)]
                    &&& kind != "todo"@ && kind != "note"@ && kind != "process"@ && kind
                        != "agent-tool"@ ==> acts.len() == 0
                },
                _ => acts.len() == 0,
            }
        }),
        sidebar_gate::delete_answered(s, None).len() == 0,
{
    reveal_strlit("todo");
    reveal_strlit("note");
    reveal_strlit("process");
    reveal_strlit("agent-tool");
    assert("todo"@[0] == 't' && "note"@[0] == 'n' && "process"@.len() == 7 && "agent-tool"@.len()
        == 10);
    if let Some(id) = sidebar_gate::payload_number(payload, "id"@) {
        finding_laws::law_process_pane_runs_it(s.pane_list(), id);
    }
}

/// Nothing is closed unless the user decided so; then what is closed is what the
/// dialog was about: the pane that it names, the tab, or the session.
pub proof fn law_only_what_was_confirmed_is_closed(s: PanoptPane, payload: Seq<char>)
    ensures
        ({
            let (after, acts) = sidebar_gate::close_answered(s, Some(payload));
            let decided = sidebar_gate::payload_field(payload, "decision"@) == Some("close"@);
            let scope = sidebar_gate::payload_field(payload, "scope"@);
            let tid = match sidebar_gate::payload_field(payload, "target_pane"@) {
                Some(v) => text::u32_of(v),
                None => None,
            };
            &&& !decided ==> after == s && acts.len() == 0
            &&& decided ==> after == (PanoptPane { last_gate_refusal: None, ..s })
            &&& forall|p: PaneId|
                acts.contains(ActionView::Close(p)) <==> decided && scope == Some("focus"@)
                    && tid is Some && p == PaneId::Terminal(tid->0)
            &&& acts.contains(ActionView::CloseTab) <==> decided && scope == Some("tab"@)
            &&& acts.contains(ActionView::Quit) <==> decided && scope == Some("quit"@)
        }),
{
    reveal_strlit("focus");
    reveal_strlit("tab");
    reveal_strlit("quit");
    assert("focus"@.len() == 5 && "tab"@.len() == 3 && "quit"@.len() == 4);
    let (after, acts) = sidebar_gate::close_answered(s, Some(payload));
    assert(acts.len() <= 2);
    if acts.len() > 0 {
        assert(acts.contains(acts.last()));
        assert(acts.contains(acts[0]));
    }
    assert forall|a: ActionView| acts.contains(a) implies a == acts[0] || a == acts.last() by {}
}

/// The result that a search dialog names is opened with the focus, and the
/// dialog is closed, in the pane that has it; a pane that has none does nothing.
pub proof fn law_search_result_is_opened(s: PanoptPane, payload: Seq<char>)
    ensures
        s.search_pane is None ==> sidebar_gate::search_answered(s, Some(payload)) == (
            s,
            Seq::<ActionView>::empty(),
        ),
        s.search_pane matches Some(dialog) ==> {
            let closed = PanoptPane { search_pane: None, ..s };
            let (after, acts) = sidebar_gate::search_answered(s, Some(payload));
            match (
                sidebar_gate::payload_field(payload, "kind"@),
                sidebar_gate::payload_number(payload, "id"@),
            ) {
                (Some(kind), Some(id)) => {
                    &&& acts.len() > 0
                    &&& acts[0] == ActionView::Close(dialog)
                    &&& kind == "todo"@ ==> (after, acts.skip(1))
                        == sidebar_slots::document_opened(closed, Document::Todo(id), true)
                    &&& kind == "note"@ ==> (after, acts.skip(1))
                        == sidebar_slots::document_opened(closed, Document::Note(id), true)
                    &&& kind != "todo"@ && kind != "note"@ ==> after == closed && acts.len() == 1
                },
                _ => after == s && acts.len() == 0,
            }
        },
{
    reveal_strlit("todo");
    reveal_strlit("note");
    assert("todo"@[0] == 't' && "note"@[0] == 'n');
    let (after, acts) = sidebar_gate::search_answered(s, Some(payload));
    if s.search_pane is Some {
        if let (Some(kind), Some(id)) = (
            sidebar_gate::payload_field(payload, "kind"@),
            sidebar_gate::payload_number(payload, "id"@),
        ) {
            let closed = PanoptPane { search_pane: None, ..s };
            if kind == "todo"@ {
                assert(acts.skip(1) =~= sidebar_slots::document_opened(
                    closed,
                    Document::Todo(id),
                    true,
                ).1);
            } else if kind == "note"@ {
                assert(acts.skip(1) =~= sidebar_slots::document_opened(
                    closed,
                    Document::Note(id),
                    true,
                ).1);
            }
        }
    }
}

/// One search dialog is open at a time.
pub proof fn law_one_search_dialog(s: PanoptPane)
    ensures
        s.search_pane is Some || !s.permitted || s.ws is None ==> sidebar_slots::search_opened(
            s,
        ).len() == 0,
        s.search_pane is None && s.permitted && s.ws is Some ==> sidebar_slots::search_opened(s)
            == seq![ActionView::OpenSearch(seq!["search"@, "--port"@, s.port@])],
        sidebar_slots::search_closed(s).0.search_pane is None,
        s.search_pane matches Some(pane) ==> sidebar_slots::search_closed(s).1 == seq![
            ActionView::Close(pane),
        ],
        s.search_pane is None ==> sidebar_slots::search_closed(s).1.len() == 0,
{
}

/// A form floats over the panes: no pane is replaced, closed or given the focus.
pub proof fn law_form_floats(s: PanoptPane, d: Document)
    requires
        s.permitted,
        s.ws is Some,
        s.next_viewer_slot < u32::MAX,
    ensures
        ({
            let (after, acts) = sidebar_slots::form_opened(s, d);
            let name = "v"@.push(s.mode.letter_char()) + text::decimal(
                (s.next_viewer_slot + 1) as nat,
            );
            &&& after == (PanoptPane { next_viewer_slot: (s.next_viewer_slot + 1) as u32, ..s })
            &&& acts.len() == 2
            &&& acts[0] == (ActionView::Route { viewer: name, document: d })
            &&& acts[1] matches ActionView::OpenFloating(args) && args.len() >= 8 && args[0]
                == "_viewer"@ && args[2] == name && args[6] == d.kind_text() && args[7]
                == "--transient"@ && (match d.id_of() {
                Some(id) => args.len() == 10 && args[8] == "--id"@ && args[9] == text::decimal(
                    id as nat,
                ),
                None => args.len() == 8,
            })
        }),
{
}

/// The slot is filled again exactly where the gatekeeper may act, content was
/// there before, and none is left that is neither floating, hidden nor exited.
pub proof fn law_empty_slot_is_filled(s: PanoptPane)
    ensures
        ({
            let left = exists|i: int|
                0 <= i < s.pane_list().len() && !(#[trigger] s.pane_list()[i]).floating
                    && !s.pane_list()[i].suppressed && !s.pane_list()[i].exited;
            let (after, acts) = sidebar_gate::slot_kept(s);
            &&& s.mode != Mode::Todos || !s.permitted ==> after == s && acts.len() == 0
            &&& s.mode == Mode::Todos && s.permitted && left ==> after == (PanoptPane {
                has_had_content: true,
                ..s
            }) && acts.len() == 0
            &&& s.mode == Mode::Todos && s.permitted && !left && !s.has_had_content ==> after == s
                && acts.len() == 0
            &&& s.mode == Mode::Todos && s.permitted && !left && s.has_had_content ==> (after, acts)
                == sidebar_slots::viewer_shown(s, Document::Empty, false)
        }),
{
    lemma_live_content(s.pane_list());
}

/// There is content that is not hidden where a pane is neither floating, hidden
/// nor exited.
proof fn lemma_live_content(list: Seq<sidebar::PaneRowView>)
    ensures
        sidebar_gate::live_content_count(list) > 0 <==> exists|i: int|
            0 <= i < list.len() && !(#[trigger] list[i]).floating && !list[i].suppressed
                && !list[i].exited,
    decreases list.len(),
{
    if list.len() > 0 {
        let front = list.drop_last();
        let n = list.len() - 1;
        lemma_live_content(front);
        if sidebar_gate::live_content_count(front) > 0 {
            let i = choose|i: int|
                0 <= i < front.len() && !(#[trigger] front[i]).floating && !front[i].suppressed
                    && !front[i].exited;
            assert(front[i] == list[i]);
            assert(!list[i].floating);
        }
        if !list[n].floating && !list[n].suppressed && !list[n].exited {
            assert(!list[n].floating);
        }
        if exists|i: int|
            0 <= i < list.len() && !(#[trigger] list[i]).floating && !list[i].suppressed
                && !list[i].exited {
            let i = choose|i: int|
                0 <= i < list.len() && !(#[trigger] list[i]).floating && !list[i].suppressed
                    && !list[i].exited;
            if i < n {
                assert(front[i] == list[i]);
                assert(!front[i].floating);
            }
        }
    }
}

/// An ad-hoc agent that was given an id goes by it; one that was given none gets
/// a number of its own, in its id and in its label.
pub proof fn law_adhoc_agents_are_named(s: PanoptPane, id: Option<Seq<char>>)
    requires
        s.next_agent < u32::MAX,
    ensures
        ({
            let (after, acts) = sidebar_gate::agent_asked(s, id);
            let n = text::decimal((s.next_agent + 1) as nat);
            let name = match id {
                Some(given) => given,
                None => "cockpit-agent-"@ + n,
            };
            let label = match id {
                Some(given) => given,
                None => "Agent "@ + n,
            };
            &&& id is Some ==> after == s
            &&& id is None ==> after == (PanoptPane { next_agent: (s.next_agent + 1) as u32, ..s })
            &&& !s.permitted || s.ws is None ==> acts.len() == 0
            &&& s.permitted && s.ws is Some ==> acts == seq![
                ActionView::SpawnAgent {
                    slot: s.slot_pane,
                    args: seq!["_agent"@, "--id"@, name],
                    agent_id: name,
                    label,
                },
            ]
        }),
{
}

} // verus!
