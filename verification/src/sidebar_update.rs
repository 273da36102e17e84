//! The sidebar's two entrances: events of the multiplexer, and messages that
//! come through pipes.

use vstd::prelude::*;
use vstd::string::*;

use crate::host;
use crate::host::{Action, ActionView, Event, Key, Mouse, PaneInfo, PaneManifest};
use crate::modes::Mode;
use crate::sidebar::PanoptPane;
use crate::sidebar_events;
use crate::sidebar_ingest;
use crate::sidebar_reload;
use crate::sidebar_reload::Projected;
use crate::sidebar_slots;

verus! {

/// Whether two states show the same.
pub open spec fn same_view(a: PanoptPane, b: PanoptPane) -> bool {
    &&& a.cursor == b.cursor
    &&& a.scroll == b.scroll
    &&& a.todo_filter == b.todo_filter
    &&& a.todo_sort_1 == b.todo_sort_1
    &&& a.todo_sort_2 == b.todo_sort_2
    &&& a.show_help == b.show_help
}

/// A view that the user changed is published.
pub open spec fn settled(before: PanoptPane, now: PanoptPane) -> (PanoptPane, Seq<ActionView>) {
    if same_view(before, now) {
        (now, seq![])
    } else {
        sidebar_reload::view_published(now)
    }
}

/// The title follows what changed.
pub open spec fn title_actions(dirty: bool) -> Seq<ActionView> {
    if dirty {
        seq![ActionView::SyncFrameTitle]
    } else {
        seq![]
    }
}

/// A state with the view number of another.
pub open spec fn renumbered(s: PanoptPane, other: PanoptPane) -> PanoptPane {
    PanoptPane { view_seq: other.view_seq, last_applied_seq: other.last_applied_seq, ..s }
}

/// What a keypress leads to: it acts, a view that it changed is published, and
/// the title follows.
pub open spec fn key_updates_to(
    s: PanoptPane,
    key: Key,
    after: PanoptPane,
    acts: Seq<ActionView>,
    dirty: bool,
) -> bool {
    let acted = renumbered(after, s);
    let tail = settled(s, acted).1 + title_actions(dirty);
    &&& after == settled(s, acted).0
    &&& acts.len() >= tail.len()
    &&& acts.skip(acts.len() - tail.len()) == tail
    &&& sidebar_events::key_handled(s, key, acted, acts.take(acts.len() - tail.len()), dirty)
}

/// What the mouse leads to, in the same way.
pub open spec fn mouse_updated(s: PanoptPane, mouse: Mouse) -> (PanoptPane, Seq<ActionView>, bool) {
    let (acted, acts, dirty) = sidebar_events::moused(s, mouse);
    let (after, more) = settled(s, acted);
    (after, acts + more + title_actions(dirty), dirty)
}

/// Whether the first preview is due.
pub open spec fn preview_due(s: PanoptPane) -> bool {
    s.mode == Mode::Todos && !s.initial_preview_done && s.slot_pane is Some && s.permitted
}

/// The first preview, once there is a slot for it.
pub open spec fn first_previewed(s: PanoptPane) -> (PanoptPane, Seq<ActionView>) {
    if preview_due(s) {
        let (shown, preview) = sidebar_slots::cursor_previewed(
            PanoptPane { initial_preview_delay: (s.initial_preview_delay + 1) as u32, ..s },
        );
        (
            PanoptPane { initial_preview_done: true, ..shown },
            preview + sidebar_events::refocus(s),
        )
    } else {
        (s, seq![])
    }
}

/// The steps of the poll.
pub open spec fn poll_steps() -> Seq<ActionView> {
    seq![
        ActionView::ReloadData,
        ActionView::ReconcileDisposed,
        ActionView::ReconcileStarting,
        ActionView::ObserveAgents,
        ActionView::DeliverInputs,
        ActionView::SyncPaneTitles,
        ActionView::SetTimer,
        ActionView::SyncFrameTitle,
    ]
}

/// What a second brings: the first preview, where it is due, and the poll.
pub open spec fn ticked(s: PanoptPane) -> (PanoptPane, Seq<ActionView>) {
    let (after, acts) = first_previewed(s);
    (after, acts + poll_steps())
}

/// A state with the list and the view of another.
pub open spec fn with_list_of(s: PanoptPane, other: PanoptPane) -> PanoptPane {
    PanoptPane {
        items: other.items,
        cursor: other.cursor,
        scroll: other.scroll,
        watched: other.watched,
        ..s
    }
}

/// What a report of the panes leads to: they are taken in, the list is built
/// anew, and the title follows.
pub open spec fn panes_update_to(
    s: PanoptPane,
    tabs: Seq<(usize, Vec<PaneInfo>)>,
    after: PanoptPane,
    acts: Seq<ActionView>,
) -> bool {
    let ingested = with_list_of(after, s);
    &&& acts.len() > 0
    &&& acts.last() == ActionView::SyncFrameTitle
    &&& sidebar_ingest::ingests_to(s, tabs, ingested, acts.drop_last())
    &&& ingested.rebuilds_to(after)
}

/// What an event leads to.
pub open spec fn updates_to(
    s: PanoptPane,
    event: Event,
    after: PanoptPane,
    acts: Seq<ActionView>,
    dirty: bool,
) -> bool {
    match event {
        Event::Permission(granted) => {
            &&& after == (PanoptPane { permitted: granted, ..s })
            &&& acts == seq![ActionView::SyncFrameTitle]
            &&& dirty
        },
        Event::Panes(manifest) => panes_update_to(s, manifest.tabs@, after, acts) && dirty,
        Event::Key(key) => key_updates_to(s, key, after, acts, dirty),
        Event::Mouse(mouse) => (after, acts, dirty) == mouse_updated(s, mouse),
        Event::Timer => (after, acts) == ticked(s) && dirty,
        Event::Other => after == s && acts == Seq::<ActionView>::empty() && !dirty,
    }
}

/// What an event needs of the machine's counters.
pub open spec fn can_update(s: PanoptPane, event: Event) -> bool {
    &&& sidebar_events::has_room(s)
    &&& s.initial_preview_delay < u32::MAX
    &&& event matches Event::Panes(manifest) ==> sidebar_ingest::can_number(s, manifest.tabs@)
}

/// A key's actions are those of the key, then those that follow it.
proof fn lemma_key_settles(
    s: PanoptPane,
    key: Key,
    acted: PanoptPane,
    after: PanoptPane,
    head: Seq<ActionView>,
    middle: Seq<ActionView>,
    taken: bool,
)
    requires
        sidebar_events::key_handled(s, key, acted, head, taken),
        sidebar_events::same_number(s, acted),
        (after, middle) == settled(s, acted),
    ensures
        key_updates_to(s, key, after, head + middle + title_actions(taken), taken),
{
    let tail = middle + title_actions(taken);
    let acts = head + middle + title_actions(taken);
    assert(renumbered(after, s) == acted);
    assert(acts =~= head + tail);
    assert(acts.take(acts.len() - tail.len()) =~= head);
    assert(acts.skip(acts.len() - tail.len()) =~= tail);
}

impl PanoptPane {
    /// Whether another view than this one is shown by now.
    fn shows_same(&self, before: &Shown) -> (r: bool)
        ensures
            r == before.is_shown(*self),
    {
        self.cursor == before.cursor && self.scroll == before.scroll && self.todo_filter
            == before.filter && self.todo_sort_1 == before.sort_1 && self.todo_sort_2
            == before.sort_2 && self.show_help == before.show_help
    }

    /// What is shown.
    pub fn view_fingerprint(&self) -> (r: Shown)
        ensures
            forall|s: PanoptPane| #[trigger] r.is_shown(s) == same_view(*self, s),
    {
        Shown {
            cursor: self.cursor,
            scroll: self.scroll,
            filter: self.todo_filter,
            sort_1: self.todo_sort_1,
            sort_2: self.todo_sort_2,
            show_help: self.show_help,
        }
    }

    /// Publishes the view where it is another than before.
    fn settle(&mut self, before: &Shown) -> (out: Vec<Action>)
        requires
            old(self).view_seq < u64::MAX,
        ensures
            (*final(self), host::actions(out@)) == (if before.is_shown(*old(self)) {
                (*old(self), seq![])
            } else {
                sidebar_reload::view_published(*old(self))
            }),
            *final(self) == renumbered(*old(self), *final(self)),
    {
        if self.shows_same(before) {
            host::no_actions()
        } else {
            self.bump_and_persist_view()
        }
    }

    /// Acts on a key, publishes a view that it changed, and lets the title
    /// follow.
    fn on_key(&mut self, key: Key) -> (r: (bool, Vec<Action>))
        requires
            old(self).wf(),
            sidebar_events::has_room(*old(self)),
        ensures
            key_updates_to(*old(self), key, *final(self), host::actions(r.1@), r.0),
            final(self).wf(),
    {
        let before = self.view_fingerprint();
        let (taken, mut out) = self.handle_key(key);
        let ghost head = host::actions(out@);
        let ghost acted = *self;
        let published = self.settle(&before);
        let ghost middle = host::actions(published@);
        host::append_actions(&mut out, published);
        if taken {
            host::push_action(&mut out, Action::SyncFrameTitle);
        }
        proof {
            assert(host::actions(out@) =~= head + middle + title_actions(taken));
            lemma_key_settles(*old(self), key, acted, *self, head, middle, taken);
        }
        (taken, out)
    }

    /// Acts on the mouse in the same way.
    fn on_mouse(&mut self, mouse: Mouse) -> (r: (bool, Vec<Action>))
        requires
            old(self).wf(),
            sidebar_events::has_room(*old(self)),
        ensures
            (*final(self), host::actions(r.1@), r.0) == mouse_updated(*old(self), mouse),
            final(self).wf(),
    {
        let before = self.view_fingerprint();
        let (dirty, mut out) = self.handle_mouse(mouse);
        let published = self.settle(&before);
        host::append_actions(&mut out, published);
        if dirty {
            host::push_action(&mut out, Action::SyncFrameTitle);
        }
        assert(host::actions(out@) =~= mouse_updated(*old(self), mouse).1);
        (dirty, out)
    }

    /// The first preview, where it is due.
    fn preview_first(&mut self) -> (out: Vec<Action>)
        requires
            old(self).next_viewer_slot < u32::MAX,
            old(self).initial_preview_delay < u32::MAX,
        ensures
            (*final(self), host::actions(out@)) == first_previewed(*old(self)),
            old(self).wf() ==> final(self).wf(),
    {
        if !(self.mode == Mode::Todos && !self.initial_preview_done && self.slot_pane.is_some()
            && self.permitted) {
            return host::no_actions();
        }
        self.initial_preview_delay = self.initial_preview_delay + 1;
        proof {
            sidebar_slots::law_preview_keeps_rest(*self);
        }
        let more = self.take_focus_back();
        let mut out = self.preview_cursor();
        host::append_actions(&mut out, more);
        self.initial_preview_done = true;
        out
    }

    /// A second has passed.
    fn tick(&mut self) -> (out: Vec<Action>)
        requires
            old(self).wf(),
            old(self).next_viewer_slot < u32::MAX,
            old(self).initial_preview_delay < u32::MAX,
        ensures
            (*final(self), host::actions(out@)) == ticked(*old(self)),
            final(self).wf(),
    {
        let mut out = self.preview_first();
        let steps = all_poll_steps();
        host::append_actions(&mut out, steps);
        out
    }

    /// Takes in a report of the panes.
    fn on_panes(&mut self, manifest: PaneManifest) -> (out: Vec<Action>)
        requires
            old(self).wf(),
            old(self).next_viewer_slot < u32::MAX,
            sidebar_ingest::can_number(*old(self), manifest.tabs@),
        ensures
            panes_update_to(*old(self), manifest.tabs@, *final(self), host::actions(out@)),
            final(self).wf(),
    {
        let mut out = self.ingest_panes(manifest);
        let ghost acts = host::actions(out@);
        let ghost ingested = *self;
        self.rebuild_items();
        host::push_action(&mut out, Action::SyncFrameTitle);
        proof {
            assert(with_list_of(*self, *old(self)) == ingested);
            assert(host::actions(out@).drop_last() =~= acts);
        }
        out
    }

    /// Acts on an event. Returns whether the pane is to be drawn again.
    pub fn update(&mut self, event: Event) -> (r: (bool, Vec<Action>))
        requires
            old(self).wf(),
            can_update(*old(self), event),
        ensures
            updates_to(*old(self), event, *final(self), host::actions(r.1@), r.0),
            final(self).wf(),
    {
        match event {
            Event::Permission(granted) => {
                self.permitted = granted;
                (true, host::one_action(Action::SyncFrameTitle))
            },
            Event::Panes(manifest) => (true, self.on_panes(manifest)),
            Event::Key(key) => self.on_key(key),
            Event::Mouse(mouse) => self.on_mouse(mouse),
            Event::Timer => (true, self.tick()),
            Event::Other => (false, host::no_actions()),
        }
    }

    /// Reads the files, and builds the list anew.
    pub fn refresh(&mut self, f: &Projected)
        requires
            old(self).wf(),
        ensures
            exists|loaded: PanoptPane|
                #[trigger] sidebar_reload::reloads_to(*old(self), *f, loaded)
                    && loaded.rebuilds_to(*final(self)),
            final(self).wf(),
    {
        self.reload_data(f);
        let ghost loaded = *self;
        self.rebuild_items();
        assert(sidebar_reload::reloads_to(*old(self), *f, loaded));
    }

    /// Takes over the shared view where it is newer, and builds the list anew.
    pub fn sync_view(&mut self, body: Option<&str>)
        requires
            old(self).wf(),
        ensures
            exists|adopted: PanoptPane|
                #[trigger] sidebar_reload::adopts_to(*old(self), body, adopted)
                    && adopted.rebuilds_to(*final(self)),
            final(self).wf(),
    {
        self.adopt_view_state(body);
        let ghost adopted = *self;
        self.rebuild_items();
        assert(sidebar_reload::adopts_to(*old(self), body, adopted));
    }
}

/// The steps of the poll.
fn all_poll_steps() -> (out: Vec<Action>)
    ensures
        host::actions(out@) == poll_steps(),
{
    let mut out = host::one_action(Action::ReloadData);
    host::push_action(&mut out, Action::ReconcileDisposed);
    host::push_action(&mut out, Action::ReconcileStarting);
    host::push_action(&mut out, Action::ObserveAgents);
    host::push_action(&mut out, Action::DeliverInputs);
    host::push_action(&mut out, Action::SyncPaneTitles);
    host::push_action(&mut out, Action::SetTimer);
    host::push_action(&mut out, Action::SyncFrameTitle);
    assert(host::actions(out@) =~= poll_steps());
    out
}

/// What a pane shows, to tell a change of it.
#[derive(Clone, Copy, PartialEq, Eq, Debug, Structural)]
pub struct Shown {
    pub cursor: usize,
    pub scroll: usize,
    pub filter: crate::modes::TodoFilter,
    pub sort_1: crate::modes::TodoSort,
    pub sort_2: crate::modes::TodoSort,
    pub show_help: bool,
}

impl Shown {
    /// Whether a pane shows this.
    pub open spec fn is_shown(self, s: PanoptPane) -> bool {
        &&& self.cursor == s.cursor
        &&& self.scroll == s.scroll
        &&& self.filter == s.todo_filter
        &&& self.sort_1 == s.todo_sort_1
        &&& self.sort_2 == s.todo_sort_2
        &&& self.show_help == s.show_help
    }
}

} // verus!
