//! What keys, the mouse and messages do to a pane of the sidebar.

use vstd::prelude::*;
use vstd::string::*;

use crate::gate_laws;
use crate::host::{ActionView, BareKey, Document, Event, Key, Mouse, PaneId};
use crate::modes::{Mode, TodoFilter, TodoSort};
use crate::sidebar;
use crate::sidebar::{ItemTarget, PanoptPane};
use crate::sidebar_events;
use crate::sidebar_events::KeyMeaning;
use crate::sidebar_gate;
use crate::sidebar_ingest;
use crate::sidebar_ingest::FocusSeen;
use crate::sidebar_items;
use crate::sidebar_pipe;
use crate::sidebar_reload;
use crate::sidebar_slots;
use crate::sidebar_update;
use crate::text;
use crate::wire;
use crate::wire_laws;

verus! {

/// A key, as it comes without Alt.
pub open spec fn plain(bare: BareKey) -> Key {
    Key { bare, alt: false }
}

/// The pane as a key finds it: what was refused before is forgotten.
pub open spec fn unrefused(s: PanoptPane) -> PanoptPane {
    PanoptPane { last_gate_refusal: None, ..s }
}

/// What a key does comes after the refusal was forgotten.
proof fn lemma_key(
    s: PanoptPane,
    key: Key,
    after: PanoptPane,
    acts: Seq<ActionView>,
    taken: bool,
    m: KeyMeaning,
)
    requires
        sidebar_events::key_handled(s, key, after, acts, taken),
        m == sidebar_events::key_meaning(unrefused(s), key),
    ensures
        taken == (m !is Unknown),
        s.last_gate_refusal is None ==> sidebar_events::key_leads_to(s, m, after, acts),
        s.last_gate_refusal is Some ==> acts.len() > 0 && sidebar_events::key_leads_to(
            unrefused(s),
            m,
            after,
            acts.skip(1),
        ),
{
    reveal(sidebar_events::key_handled);
    let (cleared, first) = sidebar_gate::refusal_cleared(s);
    assert(cleared == unrefused(s));
    assert(sidebar_events::key_leads_to(cleared, m, after, acts.skip(first.len() as int)));
    if s.last_gate_refusal is None {
        assert(first.len() == 0);
        assert(acts.skip(0) =~= acts);
        assert(cleared == s);
    } else {
        assert(first.len() == 1);
    }
}

/// The arrows step by one item, and stop at the ends; PageUp and PageDown step by
/// as many as the pane shows; Home leads to the first item and End to the last.
/// The selected item stays in the window.
pub proof fn law_keys_walk_over_the_items(
    s: PanoptPane,
    key: Key,
    after: PanoptPane,
    acts: Seq<ActionView>,
    taken: bool,
)
    requires
        sidebar_events::key_handled(s, key, after, acts, taken),
        !s.show_help,
        s.items.len() > 0,
        s.cursor < s.items.len(),
    ensures
        ({
            let n = s.items.len() as int;
            let at = |to: int|
                after.cursor == (if to < 0 {
                    0
                } else if to >= n {
                    n - 1
                } else {
                    to
                }) && taken && after.items == s.items && after.scroll <= after.cursor
                    < after.scroll + s.rows_shown();
            &&& key.bare == BareKey::Up ==> at(s.cursor - 1)
            &&& key.bare == BareKey::Down ==> at(s.cursor + 1)
            &&& key.bare == BareKey::PageUp ==> at(s.cursor - s.rows_shown())
            &&& key.bare == BareKey::PageDown ==> at(s.cursor + s.rows_shown())
            &&& key.bare == BareKey::Home ==> at(0)
            &&& key.bare == BareKey::End ==> at(n - 1)
        }),
{
    let t = unrefused(s);
    let meaning = sidebar_events::key_meaning(t, key);
    lemma_key(s, key, after, acts, taken, meaning);
    if let KeyMeaning::Step(delta) = meaning {
        t.law_cursor_stays_in_window(delta);
        let m = t.moved(delta);
        sidebar_slots::law_preview_keeps_rest(m);
        if s.last_gate_refusal is None {
            assert(s == t);
        }
        assert(after.cursor == m.cursor && after.items == m.items && after.scroll == m.scroll);
    }
}

/// Stepping shows the item that is selected then, and nothing is shown where the
/// selection did not move.
pub proof fn law_stepping_shows_the_item(s: PanoptPane, delta: int)
    ensures
        s.items.len() > 0 && s.moved(delta).cursor != s.cursor ==> sidebar_events::stepped_to(
            s,
            delta,
        ) == sidebar_slots::cursor_previewed(s.moved(delta)),
        s.items.len() == 0 || s.moved(delta).cursor == s.cursor ==> sidebar_events::stepped_to(
            s,
            delta,
        ) == (s.moved(delta), Seq::<ActionView>::empty()),
{
}

/// Enter acts on the selected item and gives it the focus.
pub proof fn law_enter_activates(
    s: PanoptPane,
    alt: bool,
    after: PanoptPane,
    acts: Seq<ActionView>,
    taken: bool,
)
    requires
        sidebar_events::key_handled(s, (Key { bare: BareKey::Enter, alt }), after, acts, taken),
        !s.show_help,
        s.last_gate_refusal is None,
    ensures
        taken,
        (after, acts) == sidebar_slots::item_activated(s, s.target_at_cursor(), true),
{
    assert(unrefused(s) == s);
    let key = Key { bare: BareKey::Enter, alt };
    assert(sidebar_events::key_meaning(s, key) == KeyMeaning::Activate);
    lemma_key(s, key, after, acts, taken, KeyMeaning::Activate);
}

/// `u` acts on the selected item and leaves the focus in the sidebar.
pub proof fn law_u_activates(
    s: PanoptPane,
    alt: bool,
    after: PanoptPane,
    acts: Seq<ActionView>,
    taken: bool,
)
    requires
        sidebar_events::key_handled(s, (Key { bare: BareKey::Char('u'), alt }), after, acts, taken),
        !s.show_help,
        s.last_gate_refusal is None,
    ensures
        taken,
        (after, acts) == sidebar_slots::item_activated(s, s.target_at_cursor(), false),
{
    assert(unrefused(s) == s);
    let key = Key { bare: BareKey::Char('u'), alt };
    assert(sidebar_events::key_meaning(s, key) == KeyMeaning::Start);
    lemma_key(s, key, after, acts, taken, KeyMeaning::Start);
}

/// `d` stops the selected item.
pub proof fn law_d_stops(
    s: PanoptPane,
    alt: bool,
    after: PanoptPane,
    acts: Seq<ActionView>,
    taken: bool,
)
    requires
        sidebar_events::key_handled(s, (Key { bare: BareKey::Char('d'), alt }), after, acts, taken),
        !s.show_help,
        s.last_gate_refusal is None,
    ensures
        taken,
        after == s,
        acts == sidebar_slots::cursor_stopped(s),
{
    assert(unrefused(s) == s);
    let key = Key { bare: BareKey::Char('d'), alt };
    assert(sidebar_events::key_meaning(s, key) == KeyMeaning::Stop);
    lemma_key(s, key, after, acts, taken, KeyMeaning::Stop);
}

/// `x` asks whether to delete the selected item.
pub proof fn law_x_deletes(
    s: PanoptPane,
    alt: bool,
    after: PanoptPane,
    acts: Seq<ActionView>,
    taken: bool,
)
    requires
        sidebar_events::key_handled(s, (Key { bare: BareKey::Char('x'), alt }), after, acts, taken),
        !s.show_help,
        s.last_gate_refusal is None,
    ensures
        taken,
        after == s,
        acts == sidebar_slots::cursor_deleted(s),
{
    assert(unrefused(s) == s);
    let key = Key { bare: BareKey::Char('x'), alt };
    assert(sidebar_events::key_meaning(s, key) == KeyMeaning::Delete);
    lemma_key(s, key, after, acts, taken, KeyMeaning::Delete);
}

/// Alt and `/` open the search; `/` alone is taken and does nothing.
pub proof fn law_slash_searches(
    s: PanoptPane,
    alt: bool,
    after: PanoptPane,
    acts: Seq<ActionView>,
    taken: bool,
)
    requires
        sidebar_events::key_handled(s, (Key { bare: BareKey::Char('/'), alt }), after, acts, taken),
        !s.show_help,
        s.last_gate_refusal is None,
    ensures
        taken,
        after == s,
        alt ==> acts == sidebar_slots::search_opened(s),
        !alt ==> acts.len() == 0,
{
    assert(unrefused(s) == s);
    let key = Key { bare: BareKey::Char('/'), alt };
    if alt {
        assert(sidebar_events::key_meaning(s, key) == KeyMeaning::Search);
        lemma_key(s, key, after, acts, taken, KeyMeaning::Search);
    } else {
        assert(sidebar_events::key_meaning(s, key) == KeyMeaning::Nothing);
        lemma_key(s, key, after, acts, taken, KeyMeaning::Nothing);
    }
}

/// `?` shows the help, and while it is shown any key takes it away and does
/// nothing else.
pub proof fn law_help_comes_and_goes(
    s: PanoptPane,
    key: Key,
    after: PanoptPane,
    acts: Seq<ActionView>,
    taken: bool,
)
    requires
        sidebar_events::key_handled(s, key, after, acts, taken),
        s.last_gate_refusal is None,
    ensures
        s.show_help ==> taken && after == (PanoptPane { show_help: false, ..s }) && acts.len() == 0,
        !s.show_help && key.bare == BareKey::Char('?') ==> taken && after == (PanoptPane {
            show_help: true,
            ..s
        }) && acts.len() == 0,
{
    assert(unrefused(s) == s);
    let m = sidebar_events::key_meaning(s, key);
    lemma_key(s, key, after, acts, taken, m);
    if s.show_help {
        assert(m == KeyMeaning::Dismiss);
    } else if key.bare == BareKey::Char('?') {
        assert(m == KeyMeaning::Help);
    }
}

/// `n` opens what is new in the pane: a todo, a note, or a config's form; in the
/// other panes it is not taken.
pub proof fn law_n_opens_what_is_new(
    s: PanoptPane,
    alt: bool,
    after: PanoptPane,
    acts: Seq<ActionView>,
    taken: bool,
)
    requires
        sidebar_events::key_handled(s, (Key { bare: BareKey::Char('n'), alt }), after, acts, taken),
        !s.show_help,
        s.last_gate_refusal is None,
    ensures
        match s.mode {
            Mode::Todos => taken && (after, acts) == sidebar_slots::document_opened(
                s,
                Document::NewTodo,
                true,
            ),
            Mode::Notes => taken && (after, acts) == sidebar_slots::document_opened(
                s,
                Document::NewNote,
                true,
            ),
            Mode::Agents => taken && (after, acts) == sidebar_slots::form_opened(
                s,
                Document::NewConfig,
            ),
            _ => !taken && after == s && acts.len() == 0,
        },
{
    assert(unrefused(s) == s);
    let key = Key { bare: BareKey::Char('n'), alt };
    match s.mode {
        Mode::Todos => {
            assert(sidebar_events::key_meaning(s, key) == KeyMeaning::Open(Document::NewTodo));
            lemma_key(s, key, after, acts, taken, KeyMeaning::Open(Document::NewTodo));
        },
        Mode::Notes => {
            assert(sidebar_events::key_meaning(s, key) == KeyMeaning::Open(Document::NewNote));
            lemma_key(s, key, after, acts, taken, KeyMeaning::Open(Document::NewNote));
        },
        Mode::Agents => {
            assert(sidebar_events::key_meaning(s, key) == KeyMeaning::NewConfig);
            lemma_key(s, key, after, acts, taken, KeyMeaning::NewConfig);
        },
        _ => {
            assert(sidebar_events::key_meaning(s, key) == KeyMeaning::Unknown);
            lemma_key(s, key, after, acts, taken, KeyMeaning::Unknown);
        },
    }
}

/// `e` edits the selected todo, or the selected config in its form; in the other
/// panes it is not taken.
pub proof fn law_e_edits(
    s: PanoptPane,
    alt: bool,
    after: PanoptPane,
    acts: Seq<ActionView>,
    taken: bool,
)
    requires
        sidebar_events::key_handled(s, (Key { bare: BareKey::Char('e'), alt }), after, acts, taken),
        !s.show_help,
        s.last_gate_refusal is None,
    ensures
        match s.mode {
            Mode::Todos => taken && match s.target_at_cursor() {
                Some(ItemTarget::Todo(id)) => (after, acts) == sidebar_slots::document_opened(
                    s,
                    Document::Todo(id),
                    true,
                ),
                _ => after == s && acts.len() == 0,
            },
            Mode::Agents => taken && match s.target_at_cursor() {
                Some(ItemTarget::Config(id)) => (after, acts) == sidebar_slots::form_opened(
                    s,
                    Document::Config(id),
                ),
                _ => after == s && acts.len() == 0,
            },
            _ => !taken && after == s && acts.len() == 0,
        },
{
    assert(unrefused(s) == s);
    let key = Key { bare: BareKey::Char('e'), alt };
    match s.mode {
        Mode::Todos => {
            assert(sidebar_events::key_meaning(s, key) == KeyMeaning::EditTodo);
            lemma_key(s, key, after, acts, taken, KeyMeaning::EditTodo);
        },
        Mode::Agents => {
            assert(sidebar_events::key_meaning(s, key) == KeyMeaning::EditConfig);
            lemma_key(s, key, after, acts, taken, KeyMeaning::EditConfig);
        },
        _ => {
            assert(sidebar_events::key_meaning(s, key) == KeyMeaning::Unknown);
            lemma_key(s, key, after, acts, taken, KeyMeaning::Unknown);
        },
    }
}

/// `L` opens the whole list of the todos or the notes.
pub proof fn law_l_opens_the_list(
    s: PanoptPane,
    alt: bool,
    after: PanoptPane,
    acts: Seq<ActionView>,
    taken: bool,
)
    requires
        sidebar_events::key_handled(s, (Key { bare: BareKey::Char('L'), alt }), after, acts, taken),
        !s.show_help,
        s.last_gate_refusal is None,
    ensures
        taken,
        match s.mode {
            Mode::Todos => (after, acts) == sidebar_slots::document_opened(
                s,
                Document::TodoList,
                true,
            ),
            Mode::Notes => (after, acts) == sidebar_slots::document_opened(
                s,
                Document::NoteList,
                true,
            ),
            _ => after == s && acts.len() == 0,
        },
{
    assert(unrefused(s) == s);
    let key = Key { bare: BareKey::Char('L'), alt };
    assert(sidebar_events::key_meaning(s, key) == KeyMeaning::ShowList);
    lemma_key(s, key, after, acts, taken, KeyMeaning::ShowList);
}

/// Alt and a digit ask another pane of the sidebar to take the focus: the one
/// whose hotkey it is.
pub proof fn law_alt_digits_move_the_focus(
    s: PanoptPane,
    mode: Mode,
    after: PanoptPane,
    acts: Seq<ActionView>,
    taken: bool,
)
    requires
        sidebar_events::key_handled(
            s,
            (Key { bare: BareKey::Char(mode.hotkey()), alt: true }),
            after,
            acts,
            taken,
        ),
        !s.show_help,
        s.last_gate_refusal is None,
    ensures
        taken,
        after == s,
        acts == seq![ActionView::Broadcast("panopt:focus-pane"@, mode.slug_text())],
{
    assert(unrefused(s) == s);
    let key = Key { bare: BareKey::Char(mode.hotkey()), alt: true };
    let m = sidebar_events::key_meaning(s, key);
    lemma_key(s, key, after, acts, taken, m);
    assert(m == KeyMeaning::FocusMode(mode));
}

/// The filters in the order in which `f` goes through them.
pub open spec fn filter_after(f: TodoFilter) -> TodoFilter {
    match f {
        TodoFilter::All => TodoFilter::Open,
        TodoFilter::Open => TodoFilter::Active,
        TodoFilter::Active => TodoFilter::InProgress,
        TodoFilter::InProgress => TodoFilter::Backlog,
        TodoFilter::Backlog => TodoFilter::Draft,
        TodoFilter::Draft => TodoFilter::Completed,
        TodoFilter::Completed => TodoFilter::NotDone,
        TodoFilter::NotDone => TodoFilter::All,
    }
}

/// The axes in the order in which `1` and `2` go through them.
pub open spec fn axis_after(a: TodoSort) -> TodoSort {
    match a {
        TodoSort::PriorityDesc => TodoSort::CreatedAsc,
        TodoSort::CreatedAsc => TodoSort::CreatedDesc,
        TodoSort::CreatedDesc => TodoSort::ModifiedAsc,
        TodoSort::ModifiedAsc => TodoSort::ModifiedDesc,
        TodoSort::ModifiedDesc => TodoSort::PriorityDesc,
    }
}

/// One step through the filters.
proof fn lemma_filter_step(a: TodoFilter, b: TodoFilter)
    ensures
        b.code() == (a.code() + 1) % 8 ==> b == filter_after(a),
        b.code() == (a.code() + 7) % 8 ==> filter_after(b) == a,
{
}

/// One step through the axes.
proof fn lemma_axis_step(a: TodoSort, b: TodoSort)
    ensures
        b.code() == (a.code() + 1) % 5 ==> b == axis_after(a),
        b.code() == (a.code() + 4) % 5 ==> axis_after(b) == a,
{
}

/// In the Todos pane `f` goes to the next filter and `F` to the one before, and
/// the list is built anew.
pub proof fn law_f_goes_through_the_filters(
    s: PanoptPane,
    back: bool,
    after: PanoptPane,
    acts: Seq<ActionView>,
    taken: bool,
)
    requires
        sidebar_events::key_handled(
            s,
            plain(
                BareKey::Char(
                    if back {
                        'F'
                    } else {
                        'f'
                    },
                ),
            ),
            after,
            acts,
            taken,
        ),
        !s.show_help,
        s.last_gate_refusal is None,
        s.mode == Mode::Todos,
    ensures
        taken,
        acts == seq![ActionView::SyncFrameTitle],
        !back ==> after.todo_filter == filter_after(s.todo_filter),
        back ==> filter_after(after.todo_filter) == s.todo_filter,
        sidebar_events::relisted((PanoptPane { todo_filter: after.todo_filter, ..s }), after),
{
    assert(unrefused(s) == s);
    let key = plain(
        BareKey::Char(
            if back {
                'F'
            } else {
                'f'
            },
        ),
    );
    assert(sidebar_events::key_meaning(s, key) == KeyMeaning::Filter(!back));
    lemma_key(s, key, after, acts, taken, KeyMeaning::Filter(!back));
    lemma_filter_step(s.todo_filter, after.todo_filter);
}

/// In the Todos pane `1` goes to the next first axis and `!` to the one before;
/// the list is built anew, from the top.
pub proof fn law_1_goes_through_the_axes(
    s: PanoptPane,
    back: bool,
    after: PanoptPane,
    acts: Seq<ActionView>,
    taken: bool,
)
    requires
        sidebar_events::key_handled(
            s,
            plain(
                BareKey::Char(
                    if back {
                        '!'
                    } else {
                        '1'
                    },
                ),
            ),
            after,
            acts,
            taken,
        ),
        !s.show_help,
        s.last_gate_refusal is None,
        s.mode == Mode::Todos,
    ensures
        taken,
        acts == seq![ActionView::SyncFrameTitle],
        !back ==> after.todo_sort_1 == axis_after(s.todo_sort_1),
        back ==> axis_after(after.todo_sort_1) == s.todo_sort_1,
        sidebar_events::relisted(
            (PanoptPane { todo_sort_1: after.todo_sort_1, cursor: 0, scroll: 0, ..s }),
            after,
        ),
{
    assert(unrefused(s) == s);
    let key = plain(
        BareKey::Char(
            if back {
                '!'
            } else {
                '1'
            },
        ),
    );
    assert(sidebar_events::key_meaning(s, key) == KeyMeaning::Sort(true, !back));
    lemma_key(s, key, after, acts, taken, KeyMeaning::Sort(true, !back));
    lemma_axis_step(s.todo_sort_1, after.todo_sort_1);
}

/// In the Todos pane `2` goes to the next second axis and `@` to the one before;
/// the list is built anew, from the top.
pub proof fn law_2_goes_through_the_axes(
    s: PanoptPane,
    back: bool,
    after: PanoptPane,
    acts: Seq<ActionView>,
    taken: bool,
)
    requires
        sidebar_events::key_handled(
            s,
            plain(
                BareKey::Char(
                    if back {
                        '@'
                    } else {
                        '2'
                    },
                ),
            ),
            after,
            acts,
            taken,
        ),
        !s.show_help,
        s.last_gate_refusal is None,
        s.mode == Mode::Todos,
    ensures
        taken,
        acts == seq![ActionView::SyncFrameTitle],
        !back ==> after.todo_sort_2 == axis_after(s.todo_sort_2),
        back ==> axis_after(after.todo_sort_2) == s.todo_sort_2,
        sidebar_events::relisted(
            (PanoptPane { todo_sort_2: after.todo_sort_2, cursor: 0, scroll: 0, ..s }),
            after,
        ),
{
    assert(unrefused(s) == s);
    let key = plain(
        BareKey::Char(
            if back {
                '@'
            } else {
                '2'
            },
        ),
    );
    assert(sidebar_events::key_meaning(s, key) == KeyMeaning::Sort(false, !back));
    lemma_key(s, key, after, acts, taken, KeyMeaning::Sort(false, !back));
    lemma_axis_step(s.todo_sort_2, after.todo_sort_2);
}

/// In the Todos pane `b` turns the bell on and off.
pub proof fn law_b_toggles_the_bell(
    s: PanoptPane,
    alt: bool,
    after: PanoptPane,
    acts: Seq<ActionView>,
    taken: bool,
)
    requires
        sidebar_events::key_handled(s, (Key { bare: BareKey::Char('b'), alt }), after, acts, taken),
        !s.show_help,
        s.last_gate_refusal is None,
        s.mode == Mode::Todos,
    ensures
        taken,
        after == (PanoptPane { idle_bell: !s.idle_bell, ..s }),
        acts.len() == 0,
{
    assert(unrefused(s) == s);
    let key = Key { bare: BareKey::Char('b'), alt };
    assert(sidebar_events::key_meaning(s, key) == KeyMeaning::ToggleBell);
    lemma_key(s, key, after, acts, taken, KeyMeaning::ToggleBell);
}

/// A list that was built anew holds the items of the pane as it is now; the
/// selection stays where it was as far as the list reaches, and the window stays
/// over the list. Nothing else changes but what is remembered of the agents.
pub proof fn law_list_is_built_anew(s: PanoptPane, after: PanoptPane)
    requires
        sidebar_events::relisted(s, after),
    ensures
        sidebar::item_views(after.items@) == sidebar_items::items_of(
            (PanoptPane { watched: after.watched, ..s }),
        ),
        after == (PanoptPane {
            items: after.items,
            cursor: after.cursor,
            scroll: after.scroll,
            watched: after.watched,
            ..s
        }),
        s.cursor < after.items.len() ==> after.cursor == s.cursor,
        0 < after.items.len() <= s.cursor ==> after.cursor == after.items.len() - 1,
        after.items.len() == 0 ==> after.cursor == 0 && after.scroll == 0,
        after.scroll <= s.scroll,
        s.mode != Mode::Agents ==> after.watched == s.watched,
        s.mode == Mode::Agents ==> after.watched@ == sidebar::watch_all(
            s.watched@,
            s.process_list(),
            s.pane_list(),
        ),
{
}

/// A click selects and opens the item that is drawn on that row, and the focus
/// comes back to the sidebar; a click beside the items does nothing. The wheel
/// steps by one.
pub proof fn law_mouse(s: PanoptPane, line: isize)
    ensures
        line < 0 || s.scroll + line >= s.items.len() ==> sidebar_events::moused(
            s,
            Mouse::LeftClick(line),
        ) == (s, Seq::<ActionView>::empty(), false),
        0 <= line && s.scroll + line < s.items.len() ==> {
            let (after, acts, taken) = sidebar_events::moused(s, Mouse::LeftClick(line));
            let chosen = PanoptPane { cursor: (s.scroll + line) as usize, ..s };
            let opened = sidebar_slots::item_activated(
                chosen,
                Some(s.items@[s.scroll + line].target),
                false,
            );
            &&& taken
            &&& after == opened.0
            &&& acts == opened.1 + (match s.plugin_pane {
                Some(me) => seq![ActionView::Focus(me)],
                None => seq![],
            })
        },
        sidebar_events::moused(s, Mouse::ScrollUp).0 == sidebar_events::stepped_to(s, -1).0,
        sidebar_events::moused(s, Mouse::ScrollUp).1 == sidebar_events::stepped_to(s, -1).1,
        sidebar_events::moused(s, Mouse::ScrollDown).0 == sidebar_events::stepped_to(s, 1).0,
        sidebar_events::moused(s, Mouse::ScrollDown).1 == sidebar_events::stepped_to(s, 1).1,
{
    if 0 <= line && s.scroll + line < s.items.len() {
        let chosen = PanoptPane { cursor: (s.scroll + line) as usize, ..s };
        sidebar_slots::law_activation_keeps_rest(
            chosen,
            Some(s.items@[s.scroll + line].target),
            false,
        );
    }
}

/// What an event changes of the view is published under the next number; an event
/// that leaves the view as it was publishes nothing.
pub proof fn law_changed_views_are_published(before: PanoptPane, now: PanoptPane)
    requires
        now.view_seq < u64::MAX,
    ensures
        ({
            let (after, acts) = sidebar_update::settled(before, now);
            let same = before.cursor == now.cursor && before.scroll == now.scroll
                && before.todo_filter == now.todo_filter && before.todo_sort_1 == now.todo_sort_1
                && before.todo_sort_2 == now.todo_sort_2 && before.show_help == now.show_help;
            &&& same ==> after == now && acts.len() == 0
            &&& !same ==> {
                &&& after.view_seq == now.view_seq + 1
                &&& after.last_applied_seq == after.view_seq
                &&& after == (PanoptPane {
                    view_seq: after.view_seq,
                    last_applied_seq: after.last_applied_seq,
                    ..now
                })
                &&& acts.len() == 2
                &&& acts[0] matches ActionView::WriteView(body) && wire::view_in(
                    body,
                    sidebar_reload::view_of(after),
                )
                &&& acts[1] == ActionView::Broadcast("panopt:view-sync"@, now.mode.slug_text())
            }
        }),
{
    let (after, acts) = sidebar_update::settled(before, now);
    wire_laws::law_view_state_round_trip(sidebar_reload::view_of(after));
}

/// A timer previews the selected item once, in the Todos pane, as soon as there is
/// a slot and permission; then it does all that a poll does, in this order: it
/// reloads, hides, starts, observes, delivers, and sets titles and the next timer.
pub proof fn law_timer_polls(s: PanoptPane)
    ensures
        ({
            let (after, acts) = sidebar_update::ticked(s);
            let due = s.mode == Mode::Todos && !s.initial_preview_done && s.slot_pane is Some
                && s.permitted;
            let n = acts.len() as int;
            &&& due ==> after.initial_preview_done
            &&& !due ==> after == s && n == 8
            &&& n >= 8
            &&& acts[n - 8] == ActionView::ReloadData
            &&& acts[n - 7] == ActionView::ReconcileDisposed
            &&& acts[n - 6] == ActionView::ReconcileStarting
            &&& acts[n - 5] == ActionView::ObserveAgents
            &&& acts[n - 4] == ActionView::DeliverInputs
            &&& acts[n - 3] == ActionView::SyncPaneTitles
            &&& acts[n - 2] == ActionView::SetTimer
            &&& acts[n - 1] == ActionView::SyncFrameTitle
        }),
{
    let first = sidebar_update::first_previewed(s).1;
    let acts = sidebar_update::ticked(s).1;
    let steps = sidebar_update::poll_steps();
    assert forall|k: int| 0 <= k < 8 implies acts[first.len() + k] == steps[k] by {}
}

/// A message that asks for the focus moves it to the pane it names, unless a
/// floating pane has it; one that a view was published has it read by the panes of
/// that mode alone.
pub proof fn law_messages_for_one_mode(
    s: PanoptPane,
    payload: Option<Seq<char>>,
    running: Seq<(PaneId, Seq<Seq<char>>)>,
)
    ensures
        ({
            let mine = payload == Some(s.mode.slug_text());
            let (a, focus, _x) = sidebar_pipe::piped(s, "panopt:focus-pane"@, payload, running);
            let (b, sync, drawn) = sidebar_pipe::piped(s, "panopt:view-sync"@, payload, running);
            &&& a == s && b == s
            &&& mine && !s.focused_is_floating && s.plugin_pane is Some ==> focus == seq![
                ActionView::Focus(s.plugin_pane->0),
            ]
            &&& !mine || s.focused_is_floating ==> focus.len() == 0
            &&& mine ==> sync == seq![ActionView::AdoptView] && drawn
            &&& !mine ==> sync.len() == 0 && !drawn
        }),
{
    reveal_strlit("panopt:focus-pane");
    reveal_strlit("panopt:view-sync");
    reveal_strlit("panopt:close-search");
    reveal_strlit("panopt:show-result");
    assert("panopt:focus-pane"@[7] == 'f');
    assert("panopt:view-sync"@[7] == 'v');
    assert("panopt:close-search"@[7] == 'c');
    assert("panopt:show-result"@[7] == 's');
}

/// What the gatekeeper does with each message: closing and quitting ask first
/// where work runs, decisions are carried out, and the rest opens what it names.
pub proof fn law_messages_for_the_gatekeeper(
    s: PanoptPane,
    payload: Option<Seq<char>>,
    running: Seq<(PaneId, Seq<Seq<char>>)>,
)
    requires
        s.mode == Mode::Todos,
    ensures
        ({
            let does = |name: Seq<char>, r: (PanoptPane, Seq<ActionView>)|
                sidebar_pipe::piped(s, name, payload, running) == (r.0, r.1, true);
            &&& does(
                "panopt:close-focus-request"@,
                sidebar_gate::focus_gated(s, running),
            )
            &&& does("panopt:close-tab-request"@, sidebar_gate::tab_gated(s, running))
            &&& does("panopt:quit-request"@, sidebar_gate::quit_gated(s, running))
            &&& does("panopt:close-gate-decision"@, sidebar_gate::close_answered(s, payload))
            &&& does("panopt:delete-gate-decision"@, (s, sidebar_gate::delete_answered(s, payload)))
            &&& does("panopt:spawn-agent"@, sidebar_gate::agent_asked(s, payload))
            &&& does("panopt:open-search"@, (s, sidebar_slots::search_opened(s)))
            &&& does("panopt:close-search"@, sidebar_slots::search_closed(s))
            &&& does("panopt:show-result"@, sidebar_gate::search_answered(s, payload))
            &&& payload matches Some(t) ==> does(
                "panopt:copy-to-clipboard"@,
                (s, seq![ActionView::Copy(t)]),
            )
            &&& !s.sidebar_focused ==> does(
                "panopt:spawn-blank-pane"@,
                sidebar_gate::blank_opened(s),
            )
            &&& s.sidebar_focused ==> sidebar_pipe::piped(
                s,
                "panopt:spawn-blank-pane"@,
                payload,
                running,
            ).0.last_gate_refusal is Some && sidebar_pipe::piped(
                s,
                "panopt:spawn-blank-pane"@,
                payload,
                running,
            ).1 == seq![ActionView::SyncFrameTitle]
        }),
{
    reveal_strlit("panopt:focus-pane");
    reveal_strlit("panopt:view-sync");
    reveal_strlit("panopt:close-search");
    reveal_strlit("panopt:show-result");
    reveal_strlit("panopt:close-focus-request");
    reveal_strlit("panopt:close-tab-request");
    reveal_strlit("panopt:quit-request");
    reveal_strlit("panopt:close-gate-decision");
    reveal_strlit("panopt:delete-gate-decision");
    reveal_strlit("panopt:spawn-agent");
    reveal_strlit("panopt:spawn-blank-pane");
    reveal_strlit("panopt:open-search");
    reveal_strlit("panopt:copy-to-clipboard");
    assert("panopt:focus-pane"@.len() == 17 && "panopt:view-sync"@.len() == 16
        && "panopt:close-search"@.len() == 19 && "panopt:show-result"@.len() == 18
        && "panopt:close-focus-request"@.len() == 26 && "panopt:close-tab-request"@.len() == 24
        && "panopt:quit-request"@.len() == 19 && "panopt:close-gate-decision"@.len() == 26
        && "panopt:delete-gate-decision"@.len() == 27 && "panopt:spawn-agent"@.len() == 18
        && "panopt:spawn-blank-pane"@.len() == 23 && "panopt:open-search"@.len() == 18
        && "panopt:copy-to-clipboard"@.len() == 24);
    assert("panopt:close-search"@[7] == 'c' && "panopt:quit-request"@[7] == 'q');
    assert("panopt:show-result"@[8] == 'h' && "panopt:spawn-agent"@[8] == 'p'
        && "panopt:open-search"@[7] == 'o' && "panopt:spawn-agent"@[7] == 's');
    assert("panopt:close-focus-request"@[13] == 'f' && "panopt:close-gate-decision"@[13] == 'g');
    assert("panopt:close-tab-request"@[8] == 'l' && "panopt:copy-to-clipboard"@[8] == 'o');
}

/// A new pane is refused while the sidebar has the focus.
pub proof fn law_no_pane_from_the_sidebar(s: PanoptPane, running: Seq<(PaneId, Seq<Seq<char>>)>)
    requires
        s.mode == Mode::Todos,
        s.sidebar_focused,
    ensures
        forall|pane: PaneId|
            !sidebar_gate::focus_gated(s, running).1.contains(ActionView::Close(pane)),
{
    assert forall|pane: PaneId|
        !sidebar_gate::focus_gated(s, running).1.contains(ActionView::Close(pane)) by {
        gate_laws::law_closing_a_pane(s, running, pane);
    }
}

/// The keys are locked when the focus goes to content and given back when it
/// comes to the sidebar, once each time; only the gatekeeper does so, and a report
/// without a focus changes nothing of it.
pub proof fn law_keys_are_locked_over_content(s: PanoptPane, f: FocusSeen)
    ensures
        ({
            let (after, acts) = sidebar_ingest::focus_tracked(s, f);
            &&& !f.any ==> acts.len() == 0 && after.sidebar_focused == s.sidebar_focused
                && after.focused_tab == s.focused_tab
            &&& f.any ==> after.sidebar_focused == f.sidebar && after.focused_is_floating
                == f.floating && after.focused_tab == f.tab
            &&& s.mode != Mode::Todos ==> acts.len() == 0
            &&& f.any && s.mode == Mode::Todos ==> after.last_emitted_locked == Some(!f.sidebar)
            &&& f.any && s.mode == Mode::Todos && s.last_emitted_locked != Some(!f.sidebar) ==> acts
                == seq![ActionView::SetLocked(!f.sidebar)]
            &&& s.last_emitted_locked == Some(!f.sidebar) ==> acts.len() == 0
            &&& f.content is Some ==> after.slot_pane == f.content
            &&& f.content is None ==> after.slot_pane == s.slot_pane
        }),
{
}

/// The number of content panes is published by the gatekeeper where it changed,
/// and only there.
pub proof fn law_count_is_published_where_it_changed(s: PanoptPane)
    ensures
        ({
            let n = sidebar_gate::content_count(s.pane_list()) as usize;
            let (after, acts) = sidebar_gate::count_published(s);
            &&& s.mode == Mode::Todos ==> after.last_content_count == Some(n)
            &&& s.mode == Mode::Todos && s.last_content_count != Some(n) ==> acts == seq![
                ActionView::WriteCount(n),
            ]
            &&& s.mode != Mode::Todos || s.last_content_count == Some(n) ==> acts.len() == 0
                && after == s
        }),
{
}

/// A blank pane is a viewer of its own that shows nothing: it has a slot that no
/// viewer had before, is tiled beside the others, and is opened only where it can be.
pub proof fn law_blank_pane_is_an_empty_viewer(s: PanoptPane)
    requires
        s.next_viewer_slot < u32::MAX,
    ensures
        ({
            let (after, acts) = sidebar_gate::blank_opened(s);
            let slot = seq!['v', s.mode.letter_char()] + text::decimal(
                (s.next_viewer_slot + 1) as nat,
            );
            let may = s.permitted && s.ws is Some;
            &&& !may ==> after == s && acts.len() == 0
            &&& may ==> {
                &&& after == (PanoptPane { next_viewer_slot: after.next_viewer_slot, ..s })
                &&& after.next_viewer_slot == s.next_viewer_slot + 1
                &&& acts.len() == 2
                &&& acts[0] == (ActionView::Route { viewer: slot, document: Document::Empty })
                &&& acts[1] matches ActionView::OpenTiled(args) && args.len() == 7 && args[0]
                    == "_viewer"@ && args[1] == "--slot"@ && args[2] == slot && args[3]
                    == "--port"@ && args[4] == s.port@ && args[5] == "--kind"@ && args[6]
                    == Document::Empty.kind_text()
            }
        }),
{
    reveal_strlit("v");
    assert("v"@.push(s.mode.letter_char()) =~= seq!['v', s.mode.letter_char()]);
}

/// The first preview shows the item at the cursor, leaves the focus with the
/// sidebar, and is not made again.
pub proof fn law_first_preview_shows_the_item(s: PanoptPane)
    requires
        s.mode == Mode::Todos,
        !s.initial_preview_done,
        s.slot_pane is Some,
        s.permitted,
        s.initial_preview_delay < u32::MAX,
    ensures
        ({
            let (after, acts) = sidebar_update::first_previewed(s);
            let (shown, preview) = sidebar_slots::cursor_previewed(
                PanoptPane { initial_preview_delay: (s.initial_preview_delay + 1) as u32, ..s },
            );
            &&& after == (PanoptPane { initial_preview_done: true, ..shown })
            &&& s.plugin_pane is Some ==> acts == preview.push(
                ActionView::Focus(s.plugin_pane->0),
            )
            &&& s.plugin_pane is None ==> acts == preview
            &&& sidebar_update::first_previewed(after) == (after, Seq::<ActionView>::empty())
        }),
{
    let (after, acts) = sidebar_update::first_previewed(s);
    let preview = sidebar_slots::cursor_previewed(
        PanoptPane { initial_preview_delay: (s.initial_preview_delay + 1) as u32, ..s },
    ).1;
    if s.plugin_pane is Some {
        assert(acts =~= preview.push(ActionView::Focus(s.plugin_pane->0)));
    } else {
        assert(acts =~= preview);
    }
}

/// Whatever an event changes of what a sidebar shows, the others are told of once,
/// under the next number; what it leaves, they are not. Where a title may have
/// changed, it is set last.
pub proof fn law_events_are_settled(
    s: PanoptPane,
    event: Event,
    after: PanoptPane,
    acts: Seq<ActionView>,
    dirty: bool,
)
    requires
        s.view_seq < u64::MAX,
        event is Key || event is Mouse,
        sidebar_update::updates_to(s, event, after, acts, dirty),
    ensures
        ({
            let same = s.cursor == after.cursor && s.scroll == after.scroll && s.todo_filter
                == after.todo_filter && s.todo_sort_1 == after.todo_sort_1 && s.todo_sort_2
                == after.todo_sort_2 && s.show_help == after.show_help;
            &&& event is Key && same ==> after.view_seq == s.view_seq && after.last_applied_seq
                == s.last_applied_seq
            &&& event is Key && !same ==> after.view_seq == s.view_seq + 1
                && after.last_applied_seq == after.view_seq
            &&& dirty ==> acts.len() > 0 && acts.last() == ActionView::SyncFrameTitle
        }),
{
    if let Event::Key(key) = event {
        let acted = sidebar_update::renumbered(after, s);
        let tail = sidebar_update::settled(s, acted).1 + sidebar_update::title_actions(dirty);
        if dirty {
            assert(acts.skip(acts.len() - tail.len()).last() == tail.last());
            assert(acts.last() == tail.last());
        }
    }
}

} // verus!
