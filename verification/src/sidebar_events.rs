//! What happens to the sidebar: it is loaded, keys are pressed, the mouse is
//! used, time passes, and messages come through pipes.

use vstd::prelude::*;
use vstd::string::*;

use crate::host;
use crate::host::{Action, ActionView, BareKey, Document, Key, Mouse, PaneId};
use crate::modes::{Mode, TodoSort};
use crate::sidebar;
use crate::sidebar::{ItemTarget, PanoptPane};
use crate::sidebar_gate;
use crate::sidebar_slots;
use crate::text;

verus! {

// ---------------------------------------------------------------------------
// Loading
// ---------------------------------------------------------------------------

/// What the layout configures of a sidebar pane.
pub struct Settings<'a> {
    pub mode: Option<&'a str>,
    pub ws: Option<&'a str>,
    pub panopt_bin: Option<&'a str>,
    pub port: Option<&'a str>,
    pub idle_bell: Option<&'a str>,
}

/// Whether a mode has the name.
pub open spec fn is_mode_name(name: Option<&str>) -> bool {
    match name {
        Some(n) => exists|m: Mode| n@ == #[trigger] m.slug_text(),
        None => false,
    }
}

/// Whether a setting switches something off.
pub open spec fn is_off(setting: Option<&str>) -> bool {
    match setting {
        Some(v) => v@ == "false"@ || v@ == "0"@ || v@ == "off"@ || v@ == "no"@,
        None => false,
    }
}

/// A setting, or what stands in for it.
pub open spec fn setting_or(setting: Option<&str>, default: Seq<char>) -> Seq<char> {
    match setting {
        Some(v) => v@,
        None => default,
    }
}

/// What a pane is after it was loaded.
pub open spec fn loads_with(s: PanoptPane, f: Settings, plugin: u32, after: PanoptPane) -> bool {
    &&& after == (PanoptPane {
        mode: after.mode,
        mode_known: is_mode_name(f.mode),
        ws: after.ws,
        panopt_bin: after.panopt_bin,
        port: after.port,
        idle_bell: !is_off(f.idle_bell),
        todo_sort_2: TodoSort::CreatedAsc,
        plugin_pane: Some(PaneId::Plugin(plugin)),
        ..s
    })
    &&& if is_mode_name(f.mode) {
        after.mode.slug_text() == setting_or(f.mode, seq![])
    } else {
        after.mode == Mode::Todos
    }
    &&& text::opt_text(after.ws) == text::opt_str(f.ws)
    &&& after.panopt_bin@ == setting_or(f.panopt_bin, "panopt"@)
    &&& after.port@ == setting_or(f.port, "7600"@)
}

/// What a pane asks for when it is loaded: the gatekeeper clears what an
/// earlier session left, and all read their files.
pub open spec fn load_actions(mode: Mode) -> Seq<ActionView> {
    (if mode == Mode::Todos {
        seq![ActionView::ClearShared]
    } else {
        seq![]
    }) + seq![ActionView::ReloadData, ActionView::SyncFrameTitle, ActionView::SetTimer]
}

/// An owned copy of a setting, or of what stands in for it.
fn owned_or(setting: Option<&str>, default: &str) -> (r: String)
    ensures
        r@ == setting_or(setting, default@),
{
    match setting {
        Some(v) => v.to_owned(),
        None => default.to_owned(),
    }
}

// ---------------------------------------------------------------------------
// Keys
// ---------------------------------------------------------------------------

/// What a key means to a pane.
pub enum KeyMeaning {
    /// The help goes away.
    Dismiss,
    /// The cursor steps so many rows.
    Step(int),
    Activate,
    EditTodo,
    EditConfig,
    Open(Document),
    NewConfig,
    ShowList,
    /// Another pane of the sidebar gets the focus.
    FocusMode(Mode),
    /// The next filter, or the one before.
    Filter(bool),
    /// The next axis of a sort level, or the one before.
    Sort(bool, bool),
    ToggleBell,
    Delete,
    Start,
    Stop,
    Help,
    Search,
    /// The key is taken and does nothing.
    Nothing,
    /// The key is not taken.
    Unknown,
}

/// What a character means to a pane.
pub open spec fn char_meaning(mode: Mode, c: char, alt: bool) -> KeyMeaning {
    if c == 'e' && mode == Mode::Todos {
        KeyMeaning::EditTodo
    } else if c == 'e' && mode == Mode::Agents {
        KeyMeaning::EditConfig
    } else if c == 'n' && mode == Mode::Todos {
        KeyMeaning::Open(Document::NewTodo)
    } else if c == 'n' && mode == Mode::Notes {
        KeyMeaning::Open(Document::NewNote)
    } else if c == 'n' && mode == Mode::Agents {
        KeyMeaning::NewConfig
    } else if c == 'L' {
        KeyMeaning::ShowList
    } else if alt && c == '1' {
        KeyMeaning::FocusMode(Mode::Todos)
    } else if alt && c == '2' {
        KeyMeaning::FocusMode(Mode::Agents)
    } else if alt && c == '3' {
        KeyMeaning::FocusMode(Mode::Terminals)
    } else if alt && c == '4' {
        KeyMeaning::FocusMode(Mode::Commands)
    } else if alt && c == '5' {
        KeyMeaning::FocusMode(Mode::Notes)
    } else if c == 'f' && mode == Mode::Todos {
        KeyMeaning::Filter(true)
    } else if c == 'F' && mode == Mode::Todos {
        KeyMeaning::Filter(false)
    } else if c == '1' && mode == Mode::Todos {
        KeyMeaning::Sort(true, true)
    } else if c == '!' && mode == Mode::Todos {
        KeyMeaning::Sort(true, false)
    } else if c == '2' && mode == Mode::Todos {
        KeyMeaning::Sort(false, true)
    } else if c == '@' && mode == Mode::Todos {
        KeyMeaning::Sort(false, false)
    } else if c == 'b' && mode == Mode::Todos {
        KeyMeaning::ToggleBell
    } else if c == 'x' {
        KeyMeaning::Delete
    } else if c == 'u' {
        KeyMeaning::Start
    } else if c == 'd' {
        KeyMeaning::Stop
    } else if c == '?' {
        KeyMeaning::Help
    } else if c == '/' {
        if alt {
            KeyMeaning::Search
        } else {
            KeyMeaning::Nothing
        }
    } else {
        KeyMeaning::Unknown
    }
}

/// What a key means to a pane. While the help is up, every key takes it away.
pub open spec fn key_meaning(s: PanoptPane, key: Key) -> KeyMeaning {
    if s.show_help {
        KeyMeaning::Dismiss
    } else {
        match key.bare {
            BareKey::Up => KeyMeaning::Step(-1),
            BareKey::Down => KeyMeaning::Step(1),
            BareKey::PageUp => KeyMeaning::Step(-s.rows_shown()),
            BareKey::PageDown => KeyMeaning::Step(s.rows_shown()),
            BareKey::Home => KeyMeaning::Step(-(s.items.len() as int)),
            BareKey::End => KeyMeaning::Step(s.items.len() as int),
            BareKey::Enter => KeyMeaning::Activate,
            BareKey::Char(c) => char_meaning(s.mode, c, key.alt),
            BareKey::Other => KeyMeaning::Unknown,
        }
    }
}

/// The cursor steps, and what it comes to is previewed.
pub open spec fn stepped_to(s: PanoptPane, delta: int) -> (PanoptPane, Seq<ActionView>) {
    if s.moves(delta) {
        sidebar_slots::cursor_previewed(s.moved(delta))
    } else {
        (s.moved(delta), seq![])
    }
}

/// What a list is after its filter or its order changed.
pub open spec fn relisted(s: PanoptPane, after: PanoptPane) -> bool {
    s.rebuilds_to(after)
}

/// What a key leads to.
pub open spec fn key_leads_to(
    s: PanoptPane,
    m: KeyMeaning,
    after: PanoptPane,
    acts: Seq<ActionView>,
) -> bool {
    match m {
        KeyMeaning::Dismiss => after == (PanoptPane { show_help: false, ..s }) && acts
            == Seq::<ActionView>::empty(),
        KeyMeaning::Step(delta) => (after, acts) == stepped_to(s, delta),
        KeyMeaning::Activate => (after, acts) == sidebar_slots::item_activated(
            s,
            s.target_at_cursor(),
            true,
        ),
        KeyMeaning::EditTodo => match s.target_at_cursor() {
            Some(ItemTarget::Todo(id)) => (after, acts) == sidebar_slots::document_opened(
                s,
                Document::Todo(id),
                true,
            ),
            _ => after == s && acts == Seq::<ActionView>::empty(),
        },
        KeyMeaning::EditConfig => match s.target_at_cursor() {
            Some(ItemTarget::Config(id)) => (after, acts) == sidebar_slots::form_opened(
                s,
                Document::Config(id),
            ),
            _ => after == s && acts == Seq::<ActionView>::empty(),
        },
        KeyMeaning::Open(d) => (after, acts) == sidebar_slots::document_opened(s, d, true),
        KeyMeaning::NewConfig => (after, acts) == sidebar_slots::form_opened(
            s,
            Document::NewConfig,
        ),
        KeyMeaning::ShowList => match s.mode {
            Mode::Todos => (after, acts) == sidebar_slots::document_opened(
                s,
                Document::TodoList,
                true,
            ),
            Mode::Notes => (after, acts) == sidebar_slots::document_opened(
                s,
                Document::NoteList,
                true,
            ),
            _ => after == s && acts == Seq::<ActionView>::empty(),
        },
        KeyMeaning::FocusMode(mode) => after == s && acts == seq![
            ActionView::Broadcast("panopt:focus-pane"@, mode.slug_text()),
        ],
        KeyMeaning::Filter(forward) => {
            &&& after.todo_filter.code() == (s.todo_filter.code() + if forward {
                1int
            } else {
                7int
            }) % 8
            &&& relisted(PanoptPane { todo_filter: after.todo_filter, ..s }, after)
            &&& acts == seq![ActionView::SyncFrameTitle]
        },
        KeyMeaning::Sort(first, forward) => {
            let step: int = if forward {
                1
            } else {
                4
            };
            let before = if first {
                s.todo_sort_1
            } else {
                s.todo_sort_2
            };
            let now = if first {
                after.todo_sort_1
            } else {
                after.todo_sort_2
            };
            &&& now.code() == (before.code() + step) % 5
            &&& relisted(
                if first {
                    PanoptPane { todo_sort_1: now, cursor: 0, scroll: 0, ..s }
                } else {
                    PanoptPane { todo_sort_2: now, cursor: 0, scroll: 0, ..s }
                },
                after,
            )
            &&& acts == seq![ActionView::SyncFrameTitle]
        },
        KeyMeaning::ToggleBell => after == (PanoptPane { idle_bell: !s.idle_bell, ..s }) && acts
            == Seq::<ActionView>::empty(),
        KeyMeaning::Delete => after == s && acts == sidebar_slots::cursor_deleted(s),
        KeyMeaning::Start => (after, acts) == sidebar_slots::item_activated(
            s,
            s.target_at_cursor(),
            false,
        ),
        KeyMeaning::Stop => after == s && acts == sidebar_slots::cursor_stopped(s),
        KeyMeaning::Help => after == (PanoptPane { show_help: true, ..s }) && acts
            == Seq::<ActionView>::empty(),
        KeyMeaning::Search => after == s && acts == sidebar_slots::search_opened(s),
        KeyMeaning::Nothing => after == s && acts == Seq::<ActionView>::empty(),
        KeyMeaning::Unknown => after == s && acts == Seq::<ActionView>::empty(),
    }
}

/// The machine's counters have room for one more step.
pub open spec fn has_room(s: PanoptPane) -> bool {
    s.next_viewer_slot < u32::MAX && s.view_seq < u64::MAX
}

impl PanoptPane {
    /// Takes the settings of the layout.
    pub fn load(&mut self, f: &Settings, plugin: u32) -> (out: Vec<Action>)
        requires
            old(self).wf(),
        ensures
            loads_with(*old(self), *f, plugin, *final(self)),
            final(self).wf(),
            host::actions(out@) == load_actions(final(self).mode),
    {
        let named = match f.mode {
            Some(name) => Mode::parse(name),
            None => None,
        };
        let (mode, known) = match named {
            Some(mode) => (mode, true),
            None => (Mode::Todos, false),
        };
        assert(known == is_mode_name(f.mode)) by {
            if let Some(m) = named {
                assert(f.mode->0@ == m.slug_text());
            }
        }
        let off = match f.idle_bell {
            Some(v) => text::same(v, "false") || text::same(v, "0") || text::same(v, "off")
                || text::same(v, "no"),
            None => false,
        };
        let ws = match f.ws {
            Some(v) => Some(v.to_owned()),
            None => None,
        };
        let bin = owned_or(f.panopt_bin, "panopt");
        let port = owned_or(f.port, "7600");
        self.mode = mode;
        self.mode_known = known;
        self.ws = ws;
        self.panopt_bin = bin;
        self.port = port;
        self.idle_bell = !off;
        self.todo_sort_2 = TodoSort::CreatedAsc;
        self.plugin_pane = Some(PaneId::Plugin(plugin));
        let mut out = host::no_actions();
        if mode == Mode::Todos {
            host::push_action(&mut out, Action::ClearShared);
        }
        host::push_action(&mut out, Action::ReloadData);
        host::push_action(&mut out, Action::SyncFrameTitle);
        host::push_action(&mut out, Action::SetTimer);
        assert(host::actions(out@) =~= load_actions(mode));
        out
    }

    /// Steps the cursor and previews what it comes to.
    fn step(&mut self, delta: i128) -> (out: Vec<Action>)
        requires
            old(self).next_viewer_slot < u32::MAX,
            -(u64::MAX as int) <= delta <= u64::MAX,
        ensures
            (*final(self), host::actions(out@)) == stepped_to(*old(self), delta as int),
            old(self).wf() ==> final(self).wf(),
            same_number(*old(self), *final(self)),
    {
        if self.step_cursor(delta) {
            proof {
                sidebar_slots::law_preview_keeps_rest(*self);
            }
            self.preview_cursor()
        } else {
            host::no_actions()
        }
    }

    /// Steps the todo filter; only the pane of the todos has one.
    pub fn cycle_todo_filter(&mut self, forward: bool) -> (out: Vec<Action>)
        requires
            old(self).wf(),
        ensures
            key_leads_to(
                *old(self),
                if old(self).mode == Mode::Todos {
                    KeyMeaning::Filter(forward)
                } else {
                    KeyMeaning::Nothing
                },
                *final(self),
                host::actions(out@),
            ),
            final(self).wf(),
    {
        if self.mode != Mode::Todos {
            return host::no_actions();
        }
        let filter = if forward {
            self.todo_filter.next()
        } else {
            self.todo_filter.prev()
        };
        self.todo_filter = filter;
        self.rebuild_items();
        host::one_action(Action::SyncFrameTitle)
    }

    /// Steps the axis of the first or the second sort level, and goes back to
    /// the head of the list; there are no other levels, and only the pane of
    /// the todos has them.
    pub fn cycle_todo_sort(&mut self, level: u8, forward: bool) -> (out: Vec<Action>)
        requires
            old(self).wf(),
        ensures
            key_leads_to(
                *old(self),
                if old(self).mode == Mode::Todos && (level == 1 || level == 2) {
                    KeyMeaning::Sort(level == 1, forward)
                } else {
                    KeyMeaning::Nothing
                },
                *final(self),
                host::actions(out@),
            ),
            final(self).wf(),
    {
        if self.mode != Mode::Todos {
            return host::no_actions();
        }
        match level {
            1 => self.step_axis(true, forward),
            2 => self.step_axis(false, forward),
            _ => host::no_actions(),
        }
    }

    /// Steps the axis of a sort level, and goes back to the head of the list.
    fn step_axis(&mut self, first: bool, forward: bool) -> (out: Vec<Action>)
        requires
            old(self).wf(),
        ensures
            key_leads_to(
                *old(self),
                KeyMeaning::Sort(first, forward),
                *final(self),
                host::actions(out@),
            ),
            final(self).wf(),
    {
        let axis = if first {
            self.todo_sort_1
        } else {
            self.todo_sort_2
        };
        let axis = if forward {
            axis.next()
        } else {
            axis.prev()
        };
        if first {
            self.todo_sort_1 = axis;
        } else {
            self.todo_sort_2 = axis;
        }
        self.cursor = 0;
        self.scroll = 0;
        self.rebuild_items();
        host::one_action(Action::SyncFrameTitle)
    }

    /// Asks another pane of the sidebar to take the focus.
    pub fn request_focus_pane(&self, target: Mode) -> (out: Vec<Action>)
        ensures
            host::actions(out@) == seq![
                ActionView::Broadcast("panopt:focus-pane"@, target.slug_text()),
            ],
    {
        host::one_action(
            Action::Broadcast("panopt:focus-pane".to_owned(), target.slug().to_owned()),
        )
    }
}

/// Whether a view has the number that it had.
pub open spec fn same_number(s: PanoptPane, after: PanoptPane) -> bool {
    after.view_seq == s.view_seq && after.last_applied_seq == s.last_applied_seq
}

/// Whether a key is taken, what it leads to, and that the pane stays sound.
pub open spec fn key_taken(
    s: PanoptPane,
    m: KeyMeaning,
    after: PanoptPane,
    out: Option<Vec<Action>>,
) -> bool {
    &&& s.wf() ==> after.wf()
    &&& same_number(s, after)
    &&& match out {
        Some(acts) => m !is Unknown && key_leads_to(s, m, after, host::actions(acts@)),
        None => m is Unknown && after == s,
    }
}

/// What a keypress leads to: a refusal is forgotten, then the key acts.
#[verifier::opaque]
pub open spec fn key_handled(
    s: PanoptPane,
    key: Key,
    after: PanoptPane,
    acts: Seq<ActionView>,
    taken: bool,
) -> bool {
    let (cleared, first) = sidebar_gate::refusal_cleared(s);
    let m = key_meaning(cleared, key);
    &&& taken == (m !is Unknown)
    &&& acts.len() >= first.len()
    &&& acts.take(first.len() as int) == first
    &&& key_leads_to(cleared, m, after, acts.skip(first.len() as int))
}

impl PanoptPane {
    /// Acts on a letter that some modes know.
    fn press_mode_char(&mut self, c: char) -> (r: Option<Vec<Action>>)
        requires
            old(self).wf(),
            has_room(*old(self)),
            c == 'e' || c == 'n' || c == 'f' || c == 'F' || c == '!' || c == '@' || c == 'b' || c
                == '1' || c == '2',
        ensures
            key_taken(*old(self), char_meaning(old(self).mode, c, false), *final(self), r),
    {
        match self.mode {
            Mode::Todos => Some(self.press_todos_char(c)),
            Mode::Notes => if c == 'n' {
                Some(self.open_document(Document::NewNote, true))
            } else {
                None
            },
            Mode::Agents => if c == 'e' {
                Some(self.edit_focused_config())
            } else if c == 'n' {
                Some(self.spawn_config_form(Document::NewConfig))
            } else {
                None
            },
            _ => None,
        }
    }

    /// Acts on a letter that the Todos pane knows.
    fn press_todos_char(&mut self, c: char) -> (out: Vec<Action>)
        requires
            old(self).wf(),
            has_room(*old(self)),
            old(self).mode == Mode::Todos,
            c == 'e' || c == 'n' || c == 'f' || c == 'F' || c == '!' || c == '@' || c == 'b' || c
                == '1' || c == '2',
        ensures
            key_taken(
                *old(self),
                char_meaning(old(self).mode, c, false),
                *final(self),
                Some(out),
            ),
    {
        if c == 'e' {
            self.edit_focused_todo()
        } else if c == 'n' {
            self.open_document(Document::NewTodo, true)
        } else if c == 'f' {
            self.cycle_todo_filter(true)
        } else if c == 'F' {
            self.cycle_todo_filter(false)
        } else if c == '1' {
            self.cycle_todo_sort(1, true)
        } else if c == '!' {
            self.cycle_todo_sort(1, false)
        } else if c == '2' {
            self.cycle_todo_sort(2, true)
        } else if c == '@' {
            self.cycle_todo_sort(2, false)
        } else {
            self.idle_bell = !self.idle_bell;
            host::no_actions()
        }
    }

    /// Acts on a letter that every mode knows.
    #[verifier::rlimit(60)]
    #[verifier::spinoff_prover]
    fn press_common_char(&mut self, c: char, alt: bool) -> (r: Option<Vec<Action>>)
        requires
            old(self).wf(),
            has_room(*old(self)),
            !(c == 'e' || c == 'n' || c == 'f' || c == 'F' || c == '!' || c == '@' || c == 'b'),
            alt || !(c == '1' || c == '2'),
        ensures
            key_taken(*old(self), char_meaning(old(self).mode, c, alt), *final(self), r),
    {
        if c == 'L' {
            return Some(self.open_mode_list(true));
        }
        if alt {
            if let Some(target) = Mode::from_hotkey(c) {
                return Some(self.request_focus_pane(target));
            }
            proof {
                assert(c != Mode::Todos.hotkey() && c != Mode::Agents.hotkey() && c
                    != Mode::Terminals.hotkey() && c != Mode::Commands.hotkey() && c
                    != Mode::Notes.hotkey());
            }
        }
        if c == 'x' {
            Some(self.delete_focused())
        } else if c == 'u' {
            Some(self.start_focused())
        } else if c == 'd' {
            Some(self.stop_focused())
        } else if c == '?' {
            self.show_help = true;
            Some(host::no_actions())
        } else if c == '/' {
            if alt {
                Some(self.spawn_search_dialog())
            } else {
                Some(host::no_actions())
            }
        } else {
            None
        }
    }

    /// Acts on a character.
    fn press_char(&mut self, c: char, alt: bool) -> (r: Option<Vec<Action>>)
        requires
            old(self).wf(),
            has_room(*old(self)),
        ensures
            key_taken(*old(self), char_meaning(old(self).mode, c, alt), *final(self), r),
    {
        if c == 'e' || c == 'n' || c == 'f' || c == 'F' || c == '!' || c == '@' || c == 'b' || (
        !alt && (c == '1' || c == '2')) {
            self.press_mode_char(c)
        } else {
            self.press_common_char(c, alt)
        }
    }

    /// How far a key steps the cursor.
    fn steps_of(&self, key: Key) -> (r: Option<i128>)
        ensures
            match r {
                Some(delta) => {
                    &&& -(u64::MAX as int) <= delta <= u64::MAX
                    &&& !self.show_help ==> key_meaning(*self, key) == KeyMeaning::Step(
                        delta as int,
                    )
                },
                None => key.bare is Enter || key.bare is Char || key.bare is Other,
            },
    {
        let page: i128 = self.page_step() as i128;
        let count: i128 = self.items.len() as i128;
        match key.bare {
            BareKey::Up => Some(-1),
            BareKey::Down => Some(1),
            BareKey::PageUp => Some(-page),
            BareKey::PageDown => Some(page),
            BareKey::Home => Some(-count),
            BareKey::End => Some(count),
            _ => None,
        }
    }

    /// Acts on a key that does not step the cursor.
    fn press_other(&mut self, key: Key) -> (r: Option<Vec<Action>>)
        requires
            old(self).wf(),
            has_room(*old(self)),
            !old(self).show_help,
            key.bare is Enter || key.bare is Char || key.bare is Other,
        ensures
            key_taken(*old(self), key_meaning(*old(self), key), *final(self), r),
    {
        match key.bare {
            BareKey::Enter => Some(self.activate_cursor()),
            BareKey::Char(c) => self.press_char(c, key.alt),
            _ => None,
        }
    }

    /// Acts on a key while the items are shown.
    fn press(&mut self, key: Key) -> (r: Option<Vec<Action>>)
        requires
            old(self).wf(),
            has_room(*old(self)),
            !old(self).show_help,
        ensures
            key_taken(*old(self), key_meaning(*old(self), key), *final(self), r),
    {
        match self.steps_of(key) {
            Some(delta) => Some(self.step(delta)),
            None => self.press_other(key),
        }
    }

    /// Acts on a key. A refusal is forgotten first. Returns whether the key
    /// was taken.
    pub fn handle_key(&mut self, key: Key) -> (r: (bool, Vec<Action>))
        requires
            old(self).wf(),
            has_room(*old(self)),
        ensures
            key_handled(*old(self), key, *final(self), host::actions(r.1@), r.0),
            same_number(*old(self), *final(self)),
            final(self).wf(),
    {
        let mut out = self.clear_gate_refusal();
        let ghost first = host::actions(out@);
        let pressed = self.press_or_dismiss(key);
        let taken = pressed.is_some();
        let more = match pressed {
            Some(more) => more,
            None => host::no_actions(),
        };
        let ghost rest = host::actions(more@);
        host::append_actions(&mut out, more);
        assert(host::actions(out@).take(first.len() as int) =~= first);
        assert(host::actions(out@).skip(first.len() as int) =~= rest);
        proof {
            reveal(key_handled);
        }
        (taken, out)
    }

    /// Acts on a key, or takes the help away.
    fn press_or_dismiss(&mut self, key: Key) -> (r: Option<Vec<Action>>)
        requires
            old(self).wf(),
            has_room(*old(self)),
        ensures
            key_taken(*old(self), key_meaning(*old(self), key), *final(self), r),
    {
        if self.show_help {
            self.show_help = false;
            return Some(host::no_actions());
        }
        self.press(key)
    }
}

// ---------------------------------------------------------------------------
// The mouse
// ---------------------------------------------------------------------------

/// The keyboard goes back to the sidebar.
pub open spec fn refocus(s: PanoptPane) -> Seq<ActionView> {
    match s.plugin_pane {
        Some(plugin) => seq![ActionView::Focus(plugin)],
        None => seq![],
    }
}

/// What the mouse does: a click selects the item under it and shows it, the
/// wheel steps the cursor.
pub open spec fn moused(s: PanoptPane, mouse: Mouse) -> (PanoptPane, Seq<ActionView>, bool) {
    match mouse {
        Mouse::LeftClick(line) => if line < 0 || s.scroll + line >= s.items.len() {
            (s, seq![], false)
        } else {
            let idx = s.scroll + line;
            let (after, acts) = sidebar_slots::item_activated(
                PanoptPane { cursor: idx as usize, ..s },
                Some(s.items@[idx].target),
                false,
            );
            (after, acts + refocus(after), true)
        },
        Mouse::ScrollUp => {
            let (after, acts) = stepped_to(s, -1);
            (after, acts, true)
        },
        Mouse::ScrollDown => {
            let (after, acts) = stepped_to(s, 1);
            (after, acts, true)
        },
        Mouse::Other => (s, seq![], false),
    }
}

impl PanoptPane {
    /// The keyboard goes back to the sidebar.
    pub fn take_focus_back(&self) -> (out: Vec<Action>)
        ensures
            host::actions(out@) == refocus(*self),
    {
        match self.plugin_pane {
            Some(plugin) => host::one_action(Action::Focus(plugin)),
            None => host::no_actions(),
        }
    }

    /// Acts on the mouse. Returns whether it did anything.
    pub fn handle_mouse(&mut self, mouse: Mouse) -> (r: (bool, Vec<Action>))
        requires
            old(self).next_viewer_slot < u32::MAX,
        ensures
            (*final(self), host::actions(r.1@), r.0) == moused(*old(self), mouse),
            same_number(*old(self), *final(self)),
            old(self).wf() ==> final(self).wf(),
    {
        match mouse {
            Mouse::LeftClick(line) => {
                if line < 0 {
                    return (false, host::no_actions());
                }
                let idx: u128 = self.scroll as u128 + line as u128;
                if idx >= self.items.len() as u128 {
                    return (false, host::no_actions());
                }
                let at: usize = idx as usize;
                self.cursor = at;
                proof {
                    sidebar_slots::law_activation_keeps_rest(
                        *self,
                        Some(self.items@[at as int].target),
                        false,
                    );
                }
                let mut out = self.activate_item(at, false);
                let more = self.take_focus_back();
                host::append_actions(&mut out, more);
                (true, out)
            },
            Mouse::ScrollUp => (true, self.step(-1)),
            Mouse::ScrollDown => (true, self.step(1)),
            Mouse::Other => (false, host::no_actions()),
        }
    }
}

} // verus!
