//! Reading the projected files, and the view that all instances of a mode
//! share.

use vstd::prelude::*;
use vstd::string::*;

use crate::host;
use crate::host::{Action, ActionView};
use crate::modes::Mode;
use crate::rows;
use crate::rows::{ConfigRow, ConfigRowView, ProcessRow, ProcessRowView};
use crate::sidebar;
use crate::sidebar::PanoptPane;
use crate::sidebar_ingest;
use crate::status;
use crate::text;
use crate::titles;
use crate::wire;
use crate::wire::ViewState;
use crate::wire_laws;

verus! {

/// The files that the sidebar reads, each as it stands, or nothing where it
/// cannot be read.
pub struct Projected<'a> {
    pub todos: Option<&'a str>,
    pub notes: Option<&'a str>,
    pub processes: Option<&'a str>,
    pub configs: Option<&'a str>,
    pub labels: Option<&'a str>,
    pub agent_types: Option<&'a str>,
    pub view: Option<&'a str>,
}

/// The rows on the lines of an index.
pub open spec fn index_rows(lines: Seq<Seq<char>>) -> Seq<(u64, Seq<char>)>
    decreases lines.len(),
{
    if lines.len() == 0 {
        seq![]
    } else {
        match rows::index_line(lines.last()) {
            Some(row) => index_rows(lines.drop_last()).push(row),
            None => index_rows(lines.drop_last()),
        }
    }
}

/// The rows on the lines of the processes file.
pub open spec fn process_rows(lines: Seq<Seq<char>>) -> Seq<ProcessRowView>
    decreases lines.len(),
{
    if lines.len() == 0 {
        seq![]
    } else {
        match rows::process_line(lines.last()) {
            Some(row) => process_rows(lines.drop_last()).push(row),
            None => process_rows(lines.drop_last()),
        }
    }
}

/// The rows on the lines of the configs file.
pub open spec fn config_rows(lines: Seq<Seq<char>>) -> Seq<ConfigRowView>
    decreases lines.len(),
{
    if lines.len() == 0 {
        seq![]
    } else {
        match rows::config_line(lines.last()) {
            Some(row) => config_rows(lines.drop_last()).push(row),
            None => config_rows(lines.drop_last()),
        }
    }
}

/// The lines of a file, none where it cannot be read.
pub open spec fn file_lines(body: Option<&str>) -> Seq<Seq<char>> {
    match body {
        Some(b) => text::line_seq(b@),
        None => seq![],
    }
}

/// The text of a file, empty where it cannot be read.
pub open spec fn file_text(body: Option<&str>) -> Seq<char> {
    match body {
        Some(b) => b@,
        None => seq![],
    }
}

/// The lines of a file.
fn lines_of<'a>(body: Option<&'a str>) -> (out: Vec<&'a str>)
    ensures
        text::views(out@) == file_lines(body),
{
    match body {
        Some(b) => text::lines(b),
        None => {
            let out: Vec<&'a str> = Vec::new();
            assert(text::views(out@) =~= seq![]);
            out
        },
    }
}

/// The rows of an index.
pub fn read_index(body: Option<&str>) -> (out: Vec<(u64, String)>)
    ensures
        titles::entries(out@) == index_rows(file_lines(body)),
{
    let lines = lines_of(body);
    let ghost all = text::views(lines@);
    let mut out: Vec<(u64, String)> = Vec::new();
    let mut i: usize = 0;
    assert(all.take(0) =~= seq![]);
    assert(titles::entries(out@) =~= seq![]);
    while i < lines.len()
        invariant
            i <= lines.len(),
            all == text::views(lines@),
            titles::entries(out@) == index_rows(all.take(i as int)),
        decreases lines.len() - i,
    {
        let ghost before = out@;
        proof {
            assert(all.take(i + 1).drop_last() =~= all.take(i as int));
            assert(all.take(i + 1).last() == lines@[i as int]@);
        }
        match rows::parse_index_line(lines[i]) {
            Some(row) => {
                out.push(row);
                assert(titles::entries(out@) =~= titles::entries(before).push((row.0, row.1@)));
            },
            None => {},
        }
        i += 1;
    }
    assert(all.take(i as int) =~= all);
    out
}

/// The rows of the processes file.
pub fn read_processes(body: Option<&str>) -> (out: Vec<ProcessRow>)
    ensures
        sidebar::process_views(out@) == process_rows(file_lines(body)),
{
    let lines = lines_of(body);
    let ghost all = text::views(lines@);
    let mut out: Vec<ProcessRow> = Vec::new();
    let mut i: usize = 0;
    assert(all.take(0) =~= seq![]);
    assert(sidebar::process_views(out@) =~= seq![]);
    while i < lines.len()
        invariant
            i <= lines.len(),
            all == text::views(lines@),
            sidebar::process_views(out@) == process_rows(all.take(i as int)),
        decreases lines.len() - i,
    {
        let ghost before = out@;
        proof {
            assert(all.take(i + 1).drop_last() =~= all.take(i as int));
            assert(all.take(i + 1).last() == lines@[i as int]@);
        }
        match rows::parse_process_line(lines[i]) {
            Some(row) => {
                out.push(row);
                assert(sidebar::process_views(out@) =~= sidebar::process_views(before).push(row@));
            },
            None => {},
        }
        i += 1;
    }
    assert(all.take(i as int) =~= all);
    out
}

/// The rows of the configs file.
pub fn read_configs(body: Option<&str>) -> (out: Vec<ConfigRow>)
    ensures
        sidebar::config_views(out@) == config_rows(file_lines(body)),
{
    let lines = lines_of(body);
    let ghost all = text::views(lines@);
    let mut out: Vec<ConfigRow> = Vec::new();
    let mut i: usize = 0;
    assert(all.take(0) =~= seq![]);
    assert(sidebar::config_views(out@) =~= seq![]);
    while i < lines.len()
        invariant
            i <= lines.len(),
            all == text::views(lines@),
            sidebar::config_views(out@) == config_rows(all.take(i as int)),
        decreases lines.len() - i,
    {
        let ghost before = out@;
        proof {
            assert(all.take(i + 1).drop_last() =~= all.take(i as int));
            assert(all.take(i + 1).last() == lines@[i as int]@);
        }
        match rows::parse_config_line(lines[i]) {
            Some(row) => {
                out.push(row);
                assert(sidebar::config_views(out@) =~= sidebar::config_views(before).push(row@));
            },
            None => {},
        }
        i += 1;
    }
    assert(all.take(i as int) =~= all);
    out
}

/// The view that a pane shows, as it is shared.
pub open spec fn view_of(s: PanoptPane) -> ViewState {
    ViewState {
        cursor: s.cursor,
        scroll: s.scroll,
        filter: s.todo_filter,
        sort_1: s.todo_sort_1,
        sort_2: s.todo_sort_2,
        show_help: s.show_help,
        seq: s.view_seq,
    }
}

/// A pane with another's view.
pub open spec fn with_view_of(s: PanoptPane, other: PanoptPane) -> PanoptPane {
    PanoptPane {
        cursor: other.cursor,
        scroll: other.scroll,
        todo_filter: other.todo_filter,
        todo_sort_1: other.todo_sort_1,
        todo_sort_2: other.todo_sort_2,
        show_help: other.show_help,
        view_seq: other.view_seq,
        last_applied_seq: other.last_applied_seq,
        ..s
    }
}

/// Whether the shared view is newer than what the pane shows.
pub open spec fn is_newer(s: PanoptPane, body: Option<&str>) -> bool {
    match body {
        Some(b) => wire::field_value(b@, "seq"@) matches Some(seq) && seq > s.last_applied_seq,
        None => false,
    }
}

/// What a pane shows after it looked at the shared view: a newer one is taken
/// over whole, any other changes nothing.
pub open spec fn adopts_to(s: PanoptPane, body: Option<&str>, after: PanoptPane) -> bool {
    if is_newer(s, body) {
        &&& after == with_view_of(s, after)
        &&& wire::view_in(file_text(body), view_of(after))
        &&& after.last_applied_seq == after.view_seq
    } else {
        after == s
    }
}

/// Whether a mode reads the file of the todos.
pub open spec fn reads_todos(mode: Mode) -> bool {
    mode == Mode::Todos
}

/// Whether a mode reads the file of the notes.
pub open spec fn reads_notes(mode: Mode) -> bool {
    mode == Mode::Todos || mode == Mode::Notes
}

/// Whether a mode reads the file of the processes.
pub open spec fn reads_processes(mode: Mode) -> bool {
    mode == Mode::Todos || mode == Mode::Agents || mode == Mode::Commands
}

/// What is known after the files that a mode needs were read.
pub open spec fn loads_to(s: PanoptPane, f: Projected, after: PanoptPane) -> bool {
    &&& after == (PanoptPane {
        todos: after.todos,
        notes: after.notes,
        processes: after.processes,
        configs: after.configs,
        agent_labels: after.agent_labels,
        status_matchers: after.status_matchers,
        agent_types_src: after.agent_types_src,
        ..s
    })
    &&& if reads_todos(s.mode) {
        titles::entries(after.todos@) == index_rows(file_lines(f.todos))
    } else {
        after.todos == s.todos
    }
    &&& if reads_notes(s.mode) {
        titles::entries(after.notes@) == index_rows(file_lines(f.notes))
    } else {
        after.notes == s.notes
    }
    &&& if reads_processes(s.mode) {
        after.process_list() == process_rows(file_lines(f.processes))
    } else {
        after.processes == s.processes
    }
    &&& if s.mode == Mode::Agents {
        sidebar::config_views(after.configs@) == config_rows(file_lines(f.configs))
    } else {
        after.configs == s.configs
    }
    &&& if s.mode != Mode::Notes && f.labels is Some {
        sidebar_ingest::label_map(after.agent_labels) == sidebar_ingest::labels_merged(
            sidebar_ingest::label_map(s.agent_labels),
            wire::labels_in(file_text(f.labels)),
        )
    } else {
        sidebar_ingest::label_map(after.agent_labels) == sidebar_ingest::label_map(s.agent_labels)
    }
    &&& if s.mode == Mode::Todos {
        matchers_load_to(s, f.agent_types, after)
    } else {
        after.status_matchers == s.status_matchers && after.agent_types_src == s.agent_types_src
    }
}

/// The matchers after the patterns were read: they are built anew only where
/// the text changed.
pub open spec fn matchers_load_to(s: PanoptPane, body: Option<&str>, after: PanoptPane) -> bool {
    if file_text(body) == s.agent_types_src@ {
        after.status_matchers == s.status_matchers && after.agent_types_src == s.agent_types_src
    } else {
        &&& status::matchers_of(
            after.status_matchers,
            status::type_patterns(text::line_seq(file_text(body))),
        )
        &&& after.agent_types_src@ == file_text(body)
    }
}

/// What is known after a reload: the files, then the shared view.
pub open spec fn reloads_to(s: PanoptPane, f: Projected, after: PanoptPane) -> bool {
    let loaded = with_view_of(after, s);
    loads_to(s, f, loaded) && adopts_to(loaded, f.view, after)
}

/// A view is published under the next number, and the other instances of the
/// mode are told.
pub open spec fn view_published(s: PanoptPane) -> (PanoptPane, Seq<ActionView>) {
    let seq = (s.view_seq + 1) as u64;
    let after = PanoptPane { view_seq: seq, last_applied_seq: seq, ..s };
    (
        after,
        seq![
            ActionView::WriteView(wire::view_text(view_of(after))),
            ActionView::Broadcast("panopt:view-sync"@, s.mode.slug_text()),
        ],
    )
}

/// Adopting the same view again changes nothing.
pub proof fn law_adopting_is_idempotent(
    s: PanoptPane,
    body: Option<&str>,
    after: PanoptPane,
    again: PanoptPane,
)
    requires
        adopts_to(s, body, after),
        adopts_to(after, body, again),
    ensures
        again == after,
{
}

/// A pane never goes back to an older view.
pub proof fn law_views_go_forward(s: PanoptPane, body: Option<&str>, after: PanoptPane)
    requires
        adopts_to(s, body, after),
    ensures
        after.last_applied_seq >= s.last_applied_seq,
{
}

/// What a pane published, the pane itself does not adopt.
pub proof fn law_own_view_is_not_adopted(s: PanoptPane, body: &str, after: PanoptPane)
    requires
        s.view_seq < u64::MAX,
        body@ == wire::view_text(view_of(view_published(s).0)),
        adopts_to(view_published(s).0, Some(body), after),
    ensures
        after == view_published(s).0,
{
    wire_laws::law_view_state_round_trip(view_of(view_published(s).0));
}

/// A pane that has seen no later view shows, once it has looked at what
/// another pane published, what that pane shows.
pub proof fn law_peers_show_the_same(
    s: PanoptPane,
    peer: PanoptPane,
    body: &str,
    after: PanoptPane,
)
    requires
        s.view_seq < u64::MAX,
        peer.last_applied_seq <= s.view_seq,
        body@ == wire::view_text(view_of(view_published(s).0)),
        adopts_to(peer, Some(body), after),
    ensures
        view_of(after) == view_of(view_published(s).0),
{
    let v = view_of(view_published(s).0);
    wire_laws::law_view_state_round_trip(v);
    assert(after.todo_filter.code() == v.filter.code());
    assert(after.todo_sort_1.code() == v.sort_1.code());
    assert(after.todo_sort_2.code() == v.sort_2.code());
}

impl PanoptPane {
    /// Takes over the shared view where it is newer.
    pub fn adopt_view_state(&mut self, body: Option<&str>)
        ensures
            adopts_to(*old(self), body, *final(self)),
            old(self).wf() ==> final(self).wf(),
    {
        let body = match body {
            Some(b) => b,
            None => {
                return;
            },
        };
        let view = match wire::parse_view_state(body) {
            Some(view) => view,
            None => {
                return;
            },
        };
        if view.seq <= self.last_applied_seq {
            return;
        }
        self.cursor = view.cursor;
        self.scroll = view.scroll;
        self.todo_filter = view.filter;
        self.todo_sort_1 = view.sort_1;
        self.todo_sort_2 = view.sort_2;
        self.show_help = view.show_help;
        self.view_seq = view.seq;
        self.last_applied_seq = view.seq;
    }

    /// Publishes the view.
    pub fn bump_and_persist_view(&mut self) -> (out: Vec<Action>)
        requires
            old(self).view_seq < u64::MAX,
        ensures
            (*final(self), host::actions(out@)) == view_published(*old(self)),
    {
        let seq: u64 = self.view_seq + 1;
        self.view_seq = seq;
        self.last_applied_seq = seq;
        let view = ViewState {
            cursor: self.cursor,
            scroll: self.scroll,
            filter: self.todo_filter,
            sort_1: self.todo_sort_1,
            sort_2: self.todo_sort_2,
            show_help: self.show_help,
            seq,
        };
        let mut out = host::one_action(Action::WriteView(wire::render_view_state(&view)));
        host::push_action(
            &mut out,
            Action::Broadcast("panopt:view-sync".to_owned(), self.mode.slug().to_owned()),
        );
        assert(host::actions(out@) =~= view_published(*old(self)).1);
        out
    }

    /// Builds the matchers anew where their text changed.
    pub fn reload_status_matchers(&mut self, body: Option<&str>)
        requires
            old(self).wf(),
        ensures
            *final(self) == (PanoptPane {
                status_matchers: final(self).status_matchers,
                agent_types_src: final(self).agent_types_src,
                ..*old(self)
            }),
            matchers_load_to(*old(self), body, *final(self)),
            final(self).wf(),
    {
        let body = match body {
            Some(b) => b,
            None => {
                proof {
                    reveal_strlit("");
                    assert(""@ =~= Seq::<char>::empty());
                }
                ""
            },
        };
        if text::same(body, self.agent_types_src.as_str()) {
            return;
        }
        let matchers = status::parse_agent_type_matchers(body);
        self.status_matchers = matchers;
        self.agent_types_src = body.to_owned();
    }

    /// Reads what the gatekeeper needs: all that a title can speak of.
    fn load_for_todos(&mut self, f: &Projected)
        requires
            old(self).wf(),
            old(self).mode == Mode::Todos,
        ensures
            loads_to(*old(self), *f, *final(self)),
            final(self).wf(),
    {
        let todos = read_index(f.todos);
        let notes = read_index(f.notes);
        let processes = read_processes(f.processes);
        self.read_agent_labels(f.labels);
        self.reload_status_matchers(f.agent_types);
        self.todos = todos;
        self.notes = notes;
        self.processes = processes;
    }

    /// Reads what the Notes pane needs.
    fn load_for_notes(&mut self, f: &Projected)
        requires
            old(self).wf(),
            old(self).mode == Mode::Notes,
        ensures
            loads_to(*old(self), *f, *final(self)),
            final(self).wf(),
    {
        let notes = read_index(f.notes);
        self.notes = notes;
    }

    /// Reads what the Agents pane needs.
    fn load_for_agents(&mut self, f: &Projected)
        requires
            old(self).wf(),
            old(self).mode == Mode::Agents,
        ensures
            loads_to(*old(self), *f, *final(self)),
            final(self).wf(),
    {
        let processes = read_processes(f.processes);
        let configs = read_configs(f.configs);
        self.read_agent_labels(f.labels);
        self.processes = processes;
        self.configs = configs;
    }

    /// Reads what the Commands pane needs.
    fn load_for_commands(&mut self, f: &Projected)
        requires
            old(self).wf(),
            old(self).mode == Mode::Commands,
        ensures
            loads_to(*old(self), *f, *final(self)),
            final(self).wf(),
    {
        let processes = read_processes(f.processes);
        self.read_agent_labels(f.labels);
        self.processes = processes;
    }

    /// Reads the files that the mode needs.
    fn load_files(&mut self, f: &Projected)
        requires
            old(self).wf(),
        ensures
            loads_to(*old(self), *f, *final(self)),
            final(self).wf(),
    {
        match self.mode {
            Mode::Todos => self.load_for_todos(f),
            Mode::Notes => self.load_for_notes(f),
            Mode::Agents => self.load_for_agents(f),
            Mode::Commands => self.load_for_commands(f),
            Mode::Terminals => self.read_agent_labels(f.labels),
        }
    }

    /// Reads the files that the mode needs, and the shared view.
    pub fn reload_data(&mut self, f: &Projected)
        requires
            old(self).wf(),
        ensures
            reloads_to(*old(self), *f, *final(self)),
            final(self).wf(),
    {
        self.load_files(f);
        let ghost loaded = *self;
        self.adopt_view_state(f.view);
        assert(with_view_of(*self, *old(self)) == loaded);
    }
}

} // verus!
