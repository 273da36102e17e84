//! The lists that the daemon writes are read back whole by the sidebar.

use vstd::prelude::*;
use vstd::string::*;

use crate::line_laws;
use crate::model::{AgentToolView, ProcessView, TodoView};
use crate::projection;
use crate::projection_laws;
use crate::rows;
use crate::rows::{ConfigRowView, ProcessRowView};
use crate::sidebar_reload;
use crate::text;

verus! {

// ---------------------------------------------------------------------------
// Lists
// ---------------------------------------------------------------------------

/// The lines of a list: its title and a blank line, then its entries or what
/// stands where there are none.
pub open spec fn list_lines(title: Seq<char>, none: Seq<char>, entries: Seq<Seq<char>>) -> Seq<
    Seq<char>,
> {
    seq![title, ""@] + (if entries.len() == 0 {
        seq![none]
    } else {
        entries
    })
}

/// A line that does not begin with a dash, white space aside, is no entry of
/// any list: the titles, the blank lines, and what stands where a list is empty
/// are passed over.
pub proof fn law_entries_begin_with_a_dash(line: Seq<char>)
    requires
        text::trimmed(line).len() > 0 ==> text::trimmed(line)[0] != '-',
    ensures
        rows::index_line(line) is None,
        rows::config_line(line) is None,
        rows::process_line(line) is None,
{
    reveal_strlit("- [");
    reveal_strlit("- #");
    let l = text::trimmed(line);
    if text::begins(l, "- ["@) {
        assert(l.subrange(0, 3)[0] == "- ["@[0]);
    }
    if text::begins(l, "- #"@) {
        assert(l.subrange(0, 3)[0] == "- #"@[0]);
    }
}

/// A line on which no entry stands: it starts with neither white space nor a
/// dash.
pub open spec fn is_no_entry(line: Seq<char>) -> bool {
    &&& line_laws::has_no_feed(line)
    &&& line.len() > 0 ==> !text::white(line[0]) && line[0] != '-' && !text::white(line.last())
}

/// A list is read line by line.
proof fn lemma_list_lines(title: Seq<char>, none: Seq<char>, entries: Seq<Seq<char>>)
    requires
        line_laws::has_no_feed(title),
        line_laws::has_no_feed(none),
        line_laws::are_lines(entries),
    ensures
        text::line_seq(
            projection::listing(
                title + "\n\n"@,
                none + "\n"@,
                entries.map_values(|l: Seq<char>| line_laws::ended(l)),
            ),
        ) == line_laws::as_read(list_lines(title, none, entries)),
{
    reveal_strlit("");
    reveal_strlit("\n");
    reveal_strlit("\n\n");
    let f = |l: Seq<char>| line_laws::ended(l);
    let head = seq![title, ""@];
    let tail = if entries.len() == 0 {
        seq![none]
    } else {
        entries
    };
    let all = list_lines(title, none, entries);
    assert forall|i: int| 0 <= i < all.len() implies line_laws::has_no_feed(#[trigger] all[i]) by {
        if i >= 2 {
            assert(all[i] == tail[i - 2]);
        }
    }
    line_laws::lemma_lines_are_read(all);
    line_laws::lemma_ended_add(head, tail);
    let h = head.map_values(f);
    let first = h.drop_last();
    assert(first =~= seq![line_laws::ended(title)]);
    assert(first.drop_last() =~= seq![]);
    assert(projection::run_on(first.drop_last()) =~= seq![]);
    assert(projection::run_on(first) =~= line_laws::ended(title));
    assert(h.last() == line_laws::ended(""@));
    assert(projection::run_on(h) =~= title + "\n\n"@);
    if entries.len() == 0 {
        let t = tail.map_values(f);
        assert(t.drop_last() =~= seq![]);
        assert(projection::run_on(t.drop_last()) =~= seq![]);
        assert(t.last() == line_laws::ended(none));
        assert(projection::run_on(t) =~= none + "\n"@);
    }
}

/// What is no entry is read as none.
proof fn lemma_no_entry(line: Seq<char>)
    requires
        is_no_entry(line),
    ensures
        rows::index_line(line) is None,
        rows::config_line(line) is None,
        rows::process_line(line) is None,
{
    text::lemma_trim_nothing(line);
    law_entries_begin_with_a_dash(line);
}

/// The blank line is no entry.
proof fn lemma_blank()
    ensures
        is_no_entry(""@),
{
    reveal_strlit("");
}

/// The rows of an index after lines that are no entries.
proof fn lemma_index_rows(
    head: Seq<Seq<char>>,
    entries: Seq<Seq<char>>,
    found: Seq<(u64, Seq<char>)>,
)
    requires
        forall|i: int| 0 <= i < head.len() ==> is_no_entry(#[trigger] head[i]),
        entries.len() == found.len(),
        forall|i: int|
            0 <= i < entries.len() ==> rows::index_line(#[trigger] entries[i]) == Some(found[i]),
    ensures
        sidebar_reload::index_rows(head + entries) == found,
    decreases head.len() + entries.len(),
{
    let all = head + entries;
    if entries.len() > 0 {
        assert(all.drop_last() =~= head + entries.drop_last());
        lemma_index_rows(head, entries.drop_last(), found.drop_last());
        assert(all.last() == entries[entries.len() - 1]);
        assert(found.drop_last().push(found.last()) =~= found);
    } else if head.len() > 0 {
        assert(all.drop_last() =~= head.drop_last() + entries);
        lemma_index_rows(head.drop_last(), entries, found);
        assert(all.last() == head[head.len() - 1]);
        lemma_no_entry(all.last());
    } else {
        assert(found =~= seq![]);
    }
}

/// The rows of the tools after lines that are no entries.
proof fn lemma_config_rows(
    head: Seq<Seq<char>>,
    entries: Seq<Seq<char>>,
    found: Seq<ConfigRowView>,
)
    requires
        forall|i: int| 0 <= i < head.len() ==> is_no_entry(#[trigger] head[i]),
        entries.len() == found.len(),
        forall|i: int|
            0 <= i < entries.len() ==> rows::config_line(#[trigger] entries[i]) == Some(found[i]),
    ensures
        sidebar_reload::config_rows(head + entries) == found,
    decreases head.len() + entries.len(),
{
    let all = head + entries;
    if entries.len() > 0 {
        assert(all.drop_last() =~= head + entries.drop_last());
        lemma_config_rows(head, entries.drop_last(), found.drop_last());
        assert(all.last() == entries[entries.len() - 1]);
        assert(found.drop_last().push(found.last()) =~= found);
    } else if head.len() > 0 {
        assert(all.drop_last() =~= head.drop_last() + entries);
        lemma_config_rows(head.drop_last(), entries, found);
        assert(all.last() == head[head.len() - 1]);
        lemma_no_entry(all.last());
    } else {
        assert(found =~= seq![]);
    }
}

/// The rows of the processes after lines that are no entries.
proof fn lemma_process_rows(
    head: Seq<Seq<char>>,
    entries: Seq<Seq<char>>,
    found: Seq<ProcessRowView>,
)
    requires
        forall|i: int| 0 <= i < head.len() ==> is_no_entry(#[trigger] head[i]),
        entries.len() == found.len(),
        forall|i: int|
            0 <= i < entries.len() ==> rows::process_line(#[trigger] entries[i]) == Some(found[i]),
    ensures
        sidebar_reload::process_rows(head + entries) == found,
    decreases head.len() + entries.len(),
{
    let all = head + entries;
    if entries.len() > 0 {
        assert(all.drop_last() =~= head + entries.drop_last());
        lemma_process_rows(head, entries.drop_last(), found.drop_last());
        assert(all.last() == entries[entries.len() - 1]);
        assert(found.drop_last().push(found.last()) =~= found);
    } else if head.len() > 0 {
        assert(all.drop_last() =~= head.drop_last() + entries);
        lemma_process_rows(head.drop_last(), entries, found);
        assert(all.last() == head[head.len() - 1]);
        lemma_no_entry(all.last());
    } else {
        assert(found =~= seq![]);
    }
}

/// The lines of a list as they are read are lines that are no entries, then its
/// entries.
proof fn lemma_list_parts(title: Seq<char>, none: Seq<char>, entries: Seq<Seq<char>>) -> (head: Seq<
    Seq<char>,
>)
    requires
        is_no_entry(title),
        is_no_entry(none),
    ensures
        line_laws::as_read(list_lines(title, none, entries)) == head + line_laws::as_read(entries),
        forall|i: int| 0 <= i < head.len() ==> is_no_entry(#[trigger] head[i]),
{
    lemma_blank();
    assert(text::without_cr(title) == title);
    assert(text::without_cr(none) == none);
    assert(text::without_cr(""@) == ""@);
    let head = if entries.len() == 0 {
        seq![title, ""@, none]
    } else {
        seq![title, ""@]
    };
    assert(line_laws::as_read(list_lines(title, none, entries)) =~= head + line_laws::as_read(
        entries,
    ));
    head
}

/// An entry is read without the carriage return at its end like with it.
proof fn lemma_cr(line: Seq<char>)
    ensures
        rows::index_line(text::without_cr(line)) == rows::index_line(line),
        rows::config_line(text::without_cr(line)) == rows::config_line(line),
        rows::process_line(text::without_cr(line)) == rows::process_line(line),
{
    text::lemma_trimmed_without_cr(line);
}

// ---------------------------------------------------------------------------
// Todos
// ---------------------------------------------------------------------------

/// The row of a todo in the sidebar.
pub open spec fn todo_row(t: TodoView) -> (u64, Seq<char>) {
    (t.id, text::trimmed(projection::todo_label(t)))
}

/// The entry of a todo stands on one line.
proof fn lemma_todo_entry(t: TodoView)
    requires
        line_laws::has_no_feed(t.title),
    ensures
        line_laws::has_no_feed(projection::todo_entry(t)),
{
    let n = text::decimal(t.id as nat);
    let label = projection::todo_label(t);
    reveal_strlit("- [");
    reveal_strlit("] [#");
    reveal_strlit("](todos/");
    reveal_strlit(".md) ");
    reveal_strlit(" - ");
    reveal_strlit(", ");
    reveal_strlit("open");
    reveal_strlit("in_progress");
    reveal_strlit("backlog");
    reveal_strlit("draft");
    reveal_strlit("completed");
    reveal_strlit("not_done");
    reveal_strlit("high");
    reveal_strlit("medium");
    reveal_strlit("low");
    line_laws::lemma_no_feed_decimal(t.id as nat);
    let status = t.status.token();
    let priority = t.priority.token();
    line_laws::lemma_no_feed_add(t.title, " - "@);
    line_laws::lemma_no_feed_add(t.title + " - "@, status);
    line_laws::lemma_no_feed_add(t.title + " - "@ + status, ", "@);
    line_laws::lemma_no_feed_add(t.title + " - "@ + status + ", "@, priority);
    let a = "- ["@ + seq![projection::check_mark(t.status)];
    line_laws::lemma_no_feed_add(a, "] [#"@);
    line_laws::lemma_no_feed_add(a + "] [#"@, n);
    line_laws::lemma_no_feed_add(a + "] [#"@ + n, "](todos/"@);
    line_laws::lemma_no_feed_add(a + "] [#"@ + n + "](todos/"@, n);
    line_laws::lemma_no_feed_add(a + "] [#"@ + n + "](todos/"@ + n, ".md) "@);
    line_laws::lemma_no_feed_add(a + "] [#"@ + n + "](todos/"@ + n + ".md) "@, label);
}

/// The index of todos is read back: of each todo, in order, its id and its
/// title with its status and priority.
pub proof fn law_todo_index_is_read(todos: Seq<TodoView>)
    requires
        forall|i: int| 0 <= i < todos.len() ==> line_laws::has_no_feed((#[trigger] todos[i]).title),
    ensures
        sidebar_reload::index_rows(text::line_seq(projection::todos_index(todos)))
            == todos.map_values(|t: TodoView| todo_row(t)),
{
    let title = "# Todos"@;
    let none = "_(no todos)_"@;
    let entries = todos.map_values(|t: TodoView| projection::todo_entry(t));
    let found = todos.map_values(|t: TodoView| todo_row(t));
    reveal_strlit("# Todos");
    reveal_strlit("# Todos\n\n");
    reveal_strlit("_(no todos)_");
    reveal_strlit("_(no todos)_\n");
    reveal_strlit("\n");
    reveal_strlit("\n\n");
    assert("# Todos\n\n"@ =~= title + "\n\n"@);
    assert("_(no todos)_\n"@ =~= none + "\n"@);
    assert(entries.map_values(|l: Seq<char>| line_laws::ended(l)) =~= todos.map_values(
        |t: TodoView| projection::todo_entry(t) + "\n"@,
    ));
    let read = line_laws::as_read(entries);
    assert forall|i: int| 0 <= i < entries.len() implies line_laws::has_no_feed(
        #[trigger] entries[i],
    ) by {
        lemma_todo_entry(todos[i]);
    }
    assert forall|i: int| 0 <= i < read.len() implies rows::index_line(#[trigger] read[i]) == Some(
        found[i],
    ) by {
        projection_laws::law_todo_line_is_read(todos[i]);
        lemma_cr(entries[i]);
    }
    lemma_list_lines(title, none, entries);
    let head = lemma_list_parts(title, none, entries);
    lemma_index_rows(head, read, found);
}

// ---------------------------------------------------------------------------
// Notes
// ---------------------------------------------------------------------------

/// The row of a note in the sidebar.
pub open spec fn note_row(r: (u64, Seq<char>, Seq<char>)) -> (u64, Seq<char>) {
    (r.0, text::trimmed(r.1 + " - updated "@ + r.2))
}

/// Whether a note can stand on one line of the index.
pub open spec fn is_note_row(r: (u64, Seq<char>, Seq<char>)) -> bool {
    &&& line_laws::has_no_feed(r.1)
    &&& line_laws::has_no_feed(r.2)
}

/// The entry of a note stands on one line.
proof fn lemma_note_entry(r: (u64, Seq<char>, Seq<char>))
    requires
        is_note_row(r),
    ensures
        line_laws::has_no_feed(projection::note_entry("note"@, r)),
{
    let n = text::decimal(r.0 as nat);
    reveal_strlit("- [#");
    reveal_strlit("](");
    reveal_strlit("note");
    reveal_strlit("/");
    reveal_strlit(".md) ");
    reveal_strlit(" - updated ");
    line_laws::lemma_no_feed_decimal(r.0 as nat);
    let a = "- [#"@ + n;
    line_laws::lemma_no_feed_add("- [#"@, n);
    line_laws::lemma_no_feed_add(a, "]("@);
    line_laws::lemma_no_feed_add(a + "]("@, "note"@);
    line_laws::lemma_no_feed_add(a + "]("@ + "note"@, "/"@);
    let b = a + "]("@ + "note"@ + "/"@;
    line_laws::lemma_no_feed_add(b, n);
    line_laws::lemma_no_feed_add(b + n, ".md) "@);
    line_laws::lemma_no_feed_add(b + n + ".md) "@, r.1);
    line_laws::lemma_no_feed_add(b + n + ".md) "@ + r.1, " - updated "@);
    line_laws::lemma_no_feed_add(b + n + ".md) "@ + r.1 + " - updated "@, r.2);
}

/// The index of notes is read back: of each note, in order, its id and its
/// title with the moment of its last change.
pub proof fn law_note_index_is_read(notes: Seq<(u64, Seq<char>, Seq<char>)>)
    requires
        forall|i: int| 0 <= i < notes.len() ==> is_note_row(#[trigger] notes[i]),
    ensures
        sidebar_reload::index_rows(text::line_seq(projection::notes_index(notes)))
            == notes.map_values(|r: (u64, Seq<char>, Seq<char>)| note_row(r)),
{
    let title = "# Notes"@;
    let none = "_(no notes)_"@;
    let entries = notes.map_values(
        |r: (u64, Seq<char>, Seq<char>)| projection::note_entry("note"@, r),
    );
    let found = notes.map_values(|r: (u64, Seq<char>, Seq<char>)| note_row(r));
    reveal_strlit("note");
    reveal_strlit("# Notes");
    reveal_strlit("# Notes\n\n");
    reveal_strlit("_(no notes)_");
    reveal_strlit("_(no notes)_\n");
    reveal_strlit("\n");
    reveal_strlit("\n\n");
    assert("# Notes\n\n"@ =~= title + "\n\n"@);
    assert("_(no notes)_\n"@ =~= none + "\n"@);
    assert(entries.map_values(|l: Seq<char>| line_laws::ended(l)) =~= notes.map_values(
        |r: (u64, Seq<char>, Seq<char>)| projection::note_entry("note"@, r) + "\n"@,
    ));
    let read = line_laws::as_read(entries);
    assert forall|i: int| 0 <= i < entries.len() implies line_laws::has_no_feed(
        #[trigger] entries[i],
    ) by {
        assert(is_note_row(notes[i]));
        lemma_note_entry(notes[i]);
    }
    assert forall|i: int| 0 <= i < read.len() implies rows::index_line(#[trigger] read[i]) == Some(
        found[i],
    ) by {
        assert(is_note_row(notes[i]));
        projection_laws::law_note_line_is_read("note"@, notes[i]);
        lemma_cr(entries[i]);
    }
    lemma_list_lines(title, none, entries);
    let head = lemma_list_parts(title, none, entries);
    lemma_index_rows(head, read, found);
}

// ---------------------------------------------------------------------------
// Tools
// ---------------------------------------------------------------------------

/// The row of a tool in the sidebar.
pub open spec fn tool_row(t: AgentToolView) -> ConfigRowView {
    ConfigRowView {
        id: t.id,
        label: text::trimmed(projection::tool_label(t)),
        enabled: t.enabled,
    }
}

/// Whether a tool can stand on one line of the list: its label does not look
/// like the mark that follows it.
pub open spec fn is_tool_row(t: AgentToolView) -> bool {
    &&& text::find_seq(projection::tool_label(t), " ["@) is None
    &&& line_laws::has_no_feed(projection::tool_label(t))
    &&& line_laws::has_no_feed(t.command)
}

/// The entry of a tool stands on one line.
proof fn lemma_tool_entry(t: AgentToolView)
    requires
        is_tool_row(t),
    ensures
        line_laws::has_no_feed(projection::tool_entry(t)),
{
    let n = text::decimal(t.id as nat);
    let label = projection::tool_label(t);
    let flag = if t.enabled {
        "enabled"@
    } else {
        "disabled"@
    };
    let tail = if t.command.len() == 0 {
        Seq::<char>::empty()
    } else {
        " "@ + t.command
    };
    reveal_strlit("- #");
    reveal_strlit(" ");
    reveal_strlit(" [");
    reveal_strlit("]");
    reveal_strlit("enabled");
    reveal_strlit("disabled");
    line_laws::lemma_no_feed_decimal(t.id as nat);
    line_laws::lemma_no_feed_add("- #"@, n);
    line_laws::lemma_no_feed_add("- #"@ + n, " "@);
    let a = "- #"@ + n + " "@;
    line_laws::lemma_no_feed_add(a, label);
    line_laws::lemma_no_feed_add(a + label, " ["@);
    line_laws::lemma_no_feed_add(a + label + " ["@, flag);
    let b = a + label + " ["@ + flag;
    line_laws::lemma_no_feed_add(b, "]"@);
    line_laws::lemma_no_feed_add(" "@, t.command);
    line_laws::lemma_no_feed_add(b + "]"@, tail);
    assert(projection::tool_entry(t) == b + "]"@ + tail);
}

/// The list of tools is read back: of each tool, in order, its id, its label
/// and whether it is enabled.
pub proof fn law_tool_list_is_read(tools: Seq<AgentToolView>)
    requires
        forall|i: int| 0 <= i < tools.len() ==> is_tool_row(#[trigger] tools[i]),
    ensures
        sidebar_reload::config_rows(text::line_seq(projection::tools_list(tools)))
            == tools.map_values(|t: AgentToolView| tool_row(t)),
{
    let title = "# Agent tools"@;
    let none = "_(no agent tools)_"@;
    let entries = tools.map_values(|t: AgentToolView| projection::tool_entry(t));
    let found = tools.map_values(|t: AgentToolView| tool_row(t));
    reveal_strlit("# Agent tools");
    reveal_strlit("# Agent tools\n\n");
    reveal_strlit("_(no agent tools)_");
    reveal_strlit("_(no agent tools)_\n");
    reveal_strlit("\n");
    reveal_strlit("\n\n");
    assert("# Agent tools\n\n"@ =~= title + "\n\n"@);
    assert("_(no agent tools)_\n"@ =~= none + "\n"@);
    assert(entries.map_values(|l: Seq<char>| line_laws::ended(l)) =~= tools.map_values(
        |t: AgentToolView| projection::tool_entry(t) + "\n"@,
    ));
    let read = line_laws::as_read(entries);
    assert forall|i: int| 0 <= i < entries.len() implies line_laws::has_no_feed(
        #[trigger] entries[i],
    ) by {
        assert(is_tool_row(tools[i]));
        lemma_tool_entry(tools[i]);
    }
    assert forall|i: int| 0 <= i < read.len() implies rows::config_line(#[trigger] read[i]) == Some(
        found[i],
    ) by {
        assert(is_tool_row(tools[i]));
        projection_laws::law_tool_line_is_read(tools[i]);
        lemma_cr(entries[i]);
    }
    lemma_list_lines(title, none, entries);
    let head = lemma_list_parts(title, none, entries);
    lemma_config_rows(head, read, found);
}

// ---------------------------------------------------------------------------
// Processes
// ---------------------------------------------------------------------------

/// The row of a process in the sidebar.
pub open spec fn process_row(p: ProcessView, types: Seq<(u64, Seq<char>)>, now: i64) -> ProcessRowView {
    ProcessRowView {
        kind: p.kind.token(),
        id: p.id,
        label: projection::process_label(p),
        status: p.status,
        tool_type: projection::process_type(p, types),
        agent_state: p.agent_state,
        agent_id: projection::process_agent(p),
        agent_tool_id: p.agent_tool_id,
        idle: projection::idle_age(p, now),
    }
}

/// Whether an attribute stands on one line, where it is there.
pub open spec fn absent_or_line(s: Option<Seq<char>>) -> bool {
    s is None || line_laws::has_no_feed(s->0)
}

/// Whether a process can stand on one line of the board: its texts do not look
/// like the marks around them.
pub open spec fn is_process_row(p: ProcessView, types: Seq<(u64, Seq<char>)>) -> bool {
    &&& projection_laws::is_plain(projection::process_label(p))
    &&& p.agent_tool_id is None ==> rows::from_at(projection::process_label(p)) is None
    &&& projection_laws::is_plain_status(p.status)
    &&& projection_laws::absent_or_plain(projection::process_type(p, types))
    &&& projection_laws::absent_or_plain(projection::process_agent(p))
    &&& projection_laws::absent_or_plain(p.agent_state)
    &&& line_laws::has_no_feed(projection::process_label(p))
    &&& absent_or_line(p.status)
    &&& absent_or_line(projection::process_type(p, types))
    &&& absent_or_line(projection::process_agent(p))
    &&& absent_or_line(p.agent_state)
}

/// A part of a line: it has no line feed and does not end with white space.
spec fn is_part(s: Seq<char>) -> bool {
    &&& s.len() > 0 && !text::white(s.last())
    &&& line_laws::has_no_feed(s)
}

/// A part with an attribute behind it is a part.
proof fn lemma_attribute(a: Seq<char>, key: Seq<char>, value: Option<Seq<char>>)
    requires
        is_part(a),
        line_laws::has_no_feed(key),
        value is Some ==> is_part(value->0),
    ensures
        is_part(a + projection::attribute(key, value)),
{
    reveal_strlit(" · ");
    match value {
        Some(v) => {
            line_laws::lemma_no_feed_add(" · "@, key);
            line_laws::lemma_no_feed_add(" · "@ + key, v);
            line_laws::lemma_no_feed_add(a, " · "@ + key + v);
            assert((a + (" · "@ + key + v)).last() == v.last());
        },
        None => {
            assert(a + Seq::<char>::empty() =~= a);
        },
    }
}

/// What comes before the attributes of a process.
proof fn lemma_process_head(p: ProcessView)
    requires
        projection_laws::is_plain(projection::process_label(p)),
        line_laws::has_no_feed(projection::process_label(p)),
    ensures
        is_part(projection::process_head(p)),
{
    let n = text::decimal(p.id as nat);
    let kind = p.kind.token();
    let label = projection::process_label(p);
    reveal_strlit("- [");
    reveal_strlit("] #");
    reveal_strlit(" ");
    reveal_strlit(" (from #");
    reveal_strlit(")");
    reveal_strlit("agent");
    reveal_strlit("terminal");
    reveal_strlit("command");
    line_laws::lemma_no_feed_decimal(p.id as nat);
    line_laws::lemma_no_feed_add("- ["@, kind);
    line_laws::lemma_no_feed_add("- ["@ + kind, "] #"@);
    line_laws::lemma_no_feed_add("- ["@ + kind + "] #"@, n);
    line_laws::lemma_no_feed_add("- ["@ + kind + "] #"@ + n, " "@);
    let a = "- ["@ + kind + "] #"@ + n + " "@;
    line_laws::lemma_no_feed_add(a, label);
    assert((a + label).last() == label.last());
    match p.agent_tool_id {
        Some(t) => {
            let m = text::decimal(t as nat);
            line_laws::lemma_no_feed_decimal(t as nat);
            line_laws::lemma_no_feed_add(" (from #"@, m);
            line_laws::lemma_no_feed_add(" (from #"@ + m, ")"@);
            line_laws::lemma_no_feed_add(a + label, " (from #"@ + m + ")"@);
            assert(projection::process_head(p).last() == ')');
        },
        None => {
            assert(projection::process_head(p) =~= a + label);
        },
    }
}

/// How long an agent has been idle can stand on a line.
proof fn lemma_idle_age(p: ProcessView, now: i64)
    ensures
        projection::idle_age(p, now) is Some ==> is_part(projection::idle_age(p, now)->0),
{
    reveal_strlit("m");
    if let Some(age) = projection::idle_age(p, now) {
        let n = if now > p.state_since->0 {
            ((now - p.state_since->0) / 60) as nat
        } else {
            0
        };
        line_laws::lemma_no_feed_decimal(n);
        line_laws::lemma_no_feed_add(text::decimal(n), "m"@);
        assert(age == text::decimal(n) + "m"@);
        assert(age.last() == 'm');
    }
}

/// The entry of a process stands on one line.
proof fn lemma_process_entry(p: ProcessView, types: Seq<(u64, Seq<char>)>, now: i64)
    requires
        is_process_row(p, types),
    ensures
        line_laws::has_no_feed(projection::process_entry(p, types, now)),
{
    reveal_strlit("type:");
    reveal_strlit("agent:");
    reveal_strlit("state:");
    reveal_strlit("idle:");
    lemma_process_head(p);
    lemma_idle_age(p, now);
    let a = projection::process_head(p);
    lemma_attribute(a, seq![], p.status);
    let b = a + projection::attribute(seq![], p.status);
    lemma_attribute(b, "type:"@, projection::process_type(p, types));
    let c = b + projection::attribute("type:"@, projection::process_type(p, types));
    lemma_attribute(c, "agent:"@, projection::process_agent(p));
    let d = c + projection::attribute("agent:"@, projection::process_agent(p));
    lemma_attribute(d, "state:"@, p.agent_state);
    let e = d + projection::attribute("state:"@, p.agent_state);
    lemma_attribute(e, "idle:"@, projection::idle_age(p, now));
}

/// The row of a process of which only its kind, its id, its name and its tool
/// are shown.
pub open spec fn plain_row(p: ProcessView) -> ProcessRowView {
    ProcessRowView {
        kind: p.kind.token(),
        id: p.id,
        label: projection::process_label(p),
        status: None,
        tool_type: None,
        agent_state: None,
        agent_id: None,
        agent_tool_id: p.agent_tool_id,
        idle: None,
    }
}

/// Whether a process can stand on one line of the list: its name does not look
/// like the mark that may follow it.
pub open spec fn is_plain_row(p: ProcessView) -> bool {
    &&& projection_laws::is_plain(projection::process_label(p))
    &&& line_laws::has_no_feed(projection::process_label(p))
    &&& p.agent_tool_id is None ==> rows::from_at(projection::process_label(p)) is None
}

/// The list of processes is read back: of each process, in order, its kind, its
/// id, its name and the tool that it is from.
pub proof fn law_process_list_is_read(processes: Seq<ProcessView>)
    requires
        forall|i: int| 0 <= i < processes.len() ==> is_plain_row(#[trigger] processes[i]),
    ensures
        sidebar_reload::process_rows(text::line_seq(projection::processes_list(processes)))
            == processes.map_values(|p: ProcessView| plain_row(p)),
{
    let title = "# Processes"@;
    let none = "_(no processes)_"@;
    let entries = processes.map_values(|p: ProcessView| projection::process_head(p));
    let found = processes.map_values(|p: ProcessView| plain_row(p));
    reveal_strlit("# Processes");
    reveal_strlit("# Processes\n\n");
    reveal_strlit("_(no processes)_");
    reveal_strlit("_(no processes)_\n");
    reveal_strlit("\n");
    reveal_strlit("\n\n");
    assert("# Processes\n\n"@ =~= title + "\n\n"@);
    assert("_(no processes)_\n"@ =~= none + "\n"@);
    assert(entries.map_values(|l: Seq<char>| line_laws::ended(l)) =~= processes.map_values(
        |p: ProcessView| projection::process_head(p) + "\n"@,
    ));
    let read = line_laws::as_read(entries);
    assert forall|i: int| 0 <= i < entries.len() implies line_laws::has_no_feed(
        #[trigger] entries[i],
    ) by {
        assert(is_plain_row(processes[i]));
        lemma_process_head(processes[i]);
    }
    assert forall|i: int| 0 <= i < read.len() implies rows::process_line(#[trigger] read[i])
        == Some(found[i]) by {
        assert(is_plain_row(processes[i]));
        projection_laws::law_plain_process_line_is_read(processes[i]);
        lemma_cr(entries[i]);
    }
    lemma_list_lines(title, none, entries);
    let head = lemma_list_parts(title, none, entries);
    lemma_process_rows(head, read, found);
}

/// The board of processes is read back: of each process that is not over, in
/// order, all that its line tells.
pub proof fn law_process_board_is_read(
    processes: Seq<ProcessView>,
    types: Seq<(u64, Seq<char>)>,
    now: i64,
)
    requires
        forall|i: int|
            0 <= i < projection::ongoing(processes).len() ==> is_process_row(
                #[trigger] projection::ongoing(processes)[i],
                types,
            ),
    ensures
        sidebar_reload::process_rows(
            text::line_seq(projection::process_board(processes, types, now)),
        ) == projection::ongoing(processes).map_values(|p: ProcessView| process_row(p, types, now)),
{
    let live = projection::ongoing(processes);
    let title = "# Processes"@;
    let none = "_(no processes)_"@;
    let entries = live.map_values(|p: ProcessView| projection::process_entry(p, types, now));
    let found = live.map_values(|p: ProcessView| process_row(p, types, now));
    reveal_strlit("# Processes");
    reveal_strlit("# Processes\n\n");
    reveal_strlit("_(no processes)_");
    reveal_strlit("_(no processes)_\n");
    reveal_strlit("\n");
    reveal_strlit("\n\n");
    assert("# Processes\n\n"@ =~= title + "\n\n"@);
    assert("_(no processes)_\n"@ =~= none + "\n"@);
    assert(entries.map_values(|l: Seq<char>| line_laws::ended(l)) =~= live.map_values(
        |p: ProcessView| projection::process_entry(p, types, now) + "\n"@,
    ));
    let read = line_laws::as_read(entries);
    assert forall|i: int| 0 <= i < entries.len() implies line_laws::has_no_feed(
        #[trigger] entries[i],
    ) by {
        assert(is_process_row(live[i], types));
        lemma_process_entry(live[i], types, now);
    }
    assert forall|i: int| 0 <= i < read.len() implies rows::process_line(#[trigger] read[i]) == Some(
        found[i],
    ) by {
        assert(is_process_row(live[i], types));
        projection_laws::law_process_line_is_read(live[i], types, now);
        lemma_cr(entries[i]);
    }
    lemma_list_lines(title, none, entries);
    let head = lemma_list_parts(title, none, entries);
    lemma_process_rows(head, read, found);
}

} // verus!
