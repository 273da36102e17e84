//! How the shared state is shown in files: lists of one line each, and one
//! file of its own for each todo and note.

use vstd::prelude::*;
use vstd::string::*;

use crate::model;
use crate::model::{
    Agent, AgentTool, AgentToolView, AgentView, Lock, LockView, Note, NoteView, Process,
    ProcessView, Todo, TodoComment, TodoCommentView, TodoStatus, TodoView,
};
use crate::text;

verus! {

/// How the items of a list are shown, one line each.
pub trait Shown<T> {
    /// The line of an item.
    spec fn shown(&self, t: T) -> Seq<char>;

    /// The line of an item.
    fn show(&self, t: &T) -> (r: String)
        ensures
            r@ == self.shown(*t),
    ;
}

/// Lines, one after the other.
pub open spec fn run_on(lines: Seq<Seq<char>>) -> Seq<char>
    decreases lines.len(),
{
    if lines.len() == 0 {
        seq![]
    } else {
        run_on(lines.drop_last()) + lines.last()
    }
}

/// A list: its heading, and its lines or what stands where there are none.
pub open spec fn listing(head: Seq<char>, none: Seq<char>, lines: Seq<Seq<char>>) -> Seq<char> {
    if lines.len() == 0 {
        head + none
    } else {
        head + run_on(lines)
    }
}

/// The lines of items.
pub open spec fn lines_of<T, S: Shown<T>>(s: &S, items: Seq<T>) -> Seq<Seq<char>> {
    items.map_values(|t: T| s.shown(t))
}

/// Shows items as a list.
fn list_md<T, S: Shown<T>>(s: &S, items: &Vec<T>, head: &str, none: &str) -> (out: String)
    ensures
        out@ == listing(head@, none@, lines_of(s, items@)),
{
    let mut out = head.to_owned();
    let ghost all = lines_of(s, items@);
    if items.len() == 0 {
        out.append(none);
        return out;
    }
    let mut i: usize = 0;
    assert(all.take(0) =~= seq![]);
    assert(head@ + seq![] =~= head@);
    while i < items.len()
        invariant
            i <= items.len(),
            all == lines_of(s, items@),
            out@ == head@ + run_on(all.take(i as int)),
        decreases items.len() - i,
    {
        let line = s.show(&items[i]);
        let ghost was = out@;
        out.append(line.as_str());
        proof {
            let part = all.take(i + 1);
            assert(part.drop_last() =~= all.take(i as int));
            assert(part.last() == line@);
            assert(out@ =~= head@ + run_on(part));
        }
        i += 1;
    }
    assert(all.take(i as int) =~= all);
    out
}

// ---------------------------------------------------------------------------
// Todos
// ---------------------------------------------------------------------------

/// The mark of a todo in a checklist. One that will not be done has a mark of
/// its own.
pub open spec fn check_mark(s: TodoStatus) -> char {
    match s {
        TodoStatus::Completed => 'x',
        TodoStatus::NotDone => '-',
        _ => ' ',
    }
}

/// What stands behind the link of a todo.
pub open spec fn todo_label(t: TodoView) -> Seq<char> {
    t.title + " - "@ + t.status.token() + ", "@ + t.priority.token()
}

/// The line of a todo, without its end.
pub open spec fn todo_entry(t: TodoView) -> Seq<char> {
    "- ["@ + seq![check_mark(t.status)] + "] [#"@ + text::decimal(t.id as nat) + "](todos/"@
        + text::decimal(t.id as nat) + ".md) "@ + todo_label(t)
}

/// Shows a todo in the index.
struct TodoLine;

impl Shown<Todo> for TodoLine {
    closed spec fn shown(&self, t: Todo) -> Seq<char> {
        todo_entry(t@) + "\n"@
    }

    fn show(&self, t: &Todo) -> (r: String) {
        let mut out = "- [".to_owned();
        let mark = match t.status {
            TodoStatus::Completed => 'x',
            TodoStatus::NotDone => '-',
            _ => ' ',
        };
        out.push(mark);
        out.append("] [#");
        let id = text::number(t.id);
        out.append(id.as_str());
        out.append("](todos/");
        out.append(id.as_str());
        out.append(".md) ");
        out.append(t.title.as_str());
        out.append(" - ");
        out.append(t.status.as_str());
        out.append(", ");
        out.append(t.priority.as_str());
        out.append("\n");
        proof {
            assert("- ["@ + seq![mark] =~= "- ["@.push(mark));
            assert(out@ =~= todo_entry(t@) + "\n"@);
        }
        out
    }
}

/// The index of todos.
pub open spec fn todos_index(todos: Seq<TodoView>) -> Seq<char> {
    listing(
        "# Todos\n\n"@,
        "_(no todos)_\n"@,
        todos.map_values(|t: TodoView| todo_entry(t) + "\n"@),
    )
}

/// The index of todos: a checklist that links to the file of each.
pub fn render_todos_index_md(todos: &Vec<Todo>) -> (r: String)
    ensures
        r@ == todos_index(model::todo_views(todos@)),
{
    assert(lines_of(&TodoLine, todos@) =~= model::todo_views(todos@).map_values(
        |t: TodoView| todo_entry(t) + "\n"@,
    ));
    list_md(&TodoLine, todos, "# Todos\n\n", "_(no todos)_\n")
}

/// The numbers of some todos.
pub open spec fn id_list(ids: Seq<u64>) -> Seq<Seq<char>> {
    ids.map_values(|i: u64| text::decimal(i as nat))
}

/// The numbers of some todos, with commas between them.
fn join_ids(ids: &Vec<u64>) -> (r: String)
    ensures
        r@ == text::joined(id_list(ids@), ", "@),
{
    let mut parts: Vec<String> = Vec::new();
    let ghost goal = id_list(ids@);
    let mut i: usize = 0;
    assert(text::texts(parts@) =~= goal.take(0));
    while i < ids.len()
        invariant
            i <= ids.len(),
            goal == id_list(ids@),
            text::texts(parts@) == goal.take(i as int),
        decreases ids.len() - i,
    {
        let ghost was = parts@;
        let n = text::number(ids[i]);
        parts.push(n);
        proof {
            assert(text::texts(parts@) =~= text::texts(was).push(n@));
            assert(goal.take(i + 1) =~= goal.take(i as int).push(goal[i as int]));
        }
        i += 1;
    }
    assert(goal.take(i as int) =~= goal);
    text::join_texts(&parts, ", ")
}

/// A comment in the file of a todo.
pub open spec fn comment_text(c: TodoCommentView) -> Seq<char> {
    "\n**"@ + c.author + "** - "@ + c.created_at + "\n\n"@ + text::trim_right(c.body) + "\n"@
}

/// Shows a comment.
struct CommentText;

impl Shown<TodoComment> for CommentText {
    closed spec fn shown(&self, t: TodoComment) -> Seq<char> {
        comment_text(t@)
    }

    fn show(&self, t: &TodoComment) -> (r: String) {
        let mut out = "\n**".to_owned();
        out.append(t.author.as_str());
        out.append("** - ");
        out.append(t.created_at.as_str());
        out.append("\n\n");
        out.append(text::trim_end(t.body.as_str()));
        out.append("\n");
        out
    }
}

/// The fields at the head of a todo's file.
pub open spec fn todo_front(t: TodoView) -> Seq<char> {
    "---\nstatus: "@ + t.status.token() + "\npriority: "@ + t.priority.token() + "\nassignee: "@
        + t.assignee + "\ntags: "@ + text::joined(t.tags, ", "@) + "\nblockers: "@ + text::joined(
        id_list(t.blockers),
        ", "@,
    ) + "\ncreated: "@ + t.created_at + "\nupdated: "@ + t.updated_at + "\n"@ + (
    match t.completed_at {
        Some(c) => "completed: "@ + c + "\n"@,
        None => seq![],
    }) + "---\n\n"@
}

/// The body of a todo in its file.
pub open spec fn todo_prose(t: TodoView) -> Seq<char> {
    if text::trimmed(t.body).len() == 0 {
        seq![]
    } else {
        "\n"@ + text::trim_right(t.body) + "\n"@
    }
}

/// The comments of a todo in its file.
pub open spec fn todo_talk(t: TodoView) -> Seq<char> {
    if t.comments.len() == 0 {
        seq![]
    } else {
        listing(
            "\n## Comments\n"@,
            seq![],
            t.comments.map_values(|c: TodoCommentView| comment_text(c)),
        )
    }
}

/// The file of a todo.
pub open spec fn todo_file(t: TodoView) -> Seq<char> {
    todo_front(t) + "# "@ + t.title + "\n"@ + todo_prose(t) + todo_talk(t)
}

/// The fields at the head of a todo's file.
fn front_md(todo: &Todo) -> (out: String)
    ensures
        out@ == todo_front(todo@),
{
    let mut out = "---\nstatus: ".to_owned();
    out.append(todo.status.as_str());
    out.append("\npriority: ");
    out.append(todo.priority.as_str());
    out.append("\nassignee: ");
    out.append(todo.assignee.as_str());
    out.append("\ntags: ");
    out.append(text::join_texts(&todo.tags, ", ").as_str());
    out.append("\nblockers: ");
    out.append(join_ids(&todo.blockers).as_str());
    out.append("\ncreated: ");
    out.append(todo.created_at.as_str());
    out.append("\nupdated: ");
    out.append(todo.updated_at.as_str());
    out.append("\n");
    let ghost before = out@;
    if let Some(c) = &todo.completed_at {
        out.append("completed: ");
        out.append(c.as_str());
        out.append("\n");
        assert(out@ =~= before + ("completed: "@ + c@ + "\n"@));
    } else {
        assert(out@ =~= before + seq![]);
    }
    out.append("---\n\n");
    out
}

/// The file of a todo: its fields, its title, its body and its comments.
pub fn render_todo_md(todo: &Todo) -> (out: String)
    ensures
        out@ == todo_file(todo@),
{
    let mut out = front_md(todo);
    out.append("# ");
    out.append(todo.title.as_str());
    out.append("\n");
    let ghost front = out@;
    if text::trim(todo.body.as_str()).unicode_len() > 0 {
        out.append("\n");
        out.append(text::trim_end(todo.body.as_str()));
        out.append("\n");
    }
    assert(out@ =~= front + todo_prose(todo@));
    let ghost prose = out@;
    if todo.comments.len() > 0 {
        let talk = list_md(&CommentText, &todo.comments, "\n## Comments\n", "");
        out.append(talk.as_str());
        proof {
            assert(lines_of(&CommentText, todo.comments@) =~= todo@.comments.map_values(
                |c: TodoCommentView| comment_text(c),
            ));
        }
    }
    assert(out@ =~= prose + todo_talk(todo@));
    out
}

// ---------------------------------------------------------------------------
// Notes
// ---------------------------------------------------------------------------

/// The title and the body of a note in its file.
pub open spec fn note_prose(n: NoteView) -> Seq<char> {
    "# "@ + n.title + "\n\n"@ + n.body + (if n.body.len() > 0 && n.body.last() != '\n' {
        "\n"@
    } else {
        seq![]
    })
}

/// The title and the body of a note.
fn prose_md(note: &Note) -> (out: String)
    ensures
        out@ == note_prose(note@),
{
    let mut out = "# ".to_owned();
    out.append(note.title.as_str());
    out.append("\n\n");
    out.append(note.body.as_str());
    let ghost was = out@;
    let n: usize = note.body.as_str().unicode_len();
    if n > 0 && note.body.as_str().get_char(n - 1) != '\n' {
        out.append("\n");
    } else {
        assert(out@ =~= was + seq![]);
    }
    out
}

/// The file of a note.
pub open spec fn note_file(n: NoteView) -> Seq<char> {
    "---\ncreated: "@ + n.created_at + "\nupdated: "@ + n.updated_at + "\ntags: "@ + text::joined(
        n.tags,
        ", "@,
    ) + "\n---\n\n"@ + note_prose(n)
}

/// The file of a note: its fields, its title and its body.
pub fn render_note_md(note: &Note) -> (out: String)
    ensures
        out@ == note_file(note@),
{
    let mut out = "---\ncreated: ".to_owned();
    out.append(note.created_at.as_str());
    out.append("\nupdated: ");
    out.append(note.updated_at.as_str());
    out.append("\ntags: ");
    out.append(text::join_texts(&note.tags, ", ").as_str());
    out.append("\n---\n\n");
    out.append(prose_md(note).as_str());
    out
}

/// The file of a scratchpad: a note without tags.
pub open spec fn scratchpad_file(n: NoteView) -> Seq<char> {
    "---\ncreated: "@ + n.created_at + "\nupdated: "@ + n.updated_at + "\n---\n\n"@ + note_prose(n)
}

/// The file of a scratchpad: its timestamps, its title and its body.
pub fn render_scratchpad_md(pad: &Note) -> (out: String)
    ensures
        out@ == scratchpad_file(pad@),
{
    let mut out = "---\ncreated: ".to_owned();
    out.append(pad.created_at.as_str());
    out.append("\nupdated: ");
    out.append(pad.updated_at.as_str());
    out.append("\n---\n\n");
    out.append(prose_md(pad).as_str());
    out
}

/// The contents of the rows of an index: id, title and when it was changed.
pub open spec fn row_views(v: Seq<(u64, String, String)>) -> Seq<(u64, Seq<char>, Seq<char>)> {
    v.map_values(|r: (u64, String, String)| (r.0, r.1@, r.2@))
}

/// The line of a note, without its end.
pub open spec fn note_entry(dir: Seq<char>, row: (u64, Seq<char>, Seq<char>)) -> Seq<char> {
    "- [#"@ + text::decimal(row.0 as nat) + "]("@ + dir + "/"@ + text::decimal(row.0 as nat)
        + ".md) "@ + row.1 + " - updated "@ + row.2
}

/// Shows a note in an index.
struct NoteLine<'a> {
    dir: &'a str,
}

impl<'a> Shown<(u64, String, String)> for NoteLine<'a> {
    closed spec fn shown(&self, t: (u64, String, String)) -> Seq<char> {
        note_entry(self.dir@, (t.0, t.1@, t.2@)) + "\n"@
    }

    fn show(&self, t: &(u64, String, String)) -> (r: String) {
        let id = text::number(t.0);
        let mut out = "- [#".to_owned();
        out.append(id.as_str());
        out.append("](");
        out.append(self.dir);
        out.append("/");
        out.append(id.as_str());
        out.append(".md) ");
        out.append(t.1.as_str());
        out.append(" - updated ");
        out.append(t.2.as_str());
        out.append("\n");
        out
    }
}

/// The index of notes.
pub open spec fn notes_index(rows: Seq<(u64, Seq<char>, Seq<char>)>) -> Seq<char> {
    listing(
        "# Notes\n\n"@,
        "_(no notes)_\n"@,
        rows.map_values(|r: (u64, Seq<char>, Seq<char>)| note_entry("note"@, r) + "\n"@),
    )
}

/// The index of notes. Each line tells when the note was changed, so that
/// every change shows.
pub fn render_notes_index_md(rows: &Vec<(u64, String, String)>) -> (r: String)
    ensures
        r@ == notes_index(row_views(rows@)),
{
    let line = NoteLine { dir: "note" };
    assert(lines_of(&line, rows@) =~= row_views(rows@).map_values(
        |r: (u64, Seq<char>, Seq<char>)| note_entry("note"@, r) + "\n"@,
    ));
    list_md(&line, rows, "# Notes\n\n", "_(no notes)_\n")
}

/// The index of scratchpads.
pub open spec fn scratchpads_index(rows: Seq<(u64, Seq<char>, Seq<char>)>) -> Seq<char> {
    listing(
        "# Scratchpads\n\n"@,
        "_(no scratchpads)_\n"@,
        rows.map_values(|r: (u64, Seq<char>, Seq<char>)| note_entry("scratchpad"@, r) + "\n"@),
    )
}

/// The index of scratchpads.
pub fn render_scratchpads_index_md(pads: &Vec<(u64, String, String)>) -> (r: String)
    ensures
        r@ == scratchpads_index(row_views(pads@)),
{
    let line = NoteLine { dir: "scratchpad" };
    assert(lines_of(&line, pads@) =~= row_views(pads@).map_values(
        |r: (u64, Seq<char>, Seq<char>)| note_entry("scratchpad"@, r) + "\n"@,
    ));
    list_md(&line, pads, "# Scratchpads\n\n", "_(no scratchpads)_\n")
}

// ---------------------------------------------------------------------------
// Agent tools
// ---------------------------------------------------------------------------

/// The name under which a tool is shown.
pub open spec fn tool_label(t: AgentToolView) -> Seq<char> {
    if t.display_name.len() == 0 {
        t.name
    } else {
        t.display_name
    }
}

/// The line of a tool, without its end.
pub open spec fn tool_entry(t: AgentToolView) -> Seq<char> {
    "- #"@ + text::decimal(t.id as nat) + " "@ + tool_label(t) + " ["@ + (if t.enabled {
        "enabled"@
    } else {
        "disabled"@
    }) + "]"@ + (if t.command.len() == 0 {
        seq![]
    } else {
        " "@ + t.command
    })
}

/// Shows a tool.
struct ToolLine;

impl Shown<AgentTool> for ToolLine {
    closed spec fn shown(&self, t: AgentTool) -> Seq<char> {
        tool_entry(t@) + "\n"@
    }

    fn show(&self, t: &AgentTool) -> (r: String) {
        let mut out = "- #".to_owned();
        out.append(text::number(t.id).as_str());
        out.append(" ");
        if t.display_name.as_str().unicode_len() == 0 {
            out.append(t.name.as_str());
        } else {
            out.append(t.display_name.as_str());
        }
        out.append(" [");
        out.append(
            if t.enabled {
                "enabled"
            } else {
                "disabled"
            },
        );
        out.append("]");
        let ghost was = out@;
        if t.command.as_str().unicode_len() > 0 {
            out.append(" ");
            out.append(t.command.as_str());
            assert(out@ =~= was + (" "@ + t.command@));
        } else {
            assert(out@ =~= was + seq![]);
        }
        out.append("\n");
        out
    }
}

/// The list of agent tools.
pub open spec fn tools_list(tools: Seq<AgentToolView>) -> Seq<char> {
    listing(
        "# Agent tools\n\n"@,
        "_(no agent tools)_\n"@,
        tools.map_values(|t: AgentToolView| tool_entry(t) + "\n"@),
    )
}

/// The list of agent tools: id, name, whether it is enabled, and its command.
pub fn render_agent_tools_md(tools: &Vec<AgentTool>) -> (r: String)
    ensures
        r@ == tools_list(model::tool_views(tools@)),
{
    assert(lines_of(&ToolLine, tools@) =~= model::tool_views(tools@).map_values(
        |t: AgentToolView| tool_entry(t) + "\n"@,
    ));
    list_md(&ToolLine, tools, "# Agent tools\n\n", "_(no agent tools)_\n")
}

// ---------------------------------------------------------------------------
// Processes
// ---------------------------------------------------------------------------

/// The name under which a process is shown.
pub open spec fn process_label(p: ProcessView) -> Seq<char> {
    if p.display_name.len() > 0 {
        p.display_name
    } else if p.name.len() > 0 {
        p.name
    } else {
        "(unnamed)"@
    }
}

/// The line of a process up to its attributes.
pub open spec fn process_head(p: ProcessView) -> Seq<char> {
    "- ["@ + p.kind.token() + "] #"@ + text::decimal(p.id as nat) + " "@ + process_label(p) + (
    match p.agent_tool_id {
        Some(t) => " (from #"@ + text::decimal(t as nat) + ")"@,
        None => seq![],
    })
}

/// The line of a process up to its attributes.
fn head_md(p: &Process) -> (out: String)
    ensures
        out@ == process_head(p@),
{
    let mut out = "- [".to_owned();
    out.append(p.kind.as_str());
    out.append("] #");
    out.append(text::number(p.id).as_str());
    out.append(" ");
    if p.display_name.as_str().unicode_len() > 0 {
        out.append(p.display_name.as_str());
    } else if p.name.as_str().unicode_len() > 0 {
        out.append(p.name.as_str());
    } else {
        out.append("(unnamed)");
    }
    let ghost was = out@;
    match p.agent_tool_id {
        Some(t) => {
            out.append(" (from #");
            out.append(text::number(t).as_str());
            out.append(")");
            assert(out@ =~= was + (" (from #"@ + text::decimal(t as nat) + ")"@));
        },
        None => {
            assert(out@ =~= was + seq![]);
        },
    }
    out
}

/// Shows a process by its kind, its id and its name.
struct ProcessHead;

impl Shown<Process> for ProcessHead {
    closed spec fn shown(&self, t: Process) -> Seq<char> {
        process_head(t@) + "\n"@
    }

    fn show(&self, t: &Process) -> (r: String) {
        let mut out = head_md(t);
        out.append("\n");
        out
    }
}

/// The list of processes.
pub open spec fn processes_list(processes: Seq<ProcessView>) -> Seq<char> {
    listing(
        "# Processes\n\n"@,
        "_(no processes)_\n"@,
        processes.map_values(|p: ProcessView| process_head(p) + "\n"@),
    )
}

/// The list of processes: kind, id, name, and the tool that each is from.
pub fn render_processes_md(processes: &Vec<Process>) -> (r: String)
    ensures
        r@ == processes_list(model::instance_views(processes@)),
{
    assert(lines_of(&ProcessHead, processes@) =~= model::instance_views(processes@).map_values(
        |p: ProcessView| process_head(p) + "\n"@,
    ));
    list_md(&ProcessHead, processes, "# Processes\n\n", "_(no processes)_\n")
}

// ---------------------------------------------------------------------------
// Agents and locks
// ---------------------------------------------------------------------------

/// An agent by its name and what it says of itself.
pub open spec fn agent_entry(a: AgentView) -> Seq<char> {
    if a.status.len() == 0 {
        "- "@ + a.name
    } else {
        "- "@ + a.name + " - "@ + a.status
    }
}

/// An agent by its name and what it says of itself.
fn agent_md(a: &Agent) -> (out: String)
    ensures
        out@ == agent_entry(a@),
{
    let mut out = "- ".to_owned();
    out.append(a.name.as_str());
    if a.status.as_str().unicode_len() > 0 {
        out.append(" - ");
        out.append(a.status.as_str());
    }
    out
}

/// Shows an agent.
struct AgentLine;

impl Shown<Agent> for AgentLine {
    closed spec fn shown(&self, t: Agent) -> Seq<char> {
        agent_entry(t@) + "\n"@
    }

    fn show(&self, t: &Agent) -> (r: String) {
        let mut out = agent_md(t);
        out.append("\n");
        out
    }
}

/// The list of agents.
pub open spec fn agents_list(agents: Seq<AgentView>) -> Seq<char> {
    listing(
        "# Agents\n\n"@,
        "_(no agents connected)_\n"@,
        agents.map_values(|a: AgentView| agent_entry(a) + "\n"@),
    )
}

/// The list of agents: the name of each, and what it says of itself.
pub fn render_agents_md(agents: &Vec<Agent>) -> (r: String)
    ensures
        r@ == agents_list(model::agent_views(agents@)),
{
    assert(lines_of(&AgentLine, agents@) =~= model::agent_views(agents@).map_values(
        |a: AgentView| agent_entry(a) + "\n"@,
    ));
    list_md(&AgentLine, agents, "# Agents\n\n", "_(no agents connected)_\n")
}

/// How many whole minutes passed between two moments, in nanoseconds. A clock
/// that went back counts as none.
pub open spec fn minutes_between(then: u64, now: u64) -> nat {
    if now >= then {
        ((now - then) / 60_000_000_000) as nat
    } else {
        0
    }
}

/// Shows an agent with how long it has been silent.
struct RosterLine {
    now: u64,
}

/// The line of an agent with how long it has been silent, without its end.
pub open spec fn roster_entry(a: AgentView, now: u64) -> Seq<char> {
    agent_entry(a) + " (idle "@ + text::decimal(minutes_between(a.last_seen, now)) + "m)"@
}

impl Shown<Agent> for RosterLine {
    closed spec fn shown(&self, t: Agent) -> Seq<char> {
        roster_entry(t@, self.now) + "\n"@
    }

    fn show(&self, t: &Agent) -> (r: String) {
        let minutes: u64 = if self.now >= t.last_seen {
            (self.now - t.last_seen) / 60_000_000_000
        } else {
            0
        };
        let mut out = agent_md(t);
        out.append(" (idle ");
        out.append(text::number(minutes).as_str());
        out.append("m)");
        out.append("\n");
        out
    }
}

/// The list of agents with how long each has been silent.
pub open spec fn roster(agents: Seq<AgentView>, now: u64) -> Seq<char> {
    listing(
        "# Agents\n\n"@,
        "_(no agents connected)_\n"@,
        agents.map_values(|a: AgentView| roster_entry(a, now) + "\n"@),
    )
}

/// The list of agents with how long each has been silent.
pub fn render_roster_md(agents: &Vec<Agent>, now: u64) -> (r: String)
    ensures
        r@ == roster(model::agent_views(agents@), now),
{
    let line = RosterLine { now };
    assert(lines_of(&line, agents@) =~= model::agent_views(agents@).map_values(
        |a: AgentView| roster_entry(a, now) + "\n"@,
    ));
    list_md(&line, agents, "# Agents\n\n", "_(no agents connected)_\n")
}

/// The line of a lock, without its end.
pub open spec fn lock_entry(l: LockView) -> Seq<char> {
    "- `"@ + l.name + "` - held by "@ + l.holder_name + (if l.note.len() == 0 {
        seq![]
    } else {
        " - "@ + l.note
    })
}

/// Shows a lock.
struct LockLine;

impl Shown<Lock> for LockLine {
    closed spec fn shown(&self, t: Lock) -> Seq<char> {
        lock_entry(t@) + "\n"@
    }

    fn show(&self, t: &Lock) -> (r: String) {
        let mut out = "- `".to_owned();
        out.append(t.name.as_str());
        out.append("` - held by ");
        out.append(t.holder_name.as_str());
        let ghost was = out@;
        if t.note.as_str().unicode_len() > 0 {
            out.append(" - ");
            out.append(t.note.as_str());
            assert(out@ =~= was + (" - "@ + t.note@));
        } else {
            assert(out@ =~= was + seq![]);
        }
        out.append("\n");
        out
    }
}

/// The list of locks.
pub open spec fn locks_list(locks: Seq<LockView>) -> Seq<char> {
    listing(
        "# Locks\n\n"@,
        "_(no locks held)_\n"@,
        locks.map_values(|l: LockView| lock_entry(l) + "\n"@),
    )
}

/// The list of locks: name, holder, and the holder's note.
pub fn render_locks_md(locks: &Vec<Lock>) -> (r: String)
    ensures
        r@ == locks_list(model::lock_views(locks@)),
{
    assert(lines_of(&LockLine, locks@) =~= model::lock_views(locks@).map_values(
        |l: LockView| lock_entry(l) + "\n"@,
    ));
    list_md(&LockLine, locks, "# Locks\n\n", "_(no locks held)_\n")
}

// ---------------------------------------------------------------------------
// Processes with their attributes
// ---------------------------------------------------------------------------

/// The type of a tool, where the list has it.
pub open spec fn type_in(types: Seq<(u64, Seq<char>)>, id: u64) -> Option<Seq<char>>
    decreases types.len(),
{
    if types.len() == 0 {
        None
    } else if types[0].0 == id {
        Some(types[0].1)
    } else {
        type_in(types.drop_first(), id)
    }
}

/// The contents of the types of tools.
pub open spec fn type_views(v: Seq<(u64, String)>) -> Seq<(u64, Seq<char>)> {
    v.map_values(|t: (u64, String)| (t.0, t.1@))
}

/// The type of a tool.
fn find_type<'a>(types: &'a Vec<(u64, String)>, id: u64) -> (r: Option<&'a str>)
    ensures
        text::opt_str(r) == type_in(type_views(types@), id),
{
    let ghost all = type_views(types@);
    let mut i: usize = 0;
    assert(all.skip(0) =~= all);
    while i < types.len()
        invariant
            i <= types.len(),
            all == type_views(types@),
            type_in(all, id) == type_in(all.skip(i as int), id),
        decreases types.len() - i,
    {
        assert(all.skip(i as int)[0] == (types@[i as int].0, types@[i as int].1@));
        if types[i].0 == id {
            return Some(types[i].1.as_str());
        }
        assert(all.skip(i as int).drop_first() =~= all.skip(i + 1));
        i += 1;
    }
    None
}

/// The name of a tool, where the list has it.
pub open spec fn tool_name_in(tools: Seq<AgentToolView>, id: u64) -> Option<Seq<char>>
    decreases tools.len(),
{
    if tools.len() == 0 {
        None
    } else if tools[0].id == id {
        Some(tools[0].name)
    } else {
        tool_name_in(tools.drop_first(), id)
    }
}

/// The name of a tool.
fn find_tool_name<'a>(tools: &'a Vec<AgentTool>, id: u64) -> (r: Option<&'a str>)
    ensures
        text::opt_str(r) == tool_name_in(model::tool_views(tools@), id),
{
    let ghost all = model::tool_views(tools@);
    let mut i: usize = 0;
    assert(all.skip(0) =~= all);
    while i < tools.len()
        invariant
            i <= tools.len(),
            all == model::tool_views(tools@),
            tool_name_in(all, id) == tool_name_in(all.skip(i as int), id),
        decreases tools.len() - i,
    {
        assert(all.skip(i as int)[0] == tools@[i as int]@);
        if tools[i].id == id {
            return Some(tools[i].name.as_str());
        }
        assert(all.skip(i as int).drop_first() =~= all.skip(i + 1));
        i += 1;
    }
    None
}

/// A process as it is shown: without a name of its own it has that of the tool
/// it is from.
pub open spec fn shown_process(p: ProcessView, tools: Seq<AgentToolView>) -> ProcessView {
    match p.agent_tool_id {
        Some(id) => match tool_name_in(tools, id) {
            Some(name) => if p.name.len() == 0 {
                ProcessView { name, ..p }
            } else {
                p
            },
            None => p,
        },
        None => p,
    }
}

/// Processes as they are shown.
pub open spec fn shown_processes(
    processes: Seq<ProcessView>,
    tools: Seq<AgentToolView>,
) -> Seq<ProcessView> {
    processes.map_values(|p: ProcessView| shown_process(p, tools))
}

/// A process without any name is shown under that of its tool.
pub proof fn law_unnamed_is_shown_as_its_tool(
    p: ProcessView,
    tools: Seq<AgentToolView>,
    id: u64,
)
    requires
        p.name.len() == 0,
        p.display_name.len() == 0,
        p.agent_tool_id == Some(id),
        tool_name_in(tools, id) matches Some(name) && name.len() > 0,
    ensures
        Some(process_label(shown_process(p, tools))) == tool_name_in(tools, id),
{
}

/// A process as it is shown.
fn show_process(p: &Process, tools: &Vec<AgentTool>) -> (r: Process)
    ensures
        r@ == shown_process(p@, model::tool_views(tools@)),
{
    let mut shown = p.copy();
    if p.name.as_str().unicode_len() == 0 {
        match p.agent_tool_id {
            Some(id) => match find_tool_name(tools, id) {
                Some(name) => {
                    shown.name = name.to_owned();
                },
                None => {},
            },
            None => {},
        }
    }
    shown
}

/// Processes as they are shown.
pub fn show_processes(processes: &Vec<Process>, tools: &Vec<AgentTool>) -> (out: Vec<Process>)
    ensures
        model::instance_views(out@) == shown_processes(
            model::instance_views(processes@),
            model::tool_views(tools@),
        ),
{
    let ghost goal = shown_processes(
        model::instance_views(processes@),
        model::tool_views(tools@),
    );
    let mut out: Vec<Process> = Vec::new();
    let mut i: usize = 0;
    assert(model::instance_views(out@) =~= goal.take(0));
    while i < processes.len()
        invariant
            i <= processes.len(),
            goal == shown_processes(
                model::instance_views(processes@),
                model::tool_views(tools@),
            ),
            model::instance_views(out@) == goal.take(i as int),
        decreases processes.len() - i,
    {
        let ghost was = out@;
        let shown = show_process(&processes[i], tools);
        out.push(shown);
        proof {
            assert(goal[i as int] == shown@);
            assert(model::instance_views(out@) =~= model::instance_views(was).push(shown@));
            assert(goal.take(i + 1) =~= goal.take(i as int).push(goal[i as int]));
        }
        i += 1;
    }
    assert(goal.take(i as int) =~= goal);
    out
}

/// Whether a process is over: it was stopped, or it is gone.
pub open spec fn is_over(p: ProcessView) -> bool {
    p.status == Some("stopped"@) || p.status == Some("exited"@)
}

/// The type of a process: that of the tool it is from.
pub open spec fn process_type(p: ProcessView, types: Seq<(u64, Seq<char>)>) -> Option<Seq<char>> {
    match p.agent_tool_id {
        Some(t) => type_in(types, t),
        None => None,
    }
}

/// The name under which a process is registered as an agent.
pub open spec fn process_agent(p: ProcessView) -> Option<Seq<char>> {
    if p.kind == model::ProcessKind::Agent && p.name.len() > 0 {
        Some(p.name)
    } else {
        None
    }
}

/// How long an idle agent has been idle, in whole minutes.
pub open spec fn idle_age(p: ProcessView, now: i64) -> Option<Seq<char>> {
    if p.agent_state == Some("idle"@) && p.state_since is Some {
        Some(
            text::decimal(
                if now > p.state_since->0 {
                    ((now - p.state_since->0) / 60) as nat
                } else {
                    0
                },
            ) + "m"@,
        )
    } else {
        None
    }
}

/// An attribute, where it is there.
pub open spec fn attribute(key: Seq<char>, value: Option<Seq<char>>) -> Seq<char> {
    match value {
        Some(v) => " · "@ + key + v,
        None => seq![],
    }
}

/// The line of a process, without its end: kind, id and name, then its status
/// and what is known of it as an agent.
pub open spec fn process_entry(p: ProcessView, types: Seq<(u64, Seq<char>)>, now: i64) -> Seq<
    char,
> {
    process_head(p) + attribute(seq![], p.status) + attribute("type:"@, process_type(p, types))
        + attribute("agent:"@, process_agent(p)) + attribute("state:"@, p.agent_state)
        + attribute("idle:"@, idle_age(p, now))
}

/// Adds an attribute, where it is there.
fn add_attribute(out: &mut String, key: &str, value: Option<&str>)
    ensures
        final(out)@ == old(out)@ + attribute(key@, text::opt_str(value)),
{
    match value {
        Some(v) => {
            out.append(" · ");
            out.append(key);
            out.append(v);
            assert(out@ =~= old(out)@ + (" · "@ + key@ + v@));
        },
        None => {
            assert(out@ =~= old(out)@ + seq![]);
        },
    }
}

/// A text that may be there.
fn opt_ref<'a>(o: &'a Option<String>) -> (r: Option<&'a str>)
    ensures
        text::opt_str(r) == text::opt_text(*o),
{
    match o {
        Some(s) => Some(s.as_str()),
        None => None,
    }
}

/// How long an idle agent has been idle.
fn age_md(p: &Process, now: i64) -> (r: Option<String>)
    ensures
        text::opt_text(r) == idle_age(p@, now),
{
    if !text::is_some_text(&p.agent_state, "idle") {
        return None;
    }
    match p.state_since {
        Some(since) => {
            let minutes: u64 = if now > since {
                ((now as i128 - since as i128) / 60) as u64
            } else {
                0
            };
            let mut out = text::number(minutes);
            out.append("m");
            Some(out)
        },
        None => None,
    }
}

/// Shows a process with its attributes.
struct ProcessLine<'a> {
    types: &'a Vec<(u64, String)>,
    now: i64,
}

impl<'a> Shown<Process> for ProcessLine<'a> {
    closed spec fn shown(&self, t: Process) -> Seq<char> {
        process_entry(t@, type_views(self.types@), self.now) + "\n"@
    }

    fn show(&self, t: &Process) -> (r: String) {
        let mut out = head_md(t);
        proof {
            reveal_strlit("");
            assert(""@ =~= Seq::<char>::empty());
        }
        add_attribute(&mut out, "", opt_ref(&t.status));
        let kind = match t.agent_tool_id {
            Some(id) => find_type(self.types, id),
            None => None,
        };
        add_attribute(&mut out, "type:", kind);
        let is_agent = t.kind == model::ProcessKind::Agent && t.name.as_str().unicode_len() > 0;
        let agent = if is_agent {
            Some(t.name.as_str())
        } else {
            None
        };
        add_attribute(&mut out, "agent:", agent);
        add_attribute(&mut out, "state:", opt_ref(&t.agent_state));
        let age = age_md(t, self.now);
        add_attribute(&mut out, "idle:", opt_ref(&age));
        out.append("\n");
        out
    }
}

/// The processes that are not over.
pub open spec fn ongoing(processes: Seq<ProcessView>) -> Seq<ProcessView> {
    processes.filter(|p: ProcessView| !is_over(p))
}

/// The list of the processes that are not over, each with its attributes.
pub open spec fn process_board(
    processes: Seq<ProcessView>,
    types: Seq<(u64, Seq<char>)>,
    now: i64,
) -> Seq<char> {
    listing(
        "# Processes\n\n"@,
        "_(no processes)_\n"@,
        ongoing(processes).map_values(|p: ProcessView| process_entry(p, types, now) + "\n"@),
    )
}

/// The list of the processes that are not over, each with its attributes. The
/// moment is in seconds.
pub fn render_process_board_md(processes: &Vec<Process>, types: &Vec<(u64, String)>, now: i64) -> (r:
    String)
    ensures
        r@ == process_board(model::instance_views(processes@), type_views(types@), now),
{
    let ghost all = model::instance_views(processes@);
    let mut live: Vec<Process> = Vec::new();
    let mut i: usize = 0;
    let line = ProcessLine { types, now };
    assert(all.take(0) =~= seq![]);
    assert(model::instance_views(live@) =~= ongoing(all.take(0))) by {
        reveal(Seq::filter);
    }
    while i < processes.len()
        invariant
            i <= processes.len(),
            all == model::instance_views(processes@),
            model::instance_views(live@) == ongoing(all.take(i as int)),
        decreases processes.len() - i,
    {
        let ghost was = live@;
        let p = &processes[i];
        proof {
            let part = all.take(i + 1);
            assert(part.drop_last() =~= all.take(i as int));
            assert(part.last() == p@);
            reveal(Seq::filter);
        }
        if !(text::is_some_text(&p.status, "stopped") || text::is_some_text(&p.status, "exited")) {
            let c = p.copy();
            live.push(c);
            assert(model::instance_views(live@) =~= model::instance_views(was).push(c@));
        }
        i += 1;
    }
    assert(all.take(i as int) =~= all);
    proof {
        assert forall|k: int| 0 <= k < live@.len() implies #[trigger] ongoing(all)[k]
            == live@[k]@ by {}
        assert(lines_of(&line, live@) =~= ongoing(all).map_values(
            |p: ProcessView| process_entry(p, type_views(types@), now) + "\n"@,
        ));
    }
    list_md(&line, &live, "# Processes\n\n", "_(no processes)_\n")
}

} // verus!
