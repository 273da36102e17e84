//! The files that show a project: which files there are, what each holds, and
//! where in it each thing stands.

use vstd::prelude::*;
use vstd::string::*;

use crate::inputs;
use crate::model::{
    AgentToolView, AgentView, LockView, NoteView, ProcessKind, ProcessView, TodoCommentView,
    TodoStatus, TodoView,
};
use crate::modes::{TodoFilter, TodoSort};
use crate::notes;
use crate::picking;
use crate::processes;
use crate::projected;
use crate::projection;
use crate::record_laws;
use crate::project_laws;
use crate::registry;
use crate::rows;
use crate::rows::{ConfigRowView, ProcessRowView};
use crate::search_laws;
use crate::store::{StoreView, Surface};
use crate::store_agents;
use crate::store_files;
use crate::store_inputs;
use crate::table;
use crate::text;
use crate::todos;
use crate::tools;
use crate::wire;
use crate::wire::ViewState;

verus! {

// ---------------------------------------------------------------------------
// Lists
// ---------------------------------------------------------------------------

/// Lines that run on are their texts, one behind the other.
proof fn lemma_run_on(lines: Seq<Seq<char>>)
    ensures
        projection::run_on(lines) == lines.flatten_alt(),
    decreases lines.len(),
{
    if lines.len() > 0 {
        lemma_run_on(lines.drop_last());
    }
}

/// A list is its head and its lines, one behind the other, and nothing else; where
/// there is no line, it says so.
pub proof fn law_list_is_its_lines(head: Seq<char>, none: Seq<char>, lines: Seq<Seq<char>>)
    ensures
        lines.len() == 0 ==> projection::listing(head, none, lines) == head + none,
        lines.len() > 0 ==> projection::listing(head, none, lines) == head + lines.flatten(),
{
    lemma_run_on(lines);
    lines.lemma_flatten_and_flatten_alt_are_equivalent();
}

/// A part of a text stands in it.
proof fn lemma_stands(a: Seq<char>, x: Seq<char>, b: Seq<char>)
    ensures
        search_laws::stands_in(x, a + x + b),
{
    let s = a + x + b;
    assert(s.subrange(a.len() as int, (a.len() + x.len()) as int) =~= x);
}

/// What stands in a part of a text stands in the text.
proof fn lemma_stands_within(a: Seq<char>, x: Seq<char>, b: Seq<char>, part: Seq<char>)
    requires
        search_laws::stands_in(part, x),
    ensures
        search_laws::stands_in(part, a + x + b),
{
    let i = choose|i: int|
        0 <= i && i + part.len() <= x.len() && #[trigger] x.subrange(i, i + part.len()) == part;
    let s = a + x + b;
    let at = a.len() + i;
    assert(s.subrange(at, at + part.len()) =~= x.subrange(i, i + part.len()));
}

// ---------------------------------------------------------------------------
// Todos and notes
// ---------------------------------------------------------------------------

/// A todo in the index is ticked where it was completed, struck where it will not
/// be done, and open otherwise.
pub proof fn law_ticks(t: TodoView)
    ensures
        ({
            let mark = "- ["@ + seq![projection::check_mark(t.status)];
            let entry = projection::todo_entry(t);
            &&& t.status == TodoStatus::Completed ==> text::begins(entry, "- [x] [#"@)
            &&& t.status == TodoStatus::NotDone ==> text::begins(entry, "- [-] [#"@)
            &&& t.status != TodoStatus::Completed && t.status != TodoStatus::NotDone
                ==> text::begins(entry, "- [ ] [#"@)
        }),
{
    reveal_strlit("- [x] [#");
    reveal_strlit("- [-] [#");
    reveal_strlit("- [ ] [#");
    reveal_strlit("- [");
    reveal_strlit("] [#");
    let entry = projection::todo_entry(t);
    let first = "- ["@ + seq![projection::check_mark(t.status)] + "] [#"@;
    assert(entry.subrange(0, 8) =~= first);
    if t.status == TodoStatus::Completed {
        assert(first =~= "- [x] [#"@);
    } else if t.status == TodoStatus::NotDone {
        assert(first =~= "- [-] [#"@);
    } else {
        assert(first =~= "- [ ] [#"@);
    }
}

/// A field stands in a text: its key, its value and what follows. The text is that
/// before the value with all behind it, and so it is for the field before.
proof fn lemma_field(
    whole: Seq<char>,
    before: Seq<char>,
    key: Seq<char>,
    value: Seq<char>,
    next: Seq<char>,
    rest: Seq<char>,
)
    requires
        whole == before + key + value + next + rest,
    ensures
        search_laws::stands_in(key + value + next, whole),
        whole == before + key + (value + next + rest),
{
    assert(whole =~= before + (key + value + next) + rest);
    lemma_stands(before, key + value + next, rest);
    assert(whole =~= before + key + (value + next + rest));
}

/// The file of a todo tells its status, its priority, whom it is assigned to, its
/// tags, what blocks it, and when it was made, changed and completed.
pub proof fn law_todo_file_tells_its_fields(t: TodoView)
    ensures
        ({
            let front = projection::todo_front(t);
            &&& text::begins(projection::todo_file(t), front)
            &&& search_laws::stands_in("---\nstatus: "@ + t.status.token() + "\npriority: "@, front)
            &&& search_laws::stands_in(
                "\npriority: "@ + t.priority.token() + "\nassignee: "@,
                front,
            )
            &&& search_laws::stands_in("\nassignee: "@ + t.assignee + "\ntags: "@, front)
            &&& search_laws::stands_in(
                "\ntags: "@ + text::joined(t.tags, ", "@) + "\nblockers: "@,
                front,
            )
            &&& search_laws::stands_in(
                "\nblockers: "@ + text::joined(
                    Seq::new(t.blockers.len(), |i: int| text::decimal(t.blockers[i] as nat)),
                    ", "@,
                ) + "\ncreated: "@,
                front,
            )
            &&& search_laws::stands_in("\ncreated: "@ + t.created_at + "\nupdated: "@, front)
            &&& search_laws::stands_in("\nupdated: "@ + t.updated_at + "\n"@, front)
            &&& t.completed_at is Some ==> search_laws::stands_in(
                "completed: "@ + t.completed_at->0 + "\n"@,
                front,
            )
        }),
{
    let front = projection::todo_front(t);
    let rest = "# "@ + t.title + "\n"@ + projection::todo_prose(t) + projection::todo_talk(t);
    let file = projection::todo_file(t);
    assert(file =~= front + rest);
    assert(file.subrange(0, front.len() as int) =~= front);
    let ids = projection::id_list(t.blockers);
    assert(ids =~= Seq::new(t.blockers.len(), |i: int| text::decimal(t.blockers[i] as nat)));
    let p1 = "---\nstatus: "@ + t.status.token();
    let p2 = p1 + "\npriority: "@ + t.priority.token();
    let p3 = p2 + "\nassignee: "@ + t.assignee;
    let p4 = p3 + "\ntags: "@ + text::joined(t.tags, ", "@);
    let p5 = p4 + "\nblockers: "@ + text::joined(ids, ", "@);
    let p6 = p5 + "\ncreated: "@ + t.created_at;
    let p7 = p6 + "\nupdated: "@ + t.updated_at + "\n"@;
    let done = match t.completed_at {
        Some(c) => "completed: "@ + c + "\n"@,
        None => seq![],
    };
    assert(front == p7 + done + "---\n\n"@);
    let r7 = done + "---\n\n"@;
    let r6 = t.updated_at + "\n"@ + r7;
    let r5 = t.created_at + "\nupdated: "@ + r6;
    let r4 = text::joined(ids, ", "@) + "\ncreated: "@ + r5;
    let r3 = text::joined(t.tags, ", "@) + "\nblockers: "@ + r4;
    let r2 = t.assignee + "\ntags: "@ + r3;
    let r1 = t.priority.token() + "\nassignee: "@ + r2;
    assert(front =~= p7 + r7);
    lemma_field(front, p6, "\nupdated: "@, t.updated_at, "\n"@, r7);
    lemma_field(front, p5, "\ncreated: "@, t.created_at, "\nupdated: "@, r6);
    lemma_field(front, p4, "\nblockers: "@, text::joined(ids, ", "@), "\ncreated: "@, r5);
    lemma_field(front, p3, "\ntags: "@, text::joined(t.tags, ", "@), "\nblockers: "@, r4);
    lemma_field(front, p2, "\nassignee: "@, t.assignee, "\ntags: "@, r3);
    lemma_field(front, p1, "\npriority: "@, t.priority.token(), "\nassignee: "@, r2);
    assert(p1 =~= Seq::<char>::empty() + "---\nstatus: "@ + t.status.token());
    lemma_field(front, Seq::empty(), "---\nstatus: "@, t.status.token(), "\npriority: "@, r1);
    if t.completed_at is Some {
        lemma_stands(p7, done, "---\n\n"@);
    }
}

/// The file of a todo has its title, then its text, and then what was said of it,
/// each comment with its author and its moment, in order; a text that is blank is
/// left out, and so is the talk where nobody said anything.
pub proof fn law_todo_file_tells_its_text(t: TodoView)
    ensures
        ({
            let file = projection::todo_file(t);
            let front = projection::todo_front(t);
            let body = if text::trimmed(t.body).len() == 0 {
                Seq::empty()
            } else {
                "\n"@ + text::trim_right(t.body) + "\n"@
            };
            let said = Seq::new(
                t.comments.len(),
                |i: int|
                    "\n**"@ + t.comments[i].author + "** - "@ + t.comments[i].created_at + "\n\n"@
                        + text::trim_right(t.comments[i].body) + "\n"@,
            );
            &&& t.comments.len() == 0 ==> file == front + "# "@ + t.title + "\n"@ + body
            &&& t.comments.len() > 0 ==> file == front + "# "@ + t.title + "\n"@ + body
                + "\n## Comments\n"@ + said.flatten()
        }),
{
    let said = Seq::new(
        t.comments.len(),
        |i: int|
            "\n**"@ + t.comments[i].author + "** - "@ + t.comments[i].created_at + "\n\n"@
                + text::trim_right(t.comments[i].body) + "\n"@,
    );
    let lines = t.comments.map_values(|c: TodoCommentView| projection::comment_text(c));
    assert(lines =~= said);
    law_list_is_its_lines("\n## Comments\n"@, seq![], lines);
    let start = projection::todo_front(t) + "# "@ + t.title + "\n"@ + projection::todo_prose(t);
    assert(projection::todo_file(t) =~= start + projection::todo_talk(t));
    if t.comments.len() > 0 {
        assert(start + ("\n## Comments\n"@ + said.flatten()) =~= start + "\n## Comments\n"@
            + said.flatten());
    } else {
        assert(start + projection::todo_talk(t) =~= start);
    }
}

/// The file of a note tells when it was made and changed and which tags it has,
/// and then its title and its text, which ends a line.
pub proof fn law_note_file_tells_all(n: NoteView)
    ensures
        ({
            let file = projection::note_file(n);
            let head = "---\ncreated: "@ + n.created_at + "\nupdated: "@ + n.updated_at
                + "\ntags: "@ + text::joined(n.tags, ", "@) + "\n---\n\n"@;
            let text = "# "@ + n.title + "\n\n"@ + n.body;
            &&& n.body.len() > 0 && n.body.last() != '\n' ==> file == head + text + seq!['\n']
            &&& n.body.len() == 0 || n.body.last() == '\n' ==> file == head + text
        }),
{
    reveal_strlit("\n");
    let head = "---\ncreated: "@ + n.created_at + "\nupdated: "@ + n.updated_at + "\ntags: "@
        + text::joined(n.tags, ", "@) + "\n---\n\n"@;
    let text = "# "@ + n.title + "\n\n"@ + n.body;
    assert("\n"@ =~= seq!['\n']);
    assert(head + (text + seq!['\n']) =~= head + text + seq!['\n']);
    assert(text + Seq::<char>::empty() =~= text);
}

// ---------------------------------------------------------------------------
// Processes, agents and locks
// ---------------------------------------------------------------------------

/// The board shows the processes that are neither stopped nor exited, in their
/// order.
pub proof fn law_board_shows_what_goes_on(processes: Seq<ProcessView>) -> (at: Seq<int>)
    ensures
        picking::picks(processes, at, projection::ongoing(processes)),
        forall|i: int| #[trigger]
            at.contains(i) <==> 0 <= i < processes.len() && processes[i].status != Some("stopped"@)
                && processes[i].status != Some("exited"@),
{
    picking::lemma_filter_places(processes, |p: ProcessView| !projection::is_over(p))
}

/// An agent that is idle is shown with the whole minutes since it became so, and
/// no other one is.
pub proof fn law_idle_agents_show_their_minutes(p: ProcessView, now: i64)
    ensures
        p.agent_state != Some("idle"@) || p.state_since is None ==> projection::idle_age(p, now)
            is None,
        p.agent_state == Some("idle"@) && p.state_since is Some ==> exists|m: nat|
            projection::idle_age(p, now) == Some(#[trigger] text::decimal(m) + "m"@) && (if now
                <= p.state_since->0 {
                m == 0
            } else {
                60 * m <= now - p.state_since->0 < 60 * (m + 1)
            }),
{
    if p.agent_state == Some("idle"@) && p.state_since is Some {
        let m: nat = if now > p.state_since->0 {
            ((now - p.state_since->0) / 60) as nat
        } else {
            0
        };
        assert(projection::idle_age(p, now) == Some(text::decimal(m) + "m"@));
    }
}

/// An agent on the roster is shown with its status, where it has one, and with the
/// whole minutes since it was seen.
pub proof fn law_roster_shows_the_minutes(a: AgentView, now: u64) -> (m: nat)
    ensures
        now < a.last_seen ==> m == 0,
        now >= a.last_seen ==> 60_000_000_000 * m <= now - a.last_seen < 60_000_000_000 * (m + 1),
        a.status.len() == 0 ==> projection::roster_entry(a, now) == "- "@ + a.name + " (idle "@
            + text::decimal(m) + "m)"@,
        a.status.len() > 0 ==> projection::roster_entry(a, now) == "- "@ + a.name + " - "@
            + a.status + " (idle "@ + text::decimal(m) + "m)"@,
{
    projection::minutes_between(a.last_seen, now)
}

/// A process is shown under its display name, or under its name where it has none,
/// or as unnamed; the type is that of its tool, and an agent has its name as id.
pub proof fn law_processes_are_shown_by_name(p: ProcessView)
    ensures
        p.display_name.len() > 0 ==> projection::process_label(p) == p.display_name,
        p.display_name.len() == 0 && p.name.len() > 0 ==> projection::process_label(p) == p.name,
        p.display_name.len() == 0 && p.name.len() == 0 ==> projection::process_label(p)
            == "(unnamed)"@,
        p.kind == ProcessKind::Agent && p.name.len() > 0 ==> projection::process_agent(p) == Some(
            p.name,
        ),
        p.kind != ProcessKind::Agent || p.name.len() == 0 ==> projection::process_agent(p) is None,
{
}

/// A process is shown under the name of its tool where it has none of its own, and
/// as it is otherwise.
pub proof fn law_process_borrows_the_name_of_its_tool(
    p: ProcessView,
    tools: Seq<AgentToolView>,
    i: int,
)
    requires
        0 <= i < tools.len(),
        p.agent_tool_id == Some(tools[i].id),
        forall|k: int| 0 <= k < i ==> (#[trigger] tools[k]).id != tools[i].id,
    ensures
        p.name.len() == 0 ==> projection::shown_process(p, tools) == (ProcessView {
            name: tools[i].name,
            ..p
        }),
        p.name.len() > 0 ==> projection::shown_process(p, tools) == p,
{
    lemma_tool_name_in(tools, i);
}

/// The name of a tool is that of the first with its id.
proof fn lemma_tool_name_in(tools: Seq<AgentToolView>, i: int)
    requires
        0 <= i < tools.len(),
        forall|k: int| 0 <= k < i ==> (#[trigger] tools[k]).id != tools[i].id,
    ensures
        projection::tool_name_in(tools, tools[i].id) == Some(tools[i].name),
    decreases tools.len(),
{
    if i > 0 {
        let rest = tools.drop_first();
        assert(tools[0].id != tools[i].id);
        assert(rest[i - 1] == tools[i]);
        assert forall|k: int| 0 <= k < i - 1 implies (#[trigger] rest[k]).id != rest[i
            - 1].id by {
            assert(tools[k + 1] == rest[k]);
        }
        lemma_tool_name_in(rest, i - 1);
    }
}

/// A lock is shown with its name, its holder and, where there is one, its note.
pub proof fn law_lock_shows_its_holder(l: LockView)
    ensures
        l.note.len() == 0 ==> projection::lock_entry(l) == "- `"@ + l.name + "` - held by "@
            + l.holder_name,
        l.note.len() > 0 ==> projection::lock_entry(l) == "- `"@ + l.name + "` - held by "@
            + l.holder_name + " - "@ + l.note,
{
    let start = "- `"@ + l.name + "` - held by "@ + l.holder_name;
    assert(start + Seq::<char>::empty() =~= start);
    assert(start + (" - "@ + l.note) =~= start + " - "@ + l.note);
}

/// A config is listed with its number and its label, and with the state of its
/// agent where that has one: what was made out of its output, or else its status;
/// and how long, where it is idle.
pub proof fn law_config_shows_its_agent(c: ConfigRowView, inst: ProcessRowView)
    ensures
        ({
            let base = "#"@ + text::decimal(c.id as nat) + " "@ + c.label;
            let state = if inst.agent_state is Some {
                inst.agent_state
            } else {
                inst.status
            };
            let label = rows::config_label(c, Some(inst));
            &&& rows::config_label(c, None) == base
            &&& state is None ==> label == base
            &&& state is Some && (state->0).len() == 0 ==> label == base
            &&& state is Some && (state->0).len() > 0 && (inst.agent_state != Some("idle"@)
                || inst.idle is None) ==> label == base + " · "@ + state->0
            &&& inst.agent_state == Some("idle"@) && inst.idle is Some ==> label == base + " · "@
                + "idle"@ + " "@ + inst.idle->0
        }),
{
    reveal_strlit("idle");
}

// ---------------------------------------------------------------------------
// Which files
// ---------------------------------------------------------------------------

/// Todos are shown in an index and in a file for each todo, under its number.
pub proof fn law_todos_have_files(s: StoreView, project: i64, secs: i64, nanos: u64)
    ensures
        ({
            let files = store_files::files_of(s, project, Surface::Todos, secs, nanos);
            let list = todos::todos_of(s.project(project));
            &&& files.len() == 1 + list.len()
            &&& files[0] == (".panopt/todos.md"@, projection::todos_index(list))
            &&& forall|i: int|
                0 <= i < list.len() ==> files[i + 1] == (
                    ".panopt/todos/"@ + text::decimal((#[trigger] list[i]).id as nat) + ".md"@,
                    projection::todo_file(list[i]),
                )
        }),
{
}

/// A note is shown in a file under its number, as long as it is there.
pub proof fn law_notes_have_files(
    s: StoreView,
    at: int,
    id: u64,
    secs: i64,
    nanos: u64,
    i: int,
)
    requires
        s.wf(),
        0 <= at < s.projects.len(),
    ensures
        ({
            let p = s.projects[at];
            let files = store_files::files_of(s, p.id, Surface::Note(id), secs, nanos);
            &&& record_laws::is_missing(p.notes, id) ==> files.len() == 0
            &&& record_laws::is_row(p.notes, i, id) ==> files == seq![
                (
                    ".panopt/note/"@ + text::decimal(p.notes[i].value.id as nat) + ".md"@,
                    projection::note_file(p.notes[i].value),
                ),
            ]
        }),
{
    let p = s.projects[at];
    project_laws::lemma_project(s, at);
    record_laws::lemma_row(p.notes, p.next_id, id, i);
}

/// Each of the other parts of a project is shown in a file of its own.
pub proof fn law_parts_have_their_files(s: StoreView, project: i64, secs: i64, nanos: u64)
    ensures
        ({
            let of = |what: Surface| store_files::files_of(s, project, what, secs, nanos);
            let p = s.project(project);
            let tools = tools::tools_of(p, s.default_type);
            let notes = table::live_values(p.notes);
            let listed = processes::processes_of(p);
            &&& of(Surface::NotesIndex) == seq![
                (
                    ".panopt/notes.md"@,
                    projection::notes_index(
                        Seq::new(
                            notes.len(),
                            |i: int| (notes[i].id, notes[i].title, notes[i].updated_at),
                        ),
                    ),
                ),
            ]
            &&& of(Surface::AgentTools) == seq![
                (".panopt/agent_tools.md"@, projection::tools_list(tools)),
            ]
            &&& of(Surface::Processes) == seq![
                (
                    ".panopt/processes.md"@,
                    projection::process_board(
                        Seq::new(
                            listed.len(),
                            |i: int| projection::shown_process(listed[i], tools),
                        ),
                        Seq::new(tools.len(), |i: int| (tools[i].id, tools[i].tool_type)),
                        secs,
                    ),
                ),
            ]
            &&& of(Surface::Agents) == seq![
                (
                    ".panopt/agents.md"@,
                    projection::roster(registry::listed(s.agents, project), nanos),
                ),
            ]
            &&& of(Surface::Locks) == seq![
                (
                    ".panopt/locks.md"@,
                    projection::locks_list(store_agents::locks_shown(s, project)),
                ),
            ]
            &&& of(Surface::Inputs) == seq![
                (
                    ".panopt/.cockpit/inputs.jsonl"@,
                    inputs::inputs_text(store_inputs::waiting(s.inputs, project)),
                ),
            ]
        }),
{
    let p = s.project(project);
    let tools = tools::tools_of(p, s.default_type);
    let notes = table::live_values(p.notes);
    let listed = processes::processes_of(p);
    assert(notes::index_rows(notes) =~= Seq::new(
        notes.len(),
        |i: int| (notes[i].id, notes[i].title, notes[i].updated_at),
    ));
    assert(projection::shown_processes(listed, tools) =~= Seq::new(
        listed.len(),
        |i: int| projection::shown_process(listed[i], tools),
    ));
    assert(tools::types_of(tools) =~= Seq::new(
        tools.len(),
        |i: int| (tools[i].id, tools[i].tool_type),
    ));
}

/// Everything holds each file of each part but the input, and the file of each note.
pub proof fn law_everything_holds_each_part(
    s: StoreView,
    project: i64,
    what: Surface,
    secs: i64,
    nanos: u64,
    i: int,
)
    requires
        what is Todos || what is NotesIndex || what is AgentTools || what is Processes
            || what is Agents || what is Locks,
        0 <= i < store_files::files_of(s, project, what, secs, nanos).len(),
    ensures
        store_files::files_of(s, project, Surface::Everything, secs, nanos).contains(
            store_files::files_of(s, project, what, secs, nanos)[i],
        ),
{
    let f = store_files::files_of(s, project, what, secs, nanos)[i];
    let all = store_files::files_of(s, project, Surface::Everything, secs, nanos);
    let first = projected::first_files();
    let todos = store_files::files_of_todos(s, project);
    let n = (first.len() + todos.len()) as int;
    if what is Todos {
        assert(all[first.len() + i] == f);
    } else if what is AgentTools {
        assert(all[n] == f);
    } else if what is Processes {
        assert(all[n + 1] == f);
    } else if what is Agents {
        assert(all[n + 3] == f);
    } else if what is Locks {
        assert(all[n + 4] == f);
    } else {
        assert(all[n + 5] == f);
    }
}

/// A file is stale where its name is a number that none of those that are there
/// has; files by other names are left alone. They are named in their order.
pub proof fn law_files_of_what_is_gone_are_stale(names: Seq<Seq<char>>, live: Seq<u64>) -> (at: Seq<
    int,
>)
    ensures
        picking::picks(names, at, projected::stale(names, live)),
        forall|i: int| #[trigger]
            at.contains(i) <==> 0 <= i < names.len() && text::ends(names[i], ".md"@) && ({
                let number = text::u64_of(names[i].take(names[i].len() - 3));
                number is Some && !live.contains(number->0)
            }),
{
    reveal_strlit(".md");
    picking::lemma_filter_places(names, |n: Seq<char>| projected::is_stale(n, live))
}

// ---------------------------------------------------------------------------
// Views
// ---------------------------------------------------------------------------

/// What a view does not say, or says out of range, is what a new sidebar shows:
/// the first place, the active todos, by priority and then by when they were made, and no
/// help.
pub proof fn law_views_fall_back(body: Seq<char>, v: ViewState)
    requires
        wire::view_in(body, v),
    ensures
        wire::field_value(body, "cursor"@) is None ==> v.cursor == 0,
        wire::field_value(body, "scroll"@) is None ==> v.scroll == 0,
        wire::field_value(body, "filter"@) is None ==> v.filter == TodoFilter::Active,
        wire::field_value(body, "filter"@) is Some && wire::field_value(body, "filter"@)->0 >= 8
            ==> v.filter == TodoFilter::Active,
        wire::field_value(body, "sort1"@) is None ==> v.sort_1 == TodoSort::PriorityDesc,
        wire::field_value(body, "sort1"@) is Some && wire::field_value(body, "sort1"@)->0 >= 5
            ==> v.sort_1 == TodoSort::PriorityDesc,
        wire::field_value(body, "sort2"@) is None ==> v.sort_2 == TodoSort::CreatedAsc,
        wire::field_value(body, "sort2"@) is Some && wire::field_value(body, "sort2"@)->0 >= 5
            ==> v.sort_2 == TodoSort::CreatedAsc,
        wire::field_value(body, "help"@) is None ==> !v.show_help,
        wire::field_value(body, "help"@) is Some ==> (v.show_help <==> wire::field_value(
            body,
            "help"@,
        )->0 > 0),
        wire::field_value(body, "cursor"@) is Some && wire::field_value(body, "cursor"@)->0
            <= usize::MAX ==> v.cursor == wire::field_value(body, "cursor"@)->0,
        wire::field_value(body, "scroll"@) is Some && wire::field_value(body, "scroll"@)->0
            <= usize::MAX ==> v.scroll == wire::field_value(body, "scroll"@)->0,
{
    if let Some(c) = wire::field_value(body, "cursor"@) {
        if c <= usize::MAX {
            vstd::arithmetic::div_mod::lemma_small_mod(c as nat, (usize::MAX + 1) as nat);
        }
    }
    if let Some(c) = wire::field_value(body, "scroll"@) {
        if c <= usize::MAX {
            vstd::arithmetic::div_mod::lemma_small_mod(c as nat, (usize::MAX + 1) as nat);
        }
    }
}

} // verus!
