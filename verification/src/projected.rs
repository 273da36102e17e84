//! Which files show the shared state, and which are left over.

use vstd::prelude::*;
use vstd::string::*;

use crate::model;
use crate::model::{Note, Todo, TodoView};
use crate::projection;
use crate::text;

verus! {

/// A file that shows a part of the state: where it stands in the workspace,
/// and what it holds.
#[derive(Debug)]
pub struct ProjectedFile {
    pub path: String,
    pub contents: String,
}

impl View for ProjectedFile {
    type V = (Seq<char>, Seq<char>);

    open spec fn view(&self) -> (Seq<char>, Seq<char>) {
        (self.path@, self.contents@)
    }
}

/// The contents of files.
pub open spec fn file_views(v: Seq<ProjectedFile>) -> Seq<(Seq<char>, Seq<char>)> {
    v.map_values(|f: ProjectedFile| f@)
}

/// The file of an item in a directory.
pub open spec fn item_path(dir: Seq<char>, id: u64) -> Seq<char> {
    dir + text::decimal(id as nat) + ".md"@
}

/// The file of an item in a directory.
fn path_of_item(dir: &str, id: u64) -> (r: String)
    ensures
        r@ == item_path(dir@, id),
{
    let mut out = dir.to_owned();
    out.append(text::number(id).as_str());
    out.append(".md");
    out
}

/// The files of todos: one of each.
pub open spec fn todo_files(todos: Seq<TodoView>) -> Seq<(Seq<char>, Seq<char>)> {
    todos.map_values(
        |t: TodoView| (item_path(".panopt/todos/"@, t.id), projection::todo_file(t)),
    )
}

/// The files that show the todos: the index, and one of each.
pub fn project_todos(todos: &Vec<Todo>) -> (out: Vec<ProjectedFile>)
    ensures
        file_views(out@) == seq![
            (".panopt/todos.md"@, projection::todos_index(model::todo_views(todos@))),
        ] + todo_files(model::todo_views(todos@)),
{
    let ghost all = model::todo_views(todos@);
    let ghost head = (".panopt/todos.md"@, projection::todos_index(all));
    let mut out: Vec<ProjectedFile> = Vec::new();
    out.push(
        ProjectedFile {
            path: ".panopt/todos.md".to_owned(),
            contents: projection::render_todos_index_md(todos),
        },
    );
    let ghost goal = todo_files(all);
    let mut i: usize = 0;
    assert(file_views(out@) =~= seq![head] + goal.take(0));
    while i < todos.len()
        invariant
            i <= todos.len(),
            all == model::todo_views(todos@),
            goal == todo_files(all),
            file_views(out@) == seq![head] + goal.take(i as int),
        decreases todos.len() - i,
    {
        let ghost was = out@;
        let f = ProjectedFile {
            path: path_of_item(".panopt/todos/", todos[i].id),
            contents: projection::render_todo_md(&todos[i]),
        };
        out.push(f);
        proof {
            assert(goal[i as int] == f@);
            assert(file_views(out@) =~= file_views(was).push(f@));
            assert(seq![head] + goal.take(i + 1) =~= (seq![head] + goal.take(i as int)).push(f@));
        }
        i += 1;
    }
    assert(goal.take(i as int) =~= goal);
    out
}

/// The file that shows a note.
pub fn project_note(note: &Note) -> (f: ProjectedFile)
    ensures
        f@ == (item_path(".panopt/note/"@, note.id), projection::note_file(note@)),
{
    ProjectedFile {
        path: path_of_item(".panopt/note/", note.id),
        contents: projection::render_note_md(note),
    }
}

/// The id that the name of a file stands for: `<id>.md`.
pub open spec fn file_id(name: Seq<char>) -> Option<u64> {
    match text::before_suffix(name, ".md"@) {
        Some(stem) => text::u64_of(stem),
        None => None,
    }
}

/// Whether a file is left over from an item that is gone.
pub open spec fn is_stale(name: Seq<char>, live: Seq<u64>) -> bool {
    file_id(name) is Some && !live.contains(file_id(name)->0)
}

/// The files that are left over.
pub open spec fn stale(names: Seq<Seq<char>>, live: Seq<u64>) -> Seq<Seq<char>> {
    names.filter(|n: Seq<char>| is_stale(n, live))
}

/// Whether an id is among some.
fn holds_id(ids: &Vec<u64>, id: u64) -> (r: bool)
    ensures
        r == ids@.contains(id),
{
    let mut i: usize = 0;
    while i < ids.len()
        invariant
            i <= ids.len(),
            forall|j: int| 0 <= j < i ==> (#[trigger] ids@[j]) != id,
        decreases ids.len() - i,
    {
        if ids[i] == id {
            assert(ids@[i as int] == id);
            return true;
        }
        i += 1;
    }
    false
}

/// The names of the files that are left over from items that are gone. Only
/// `<id>.md` is ever left over; other files are not touched.
pub fn stale_files(names: &Vec<String>, live: &Vec<u64>) -> (out: Vec<String>)
    ensures
        text::texts(out@) == stale(text::texts(names@), live@),
{
    let ghost all = text::texts(names@);
    let mut out: Vec<String> = Vec::new();
    let mut i: usize = 0;
    assert(all.take(0) =~= seq![]);
    assert(text::texts(out@) =~= stale(all.take(0), live@)) by {
        reveal(Seq::filter);
    }
    while i < names.len()
        invariant
            i <= names.len(),
            all == text::texts(names@),
            text::texts(out@) == stale(all.take(i as int), live@),
        decreases names.len() - i,
    {
        let ghost was = out@;
        let name = names[i].as_str();
        proof {
            let part = all.take(i + 1);
            assert(part.drop_last() =~= all.take(i as int));
            assert(part.last() == name@);
            reveal(Seq::filter);
        }
        if let Some(stem) = text::strip_suffix(name, ".md") {
            if let Some(id) = text::parse_u64(stem) {
                if !holds_id(live, id) {
                    let n = name.to_owned();
                    out.push(n);
                    assert(text::texts(out@) =~= text::texts(was).push(n@));
                }
            }
        }
        i += 1;
    }
    assert(all.take(i as int) =~= all);
    out
}

/// The file of a live item is never left over, and that of one that is gone
/// always is.
pub proof fn law_only_gone_items_are_stale(id: u64, live: Seq<u64>)
    ensures
        is_stale(text::decimal(id as nat) + ".md"@, live) == !live.contains(id),
{
    let name = text::decimal(id as nat) + ".md"@;
    text::lemma_u64_of_decimal(id);
    assert(text::ends(name, ".md"@)) by {
        assert(name.subrange(name.len() - ".md"@.len(), name.len() as int) =~= ".md"@);
    }
    assert(text::before_suffix(name, ".md"@) == Some(text::decimal(id as nat))) by {
        assert(name.take(name.len() - ".md"@.len()) =~= text::decimal(id as nat));
        assert(name.subrange(0, name.len() - ".md"@.len()) =~= text::decimal(id as nat));
    }
}

/// The directories of the tree, outermost first.
pub fn bootstrap_dirs() -> (out: Vec<&'static str>)
    ensures
        text::views(out@) == seq![
            ".panopt"@,
            ".panopt/scratchpad"@,
            ".panopt/todos"@,
            ".panopt/note"@,
        ],
{
    let mut out: Vec<&'static str> = Vec::new();
    out.push(".panopt");
    out.push(".panopt/scratchpad");
    out.push(".panopt/todos");
    out.push(".panopt/note");
    assert(text::views(out@) =~= seq![
        ".panopt"@,
        ".panopt/scratchpad"@,
        ".panopt/todos"@,
        ".panopt/note"@,
    ]);
    out
}

/// The files of older versions, which a new tree does not keep.
pub fn bootstrap_removed() -> (out: Vec<&'static str>)
    ensures
        text::views(out@) == seq![".panopt/roster.md"@],
{
    let mut out: Vec<&'static str> = Vec::new();
    out.push(".panopt/roster.md");
    assert(text::views(out@) =~= seq![".panopt/roster.md"@]);
    out
}

/// The files of a new tree: empty lists, and a rule that keeps the whole tree
/// out of version control.
pub open spec fn first_files() -> Seq<(Seq<char>, Seq<char>)> {
    seq![
        (".panopt/.gitignore"@, "*\n"@),
        (".panopt/todos.md"@, projection::todos_index(seq![])),
        (".panopt/scratchpads.md"@, projection::scratchpads_index(seq![])),
        (".panopt/notes.md"@, projection::notes_index(seq![])),
        (".panopt/agent_tools.md"@, projection::tools_list(seq![])),
        (".panopt/processes.md"@, projection::processes_list(seq![])),
        (".panopt/agents.md"@, projection::agents_list(seq![])),
        (".panopt/locks.md"@, projection::locks_list(seq![])),
    ]
}

/// A file.
fn file(path: &str, contents: String) -> (f: ProjectedFile)
    ensures
        f@ == (path@, contents@),
{
    ProjectedFile { path: path.to_owned(), contents }
}

/// The files of a new tree.
pub fn bootstrap_files() -> (out: Vec<ProjectedFile>)
    ensures
        file_views(out@) == first_files(),
{
    let no_todos: Vec<Todo> = Vec::new();
    let no_notes: Vec<(u64, String, String)> = Vec::new();
    let no_tools: Vec<model::AgentTool> = Vec::new();
    let no_processes: Vec<model::Process> = Vec::new();
    let no_agents: Vec<model::Agent> = Vec::new();
    let no_locks: Vec<model::Lock> = Vec::new();
    proof {
        assert(model::todo_views(no_todos@) =~= seq![]);
        assert(projection::row_views(no_notes@) =~= seq![]);
        assert(model::tool_views(no_tools@) =~= seq![]);
        assert(model::instance_views(no_processes@) =~= seq![]);
        assert(model::agent_views(no_agents@) =~= seq![]);
        assert(model::lock_views(no_locks@) =~= seq![]);
    }
    let mut out: Vec<ProjectedFile> = Vec::new();
    out.push(file(".panopt/.gitignore", "*\n".to_owned()));
    out.push(file(".panopt/todos.md", projection::render_todos_index_md(&no_todos)));
    out.push(file(".panopt/scratchpads.md", projection::render_scratchpads_index_md(&no_notes)));
    out.push(file(".panopt/notes.md", projection::render_notes_index_md(&no_notes)));
    out.push(file(".panopt/agent_tools.md", projection::render_agent_tools_md(&no_tools)));
    out.push(file(".panopt/processes.md", projection::render_processes_md(&no_processes)));
    out.push(file(".panopt/agents.md", projection::render_agents_md(&no_agents)));
    out.push(file(".panopt/locks.md", projection::render_locks_md(&no_locks)));
    assert(file_views(out@) =~= first_files());
    out
}

} // verus!
