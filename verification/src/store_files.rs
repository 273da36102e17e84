//! The files that show what is left to be shown.

use vstd::prelude::*;
use vstd::string::*;

use crate::inputs;
use crate::model;
use crate::model::{NoteView, ProjectId, TodoView};
use crate::notes;
use crate::processes;
use crate::profile_set::ProfileSet;
use crate::profiles::AgentProfile;
use crate::projected;
use crate::projected::ProjectedFile;
use crate::projection;
use crate::registry;
use crate::status::{AgentState, StatusRules};
use crate::store::{Moment, Store, StoreView, Surface};
use crate::store_agents;
use crate::store_inputs;
use crate::table;
use crate::text;
use crate::todos;
use crate::tools;

verus! {

// ---------------------------------------------------------------------------
// The patterns of the agent types
// ---------------------------------------------------------------------------

/// The lines of the patterns that tell a state.
pub open spec fn pattern_lines(state: AgentState, patterns: Seq<Seq<char>>) -> Seq<Seq<char>> {
    patterns.map_values(|p: Seq<char>| state.name() + " = "@ + p + "\n"@)
}

/// The patterns of a state, one line each.
pub open spec fn state_text(r: StatusRules, state: AgentState) -> Seq<char> {
    projection::run_on(pattern_lines(state, r.pattern_list(state)))
}

/// A type of agent with its patterns.
pub open spec fn type_text(key: Seq<char>, r: StatusRules) -> Seq<char> {
    "## "@ + key + "\n"@ + state_text(r, AgentState::Thinking) + state_text(r, AgentState::Idle)
        + state_text(r, AgentState::Waiting) + state_text(r, AgentState::Done)
}

/// The types of agents with their patterns, in the order of their keys.
pub open spec fn types_text(list: Seq<(String, AgentProfile)>) -> Seq<char>
    decreases list.len(),
{
    if list.len() == 0 {
        "# Agent types\n\n"@
    } else {
        types_text(list.drop_last()) + type_text(list.last().0@, list.last().1.status)
    }
}

/// Adds the patterns of a state.
fn add_patterns(out: &mut String, r: &StatusRules, state: AgentState)
    ensures
        final(out)@ == old(out)@ + state_text(*r, state),
{
    let ghost all = r.pattern_list(state);
    let ghost lines = pattern_lines(state, all);
    let ghost head = out@;
    match r.get(state) {
        Some(patterns) => {
            let mut i: usize = 0;
            assert(lines.take(0) =~= seq![]);
            assert(head + seq![] =~= head);
            while i < patterns.len()
                invariant
                    i <= patterns.len(),
                    all == text::texts(patterns@),
                    lines == pattern_lines(state, all),
                    out@ == head + projection::run_on(lines.take(i as int)),
                decreases patterns.len() - i,
            {
                let ghost was = out@;
                out.append(state.as_str());
                out.append(" = ");
                out.append(patterns[i].as_str());
                out.append("\n");
                proof {
                    let part = lines.take(i + 1);
                    assert(part.drop_last() =~= lines.take(i as int));
                    assert(part.last() == lines[i as int]);
                    assert(lines[i as int] == state.name() + " = "@ + patterns@[i as int]@
                        + "\n"@);
                    assert(out@ =~= was + lines[i as int]);
                    assert(out@ =~= head + projection::run_on(part));
                }
                i += 1;
            }
            assert(lines.take(i as int) =~= lines);
        },
        None => {
            assert(lines =~= seq![]);
            assert(out@ =~= head + seq![]);
        },
    }
}

/// The types of agents with their patterns.
pub fn render_agent_types_md(set: &ProfileSet) -> (out: String)
    ensures
        out@ == types_text(set.map().list()),
{
    let list = set.iter();
    let ghost all = set.map().list();
    let mut out = "# Agent types\n\n".to_owned();
    let mut i: usize = 0;
    assert(all.take(0) =~= seq![]);
    while i < list.len()
        invariant
            i <= list.len(),
            list@.len() == all.len(),
            forall|k: int|
                0 <= k < all.len() ==> (#[trigger] list@[k]).0@ == all[k].0@ && *list@[k].1
                    == all[k].1,
            out@ == types_text(all.take(i as int)),
        decreases list.len() - i,
    {
        let ghost was = out@;
        let (key, p) = list[i];
        proof {
            assert(all.take(i + 1).drop_last() =~= all.take(i as int));
            assert(all.take(i + 1).last() == all[i as int]);
            assert(list@[i as int].0@ == all[i as int].0@);
        }
        out.append("## ");
        out.append(key);
        out.append("\n");
        add_patterns(&mut out, &p.status, AgentState::Thinking);
        add_patterns(&mut out, &p.status, AgentState::Idle);
        add_patterns(&mut out, &p.status, AgentState::Waiting);
        add_patterns(&mut out, &p.status, AgentState::Done);
        assert(out@ =~= was + type_text(key@, p.status));
        i += 1;
    }
    assert(all.take(i as int) =~= all);
    out
}

// ---------------------------------------------------------------------------
// The files of a surface
// ---------------------------------------------------------------------------

/// The file of a note, if it is there.
pub open spec fn note_files(s: StoreView, project: i64, id: u64) -> Seq<(Seq<char>, Seq<char>)> {
    match notes::note_at(s.project(project), id) {
        Ok(n) => seq![
            (projected::item_path(".panopt/note/"@, n.id), projection::note_file(n)),
        ],
        Err(_) => seq![],
    }
}

/// The files of all notes.
pub open spec fn all_note_files(list: Seq<NoteView>) -> Seq<(Seq<char>, Seq<char>)> {
    list.map_values(
        |n: NoteView| (projected::item_path(".panopt/note/"@, n.id), projection::note_file(n)),
    )
}

/// The files of the todos.
pub open spec fn files_of_todos(s: StoreView, project: i64) -> Seq<(Seq<char>, Seq<char>)> {
    let list = todos::todos_of(s.project(project));
    seq![(".panopt/todos.md"@, projection::todos_index(list))] + projected::todo_files(list)
}

/// The index of the notes.
pub open spec fn notes_index_file(s: StoreView, project: i64) -> (Seq<char>, Seq<char>) {
    (
        ".panopt/notes.md"@,
        projection::notes_index(
            notes::index_rows(table::live_values(s.project(project).notes)),
        ),
    )
}

/// The list of the agent tools.
pub open spec fn tools_file(s: StoreView, project: i64) -> (Seq<char>, Seq<char>) {
    (
        ".panopt/agent_tools.md"@,
        projection::tools_list(tools::tools_of(s.project(project), s.default_type)),
    )
}

/// The list of the processes.
pub open spec fn processes_file(s: StoreView, project: i64, secs: i64) -> (Seq<char>, Seq<char>) {
    (
        ".panopt/processes.md"@,
        projection::process_board(
            projection::shown_processes(
                processes::processes_of(s.project(project)),
                tools::tools_of(s.project(project), s.default_type),
            ),
            tools::types_of(tools::tools_of(s.project(project), s.default_type)),
            secs,
        ),
    )
}

/// The list of the agents.
pub open spec fn agents_file(s: StoreView, project: i64, nanos: u64) -> (Seq<char>, Seq<char>) {
    (".panopt/agents.md"@, projection::roster(registry::listed(s.agents, project), nanos))
}

/// The list of the locks.
pub open spec fn locks_file(s: StoreView, project: i64) -> (Seq<char>, Seq<char>) {
    (".panopt/locks.md"@, projection::locks_list(store_agents::locks_shown(s, project)))
}

/// The types of agents.
pub open spec fn types_file(s: StoreView) -> (Seq<char>, Seq<char>) {
    (".panopt/agent-types.md"@, types_text(s.profiles.map().list()))
}

/// The whole tree: the files of a new one, and then all that there is.
pub open spec fn whole_tree(s: StoreView, project: i64, secs: i64, nanos: u64) -> Seq<
    (Seq<char>, Seq<char>),
> {
    projected::first_files() + files_of_todos(s, project) + seq![
        tools_file(s, project),
        processes_file(s, project, secs),
        types_file(s),
        agents_file(s, project, nanos),
        locks_file(s, project),
        notes_index_file(s, project),
    ] + all_note_files(table::live_values(s.project(project).notes))
}

/// The files of a surface.
pub open spec fn files_of(s: StoreView, project: i64, what: Surface, secs: i64, nanos: u64) -> Seq<
    (Seq<char>, Seq<char>),
> {
    match what {
        Surface::Todos => files_of_todos(s, project),
        Surface::Note(id) => note_files(s, project, id),
        Surface::NotesIndex => seq![notes_index_file(s, project)],
        Surface::AgentTools => seq![tools_file(s, project)],
        Surface::Processes => seq![processes_file(s, project, secs)],
        Surface::Agents => seq![agents_file(s, project, nanos)],
        Surface::Locks => seq![locks_file(s, project)],
        Surface::Inputs => seq![
            (
                ".panopt/.cockpit/inputs.jsonl"@,
                inputs::inputs_text(store_inputs::waiting(s.inputs, project)),
            ),
        ],
        Surface::Everything => whole_tree(s, project, secs, nanos),
    }
}

/// A file.
fn file(path: &str, contents: String) -> (f: ProjectedFile)
    ensures
        f@ == (path@, contents@),
{
    ProjectedFile { path: path.to_owned(), contents }
}

/// The files after one more.
fn push_file(out: &mut Vec<ProjectedFile>, f: ProjectedFile)
    ensures
        projected::file_views(final(out)@) == projected::file_views(old(out)@).push(f@),
{
    out.push(f);
    assert(projected::file_views(out@) =~= projected::file_views(old(out)@).push(f@));
}

/// The files after some more.
fn push_all(out: &mut Vec<ProjectedFile>, mut more: Vec<ProjectedFile>)
    ensures
        projected::file_views(final(out)@) == projected::file_views(old(out)@)
            + projected::file_views(more@),
{
    let ghost was = out@;
    let ghost extra = more@;
    out.append(&mut more);
    assert(projected::file_views(out@) =~= projected::file_views(was) + projected::file_views(
        extra,
    ));
}

impl Store {
    /// The files of the todos.
    fn todo_files(&self, project: ProjectId) -> (out: Vec<ProjectedFile>)
        ensures
            projected::file_views(out@) == files_of_todos(self@, project.0),
    {
        match self.todo_list(project) {
            Ok(list) => projected::project_todos(&list),
            Err(_) => Vec::new(),
        }
    }

    /// The index of the notes.
    fn notes_index(&self, project: ProjectId) -> (f: ProjectedFile)
        ensures
            f@ == notes_index_file(self@, project.0),
    {
        let rows = self.note_index_rows(project);
        file(".panopt/notes.md", projection::render_notes_index_md(&rows))
    }

    /// The list of the agent tools.
    fn tools_md(&self, project: ProjectId) -> (f: ProjectedFile)
        ensures
            f@ == tools_file(self@, project.0),
    {
        let list = match self.agent_tool_list(project) {
            Ok(l) => l,
            Err(_) => Vec::new(),
        };
        file(".panopt/agent_tools.md", projection::render_agent_tools_md(&list))
    }

    /// The list of the processes.
    fn processes_md(&self, project: ProjectId, now: &Moment) -> (f: ProjectedFile)
        ensures
            f@ == processes_file(self@, project.0, now.secs),
    {
        let list = match self.process_list(project) {
            Ok(l) => l,
            Err(_) => Vec::new(),
        };
        let tools = match self.agent_tool_list(project) {
            Ok(l) => l,
            Err(_) => Vec::new(),
        };
        let types = self.tool_type_map(project);
        file(
            ".panopt/processes.md",
            projection::render_process_board_md(
                &projection::show_processes(&list, &tools),
                &types,
                now.secs,
            ),
        )
    }

    /// The list of the agents.
    fn agents_md(&self, project: ProjectId, now: &Moment) -> (f: ProjectedFile)
        ensures
            f@ == agents_file(self@, project.0, now.nanos),
    {
        let list = self.registry.list(project.0);
        file(".panopt/agents.md", projection::render_roster_md(&list, now.nanos))
    }

    /// The list of the locks.
    fn locks_md(&self, project: ProjectId) -> (f: ProjectedFile)
        ensures
            f@ == locks_file(self@, project.0),
    {
        let list = self.lock_list(project);
        file(".panopt/locks.md", projection::render_locks_md(&list))
    }

    /// The input that waits.
    fn inputs_file(&self, project: ProjectId) -> (f: ProjectedFile)
        ensures
            f@ == (
                ".panopt/.cockpit/inputs.jsonl"@,
                inputs::inputs_text(store_inputs::waiting(self@.inputs, project.0)),
            ),
    {
        let list = match self.pending_inputs(project) {
            Ok(l) => l,
            Err(_) => Vec::new(),
        };
        file(".panopt/.cockpit/inputs.jsonl", inputs::render_inputs(&list))
    }

    /// The files of all notes.
    fn note_file_list(&self, project: ProjectId) -> (out: Vec<ProjectedFile>)
        ensures
            projected::file_views(out@) == all_note_files(
                table::live_values(self@.project(project.0).notes),
            ),
    {
        let mut out: Vec<ProjectedFile> = Vec::new();
        match self.find_project(project.0) {
            None => {
                assert(projected::file_views(out@) =~= all_note_files(
                    table::live_values(self@.project(project.0).notes),
                ));
                out
            },
            Some(p) => {
                let rows = &self.projects[p].notes.rows;
                let ghost all = self@.project(project.0).notes;
                let mut i: usize = 0;
                assert(all == self.projects@[p as int].notes@);
                assert(all.take(0) =~= seq![]);
                assert(projected::file_views(out@) =~= all_note_files(
                    table::live_values(all.take(0)),
                ));
                while i < rows.len()
                    invariant
                        i <= rows.len(),
                        p < self.projects.len(),
                        *rows == self.projects@[p as int].notes.rows,
                        all == self.projects@[p as int].notes@,
                        projected::file_views(out@) == all_note_files(
                            table::live_values(all.take(i as int)),
                        ),
                    decreases rows.len() - i,
                {
                    let ghost live = table::live_values(all.take(i as int));
                    proof {
                        assert(all.take(i + 1).drop_last() =~= all.take(i as int));
                        assert(all.take(i + 1).last() == rows@[i as int]@);
                    }
                    if rows[i].deleted_at.is_none() {
                        push_file(&mut out, projected::project_note(&rows[i].value));
                        proof {
                            let n = rows@[i as int].value@;
                            assert(all_note_files(live.push(n)) =~= all_note_files(live).push(
                                (
                                    projected::item_path(".panopt/note/"@, n.id),
                                    projection::note_file(n),
                                ),
                            ));
                        }
                    }
                    i += 1;
                }
                assert(all.take(i as int) =~= all);
                out
            },
        }
    }

    /// The whole tree.
    fn tree_files(&self, project: ProjectId, now: &Moment) -> (out: Vec<ProjectedFile>)
        ensures
            projected::file_views(out@) == whole_tree(self@, project.0, now.secs, now.nanos),
    {
        let mut out = projected::bootstrap_files();
        push_all(&mut out, self.todo_files(project));
        push_file(&mut out, self.tools_md(project));
        push_file(&mut out, self.processes_md(project, now));
        push_file(
            &mut out,
            file(".panopt/agent-types.md", render_agent_types_md(&self.profiles)),
        );
        push_file(&mut out, self.agents_md(project, now));
        push_file(&mut out, self.locks_md(project));
        push_file(&mut out, self.notes_index(project));
        push_all(&mut out, self.note_file_list(project));
        assert(projected::file_views(out@) =~= whole_tree(
            self@,
            project.0,
            now.secs,
            now.nanos,
        ));
        out
    }

    /// The files of a surface.
    pub fn surface_files(&self, project: ProjectId, what: Surface, now: &Moment) -> (out: Vec<
        ProjectedFile,
    >)
        ensures
            projected::file_views(out@) == files_of(
                self@,
                project.0,
                what,
                now.secs,
                now.nanos,
            ),
    {
        let mut out: Vec<ProjectedFile> = Vec::new();
        assert(projected::file_views(out@) =~= seq![]);
        match what {
            Surface::Todos => {
                return self.todo_files(project);
            },
            Surface::Everything => {
                return self.tree_files(project, now);
            },
            Surface::Note(id) => {
                if let Ok(n) = self.note_get(project, id) {
                    push_file(&mut out, projected::project_note(&n));
                }
            },
            Surface::NotesIndex => {
                push_file(&mut out, self.notes_index(project));
            },
            Surface::AgentTools => {
                push_file(&mut out, self.tools_md(project));
            },
            Surface::Processes => {
                push_file(&mut out, self.processes_md(project, now));
            },
            Surface::Agents => {
                push_file(&mut out, self.agents_md(project, now));
            },
            Surface::Locks => {
                push_file(&mut out, self.locks_md(project));
            },
            Surface::Inputs => {
                push_file(&mut out, self.inputs_file(project));
            },
        }
        assert(projected::file_views(out@) =~= files_of(
            self@,
            project.0,
            what,
            now.secs,
            now.nanos,
        ));
        out
    }

    /// The ids of the todos that are there. A file of another is left over.
    pub fn live_todo_ids(&self, project: ProjectId) -> (out: Vec<u64>)
        ensures
            out@ == todos::todos_of(self@.project(project.0)).map_values(|t: TodoView| t.id),
    {
        let list = match self.todo_list(project) {
            Ok(l) => l,
            Err(_) => Vec::new(),
        };
        let ghost goal = model::todo_views(list@).map_values(|t: TodoView| t.id);
        let mut out: Vec<u64> = Vec::new();
        let mut i: usize = 0;
        assert(out@ =~= goal.take(0));
        while i < list.len()
            invariant
                i <= list.len(),
                goal == model::todo_views(list@).map_values(|t: TodoView| t.id),
                out@ == goal.take(i as int),
            decreases list.len() - i,
        {
            out.push(list[i].id);
            assert(goal.take(i + 1) =~= goal.take(i as int).push(goal[i as int]));
            i += 1;
        }
        assert(goal.take(i as int) =~= goal);
        out
    }

    /// The ids of the notes that are there. A file of another is left over.
    pub fn live_note_ids(&self, project: ProjectId) -> (out: Vec<u64>)
        ensures
            out@ == notes::titles_of(
                table::live_values(self@.project(project.0).notes),
            ).map_values(|t: (u64, Seq<char>)| t.0),
    {
        let list = match self.note_list(project) {
            Ok(l) => l,
            Err(_) => Vec::new(),
        };
        let ghost goal = notes::title_views(list@).map_values(|t: (u64, Seq<char>)| t.0);
        let mut out: Vec<u64> = Vec::new();
        let mut i: usize = 0;
        assert(out@ =~= goal.take(0));
        while i < list.len()
            invariant
                i <= list.len(),
                goal == notes::title_views(list@).map_values(|t: (u64, Seq<char>)| t.0),
                out@ == goal.take(i as int),
            decreases list.len() - i,
        {
            out.push(list[i].0);
            assert(goal.take(i + 1) =~= goal.take(i as int).push(goal[i as int]));
            i += 1;
        }
        assert(goal.take(i as int) =~= goal);
        out
    }
}

} // verus!
