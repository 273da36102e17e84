//! One project: its todos, notes, agent tools and processes. They share one
//! counter, so that a `#N` names one thing only.

use vstd::prelude::*;
use vstd::string::*;

use crate::error::{CoreError, ErrorView};
use crate::model::{
    AgentTool, AgentToolView, Note, NoteView, Process, ProcessView, Todo, TodoView,
};
use crate::table;
use crate::table::{Entry, Table};
use crate::text;

verus! {

/// A todo as it is stored: with every blocker that was recorded, and the
/// number of its next comment.
#[derive(Debug)]
pub struct TodoRow {
    pub todo: Todo,
    pub next_comment_id: u64,
}

/// The contents of a [`TodoRow`].
pub struct TodoRowView {
    pub todo: TodoView,
    pub next_comment_id: u64,
}

impl View for TodoRow {
    type V = TodoRowView;

    open spec fn view(&self) -> TodoRowView {
        TodoRowView { todo: self.todo@, next_comment_id: self.next_comment_id }
    }
}

/// A project.
#[derive(Debug)]
pub struct Project {
    pub id: i64,
    pub root: String,
    /// What the project is known by, apart from where it stands.
    pub identity: Option<String>,
    pub next_id: u64,
    pub todos: Table<TodoRow>,
    pub notes: Table<Note>,
    pub tools: Table<AgentTool>,
    pub processes: Table<Process>,
}

/// The contents of a [`Project`].
pub struct ProjectView {
    pub id: i64,
    pub root: Seq<char>,
    pub identity: Option<Seq<char>>,
    pub next_id: u64,
    pub todos: Seq<Entry<TodoRowView>>,
    pub notes: Seq<Entry<NoteView>>,
    pub tools: Seq<Entry<AgentToolView>>,
    pub processes: Seq<Entry<ProcessView>>,
}

impl View for Project {
    type V = ProjectView;

    open spec fn view(&self) -> ProjectView {
        ProjectView {
            id: self.id,
            root: self.root@,
            identity: text::opt_text(self.identity),
            next_id: self.next_id,
            todos: self.todos@,
            notes: self.notes@,
            tools: self.tools@,
            processes: self.processes@,
        }
    }
}

/// The rows stand in the order of their ids, all below `next`.
pub open spec fn in_order<V>(rows: Seq<Entry<V>>, next: u64) -> bool {
    &&& forall|i: int, j: int|
        0 <= i < j < rows.len() ==> (#[trigger] rows[i]).id < (#[trigger] rows[j]).id
    &&& forall|i: int| 0 <= i < rows.len() ==> (#[trigger] rows[i]).id < next
}

/// No id stands in both.
pub open spec fn apart<V, W>(a: Seq<Entry<V>>, b: Seq<Entry<W>>) -> bool {
    forall|i: int, j: int|
        0 <= i < a.len() && 0 <= j < b.len() ==> (#[trigger] a[i]).id != (#[trigger] b[j]).id
}

/// Two tables have the same ids.
pub open spec fn same_ids<V>(a: Seq<Entry<V>>, b: Seq<Entry<V>>) -> bool {
    &&& a.len() == b.len()
    &&& forall|i: int| 0 <= i < a.len() ==> (#[trigger] a[i]).id == b[i].id
}

/// Every number is below the next.
pub open spec fn ascending(ids: Seq<u64>) -> bool {
    forall|i: int, j: int| 0 <= i < j < ids.len() ==> (#[trigger] ids[i]) < (#[trigger] ids[j])
}

/// A row of a todo is sound: its comments stand in the order of their numbers,
/// below the next one, its blockers stand in order, and it does not block
/// itself.
pub open spec fn sound_todo(e: Entry<TodoRowView>) -> bool {
    let t = e.value.todo;
    &&& t.id == e.id
    &&& forall|i: int, j: int|
        0 <= i < j < t.comments.len() ==> (#[trigger] t.comments[i]).id < (#[trigger] t.comments[j]).id
    &&& forall|i: int|
        0 <= i < t.comments.len() ==> (#[trigger] t.comments[i]).id < e.value.next_comment_id
    &&& ascending(t.blockers)
    &&& !t.blockers.contains(e.id)
}

impl ProjectView {
    /// Ids stand in order.
    pub open spec fn ordered(self) -> bool {
        &&& in_order(self.todos, self.next_id)
        &&& in_order(self.notes, self.next_id)
        &&& in_order(self.tools, self.next_id)
        &&& in_order(self.processes, self.next_id)
    }

    /// No two rows of any kind share an id. Rows that are older than the
    /// shared counter may.
    pub open spec fn told_apart(self) -> bool {
        &&& apart(self.todos, self.notes)
        &&& apart(self.todos, self.tools)
        &&& apart(self.todos, self.processes)
        &&& apart(self.notes, self.tools)
        &&& apart(self.notes, self.processes)
        &&& apart(self.tools, self.processes)
    }

    /// The project is sound.
    pub open spec fn wf(self) -> bool {
        &&& self.ordered()
        &&& forall|i: int| 0 <= i < self.todos.len() ==> sound_todo(#[trigger] self.todos[i])
        &&& forall|i: int|
            0 <= i < self.notes.len() ==> (#[trigger] self.notes[i]).value.id == self.notes[i].id
        &&& forall|i: int|
            0 <= i < self.tools.len() ==> (#[trigger] self.tools[i]).value.id == self.tools[i].id
        &&& forall|i: int|
            0 <= i < self.processes.len() ==> (#[trigger] self.processes[i]).value.id
                == self.processes[i].id
    }

    /// There is a number for one more row.
    pub open spec fn has_room(self) -> bool {
        self.next_id < 0x7fff_ffff_ffff_ffff
    }
}

/// Whether an operation did what was asked: it changed the project, or it was
/// refused with an error and changed nothing.
pub open spec fn settles<T>(
    r: Result<T, CoreError>,
    want: Result<ProjectView, ErrorView>,
    before: ProjectView,
    after: ProjectView,
) -> bool {
    match want {
        Ok(p) => r is Ok && after == p,
        Err(e) => r is Err && r->Err_0@ == e && after == before,
    }
}

/// A project without rows.
pub open spec fn blank(id: i64, root: Seq<char>, identity: Option<Seq<char>>) -> ProjectView {
    ProjectView {
        id,
        root,
        identity,
        next_id: 1,
        todos: seq![],
        notes: seq![],
        tools: seq![],
        processes: seq![],
    }
}

/// Rows in order have one id each.
pub proof fn lemma_in_order_unique<V>(rows: Seq<Entry<V>>, next: u64)
    requires
        in_order(rows, next),
    ensures
        table::unique_ids(rows),
{
    assert forall|i: int, j: int| 0 <= i < j < rows.len() implies (#[trigger] rows[i]).id != (
    #[trigger] rows[j]).id by {
        assert(rows[i].id < rows[j].id);
    }
}

/// Changing rows without their ids keeps the numbering.
pub proof fn lemma_same_ids_ordered(a: ProjectView, b: ProjectView)
    requires
        a.ordered(),
        b.next_id == a.next_id,
        same_ids(a.todos, b.todos),
        same_ids(a.notes, b.notes),
        same_ids(a.tools, b.tools),
        same_ids(a.processes, b.processes),
    ensures
        b.ordered(),
        a.told_apart() ==> b.told_apart(),
{
    lemma_same_order(a.todos, b.todos, a.next_id);
    lemma_same_order(a.notes, b.notes, a.next_id);
    lemma_same_order(a.tools, b.tools, a.next_id);
    lemma_same_order(a.processes, b.processes, a.next_id);
    if a.told_apart() {
        lemma_same_apart(a.todos, b.todos, a.notes, b.notes);
        lemma_same_apart(a.todos, b.todos, a.tools, b.tools);
        lemma_same_apart(a.todos, b.todos, a.processes, b.processes);
        lemma_same_apart(a.notes, b.notes, a.tools, b.tools);
        lemma_same_apart(a.notes, b.notes, a.processes, b.processes);
        lemma_same_apart(a.tools, b.tools, a.processes, b.processes);
    }
}

proof fn lemma_same_order<V>(a: Seq<Entry<V>>, b: Seq<Entry<V>>, next: u64)
    requires
        in_order(a, next),
        same_ids(a, b),
    ensures
        in_order(b, next),
{
    assert forall|i: int, j: int| 0 <= i < j < b.len() implies (#[trigger] b[i]).id < (
    #[trigger] b[j]).id by {
        assert(a[i].id < a[j].id);
    }
    assert forall|i: int| 0 <= i < b.len() implies (#[trigger] b[i]).id < next by {
        assert(a[i].id < next);
    }
}

proof fn lemma_same_apart<V, W>(
    a: Seq<Entry<V>>,
    b: Seq<Entry<V>>,
    c: Seq<Entry<W>>,
    d: Seq<Entry<W>>,
)
    requires
        apart(a, c),
        same_ids(a, b),
        same_ids(c, d),
    ensures
        apart(b, d),
{
    assert forall|i: int, j: int| 0 <= i < b.len() && 0 <= j < d.len() implies (#[trigger] b[i]).id
        != (#[trigger] d[j]).id by {
        assert(a[i].id != c[j].id);
    }
}

/// A row added with the next number keeps the order.
pub proof fn lemma_row_in_order<V>(rows: Seq<Entry<V>>, id: u64, value: V)
    requires
        in_order(rows, id),
        id < u64::MAX,
    ensures
        in_order(table::with_row(rows, id, value), (id + 1) as u64),
{
    let after = table::with_row(rows, id, value);
    assert forall|i: int, j: int| 0 <= i < j < after.len() implies (#[trigger] after[i]).id < (
    #[trigger] after[j]).id by {
        assert(after[i] == rows[i]);
        if j < rows.len() {
            assert(after[j] == rows[j]);
        }
    }
    assert forall|i: int| 0 <= i < after.len() implies (#[trigger] after[i]).id < id + 1 by {
        if i < rows.len() {
            assert(after[i] == rows[i]);
        }
    }
}

/// A higher counter keeps the order.
pub proof fn lemma_counter_grows<V>(rows: Seq<Entry<V>>, a: u64, b: u64)
    requires
        in_order(rows, a),
        a <= b,
    ensures
        in_order(rows, b),
{
    assert forall|i: int| 0 <= i < rows.len() implies (#[trigger] rows[i]).id < b by {
        assert(rows[i].id < a);
    }
}

/// A row added with the next number shares it with none of another kind.
pub proof fn lemma_row_apart<V, W>(rows: Seq<Entry<V>>, others: Seq<Entry<W>>, id: u64, value: V)
    requires
        apart(rows, others),
        in_order(others, id),
    ensures
        apart(table::with_row(rows, id, value), others),
        apart(others, table::with_row(rows, id, value)),
{
    let after = table::with_row(rows, id, value);
    assert forall|i: int, j: int| 0 <= i < after.len() && 0 <= j < others.len() implies (
    #[trigger] after[i]).id != (#[trigger] others[j]).id by {
        if i < rows.len() {
            assert(after[i] == rows[i]);
        }
    }
    assert forall|i: int, j: int| 0 <= i < others.len() && 0 <= j < after.len() implies (
    #[trigger] others[i]).id != (#[trigger] after[j]).id by {
        assert(after[j].id != others[i].id);
    }
}

/// No id stands in both, seen from the other side.
pub proof fn lemma_apart_turned<V, W>(a: Seq<Entry<V>>, b: Seq<Entry<W>>)
    requires
        apart(a, b),
    ensures
        apart(b, a),
{
    assert forall|i: int, j: int| 0 <= i < b.len() && 0 <= j < a.len() implies (#[trigger] b[i]).id
        != (#[trigger] a[j]).id by {
        assert(a[j].id != b[i].id);
    }
}

/// Another value in a row keeps the ids.
pub proof fn lemma_value_same_ids<V>(rows: Seq<Entry<V>>, i: int, value: V)
    requires
        0 <= i < rows.len(),
    ensures
        same_ids(rows, table::with_value(rows, i, value)),
{
}

/// A mark on a row keeps the ids.
pub proof fn lemma_deleted_same_ids<V>(rows: Seq<Entry<V>>, i: int, now: Seq<char>)
    requires
        0 <= i < rows.len(),
    ensures
        same_ids(rows, table::with_deleted(rows, i, now)),
{
}

/// The ids of a sound project tell its rows apart, whatever their kinds: the
/// next one that is given out has none of them.
pub proof fn law_next_id_is_new(p: ProjectView, i: int)
    requires
        p.wf(),
    ensures
        0 <= i < p.todos.len() ==> p.todos[i].id != p.next_id,
        0 <= i < p.notes.len() ==> p.notes[i].id != p.next_id,
        0 <= i < p.tools.len() ==> p.tools[i].id != p.next_id,
        0 <= i < p.processes.len() ==> p.processes[i].id != p.next_id,
{
}

/// A `#N` names one thing only: a live todo, note, tool or process, but never
/// two of them. This holds where no rows share an id, which is so from the
/// start and stays so whatever is added, edited or deleted.
pub proof fn law_number_names_one_thing(p: ProjectView, id: u64)
    requires
        p.wf(),
        p.told_apart(),
    ensures
        table::has_live(p.todos, id) ==> !table::has_live(p.notes, id) && !table::has_live(
            p.tools,
            id,
        ) && !table::has_live(p.processes, id),
        table::has_live(p.notes, id) ==> !table::has_live(p.tools, id) && !table::has_live(
            p.processes,
            id,
        ),
        table::has_live(p.tools, id) ==> !table::has_live(p.processes, id),
{
    table::lemma_live_place(p.todos, id);
    table::lemma_live_place(p.notes, id);
    table::lemma_live_place(p.tools, id);
    table::lemma_live_place(p.processes, id);
}

impl Project {
    /// A project without rows.
    pub fn new(id: i64, root: String, identity: Option<String>) -> (p: Project)
        ensures
            p@ == blank(id, root@, text::opt_text(identity)),
            p@.wf(),
            p@.told_apart(),
    {
        Project {
            id,
            root,
            identity,
            next_id: 1,
            todos: Table::new(),
            notes: Table::new(),
            tools: Table::new(),
            processes: Table::new(),
        }
    }
}

} // verus!
