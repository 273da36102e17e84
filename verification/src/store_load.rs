//! Taking in the rows that were kept: they are tested first, so that every
//! operation finds a sound store.

use vstd::prelude::*;

use crate::model;
use crate::project;
use crate::project::{Project, TodoRow};
use crate::sorting;
use crate::store::{InputRow, InputRowView, Store, StoreView};
use crate::table::{Row, Table};

verus! {

/// Whether numbers ascend.
fn is_ascending(ids: &Vec<u64>) -> (r: bool)
    ensures
        r == project::ascending(ids@),
{
    let mut i: usize = 1;
    while i < ids.len()
        invariant
            1 <= i,
            ids.len() > 0 ==> i <= ids.len(),
            forall|j: int, k: int| 0 <= j < k < i && k < ids.len() ==> ids@[j] < ids@[k],
        decreases ids.len() - i,
    {
        if ids[i - 1] >= ids[i] {
            assert(ids@[i - 1] >= ids@[i as int]);
            return false;
        }
        i += 1;
    }
    true
}

/// Whether the rows of a table stand in the order of their ids, below `next`.
fn is_in_order<R: View>(t: &Table<R>, next: u64) -> (r: bool)
    ensures
        r == project::in_order(t@, next),
{
    let ghost rows = t@;
    let mut i: usize = 0;
    while i < t.rows.len()
        invariant
            i <= t.rows.len(),
            rows == t@,
            rows.len() == t.rows.len(),
            forall|j: int, k: int|
                0 <= j < k < i ==> (#[trigger] rows[j]).id < (#[trigger] rows[k]).id,
            forall|j: int| 0 <= j < i ==> (#[trigger] rows[j]).id < next,
        decreases t.rows.len() - i,
    {
        assert(rows[i as int].id == t.rows@[i as int].id);
        if t.rows[i].id >= next {
            return false;
        }
        if i > 0 {
            assert(rows[i - 1].id == t.rows@[i - 1].id);
            if t.rows[i - 1].id >= t.rows[i].id {
                return false;
            }
        }
        i += 1;
    }
    true
}

/// Whether a row of a todo is sound.
fn is_sound_todo(row: &Row<TodoRow>) -> (r: bool)
    ensures
        r == project::sound_todo(row@),
{
    let t = &row.value.todo;
    let ghost comments = model::comment_views(t.comments@);
    if t.id != row.id {
        return false;
    }
    let mut i: usize = 0;
    while i < t.comments.len()
        invariant
            i <= t.comments.len(),
            comments == model::comment_views(t.comments@),
            comments == row@.value.todo.comments,
            *t == row.value.todo,
            forall|j: int, k: int|
                0 <= j < k < i ==> (#[trigger] comments[j]).id < (#[trigger] comments[k]).id,
            forall|j: int|
                0 <= j < i ==> (#[trigger] comments[j]).id < row.value.next_comment_id,
        decreases t.comments.len() - i,
    {
        assert(comments[i as int].id == t.comments@[i as int].id);
        if t.comments[i].id >= row.value.next_comment_id {
            return false;
        }
        if i > 0 {
            assert(comments[i - 1].id == t.comments@[i - 1].id);
            if t.comments[i - 1].id >= t.comments[i].id {
                return false;
            }
        }
        i += 1;
    }
    if !is_ascending(&t.blockers) {
        return false;
    }
    let mut k: usize = 0;
    while k < t.blockers.len()
        invariant
            k <= t.blockers.len(),
            *t == row.value.todo,
            forall|j: int| 0 <= j < k ==> t.blockers@[j] != row.id,
        decreases t.blockers.len() - k,
    {
        if t.blockers[k] == row.id {
            assert(row@.value.todo.blockers.contains(row@.id));
            return false;
        }
        k += 1;
    }
    true
}

impl Project {
    /// Whether the rows of the todos are sound.
    fn has_sound_todos(&self) -> (r: bool)
        ensures
            r == (forall|i: int|
                0 <= i < self@.todos.len() ==> project::sound_todo(#[trigger] self@.todos[i])),
    {
        let ghost rows = self@.todos;
        let mut i: usize = 0;
        while i < self.todos.rows.len()
            invariant
                i <= self.todos.rows.len(),
                rows == self@.todos,
                rows.len() == self.todos.rows.len(),
                forall|j: int| 0 <= j < i ==> project::sound_todo(#[trigger] rows[j]),
            decreases self.todos.rows.len() - i,
        {
            assert(rows[i as int] == self.todos.rows@[i as int]@);
            if !is_sound_todo(&self.todos.rows[i]) {
                return false;
            }
            i += 1;
        }
        true
    }

    /// Whether the notes carry the ids of their rows.
    fn has_sound_notes(&self) -> (r: bool)
        ensures
            r == (forall|i: int|
                0 <= i < self@.notes.len() ==> (#[trigger] self@.notes[i]).value.id
                    == self@.notes[i].id),
    {
        let ghost rows = self@.notes;
        let mut i: usize = 0;
        while i < self.notes.rows.len()
            invariant
                i <= self.notes.rows.len(),
                rows == self@.notes,
                rows.len() == self.notes.rows.len(),
                forall|j: int| 0 <= j < i ==> (#[trigger] rows[j]).value.id == rows[j].id,
            decreases self.notes.rows.len() - i,
        {
            assert(rows[i as int] == self.notes.rows@[i as int]@);
            if self.notes.rows[i].value.id != self.notes.rows[i].id {
                return false;
            }
            i += 1;
        }
        true
    }

    /// Whether the agent tools carry the ids of their rows.
    fn has_sound_tools(&self) -> (r: bool)
        ensures
            r == (forall|i: int|
                0 <= i < self@.tools.len() ==> (#[trigger] self@.tools[i]).value.id
                    == self@.tools[i].id),
    {
        let ghost rows = self@.tools;
        let mut i: usize = 0;
        while i < self.tools.rows.len()
            invariant
                i <= self.tools.rows.len(),
                rows == self@.tools,
                rows.len() == self.tools.rows.len(),
                forall|j: int| 0 <= j < i ==> (#[trigger] rows[j]).value.id == rows[j].id,
            decreases self.tools.rows.len() - i,
        {
            assert(rows[i as int] == self.tools.rows@[i as int]@);
            if self.tools.rows[i].value.id != self.tools.rows[i].id {
                return false;
            }
            i += 1;
        }
        true
    }

    /// Whether the processes carry the ids of their rows.
    fn has_sound_processes(&self) -> (r: bool)
        ensures
            r == (forall|i: int|
                0 <= i < self@.processes.len() ==> (#[trigger] self@.processes[i]).value.id
                    == self@.processes[i].id),
    {
        let ghost rows = self@.processes;
        let mut i: usize = 0;
        while i < self.processes.rows.len()
            invariant
                i <= self.processes.rows.len(),
                rows == self@.processes,
                rows.len() == self.processes.rows.len(),
                forall|j: int| 0 <= j < i ==> (#[trigger] rows[j]).value.id == rows[j].id,
            decreases self.processes.rows.len() - i,
        {
            assert(rows[i as int] == self.processes.rows@[i as int]@);
            if self.processes.rows[i].value.id != self.processes.rows[i].id {
                return false;
            }
            i += 1;
        }
        true
    }

    /// Whether the project is sound.
    pub fn is_sound(&self) -> (r: bool)
        ensures
            r == self@.wf(),
    {
        let next: u64 = self.next_id;
        is_in_order(&self.todos, next) && is_in_order(&self.notes, next) && is_in_order(
            &self.tools,
            next,
        ) && is_in_order(&self.processes, next) && self.has_sound_todos() && self.has_sound_notes()
            && self.has_sound_tools() && self.has_sound_processes()
    }
}

/// Whether projects can be taken in: each is sound, and their ids stand in
/// order.
pub open spec fn sound_projects(projects: Seq<project::ProjectView>) -> bool {
    &&& forall|i: int| 0 <= i < projects.len() ==> (#[trigger] projects[i]).wf()
    &&& forall|i: int, j: int|
        0 <= i < j < projects.len() ==> (#[trigger] projects[i]).id < (#[trigger] projects[j]).id
}

/// Whether input can be taken in: it stands in the order of its numbers, and
/// there is a number for more.
pub open spec fn sound_inputs(inputs: Seq<InputRowView>) -> bool {
    &&& forall|i: int, j: int|
        0 <= i < j < inputs.len() ==> (#[trigger] inputs[i]).id < (#[trigger] inputs[j]).id
    &&& forall|i: int| 0 <= i < inputs.len() ==> (#[trigger] inputs[i]).id < i64::MAX
}

/// Whether projects can be taken in.
fn are_sound_projects(projects: &Vec<Project>) -> (r: bool)
    ensures
        r == sound_projects(sorting::contents(projects@)),
{
    let ghost all = sorting::contents(projects@);
    let mut i: usize = 0;
    while i < projects.len()
        invariant
            i <= projects.len(),
            all == sorting::contents(projects@),
            forall|j: int| 0 <= j < i ==> (#[trigger] all[j]).wf(),
            forall|j: int, k: int|
                0 <= j < k < i ==> (#[trigger] all[j]).id < (#[trigger] all[k]).id,
        decreases projects.len() - i,
    {
        assert(all[i as int] == projects@[i as int]@);
        if !projects[i].is_sound() {
            return false;
        }
        if i > 0 {
            assert(all[i - 1] == projects@[i - 1]@);
            if projects[i - 1].id >= projects[i].id {
                return false;
            }
        }
        i += 1;
    }
    true
}

/// Whether input can be taken in.
fn are_sound_inputs(inputs: &Vec<InputRow>) -> (r: bool)
    ensures
        r == sound_inputs(sorting::contents(inputs@)),
{
    let ghost all = sorting::contents(inputs@);
    let mut i: usize = 0;
    while i < inputs.len()
        invariant
            i <= inputs.len(),
            all == sorting::contents(inputs@),
            forall|j: int| 0 <= j < i ==> (#[trigger] all[j]).id < i64::MAX,
            forall|j: int, k: int|
                0 <= j < k < i ==> (#[trigger] all[j]).id < (#[trigger] all[k]).id,
        decreases inputs.len() - i,
    {
        assert(all[i as int] == inputs@[i as int]@);
        if inputs[i].id == i64::MAX {
            return false;
        }
        if i > 0 {
            assert(all[i - 1] == inputs@[i - 1]@);
            if inputs[i - 1].id >= inputs[i].id {
                return false;
            }
        }
        i += 1;
    }
    true
}

impl Store {
    /// Takes in rows that were kept, in place of those at hand, if they are
    /// sound. The next input is numbered behind the last one.
    pub fn take_rows(&mut self, projects: Vec<Project>, inputs: Vec<InputRow>) -> (r: bool)
        requires
            old(self)@.wf(),
        ensures
            r == (sound_projects(sorting::contents(projects@)) && sound_inputs(
                sorting::contents(inputs@),
            )),
            final(self)@ == (if r {
                StoreView {
                    projects: sorting::contents(projects@),
                    inputs: sorting::contents(inputs@),
                    next_input: if inputs@.len() == 0 {
                        1
                    } else {
                        (inputs@.last().id + 1) as i64
                    },
                    ..old(self)@
                }
            } else {
                old(self)@
            }),
            final(self)@.wf(),
    {
        if !are_sound_projects(&projects) || !are_sound_inputs(&inputs) {
            return false;
        }
        let ghost all = sorting::contents(inputs@);
        let next: i64 = if inputs.len() == 0 {
            1
        } else {
            assert(all[all.len() - 1].id == inputs@[inputs@.len() - 1].id);
            inputs[inputs.len() - 1].id + 1
        };
        assert forall|i: int| 0 <= i < all.len() implies (#[trigger] all[i]).id < next by {
            assert(all[all.len() - 1].id == inputs@[inputs@.len() - 1].id);
            if i < all.len() - 1 {
                assert(all[i].id < all[all.len() - 1].id);
            }
        }
        self.projects = projects;
        self.inputs = inputs;
        self.next_input = next;
        true
    }

    /// Whether there is a number for one more project.
    pub fn has_project_room(&self) -> (r: bool)
        ensures
            r == (self@.projects.len() > 0 ==> self@.projects.last().id < i64::MAX),
    {
        if self.projects.len() == 0 {
            return true;
        }
        assert(self@.projects.last() == self.projects@[self.projects@.len() - 1]@);
        self.projects[self.projects.len() - 1].id < i64::MAX
    }
}

} // verus!
