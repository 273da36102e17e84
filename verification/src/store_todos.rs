//! What can be done with todos, project by project.

use vstd::prelude::*;
use vstd::string::*;

use crate::error::{CoreError, ErrorView};
use crate::model;
use crate::model::{Priority, ProjectId, Todo, TodoPatch, TodoStatus, TodoView};
use crate::project::{Project, TodoRowView};
use crate::store;
use crate::store::{Moment, Store, StoreView, Surface};
use crate::table;
use crate::text;
use crate::todo_laws;
use crate::todos;

verus! {

/// What [`Store::todo_update`] wrote is what [`Store::todo_get`] reads.
pub proof fn law_update_then_get(
    before: StoreView,
    project: i64,
    id: u64,
    patch: TodoPatch,
    now: Seq<char>,
    r: Result<(), CoreError>,
    after: StoreView,
)
    requires
        before.wf(),
        store::settles(
            r,
            todos::on_todo(
                before.project(project),
                id,
                |t: TodoRowView| todos::todo_edited(t, patch, now),
            ),
            project,
            seq![Surface::Todos],
            before,
            after,
        ),
    ensures
        r is Ok <==> todos::todo_at(before.project(project), id) is Ok,
        r is Ok ==> todos::todo_at(after.project(project), id) is Ok && todo_laws::is_edit_of(
            todos::todo_at(after.project(project), id)->Ok_0,
            todos::todo_at(before.project(project), id)->Ok_0,
            patch,
            now,
        ),
{
    let p = before.project(project);
    store::lemma_place(before.projects, project);
    if r is Ok {
        let q = todos::on_todo(p, id, |t: TodoRowView| todos::todo_edited(t, patch, now))->Ok_0;
        assert(before.has(project));
        todo_laws::law_updated_todo_is_read(p, id, patch, now, id);
        store::law_written_project_is_read(before, project, q, seq![Surface::Todos]);
    }
}

impl Store {
    /// Creates an open todo. Returns its id.
    pub fn todo_create(&mut self, project: ProjectId, title: String, now: &Moment) -> (r: Result<
        u64,
        CoreError,
    >)
        requires
            old(self)@.wf(),
            old(self)@.has_room(project.0),
        ensures
            store::settles(
                r,
                if old(self)@.has(project.0) {
                    Ok(todos::todo_added(old(self)@.project(project.0), title@, now.text@))
                } else {
                    Err(ErrorView::ProjectNotFound(project.0))
                },
                project.0,
                seq![Surface::Todos],
                old(self)@,
                final(self)@,
            ),
            r matches Ok(id) ==> id == old(self)@.project(project.0).next_id,
            final(self)@.wf(),
    {
        let ghost before = self@;
        let i: usize = match self.find_project(project.0) {
            Some(i) => i,
            None => return Err(CoreError::ProjectNotFound(project.0)),
        };
        proof {
            store::lemma_place(before.projects, project.0);
        }
        let id: u64 = self.projects[i].todo_create(title, now.text.as_str());
        self.settle_change(project.0, i, true, Surface::Todos, Ghost(before));
        Ok(id)
    }

    /// The todos of a project in full, by id.
    pub fn todo_list(&self, project: ProjectId) -> (r: Result<Vec<Todo>, CoreError>)
        ensures
            r is Ok,
            model::todo_views(r->Ok_0@) == todos::todos_of(self@.project(project.0)),
    {
        match self.find_project(project.0) {
            Some(i) => Ok(self.projects[i].todo_list()),
            None => {
                let out: Vec<Todo> = Vec::new();
                assert(model::todo_views(out@) =~= todos::todos_of(self@.project(project.0)));
                Ok(out)
            },
        }
    }

    /// The todos of a project that answer a search, by id.
    pub fn todo_search(
        &self,
        project: ProjectId,
        query: Option<&str>,
        status: Option<TodoStatus>,
        priority: Option<Priority>,
        assignee: Option<&str>,
        require_tags: &Vec<String>,
    ) -> (r: Result<Vec<Todo>, CoreError>)
        ensures
            r is Ok,
            model::todo_views(r->Ok_0@) == todos::todos_found(
                self@.project(project.0),
                text::opt_str(query),
                status,
                priority,
                text::opt_str(assignee),
                text::texts(require_tags@),
            ),
    {
        match self.find_project(project.0) {
            Some(i) => Ok(
                self.projects[i].todo_search(query, status, priority, assignee, require_tags),
            ),
            None => {
                let out: Vec<Todo> = Vec::new();
                assert(model::todo_views(out@) =~= todos::todos_found(
                    self@.project(project.0),
                    text::opt_str(query),
                    status,
                    priority,
                    text::opt_str(assignee),
                    text::texts(require_tags@),
                )) by {
                    reveal(Seq::filter);
                    assert(todos::todos_of(self@.project(project.0)) =~= seq![]);
                }
                Ok(out)
            },
        }
    }

    /// A todo in full.
    pub fn todo_get(&self, project: ProjectId, id: u64) -> (r: Result<Todo, CoreError>)
        ensures
            match r {
                Ok(t) => todos::todo_at(self@.project(project.0), id) == Ok::<TodoView, ErrorView>(
                    t@,
                ),
                Err(e) => todos::todo_at(self@.project(project.0), id) == Err::<
                    TodoView,
                    ErrorView,
                >(e@),
            },
    {
        match self.find_project(project.0) {
            Some(i) => self.projects[i].todo_get(id),
            None => Err(CoreError::TodoNotFound(id)),
        }
    }

    /// Edits a todo.
    pub fn todo_update(
        &mut self,
        project: ProjectId,
        id: u64,
        patch: TodoPatch,
        now: &Moment,
    ) -> (r: Result<(), CoreError>)
        requires
            old(self)@.wf(),
        ensures
            store::settles(
                r,
                todos::on_todo(
                    old(self)@.project(project.0),
                    id,
                    |t: TodoRowView| todos::todo_edited(t, patch, now.text@),
                ),
                project.0,
                seq![Surface::Todos],
                old(self)@,
                final(self)@,
            ),
            final(self)@.wf(),
    {
        let ghost before = self@;
        let i: usize = match self.find_project(project.0) {
            Some(i) => i,
            None => return Err(CoreError::TodoNotFound(id)),
        };
        proof {
            store::lemma_place(before.projects, project.0);
        }
        let r = self.projects[i].todo_update(id, patch, now.text.as_str());
        self.settle_change(project.0, i, r.is_ok(), Surface::Todos, Ghost(before));
        r
    }

    /// Completes a todo. One that is completed stays so.
    pub fn todo_complete(
        &mut self,
        project: ProjectId,
        id: u64,
        now: &Moment,
    ) -> (r: Result<(), CoreError>)
        requires
            old(self)@.wf(),
        ensures
            store::settles(
                r,
                todos::on_todo(
                    old(self)@.project(project.0),
                    id,
                    |t: TodoRowView| todos::with_status(t, TodoStatus::Completed, now.text@),
                ),
                project.0,
                seq![Surface::Todos],
                old(self)@,
                final(self)@,
            ),
            final(self)@.wf(),
    {
        let ghost before = self@;
        let i: usize = match self.find_project(project.0) {
            Some(i) => i,
            None => return Err(CoreError::TodoNotFound(id)),
        };
        proof {
            store::lemma_place(before.projects, project.0);
        }
        let r = self.projects[i].todo_complete(id, now.text.as_str());
        self.settle_change(project.0, i, r.is_ok(), Surface::Todos, Ghost(before));
        r
    }

    /// Begins to work on a todo. One that is being worked on is left as it is,
    /// and nothing is shown again.
    pub fn todo_start(&mut self, project: ProjectId, id: u64, now: &Moment) -> (r: Result<
        (),
        CoreError,
    >)
        requires
            old(self)@.wf(),
        ensures
            store::settles(
                r,
                todos::todo_started(old(self)@.project(project.0), id, now.text@),
                project.0,
                if table::live_value(old(self)@.project(project.0).todos, id) matches Some(t)
                    && t.todo.status is InProgress {
                    seq![]
                } else {
                    seq![Surface::Todos]
                },
                old(self)@,
                final(self)@,
            ),
            final(self)@.wf(),
    {
        let ghost before = self@;
        let i: usize = match self.find_project(project.0) {
            Some(i) => i,
            None => return Err(CoreError::TodoNotFound(id)),
        };
        proof {
            store::lemma_place(before.projects, project.0);
        }
        let r = self.projects[i].todo_start(id, now.text.as_str());
        let changed = match &r {
            Ok(c) => *c,
            Err(_) => false,
        };
        self.settle_change(project.0, i, changed, Surface::Todos, Ghost(before));
        proof {
            if r is Ok && !changed {
                let p = before.projects[i as int];
                assert(before.projects.update(i as int, p) =~= before.projects);
                assert(before.pending + store::shows(project.0, seq![]) =~= before.pending);
            }
        }
        match r {
            Ok(_) => Ok(()),
            Err(e) => Err(e),
        }
    }

    /// Deletes a todo.
    pub fn todo_delete(
        &mut self,
        project: ProjectId,
        id: u64,
        now: &Moment,
    ) -> (r: Result<(), CoreError>)
        requires
            old(self)@.wf(),
        ensures
            store::settles(
                r,
                todos::todo_deleted(old(self)@.project(project.0), id, now.text@),
                project.0,
                seq![Surface::Todos],
                old(self)@,
                final(self)@,
            ),
            final(self)@.wf(),
    {
        let ghost before = self@;
        let i: usize = match self.find_project(project.0) {
            Some(i) => i,
            None => return Err(CoreError::TodoNotFound(id)),
        };
        proof {
            store::lemma_place(before.projects, project.0);
        }
        let r = self.projects[i].todo_delete(id, now.text.as_str());
        self.settle_change(project.0, i, r.is_ok(), Surface::Todos, Ghost(before));
        r
    }

    /// Records that a todo is blocked by another.
    pub fn todo_add_blocker(
        &mut self,
        project: ProjectId,
        id: u64,
        blocker_id: u64,
        now: &Moment,
    ) -> (r: Result<(), CoreError>)
        requires
            old(self)@.wf(),
        ensures
            store::settles(
                r,
                todos::blocker_added(old(self)@.project(project.0), id, blocker_id, now.text@),
                project.0,
                seq![Surface::Todos],
                old(self)@,
                final(self)@,
            ),
            final(self)@.wf(),
    {
        let ghost before = self@;
        let i: usize = match self.find_project(project.0) {
            Some(i) => i,
            None => {
                if id == blocker_id {
                    return Err(CoreError::BadRequest("a todo cannot block itself".to_owned()));
                }
                return Err(CoreError::TodoNotFound(id));
            },
        };
        proof {
            store::lemma_place(before.projects, project.0);
        }
        let r = self.projects[i].todo_add_blocker(id, blocker_id, now.text.as_str());
        self.settle_change(project.0, i, r.is_ok(), Surface::Todos, Ghost(before));
        r
    }

    /// Removes the record that a todo is blocked by another.
    pub fn todo_remove_blocker(
        &mut self,
        project: ProjectId,
        id: u64,
        blocker_id: u64,
        now: &Moment,
    ) -> (r: Result<(), CoreError>)
        requires
            old(self)@.wf(),
        ensures
            store::settles(
                r,
                todos::on_todo(
                    old(self)@.project(project.0),
                    id,
                    |t: TodoRowView|
                        todos::with_blockers(
                            t,
                            todos::without_id(t.todo.blockers, blocker_id),
                            now.text@,
                        ),
                ),
                project.0,
                seq![Surface::Todos],
                old(self)@,
                final(self)@,
            ),
            final(self)@.wf(),
    {
        let ghost before = self@;
        let i: usize = match self.find_project(project.0) {
            Some(i) => i,
            None => return Err(CoreError::TodoNotFound(id)),
        };
        proof {
            store::lemma_place(before.projects, project.0);
        }
        let r = self.projects[i].todo_remove_blocker(id, blocker_id, now.text.as_str());
        self.settle_change(project.0, i, r.is_ok(), Surface::Todos, Ghost(before));
        r
    }

    /// Sets the blockers of a todo. All are checked before anything changes.
    pub fn todo_set_blockers(
        &mut self,
        project: ProjectId,
        id: u64,
        blockers: Vec<u64>,
        now: &Moment,
    ) -> (r: Result<(), CoreError>)
        requires
            old(self)@.wf(),
        ensures
            store::settles(
                r,
                todos::blockers_set(old(self)@.project(project.0), id, blockers@, now.text@),
                project.0,
                seq![Surface::Todos],
                old(self)@,
                final(self)@,
            ),
            final(self)@.wf(),
    {
        let ghost before = self@;
        let i: usize = match self.find_project(project.0) {
            Some(i) => i,
            None => {
                let mut none = Project::new(project.0, String::new(), None);
                return none.todo_set_blockers(id, blockers, now.text.as_str());
            },
        };
        proof {
            store::lemma_place(before.projects, project.0);
        }
        let r = self.projects[i].todo_set_blockers(id, blockers, now.text.as_str());
        self.settle_change(project.0, i, r.is_ok(), Surface::Todos, Ghost(before));
        r
    }

    /// Adds a comment to a todo. Returns its number.
    pub fn todo_comment_add(
        &mut self,
        project: ProjectId,
        id: u64,
        author: String,
        body: String,
        now: &Moment,
    ) -> (r: Result<u64, CoreError>)
        requires
            old(self)@.wf(),
            table::live_value(old(self)@.project(project.0).todos, id) matches Some(t)
                ==> t.next_comment_id < u64::MAX,
        ensures
            store::settles(
                r,
                todos::on_todo(
                    old(self)@.project(project.0),
                    id,
                    |t: TodoRowView| todos::with_comment(t, author@, body@, now.text@),
                ),
                project.0,
                seq![Surface::Todos],
                old(self)@,
                final(self)@,
            ),
            r matches Ok(n) ==> n == table::live_value(
                old(self)@.project(project.0).todos,
                id,
            )->0.next_comment_id,
            final(self)@.wf(),
    {
        let ghost before = self@;
        let i: usize = match self.find_project(project.0) {
            Some(i) => i,
            None => return Err(CoreError::TodoNotFound(id)),
        };
        proof {
            store::lemma_place(before.projects, project.0);
        }
        let r = self.projects[i].todo_comment_add(id, author, body, now.text.as_str());
        self.settle_change(project.0, i, r.is_ok(), Surface::Todos, Ghost(before));
        r
    }

    /// Replaces the words of a comment.
    pub fn todo_comment_update(
        &mut self,
        project: ProjectId,
        todo_id: u64,
        comment_id: u64,
        body: String,
        now: &Moment,
    ) -> (r: Result<(), CoreError>)
        requires
            old(self)@.wf(),
        ensures
            store::settles(
                r,
                todos::comment_edited(
                    old(self)@.project(project.0),
                    todo_id,
                    comment_id,
                    body@,
                    now.text@,
                ),
                project.0,
                seq![Surface::Todos],
                old(self)@,
                final(self)@,
            ),
            final(self)@.wf(),
    {
        let ghost before = self@;
        let i: usize = match self.find_project(project.0) {
            Some(i) => i,
            None => return Err(CoreError::TodoNotFound(todo_id)),
        };
        proof {
            store::lemma_place(before.projects, project.0);
        }
        let r = self.projects[i].todo_comment_update(todo_id, comment_id, body, now.text.as_str());
        self.settle_change(project.0, i, r.is_ok(), Surface::Todos, Ghost(before));
        r
    }

    /// Removes a comment.
    pub fn todo_comment_delete(
        &mut self,
        project: ProjectId,
        todo_id: u64,
        comment_id: u64,
        now: &Moment,
    ) -> (r: Result<(), CoreError>)
        requires
            old(self)@.wf(),
        ensures
            store::settles(
                r,
                todos::comment_removed(
                    old(self)@.project(project.0),
                    todo_id,
                    comment_id,
                    now.text@,
                ),
                project.0,
                seq![Surface::Todos],
                old(self)@,
                final(self)@,
            ),
            final(self)@.wf(),
    {
        let ghost before = self@;
        let i: usize = match self.find_project(project.0) {
            Some(i) => i,
            None => return Err(CoreError::TodoNotFound(todo_id)),
        };
        proof {
            store::lemma_place(before.projects, project.0);
        }
        let r = self.projects[i].todo_comment_delete(todo_id, comment_id, now.text.as_str());
        self.settle_change(project.0, i, r.is_ok(), Surface::Todos, Ghost(before));
        r
    }
}

} // verus!
