//! What can be done with the todos of a project.

use vstd::prelude::*;
use vstd::string::*;

use crate::error::CoreError;
use crate::model;
use crate::model::{Priority, Todo, TodoComment, TodoCommentView, TodoPatch, TodoStatus, TodoView};
use crate::project;
use crate::project::{Project, TodoRow, TodoRowView};
use crate::table;
use crate::table::Entry;
use crate::text;
use crate::todo_laws;
use crate::todos;

verus! {

impl TodoRow {
    /// A copy.
    pub fn copy(&self) -> (r: TodoRow)
        ensures
            r@ == self@,
    {
        TodoRow { todo: self.todo.copy(), next_comment_id: self.next_comment_id }
    }
}

/// Ascending numbers with one more, once.
fn put_id(ids: &mut Vec<u64>, id: u64)
    ensures
        final(ids)@ == todos::with_id(old(ids)@, id),
    decreases old(ids)@.len(),
{
    let n: usize = ids.len();
    if n == 0 {
        ids.push(id);
        assert(ids@ =~= seq![id]);
        return;
    }
    let last: u64 = ids[n - 1];
    if last < id {
        ids.push(id);
    } else if last > id {
        let ghost was = ids@;
        ids.pop();
        assert(ids@ =~= was.drop_last());
        put_id(ids, id);
        ids.push(last);
    }
}

/// Whether every wanted tag is there.
pub fn holds_tags(tags: &Vec<String>, wanted: &Vec<String>) -> (r: bool)
    ensures
        r == todos::has_tags(text::texts(tags@), text::texts(wanted@)),
{
    let ghost have = text::texts(tags@);
    let ghost want = text::texts(wanted@);
    let mut i: usize = 0;
    while i < wanted.len()
        invariant
            i <= wanted.len(),
            have == text::texts(tags@),
            want == text::texts(wanted@),
            forall|j: int| 0 <= j < i ==> have.contains(#[trigger] want[j]),
        decreases wanted.len() - i,
    {
        let mut found = false;
        let mut k: usize = 0;
        while k < tags.len() && !found
            invariant
                k <= tags.len(),
                i < wanted.len(),
                have == text::texts(tags@),
                want == text::texts(wanted@),
                found ==> have.contains(want[i as int]),
                !found ==> forall|j: int| 0 <= j < k ==> (#[trigger] have[j]) != want[i as int],
            decreases tags.len() - k,
        {
            assert(have[k as int] == tags@[k as int]@);
            assert(want[i as int] == wanted@[i as int]@);
            found = text::same(tags[k].as_str(), wanted[i].as_str());
            k += 1;
        }
        if !found {
            assert(!have.contains(want[i as int]));
            return false;
        }
        i += 1;
    }
    true
}

/// The id that a query asks for.
pub fn query_as_id(query: &str) -> (r: Option<u64>)
    ensures
        r == todos::query_id(query@),
{
    let t = text::trim(query);
    match text::strip_prefix(t, "#") {
        Some(n) => text::parse_u64(n),
        None => text::parse_u64(t),
    }
}

/// Whether an item answers a query, given the lowercase forms of its texts and
/// of the query, and the id that the query asks for.
pub fn answers_lowered(id: u64, title: &str, body: &str, query: &str, asked: Option<u64>) -> (r:
    bool)
    ensures
        r == (text::find_seq(title@, query@) is Some || text::find_seq(body@, query@) is Some
            || asked == Some(id)),
{
    if text::contains(title, query) || text::contains(body, query) {
        return true;
    }
    match asked {
        Some(n) => n == id,
        None => false,
    }
}

/// Whether a todo is assigned to the one asked for, if one is, given the
/// lowercase forms of both names.
pub fn assigned_lowered(assignee: &str, asked: Option<&str>) -> (r: bool)
    ensures
        r == (match asked {
            Some(a) => a@ == assignee@,
            None => true,
        }),
{
    match asked {
        Some(a) => text::same(assignee, a),
        None => true,
    }
}

/// Whether an item answers a query.
pub fn answers_query(id: u64, title: &str, body: &str, query: Option<&str>) -> (r: bool)
    ensures
        r == todos::answers(id, title@, body@, text::opt_str(query)),
{
    match query {
        None => true,
        Some(q) => {
            answers_lowered(
                id,
                text::to_lowercase(title).as_str(),
                text::to_lowercase(body).as_str(),
                text::to_lowercase(q).as_str(),
                query_as_id(q),
            )
        },
    }
}

impl Project {
    /// Creates an open todo.
    pub fn todo_create(&mut self, title: String, now: &str) -> (id: u64)
        requires
            old(self)@.wf(),
            old(self)@.has_room(),
        ensures
            id == old(self)@.next_id,
            final(self)@ == todos::todo_added(old(self)@, title@, now@),
            final(self)@.wf(),
    {
        proof {
            todo_laws::lemma_todo_added_wf(self@, title@, now@);
        }
        let id: u64 = self.next_id;
        let row = TodoRow {
            todo: Todo {
                id,
                title,
                body: String::new(),
                status: TodoStatus::Open,
                priority: Priority::Medium,
                assignee: String::new(),
                tags: Vec::new(),
                blockers: Vec::new(),
                comments: Vec::new(),
                created_at: now.to_owned(),
                updated_at: now.to_owned(),
                completed_at: None,
            },
            next_comment_id: 1,
        };
        proof {
            assert(text::texts(row.todo.tags@) =~= seq![]);
            assert(row.todo.blockers@ =~= seq![]);
            assert(model::comment_views(row.todo.comments@) =~= seq![]);
        }
        self.todos.add(id, row);
        self.next_id = id + 1;
        id
    }

    /// A todo as it is read.
    fn show_todo(&self, r: &TodoRow) -> (t: Todo)
        ensures
            t@ == todos::shown_todo(self@, r@),
    {
        let mut t = r.todo.copy();
        let ghost raw = r.todo.blockers@;
        let ghost keep = |b: u64| table::has_live(self@.todos, b);
        let mut out: Vec<u64> = Vec::new();
        let mut i: usize = 0;
        assert(raw.take(0) =~= seq![]);
        assert(out@ =~= raw.take(0).filter(keep)) by {
            reveal(Seq::filter);
        }
        while i < r.todo.blockers.len()
            invariant
                i <= r.todo.blockers.len(),
                raw == r.todo.blockers@,
                keep == (|b: u64| table::has_live(self@.todos, b)),
                out@ == raw.take(i as int).filter(keep),
            decreases r.todo.blockers.len() - i,
        {
            let b: u64 = r.todo.blockers[i];
            proof {
                let part = raw.take(i + 1);
                assert(part.drop_last() =~= raw.take(i as int));
                assert(part.last() == b);
                reveal(Seq::filter);
            }
            if self.todos.has(b) {
                out.push(b);
            }
            i += 1;
        }
        assert(raw.take(i as int) =~= raw);
        t.blockers = out;
        t
    }

    /// A todo in full.
    pub fn todo_get(&self, id: u64) -> (r: Result<Todo, CoreError>)
        ensures
            match r {
                Ok(t) => todos::todo_at(self@, id) == Ok::<TodoView, crate::error::ErrorView>(t@),
                Err(e) => todos::todo_at(self@, id) == Err::<TodoView, crate::error::ErrorView>(e@),
            },
    {
        match self.todos.find(id) {
            Some(i) => {
                proof {
                    table::lemma_live_place(self.todos@, id);
                }
                Ok(self.show_todo(self.todos.at(i)))
            },
            None => Err(CoreError::TodoNotFound(id)),
        }
    }

    /// The todos in full, by id.
    pub fn todo_list(&self) -> (out: Vec<Todo>)
        ensures
            model::todo_views(out@) == todos::todos_of(self@),
    {
        let ghost all = self@.todos;
        let ghost show = |r: TodoRowView| todos::shown_todo(self@, r);
        let mut out: Vec<Todo> = Vec::new();
        let mut i: usize = 0;
        assert(all.take(0) =~= seq![]);
        assert(model::todo_views(out@) =~= table::live_values(all.take(0)).map_values(show));
        while i < self.todos.rows.len()
            invariant
                i <= self.todos.rows.len(),
                all == self@.todos,
                show == (|r: TodoRowView| todos::shown_todo(self@, r)),
                model::todo_views(out@) == table::live_values(all.take(i as int)).map_values(show),
            decreases self.todos.rows.len() - i,
        {
            let ghost was = out@;
            let ghost live = table::live_values(all.take(i as int));
            proof {
                let part = all.take(i + 1);
                assert(part.drop_last() =~= all.take(i as int));
                assert(part.last() == self.todos.rows@[i as int]@);
            }
            if self.todos.rows[i].deleted_at.is_none() {
                let t = self.show_todo(&self.todos.rows[i].value);
                out.push(t);
                proof {
                    let v = self.todos.rows@[i as int].value@;
                    assert(model::todo_views(out@) =~= model::todo_views(was).push(t@));
                    assert(live.push(v).map_values(show) =~= live.map_values(show).push(show(v)));
                }
            }
            i += 1;
        }
        assert(all.take(i as int) =~= all);
        out
    }

    /// The todos that answer a search, by id. A query is looked for in titles
    /// and bodies in any case, and may be the number of a todo; every tag must
    /// be there.
    pub fn todo_search(
        &self,
        query: Option<&str>,
        status: Option<TodoStatus>,
        priority: Option<Priority>,
        assignee: Option<&str>,
        require_tags: &Vec<String>,
    ) -> (out: Vec<Todo>)
        ensures
            model::todo_views(out@) == todos::todos_found(
                self@,
                text::opt_str(query),
                status,
                priority,
                text::opt_str(assignee),
                text::texts(require_tags@),
            ),
    {
        let list = self.todo_list();
        let ghost all = todos::todos_of(self@);
        let ghost keep = |t: TodoView|
            todos::todo_answers(
                t,
                text::opt_str(query),
                status,
                priority,
                text::opt_str(assignee),
                text::texts(require_tags@),
            );
        let mut out: Vec<Todo> = Vec::new();
        let mut i: usize = 0;
        assert(all.take(0) =~= seq![]);
        assert(model::todo_views(out@) =~= all.take(0).filter(keep)) by {
            reveal(Seq::filter);
        }
        while i < list.len()
            invariant
                i <= list.len(),
                all == model::todo_views(list@),
                keep == (|t: TodoView|
                    todos::todo_answers(
                        t,
                        text::opt_str(query),
                        status,
                        priority,
                        text::opt_str(assignee),
                        text::texts(require_tags@),
                    )),
                model::todo_views(out@) == all.take(i as int).filter(keep),
            decreases list.len() - i,
        {
            let ghost was = out@;
            let t = &list[i];
            proof {
                let part = all.take(i + 1);
                assert(part.drop_last() =~= all.take(i as int));
                assert(part.last() == t@);
                reveal(Seq::filter);
            }
            if matches_todo(t, query, status, priority, assignee, require_tags) {
                let c = t.copy();
                out.push(c);
                assert(model::todo_views(out@) =~= model::todo_views(was).push(c@));
            }
            i += 1;
        }
        assert(all.take(i as int) =~= all);
        out
    }

    /// Writes another value to the row of a todo.
    fn put_todo(&mut self, i: usize, row: TodoRow)
        requires
            old(self)@.wf(),
            i < old(self).todos.rows.len(),
            project::sound_todo(Entry { value: row@, ..old(self)@.todos[i as int] }),
        ensures
            final(self)@ == todos::with_todo(old(self)@, i as int, row@),
            final(self)@.wf(),
    {
        proof {
            todo_laws::lemma_with_todo_wf(self@, i as int, row@);
        }
        self.todos.set(i, row);
    }

    /// Edits a todo.
    pub fn todo_update(&mut self, id: u64, patch: TodoPatch, now: &str) -> (r: Result<(), CoreError>)
        requires
            old(self)@.wf(),
        ensures
            project::settles(
                r,
                todos::on_todo(
                    old(self)@,
                    id,
                    |t: TodoRowView| todos::todo_edited(t, patch, now@),
                ),
                old(self)@,
                final(self)@,
            ),
            final(self)@.wf(),
    {
        let i: usize = match self.todos.find(id) {
            Some(i) => i,
            None => return Err(CoreError::TodoNotFound(id)),
        };
        proof {
            table::lemma_live_place(self.todos@, id);
        }
        let mut row = self.todos.at(i).copy();
        let ghost was = row@;
        let status = match patch.status {
            Some(s) => s,
            None => row.todo.status,
        };
        row.todo.completed_at = complete_at(status, &row.todo.completed_at, now);
        row.todo.status = status;
        row.todo.updated_at = now.to_owned();
        if let Some(v) = patch.title {
            row.todo.title = v;
        }
        if let Some(v) = patch.body {
            row.todo.body = v;
        }
        if let Some(v) = patch.priority {
            row.todo.priority = v;
        }
        if let Some(v) = patch.assignee {
            row.todo.assignee = v;
        }
        if let Some(v) = patch.tags {
            row.todo.tags = v;
        }
        proof {
            assert(project::sound_todo(self@.todos[i as int]));
            assert(row@ == todos::todo_edited(was, patch, now@));
        }
        self.put_todo(i, row);
        Ok(())
    }

    /// Gives a todo another status.
    fn set_status(&mut self, i: usize, status: TodoStatus, now: &str)
        requires
            old(self)@.wf(),
            i < old(self).todos.rows.len(),
        ensures
            final(self)@ == todos::with_todo(
                old(self)@,
                i as int,
                todos::with_status(old(self)@.todos[i as int].value, status, now@),
            ),
            final(self)@.wf(),
    {
        let mut row = self.todos.at(i).copy();
        row.todo.completed_at = complete_at(status, &row.todo.completed_at, now);
        row.todo.status = status;
        row.todo.updated_at = now.to_owned();
        assert(project::sound_todo(self@.todos[i as int]));
        self.put_todo(i, row);
    }

    /// Completes a todo. One that is completed stays so.
    pub fn todo_complete(&mut self, id: u64, now: &str) -> (r: Result<(), CoreError>)
        requires
            old(self)@.wf(),
        ensures
            project::settles(
                r,
                todos::on_todo(
                    old(self)@,
                    id,
                    |t: TodoRowView| todos::with_status(t, TodoStatus::Completed, now@),
                ),
                old(self)@,
                final(self)@,
            ),
            final(self)@.wf(),
    {
        match self.todos.find(id) {
            Some(i) => {
                proof {
                    table::lemma_live_place(self.todos@, id);
                }
                self.set_status(i, TodoStatus::Completed, now);
                Ok(())
            },
            None => Err(CoreError::TodoNotFound(id)),
        }
    }

    /// Begins to work on a todo. Returns whether anything changed.
    pub fn todo_start(&mut self, id: u64, now: &str) -> (r: Result<bool, CoreError>)
        requires
            old(self)@.wf(),
        ensures
            project::settles(
                r,
                todos::todo_started(old(self)@, id, now@),
                old(self)@,
                final(self)@,
            ),
            r matches Ok(changed) ==> changed == !(table::live_value(
                old(self)@.todos,
                id,
            )->0.todo.status is InProgress),
            final(self)@.wf(),
    {
        let i: usize = match self.todos.find(id) {
            Some(i) => i,
            None => return Err(CoreError::TodoNotFound(id)),
        };
        proof {
            table::lemma_live_place(self.todos@, id);
        }
        let status = self.todos.at(i).todo.status;
        match status {
            TodoStatus::InProgress => Ok(false),
            TodoStatus::Completed | TodoStatus::NotDone => {
                let mut out = "todo ".to_owned();
                out.append(text::number(id).as_str());
                out.append(" is ");
                out.append(status.as_str());
                out.append(" - reopen via todo_update before starting");
                Err(CoreError::BadRequest(out))
            },
            _ => {
                self.set_status(i, TodoStatus::InProgress, now);
                Ok(true)
            },
        }
    }

    /// Deletes a todo. Its comments and blockers stay behind with it.
    pub fn todo_delete(&mut self, id: u64, now: &str) -> (r: Result<(), CoreError>)
        requires
            old(self)@.wf(),
        ensures
            project::settles(
                r,
                todos::todo_deleted(old(self)@, id, now@),
                old(self)@,
                final(self)@,
            ),
            final(self)@.wf(),
    {
        match self.todos.find(id) {
            Some(i) => {
                proof {
                    table::lemma_live_place(self.todos@, id);
                    todo_laws::lemma_todo_deleted_wf(self@, i as int, now@);
                }
                self.todos.delete(i, now);
                Ok(())
            },
            None => Err(CoreError::TodoNotFound(id)),
        }
    }

    /// Gives a todo other blockers.
    fn set_blocker_list(&mut self, i: usize, blockers: Vec<u64>, now: &str)
        requires
            old(self)@.wf(),
            i < old(self).todos.rows.len(),
            project::ascending(blockers@),
            !blockers@.contains(old(self)@.todos[i as int].id),
        ensures
            final(self)@ == todos::with_todo(
                old(self)@,
                i as int,
                todos::with_blockers(old(self)@.todos[i as int].value, blockers@, now@),
            ),
            final(self)@.wf(),
    {
        let mut row = self.todos.at(i).copy();
        row.todo.blockers = blockers;
        row.todo.updated_at = now.to_owned();
        assert(project::sound_todo(self@.todos[i as int]));
        self.put_todo(i, row);
    }

    /// Records that a todo is blocked by another. One that is recorded stays.
    pub fn todo_add_blocker(&mut self, id: u64, blocker_id: u64, now: &str) -> (r: Result<
        (),
        CoreError,
    >)
        requires
            old(self)@.wf(),
        ensures
            project::settles(
                r,
                todos::blocker_added(old(self)@, id, blocker_id, now@),
                old(self)@,
                final(self)@,
            ),
            final(self)@.wf(),
    {
        if id == blocker_id {
            return Err(CoreError::BadRequest("a todo cannot block itself".to_owned()));
        }
        let i: usize = match self.todos.find(id) {
            Some(i) => i,
            None => return Err(CoreError::TodoNotFound(id)),
        };
        if !self.todos.has(blocker_id) {
            return Err(CoreError::TodoNotFound(blocker_id));
        }
        proof {
            table::lemma_live_place(self.todos@, id);
            assert(project::sound_todo(self@.todos[i as int]));
            todo_laws::lemma_with_id(self@.todos[i as int].value.todo.blockers, blocker_id);
        }
        let mut blockers = model::copy_ids(&self.todos.at(i).todo.blockers);
        put_id(&mut blockers, blocker_id);
        self.set_blocker_list(i, blockers, now);
        Ok(())
    }

    /// Removes the record that a todo is blocked by another. One that is not
    /// recorded is no error.
    pub fn todo_remove_blocker(&mut self, id: u64, blocker_id: u64, now: &str) -> (r: Result<
        (),
        CoreError,
    >)
        requires
            old(self)@.wf(),
        ensures
            project::settles(
                r,
                todos::on_todo(
                    old(self)@,
                    id,
                    |t: TodoRowView|
                        todos::with_blockers(
                            t,
                            todos::without_id(t.todo.blockers, blocker_id),
                            now@,
                        ),
                ),
                old(self)@,
                final(self)@,
            ),
            final(self)@.wf(),
    {
        let i: usize = match self.todos.find(id) {
            Some(i) => i,
            None => return Err(CoreError::TodoNotFound(id)),
        };
        let ghost raw = self.todos@[i as int].value.todo.blockers;
        proof {
            table::lemma_live_place(self.todos@, id);
            assert(project::sound_todo(self@.todos[i as int]));
            todo_laws::lemma_without_id(raw, blocker_id);
        }
        let list = model::copy_ids(&self.todos.at(i).todo.blockers);
        let mut out: Vec<u64> = Vec::new();
        let mut k: usize = 0;
        assert(raw.take(0) =~= seq![]);
        assert(out@ =~= todos::without_id(raw.take(0), blocker_id)) by {
            reveal(Seq::filter);
        }
        while k < list.len()
            invariant
                k <= list.len(),
                raw == list@,
                out@ == todos::without_id(raw.take(k as int), blocker_id),
            decreases list.len() - k,
        {
            let b: u64 = list[k];
            proof {
                let part = raw.take(k + 1);
                assert(part.drop_last() =~= raw.take(k as int));
                assert(part.last() == b);
                reveal(Seq::filter);
            }
            if b != blocker_id {
                out.push(b);
            }
            k += 1;
        }
        assert(raw.take(k as int) =~= raw);
        self.set_blocker_list(i, out, now);
        Ok(())
    }

    /// The first of some todos that is not there.
    fn find_missing(&self, ids: &Vec<u64>) -> (r: Option<u64>)
        ensures
            r == todos::first_missing(self@, ids@),
    {
        let ghost all = ids@;
        let mut i: usize = 0;
        assert(all.skip(0) =~= all);
        while i < ids.len()
            invariant
                i <= ids.len(),
                all == ids@,
                todos::first_missing(self@, all) == todos::first_missing(self@, all.skip(i as int)),
            decreases ids.len() - i,
        {
            assert(all.skip(i as int)[0] == ids@[i as int]);
            assert(all.skip(i as int).drop_first() =~= all.skip(i + 1));
            if !self.todos.has(ids[i]) {
                return Some(ids[i]);
            }
            i += 1;
        }
        None
    }

    /// The blockers of a todo after they were set.
    fn replace_blockers(&self, was: &Vec<u64>, wanted: &Vec<u64>) -> (out: Vec<u64>)
        ensures
            out@ == todos::blockers_replaced(self@, was@, wanted@),
    {
        let ghost raw = was@;
        let ghost keep = |b: u64| !table::has_live(self@.todos, b) || wanted@.contains(b);
        let mut out: Vec<u64> = Vec::new();
        let mut k: usize = 0;
        assert(raw.take(0) =~= seq![]);
        assert(out@ =~= raw.take(0).filter(keep)) by {
            reveal(Seq::filter);
        }
        while k < was.len()
            invariant
                k <= was.len(),
                raw == was@,
                keep == (|b: u64| !table::has_live(self@.todos, b) || wanted@.contains(b)),
                out@ == raw.take(k as int).filter(keep),
            decreases was.len() - k,
        {
            let b: u64 = was[k];
            proof {
                let part = raw.take(k + 1);
                assert(part.drop_last() =~= raw.take(k as int));
                assert(part.last() == b);
                reveal(Seq::filter);
            }
            if !self.todos.has(b) || holds(wanted, b) {
                out.push(b);
            }
            k += 1;
        }
        assert(raw.take(k as int) =~= raw);
        let ghost kept = out@;
        let mut j: usize = 0;
        assert(wanted@.take(0) =~= seq![]);
        while j < wanted.len()
            invariant
                j <= wanted.len(),
                out@ == todos::with_ids(kept, wanted@.take(j as int)),
            decreases wanted.len() - j,
        {
            proof {
                let part = wanted@.take(j + 1);
                assert(part.drop_last() =~= wanted@.take(j as int));
                assert(part.last() == wanted@[j as int]);
            }
            put_id(&mut out, wanted[j]);
            j += 1;
        }
        assert(wanted@.take(j as int) =~= wanted@);
        out
    }

    /// Sets the blockers of a todo. All are checked before anything changes.
    pub fn todo_set_blockers(&mut self, id: u64, blockers: Vec<u64>, now: &str) -> (r: Result<
        (),
        CoreError,
    >)
        requires
            old(self)@.wf(),
        ensures
            project::settles(
                r,
                todos::blockers_set(old(self)@, id, blockers@, now@),
                old(self)@,
                final(self)@,
            ),
            final(self)@.wf(),
    {
        if holds(&blockers, id) {
            return Err(CoreError::BadRequest("a todo cannot block itself".to_owned()));
        }
        let i: usize = match self.todos.find(id) {
            Some(i) => i,
            None => return Err(CoreError::TodoNotFound(id)),
        };
        if let Some(b) = self.find_missing(&blockers) {
            return Err(CoreError::TodoNotFound(b));
        }
        let ghost was = self@.todos[i as int].value.todo.blockers;
        proof {
            table::lemma_live_place(self.todos@, id);
            assert(project::sound_todo(self@.todos[i as int]));
            let keep = |b: u64| !table::has_live(self@.todos, b) || blockers@.contains(b);
            todo_laws::lemma_filter_ids(was, keep);
            todo_laws::lemma_with_ids(was.filter(keep), blockers@);
            assert(!todos::blockers_replaced(self@, was, blockers@).contains(id)) by {
                assert(was.filter(keep).contains(id) == (was.contains(id) && keep(id)));
            }
        }
        let list = self.replace_blockers(&self.todos.at(i).todo.blockers, &blockers);
        self.set_blocker_list(i, list, now);
        Ok(())
    }

    /// Adds a comment to a todo. Returns its number.
    pub fn todo_comment_add(&mut self, id: u64, author: String, body: String, now: &str) -> (r:
        Result<u64, CoreError>)
        requires
            old(self)@.wf(),
            table::live_value(old(self)@.todos, id) matches Some(t) ==> t.next_comment_id
                < u64::MAX,
        ensures
            project::settles(
                r,
                todos::on_todo(
                    old(self)@,
                    id,
                    |t: TodoRowView| todos::with_comment(t, author@, body@, now@),
                ),
                old(self)@,
                final(self)@,
            ),
            r matches Ok(n) ==> n == table::live_value(old(self)@.todos, id)->0.next_comment_id,
            final(self)@.wf(),
    {
        let i: usize = match self.todos.find(id) {
            Some(i) => i,
            None => return Err(CoreError::TodoNotFound(id)),
        };
        proof {
            table::lemma_live_place(self.todos@, id);
            assert(project::sound_todo(self@.todos[i as int]));
        }
        let mut row = self.todos.at(i).copy();
        let ghost was = row@;
        let n: u64 = row.next_comment_id;
        let c = TodoComment { id: n, author, body, created_at: now.to_owned() };
        let ghost before = row.todo.comments@;
        row.todo.comments.push(c);
        row.todo.updated_at = now.to_owned();
        row.next_comment_id = n + 1;
        proof {
            assert(model::comment_views(row.todo.comments@) =~= model::comment_views(before).push(
                c@,
            ));
            assert(row@ == todos::with_comment(was, author@, body@, now@));
            let after = row@.todo.comments;
            let old_list = was.todo.comments;
            assert forall|a: int, b: int| 0 <= a < b < after.len() implies (#[trigger] after[a]).id
                < (#[trigger] after[b]).id by {
                assert(after[a] == old_list[a]);
                if b < old_list.len() {
                    assert(after[b] == old_list[b]);
                }
            }
            assert forall|a: int| 0 <= a < after.len() implies (#[trigger] after[a]).id < n + 1 by {
                if a < old_list.len() {
                    assert(after[a] == old_list[a]);
                }
            }
        }
        self.put_todo(i, row);
        Ok(n)
    }

    /// Where a comment stands.
    fn find_comment(&self, todo_id: u64, comment_id: u64) -> (r: Option<(usize, usize)>)
        ensures
            match r {
                Some((i, k)) => todos::comment_at(self@, todo_id, comment_id) == Some(
                    (i as int, k as int),
                ) && i < self.todos.rows.len() && k
                    < self.todos.rows@[i as int].value.todo.comments.len(),
                None => todos::comment_at(self@, todo_id, comment_id) is None,
            },
    {
        let ghost all = self@.todos;
        let mut i: usize = 0;
        assert(all.skip(0) =~= all);
        while i < self.todos.rows.len()
            invariant
                i <= self.todos.rows.len(),
                all == self@.todos,
                todos::row_place(all, todo_id) == (match todos::row_place(
                    all.skip(i as int),
                    todo_id,
                ) {
                    Some(j) => Some(j + i),
                    None => None,
                }),
            decreases self.todos.rows.len() - i,
        {
            assert(all.skip(i as int)[0] == self.todos.rows@[i as int]@);
            if self.todos.rows[i].id == todo_id {
                return match place_comment(&self.todos.rows[i].value.todo.comments, comment_id) {
                    Some(k) => Some((i, k)),
                    None => None,
                };
            }
            assert(all.skip(i as int).drop_first() =~= all.skip(i + 1));
            i += 1;
        }
        None
    }

    /// What is wrong where a comment is not found.
    fn no_comment(&self, todo_id: u64, comment_id: u64) -> (e: CoreError)
        ensures
            e@ == todos::comment_missing(self@, todo_id, comment_id),
    {
        if self.todos.has(todo_id) {
            CoreError::TodoCommentNotFound { todo_id, comment_id }
        } else {
            CoreError::TodoNotFound(todo_id)
        }
    }

    /// Replaces the words of a comment.
    pub fn todo_comment_update(
        &mut self,
        todo_id: u64,
        comment_id: u64,
        body: String,
        now: &str,
    ) -> (r: Result<(), CoreError>)
        requires
            old(self)@.wf(),
        ensures
            project::settles(
                r,
                todos::comment_edited(old(self)@, todo_id, comment_id, body@, now@),
                old(self)@,
                final(self)@,
            ),
            final(self)@.wf(),
    {
        let (i, k) = match self.find_comment(todo_id, comment_id) {
            Some(p) => p,
            None => return Err(self.no_comment(todo_id, comment_id)),
        };
        let mut row = self.todos.at(i).copy();
        let ghost was = row@;
        let ghost before = row.todo.comments@;
        assert(row.todo.comments@.len() == was.todo.comments.len());
        let c = TodoComment {
            id: row.todo.comments[k].id,
            author: row.todo.comments[k].author.clone(),
            body,
            created_at: row.todo.comments[k].created_at.clone(),
        };
        row.todo.comments.set(k, c);
        row.todo.updated_at = now.to_owned();
        proof {
            assert(project::sound_todo(self@.todos[i as int]));
            let list = was.todo.comments;
            assert(list == model::comment_views(before));
            let after = list.update(k as int, TodoCommentView { body: body@, ..list[k as int] });
            assert(model::comment_views(row.todo.comments@) =~= after);
            assert(row@ == todos::with_comments(was, after, now@));
            assert forall|a: int, b: int| 0 <= a < b < after.len() implies (#[trigger] after[a]).id
                < (#[trigger] after[b]).id by {
                assert(list[a].id < list[b].id);
            }
            assert forall|a: int| 0 <= a < after.len() implies (#[trigger] after[a]).id
                < was.next_comment_id by {
                assert(list[a].id < was.next_comment_id);
            }
        }
        self.put_todo(i, row);
        Ok(())
    }

    /// Removes a comment.
    pub fn todo_comment_delete(&mut self, todo_id: u64, comment_id: u64, now: &str) -> (r: Result<
        (),
        CoreError,
    >)
        requires
            old(self)@.wf(),
        ensures
            project::settles(
                r,
                todos::comment_removed(old(self)@, todo_id, comment_id, now@),
                old(self)@,
                final(self)@,
            ),
            final(self)@.wf(),
    {
        let (i, k) = match self.find_comment(todo_id, comment_id) {
            Some(p) => p,
            None => return Err(self.no_comment(todo_id, comment_id)),
        };
        let mut row = self.todos.at(i).copy();
        let ghost was = row@;
        let ghost before = row.todo.comments@;
        assert(row.todo.comments@.len() == was.todo.comments.len());
        row.todo.comments.remove(k);
        row.todo.updated_at = now.to_owned();
        proof {
            assert(project::sound_todo(self@.todos[i as int]));
            let list = was.todo.comments;
            let after = list.remove(k as int);
            assert(model::comment_views(row.todo.comments@) =~= after);
            assert(row@ == todos::with_comments(was, after, now@));
            assert forall|a: int, b: int| 0 <= a < b < after.len() implies (#[trigger] after[a]).id
                < (#[trigger] after[b]).id by {
                let x = if a < k {
                    a
                } else {
                    a + 1
                };
                let y = if b < k {
                    b
                } else {
                    b + 1
                };
                assert(after[a] == list[x] && after[b] == list[y]);
            }
            assert forall|a: int| 0 <= a < after.len() implies (#[trigger] after[a]).id
                < was.next_comment_id by {
                let x = if a < k {
                    a
                } else {
                    a + 1
                };
                assert(after[a] == list[x]);
            }
        }
        self.put_todo(i, row);
        Ok(())
    }
}

/// The place of a comment.
fn place_comment(comments: &Vec<TodoComment>, id: u64) -> (r: Option<usize>)
    ensures
        text::opt_index(r) == todos::comment_place(model::comment_views(comments@), id),
        r matches Some(i) ==> i < comments.len(),
{
    let ghost all = model::comment_views(comments@);
    let mut i: usize = 0;
    assert(all.skip(0) =~= all);
    while i < comments.len()
        invariant
            i <= comments.len(),
            all == model::comment_views(comments@),
            todos::comment_place(all, id) == (match todos::comment_place(all.skip(i as int), id) {
                Some(j) => Some(j + i),
                None => None,
            }),
        decreases comments.len() - i,
    {
        assert(all.skip(i as int)[0] == comments@[i as int]@);
        if comments[i].id == id {
            return Some(i);
        }
        assert(all.skip(i as int).drop_first() =~= all.skip(i + 1));
        i += 1;
    }
    None
}

/// Whether a number is among some.
fn holds(ids: &Vec<u64>, id: u64) -> (r: bool)
    ensures
        r == ids@.contains(id),
{
    let mut i: usize = 0;
    while i < ids.len()
        invariant
            i <= ids.len(),
            forall|j: int| 0 <= j < i ==> (#[trigger] ids@[j]) != id,
        decreases ids.len() - i,
    {
        if ids[i] == id {
            assert(ids@[i as int] == id);
            return true;
        }
        i += 1;
    }
    false
}

/// When a todo was completed.
fn complete_at(status: TodoStatus, was: &Option<String>, now: &str) -> (r: Option<String>)
    ensures
        text::opt_text(r) == todos::reconciled(status, text::opt_text(*was), now@),
{
    if status == TodoStatus::Completed {
        match was {
            Some(t) => Some(t.clone()),
            None => Some(now.to_owned()),
        }
    } else {
        None
    }
}

/// Whether a todo answers a search.
fn matches_todo(
    t: &Todo,
    query: Option<&str>,
    status: Option<TodoStatus>,
    priority: Option<Priority>,
    assignee: Option<&str>,
    require_tags: &Vec<String>,
) -> (r: bool)
    ensures
        r == todos::todo_answers(
            t@,
            text::opt_str(query),
            status,
            priority,
            text::opt_str(assignee),
            text::texts(require_tags@),
        ),
{
    if !answers_query(t.id, t.title.as_str(), t.body.as_str(), query) {
        return false;
    }
    if let Some(s) = status {
        if s != t.status {
            return false;
        }
    }
    if let Some(p) = priority {
        if p != t.priority {
            return false;
        }
    }
    if let Some(a) = assignee {
        if !assigned_lowered(
            text::to_lowercase(t.assignee.as_str()).as_str(),
            Some(text::to_lowercase(a).as_str()),
        ) {
            return false;
        }
    }
    holds_tags(&t.tags, require_tags)
}

} // verus!
