//! The todos of a project.

use vstd::prelude::*;
use vstd::string::*;

use crate::error::ErrorView;
use crate::model;
use crate::model::{Priority, TodoCommentView, TodoPatch, TodoStatus, TodoView};
use crate::project;
use crate::project::{ProjectView, TodoRowView};
use crate::table;
use crate::table::Entry;
use crate::text;

verus! {

/// A new todo.
pub open spec fn new_todo(id: u64, title: Seq<char>, now: Seq<char>) -> TodoRowView {
    TodoRowView {
        todo: TodoView {
            id,
            title,
            body: seq![],
            status: TodoStatus::Open,
            priority: Priority::Medium,
            assignee: seq![],
            tags: seq![],
            blockers: seq![],
            comments: seq![],
            created_at: now,
            updated_at: now,
            completed_at: None,
        },
        next_comment_id: 1,
    }
}

/// A project with one todo more.
pub open spec fn todo_added(p: ProjectView, title: Seq<char>, now: Seq<char>) -> ProjectView {
    ProjectView {
        next_id: (p.next_id + 1) as u64,
        todos: table::with_row(p.todos, p.next_id, new_todo(p.next_id, title, now)),
        ..p
    }
}

/// A todo as it is read: of its blockers, those that are there.
pub open spec fn shown_todo(p: ProjectView, r: TodoRowView) -> TodoView {
    TodoView { blockers: r.todo.blockers.filter(|b: u64| table::has_live(p.todos, b)), ..r.todo }
}

/// A todo.
pub open spec fn todo_at(p: ProjectView, id: u64) -> Result<TodoView, ErrorView> {
    match table::live_value(p.todos, id) {
        Some(r) => Ok(shown_todo(p, r)),
        None => Err(ErrorView::TodoNotFound(id)),
    }
}

/// The todos, by id.
pub open spec fn todos_of(p: ProjectView) -> Seq<TodoView> {
    table::live_values(p.todos).map_values(|r: TodoRowView| shown_todo(p, r))
}

/// A project with another value for a todo.
pub open spec fn with_todo(p: ProjectView, i: int, r: TodoRowView) -> ProjectView {
    ProjectView { todos: table::with_value(p.todos, i, r), ..p }
}

/// A project after a change of one todo.
pub open spec fn on_todo(
    p: ProjectView,
    id: u64,
    change: spec_fn(TodoRowView) -> TodoRowView,
) -> Result<ProjectView, ErrorView> {
    match table::live_place(p.todos, id) {
        Some(i) => Ok(with_todo(p, i, change(p.todos[i].value))),
        None => Err(ErrorView::TodoNotFound(id)),
    }
}

/// When a todo was completed: one that is keeps the moment or gets this one,
/// and no other has one.
pub open spec fn reconciled(
    status: TodoStatus,
    was: Option<Seq<char>>,
    now: Seq<char>,
) -> Option<Seq<char>> {
    if status == TodoStatus::Completed {
        match was {
            Some(t) => Some(t),
            None => Some(now),
        }
    } else {
        None
    }
}

/// A todo with another status.
pub open spec fn with_status(r: TodoRowView, status: TodoStatus, now: Seq<char>) -> TodoRowView {
    TodoRowView {
        todo: TodoView {
            status,
            updated_at: now,
            completed_at: reconciled(status, r.todo.completed_at, now),
            ..r.todo
        },
        ..r
    }
}

/// A todo after an edit.
pub open spec fn todo_edited(r: TodoRowView, patch: TodoPatch, now: Seq<char>) -> TodoRowView {
    let status = model::replaced(patch.status, r.todo.status);
    TodoRowView {
        todo: TodoView {
            title: model::edited(patch.title, r.todo.title),
            body: model::edited(patch.body, r.todo.body),
            priority: model::replaced(patch.priority, r.todo.priority),
            assignee: model::edited(patch.assignee, r.todo.assignee),
            tags: model::edited_all(patch.tags, r.todo.tags),
            ..with_status(r, status, now).todo
        },
        ..r
    }
}

/// What is said of a todo that is closed and cannot be started.
pub open spec fn closed_words(id: u64, status: TodoStatus) -> Seq<char> {
    "todo "@ + text::decimal(id as nat) + " is "@ + status.token()
        + " - reopen via todo_update before starting"@
}

/// A project after an agent began to work on a todo. One that is closed has to
/// be opened again first, and one that is being worked on stays as it is.
pub open spec fn todo_started(p: ProjectView, id: u64, now: Seq<char>) -> Result<
    ProjectView,
    ErrorView,
> {
    match table::live_value(p.todos, id) {
        None => Err(ErrorView::TodoNotFound(id)),
        Some(r) => match r.todo.status {
            TodoStatus::InProgress => Ok(p),
            TodoStatus::Completed => Err(
                ErrorView::BadRequest(closed_words(id, TodoStatus::Completed)),
            ),
            TodoStatus::NotDone => Err(
                ErrorView::BadRequest(closed_words(id, TodoStatus::NotDone)),
            ),
            _ => on_todo(
                p,
                id,
                |r: TodoRowView| with_status(r, TodoStatus::InProgress, now),
            ),
        },
    }
}

/// A project after a todo was deleted.
pub open spec fn todo_deleted(p: ProjectView, id: u64, now: Seq<char>) -> Result<
    ProjectView,
    ErrorView,
> {
    match table::live_place(p.todos, id) {
        Some(i) => Ok(ProjectView { todos: table::with_deleted(p.todos, i, now), ..p }),
        None => Err(ErrorView::TodoNotFound(id)),
    }
}

// ---------------------------------------------------------------------------
// Blockers
// ---------------------------------------------------------------------------

/// Ascending numbers with one more, once.
pub open spec fn with_id(ids: Seq<u64>, id: u64) -> Seq<u64>
    decreases ids.len(),
{
    if ids.len() == 0 {
        seq![id]
    } else if ids.last() < id {
        ids.push(id)
    } else if ids.last() == id {
        ids
    } else {
        with_id(ids.drop_last(), id).push(ids.last())
    }
}

/// Ascending numbers with some more.
pub open spec fn with_ids(ids: Seq<u64>, more: Seq<u64>) -> Seq<u64>
    decreases more.len(),
{
    if more.len() == 0 {
        ids
    } else {
        with_id(with_ids(ids, more.drop_last()), more.last())
    }
}

/// Every number but one.
pub open spec fn other_than(id: u64) -> spec_fn(u64) -> bool {
    |b: u64| b != id
}

/// Numbers without one.
pub open spec fn without_id(ids: Seq<u64>, id: u64) -> Seq<u64> {
    ids.filter(other_than(id))
}

/// A todo with other blockers.
pub open spec fn with_blockers(r: TodoRowView, blockers: Seq<u64>, now: Seq<char>) -> TodoRowView {
    TodoRowView { todo: TodoView { blockers, updated_at: now, ..r.todo }, ..r }
}

/// A project after a todo was said to be blocked by another.
pub open spec fn blocker_added(p: ProjectView, id: u64, blocker: u64, now: Seq<char>) -> Result<
    ProjectView,
    ErrorView,
> {
    if id == blocker {
        Err(ErrorView::BadRequest("a todo cannot block itself"@))
    } else if !table::has_live(p.todos, id) {
        Err(ErrorView::TodoNotFound(id))
    } else if !table::has_live(p.todos, blocker) {
        Err(ErrorView::TodoNotFound(blocker))
    } else {
        on_todo(
            p,
            id,
            |r: TodoRowView| with_blockers(r, with_id(r.todo.blockers, blocker), now),
        )
    }
}

/// The first of some todos that is not there.
pub open spec fn first_missing(p: ProjectView, ids: Seq<u64>) -> Option<u64>
    decreases ids.len(),
{
    if ids.len() == 0 {
        None
    } else if !table::has_live(p.todos, ids[0]) {
        Some(ids[0])
    } else {
        first_missing(p, ids.drop_first())
    }
}

/// The blockers of a todo after they were set: those that are there and not
/// asked for go, and those that are asked for come.
pub open spec fn blockers_replaced(p: ProjectView, was: Seq<u64>, wanted: Seq<u64>) -> Seq<u64> {
    with_ids(
        was.filter(|b: u64| !table::has_live(p.todos, b) || wanted.contains(b)),
        wanted,
    )
}

/// A project after the blockers of a todo were set. All are checked before
/// anything changes.
pub open spec fn blockers_set(p: ProjectView, id: u64, wanted: Seq<u64>, now: Seq<char>) -> Result<
    ProjectView,
    ErrorView,
> {
    if wanted.contains(id) {
        Err(ErrorView::BadRequest("a todo cannot block itself"@))
    } else if !table::has_live(p.todos, id) {
        Err(ErrorView::TodoNotFound(id))
    } else if first_missing(p, wanted) is Some {
        Err(ErrorView::TodoNotFound(first_missing(p, wanted)->0))
    } else {
        on_todo(
            p,
            id,
            |r: TodoRowView|
                with_blockers(r, blockers_replaced(p, r.todo.blockers, wanted), now),
        )
    }
}

// ---------------------------------------------------------------------------
// Comments
// ---------------------------------------------------------------------------

/// A todo with one comment more.
pub open spec fn with_comment(
    r: TodoRowView,
    author: Seq<char>,
    body: Seq<char>,
    now: Seq<char>,
) -> TodoRowView {
    TodoRowView {
        todo: TodoView {
            comments: r.todo.comments.push(
                TodoCommentView { id: r.next_comment_id, author, body, created_at: now },
            ),
            updated_at: now,
            ..r.todo
        },
        next_comment_id: (r.next_comment_id + 1) as u64,
    }
}

/// The place of the row of a todo, deleted or not.
pub open spec fn row_place<V>(rows: Seq<Entry<V>>, id: u64) -> Option<int>
    decreases rows.len(),
{
    if rows.len() == 0 {
        None
    } else if rows[0].id == id {
        Some(0int)
    } else {
        match row_place(rows.drop_first(), id) {
            Some(i) => Some(i + 1),
            None => None,
        }
    }
}

/// The place of a comment.
pub open spec fn comment_place(comments: Seq<TodoCommentView>, id: u64) -> Option<int>
    decreases comments.len(),
{
    if comments.len() == 0 {
        None
    } else if comments[0].id == id {
        Some(0int)
    } else {
        match comment_place(comments.drop_first(), id) {
            Some(i) => Some(i + 1),
            None => None,
        }
    }
}

/// Where a comment stands: the row of its todo and its place there. The
/// comments of a deleted todo are still found.
pub open spec fn comment_at(p: ProjectView, todo: u64, comment: u64) -> Option<(int, int)> {
    match row_place(p.todos, todo) {
        Some(i) => match comment_place(p.todos[i].value.todo.comments, comment) {
            Some(k) => Some((i, k)),
            None => None,
        },
        None => None,
    }
}

/// What is wrong where a comment is not found: its todo is not there, or the
/// comment is not.
pub open spec fn comment_missing(p: ProjectView, todo: u64, comment: u64) -> ErrorView {
    if table::has_live(p.todos, todo) {
        ErrorView::TodoCommentNotFound { todo_id: todo, comment_id: comment }
    } else {
        ErrorView::TodoNotFound(todo)
    }
}

/// A todo with other comments.
pub open spec fn with_comments(
    r: TodoRowView,
    comments: Seq<TodoCommentView>,
    now: Seq<char>,
) -> TodoRowView {
    TodoRowView { todo: TodoView { comments, updated_at: now, ..r.todo }, ..r }
}

/// A project after the words of a comment were replaced; who wrote it and when
/// stays.
pub open spec fn comment_edited(
    p: ProjectView,
    todo: u64,
    comment: u64,
    body: Seq<char>,
    now: Seq<char>,
) -> Result<ProjectView, ErrorView> {
    match comment_at(p, todo, comment) {
        Some((i, k)) => {
            let r = p.todos[i].value;
            let c = r.todo.comments;
            Ok(
                with_todo(
                    p,
                    i,
                    with_comments(r, c.update(k, TodoCommentView { body, ..c[k] }), now),
                ),
            )
        },
        None => Err(comment_missing(p, todo, comment)),
    }
}

/// A project after a comment was removed. Its number is not given out again.
pub open spec fn comment_removed(p: ProjectView, todo: u64, comment: u64, now: Seq<char>) -> Result<
    ProjectView,
    ErrorView,
> {
    match comment_at(p, todo, comment) {
        Some((i, k)) => {
            let r = p.todos[i].value;
            Ok(with_todo(p, i, with_comments(r, r.todo.comments.remove(k), now)))
        },
        None => Err(comment_missing(p, todo, comment)),
    }
}

// ---------------------------------------------------------------------------
// Search
// ---------------------------------------------------------------------------

/// The id that a query asks for: a number, with or without a `#`.
pub open spec fn query_id(q: Seq<char>) -> Option<u64> {
    let t = text::trimmed(q);
    match text::after_prefix(t, "#"@) {
        Some(n) => text::u64_of(n),
        None => text::u64_of(t),
    }
}

/// Whether a text holds another, in whatever case.
pub open spec fn holds_in_any_case(s: Seq<char>, q: Seq<char>) -> bool {
    text::find_seq(text::lowercase(s), text::lowercase(q)) is Some
}

/// Whether an item answers a query: its title or its body holds it, or the
/// query is its id.
pub open spec fn answers(id: u64, title: Seq<char>, body: Seq<char>, q: Option<Seq<char>>) -> bool {
    match q {
        None => true,
        Some(q) => holds_in_any_case(title, q) || holds_in_any_case(body, q) || query_id(q) == Some(
            id,
        ),
    }
}

/// Whether every wanted tag is there.
pub open spec fn has_tags(tags: Seq<Seq<char>>, wanted: Seq<Seq<char>>) -> bool {
    forall|i: int| 0 <= i < wanted.len() ==> tags.contains(#[trigger] wanted[i])
}

/// Whether a todo answers a search.
pub open spec fn todo_answers(
    t: TodoView,
    q: Option<Seq<char>>,
    status: Option<TodoStatus>,
    priority: Option<Priority>,
    assignee: Option<Seq<char>>,
    tags: Seq<Seq<char>>,
) -> bool {
    &&& answers(t.id, t.title, t.body, q)
    &&& status is None || status == Some(t.status)
    &&& priority is None || priority == Some(t.priority)
    &&& assignee is None || text::lowercase(t.assignee) == text::lowercase(assignee->0)
    &&& has_tags(t.tags, tags)
}

/// The todos that answer a search, by id.
pub open spec fn todos_found(
    p: ProjectView,
    q: Option<Seq<char>>,
    status: Option<TodoStatus>,
    priority: Option<Priority>,
    assignee: Option<Seq<char>>,
    tags: Seq<Seq<char>>,
) -> Seq<TodoView> {
    todos_of(p).filter(|t: TodoView| todo_answers(t, q, status, priority, assignee, tags))
}

} // verus!
