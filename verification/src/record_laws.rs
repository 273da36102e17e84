//! What becomes of the records of a project: what is read after each operation,
//! what it leaves alone, and when it is refused.

use vstd::prelude::*;
use vstd::string::*;

use crate::error::ErrorView;
use crate::model::{
    AgentToolPatch, AgentToolView, NotePatch, NoteView, Priority, ProcessKind, ProcessPatch,
    ProcessView, TodoCommentView, TodoPatch, TodoStatus, TodoView,
};
use crate::notes;
use crate::picking;
use crate::processes;
use crate::processes::ProcessDraft;
use crate::profile_set::ProfileSet;
use crate::project;
use crate::project::{ProjectView, TodoRowView};
use crate::search_laws;
use crate::sorting;
use crate::table;
use crate::table::Entry;
use crate::text;
use crate::todos;
use crate::tools;
use crate::tools::ToolDraft;

verus! {

// ---------------------------------------------------------------------------
// Rows
// ---------------------------------------------------------------------------

/// The row of an id that was not deleted: there is at most one where ids stand
/// once.
pub open spec fn is_row<V>(rows: Seq<Entry<V>>, i: int, id: u64) -> bool {
    0 <= i < rows.len() && rows[i].id == id && rows[i].deleted_at is None
}

/// Whether no row of an id is left.
pub open spec fn is_missing<V>(rows: Seq<Entry<V>>, id: u64) -> bool {
    forall|k: int| !is_row(rows, k, id)
}

/// Where ids stand in order, the row of an id is the one that is found.
pub proof fn lemma_row<V>(rows: Seq<Entry<V>>, next: u64, id: u64, i: int)
    requires
        project::in_order(rows, next),
    ensures
        is_row(rows, i, id) ==> table::live_place(rows, id) == Some(i) && table::live_value(rows, id)
            == Some(rows[i].value),
        is_missing(rows, id) ==> table::live_place(rows, id) is None,
        table::live_place(rows, id) matches Some(k) ==> is_row(rows, k, id),
{
    search_laws::law_live_value_is_the_first_not_deleted(rows, id);
    if is_row(rows, i, id) {
        if let Some(k) = table::live_place(rows, id) {
            if k < i {
                assert(rows[k].id < rows[i].id);
            }
            if i < k {
                assert(rows[i].id < rows[k].id);
            }
        }
    }
    if let Some(k) = table::live_place(rows, id) {
        assert(is_row(rows, k, id));
    }
}

// ---------------------------------------------------------------------------
// Todos
// ---------------------------------------------------------------------------

/// A new todo has the next number and the title that it was given; it is open, of
/// medium priority, and has nothing else. No other record changes.
pub proof fn law_new_todo(p: ProjectView, title: Seq<char>, now: Seq<char>)
    requires
        p.wf(),
        p.has_room(),
    ensures
        ({
            let after = todos::todo_added(p, title, now);
            let n = p.todos.len() as int;
            &&& after == (ProjectView {
                next_id: (p.next_id + 1) as u64,
                todos: after.todos,
                ..p
            })
            &&& after.todos.len() == n + 1
            &&& after.todos.take(n) == p.todos
            &&& after.todos[n].id == p.next_id
            &&& after.todos[n].deleted_at is None
            &&& after.todos[n].value.next_comment_id == 1
            &&& after.todos[n].value.todo == (TodoView {
                id: p.next_id,
                title,
                body: seq![],
                status: TodoStatus::Open,
                priority: Priority::Medium,
                assignee: seq![],
                tags: seq![],
                blockers: seq![],
                comments: seq![],
                created_at: now,
                updated_at: now,
                completed_at: None,
            })
        }),
{
    let after = todos::todo_added(p, title, now);
    assert(after.todos.take(p.todos.len() as int) =~= p.todos);
}

/// Whether a project is another one in which one row of a todo has changed, and
/// nothing else.
pub open spec fn only_todo_changed(p: ProjectView, after: ProjectView, i: int) -> bool {
    &&& after == (ProjectView { todos: after.todos, ..p })
    &&& after.todos.len() == p.todos.len()
    &&& forall|k: int|
        0 <= k < p.todos.len() && k != i ==> #[trigger] after.todos[k] == p.todos[k]
    &&& after.todos[i].id == p.todos[i].id
    &&& after.todos[i].deleted_at == p.todos[i].deleted_at
}

/// A change of a todo changes the row with its id that was not deleted, and
/// nothing else; it is refused where there is none.
proof fn lemma_on_todo(
    p: ProjectView,
    id: u64,
    change: spec_fn(TodoRowView) -> TodoRowView,
    i: int,
)
    requires
        p.wf(),
    ensures
        is_row(p.todos, i, id) ==> {
            let r = todos::on_todo(p, id, change);
            &&& r is Ok
            &&& only_todo_changed(p, r->Ok_0, i)
            &&& r->Ok_0.todos[i].value == change(p.todos[i].value)
        },
        is_missing(p.todos, id) ==> todos::on_todo(p, id, change) == Err::<
            ProjectView,
            ErrorView,
        >(ErrorView::TodoNotFound(id)),
{
    lemma_row(p.todos, p.next_id, id, i);
}

/// A todo that is completed has the status and the moment of that; one that was
/// completed before keeps its moment. All else of it stays.
pub proof fn law_completing(p: ProjectView, id: u64, now: Seq<char>, i: int)
    requires
        p.wf(),
        is_row(p.todos, i, id),
    ensures
        ({
            let r = todos::on_todo(
                p,
                id,
                |t: TodoRowView| todos::with_status(t, TodoStatus::Completed, now),
            );
            let was = p.todos[i].value;
            &&& r is Ok
            &&& only_todo_changed(p, r->Ok_0, i)
            &&& r->Ok_0.todos[i].value == (TodoRowView {
                todo: TodoView {
                    status: TodoStatus::Completed,
                    updated_at: now,
                    completed_at: if was.todo.completed_at is Some {
                        was.todo.completed_at
                    } else {
                        Some(now)
                    },
                    ..was.todo
                },
                ..was
            })
        }),
{
    lemma_on_todo(
        p,
        id,
        |t: TodoRowView| todos::with_status(t, TodoStatus::Completed, now),
        i,
    );
}

/// A todo is started where it is open, planned or a draft; then it is in progress
/// and no longer has a moment of completion. One in progress is left as it is. One
/// that was closed is refused.
pub proof fn law_starting(p: ProjectView, id: u64, now: Seq<char>, i: int)
    requires
        p.wf(),
        is_row(p.todos, i, id),
    ensures
        ({
            let r = todos::todo_started(p, id, now);
            let was = p.todos[i].value;
            match was.todo.status {
                TodoStatus::Completed | TodoStatus::NotDone => r is Err
                    && r->Err_0 is BadRequest,
                TodoStatus::InProgress => r == Ok::<ProjectView, ErrorView>(p),
                TodoStatus::Open | TodoStatus::Backlog | TodoStatus::Draft => {
                    &&& r is Ok
                    &&& only_todo_changed(p, r->Ok_0, i)
                    &&& r->Ok_0.todos[i].value == (TodoRowView {
                        todo: TodoView {
                            status: TodoStatus::InProgress,
                            updated_at: now,
                            completed_at: None,
                            ..was.todo
                        },
                        ..was
                    })
                },
            }
        }),
{
    lemma_row(p.todos, p.next_id, id, i);
    lemma_on_todo(
        p,
        id,
        |t: TodoRowView| todos::with_status(t, TodoStatus::InProgress, now),
        i,
    );
}

/// An edit writes each field that it gives and leaves each that it does not give;
/// the moment of completion is kept, set or dropped to match the status.
pub proof fn law_editing_a_todo(p: ProjectView, id: u64, patch: TodoPatch, now: Seq<char>, i: int)
    requires
        p.wf(),
        is_row(p.todos, i, id),
    ensures
        ({
            let r = todos::on_todo(p, id, |t: TodoRowView| todos::todo_edited(t, patch, now));
            let was = p.todos[i].value.todo;
            let t = r->Ok_0.todos[i].value.todo;
            &&& r is Ok
            &&& only_todo_changed(p, r->Ok_0, i)
            &&& r->Ok_0.todos[i].value.next_comment_id == p.todos[i].value.next_comment_id
            &&& t.title == (if patch.title is Some {
                patch.title->0@
            } else {
                was.title
            })
            &&& t.body == (if patch.body is Some {
                patch.body->0@
            } else {
                was.body
            })
            &&& t.status == (if patch.status is Some {
                patch.status->0
            } else {
                was.status
            })
            &&& t.priority == (if patch.priority is Some {
                patch.priority->0
            } else {
                was.priority
            })
            &&& t.assignee == (if patch.assignee is Some {
                patch.assignee->0@
            } else {
                was.assignee
            })
            &&& t.tags == (if patch.tags is Some {
                patch.tags->0@.map_values(|s: String| s@)
            } else {
                was.tags
            })
            &&& t.updated_at == now
            &&& t.completed_at == (if t.status != TodoStatus::Completed {
                None
            } else if was.completed_at is Some {
                was.completed_at
            } else {
                Some(now)
            })
            &&& t.id == was.id && t.blockers == was.blockers && t.comments == was.comments
                && t.created_at == was.created_at
        }),
{
    lemma_on_todo(p, id, |t: TodoRowView| todos::todo_edited(t, patch, now), i);
}

/// A todo that is not there, or was deleted, cannot be changed.
pub proof fn law_missing_todo_is_refused(
    p: ProjectView,
    id: u64,
    other: u64,
    now: Seq<char>,
    wanted: Seq<u64>,
    patch: TodoPatch,
)
    requires
        p.wf(),
        is_missing(p.todos, id),
        other != id,
        !wanted.contains(id),
    ensures
        ({
            let refused = Err::<ProjectView, ErrorView>(ErrorView::TodoNotFound(id));
            &&& todos::on_todo(p, id, |t: TodoRowView| todos::todo_edited(t, patch, now)) == refused
            &&& todos::todo_started(p, id, now) == refused
            &&& todos::todo_deleted(p, id, now) == refused
            &&& todos::blocker_added(p, id, other, now) == refused
            &&& todos::blockers_set(p, id, wanted, now) == refused
            &&& todos::todo_at(p, id) == Err::<TodoView, ErrorView>(ErrorView::TodoNotFound(id))
        }),
{
    lemma_row(p.todos, p.next_id, id, 0);
}

/// A deleted todo stays behind with the moment of its deletion; no other row
/// changes, and its number is not given again.
pub proof fn law_deleting_a_todo(p: ProjectView, id: u64, now: Seq<char>, i: int)
    requires
        p.wf(),
        is_row(p.todos, i, id),
    ensures
        ({
            let r = todos::todo_deleted(p, id, now);
            &&& r is Ok
            &&& r->Ok_0 == (ProjectView { todos: r->Ok_0.todos, ..p })
            &&& r->Ok_0.todos.len() == p.todos.len()
            &&& r->Ok_0.todos[i] == (Entry { deleted_at: Some(now), ..p.todos[i] })
            &&& forall|k: int|
                0 <= k < p.todos.len() && k != i ==> #[trigger] r->Ok_0.todos[k] == p.todos[k]
        }),
{
    lemma_row(p.todos, p.next_id, id, i);
}

/// A blocker is recorded beside those that there are; a todo does not block
/// itself, and both must be there.
pub proof fn law_adding_a_blocker(
    p: ProjectView,
    id: u64,
    blocker: u64,
    now: Seq<char>,
    i: int,
    k: int,
)
    requires
        p.wf(),
    ensures
        id == blocker ==> todos::blocker_added(p, id, blocker, now) is Err
            && todos::blocker_added(p, id, blocker, now)->Err_0 is BadRequest,
        is_row(p.todos, i, id) && is_row(p.todos, k, blocker) && id != blocker ==> {
            let r = todos::blocker_added(p, id, blocker, now);
            let was = p.todos[i].value.todo;
            &&& r is Ok
            &&& only_todo_changed(p, r->Ok_0, i)
            &&& r->Ok_0.todos[i].value.todo == (TodoView {
                blockers: r->Ok_0.todos[i].value.todo.blockers,
                updated_at: now,
                ..was
            })
            &&& project::ascending(r->Ok_0.todos[i].value.todo.blockers)
            &&& forall|b: u64| #[trigger]
                r->Ok_0.todos[i].value.todo.blockers.contains(b) <==> was.blockers.contains(b) || b
                    == blocker
        },
        is_row(p.todos, i, id) && id != blocker && is_missing(p.todos, blocker)
            ==> todos::blocker_added(p, id, blocker, now) == Err::<ProjectView, ErrorView>(
            ErrorView::TodoNotFound(blocker),
        ),
{
    lemma_row(p.todos, p.next_id, id, i);
    lemma_row(p.todos, p.next_id, blocker, k);
    if is_row(p.todos, i, id) {
        lemma_on_todo(
            p,
            id,
            |r: TodoRowView|
                todos::with_blockers(r, todos::with_id(r.todo.blockers, blocker), now),
            i,
        );
        assert(project::sound_todo(p.todos[i]));
        lemma_with_id(p.todos[i].value.todo.blockers, blocker);
    }
}

/// A number put among others that ascend.
proof fn lemma_with_id(ids: Seq<u64>, id: u64)
    requires
        project::ascending(ids),
    ensures
        project::ascending(todos::with_id(ids, id)),
        forall|b: u64| #[trigger] todos::with_id(ids, id).contains(b) <==> ids.contains(b) || b == id,
    decreases ids.len(),
{
    if ids.len() == 0 {
        assert(todos::with_id(ids, id)[0] == id);
    } else if ids.last() < id {
        assert forall|b: u64| #[trigger] todos::with_id(ids, id).contains(b) <==> ids.contains(b)
            || b == id by {
            picking::lemma_push_holds(ids, id, b);
        }
        assert forall|i: int, j: int| 0 <= i < j < ids.push(id).len() implies (
        #[trigger] ids.push(id)[i]) < (#[trigger] ids.push(id)[j]) by {
            if j == ids.len() && i < ids.len() - 1 {
                assert(ids[i] < ids[ids.len() - 1]);
            }
        }
    } else if ids.last() == id {
        assert(ids[ids.len() - 1] == id);
    } else {
        let front = ids.drop_last();
        let last = ids.last();
        assert forall|i: int, j: int| 0 <= i < j < front.len() implies (#[trigger] front[i]) < (
        #[trigger] front[j]) by {
            assert(ids[i] < ids[j]);
        }
        lemma_with_id(front, id);
        let mid = todos::with_id(front, id);
        let out = mid.push(last);
        assert forall|i: int, j: int| 0 <= i < j < out.len() implies (#[trigger] out[i]) < (
        #[trigger] out[j]) by {
            if j == mid.len() {
                assert(mid.contains(mid[i]));
                if mid[i] != id {
                    let k = choose|k: int| 0 <= k < front.len() && front[k] == mid[i];
                    assert(ids[k] < ids[ids.len() - 1]);
                }
            }
        }
        assert forall|b: u64| #[trigger] out.contains(b) <==> ids.contains(b) || b == id by {
            picking::lemma_push_holds(mid, last, b);
            picking::lemma_push_holds(front, last, b);
            assert(front.push(last) =~= ids);
            let _ = mid.contains(b);
        }
    }
}

/// A blocker that is taken away is no longer recorded; the others stay, and taking
/// away what was not recorded changes nothing of them.
pub proof fn law_removing_a_blocker(
    p: ProjectView,
    id: u64,
    blocker: u64,
    now: Seq<char>,
    i: int,
)
    requires
        p.wf(),
        is_row(p.todos, i, id),
    ensures
        ({
            let r = todos::on_todo(
                p,
                id,
                |t: TodoRowView|
                    todos::with_blockers(t, todos::without_id(t.todo.blockers, blocker), now),
            );
            let was = p.todos[i].value.todo;
            &&& r is Ok
            &&& only_todo_changed(p, r->Ok_0, i)
            &&& r->Ok_0.todos[i].value.todo == (TodoView {
                blockers: r->Ok_0.todos[i].value.todo.blockers,
                updated_at: now,
                ..was
            })
            &&& forall|b: u64| #[trigger]
                r->Ok_0.todos[i].value.todo.blockers.contains(b) <==> was.blockers.contains(b) && b
                    != blocker
        }),
{
    lemma_on_todo(
        p,
        id,
        |t: TodoRowView|
            todos::with_blockers(t, todos::without_id(t.todo.blockers, blocker), now),
        i,
    );
    let was = p.todos[i].value.todo.blockers;
    let keep = todos::other_than(blocker);
    let at = picking::lemma_filter_places(was, keep);
    let out = was.filter(keep);
    assert forall|b: u64| #[trigger] out.contains(b) <==> was.contains(b) && b != blocker by {
        if out.contains(b) {
            let x = choose|x: int| 0 <= x < out.len() && out[x] == b;
            assert(at.contains(at[x]));
            assert(was[at[x]] == b);
        }
        if was.contains(b) && b != blocker {
            let y = choose|y: int| 0 <= y < was.len() && was[y] == b;
            assert(at.contains(y));
            let x = choose|x: int| 0 <= x < at.len() && at[x] == y;
            assert(out[x] == b);
        }
    }
}

/// A todo is there where a row of it is left.
proof fn lemma_is_there(p: ProjectView, b: u64)
    requires
        p.wf(),
    ensures
        table::has_live(p.todos, b) <==> !is_missing(p.todos, b),
{
    lemma_row(p.todos, p.next_id, b, 0);
    if !is_missing(p.todos, b) {
        let j = choose|j: int| is_row(p.todos, j, b);
        lemma_row(p.todos, p.next_id, b, j);
    }
}

/// Blockers are set as a whole where all of them are there and the todo is not
/// among them; then those of them that are there are exactly the ones asked for, and
/// what is recorded of others that are gone stays. Otherwise nothing is changed, and
/// the first that is missing is named.
pub proof fn law_setting_blockers(
    p: ProjectView,
    id: u64,
    wanted: Seq<u64>,
    now: Seq<char>,
    i: int,
    first: int,
)
    requires
        p.wf(),
        is_row(p.todos, i, id),
    ensures
        wanted.contains(id) ==> todos::blockers_set(p, id, wanted, now) is Err
            && todos::blockers_set(p, id, wanted, now)->Err_0 is BadRequest,
        !wanted.contains(id) && 0 <= first < wanted.len() && is_missing(p.todos, wanted[first]) && (
        forall|w: int| 0 <= w < first ==> !is_missing(p.todos, #[trigger] wanted[w]))
            ==> todos::blockers_set(p, id, wanted, now) == Err::<ProjectView, ErrorView>(
            ErrorView::TodoNotFound(wanted[first]),
        ),
        !wanted.contains(id) && (forall|w: int|
            0 <= w < wanted.len() ==> !is_missing(p.todos, #[trigger] wanted[w])) ==> {
            let r = todos::blockers_set(p, id, wanted, now);
            &&& r is Ok
            &&& only_todo_changed(p, r->Ok_0, i)
            &&& r->Ok_0.todos[i].value.todo == (TodoView {
                blockers: r->Ok_0.todos[i].value.todo.blockers,
                updated_at: now,
                ..p.todos[i].value.todo
            })
            &&& project::ascending(r->Ok_0.todos[i].value.todo.blockers)
            &&& forall|b: u64|
                !is_missing(p.todos, b) ==> (
                #[trigger] r->Ok_0.todos[i].value.todo.blockers.contains(b) <==> wanted.contains(b))
            &&& forall|b: u64|
                is_missing(p.todos, b) ==> (
                #[trigger] r->Ok_0.todos[i].value.todo.blockers.contains(b)
                    <==> p.todos[i].value.todo.blockers.contains(b))
        },
{
    lemma_row(p.todos, p.next_id, id, i);
    lemma_on_todo(
        p,
        id,
        |r: TodoRowView|
            todos::with_blockers(
                r,
                todos::blockers_replaced(p, r.todo.blockers, wanted),
                now,
            ),
        i,
    );
    lemma_first_missing(p, wanted);
    lemma_missing_first(p, wanted, first);
    assert forall|b: u64| #[trigger] table::has_live(p.todos, b) <==> !is_missing(p.todos, b) by {
        lemma_is_there(p, b);
    }
    assert forall|w: int| 0 <= w < wanted.len() implies (#[trigger] is_missing(p.todos, wanted[w])
        <==> !table::has_live(p.todos, wanted[w])) by {
        assert(table::has_live(p.todos, wanted[w]) || true);
    }
    let was = p.todos[i].value.todo.blockers;
    assert(project::sound_todo(p.todos[i]));
    let keep = |b: u64| !table::has_live(p.todos, b) || wanted.contains(b);
    let kept = was.filter(keep);
    let at = picking::lemma_filter_places(was, keep);
    assert forall|x: int, y: int| 0 <= x < y < kept.len() implies (#[trigger] kept[x]) < (
    #[trigger] kept[y]) by {
        assert(at[x] < at[y]);
        assert(was[at[x]] < was[at[y]]);
    }
    lemma_with_ids(kept, wanted);
    let out = todos::blockers_replaced(p, was, wanted);
    assert forall|b: u64| !is_missing(p.todos, b) implies (#[trigger] out.contains(b)
        <==> wanted.contains(b)) by {
        assert(table::has_live(p.todos, b));
        if kept.contains(b) {
            let x = choose|x: int| 0 <= x < kept.len() && kept[x] == b;
            assert(at.contains(at[x]));
        }
    }
    if !wanted.contains(id) && (forall|w: int|
        0 <= w < wanted.len() ==> !is_missing(p.todos, #[trigger] wanted[w])) {
        assert forall|b: u64| is_missing(p.todos, b) implies (#[trigger] out.contains(b)
            <==> was.contains(b)) by {
            assert(!table::has_live(p.todos, b));
            if wanted.contains(b) {
                let w = choose|w: int| 0 <= w < wanted.len() && wanted[w] == b;
                assert(!is_missing(p.todos, wanted[w]));
            }
            if kept.contains(b) {
                let x = choose|x: int| 0 <= x < kept.len() && kept[x] == b;
                assert(was[at[x]] == b);
            }
            if was.contains(b) {
                let y = choose|y: int| 0 <= y < was.len() && was[y] == b;
                assert(at.contains(y));
                let x = choose|x: int| 0 <= x < at.len() && at[x] == y;
                assert(kept[x] == b);
            }
        }
    }
}

/// The first number that is missing is the one that is found.
proof fn lemma_missing_first(p: ProjectView, ids: Seq<u64>, first: int)
    requires
        p.wf(),
    ensures
        0 <= first < ids.len() && is_missing(p.todos, ids[first]) && (forall|w: int|
            0 <= w < first ==> !is_missing(p.todos, #[trigger] ids[w])) ==> todos::first_missing(
            p,
            ids,
        ) == Some(ids[first]),
    decreases ids.len(),
{
    if 0 <= first < ids.len() && is_missing(p.todos, ids[first]) && (forall|w: int|
        0 <= w < first ==> !is_missing(p.todos, #[trigger] ids[w])) {
        lemma_is_there(p, ids[0]);
        if first > 0 {
            let rest = ids.drop_first();
            assert(!is_missing(p.todos, ids[0]));
            assert(rest[first - 1] == ids[first]);
            assert forall|w: int| 0 <= w < first - 1 implies !is_missing(
                p.todos,
                #[trigger] rest[w],
            ) by {
                assert(ids[w + 1] == rest[w]);
            }
            lemma_missing_first(p, rest, first - 1);
        }
    }
}

/// Where a number is missing, one that is missing is found.
proof fn lemma_first_missing(p: ProjectView, ids: Seq<u64>)
    ensures
        todos::first_missing(p, ids) is Some <==> exists|i: int|
            0 <= i < ids.len() && !table::has_live(p.todos, #[trigger] ids[i]),
    decreases ids.len(),
{
    if ids.len() > 0 {
        let rest = ids.drop_first();
        lemma_first_missing(p, rest);
        if exists|i: int| 0 <= i < ids.len() && !table::has_live(p.todos, #[trigger] ids[i]) {
            let i = choose|i: int| 0 <= i < ids.len() && !table::has_live(p.todos, #[trigger] ids[i]);
            if i > 0 {
                assert(rest[i - 1] == ids[i]);
            }
        }
        if todos::first_missing(p, rest) is Some {
            let i = choose|i: int|
                0 <= i < rest.len() && !table::has_live(p.todos, #[trigger] rest[i]);
            assert(ids[i + 1] == rest[i]);
        }
        assert(ids[0] == ids[0]);
    }
}

/// Numbers put among others that ascend.
proof fn lemma_with_ids(ids: Seq<u64>, more: Seq<u64>)
    requires
        project::ascending(ids),
    ensures
        project::ascending(todos::with_ids(ids, more)),
        forall|b: u64| #[trigger]
            todos::with_ids(ids, more).contains(b) <==> ids.contains(b) || more.contains(b),
    decreases more.len(),
{
    if more.len() > 0 {
        let front = more.drop_last();
        lemma_with_ids(ids, front);
        let mid = todos::with_ids(ids, front);
        lemma_with_id(mid, more.last());
        assert forall|b: u64| #[trigger] todos::with_ids(ids, more).contains(b) <==> ids.contains(b)
            || more.contains(b) by {
            picking::lemma_push_holds(front, more.last(), b);
            assert(front.push(more.last()) =~= more);
            let _ = mid.contains(b);
        }
    }
}

/// A comment comes behind the others, under the next number of the todo, with its
/// author, its words and its moment.
pub proof fn law_commenting(
    p: ProjectView,
    id: u64,
    author: Seq<char>,
    body: Seq<char>,
    now: Seq<char>,
    i: int,
)
    requires
        p.wf(),
        is_row(p.todos, i, id),
        p.todos[i].value.next_comment_id < u64::MAX,
    ensures
        ({
            let r = todos::on_todo(
                p,
                id,
                |t: TodoRowView| todos::with_comment(t, author, body, now),
            );
            let was = p.todos[i].value;
            let n = was.todo.comments.len() as int;
            let t = r->Ok_0.todos[i].value;
            &&& r is Ok
            &&& only_todo_changed(p, r->Ok_0, i)
            &&& t.next_comment_id == was.next_comment_id + 1
            &&& t.todo == (TodoView { comments: t.todo.comments, updated_at: now, ..was.todo })
            &&& t.todo.comments.len() == n + 1
            &&& t.todo.comments.take(n) == was.todo.comments
            &&& t.todo.comments[n] == (TodoCommentView {
                id: was.next_comment_id,
                author,
                body,
                created_at: now,
            })
        }),
{
    lemma_on_todo(p, id, |t: TodoRowView| todos::with_comment(t, author, body, now), i);
    let was = p.todos[i].value.todo.comments;
    assert(todos::with_comment(p.todos[i].value, author, body, now).todo.comments.take(
        was.len() as int,
    ) =~= was);
}

/// The place of a comment and of its todo, deleted or not.
proof fn lemma_comment_at(p: ProjectView, todo: u64, comment: u64, i: int, k: int)
    requires
        p.wf(),
    ensures
        0 <= i < p.todos.len() && p.todos[i].id == todo && 0 <= k
            < p.todos[i].value.todo.comments.len() && p.todos[i].value.todo.comments[k].id
            == comment ==> todos::comment_at(p, todo, comment) == Some((i, k)),
{
    if 0 <= i < p.todos.len() && p.todos[i].id == todo && 0 <= k
        < p.todos[i].value.todo.comments.len() && p.todos[i].value.todo.comments[k].id == comment {
        lemma_row_place(p.todos, todo, i, p.next_id);
        assert(project::sound_todo(p.todos[i]));
        lemma_comment_place(p.todos[i].value.todo.comments, comment, k);
    }
}

/// Where ids ascend, the row of an id is found.
proof fn lemma_row_place<V>(rows: Seq<Entry<V>>, id: u64, i: int, next: u64)
    requires
        project::in_order(rows, next),
        0 <= i < rows.len(),
        rows[i].id == id,
    ensures
        todos::row_place(rows, id) == Some(i),
    decreases rows.len(),
{
    if i > 0 {
        assert(rows[0].id < rows[i].id);
        let rest = rows.drop_first();
        assert forall|a: int, b: int| 0 <= a < b < rest.len() implies (#[trigger] rest[a]).id < (
        #[trigger] rest[b]).id by {
            assert(rows[a + 1].id < rows[b + 1].id);
        }
        assert forall|a: int| 0 <= a < rest.len() implies (#[trigger] rest[a]).id < next by {
            assert(rows[a + 1].id < next);
        }
        lemma_row_place(rest, id, i - 1, next);
    }
}

/// Where numbers ascend, the comment of a number is found.
proof fn lemma_comment_place(comments: Seq<TodoCommentView>, id: u64, k: int)
    requires
        forall|a: int, b: int|
            0 <= a < b < comments.len() ==> (#[trigger] comments[a]).id < (#[trigger] comments[b]).id,
        0 <= k < comments.len(),
        comments[k].id == id,
    ensures
        todos::comment_place(comments, id) == Some(k),
    decreases comments.len(),
{
    if k > 0 {
        assert(comments[0].id < comments[k].id);
        let rest = comments.drop_first();
        assert forall|a: int, b: int| 0 <= a < b < rest.len() implies (#[trigger] rest[a]).id < (
        #[trigger] rest[b]).id by {
            assert(comments[a + 1].id < comments[b + 1].id);
        }
        lemma_comment_place(rest, id, k - 1);
    }
}

/// Editing a comment replaces its words; its number, its author and its moment
/// stay, and so do the other comments.
pub proof fn law_editing_a_comment(
    p: ProjectView,
    todo: u64,
    comment: u64,
    body: Seq<char>,
    now: Seq<char>,
    i: int,
    k: int,
)
    requires
        p.wf(),
        0 <= i < p.todos.len(),
        p.todos[i].id == todo,
        0 <= k < p.todos[i].value.todo.comments.len(),
        p.todos[i].value.todo.comments[k].id == comment,
    ensures
        ({
            let r = todos::comment_edited(p, todo, comment, body, now);
            let was = p.todos[i].value;
            let t = r->Ok_0.todos[i].value;
            &&& r is Ok
            &&& only_todo_changed(p, r->Ok_0, i)
            &&& t.next_comment_id == was.next_comment_id
            &&& t.todo == (TodoView { comments: t.todo.comments, updated_at: now, ..was.todo })
            &&& t.todo.comments.len() == was.todo.comments.len()
            &&& t.todo.comments[k] == (TodoCommentView { body, ..was.todo.comments[k] })
            &&& forall|j: int|
                0 <= j < was.todo.comments.len() && j != k ==> #[trigger] t.todo.comments[j]
                    == was.todo.comments[j]
        }),
{
    lemma_comment_at(p, todo, comment, i, k);
}

/// Deleting a comment takes it away and leaves the others; its number is not given
/// again.
pub proof fn law_deleting_a_comment(
    p: ProjectView,
    todo: u64,
    comment: u64,
    now: Seq<char>,
    i: int,
    k: int,
)
    requires
        p.wf(),
        0 <= i < p.todos.len(),
        p.todos[i].id == todo,
        0 <= k < p.todos[i].value.todo.comments.len(),
        p.todos[i].value.todo.comments[k].id == comment,
    ensures
        ({
            let r = todos::comment_removed(p, todo, comment, now);
            let was = p.todos[i].value;
            let t = r->Ok_0.todos[i].value;
            &&& r is Ok
            &&& only_todo_changed(p, r->Ok_0, i)
            &&& t.next_comment_id == was.next_comment_id
            &&& t.todo == (TodoView { comments: t.todo.comments, updated_at: now, ..was.todo })
            &&& t.todo.comments.len() == was.todo.comments.len() - 1
            &&& forall|j: int|
                0 <= j < k ==> #[trigger] t.todo.comments[j] == was.todo.comments[j]
            &&& forall|j: int|
                k <= j < t.todo.comments.len() ==> #[trigger] t.todo.comments[j]
                    == was.todo.comments[j + 1]
        }),
{
    lemma_comment_at(p, todo, comment, i, k);
}

/// A comment that is not there cannot be changed or deleted; the error names the
/// comment, or the todo where that is not there either.
pub proof fn law_missing_comment_is_refused(
    p: ProjectView,
    todo: u64,
    comment: u64,
    body: Seq<char>,
    now: Seq<char>,
)
    requires
        p.wf(),
        forall|i: int, k: int|
            0 <= i < p.todos.len() && p.todos[i].id == todo && 0 <= k
                < p.todos[i].value.todo.comments.len() ==> (
            #[trigger] p.todos[i].value.todo.comments[k]).id != comment,
    ensures
        ({
            let e = if is_missing(p.todos, todo) {
                ErrorView::TodoNotFound(todo)
            } else {
                ErrorView::TodoCommentNotFound { todo_id: todo, comment_id: comment }
            };
            &&& todos::comment_edited(p, todo, comment, body, now) == Err::<ProjectView, ErrorView>(e)
            &&& todos::comment_removed(p, todo, comment, now) == Err::<ProjectView, ErrorView>(e)
        }),
{
    lemma_is_there(p, todo);
    lemma_place_is_that_of_the_row(p.todos, todo);
    if let Some(i) = todos::row_place(p.todos, todo) {
        lemma_place_is_that_of_the_comment(p.todos[i].value.todo.comments, comment);
        if let Some(k) = todos::comment_place(p.todos[i].value.todo.comments, comment) {
            assert(p.todos[i].value.todo.comments[k].id != comment);
        }
    }
}

/// A place that is found is that of a row with the id.
proof fn lemma_place_is_that_of_the_row<V>(rows: Seq<Entry<V>>, id: u64)
    ensures
        todos::row_place(rows, id) matches Some(i) ==> 0 <= i < rows.len() && rows[i].id == id,
    decreases rows.len(),
{
    if rows.len() > 0 && rows[0].id != id {
        lemma_place_is_that_of_the_row(rows.drop_first(), id);
    }
}

/// A place that is found is that of a comment with the number.
proof fn lemma_place_is_that_of_the_comment(comments: Seq<TodoCommentView>, id: u64)
    ensures
        todos::comment_place(comments, id) matches Some(k) ==> 0 <= k < comments.len()
            && comments[k].id == id,
    decreases comments.len(),
{
    if comments.len() > 0 && comments[0].id != id {
        lemma_place_is_that_of_the_comment(comments.drop_first(), id);
    }
}

// ---------------------------------------------------------------------------
// Notes
// ---------------------------------------------------------------------------

/// Whether a project is another one in which one note has changed, and nothing
/// else.
pub open spec fn only_note_changed(p: ProjectView, after: ProjectView, i: int) -> bool {
    &&& after == (ProjectView { notes: after.notes, ..p })
    &&& after.notes.len() == p.notes.len()
    &&& forall|k: int|
        0 <= k < p.notes.len() && k != i ==> #[trigger] after.notes[k] == p.notes[k]
    &&& after.notes[i].id == p.notes[i].id
    &&& after.notes[i].deleted_at == p.notes[i].deleted_at
}

/// A new note has the next number and its title, and is empty.
pub proof fn law_new_note(p: ProjectView, title: Seq<char>, now: Seq<char>)
    requires
        p.wf(),
        p.has_room(),
    ensures
        ({
            let after = notes::note_added(p, title, now);
            let n = p.notes.len() as int;
            &&& after == (ProjectView {
                next_id: (p.next_id + 1) as u64,
                notes: after.notes,
                ..p
            })
            &&& after.notes.len() == n + 1
            &&& after.notes.take(n) == p.notes
            &&& after.notes[n] == (Entry {
                id: p.next_id,
                deleted_at: None,
                value: NoteView {
                    id: p.next_id,
                    title,
                    body: seq![],
                    tags: seq![],
                    created_at: now,
                    updated_at: now,
                },
            })
        }),
{
    assert(notes::note_added(p, title, now).notes.take(p.notes.len() as int) =~= p.notes);
}

/// Appending to a note puts the text on a line of its own behind what there is,
/// and changes nothing else but the moment.
pub proof fn law_appending_to_a_note(
    p: ProjectView,
    id: u64,
    content: Seq<char>,
    now: Seq<char>,
    i: int,
)
    requires
        p.wf(),
        is_row(p.notes, i, id),
    ensures
        ({
            let r = notes::on_note(p, id, |n: NoteView| notes::note_grown(n, content, now));
            let was = p.notes[i].value;
            let n = r->Ok_0.notes[i].value;
            &&& r is Ok
            &&& only_note_changed(p, r->Ok_0, i)
            &&& n == (NoteView { body: n.body, updated_at: now, ..was })
            &&& was.body.len() == 0 ==> n.body == content
            &&& was.body.len() > 0 && was.body.last() == '\n' ==> n.body == was.body + content
            &&& was.body.len() > 0 && was.body.last() != '\n' ==> n.body == was.body + seq!['\n']
                + content
        }),
{
    lemma_row(p.notes, p.next_id, id, i);
    let was = p.notes[i].value.body;
    assert(was.push('\n') =~= was + seq!['\n']);
    if was.len() == 0 {
        assert(was + content =~= content);
    }
}

/// An edit of a note writes each field that it gives and leaves the others.
pub proof fn law_editing_a_note(p: ProjectView, id: u64, patch: NotePatch, now: Seq<char>, i: int)
    requires
        p.wf(),
        is_row(p.notes, i, id),
    ensures
        ({
            let r = notes::on_note(p, id, |n: NoteView| notes::note_edited(n, patch, now));
            let was = p.notes[i].value;
            let n = r->Ok_0.notes[i].value;
            &&& r is Ok
            &&& only_note_changed(p, r->Ok_0, i)
            &&& n.id == was.id && n.created_at == was.created_at && n.updated_at == now
            &&& n.title == (if patch.title is Some {
                patch.title->0@
            } else {
                was.title
            })
            &&& n.body == (if patch.body is Some {
                patch.body->0@
            } else {
                was.body
            })
            &&& n.tags == (if patch.tags is Some {
                patch.tags->0@.map_values(|s: String| s@)
            } else {
                was.tags
            })
        }),
{
    lemma_row(p.notes, p.next_id, id, i);
}

/// A deleted note stays behind with the moment of its deletion, and no other row
/// changes; a note that is not there is refused.
pub proof fn law_deleting_a_note(p: ProjectView, id: u64, now: Seq<char>, i: int)
    requires
        p.wf(),
    ensures
        is_row(p.notes, i, id) ==> {
            let r = notes::note_deleted(p, id, now);
            &&& r is Ok
            &&& r->Ok_0 == (ProjectView { notes: r->Ok_0.notes, ..p })
            &&& r->Ok_0.notes.len() == p.notes.len()
            &&& r->Ok_0.notes[i] == (Entry { deleted_at: Some(now), ..p.notes[i] })
            &&& forall|k: int|
                0 <= k < p.notes.len() && k != i ==> #[trigger] r->Ok_0.notes[k] == p.notes[k]
        },
        is_missing(p.notes, id) ==> notes::note_deleted(p, id, now) == Err::<
            ProjectView,
            ErrorView,
        >(ErrorView::NoteNotFound(id)) && notes::note_at(p, id) == Err::<NoteView, ErrorView>(
            ErrorView::NoteNotFound(id),
        ),
        is_row(p.notes, i, id) ==> notes::note_at(p, id) == Ok::<NoteView, ErrorView>(
            p.notes[i].value,
        ),
{
    lemma_row(p.notes, p.next_id, id, i);
}

/// A todo is read as its row has it, with the blockers that are there.
pub proof fn law_reading_a_todo(p: ProjectView, id: u64, i: int)
    requires
        p.wf(),
        is_row(p.todos, i, id),
    ensures
        ({
            let r = todos::todo_at(p, id);
            &&& r is Ok
            &&& r->Ok_0 == (TodoView {
                blockers: r->Ok_0.blockers,
                ..p.todos[i].value.todo
            })
            &&& forall|b: u64| #[trigger]
                r->Ok_0.blockers.contains(b) <==> p.todos[i].value.todo.blockers.contains(b)
                    && !is_missing(p.todos, b)
        }),
{
    lemma_row(p.todos, p.next_id, id, i);
    let was = p.todos[i].value.todo.blockers;
    let keep = |b: u64| table::has_live(p.todos, b);
    let at = picking::lemma_filter_places(was, keep);
    let out = was.filter(keep);
    assert forall|b: u64| #[trigger] out.contains(b) <==> was.contains(b) && !is_missing(
        p.todos,
        b,
    ) by {
        lemma_is_there(p, b);
        if out.contains(b) {
            let x = choose|x: int| 0 <= x < out.len() && out[x] == b;
            assert(at.contains(at[x]));
            assert(was[at[x]] == b);
        }
        if was.contains(b) && table::has_live(p.todos, b) {
            let y = choose|y: int| 0 <= y < was.len() && was[y] == b;
            assert(at.contains(y));
            let x = choose|x: int| 0 <= x < at.len() && at[x] == y;
            assert(out[x] == b);
        }
    }
}

// ---------------------------------------------------------------------------
// Processes
// ---------------------------------------------------------------------------

/// Whether a project is another one in which one process has changed, and nothing
/// else.
pub open spec fn only_process_changed(p: ProjectView, after: ProjectView, i: int) -> bool {
    &&& after == (ProjectView { processes: after.processes, ..p })
    &&& after.processes.len() == p.processes.len()
    &&& forall|k: int|
        0 <= k < p.processes.len() && k != i ==> #[trigger] after.processes[k] == p.processes[k]
    &&& after.processes[i].id == p.processes[i].id
    &&& after.processes[i].deleted_at == p.processes[i].deleted_at
}

/// A process that is started from a config is an agent that is starting, with the
/// command and the directory of the config, and the arguments of this launch. It
/// has a number and names of its own, and the config is left alone.
pub proof fn law_starting_an_instance(
    p: ProjectView,
    tool: u64,
    wish: Option<Seq<char>>,
    extra: Seq<Seq<char>>,
    now: Seq<char>,
    i: int,
)
    requires
        p.wf(),
        p.has_room(),
        is_row(p.tools, i, tool),
    ensures
        ({
            let r = processes::process_started(p, tool, wish, extra, now);
            let config = p.tools[i].value;
            let n = p.processes.len() as int;
            let v = r->Ok_0.processes[n].value;
            let number = text::decimal(p.next_id as nat);
            let friendly = if wish is Some && text::trimmed(wish->0).len() > 0 {
                wish->0
            } else {
                config.display_name
            };
            &&& !config.enabled ==> r is Err && r->Err_0 is BadRequest
            &&& config.enabled ==> {
                &&& r is Ok
                &&& r->Ok_0 == (ProjectView {
                    next_id: (p.next_id + 1) as u64,
                    processes: r->Ok_0.processes,
                    ..p
                })
                &&& r->Ok_0.processes.len() == n + 1
                &&& r->Ok_0.processes.take(n) == p.processes
                &&& r->Ok_0.processes[n].id == p.next_id
                &&& r->Ok_0.processes[n].deleted_at is None
                &&& v.id == p.next_id && v.kind == ProcessKind::Agent && v.command
                    == config.command && v.cwd == config.cwd && v.agent_tool_id == Some(config.id)
                &&& v.last_seen is None && v.state_since is None
                &&& v.status == Some("starting"@) && v.pid is None && v.pane_id is None
                    && v.agent_state is None && v.extra_args == extra && v.created_at == now
                &&& v.position == p.next_id
                &&& text::trimmed(config.name).len() > 0 ==> v.name == config.name + "-"@ + number
                &&& text::trimmed(config.name).len() == 0 ==> v.name == "agent-"@ + number
                &&& text::trimmed(friendly).len() > 0 ==> v.display_name == friendly + " #"@
                    + number
                &&& text::trimmed(friendly).len() == 0 ==> v.display_name == v.name
            }
        }),
{
    lemma_row(p.tools, p.next_id, tool, i);
    if p.tools[i].value.enabled {
        let after = processes::process_started(p, tool, wish, extra, now)->Ok_0;
        assert(after.processes.take(p.processes.len() as int) =~= p.processes);
    }
}

/// A config or a process that is not there is named in the error.
pub proof fn law_what_is_missing_is_named(
    p: ProjectView,
    usual: Seq<char>,
    types: ProfileSet,
    id: u64,
    wish: Option<Seq<char>>,
    extra: Seq<Seq<char>>,
    now: Seq<char>,
    tool: AgentToolPatch,
    process: ProcessPatch,
)
    requires
        p.wf(),
    ensures
        is_missing(p.tools, id) ==> {
            let e = ErrorView::AgentToolNotFound(id);
            &&& processes::process_started(p, id, wish, extra, now) == Err::<ProjectView, ErrorView>(e)
            &&& tools::tool_at(p, usual, id) == Err::<AgentToolView, ErrorView>(e)
            &&& tools::tool_updated(p, types, usual, id, tool) == Err::<ProjectView, ErrorView>(e)
            &&& tools::tool_deleted(p, id, now) == Err::<ProjectView, ErrorView>(e)
        },
        is_missing(p.processes, id) ==> {
            let e = ErrorView::ProcessNotFound(id);
            &&& processes::process_at(p, id) == Err::<ProcessView, ErrorView>(e)
            &&& processes::process_updated(p, id, process) == Err::<ProjectView, ErrorView>(e)
            &&& processes::process_deleted(p, id, now) == Err::<ProjectView, ErrorView>(e)
        },
{
    lemma_row(p.tools, p.next_id, id, 0);
    lemma_row(p.processes, p.next_id, id, 0);
}

/// A process is read as its row has it.
pub proof fn law_reading_a_process(p: ProjectView, id: u64, i: int)
    requires
        p.wf(),
        is_row(p.processes, i, id),
    ensures
        processes::process_at(p, id) == Ok::<ProcessView, ErrorView>(p.processes[i].value),
{
    lemma_row(p.processes, p.next_id, id, i);
}

/// A report of a pid makes the process run and says when it was seen; a report of
/// a pane or of a state sets that, and each leaves what it does not report. The
/// clock of the state starts anew where the state changed, and only there.
pub proof fn law_reporting(
    p: ProjectView,
    id: u64,
    pid: Option<i64>,
    pane: Option<Seq<char>>,
    state: Option<Seq<char>>,
    now: Seq<char>,
    secs: i64,
    i: int,
)
    requires
        p.wf(),
        is_row(p.processes, i, id),
    ensures
        ({
            let r = processes::on_process(
                p,
                id,
                |v: ProcessView| processes::process_reported(v, pid, pane, state, now, secs),
            );
            let was = p.processes[i].value;
            let v = r->Ok_0.processes[i].value;
            &&& r is Ok
            &&& only_process_changed(p, r->Ok_0, i)
            &&& v == (ProcessView {
                pid: v.pid,
                status: v.status,
                last_seen: v.last_seen,
                pane_id: v.pane_id,
                agent_state: v.agent_state,
                state_since: v.state_since,
                ..was
            })
            &&& pid is Some ==> v.pid == pid && v.status == Some("running"@) && v.last_seen == Some(
                now,
            )
            &&& pid is None ==> v.pid == was.pid && v.status == was.status && v.last_seen
                == was.last_seen
            &&& pane is Some ==> v.pane_id == pane
            &&& pane is None ==> v.pane_id == was.pane_id
            &&& state is Some ==> v.agent_state == state
            &&& state is None ==> v.agent_state == was.agent_state
            &&& v.agent_state != was.agent_state ==> v.state_since == Some(secs)
            &&& v.agent_state == was.agent_state ==> v.state_since == was.state_since
        }),
{
    lemma_row(p.processes, p.next_id, id, i);
}

/// A process that is stopped has that status, and keeps all else, its pid too.
pub proof fn law_stopping_a_process(p: ProjectView, id: u64, i: int)
    requires
        p.wf(),
    ensures
        is_row(p.processes, i, id) ==> {
            let r = processes::on_process(
                p,
                id,
                |v: ProcessView| processes::with_status(v, processes::STOPPED@),
            );
            &&& r is Ok
            &&& only_process_changed(p, r->Ok_0, i)
            &&& r->Ok_0.processes[i].value == (ProcessView {
                status: Some("stopped"@),
                ..p.processes[i].value
            })
        },
        is_missing(p.processes, id) ==> processes::on_process(
            p,
            id,
            |v: ProcessView| processes::with_status(v, processes::STOPPED@),
        ) == Err::<ProjectView, ErrorView>(ErrorView::ProcessNotFound(id)),
{
    lemma_row(p.processes, p.next_id, id, i);
}

/// A process takes input while it starts or runs, and never otherwise.
pub proof fn law_input_goes_to_what_starts_or_runs(v: ProcessView)
    ensures
        processes::takes_input(v) <==> v.status == Some("starting"@) || v.status == Some(
            "running"@,
        ),
{
}

/// A sweep marks as exited exactly the processes that were not deleted, run, and
/// have a pid that is not alive; it names them, in order, and changes nothing else.
pub proof fn law_sweeping(rows: Seq<Entry<ProcessView>>, alive: Seq<i64>) -> (at: Seq<int>)
    ensures
        ({
            let after = processes::reaped(rows, alive);
            let out = processes::dead_ids(rows, alive);
            let dead = |e: Entry<ProcessView>|
                e.deleted_at is None && e.value.status == Some("running"@) && e.value.pid is Some
                    && !alive.contains(e.value.pid->0);
            &&& after.len() == rows.len()
            &&& forall|i: int|
                0 <= i < rows.len() && dead(rows[i]) ==> #[trigger] after[i] == (Entry {
                    value: ProcessView { status: Some("exited"@), ..rows[i].value },
                    ..rows[i]
                })
            &&& forall|i: int|
                0 <= i < rows.len() && !dead(rows[i]) ==> #[trigger] after[i] == rows[i]
            &&& picking::ascend(at)
            &&& at.len() == out.len()
            &&& forall|k: int|
                0 <= k < at.len() ==> 0 <= (#[trigger] at[k]) < rows.len() && out[k]
                    == rows[at[k]].id
            &&& forall|i: int| #[trigger]
                at.contains(i) <==> 0 <= i < rows.len() && dead(rows[i])
        }),
    decreases rows.len(),
{
    if rows.len() == 0 {
        Seq::empty()
    } else {
        let front = rows.drop_last();
        let n = rows.len() - 1;
        let at0 = law_sweeping(front, alive);
        let out = processes::dead_ids(rows, alive);
        let out0 = processes::dead_ids(front, alive);
        if processes::is_dead(rows.last(), alive) {
            let at = at0.push(n);
            assert forall|k: int| 0 <= k < at.len() implies 0 <= (#[trigger] at[k]) < rows.len()
                && out[k] == rows[at[k]].id by {
                if k < at0.len() {
                    assert(at0[k] == at[k]);
                    assert(front[at0[k]] == rows[at[k]]);
                    assert(out[k] == out0[k]);
                }
            }
            assert forall|i: int, j: int| 0 <= i < j < at.len() implies (#[trigger] at[i]) < (
            #[trigger] at[j]) by {
                assert(at0[i] == at[i]);
                if j < at0.len() {
                    assert(at0[j] == at[j]);
                }
            }
            assert forall|i: int| #[trigger] at.contains(i) <==> 0 <= i < rows.len()
                && processes::is_dead(rows[i], alive) by {
                picking::lemma_push_holds(at0, n, i);
                let _ = at0.contains(i);
                if 0 <= i < front.len() {
                    assert(front[i] == rows[i]);
                }
            }
            at
        } else {
            assert forall|k: int| 0 <= k < at0.len() implies front[#[trigger] at0[k]]
                == rows[at0[k]] by {}
            assert forall|i: int| #[trigger] at0.contains(i) <==> 0 <= i < rows.len()
                && processes::is_dead(rows[i], alive) by {
                if 0 <= i < front.len() {
                    assert(front[i] == rows[i]);
                }
            }
            at0
        }
    }
}

/// Processes are listed by their position, and by their number where that is the
/// same: the live ones, each once.
pub proof fn law_processes_are_listed(p: ProjectView)
    ensures
        processes::processes_of(p).to_multiset() == table::live_values(p.processes).to_multiset(),
        forall|i: int, j: int|
            0 <= i < j < processes::processes_of(p).len() ==> {
                let a = #[trigger] processes::processes_of(p)[i];
                let b = #[trigger] processes::processes_of(p)[j];
                a.position < b.position || (a.position == b.position && a.id <= b.id)
            },
{
    let after = |a: ProcessView, b: ProcessView| processes::process_after(a, b);
    sorting::law_sorted_by_same_values(after, table::live_values(p.processes));
    sorting::law_sorted_by_in_order(after, table::live_values(p.processes));
    let out = processes::processes_of(p);
    assert forall|i: int, j: int| 0 <= i < j < out.len() implies {
        let a = #[trigger] out[i];
        let b = #[trigger] out[j];
        a.position < b.position || (a.position == b.position && a.id <= b.id)
    } by {
        assert(!after(out[i], out[j]));
    }
}

/// A new process has the next number and what it was given; it has no status yet.
/// A tool that it names must be there.
pub proof fn law_new_process(p: ProjectView, d: ProcessDraft, now: Seq<char>)
    requires
        p.wf(),
        p.has_room(),
    ensures
        ({
            let r = processes::process_added(p, d, now);
            let n = p.processes.len() as int;
            let v = r->Ok_0.processes[n].value;
            let known = d.agent_tool_id matches Some(t) ==> table::has_live(p.tools, t);
            &&& !known ==> r is Err && r->Err_0 is BadRequest
            &&& known ==> {
                &&& r is Ok
                &&& r->Ok_0 == (ProjectView {
                    next_id: (p.next_id + 1) as u64,
                    processes: r->Ok_0.processes,
                    ..p
                })
                &&& r->Ok_0.processes.len() == n + 1
                &&& r->Ok_0.processes.take(n) == p.processes
                &&& r->Ok_0.processes[n].id == p.next_id && r->Ok_0.processes[n].deleted_at is None
                &&& v.id == p.next_id && v.kind == d.kind && v.name == d.name@ && v.display_name
                    == d.display_name@ && v.command == d.command@ && v.cwd == d.cwd@
                    && v.agent_tool_id == d.agent_tool_id
                &&& v.status is None && v.pid is None && v.pane_id is None && v.agent_state is None
                    && v.last_seen is None && v.state_since is None && v.extra_args.len() == 0
                    && v.created_at == now && v.position == p.next_id
            }
        }),
{
    let r = processes::process_added(p, d, now);
    if r is Ok {
        assert(r->Ok_0.processes.take(p.processes.len() as int) =~= p.processes);
    }
}

/// An edit of a process writes each field that it gives and leaves the others; a
/// tool that it names must be there.
pub proof fn law_editing_a_process(p: ProjectView, id: u64, patch: ProcessPatch, i: int)
    requires
        p.wf(),
        is_row(p.processes, i, id),
    ensures
        ({
            let r = processes::process_updated(p, id, patch);
            let was = p.processes[i].value;
            let v = r->Ok_0.processes[i].value;
            let known = patch.agent_tool_id matches Some(Some(t)) ==> table::has_live(p.tools, t);
            &&& !known ==> r is Err && r->Err_0 is BadRequest
            &&& known ==> {
                &&& r is Ok
                &&& only_process_changed(p, r->Ok_0, i)
                &&& v.id == was.id && v.kind == was.kind && v.created_at == was.created_at
                    && v.extra_args == was.extra_args
                &&& v.name == (if patch.name is Some {
                    patch.name->0@
                } else {
                    was.name
                })
                &&& v.display_name == (if patch.display_name is Some {
                    patch.display_name->0@
                } else {
                    was.display_name
                })
                &&& v.command == (if patch.command is Some {
                    patch.command->0@
                } else {
                    was.command
                })
                &&& v.cwd == (if patch.cwd is Some {
                    patch.cwd->0@
                } else {
                    was.cwd
                })
                &&& v.position == (if patch.position is Some {
                    patch.position->0
                } else {
                    was.position
                })
                &&& v.agent_tool_id == (if patch.agent_tool_id is Some {
                    patch.agent_tool_id->0
                } else {
                    was.agent_tool_id
                })
                &&& v.pid == (if patch.pid is Some {
                    patch.pid->0
                } else {
                    was.pid
                })
                &&& v.status == (if patch.status is Some {
                    text::opt_text(patch.status->0)
                } else {
                    was.status
                })
                &&& v.agent_state == (if patch.agent_state is Some {
                    text::opt_text(patch.agent_state->0)
                } else {
                    was.agent_state
                })
                &&& v.pane_id == (if patch.pane_id is Some {
                    text::opt_text(patch.pane_id->0)
                } else {
                    was.pane_id
                })
                &&& v.last_seen == (if patch.last_seen is Some {
                    text::opt_text(patch.last_seen->0)
                } else {
                    was.last_seen
                })
                &&& v.state_since == (if patch.state_since is Some {
                    patch.state_since->0
                } else {
                    was.state_since
                })
            }
        }),
{
    lemma_row(p.processes, p.next_id, id, i);
}

/// A deleted process stays behind with the moment of its deletion, and no other
/// row changes.
pub proof fn law_deleting_a_process(p: ProjectView, id: u64, now: Seq<char>, i: int)
    requires
        p.wf(),
        is_row(p.processes, i, id),
    ensures
        ({
            let r = processes::process_deleted(p, id, now);
            &&& r is Ok
            &&& r->Ok_0 == (ProjectView { processes: r->Ok_0.processes, ..p })
            &&& r->Ok_0.processes.len() == p.processes.len()
            &&& r->Ok_0.processes[i] == (Entry { deleted_at: Some(now), ..p.processes[i] })
            &&& forall|k: int|
                0 <= k < p.processes.len() && k != i ==> #[trigger] r->Ok_0.processes[k]
                    == p.processes[k]
        }),
{
    lemma_row(p.processes, p.next_id, id, i);
}

// ---------------------------------------------------------------------------
// Agent tools
// ---------------------------------------------------------------------------

/// A new tool has the next number and what it was given.
pub proof fn law_new_tool(p: ProjectView, d: ToolDraft, now: Seq<char>)
    requires
        p.wf(),
        p.has_room(),
    ensures
        ({
            let after = tools::tool_added(p, d, now);
            let n = p.tools.len() as int;
            &&& after == (ProjectView {
                next_id: (p.next_id + 1) as u64,
                tools: after.tools,
                ..p
            })
            &&& after.tools.len() == n + 1
            &&& after.tools.take(n) == p.tools
            &&& after.tools[n] == (Entry {
                id: p.next_id,
                deleted_at: None,
                value: AgentToolView {
                    id: p.next_id,
                    name: d.name@,
                    display_name: d.display_name@,
                    command: d.command@,
                    cwd: d.cwd@,
                    tool_type: d.tool_type@,
                    system_prompt: d.system_prompt@,
                    enabled: d.enabled,
                    position: p.next_id as i64,
                    created_at: now,
                },
            })
        }),
{
    assert(tools::tool_added(p, d, now).tools.take(p.tools.len() as int) =~= p.tools);
}

/// A tool is read with the usual type where its own is empty or the old word for
/// it, and otherwise as its row has it.
pub proof fn law_reading_a_tool(p: ProjectView, usual: Seq<char>, id: u64, i: int)
    requires
        p.wf(),
        is_row(p.tools, i, id),
    ensures
        ({
            let r = tools::tool_at(p, usual, id);
            let t = p.tools[i].value;
            &&& r is Ok
            &&& t.tool_type.len() == 0 || t.tool_type == "agent"@ ==> r->Ok_0 == (AgentToolView {
                tool_type: usual,
                ..t
            })
            &&& t.tool_type.len() > 0 && t.tool_type != "agent"@ ==> r->Ok_0 == t
        }),
{
    lemma_row(p.tools, p.next_id, id, i);
}

/// An edit of a tool writes each field that it gives and leaves the others; a type
/// that is not known is refused.
pub proof fn law_editing_a_tool(
    p: ProjectView,
    types: ProfileSet,
    usual: Seq<char>,
    id: u64,
    patch: AgentToolPatch,
    i: int,
)
    requires
        p.wf(),
        is_row(p.tools, i, id),
    ensures
        ({
            let r = tools::tool_updated(p, types, usual, id, patch);
            let was = tools::tool_at(p, usual, id)->Ok_0;
            let t = r->Ok_0.tools[i].value;
            let known = patch.tool_type matches Some(k) ==> types.map().has(k@);
            &&& !known ==> r == Err::<ProjectView, ErrorView>(
                ErrorView::UnknownToolType(patch.tool_type->0@),
            )
            &&& known ==> {
                &&& r is Ok
                &&& r->Ok_0 == (ProjectView { tools: r->Ok_0.tools, ..p })
                &&& r->Ok_0.tools.len() == p.tools.len()
                &&& forall|k: int|
                    0 <= k < p.tools.len() && k != i ==> #[trigger] r->Ok_0.tools[k] == p.tools[k]
                &&& r->Ok_0.tools[i].id == id && r->Ok_0.tools[i].deleted_at is None
                &&& t.id == was.id && t.created_at == was.created_at
                &&& t.name == (if patch.name is Some {
                    patch.name->0@
                } else {
                    was.name
                })
                &&& t.display_name == (if patch.display_name is Some {
                    patch.display_name->0@
                } else {
                    was.display_name
                })
                &&& t.command == (if patch.command is Some {
                    patch.command->0@
                } else {
                    was.command
                })
                &&& t.cwd == (if patch.cwd is Some {
                    patch.cwd->0@
                } else {
                    was.cwd
                })
                &&& t.tool_type == (if patch.tool_type is Some {
                    patch.tool_type->0@
                } else {
                    was.tool_type
                })
                &&& t.system_prompt == (if patch.system_prompt is Some {
                    patch.system_prompt->0@
                } else {
                    was.system_prompt
                })
                &&& t.enabled == (if patch.enabled is Some {
                    patch.enabled->0
                } else {
                    was.enabled
                })
                &&& t.position == (if patch.position is Some {
                    patch.position->0
                } else {
                    was.position
                })
            }
        }),
{
    lemma_row(p.tools, p.next_id, id, i);
}

/// A deleted tool stays behind with the moment of its deletion; no other row
/// changes, and the processes keep saying which tool they are from.
pub proof fn law_deleting_a_tool(p: ProjectView, id: u64, now: Seq<char>, i: int)
    requires
        p.wf(),
        is_row(p.tools, i, id),
    ensures
        ({
            let r = tools::tool_deleted(p, id, now);
            &&& r is Ok
            &&& r->Ok_0 == (ProjectView { tools: r->Ok_0.tools, ..p })
            &&& r->Ok_0.tools.len() == p.tools.len()
            &&& r->Ok_0.tools[i] == (Entry { deleted_at: Some(now), ..p.tools[i] })
            &&& forall|k: int|
                0 <= k < p.tools.len() && k != i ==> #[trigger] r->Ok_0.tools[k] == p.tools[k]
        }),
{
    lemma_row(p.tools, p.next_id, id, i);
}

/// Tools are listed by their position, and by their number where that is the same:
/// the live ones, each once.
pub proof fn law_tools_are_listed(p: ProjectView, usual: Seq<char>)
    ensures
        tools::tools_of(p, usual).to_multiset() == table::live_values(p.tools).map_values(
            |t: AgentToolView| tools::shown_tool(usual, t),
        ).to_multiset(),
        forall|i: int, j: int|
            0 <= i < j < tools::tools_of(p, usual).len() ==> {
                let a = #[trigger] tools::tools_of(p, usual)[i];
                let b = #[trigger] tools::tools_of(p, usual)[j];
                a.position < b.position || (a.position == b.position && a.id <= b.id)
            },
{
    let after = |a: AgentToolView, b: AgentToolView| tools::tool_after(a, b);
    let live = table::live_values(p.tools).map_values(
        |t: AgentToolView| tools::shown_tool(usual, t),
    );
    sorting::law_sorted_by_same_values(after, live);
    sorting::law_sorted_by_in_order(after, live);
    let out = tools::tools_of(p, usual);
    assert forall|i: int, j: int| 0 <= i < j < out.len() implies {
        let a = #[trigger] out[i];
        let b = #[trigger] out[j];
        a.position < b.position || (a.position == b.position && a.id <= b.id)
    } by {
        assert(!after(out[i], out[j]));
    }
}

} // verus!
