//! What holds of the todos of a project, whatever is done with them.

use vstd::prelude::*;
use vstd::string::*;

use crate::error::ErrorView;
use crate::model;
use crate::model::{TodoPatch, TodoStatus, TodoView};
use crate::project;
use crate::project::{ProjectView, TodoRowView};
use crate::table;
use crate::table::Entry;
use crate::text;
use crate::todos;

verus! {

// ---------------------------------------------------------------------------
// Numbers in order
// ---------------------------------------------------------------------------

/// Numbers with one more hold it and what they held, still in order.
pub proof fn lemma_with_id(ids: Seq<u64>, id: u64)
    requires
        project::ascending(ids),
    ensures
        project::ascending(todos::with_id(ids, id)),
        forall|x: u64| #[trigger] todos::with_id(ids, id).contains(x) == (ids.contains(x) || x == id),
    decreases ids.len(),
{
    let after = todos::with_id(ids, id);
    if ids.len() == 0 {
        assert(after[0] == id);
        assert forall|x: u64| #[trigger] after.contains(x) == (ids.contains(x) || x == id) by {
            if after.contains(x) {
                let k = choose|k: int| 0 <= k < after.len() && after[k] == x;
            }
        }
    } else if ids.last() < id {
        assert forall|i: int, j: int| 0 <= i < j < after.len() implies (#[trigger] after[i]) < (
        #[trigger] after[j]) by {
            assert(after[i] == ids[i]);
            if j < ids.len() {
                assert(after[j] == ids[j]);
            } else if i < ids.len() - 1 {
                assert(ids[i] < ids[ids.len() - 1]);
            }
        }
        lemma_push_contains(ids, id);
    } else if ids.last() == id {
        assert(ids[ids.len() - 1] == id);
    } else {
        let front = ids.drop_last();
        let rest = todos::with_id(front, id);
        assert forall|i: int, j: int| 0 <= i < j < front.len() implies (#[trigger] front[i]) < (
        #[trigger] front[j]) by {
            assert(ids[i] < ids[j]);
        }
        lemma_with_id(front, id);
        assert forall|i: int, j: int| 0 <= i < j < after.len() implies (#[trigger] after[i]) < (
        #[trigger] after[j]) by {
            assert(after[i] == rest[i]);
            if j < rest.len() {
                assert(after[j] == rest[j]);
            } else {
                assert(rest.contains(after[i]));
                if front.contains(after[i]) {
                    let k = choose|k: int| 0 <= k < front.len() && front[k] == after[i];
                    assert(ids[k] < ids[ids.len() - 1]);
                }
            }
        }
        lemma_push_contains(rest, ids.last());
        lemma_push_contains(front, ids.last());
        assert(front.push(ids.last()) =~= ids);
    }
}

proof fn lemma_push_contains(s: Seq<u64>, x: u64)
    ensures
        forall|y: u64| #[trigger] s.push(x).contains(y) == (s.contains(y) || y == x),
{
    let after = s.push(x);
    assert forall|y: u64| #[trigger] after.contains(y) == (s.contains(y) || y == x) by {
        if after.contains(y) {
            let k = choose|k: int| 0 <= k < after.len() && after[k] == y;
            if k < s.len() {
                assert(s[k] == y);
            }
        }
        if s.contains(y) {
            let k = choose|k: int| 0 <= k < s.len() && s[k] == y;
            assert(after[k] == y);
        }
        if y == x {
            assert(after[s.len() as int] == x);
        }
    }
}

/// Numbers with some more hold them and what they held, still in order.
pub proof fn lemma_with_ids(ids: Seq<u64>, more: Seq<u64>)
    requires
        project::ascending(ids),
    ensures
        project::ascending(todos::with_ids(ids, more)),
        forall|x: u64| #[trigger]
            todos::with_ids(ids, more).contains(x) == (ids.contains(x) || more.contains(x)),
    decreases more.len(),
{
    if more.len() > 0 {
        let front = more.drop_last();
        lemma_with_ids(ids, front);
        lemma_with_id(todos::with_ids(ids, front), more.last());
        lemma_push_contains(front, more.last());
        assert(front.push(more.last()) =~= more);
        assert forall|x: u64| #[trigger] todos::with_ids(ids, more).contains(x) == (ids.contains(x)
            || more.contains(x)) by {
            assert(todos::with_ids(ids, front).contains(x) == (ids.contains(x) || front.contains(
                x,
            )));
            assert(front.push(more.last()).contains(x) == (front.contains(x) || x == more.last()));
        }
    }
}

/// Some of the numbers, still in order.
pub proof fn lemma_filter_ids(ids: Seq<u64>, keep: spec_fn(u64) -> bool)
    ensures
        project::ascending(ids) ==> project::ascending(ids.filter(keep)),
        forall|x: u64| #[trigger] ids.filter(keep).contains(x) == (ids.contains(x) && keep(x)),
    decreases ids.len(),
{
    reveal(Seq::filter);
    let out = ids.filter(keep);
    if ids.len() == 0 {
        assert forall|x: u64| #[trigger] out.contains(x) == (ids.contains(x) && keep(x)) by {}
    } else {
        let front = ids.drop_last();
        let last = ids.last();
        lemma_filter_ids(front, keep);
        let kept = front.filter(keep);
        assert(front.push(last) =~= ids);
        lemma_push_contains(front, last);
        lemma_push_contains(kept, last);
        assert forall|x: u64| #[trigger] out.contains(x) == (ids.contains(x) && keep(x)) by {
            assert(kept.contains(x) == (front.contains(x) && keep(x)));
            assert(front.push(last).contains(x) == (front.contains(x) || x == last));
            assert(kept.push(last).contains(x) == (kept.contains(x) || x == last));
        }
        if project::ascending(ids) {
            assert forall|i: int, j: int| 0 <= i < j < front.len() implies (#[trigger] front[i]) < (
            #[trigger] front[j]) by {
                assert(ids[i] < ids[j]);
            }
            assert forall|i: int, j: int| 0 <= i < j < out.len() implies (#[trigger] out[i]) < (
            #[trigger] out[j]) by {
                if j < kept.len() {
                    assert(out[i] == kept[i] && out[j] == kept[j]);
                } else {
                    assert(out[i] == kept[i]);
                    assert(kept.contains(out[i]));
                    let k = choose|k: int| 0 <= k < front.len() && front[k] == out[i];
                    assert(ids[k] < ids[ids.len() - 1]);
                }
            }
        }
    }
}

/// Numbers without one, still in order.
pub proof fn lemma_without_id(ids: Seq<u64>, id: u64)
    requires
        project::ascending(ids),
    ensures
        project::ascending(todos::without_id(ids, id)),
        forall|x: u64| #[trigger]
            todos::without_id(ids, id).contains(x) == (ids.contains(x) && x != id),
{
    lemma_filter_ids(ids, todos::other_than(id));
}

// ---------------------------------------------------------------------------
// What every operation keeps
// ---------------------------------------------------------------------------

/// A sound value in a row keeps the project sound and its numbers apart.
pub proof fn lemma_with_todo_wf(p: ProjectView, i: int, r: TodoRowView)
    requires
        p.wf(),
        0 <= i < p.todos.len(),
        project::sound_todo(Entry { value: r, ..p.todos[i] }),
    ensures
        todos::with_todo(p, i, r).wf(),
        p.told_apart() ==> todos::with_todo(p, i, r).told_apart(),
{
    let after = todos::with_todo(p, i, r);
    project::lemma_value_same_ids(p.todos, i, r);
    project::lemma_same_ids_ordered(p, after);
    assert forall|k: int| 0 <= k < after.todos.len() implies project::sound_todo(
        #[trigger] after.todos[k],
    ) by {
        if k != i {
            assert(after.todos[k] == p.todos[k]);
        }
    }
}

/// One todo more keeps the project sound and its numbers apart.
pub proof fn lemma_todo_added_wf(p: ProjectView, title: Seq<char>, now: Seq<char>)
    requires
        p.wf(),
        p.has_room(),
    ensures
        todos::todo_added(p, title, now).wf(),
        p.told_apart() ==> todos::todo_added(p, title, now).told_apart(),
{
    let after = todos::todo_added(p, title, now);
    let id = p.next_id;
    let r = todos::new_todo(id, title, now);
    project::lemma_row_in_order(p.todos, id, r);
    project::lemma_counter_grows(p.notes, id, after.next_id);
    project::lemma_counter_grows(p.tools, id, after.next_id);
    project::lemma_counter_grows(p.processes, id, after.next_id);
    if p.told_apart() {
        project::lemma_row_apart(p.todos, p.notes, id, r);
        project::lemma_row_apart(p.todos, p.tools, id, r);
        project::lemma_row_apart(p.todos, p.processes, id, r);
    }
    assert forall|k: int| 0 <= k < after.todos.len() implies project::sound_todo(
        #[trigger] after.todos[k],
    ) by {
        if k < p.todos.len() {
            assert(after.todos[k] == p.todos[k]);
        }
    }
}

/// Deleting a todo keeps the project sound and its numbers apart.
pub proof fn lemma_todo_deleted_wf(p: ProjectView, i: int, now: Seq<char>)
    requires
        p.wf(),
        0 <= i < p.todos.len(),
    ensures
        (ProjectView { todos: table::with_deleted(p.todos, i, now), ..p }).wf(),
        p.told_apart() ==> (
        ProjectView { todos: table::with_deleted(p.todos, i, now), ..p }).told_apart(),
{
    let after = ProjectView { todos: table::with_deleted(p.todos, i, now), ..p };
    project::lemma_deleted_same_ids(p.todos, i, now);
    project::lemma_same_ids_ordered(p, after);
    assert forall|k: int| 0 <= k < after.todos.len() implies project::sound_todo(
        #[trigger] after.todos[k],
    ) by {
        assert(project::sound_todo(p.todos[k]));
    }
}

// ---------------------------------------------------------------------------
// Laws
// ---------------------------------------------------------------------------

/// A todo that was created is read back as it was asked for: open, of medium
/// priority, under the title, with nothing else.
pub proof fn law_created_todo_is_read(p: ProjectView, title: Seq<char>, now: Seq<char>)
    requires
        p.wf(),
        p.has_room(),
    ensures
        todos::todo_at(todos::todo_added(p, title, now), p.next_id) == Ok::<
            TodoView,
            ErrorView,
        >(todos::new_todo(p.next_id, title, now).todo),
{
    let after = todos::todo_added(p, title, now);
    let r = todos::new_todo(p.next_id, title, now);
    table::law_added_is_found(p.todos, p.next_id, r);
    assert(r.todo.blockers.filter(|b: u64| table::has_live(after.todos, b)) =~= seq![]) by {
        reveal(Seq::filter);
    }
}

/// A deleted todo is not found, and no todo shows it as a blocker.
pub proof fn law_deleted_todo_is_gone(p: ProjectView, id: u64, now: Seq<char>)
    requires
        p.wf(),
        table::has_live(p.todos, id),
    ensures
        ({
            let after = todos::todo_deleted(p, id, now)->Ok_0;
            &&& todos::todo_at(after, id) is Err
            &&& forall|i: int|
                0 <= i < after.todos.len() ==> !todos::shown_todo(
                    after,
                    (#[trigger] after.todos[i]).value,
                ).blockers.contains(id)
        }),
{
    let i = table::live_place(p.todos, id)->0;
    let after = todos::todo_deleted(p, id, now)->Ok_0;
    project::lemma_in_order_unique(p.todos, p.next_id);
    table::law_deleted_is_gone(p.todos, id, now);
    assert forall|k: int| 0 <= k < after.todos.len() implies !todos::shown_todo(
        after,
        (#[trigger] after.todos[k]).value,
    ).blockers.contains(id) by {
        lemma_filter_ids(
            after.todos[k].value.todo.blockers,
            |b: u64| table::has_live(after.todos, b),
        );
    }
}

/// A todo is never shown as blocked by itself, and only by todos that are
/// there, in the order of their ids.
pub proof fn law_blockers_are_live(p: ProjectView, i: int)
    requires
        p.wf(),
        0 <= i < p.todos.len(),
    ensures
        ({
            let shown = todos::shown_todo(p, p.todos[i].value).blockers;
            &&& project::ascending(shown)
            &&& !shown.contains(p.todos[i].id)
            &&& forall|b: u64| #[trigger] shown.contains(b) ==> table::has_live(p.todos, b)
        }),
{
    assert(project::sound_todo(p.todos[i]));
    lemma_filter_ids(
        p.todos[i].value.todo.blockers,
        |b: u64| table::has_live(p.todos, b),
    );
}

/// Recording a blocker makes it one, and recording it again changes nothing
/// but the moment of the change.
pub proof fn law_blocker_is_recorded_once(ids: Seq<u64>, b: u64)
    requires
        project::ascending(ids),
    ensures
        todos::with_id(ids, b).contains(b),
        todos::with_id(todos::with_id(ids, b), b) == todos::with_id(ids, b),
        !todos::without_id(todos::with_id(ids, b), b).contains(b),
    decreases ids.len(),
{
    lemma_with_id(ids, b);
    let once = todos::with_id(ids, b);
    lemma_without_id(once, b);
    if ids.len() > 0 && ids.last() > b {
        let front = ids.drop_last();
        assert forall|i: int, j: int| 0 <= i < j < front.len() implies (#[trigger] front[i]) < (
        #[trigger] front[j]) by {
            assert(ids[i] < ids[j]);
        }
        law_blocker_is_recorded_once(front, b);
        assert(once.drop_last() =~= todos::with_id(front, b));
    }
}

/// The blockers of a todo after they were set are the ones that were asked
/// for, each once, in the order of their ids.
pub proof fn law_set_blockers_are_shown(p: ProjectView, was: Seq<u64>, wanted: Seq<u64>)
    requires
        project::ascending(was),
        forall|i: int| 0 <= i < wanted.len() ==> table::has_live(p.todos, #[trigger] wanted[i]),
    ensures
        ({
            let shown = todos::blockers_replaced(p, was, wanted).filter(
                |b: u64| table::has_live(p.todos, b),
            );
            &&& project::ascending(shown)
            &&& forall|b: u64| #[trigger] shown.contains(b) == wanted.contains(b)
        }),
{
    let keep = |b: u64| !table::has_live(p.todos, b) || wanted.contains(b);
    let kept = was.filter(keep);
    lemma_filter_ids(was, keep);
    lemma_with_ids(kept, wanted);
    let all = todos::blockers_replaced(p, was, wanted);
    let live = |b: u64| table::has_live(p.todos, b);
    lemma_filter_ids(all, live);
    let shown = all.filter(live);
    assert forall|b: u64| #[trigger] shown.contains(b) == wanted.contains(b) by {
        assert(all.contains(b) == (kept.contains(b) || wanted.contains(b)));
        assert(kept.contains(b) == (was.contains(b) && keep(b)));
        if wanted.contains(b) {
            let k = choose|k: int| 0 <= k < wanted.len() && wanted[k] == b;
            assert(table::has_live(p.todos, wanted[k]));
        }
    }
}

/// A todo after an edit, as it is read: what the edit names is written, and
/// all else is as it was. It has a moment of completion exactly when it is
/// completed, and one that it had stays.
pub open spec fn is_edit_of(t: TodoView, was: TodoView, patch: TodoPatch, now: Seq<char>) -> bool {
    &&& t == (TodoView {
        title: model::edited(patch.title, was.title),
        body: model::edited(patch.body, was.body),
        status: model::replaced(patch.status, was.status),
        priority: model::replaced(patch.priority, was.priority),
        assignee: model::edited(patch.assignee, was.assignee),
        tags: model::edited_all(patch.tags, was.tags),
        updated_at: now,
        completed_at: t.completed_at,
        ..was
    })
    &&& t.completed_at is Some <==> t.status == TodoStatus::Completed
    &&& t.status == TodoStatus::Completed && was.completed_at is Some ==> t.completed_at
        == was.completed_at
}

/// What an edit of a todo wrote is read back, and no other todo changes. A
/// completed todo of old that has no moment of completion gets one.
pub proof fn law_updated_todo_is_read(
    p: ProjectView,
    id: u64,
    patch: TodoPatch,
    now: Seq<char>,
    other: u64,
)
    requires
        p.wf(),
        todos::todo_at(p, id) is Ok,
    ensures
        ({
            let after = todos::on_todo(p, id, |r: TodoRowView| todos::todo_edited(r, patch, now));
            &&& after is Ok
            &&& todos::todo_at(after->Ok_0, id) is Ok
            &&& is_edit_of(
                todos::todo_at(after->Ok_0, id)->Ok_0,
                todos::todo_at(p, id)->Ok_0,
                patch,
                now,
            )
            &&& other != id ==> todos::todo_at(after->Ok_0, other) == todos::todo_at(p, other)
        }),
{
    let i = table::live_place(p.todos, id)->0;
    let row = p.todos[i].value;
    let edited = todos::todo_edited(row, patch, now);
    let after = todos::with_todo(p, i, edited);
    project::lemma_in_order_unique(p.todos, p.next_id);
    table::lemma_live_place(p.todos, id);
    assert forall|b: u64| #[trigger] table::has_live(after.todos, b) == table::has_live(
        p.todos,
        b,
    ) by {
        table::law_written_is_read(p.todos, id, edited, b);
        table::lemma_live_place(after.todos, b);
        table::lemma_live_place(p.todos, b);
    }
    table::law_written_is_read(p.todos, id, edited, other);
    let now_live = |b: u64| table::has_live(after.todos, b);
    let was_live = |b: u64| table::has_live(p.todos, b);
    assert(now_live =~= was_live);
}

/// A todo has a moment of completion exactly when an edit leaves it completed,
/// and one that it has already stays.
pub proof fn law_completed_has_moment(r: TodoRowView, patch: TodoPatch, now: Seq<char>)
    ensures
        ({
            let t = todos::todo_edited(r, patch, now).todo;
            &&& t.completed_at is Some <==> t.status == TodoStatus::Completed
            &&& t.status == TodoStatus::Completed && r.todo.completed_at is Some ==> t.completed_at
                == r.todo.completed_at
            &&& t.updated_at == now && t.created_at == r.todo.created_at
        }),
{
}

/// An edit that asks for nothing changes nothing but the moments.
pub proof fn law_blank_edit_keeps_todo(r: TodoRowView, patch: TodoPatch, now: Seq<char>)
    requires
        patch.title is None && patch.body is None && patch.status is None,
        patch.priority is None && patch.assignee is None && patch.tags is None,
    ensures
        todos::todo_edited(r, patch, now) == todos::with_status(r, r.todo.status, now),
{
}

/// The number of a comment is never given out again: a new comment has one
/// that no comment of the todo has or, after a removal, had.
pub proof fn law_comment_numbers_are_new(
    e: Entry<TodoRowView>,
    author: Seq<char>,
    body: Seq<char>,
    now: Seq<char>,
    k: int,
)
    requires
        project::sound_todo(e),
        e.value.next_comment_id < u64::MAX,
    ensures
        ({
            let after = todos::with_comment(e.value, author, body, now);
            &&& 0 <= k < e.value.todo.comments.len() ==> e.value.todo.comments[k].id
                < after.todo.comments.last().id
            &&& after.next_comment_id > after.todo.comments.last().id
            &&& todos::with_comments(
                after,
                after.todo.comments.remove(after.todo.comments.len() - 1),
                now,
            ).next_comment_id == after.next_comment_id
        }),
{
}

/// A search without conditions finds every todo.
pub proof fn law_open_search_finds_all(p: ProjectView)
    ensures
        todos::todos_found(p, None, None, None, None, seq![]) == todos::todos_of(p),
{
    let all = todos::todos_of(p);
    let keep = |t: TodoView| todos::todo_answers(t, None, None, None, None, seq![]);
    lemma_filter_all(all, keep);
}

proof fn lemma_filter_all(s: Seq<TodoView>, keep: spec_fn(TodoView) -> bool)
    requires
        forall|t: TodoView| #[trigger] keep(t),
    ensures
        s.filter(keep) == s,
    decreases s.len(),
{
    reveal(Seq::filter);
    if s.len() > 0 {
        lemma_filter_all(s.drop_last(), keep);
        assert(keep(s.last()));
        assert(s.drop_last().push(s.last()) =~= s);
    } else {
        assert(s.filter(keep) =~= s);
    }
}

/// A todo is found by its number, with or without a `#`.
pub proof fn law_todo_is_found_by_number(t: TodoView)
    ensures
        todos::answers(t.id, t.title, t.body, Some(text::decimal(t.id as nat))),
        todos::answers(t.id, t.title, t.body, Some("#"@ + text::decimal(t.id as nat))),
{
    let n = text::decimal(t.id as nat);
    text::lemma_u64_of_decimal(t.id);
    text::lemma_decimal_value(t.id as nat);
    reveal_strlit("#");
    text::lemma_digit_not_white(n[0]);
    text::lemma_digit_not_white(n.last());
    assert(text::trimmed(n) == n) by {
        text::lemma_trim_nothing(n);
    }
    assert(text::after_prefix(n, "#"@) is None) by {
        if text::begins(n, "#"@) {
            assert(n.subrange(0, 1)[0] == '#');
        }
    }
    let h = "#"@ + n;
    assert(h[0] == '#');
    assert(h.last() == n.last());
    assert(text::trimmed(h) == h) by {
        text::lemma_trim_nothing(h);
    }
    assert(text::begins(h, "#"@)) by {
        assert(h.subrange(0, 1) =~= "#"@);
    }
    assert(h.skip(1) =~= n);
    assert(h.subrange(1, h.len() as int) =~= n);
}

} // verus!
