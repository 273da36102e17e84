//! What searches find: which records and which lines, in what order.

use vstd::prelude::*;
use vstd::string::*;

use crate::model::{NoteView, Priority, TodoStatus, TodoView};
use crate::notes;
use crate::picking;
use crate::project::ProjectView;
use crate::store_inputs;
use crate::table;
use crate::table::Entry;
use crate::text;
use crate::todos;

verus! {

/// Whether a text stands somewhere in another.
pub open spec fn stands_in(part: Seq<char>, whole: Seq<char>) -> bool {
    exists|i: int|
        0 <= i && i + part.len() <= whole.len() && #[trigger] whole.subrange(i, i + part.len())
            == part
}

/// A text is found where it stands.
pub proof fn lemma_found_where_it_stands(whole: Seq<char>, part: Seq<char>)
    ensures
        text::find_seq(whole, part) is Some <==> stands_in(part, whole),
{
    text::lemma_find_from(whole, part, 0);
    if stands_in(part, whole) {
        let i = choose|i: int|
            0 <= i && i + part.len() <= whole.len() && #[trigger] whole.subrange(
                i,
                i + part.len(),
            ) == part;
        assert(text::occurs_at(whole, part, i));
    }
    if let Some(i) = text::find_seq(whole, part) {
        assert(whole.subrange(i, i + part.len()) == part);
    }
}

// ---------------------------------------------------------------------------
// Output
// ---------------------------------------------------------------------------

/// A search of an output gives the lines in which the pattern stands, wherever
/// in the line, and no others, in the order of the output.
pub proof fn law_lines_with_a_pattern_are_found(body: Seq<char>, pattern: Seq<char>) -> (at: Seq<
    int,
>)
    ensures
        picking::picks(text::line_seq(body), at, store_inputs::lines_with(body, pattern)),
        forall|i: int| #[trigger]
            at.contains(i) <==> 0 <= i < text::line_seq(body).len() && exists|k: int|
                0 <= k && k + pattern.len() <= text::line_seq(body)[i].len() && #[trigger]
                text::line_seq(body)[i].subrange(k, k + pattern.len()) == pattern,
{
    let lines = text::line_seq(body);
    let at = picking::lemma_filter_places(
        lines,
        |l: Seq<char>| text::find_seq(l, pattern) is Some,
    );
    assert forall|i: int| #[trigger] at.contains(i) <==> 0 <= i < lines.len() && exists|k: int|
        0 <= k && k + pattern.len() <= lines[i].len() && #[trigger] lines[i].subrange(
            k,
            k + pattern.len(),
        ) == pattern by {
        if 0 <= i < lines.len() {
            lemma_found_where_it_stands(lines[i], pattern);
        }
    }
    at
}

/// The last lines of an output are as many as were asked for, or all there
/// are, and end with the last one.
pub proof fn law_last_lines_end_the_output(body: Seq<char>, n: u64)
    ensures
        ({
            let lines = text::line_seq(body);
            let k = if n as int <= lines.len() {
                n as int
            } else {
                lines.len() as int
            };
            store_inputs::last_lines(body, Some(n)) == text::joined(
                Seq::new(k as nat, |i: int| lines[lines.len() - k + i]),
                "\n"@,
            )
        }),
        store_inputs::last_lines(body, None) == body,
{
    let lines = text::line_seq(body);
    let k = if n as int <= lines.len() {
        n as int
    } else {
        lines.len() as int
    };
    assert(lines.skip(lines.len() - k) =~= Seq::new(
        k as nat,
        |i: int| lines[lines.len() - k + i],
    ));
}

/// Every line of a text is without a line feed, and where the text holds no
/// carriage return, its lines make it up again, with a line feed between two of
/// them and perhaps one at the end.
pub proof fn law_lines_make_up_the_text(s: Seq<char>)
    ensures
        forall|i: int, k: int|
            0 <= i < text::line_seq(s).len() && 0 <= k < text::line_seq(s)[i].len()
                ==> #[trigger] text::line_seq(s)[i][k] != '\n',
        !s.contains('\r') ==> {
            ||| s == text::joined(text::line_seq(s), "\n"@)
            ||| s == text::joined(text::line_seq(s), "\n"@) + "\n"@
        },
        s.len() > 0 ==> text::line_seq(s).len() > 0,
    decreases s.len(),
{
    reveal_strlit("\n");
    let nl = seq!['\n'];
    assert("\n"@ =~= nl);
    text::lemma_find_from(s, nl, 0);
    let lines = text::line_seq(s);
    if s.len() == 0 {
        assert(s =~= text::joined(lines, "\n"@));
    } else {
        match text::find_seq(s, nl) {
            Some(i) => {
                let rest = s.skip(i + 1);
                let first = s.take(i);
                let more = text::line_seq(rest);
                law_lines_make_up_the_text(rest);
                assert(s.subrange(i, i + 1)[0] == '\n');
                assert(lines == seq![text::without_cr(first)] + more);
                assert forall|a: int, k: int|
                    0 <= a < lines.len() && 0 <= k < lines[a].len() implies #[trigger] lines[a][k]
                    != '\n' by {
                    if a == 0 {
                        assert(lines[a][k] == s[k]);
                        text::lemma_occurs_char(s, '\n', k);
                    } else {
                        assert(lines[a] == more[a - 1]);
                        assert(more[a - 1][k] != '\n');
                    }
                }
                if !s.contains('\r') {
                    assert(text::without_cr(first) == first) by {
                        if first.len() > 0 {
                            assert(s[i - 1] == first.last());
                        }
                    }
                    assert(!rest.contains('\r')) by {
                        if rest.contains('\r') {
                            let k = choose|k: int| 0 <= k < rest.len() && rest[k] == '\r';
                            assert(s[k + i + 1] == '\r');
                        }
                    }
                    text::lemma_joined_cons(first, more, nl);
                    assert(s =~= first + nl + rest);
                    if rest.len() == 0 {
                        assert(more.len() == 0);
                        assert(lines =~= seq![first]);
                        assert(s =~= text::joined(lines, "\n"@) + "\n"@);
                    } else {
                        let j = text::joined(more, nl);
                        if rest == j {
                            assert(s =~= text::joined(lines, "\n"@));
                        } else {
                            assert(s =~= first + nl + j + nl);
                            assert(s =~= text::joined(lines, "\n"@) + "\n"@);
                        }
                    }
                }
            },
            None => {
                assert(lines =~= seq![s]);
                assert forall|a: int, k: int|
                    0 <= a < lines.len() && 0 <= k < lines[a].len() implies #[trigger] lines[a][k]
                    != '\n' by {
                    text::lemma_occurs_char(s, '\n', k);
                }
                assert(text::joined(lines, "\n"@) == s);
            },
        }
    }
}

// ---------------------------------------------------------------------------
// Records
// ---------------------------------------------------------------------------

/// The live rows are those without a moment of deletion, in the order of the
/// table.
pub proof fn law_live_values_are_those_not_deleted<V>(rows: Seq<Entry<V>>) -> (at: Seq<int>)
    ensures
        picking::ascend(at),
        at.len() == table::live_values(rows).len(),
        forall|k: int|
            0 <= k < at.len() ==> 0 <= (#[trigger] at[k]) < rows.len() && table::live_values(
                rows,
            )[k] == rows[at[k]].value,
        forall|i: int| #[trigger]
            at.contains(i) <==> 0 <= i < rows.len() && rows[i].deleted_at is None,
    decreases rows.len(),
{
    if rows.len() == 0 {
        Seq::empty()
    } else {
        let front = rows.drop_last();
        let n = rows.len() - 1;
        let before = law_live_values_are_those_not_deleted(front);
        if rows.last().deleted_at is None {
            let at = before.push(n);
            assert forall|k: int| 0 <= k < at.len() implies 0 <= (#[trigger] at[k]) < rows.len()
                && table::live_values(rows)[k] == rows[at[k]].value by {
                if k < before.len() {
                    assert(before[k] == at[k]);
                }
            }
            assert forall|i: int, j: int| 0 <= i < j < at.len() implies (#[trigger] at[i]) < (
            #[trigger] at[j]) by {
                assert(before[i] == at[i]);
                if j < before.len() {
                    assert(before[j] == at[j]);
                }
            }
            assert forall|i: int| #[trigger] at.contains(i) <==> 0 <= i < rows.len()
                && rows[i].deleted_at is None by {
                picking::lemma_push_holds(before, n, i);
                assert(before.contains(i) <==> 0 <= i < front.len() && front[i].deleted_at is None);
            }
            at
        } else {
            assert forall|i: int| #[trigger] before.contains(i) <==> 0 <= i < rows.len()
                && rows[i].deleted_at is None by {
                assert(before.contains(i) <==> 0 <= i < front.len() && front[i].deleted_at is None);
            }
            before
        }
    }
}

/// A row is found by its id where it is there and was not deleted; the first
/// such row is the one that is found.
pub proof fn law_live_value_is_the_first_not_deleted<V>(rows: Seq<Entry<V>>, id: u64)
    ensures
        match table::live_place(rows, id) {
            Some(i) => {
                &&& 0 <= i < rows.len()
                &&& rows[i].id == id
                &&& rows[i].deleted_at is None
                &&& table::live_value(rows, id) == Some(rows[i].value)
                &&& forall|j: int|
                    0 <= j < i ==> (#[trigger] rows[j]).id != id || rows[j].deleted_at is Some
            },
            None => {
                &&& table::live_value(rows, id) is None
                &&& forall|j: int|
                    0 <= j < rows.len() ==> (#[trigger] rows[j]).id != id || rows[j].deleted_at
                        is Some
            },
        },
    decreases rows.len(),
{
    if rows.len() > 0 && !(rows[0].id == id && rows[0].deleted_at is None) {
        let rest = rows.drop_first();
        law_live_value_is_the_first_not_deleted(rest, id);
        assert forall|j: int| 0 < j < rows.len() implies #[trigger] rows[j] == rest[j - 1] by {}
    }
}

/// Whether a query asks for an id: it is the number, perhaps behind a `#`, and
/// perhaps with white space around it.
pub open spec fn asks_for(q: Seq<char>, id: u64) -> bool {
    let t = text::trimmed(q);
    if t.len() > 0 && t[0] == '#' {
        text::u64_of(t.skip(1)) == Some(id)
    } else {
        text::u64_of(t) == Some(id)
    }
}

/// Whether a record with this number and these texts is what a query asks for.
pub open spec fn is_asked_for(q: Option<Seq<char>>, id: u64, title: Seq<char>, body: Seq<char>) -> bool {
    q matches Some(w) ==> stands_in(text::lowercase(w), text::lowercase(title)) || stands_in(
        text::lowercase(w),
        text::lowercase(body),
    ) || asks_for(w, id)
}

/// The reading of a query agrees with what it asks for.
proof fn lemma_answers(id: u64, title: Seq<char>, body: Seq<char>, q: Option<Seq<char>>)
    ensures
        todos::answers(id, title, body, q) <==> is_asked_for(q, id, title, body),
{
    if let Some(w) = q {
        lemma_found_where_it_stands(text::lowercase(title), text::lowercase(w));
        lemma_found_where_it_stands(text::lowercase(body), text::lowercase(w));
        reveal_strlit("#");
        let t = text::trimmed(w);
        assert("#"@ =~= seq!['#']);
        text::lemma_occurs_char(t, '#', 0);
    }
}

/// A search gives the todos of the project that have the status, the priority
/// and the assignee asked for, all the tags, and the query in their title, their
/// body or their number, and no others, in the order of the project.
pub proof fn law_search_gives_what_is_asked_for(
    p: ProjectView,
    q: Option<Seq<char>>,
    status: Option<TodoStatus>,
    priority: Option<Priority>,
    assignee: Option<Seq<char>>,
    tags: Seq<Seq<char>>,
) -> (at: Seq<int>)
    ensures
        picking::picks(
            todos::todos_of(p),
            at,
            todos::todos_found(p, q, status, priority, assignee, tags),
        ),
        forall|i: int| #[trigger]
            at.contains(i) <==> 0 <= i < todos::todos_of(p).len() && {
                let t = todos::todos_of(p)[i];
                &&& is_asked_for(q, t.id, t.title, t.body)
                &&& status matches Some(s) ==> t.status == s
                &&& priority matches Some(r) ==> t.priority == r
                &&& assignee matches Some(a) ==> text::lowercase(t.assignee) == text::lowercase(a)
                &&& forall|k: int| 0 <= k < tags.len() ==> t.tags.contains(#[trigger] tags[k])
            },
{
    let all = todos::todos_of(p);
    let at = picking::lemma_filter_places(
        all,
        |t: TodoView| todos::todo_answers(t, q, status, priority, assignee, tags),
    );
    assert forall|i: int| #[trigger] at.contains(i) <==> 0 <= i < all.len() && {
        let t = all[i];
        &&& is_asked_for(q, t.id, t.title, t.body)
        &&& status matches Some(s) ==> t.status == s
        &&& priority matches Some(r) ==> t.priority == r
        &&& assignee matches Some(a) ==> text::lowercase(t.assignee) == text::lowercase(a)
        &&& forall|k: int| 0 <= k < tags.len() ==> t.tags.contains(#[trigger] tags[k])
    } by {
        if 0 <= i < all.len() {
            lemma_answers(all[i].id, all[i].title, all[i].body, q);
        }
    }
    at
}

/// Every todo that a search by status gives has that status, and so for the
/// priority.
pub proof fn law_search_by_status(
    p: ProjectView,
    q: Option<Seq<char>>,
    status: TodoStatus,
    priority: Priority,
    tags: Seq<Seq<char>>,
    k: int,
)
    requires
        0 <= k < todos::todos_found(p, q, Some(status), Some(priority), None, tags).len(),
    ensures
        todos::todos_found(p, q, Some(status), Some(priority), None, tags)[k].status == status,
        todos::todos_found(p, q, Some(status), Some(priority), None, tags)[k].priority == priority,
{
    let at = law_search_gives_what_is_asked_for(p, q, Some(status), Some(priority), None, tags);
    assert(at.contains(at[k]));
}

/// The todos of a project are its rows that were not deleted, with all that is
/// kept of them, but that only those blockers are shown that were not deleted
/// either.
pub proof fn law_todos_are_the_rows_not_deleted(p: ProjectView) -> (at: Seq<int>)
    ensures
        picking::ascend(at),
        at.len() == todos::todos_of(p).len(),
        forall|i: int| #[trigger]
            at.contains(i) <==> 0 <= i < p.todos.len() && p.todos[i].deleted_at is None,
        forall|k: int|
            0 <= k < at.len() ==> 0 <= (#[trigger] at[k]) < p.todos.len() && {
                let t = todos::todos_of(p)[k];
                let r = p.todos[at[k]].value.todo;
                &&& t == (TodoView { blockers: t.blockers, ..r })
                &&& forall|b: u64| #[trigger]
                    t.blockers.contains(b) <==> r.blockers.contains(b) && exists|j: int|
                        0 <= j < p.todos.len() && (#[trigger] p.todos[j]).id == b
                            && p.todos[j].deleted_at is None
            },
{
    let at = law_live_values_are_those_not_deleted(p.todos);
    let live = table::live_values(p.todos);
    assert forall|k: int| 0 <= k < at.len() implies 0 <= (#[trigger] at[k]) < p.todos.len() && {
        let t = todos::todos_of(p)[k];
        let r = p.todos[at[k]].value.todo;
        &&& t == (TodoView { blockers: t.blockers, ..r })
        &&& forall|b: u64| #[trigger]
            t.blockers.contains(b) <==> r.blockers.contains(b) && exists|j: int|
                0 <= j < p.todos.len() && (#[trigger] p.todos[j]).id == b && p.todos[j].deleted_at
                    is None
    } by {
        let t = todos::todos_of(p)[k];
        let r = p.todos[at[k]].value.todo;
        assert(t == todos::shown_todo(p, live[k]));
        let keep = |b: u64| table::has_live(p.todos, b);
        let places = picking::lemma_filter_places(r.blockers, keep);
        assert(t.blockers == r.blockers.filter(keep));
        assert forall|b: u64| #[trigger] t.blockers.contains(b) <==> r.blockers.contains(b)
            && exists|j: int|
            0 <= j < p.todos.len() && (#[trigger] p.todos[j]).id == b && p.todos[j].deleted_at
                is None by {
            law_live_value_is_the_first_not_deleted(p.todos, b);
            if t.blockers.contains(b) {
                let x = choose|x: int| 0 <= x < t.blockers.len() && t.blockers[x] == b;
                assert(places.contains(places[x]));
                assert(r.blockers[places[x]] == b);
            }
            if r.blockers.contains(b) && table::has_live(p.todos, b) {
                let y = choose|y: int| 0 <= y < r.blockers.len() && r.blockers[y] == b;
                assert(places.contains(y));
                let x = choose|x: int| 0 <= x < places.len() && places[x] == y;
                assert(t.blockers[x] == b);
            }
        }
    }
    at
}

/// A search gives the notes that were not deleted, hold all the tags, and have
/// the query in their title, their body or their number, and no others, in the
/// order of the project.
pub proof fn law_note_search_gives_what_is_asked_for(
    p: ProjectView,
    q: Option<Seq<char>>,
    tags: Seq<Seq<char>>,
) -> (at: Seq<int>)
    ensures
        picking::picks(table::live_values(p.notes), at, notes::notes_found(p, q, tags)),
        forall|i: int| #[trigger]
            at.contains(i) <==> 0 <= i < table::live_values(p.notes).len() && {
                let n = table::live_values(p.notes)[i];
                &&& is_asked_for(q, n.id, n.title, n.body)
                &&& forall|k: int| 0 <= k < tags.len() ==> n.tags.contains(#[trigger] tags[k])
            },
{
    let all = table::live_values(p.notes);
    let at = picking::lemma_filter_places(all, |n: NoteView| notes::note_answers(n, q, tags));
    assert forall|i: int| #[trigger] at.contains(i) <==> 0 <= i < all.len() && {
        let n = all[i];
        &&& is_asked_for(q, n.id, n.title, n.body)
        &&& forall|k: int| 0 <= k < tags.len() ==> n.tags.contains(#[trigger] tags[k])
    } by {
        if 0 <= i < all.len() {
            lemma_answers(all[i].id, all[i].title, all[i].body, q);
        }
    }
    at
}

} // verus!
