//! What the store makes of its projects as a whole: which one a caller is led to,
//! what is told of each, what is typed into its processes, and what a sweep finds.

use vstd::prelude::*;
use vstd::string::*;

use crate::error::ErrorView;
use crate::locks;
use crate::model::{AgentView, LockView, NoteView, ProcessKind, ProcessView, TodoStatus};
use crate::paths;
use crate::picking;
use crate::presence_laws;
use crate::processes;
use crate::project::{ProjectView, TodoRowView};
use crate::record_laws;
use crate::store;
use crate::store::{InputRowView, StoreView, Surface};
use crate::store_inputs;
use crate::store_projects;
use crate::store_sweeps;
use crate::table::Entry;
use crate::text;

verus! {

// ---------------------------------------------------------------------------
// Which project
// ---------------------------------------------------------------------------

/// Whether a project is the first of a list with an identity.
pub open spec fn is_first_identified(projects: Seq<ProjectView>, i: int, identity: Seq<char>) -> bool {
    &&& 0 <= i < projects.len()
    &&& projects[i].identity == Some(identity)
    &&& forall|k: int| 0 <= k < i ==> (#[trigger] projects[k]).identity != Some(identity)
}

/// Whether a project is the first of a list with a root.
pub open spec fn is_first_rooted(projects: Seq<ProjectView>, i: int, root: Seq<char>) -> bool {
    &&& 0 <= i < projects.len()
    &&& projects[i].root == root
    &&& forall|k: int| 0 <= k < i ==> (#[trigger] projects[k]).root != root
}

/// A place is that of the first project with an identity.
proof fn lemma_identity_place(projects: Seq<ProjectView>, identity: Seq<char>)
    ensures
        match store_projects::identity_place(projects, identity) {
            Some(i) => is_first_identified(projects, i, identity),
            None => forall|k: int|
                0 <= k < projects.len() ==> (#[trigger] projects[k]).identity != Some(identity),
        },
    decreases projects.len(),
{
    if projects.len() > 0 && projects[0].identity != Some(identity) {
        let rest = projects.drop_first();
        lemma_identity_place(rest, identity);
        assert forall|k: int| 1 <= k < projects.len() implies #[trigger] projects[k] == rest[k
            - 1] by {}
        match store_projects::identity_place(rest, identity) {
            Some(i) => {
                assert forall|k: int| 0 <= k < i + 1 implies (#[trigger] projects[k]).identity
                    != Some(identity) by {
                    if k > 0 {
                        assert(rest[k - 1] == projects[k]);
                    }
                }
            },
            None => {
                assert forall|k: int| 0 <= k < projects.len() implies (
                #[trigger] projects[k]).identity != Some(identity) by {
                    if k > 0 {
                        assert(rest[k - 1] == projects[k]);
                    }
                }
            },
        }
    }
}

/// A place is that of the first project with a root.
proof fn lemma_root_place(projects: Seq<ProjectView>, root: Seq<char>)
    ensures
        match store_projects::root_place(projects, root) {
            Some(i) => is_first_rooted(projects, i, root),
            None => forall|k: int|
                0 <= k < projects.len() ==> (#[trigger] projects[k]).root != root,
        },
    decreases projects.len(),
{
    if projects.len() > 0 && projects[0].root != root {
        let rest = projects.drop_first();
        lemma_root_place(rest, root);
        match store_projects::root_place(rest, root) {
            Some(i) => {
                assert forall|k: int| 0 <= k < i + 1 implies (#[trigger] projects[k]).root
                    != root by {
                    if k > 0 {
                        assert(rest[k - 1] == projects[k]);
                    }
                }
            },
            None => {
                assert forall|k: int| 0 <= k < projects.len() implies (
                #[trigger] projects[k]).root != root by {
                    if k > 0 {
                        assert(rest[k - 1] == projects[k]);
                    }
                }
            },
        }
    }
}

/// A caller is led to the project with its identity. Where there is none, it is
/// led to the one with its root, which takes the identity unless that is only the
/// root again. Where there is neither, a project is made behind the others, with
/// both and nothing in it. Nothing else changes.
pub proof fn law_project_goes_by_identity_then_root(
    projects: Seq<ProjectView>,
    identity: Seq<char>,
    root: Seq<char>,
    i: int,
)
    ensures
        is_first_identified(projects, i, identity) ==> store_projects::ensured(
            projects,
            identity,
            root,
        ) == (projects, projects[i].id),
        (forall|k: int|
            0 <= k < projects.len() ==> (#[trigger] projects[k]).identity != Some(identity))
            && is_first_rooted(projects, i, root) ==> {
            let (after, id) = store_projects::ensured(projects, identity, root);
            &&& id == projects[i].id
            &&& after.len() == projects.len()
            &&& identity == root ==> after == projects
            &&& identity != root ==> after[i] == (ProjectView {
                identity: Some(identity),
                ..projects[i]
            })
            &&& forall|k: int|
                0 <= k < projects.len() && k != i ==> #[trigger] after[k] == projects[k]
        },
        (forall|k: int|
            0 <= k < projects.len() ==> (#[trigger] projects[k]).identity != Some(identity)
                && projects[k].root != root) && (projects.len() > 0 ==> projects.last().id
            < i64::MAX) ==> {
            let (after, id) = store_projects::ensured(projects, identity, root);
            let made = after[projects.len() as int];
            &&& after.len() == projects.len() + 1
            &&& after.take(projects.len() as int) == projects
            &&& id == made.id
            &&& id == (if projects.len() == 0 {
                1int
            } else {
                projects.last().id + 1
            })
            &&& made.root == root && made.identity == Some(identity)
            &&& made.todos.len() == 0 && made.notes.len() == 0 && made.processes.len() == 0
                && made.tools.len() == 0
            &&& made.next_id == 1
        },
{
    lemma_identity_place(projects, identity);
    lemma_root_place(projects, root);
    if let Some(k) = store_projects::identity_place(projects, identity) {
        if is_first_identified(projects, i, identity) {
            if k < i {
                assert(projects[k].identity != Some(identity));
            }
            if i < k {
                assert(projects[i].identity != Some(identity));
            }
        }
    } else {
        if is_first_identified(projects, i, identity) {
            assert(projects[i].identity != Some(identity));
        }
        if let Some(k) = store_projects::root_place(projects, root) {
            if is_first_rooted(projects, i, root) {
                if k < i {
                    assert(projects[k].root != root);
                }
                if i < k {
                    assert(projects[i].root != root);
                }
            }
        } else {
            let after = store_projects::ensured(projects, identity, root).0;
            assert(after.take(projects.len() as int) =~= projects);
        }
    }
}

/// A project is shown as a whole the first time that a caller is led to it, and
/// not again.
pub proof fn law_project_is_shown_whole_once(s: StoreView, identity: Seq<char>, root: Seq<char>)
    ensures
        ({
            let (after, id) = store_projects::opened(s, identity, root);
            let (projects, led) = store_projects::ensured(s.projects, identity, root);
            &&& id == led
            &&& after.projects == projects
            &&& after.reprojected.contains(id)
            &&& s.reprojected.contains(id) ==> after == (StoreView { projects, ..s })
            &&& !s.reprojected.contains(id) ==> after.pending == s.pending + seq![
                (id, Surface::Everything),
            ] && after == (StoreView {
                projects,
                pending: after.pending,
                reprojected: after.reprojected,
                ..s
            })
        }),
{
    let (after, id) = store_projects::opened(s, identity, root);
    if !s.reprojected.contains(id) {
        assert(after.reprojected[s.reprojected.len() as int] == id);
        assert(after.pending =~= s.pending + seq![(id, Surface::Everything)]);
    }
}

// ---------------------------------------------------------------------------
// What is told of a project
// ---------------------------------------------------------------------------

/// What is told of a project: where it is, how many agents are connected to it,
/// how many of its todos are open and how many in progress, and how many locks are
/// held in it. A project is told of in its place, and each once.
pub proof fn law_projects_are_told_of(s: StoreView, now: u64, i: int)
    requires
        0 <= i < s.projects.len(),
    ensures
        store_projects::summaries(s, now).len() == s.projects.len(),
        ({
            let p = s.projects[i];
            let told = store_projects::summaries(s, now)[i];
            &&& told.root == p.root
            &&& told.identity == (if p.identity is Some {
                p.identity->0
            } else {
                p.root
            })
            &&& told.agents_active == s.agents.filter(
                |e: (i64, AgentView)| e.0 == p.id && now <= e.1.last_seen + 5_000_000_000,
            ).len()
            &&& told.todos_open == p.todos.filter(
                |e: Entry<TodoRowView>|
                    e.deleted_at is None && e.value.todo.status == TodoStatus::Open,
            ).len()
            &&& told.todos_in_progress == p.todos.filter(
                |e: Entry<TodoRowView>|
                    e.deleted_at is None && e.value.todo.status == TodoStatus::InProgress,
            ).len()
            &&& told.locks_held == s.locks.filter(|e: (i64, LockView)| e.0 == p.id).len()
        }),
{
    let p = s.projects[i];
    presence_laws::law_connected_agents_are_counted(s.agents, p.id, now, 5_000_000_000);
    lemma_count_todos(p.todos, TodoStatus::Open);
    lemma_count_todos(p.todos, TodoStatus::InProgress);
    lemma_count_locks(s.locks, p.id);
    assert(s.agents.filter(
        |e: (i64, AgentView)| e.0 == p.id && now <= e.1.last_seen + 5_000_000_000u64,
    ) =~= s.agents.filter(
        |e: (i64, AgentView)| e.0 == p.id && now <= e.1.last_seen + 5_000_000_000,
    ));
    let open = |e: Entry<TodoRowView>|
        e.deleted_at is None && e.value.todo.status == TodoStatus::Open;
    assert(open =~= (|e: Entry<TodoRowView>|
        e.deleted_at is None && e.value.todo.status == TodoStatus::Open));
}

/// As many todos of a status are counted as there are.
proof fn lemma_count_todos(rows: Seq<Entry<TodoRowView>>, status: TodoStatus)
    ensures
        store_projects::count_todos(rows, status) == rows.filter(
            |e: Entry<TodoRowView>| e.deleted_at is None && e.value.todo.status == status,
        ).len(),
    decreases rows.len(),
{
    reveal(Seq::filter);
    if rows.len() > 0 {
        lemma_count_todos(rows.drop_last(), status);
    }
}

/// As many locks of a project are counted as there are.
proof fn lemma_count_locks(held: Seq<(i64, LockView)>, project: i64)
    ensures
        locks::locks_in(held, project).len() == held.filter(
            |e: (i64, LockView)| e.0 == project,
        ).len(),
    decreases held.len(),
{
    reveal(Seq::filter);
    if held.len() > 0 {
        lemma_count_locks(held.drop_last(), project);
    }
}

/// Whether a moment is one at which a todo or a note of a project changed that was
/// not deleted.
pub open spec fn is_change(p: ProjectView, t: Seq<char>) -> bool {
    &&& t.len() > 0
    &&& {
        ||| exists|i: int|
            0 <= i < p.todos.len() && (#[trigger] p.todos[i]).deleted_at is None
                && p.todos[i].value.todo.updated_at == t
        ||| exists|i: int|
            0 <= i < p.notes.len() && (#[trigger] p.notes[i]).deleted_at is None
                && p.notes[i].value.updated_at == t
    }
}

/// The last activity of a project is the latest moment at which a todo or a note
/// of it changed; there is none where nothing did.
pub proof fn law_last_activity_is_the_latest_change(p: ProjectView)
    ensures
        match store_projects::last_activity(p) {
            Some(t) => is_change(p, t) && forall|u: Seq<char>| #[trigger]
                is_change(p, u) ==> !text::precedes(t, u),
            None => forall|u: Seq<char>| !is_change(p, u),
        },
{
    lemma_latest_todo(p.todos);
    lemma_latest_note(p.notes, store_projects::latest_todo(p.todos));
    let last = store_projects::last_activity(p);
    assert forall|u: Seq<char>| #[trigger] is_change(p, u) implies last is Some && !text::precedes(
        last->0,
        u,
    ) by {
        if exists|i: int|
            0 <= i < p.todos.len() && (#[trigger] p.todos[i]).deleted_at is None
                && p.todos[i].value.todo.updated_at == u {
            let i = choose|i: int|
                0 <= i < p.todos.len() && (#[trigger] p.todos[i]).deleted_at is None
                    && p.todos[i].value.todo.updated_at == u;
            assert(!is_before(store_projects::latest_todo(p.todos), u));
            lemma_not_before(last, store_projects::latest_todo(p.todos), u);
        } else {
            let i = choose|i: int|
                0 <= i < p.notes.len() && (#[trigger] p.notes[i]).deleted_at is None
                    && p.notes[i].value.updated_at == u;
            assert(!is_before(last, u));
        }
    }
}

/// Whether a moment is later than another, where there is one.
spec fn is_before(a: Option<Seq<char>>, b: Seq<char>) -> bool {
    b.len() > 0 && (a is None || text::precedes(a->0, b))
}

/// What is not before a moment is not before an earlier one.
proof fn lemma_not_before(a: Option<Seq<char>>, b: Option<Seq<char>>, u: Seq<char>)
    requires
        b matches Some(x) ==> x.len() > 0 && !is_before(a, x),
        !is_before(b, u),
    ensures
        !is_before(a, u),
{
    if u.len() > 0 {
        let x = b->0;
        text::lemma_precedes_total(a->0, x);
        text::lemma_precedes_total(x, u);
        text::lemma_precedes_total(a->0, u);
        if text::precedes(a->0, u) {
            if text::precedes(x, a->0) {
                text::lemma_precedes_trans(x, a->0, u);
            }
        }
    }
}

/// The later of two moments.
proof fn lemma_later(a: Option<Seq<char>>, b: Seq<char>)
    requires
        a matches Some(x) ==> x.len() > 0,
    ensures
        ({
            let r = store_projects::later(a, b);
            &&& r == a || (r == Some(b) && b.len() > 0)
            &&& r matches Some(x) ==> x.len() > 0
            &&& !is_before(r, b)
            &&& a matches Some(x) ==> !is_before(r, x)
        }),
{
    text::lemma_precedes_total(b, b);
    if let Some(x) = a {
        text::lemma_precedes_total(x, b);
        text::lemma_precedes_total(x, x);
    }
}

/// The latest change of a todo.
proof fn lemma_latest_todo(rows: Seq<Entry<TodoRowView>>)
    ensures
        ({
            let r = store_projects::latest_todo(rows);
            &&& r matches Some(t) ==> t.len() > 0 && exists|i: int|
                0 <= i < rows.len() && (#[trigger] rows[i]).deleted_at is None
                    && rows[i].value.todo.updated_at == t
            &&& forall|i: int|
                0 <= i < rows.len() && (#[trigger] rows[i]).deleted_at is None ==> !is_before(
                    r,
                    rows[i].value.todo.updated_at,
                )
        }),
    decreases rows.len(),
{
    if rows.len() > 0 {
        let front = rows.drop_last();
        let n = rows.len() - 1;
        lemma_latest_todo(front);
        let before = store_projects::latest_todo(front);
        let r = store_projects::latest_todo(rows);
        lemma_later(before, rows[n].value.todo.updated_at);
        if before is Some {
            let k = choose|k: int|
                0 <= k < front.len() && (#[trigger] front[k]).deleted_at is None
                    && front[k].value.todo.updated_at == before->0;
            assert(rows[k] == front[k]);
        }
        assert(rows[n] == rows.last());
        assert forall|i: int|
            0 <= i < rows.len() && (#[trigger] rows[i]).deleted_at is None implies !is_before(
            r,
            rows[i].value.todo.updated_at,
        ) by {
            if i < n {
                assert(front[i] == rows[i]);
                lemma_refl(before);
                lemma_not_before(r, before, rows[i].value.todo.updated_at);
            }
        }
    }
}

/// No moment is before itself.
proof fn lemma_refl(a: Option<Seq<char>>)
    ensures
        a matches Some(x) ==> !is_before(a, x),
{
    if let Some(x) = a {
        text::lemma_precedes_total(x, x);
    }
}

/// The latest change of a note, or another moment.
proof fn lemma_latest_note(rows: Seq<Entry<NoteView>>, other: Option<Seq<char>>)
    requires
        other matches Some(x) ==> x.len() > 0,
    ensures
        ({
            let r = store_projects::latest_note(rows, other);
            &&& r matches Some(t) ==> t.len() > 0 && (r == other || exists|i: int|
                0 <= i < rows.len() && (#[trigger] rows[i]).deleted_at is None
                    && rows[i].value.updated_at == t)
            &&& other matches Some(x) ==> !is_before(r, x)
            &&& forall|i: int|
                0 <= i < rows.len() && (#[trigger] rows[i]).deleted_at is None ==> !is_before(
                    r,
                    rows[i].value.updated_at,
                )
        }),
    decreases rows.len(),
{
    lemma_refl(other);
    if rows.len() > 0 {
        let front = rows.drop_last();
        let n = rows.len() - 1;
        lemma_latest_note(front, other);
        let before = store_projects::latest_note(front, other);
        let r = store_projects::latest_note(rows, other);
        lemma_later(before, rows[n].value.updated_at);
        lemma_refl(before);
        if before is Some && before != other {
            let k = choose|k: int|
                0 <= k < front.len() && (#[trigger] front[k]).deleted_at is None
                    && front[k].value.updated_at == before->0;
            assert(rows[k] == front[k]);
        }
        assert(rows[n] == rows.last());
        if other is Some {
            lemma_not_before(r, before, other->0);
        }
        assert forall|i: int|
            0 <= i < rows.len() && (#[trigger] rows[i]).deleted_at is None implies !is_before(
            r,
            rows[i].value.updated_at,
        ) by {
            if i < n {
                assert(front[i] == rows[i]);
                lemma_not_before(r, before, rows[i].value.updated_at);
            }
        }
    }
}

/// The name of a project is the last name of its root, with a dash for each
/// character that is neither a letter nor a digit.
pub proof fn law_project_is_named_by_its_root(root: Seq<char>, i: int)
    ensures
        ({
            let last = paths::name_at_end(root);
            let name = store_projects::project_name(root);
            &&& last is None ==> name.len() == "project"@.len()
            &&& last is Some ==> name.len() == last->0.len()
            &&& last is Some && 0 <= i < name.len() ==> if text::is_alnum(last->0[i]) {
                name[i] == last->0[i]
            } else {
                name[i] == '-'
            }
        }),
{
}

// ---------------------------------------------------------------------------
// Input
// ---------------------------------------------------------------------------

/// Input is queued for a process that starts or runs: under the next number, with
/// its words, and not delivered. One that has ended is refused, and so is one that
/// is not there; then nothing changes.
pub proof fn law_sending_input(
    s: StoreView,
    at: int,
    process: u64,
    content: Seq<char>,
    now: Seq<char>,
    i: int,
)
    requires
        s.wf(),
        0 <= at < s.projects.len(),
        s.next_input < i64::MAX,
    ensures
        ({
            let p = s.projects[at];
            let r = store_inputs::input_queued(s, p.id, process, content, now);
            let v = p.processes[i].value;
            let up = v.status == Some("starting"@) || v.status == Some("running"@);
            &&& record_laws::is_missing(p.processes, process) ==> r == Err::<StoreView, ErrorView>(
                ErrorView::ProcessNotFound(process),
            )
            &&& record_laws::is_row(p.processes, i, process) && !up ==> r is Err
                && r->Err_0 is BadRequest
            &&& record_laws::is_row(p.processes, i, process) && up ==> {
                &&& r is Ok
                &&& r->Ok_0.inputs == s.inputs.push(
                    InputRowView {
                        id: s.next_input,
                        project: p.id,
                        process_id: process,
                        content,
                        created_at: now,
                        delivered_at: None,
                    },
                )
                &&& r->Ok_0.next_input == s.next_input + 1
                &&& r->Ok_0.pending == s.pending.push((p.id, Surface::Inputs))
                &&& r->Ok_0 == (StoreView {
                    inputs: r->Ok_0.inputs,
                    next_input: r->Ok_0.next_input,
                    pending: r->Ok_0.pending,
                    ..s
                })
            }
        }),
{
    let p = s.projects[at];
    lemma_project(s, at);
    record_laws::lemma_row(p.processes, p.next_id, process, i);
    let r = store_inputs::input_queued(s, p.id, process, content, now);
    if r is Ok {
        assert(r->Ok_0.pending =~= s.pending.push((p.id, Surface::Inputs)));
    }
}

/// Where numbers ascend, each project is found at its place.
pub proof fn lemma_project_place(projects: Seq<ProjectView>, at: int)
    requires
        0 <= at < projects.len(),
        forall|i: int, j: int|
            0 <= i < j < projects.len() ==> (#[trigger] projects[i]).id < (#[trigger] projects[j]).id,
    ensures
        store::place(projects, projects[at].id) == Some(at),
    decreases projects.len(),
{
    if at > 0 {
        let rest = projects.drop_first();
        assert(projects[0].id < projects[at].id);
        assert forall|i: int, j: int| 0 <= i < j < rest.len() implies (#[trigger] rest[i]).id < (
        #[trigger] rest[j]).id by {
            assert(projects[i + 1].id < projects[j + 1].id);
        }
        lemma_project_place(rest, at - 1);
        assert(rest[at - 1] == projects[at]);
    }
}

/// A project is found by its number.
pub proof fn lemma_project(s: StoreView, at: int)
    requires
        s.wf(),
        0 <= at < s.projects.len(),
    ensures
        s.project(s.projects[at].id) == s.projects[at],
        s.has(s.projects[at].id),
{
    lemma_project_place(s.projects, at);
}

/// What waits is what was queued for the project and not delivered, in the order
/// in which it was queued.
pub proof fn law_undelivered_input_waits(rows: Seq<InputRowView>, project: i64) -> (at: Seq<int>)
    ensures
        ({
            let out = store_inputs::waiting(rows, project);
            &&& picking::ascend(at)
            &&& at.len() == out.len()
            &&& forall|k: int|
                0 <= k < at.len() ==> 0 <= (#[trigger] at[k]) < rows.len() && out[k] == (
                    rows[at[k]].id,
                    rows[at[k]].process_id,
                    rows[at[k]].content,
                )
            &&& forall|i: int| #[trigger]
                at.contains(i) <==> 0 <= i < rows.len() && rows[i].project == project
                    && rows[i].delivered_at is None
        }),
    decreases rows.len(),
{
    if rows.len() == 0 {
        Seq::empty()
    } else {
        let front = rows.drop_last();
        let n = rows.len() - 1;
        let at0 = law_undelivered_input_waits(front, project);
        let out0 = store_inputs::waiting(front, project);
        let out = store_inputs::waiting(rows, project);
        let at = if store_inputs::is_waiting(rows[n], project) {
            at0.push(n)
        } else {
            at0
        };
        presence_laws::lemma_grown(at0, n);
        assert forall|k: int| 0 <= k < at.len() implies 0 <= (#[trigger] at[k]) < rows.len()
            && out[k] == (rows[at[k]].id, rows[at[k]].process_id, rows[at[k]].content) by {
            if k < at0.len() {
                assert(at0[k] == at[k]);
                assert(front[at0[k]] == rows[at[k]]);
                assert(out0[k] == out[k]);
            }
        }
        assert forall|i: int| #[trigger] at.contains(i) <==> 0 <= i < rows.len()
            && rows[i].project == project && rows[i].delivered_at is None by {
            picking::lemma_push_holds(at0, n, i);
            let _ = at0.contains(i);
            if 0 <= i < front.len() {
                assert(front[i] == rows[i]);
            }
        }
        at
    }
}

/// Input that is acknowledged was delivered at that moment; one that was delivered
/// before keeps its moment, and no other input changes.
pub proof fn law_acknowledging_input(
    rows: Seq<InputRowView>,
    project: i64,
    number: i64,
    now: Seq<char>,
    i: int,
)
    requires
        0 <= i < rows.len(),
    ensures
        ({
            let after = store_inputs::delivered(rows, project, number, now);
            &&& after.len() == rows.len()
            &&& rows[i].project == project && rows[i].id == number && rows[i].delivered_at is None
                ==> after[i] == (InputRowView { delivered_at: Some(now), ..rows[i] })
            &&& rows[i].project != project || rows[i].id != number || rows[i].delivered_at is Some
                ==> after[i] == rows[i]
        }),
{
}

// ---------------------------------------------------------------------------
// Sweeps
// ---------------------------------------------------------------------------

/// The processes of a project are shown anew with each tick exactly where it has
/// an agent that starts or runs and was not deleted.
pub proof fn law_projects_with_agents_are_shown_anew(projects: Seq<ProjectView>) -> (at: Seq<int>)
    ensures
        ({
            let out = store_sweeps::projects_with_agents(projects);
            &&& picking::ascend(at)
            &&& at.len() == out.len()
            &&& forall|k: int|
                0 <= k < at.len() ==> 0 <= (#[trigger] at[k]) < projects.len() && out[k]
                    == projects[at[k]].id
            &&& forall|i: int| #[trigger]
                at.contains(i) <==> 0 <= i < projects.len() && exists|j: int|
                    0 <= j < projects[i].processes.len() && is_up(
                        #[trigger] projects[i].processes[j],
                    )
        }),
    decreases projects.len(),
{
    if projects.len() == 0 {
        Seq::empty()
    } else {
        let front = projects.drop_last();
        let n = projects.len() - 1;
        let at0 = law_projects_with_agents_are_shown_anew(front);
        let out0 = store_sweeps::projects_with_agents(front);
        let out = store_sweeps::projects_with_agents(projects);
        let at = if processes::has_live_agent(projects[n]) {
            at0.push(n)
        } else {
            at0
        };
        presence_laws::lemma_grown(at0, n);
        assert forall|k: int| 0 <= k < at.len() implies 0 <= (#[trigger] at[k]) < projects.len()
            && out[k] == projects[at[k]].id by {
            if k < at0.len() {
                assert(at0[k] == at[k]);
                assert(front[at0[k]] == projects[at[k]]);
                assert(out0[k] == out[k]);
            }
        }
        assert forall|i: int| #[trigger] at.contains(i) <==> 0 <= i < projects.len() && exists|
            j: int,
        |
            0 <= j < projects[i].processes.len() && is_up(#[trigger] projects[i].processes[j]) by {
            picking::lemma_push_holds(at0, n, i);
            let _ = at0.contains(i);
            if 0 <= i < front.len() {
                assert(front[i] == projects[i]);
            }
            if i == n {
                lemma_up(projects[n]);
            }
        }
        at
    }
}

/// Whether a row is that of an agent that starts or runs.
pub open spec fn is_up(e: Entry<ProcessView>) -> bool {
    e.deleted_at is None && e.value.kind == ProcessKind::Agent && (e.value.status == Some(
        "starting"@,
    ) || e.value.status == Some("running"@))
}

/// A project has an agent that is up where a row is that of one.
proof fn lemma_up(p: ProjectView)
    ensures
        processes::has_live_agent(p) <==> exists|j: int|
            0 <= j < p.processes.len() && is_up(#[trigger] p.processes[j]),
{
    if processes::has_live_agent(p) {
        let j = choose|j: int|
            0 <= j < p.processes.len() && processes::is_live_agent(#[trigger] p.processes[j]);
        assert(is_up(p.processes[j]));
    }
    if exists|j: int| 0 <= j < p.processes.len() && is_up(#[trigger] p.processes[j]) {
        let j = choose|j: int| 0 <= j < p.processes.len() && is_up(#[trigger] p.processes[j]);
        assert(processes::is_live_agent(p.processes[j]));
    }
}

/// What a sweep of all projects finds dead is what it finds dead in each, named by
/// the project; each project is swept as it would be alone.
pub proof fn law_all_projects_are_swept(projects: Seq<ProjectView>, alive: Seq<i64>, d: (i64, u64))
    ensures
        store_sweeps::all_dead(projects, alive).contains(d) <==> exists|i: int|
            0 <= i < projects.len() && (#[trigger] projects[i]).id == d.0 && processes::dead_ids(
                projects[i].processes,
                alive,
            ).contains(d.1),
        store_sweeps::all_reaped(projects, alive).len() == projects.len(),
        forall|i: int|
            0 <= i < projects.len() ==> #[trigger] store_sweeps::all_reaped(projects, alive)[i] == (
            ProjectView {
                processes: processes::reaped(projects[i].processes, alive),
                ..projects[i]
            }),
    decreases projects.len(),
{
    if projects.len() > 0 {
        let front = projects.drop_last();
        let n = projects.len() - 1;
        law_all_projects_are_swept(front, alive, d);
        let before = store_sweeps::all_dead(front, alive);
        let ids = processes::dead_ids(projects[n].processes, alive);
        let named = ids.map_values(|id: u64| (projects.last().id, id));
        let all = store_sweeps::all_dead(projects, alive);
        assert(all == before + named);
        if all.contains(d) {
            let k = choose|k: int| 0 <= k < all.len() && all[k] == d;
            if k < before.len() {
                assert(before[k] == d);
                let i = choose|i: int|
                    0 <= i < front.len() && (#[trigger] front[i]).id == d.0 && processes::dead_ids(
                        front[i].processes,
                        alive,
                    ).contains(d.1);
                assert(projects[i] == front[i]);
            } else {
                assert(named[k - before.len()] == d);
                assert(ids[k - before.len()] == d.1);
                assert(projects[n].id == d.0);
            }
        }
        if exists|i: int|
            0 <= i < projects.len() && (#[trigger] projects[i]).id == d.0 && processes::dead_ids(
                projects[i].processes,
                alive,
            ).contains(d.1) {
            let i = choose|i: int|
                0 <= i < projects.len() && (#[trigger] projects[i]).id == d.0
                    && processes::dead_ids(projects[i].processes, alive).contains(d.1);
            if i < n {
                assert(front[i] == projects[i]);
                let k = choose|k: int| 0 <= k < before.len() && before[k] == d;
                assert(all[k] == d);
            } else {
                let k = choose|k: int| 0 <= k < ids.len() && ids[k] == d.1;
                assert(named[k] == d);
                assert(all[before.len() + k] == d);
            }
        }
    }
}

} // verus!
