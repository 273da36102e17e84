//! Which projects there are, and how each stands.

use vstd::prelude::*;
use vstd::string::*;

use crate::error::{CoreError, ErrorView};
use crate::locks;
use crate::model::{NoteView, ProjectId, ProjectSummary, ProjectSummaryView, TodoStatus};
use crate::paths;
use crate::project;
use crate::project::{Project, ProjectView, TodoRowView};
use crate::registry;
use crate::sorting;
use crate::store;
use crate::store::{Moment, Store, StoreView, Surface};
use crate::store_agents;
use crate::table::Entry;
use crate::text;

verus! {

// ---------------------------------------------------------------------------
// Finding a project
// ---------------------------------------------------------------------------

/// The place of the project with an identity.
pub open spec fn identity_place(projects: Seq<ProjectView>, identity: Seq<char>) -> Option<int>
    decreases projects.len(),
{
    if projects.len() == 0 {
        None
    } else if projects[0].identity == Some(identity) {
        Some(0int)
    } else {
        match identity_place(projects.drop_first(), identity) {
            Some(i) => Some(i + 1),
            None => None,
        }
    }
}

/// The place of the project with a root.
pub open spec fn root_place(projects: Seq<ProjectView>, root: Seq<char>) -> Option<int>
    decreases projects.len(),
{
    if projects.len() == 0 {
        None
    } else if projects[0].root == root {
        Some(0int)
    } else {
        match root_place(projects.drop_first(), root) {
            Some(i) => Some(i + 1),
            None => None,
        }
    }
}

/// The id of the next project.
pub open spec fn next_project(projects: Seq<ProjectView>) -> i64 {
    if projects.len() == 0 {
        1
    } else {
        (projects.last().id + 1) as i64
    }
}

/// The projects after one was asked for, and its id. It is known by its
/// identity. Where no project has that identity, the one with the same root is
/// taken; it gets the identity, unless the identity is only the root again.
/// Where there is none either, it is made.
pub open spec fn ensured(
    projects: Seq<ProjectView>,
    identity: Seq<char>,
    root: Seq<char>,
) -> (Seq<ProjectView>, i64) {
    match identity_place(projects, identity) {
        Some(i) => (projects, projects[i].id),
        None => match root_place(projects, root) {
            Some(i) => (
                if identity != root {
                    projects.update(
                        i,
                        ProjectView { identity: Some(identity), ..projects[i] },
                    )
                } else {
                    projects
                },
                projects[i].id,
            ),
            None => (
                projects.push(project::blank(next_project(projects), root, Some(identity))),
                next_project(projects),
            ),
        },
    }
}

/// The state after a project was asked for. The first time since the store was
/// opened, its whole tree is to be shown.
pub open spec fn opened(s: StoreView, identity: Seq<char>, root: Seq<char>) -> (StoreView, i64) {
    let (projects, id) = ensured(s.projects, identity, root);
    let after = StoreView { projects, ..s };
    if s.reprojected.contains(id) {
        (after, id)
    } else {
        (
            StoreView { reprojected: s.reprojected.push(id), ..after }.showing(
                id,
                seq![Surface::Everything],
            ),
            id,
        )
    }
}

/// What a search by identity finds has it; where it finds none, none has.
pub proof fn lemma_identity_place(projects: Seq<ProjectView>, identity: Seq<char>)
    ensures
        match identity_place(projects, identity) {
            Some(i) => 0 <= i < projects.len() && projects[i].identity == Some(identity)
                && forall|j: int|
                0 <= j < i ==> (#[trigger] projects[j]).identity != Some(identity),
            None => forall|j: int|
                0 <= j < projects.len() ==> (#[trigger] projects[j]).identity != Some(identity),
        },
    decreases projects.len(),
{
    if projects.len() > 0 && projects[0].identity != Some(identity) {
        let rest = projects.drop_first();
        lemma_identity_place(rest, identity);
        assert forall|j: int| 0 < j < projects.len() implies #[trigger] projects[j] == rest[j
            - 1] by {}
    }
}

/// What a search by root finds has it; where it finds none, none has.
pub proof fn lemma_root_place(projects: Seq<ProjectView>, root: Seq<char>)
    ensures
        match root_place(projects, root) {
            Some(i) => 0 <= i < projects.len() && projects[i].root == root && forall|j: int|
                0 <= j < i ==> (#[trigger] projects[j]).root != root,
            None => forall|j: int|
                0 <= j < projects.len() ==> (#[trigger] projects[j]).root != root,
        },
    decreases projects.len(),
{
    if projects.len() > 0 && projects[0].root != root {
        let rest = projects.drop_first();
        lemma_root_place(rest, root);
        assert forall|j: int| 0 < j < projects.len() implies #[trigger] projects[j] == rest[j
            - 1] by {}
    }
}

/// Two checkouts with one identity are one project, wherever they stand. The
/// exception is a root that serves as the identity of a project which has
/// another: from elsewhere it does not lead there.
pub proof fn law_identity_unifies(
    projects: Seq<ProjectView>,
    identity: Seq<char>,
    root: Seq<char>,
    elsewhere: Seq<char>,
)
    requires
        identity != root || identity_place(projects, identity) is Some || root_place(
            projects,
            root,
        ) is None || elsewhere == root,
    ensures
        ({
            let (after, id) = ensured(projects, identity, root);
            ensured(after, identity, elsewhere) == (after, id)
        }),
{
    let (after, id) = ensured(projects, identity, root);
    lemma_identity_place(projects, identity);
    lemma_root_place(projects, root);
    lemma_identity_place(after, identity);
    if identity_place(projects, identity) is None {
        match root_place(projects, root) {
            Some(i) => if identity != root {
                assert(after[i].identity == Some(identity));
                if let Some(j) = identity_place(after, identity) {
                    if j < i {
                        assert(after[j] == projects[j]);
                    }
                }
            },
            None => {
                let n = projects.len() as int;
                assert(after[n].identity == Some(identity));
                if let Some(j) = identity_place(after, identity) {
                    if j < n {
                        assert(after[j] == projects[j]);
                    }
                }
            },
        }
    }
}

/// Whoever knows a project by its root only finds it and changes nothing,
/// whatever identity it was given, unless the root is the identity of one.
pub proof fn law_root_does_not_clobber(projects: Seq<ProjectView>, root: Seq<char>)
    requires
        root_place(projects, root) is Some,
    ensures
        ensured(projects, root, root).0 == projects,
        ensured(projects, root, root).1 == projects[match identity_place(projects, root) {
            Some(i) => i,
            None => root_place(projects, root)->0,
        }].id,
{
}

/// Another identity keeps a project sound.
proof fn lemma_identity_keeps_wf(p: ProjectView, identity: Option<Seq<char>>)
    requires
        p.wf(),
    ensures
        (ProjectView { identity, ..p }).wf(),
{
    let q = ProjectView { identity, ..p };
    assert(q.ordered());
}

/// A project without rows is sound.
proof fn lemma_blank_wf(id: i64, root: Seq<char>, identity: Option<Seq<char>>)
    ensures
        project::blank(id, root, identity).wf(),
{
}

/// The projects after one was asked for: each was there or is new and sound,
/// and the ids stand in order.
proof fn lemma_ensured(projects: Seq<ProjectView>, identity: Seq<char>, root: Seq<char>)
    requires
        forall|i: int| 0 <= i < projects.len() ==> (#[trigger] projects[i]).wf(),
        forall|i: int, j: int|
            0 <= i < j < projects.len() ==> (#[trigger] projects[i]).id < (
            #[trigger] projects[j]).id,
        projects.len() > 0 ==> projects.last().id < i64::MAX,
    ensures
        ({
            let (after, id) = ensured(projects, identity, root);
            &&& forall|i: int| 0 <= i < after.len() ==> (#[trigger] after[i]).wf()
            &&& forall|i: int, j: int|
                0 <= i < j < after.len() ==> (#[trigger] after[i]).id < (#[trigger] after[j]).id
            &&& store::place(after, id) is Some
        }),
{
    let (after, id) = ensured(projects, identity, root);
    lemma_identity_place(projects, identity);
    lemma_root_place(projects, root);
    store::lemma_place(after, id);
    match identity_place(projects, identity) {
        Some(i) => {
            assert(after[i].id == id);
        },
        None => match root_place(projects, root) {
            Some(i) => {
                lemma_identity_keeps_wf(projects[i], Some(identity));
                assert(after[i].id == id);
                assert forall|k: int| 0 <= k < after.len() implies (#[trigger] after[k]).wf() by {
                    if k != i {
                        assert(after[k] == projects[k]);
                    }
                }
                assert forall|a: int, b: int| 0 <= a < b < after.len() implies (
                #[trigger] after[a]).id < (#[trigger] after[b]).id by {
                    assert(projects[a].id < projects[b].id);
                }
            },
            None => {
                let n = projects.len() as int;
                lemma_blank_wf(id, root, Some(identity));
                assert(after[n].id == id);
                assert forall|k: int| 0 <= k < after.len() implies (#[trigger] after[k]).wf() by {
                    if k < n {
                        assert(after[k] == projects[k]);
                    }
                }
                assert forall|a: int, b: int| 0 <= a < b < after.len() implies (
                #[trigger] after[a]).id < (#[trigger] after[b]).id by {
                    assert(after[a] == projects[a]);
                    if b < n {
                        assert(after[b] == projects[b]);
                    } else if a < n - 1 {
                        assert(projects[a].id < projects[n - 1].id);
                    }
                }
            },
        },
    }
}

/// Asking for a project keeps the store sound, and the project is there.
pub proof fn lemma_ensured_wf(s: StoreView, identity: Seq<char>, root: Seq<char>)
    requires
        s.wf(),
        s.projects.len() > 0 ==> s.projects.last().id < i64::MAX,
    ensures
        opened(s, identity, root).0.wf(),
        opened(s, identity, root).0.has(opened(s, identity, root).1),
{
    lemma_ensured(s.projects, identity, root);
}

// ---------------------------------------------------------------------------
// How a project stands
// ---------------------------------------------------------------------------

/// The name of a project: the end of its root, with a dash for all that is no
/// letter and no digit.
pub open spec fn project_name(root: Seq<char>) -> Seq<char> {
    let base = match paths::name_at_end(root) {
        Some(n) => n,
        None => "project"@,
    };
    base.map_values(
        |c: char|
            if text::is_alnum(c) {
                c
            } else {
                '-'
            },
    )
}

/// How many live todos have a status.
pub open spec fn count_todos(rows: Seq<Entry<TodoRowView>>, status: TodoStatus) -> nat
    decreases rows.len(),
{
    if rows.len() == 0 {
        0
    } else {
        count_todos(rows.drop_last(), status) + (if rows.last().deleted_at is None
            && rows.last().value.todo.status == status {
            1nat
        } else {
            0nat
        })
    }
}

/// The later of two moments; a blank one is none.
pub open spec fn later(a: Option<Seq<char>>, b: Seq<char>) -> Option<Seq<char>> {
    if b.len() == 0 {
        a
    } else {
        match a {
            Some(x) => if text::precedes(x, b) {
                Some(b)
            } else {
                a
            },
            None => Some(b),
        }
    }
}

/// When the last of some todos was changed.
pub open spec fn latest_todo(rows: Seq<Entry<TodoRowView>>) -> Option<Seq<char>>
    decreases rows.len(),
{
    if rows.len() == 0 {
        None
    } else if rows.last().deleted_at is None {
        later(latest_todo(rows.drop_last()), rows.last().value.todo.updated_at)
    } else {
        latest_todo(rows.drop_last())
    }
}

/// When the last of some notes was changed, or what is later still.
pub open spec fn latest_note(rows: Seq<Entry<NoteView>>, other: Option<Seq<char>>) -> Option<
    Seq<char>,
>
    decreases rows.len(),
{
    if rows.len() == 0 {
        other
    } else if rows.last().deleted_at is None {
        later(latest_note(rows.drop_last(), other), rows.last().value.updated_at)
    } else {
        latest_note(rows.drop_last(), other)
    }
}

/// When a live todo or note of a project was last changed.
pub open spec fn last_activity(p: ProjectView) -> Option<Seq<char>> {
    latest_note(p.notes, latest_todo(p.todos))
}

/// A project at a glance.
pub open spec fn summary(s: StoreView, p: ProjectView, now: u64) -> ProjectSummaryView {
    ProjectSummaryView {
        name: project_name(p.root),
        identity: match p.identity {
            Some(i) => i,
            None => p.root,
        },
        root: p.root,
        agents_active: registry::active_in(
            s.agents,
            p.id,
            now,
            store_agents::ACTIVE_PRESENCE,
        ),
        todos_open: count_todos(p.todos, TodoStatus::Open),
        todos_in_progress: count_todos(p.todos, TodoStatus::InProgress),
        locks_held: locks::locks_in(s.locks, p.id).len(),
        last_activity: last_activity(p),
    }
}

/// The contents of summaries.
pub open spec fn summary_views(v: Seq<ProjectSummary>) -> Seq<ProjectSummaryView> {
    v.map_values(|s: ProjectSummary| s@)
}

/// The projects, each at a glance, by id.
pub open spec fn summaries(s: StoreView, now: u64) -> Seq<ProjectSummaryView> {
    s.projects.map_values(|p: ProjectView| summary(s, p, now))
}

/// Whether a number is among some.
fn holds_id(ids: &Vec<i64>, id: i64) -> (r: bool)
    ensures
        r == ids@.contains(id),
{
    let mut i: usize = 0;
    while i < ids.len()
        invariant
            i <= ids.len(),
            forall|j: int| 0 <= j < i ==> (#[trigger] ids@[j]) != id,
        decreases ids.len() - i,
    {
        if ids[i] == id {
            assert(ids@[i as int] == id);
            return true;
        }
        i += 1;
    }
    false
}

/// The name of a project.
fn sanitized_basename(root: &str) -> (out: String)
    ensures
        out@ == project_name(root@),
{
    let base: &str = match paths::file_name(root) {
        Some(n) => n,
        None => "project",
    };
    let chars = text::chars_of(base);
    let ghost goal = project_name(root@);
    let mut out = String::new();
    let mut i: usize = 0;
    assert(out@ =~= goal.take(0));
    while i < chars.len()
        invariant
            i <= chars.len(),
            chars@ == base@,
            goal.len() == base@.len(),
            forall|k: int|
                0 <= k < goal.len() ==> #[trigger] goal[k] == (if text::is_alnum(base@[k]) {
                    base@[k]
                } else {
                    '-'
                }),
            out@ == goal.take(i as int),
        decreases chars.len() - i,
    {
        let c = chars[i];
        assert(goal.take(i + 1) =~= goal.take(i as int).push(goal[i as int]));
        if ('a' <= c && c <= 'z') || ('A' <= c && c <= 'Z') || ('0' <= c && c <= '9') {
            out.push(c);
        } else {
            out.push('-');
        }
        i += 1;
    }
    assert(goal.take(i as int) =~= goal);
    out
}

impl Project {
    /// How many live todos have a status.
    fn todos_with(&self, status: TodoStatus) -> (n: usize)
        ensures
            n == count_todos(self@.todos, status),
    {
        let ghost all = self@.todos;
        let mut n: usize = 0;
        let mut i: usize = 0;
        assert(all.take(0) =~= seq![]);
        while i < self.todos.rows.len()
            invariant
                i <= self.todos.rows.len(),
                n <= i,
                all == self@.todos,
                n == count_todos(all.take(i as int), status),
            decreases self.todos.rows.len() - i,
        {
            let row = &self.todos.rows[i];
            proof {
                assert(all.take(i + 1).drop_last() =~= all.take(i as int));
                assert(all.take(i + 1).last() == row@);
            }
            if row.deleted_at.is_none() && row.value.todo.status == status {
                n += 1;
            }
            i += 1;
        }
        assert(all.take(i as int) =~= all);
        n
    }

    /// When a live todo or note was last changed.
    fn last_change(&self) -> (r: Option<String>)
        ensures
            text::opt_text(r) == last_activity(self@),
    {
        let ghost all = self@.todos;
        let ghost rows = self@.notes;
        let mut best: Option<String> = None;
        let mut i: usize = 0;
        assert(all.take(0) =~= seq![]);
        while i < self.todos.rows.len()
            invariant
                i <= self.todos.rows.len(),
                all == self@.todos,
                text::opt_text(best) == latest_todo(all.take(i as int)),
            decreases self.todos.rows.len() - i,
        {
            let row = &self.todos.rows[i];
            proof {
                assert(all.take(i + 1).drop_last() =~= all.take(i as int));
                assert(all.take(i + 1).last() == row@);
            }
            if row.deleted_at.is_none() {
                best = take_later(best, row.value.todo.updated_at.as_str());
            }
            i += 1;
        }
        assert(all.take(i as int) =~= all);
        let ghost first = text::opt_text(best);
        let mut j: usize = 0;
        assert(rows.take(0) =~= seq![]);
        while j < self.notes.rows.len()
            invariant
                j <= self.notes.rows.len(),
                rows == self@.notes,
                text::opt_text(best) == latest_note(rows.take(j as int), first),
            decreases self.notes.rows.len() - j,
        {
            let row = &self.notes.rows[j];
            proof {
                assert(rows.take(j + 1).drop_last() =~= rows.take(j as int));
                assert(rows.take(j + 1).last() == row@);
            }
            if row.deleted_at.is_none() {
                best = take_later(best, row.value.updated_at.as_str());
            }
            j += 1;
        }
        assert(rows.take(j as int) =~= rows);
        best
    }
}

/// The later of two moments.
fn take_later(a: Option<String>, b: &str) -> (r: Option<String>)
    ensures
        text::opt_text(r) == later(text::opt_text(a), b@),
{
    if b.unicode_len() == 0 {
        return a;
    }
    match a {
        Some(x) => if text::before(x.as_str(), b) {
            Some(b.to_owned())
        } else {
            Some(x)
        },
        None => Some(b.to_owned()),
    }
}

impl Store {
    /// The place of the project with an identity.
    fn find_identity(&self, identity: &str) -> (r: Option<usize>)
        ensures
            text::opt_index(r) == identity_place(self@.projects, identity@),
            r matches Some(i) ==> i < self.projects.len(),
    {
        let ghost all = self@.projects;
        let mut i: usize = 0;
        assert(all.skip(0) =~= all);
        while i < self.projects.len()
            invariant
                i <= self.projects.len(),
                all == sorting::contents(self.projects@),
                identity_place(all, identity@) == (match identity_place(
                    all.skip(i as int),
                    identity@,
                ) {
                    Some(j) => Some(j + i),
                    None => None,
                }),
            decreases self.projects.len() - i,
        {
            assert(all.skip(i as int)[0] == self.projects@[i as int]@);
            if text::is_some_text(&self.projects[i].identity, identity) {
                return Some(i);
            }
            assert(all.skip(i as int).drop_first() =~= all.skip(i + 1));
            i += 1;
        }
        None
    }

    /// The place of the project with a root.
    fn find_root(&self, root: &str) -> (r: Option<usize>)
        ensures
            text::opt_index(r) == root_place(self@.projects, root@),
            r matches Some(i) ==> i < self.projects.len(),
    {
        let ghost all = self@.projects;
        let mut i: usize = 0;
        assert(all.skip(0) =~= all);
        while i < self.projects.len()
            invariant
                i <= self.projects.len(),
                all == sorting::contents(self.projects@),
                root_place(all, root@) == (match root_place(all.skip(i as int), root@) {
                    Some(j) => Some(j + i),
                    None => None,
                }),
            decreases self.projects.len() - i,
        {
            assert(all.skip(i as int)[0] == self.projects@[i as int]@);
            if text::same(self.projects[i].root.as_str(), root) {
                return Some(i);
            }
            assert(all.skip(i as int).drop_first() =~= all.skip(i + 1));
            i += 1;
        }
        None
    }

    /// Finds or makes the project with an identity. `root` is where its
    /// workspace stands.
    pub fn ensure_project_keyed(&mut self, identity: &str, root: &str) -> (project: ProjectId)
        requires
            old(self)@.wf(),
            old(self)@.projects.len() > 0 ==> old(self)@.projects.last().id < i64::MAX,
        ensures
            final(self)@ == opened(old(self)@, identity@, root@).0,
            project.0 == opened(old(self)@, identity@, root@).1,
            final(self)@.wf(),
            final(self)@.has(project.0),
    {
        proof {
            lemma_ensured_wf(self@, identity@, root@);
        }
        let ghost before = self@;
        let id: i64 = match self.find_identity(identity) {
            Some(i) => self.projects[i].id,
            None => match self.find_root(root) {
                Some(i) => {
                    if !text::same(identity, root) {
                        let key = Some(identity.to_owned());
                        let ghost was = self.projects@;
                        self.projects[i].identity = key;
                        proof {
                            assert(self.projects@ =~= was.update(
                                i as int,
                                Project { identity: key, ..was[i as int] },
                            ));
                            assert(self@.projects =~= ensured(
                                before.projects,
                                identity@,
                                root@,
                            ).0);
                        }
                    }
                    self.projects[i].id
                },
                None => {
                    let n: usize = self.projects.len();
                    let id: i64 = if n == 0 {
                        1
                    } else {
                        assert(before.projects.last() == self.projects@[n - 1]@);
                        self.projects[n - 1].id + 1
                    };
                    let p = Project::new(id, root.to_owned(), Some(identity.to_owned()));
                    let ghost was = self.projects@;
                    self.projects.push(p);
                    assert(sorting::contents(self.projects@) =~= sorting::contents(was).push(p@));
                    id
                },
            },
        };
        assert(self@ == (StoreView {
            projects: ensured(before.projects, identity@, root@).0,
            ..before
        }));
        if !holds_id(&self.reprojected, id) {
            self.reprojected.push(id);
            self.show(id, Surface::Everything);
        }
        ProjectId(id)
    }

    /// The project whose workspace is at `root`. `canonical` is the path that
    /// this leads to, if it leads anywhere.
    pub fn ensure_project(&mut self, root: &str, canonical: Option<&str>) -> (r: Result<
        ProjectId,
        CoreError,
    >)
        requires
            old(self)@.wf(),
            old(self)@.projects.len() > 0 ==> old(self)@.projects.last().id < i64::MAX,
        ensures
            match canonical {
                Some(c) => {
                    &&& r is Ok
                    &&& final(self)@ == opened(old(self)@, c@, c@).0
                    &&& r->Ok_0.0 == opened(old(self)@, c@, c@).1
                },
                None => r is Err && r->Err_0@ == ErrorView::Workspace(root@) && final(self)@
                    == old(self)@,
            },
            final(self)@.wf(),
    {
        match canonical {
            Some(c) => Ok(self.ensure_project_keyed(c, c)),
            None => Err(CoreError::Workspace(root.to_owned())),
        }
    }

    /// The project with an identity, shown at `root`. `canonical` is the path
    /// that this leads to, if it leads anywhere.
    pub fn ensure_project_by_identity(
        &mut self,
        identity: &str,
        root: &str,
        canonical: Option<&str>,
    ) -> (r: Result<ProjectId, CoreError>)
        requires
            old(self)@.wf(),
            old(self)@.projects.len() > 0 ==> old(self)@.projects.last().id < i64::MAX,
        ensures
            match canonical {
                Some(c) => {
                    &&& r is Ok
                    &&& final(self)@ == opened(old(self)@, identity@, c@).0
                    &&& r->Ok_0.0 == opened(old(self)@, identity@, c@).1
                },
                None => r is Err && r->Err_0@ == ErrorView::Workspace(root@) && final(self)@
                    == old(self)@,
            },
            final(self)@.wf(),
    {
        match canonical {
            Some(c) => Ok(self.ensure_project_keyed(identity, c)),
            None => Err(CoreError::Workspace(root.to_owned())),
        }
    }

    /// The projects, each at a glance, by id.
    pub fn project_list(&self, now: &Moment) -> (r: Result<Vec<ProjectSummary>, CoreError>)
        ensures
            r is Ok,
            summary_views(r->Ok_0@) == summaries(self@, now.nanos),
    {
        let ghost goal = summaries(self@, now.nanos);
        let mut out: Vec<ProjectSummary> = Vec::new();
        let mut i: usize = 0;
        assert(summary_views(out@) =~= goal.take(0));
        while i < self.projects.len()
            invariant
                i <= self.projects.len(),
                goal == summaries(self@, now.nanos),
                goal.len() == self.projects.len(),
                summary_views(out@) == goal.take(i as int),
            decreases self.projects.len() - i,
        {
            let ghost was = out@;
            let p = &self.projects[i];
            let held = self.locks.list(p.id);
            proof {
                sorting::law_sorted_by_same_values(
                    |a: crate::model::LockView, b: crate::model::LockView| locks::lock_after(a, b),
                    locks::locks_in(self@.locks, p.id),
                );
                let l = locks::locks_in(self@.locks, p.id);
                let m = locks::listed(self@.locks, p.id);
                assert(l.to_multiset().len() == l.len()) by {
                    l.to_multiset_ensures();
                }
                assert(m.to_multiset().len() == m.len()) by {
                    m.to_multiset_ensures();
                }
            }
            let s = ProjectSummary {
                name: sanitized_basename(p.root.as_str()),
                identity: match &p.identity {
                    Some(i) => i.clone(),
                    None => p.root.clone(),
                },
                root: p.root.clone(),
                agents_active: self.registry.active_of(
                    p.id,
                    store_agents::ACTIVE_PRESENCE,
                    now.nanos,
                ),
                todos_open: p.todos_with(TodoStatus::Open),
                todos_in_progress: p.todos_with(TodoStatus::InProgress),
                locks_held: held.len(),
                last_activity: p.last_change(),
            };
            out.push(s);
            proof {
                assert(goal[i as int] == s@);
                assert(summary_views(out@) =~= summary_views(was).push(s@));
                assert(goal.take(i + 1) =~= goal.take(i as int).push(goal[i as int]));
            }
            i += 1;
        }
        assert(goal.take(i as int) =~= goal);
        Ok(out)
    }
}

} // verus!
