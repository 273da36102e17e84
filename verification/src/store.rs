//! The shared state of all projects. The rows are kept here; whoever holds the
//! store writes them to disk, and writes the files of each surface that an
//! operation leaves to be shown again.

use vstd::prelude::*;
use vstd::string::*;

use crate::error::{CoreError, ErrorView};
use crate::locks;
use crate::locks::Locks;
use crate::model::{AgentView, LockView, ProjectId};
use crate::profile_set::ProfileSet;
use crate::project;
use crate::project::{Project, ProjectView};
use crate::registry;
use crate::registry::Registry;
use crate::sorting;
use crate::text;

verus! {

/// A moment: as it is written to rows, in seconds, and in nanoseconds.
#[derive(Debug)]
pub struct Moment {
    pub text: String,
    pub secs: i64,
    pub nanos: u64,
}

/// A part of what is shown of a project.
#[derive(Debug, Clone, Copy, PartialEq, Eq, Structural)]
pub enum Surface {
    /// The todos: their index and the file of each.
    Todos,
    /// The file of a note.
    Note(u64),
    /// The index of notes.
    NotesIndex,
    AgentTools,
    Processes,
    Agents,
    Locks,
    /// The input that waits for processes.
    Inputs,
    /// The whole tree, from the beginning.
    Everything,
}

/// Input for a process.
#[derive(Debug)]
pub struct InputRow {
    pub id: i64,
    pub project: i64,
    pub process_id: u64,
    pub content: String,
    pub created_at: String,
    /// When it was delivered.
    pub delivered_at: Option<String>,
}

/// The contents of an [`InputRow`].
pub struct InputRowView {
    pub id: i64,
    pub project: i64,
    pub process_id: u64,
    pub content: Seq<char>,
    pub created_at: Seq<char>,
    pub delivered_at: Option<Seq<char>>,
}

impl View for InputRow {
    type V = InputRowView;

    open spec fn view(&self) -> InputRowView {
        InputRowView {
            id: self.id,
            project: self.project,
            process_id: self.process_id,
            content: self.content@,
            created_at: self.created_at@,
            delivered_at: text::opt_text(self.delivered_at),
        }
    }
}

/// The shared state.
#[derive(Debug)]
pub struct Store {
    pub projects: Vec<Project>,
    pub inputs: Vec<InputRow>,
    pub next_input: i64,
    pub profiles: ProfileSet,
    /// The type of a tool that names none.
    pub default_type: String,
    pub registry: Registry,
    pub locks: Locks,
    /// The projects whose tree was written since the store was opened.
    pub reprojected: Vec<i64>,
    /// What is to be shown again, in order.
    pub pending: Vec<(i64, Surface)>,
}

/// The contents of a [`Store`].
pub struct StoreView {
    pub projects: Seq<ProjectView>,
    pub inputs: Seq<InputRowView>,
    pub next_input: i64,
    pub profiles: ProfileSet,
    pub default_type: Seq<char>,
    pub agents: Seq<(i64, AgentView)>,
    pub locks: Seq<(i64, LockView)>,
    pub reprojected: Seq<i64>,
    pub pending: Seq<(i64, Surface)>,
}

impl View for Store {
    type V = StoreView;

    open spec fn view(&self) -> StoreView {
        StoreView {
            projects: sorting::contents(self.projects@),
            inputs: sorting::contents(self.inputs@),
            next_input: self.next_input,
            profiles: self.profiles,
            default_type: self.default_type@,
            agents: self.registry@,
            locks: self.locks@,
            reprojected: self.reprojected@,
            pending: self.pending@,
        }
    }
}

/// The place of a project.
pub open spec fn place(projects: Seq<ProjectView>, id: i64) -> Option<int>
    decreases projects.len(),
{
    if projects.len() == 0 {
        None
    } else if projects[0].id == id {
        Some(0int)
    } else {
        match place(projects.drop_first(), id) {
            Some(i) => Some(i + 1),
            None => None,
        }
    }
}

/// What a search finds is the project; where it finds none, there is none.
pub proof fn lemma_place(projects: Seq<ProjectView>, id: i64)
    ensures
        match place(projects, id) {
            Some(i) => 0 <= i < projects.len() && projects[i].id == id && forall|j: int|
                0 <= j < i ==> (#[trigger] projects[j]).id != id,
            None => forall|j: int| 0 <= j < projects.len() ==> (#[trigger] projects[j]).id != id,
        },
    decreases projects.len(),
{
    if projects.len() > 0 && projects[0].id != id {
        let rest = projects.drop_first();
        lemma_place(rest, id);
        assert forall|j: int| 0 < j < projects.len() implies #[trigger] projects[j] == rest[j
            - 1] by {}
    }
}

/// Something to be shown again of a project.
pub open spec fn shows(project: i64, what: Seq<Surface>) -> Seq<(i64, Surface)> {
    what.map_values(|s: Surface| (project, s))
}

impl StoreView {
    /// Whether a project is there.
    pub open spec fn has(self, id: i64) -> bool {
        place(self.projects, id) is Some
    }

    /// A project; one without rows where it is not there.
    pub open spec fn project(self, id: i64) -> ProjectView {
        match place(self.projects, id) {
            Some(i) => self.projects[i],
            None => project::blank(id, seq![], None),
        }
    }

    /// Another value for a project.
    pub open spec fn with_project(self, id: i64, p: ProjectView) -> StoreView {
        StoreView { projects: self.projects.update(place(self.projects, id)->0, p), ..self }
    }

    /// More to be shown again.
    pub open spec fn showing(self, id: i64, what: Seq<Surface>) -> StoreView {
        StoreView { pending: self.pending + shows(id, what), ..self }
    }

    /// Every project is sound, and their ids stand in order; the input stands
    /// in the order of its numbers; no agent and no lock stands twice.
    pub open spec fn wf(self) -> bool {
        &&& forall|i: int| 0 <= i < self.projects.len() ==> (#[trigger] self.projects[i]).wf()
        &&& forall|i: int, j: int|
            0 <= i < j < self.projects.len() ==> (#[trigger] self.projects[i]).id < (
            #[trigger] self.projects[j]).id
        &&& forall|i: int, j: int|
            0 <= i < j < self.inputs.len() ==> (#[trigger] self.inputs[i]).id < (
            #[trigger] self.inputs[j]).id
        &&& forall|i: int|
            0 <= i < self.inputs.len() ==> (#[trigger] self.inputs[i]).id < self.next_input
        &&& self.profiles.wf()
        &&& registry::unique_agents(self.agents)
        &&& locks::unique_locks(self.locks)
    }

    /// There is a number for one more row of a project.
    pub open spec fn has_room(self, id: i64) -> bool {
        self.project(id).has_room()
    }
}

/// Whether an operation on one project did what was asked: it changed the
/// project and left something to be shown again, or it was refused with an
/// error and changed nothing.
pub open spec fn settles<T>(
    r: Result<T, CoreError>,
    want: Result<ProjectView, ErrorView>,
    id: i64,
    what: Seq<Surface>,
    before: StoreView,
    after: StoreView,
) -> bool {
    match want {
        Ok(p) => r is Ok && after == before.with_project(id, p).showing(id, what),
        Err(e) => r is Err && r->Err_0@ == e && after == before,
    }
}

/// A new value in a project keeps the store sound.
pub proof fn lemma_with_project_wf(s: StoreView, id: i64, p: ProjectView, what: Seq<Surface>)
    requires
        s.wf(),
        s.has(id),
        p.wf(),
        p.id == id,
    ensures
        s.with_project(id, p).showing(id, what).wf(),
{
    lemma_place(s.projects, id);
    let i = place(s.projects, id)->0;
    let after = s.projects.update(i, p);
    assert forall|k: int| 0 <= k < after.len() implies (#[trigger] after[k]).wf() by {
        if k != i {
            assert(after[k] == s.projects[k]);
        }
    }
    assert forall|a: int, b: int| 0 <= a < b < after.len() implies (#[trigger] after[a]).id < (
    #[trigger] after[b]).id by {
        assert(after[a].id == s.projects[a].id && after[b].id == s.projects[b].id);
    }
}

/// What is written to a project is what is read from it.
pub proof fn law_written_project_is_read(
    s: StoreView,
    id: i64,
    p: ProjectView,
    what: Seq<Surface>,
)
    requires
        s.has(id),
        p.id == id,
    ensures
        s.with_project(id, p).showing(id, what).project(id) == p,
        s.with_project(id, p).showing(id, what).has(id),
{
    let i = place(s.projects, id)->0;
    let after = s.projects.update(i, p);
    lemma_place(s.projects, id);
    lemma_place(after, id);
    assert(after[i].id == id);
    if let Some(j) = place(after, id) {
        if j < i {
            assert(after[j] == s.projects[j]);
        }
    }
}

/// What is done in one project does not touch another.
pub proof fn law_projects_are_isolated(
    s: StoreView,
    id: i64,
    p: ProjectView,
    what: Seq<Surface>,
    other: i64,
)
    requires
        s.wf(),
        s.has(id),
        p.id == id,
        other != id,
    ensures
        s.with_project(id, p).showing(id, what).project(other) == s.project(other),
{
    let i = place(s.projects, id)->0;
    let after = s.projects.update(i, p);
    lemma_place(s.projects, id);
    lemma_place(s.projects, other);
    lemma_place(after, other);
    assert forall|k: int| 0 <= k < after.len() implies (#[trigger] after[k]).id
        == s.projects[k].id by {}
    match (place(s.projects, other), place(after, other)) {
        (Some(a), Some(b)) => {
            if a < b {
                assert(after[a].id == other);
            }
            if b < a {
                assert(s.projects[b].id == other);
            }
            assert(a != i);
        },
        (Some(a), None) => {
            assert(after[a].id == other);
        },
        (None, Some(b)) => {
            assert(s.projects[b].id == other);
        },
        (None, None) => {},
    }
}

/// Nothing changes without being shown again: whatever an operation on a
/// project changes, it leaves something to be shown of that project.
pub proof fn law_no_change_without_showing<T>(
    r: Result<T, CoreError>,
    want: Result<ProjectView, ErrorView>,
    id: i64,
    what: Seq<Surface>,
    before: StoreView,
    after: StoreView,
)
    requires
        settles(r, want, id, what, before, after),
        what.len() > 0,
    ensures
        after.projects != before.projects ==> after.pending.len() > before.pending.len()
            && after.pending.last().0 == id,
{
    if after.projects != before.projects {
        assert(after.pending == before.pending + shows(id, what));
        assert(after.pending.last() == shows(id, what).last());
    }
}

impl Store {
    /// A store without projects. A tool that names no type is of type
    /// `default_type`.
    pub fn open(profiles: ProfileSet, default_type: String) -> (s: Store)
        requires
            profiles.wf(),
        ensures
            s@ == (StoreView {
                projects: seq![],
                inputs: seq![],
                next_input: 1,
                profiles,
                default_type: default_type@,
                agents: seq![],
                locks: seq![],
                reprojected: seq![],
                pending: seq![],
            }),
            s@.wf(),
    {
        let s = Store {
            projects: Vec::new(),
            inputs: Vec::new(),
            next_input: 1,
            profiles,
            default_type,
            registry: Registry::default(),
            locks: Locks::default(),
            reprojected: Vec::new(),
            pending: Vec::new(),
        };
        proof {
            assert(s@.projects =~= seq![]);
            assert(s@.inputs =~= seq![]);
            assert(s@.reprojected =~= seq![]);
            assert(s@.pending =~= seq![]);
        }
        s
    }

    /// The place of a project.
    pub fn find_project(&self, id: i64) -> (r: Option<usize>)
        ensures
            text::opt_index(r) == place(self@.projects, id),
            r matches Some(i) ==> i < self.projects.len(),
    {
        let ghost all = self@.projects;
        let mut i: usize = 0;
        assert(all.skip(0) =~= all);
        while i < self.projects.len()
            invariant
                i <= self.projects.len(),
                all == sorting::contents(self.projects@),
                place(all, id) == (match place(all.skip(i as int), id) {
                    Some(j) => Some(j + i),
                    None => None,
                }),
            decreases self.projects.len() - i,
        {
            assert(all.skip(i as int)[0] == self.projects@[i as int]@);
            if self.projects[i].id == id {
                return Some(i);
            }
            assert(all.skip(i as int).drop_first() =~= all.skip(i + 1));
            i += 1;
        }
        None
    }

    /// Leaves something to be shown again.
    pub fn show(&mut self, id: i64, what: Surface)
        ensures
            final(self)@ == old(self)@.showing(id, seq![what]),
    {
        self.pending.push((id, what));
        assert(self@.pending =~= old(self)@.pending + shows(id, seq![what]));
        assert(self@ == old(self)@.showing(id, seq![what]));
    }

    /// Finishes an operation on the project at a place: where it did
    /// something, what changed is left to be shown again.
    pub(crate) fn settle_change(
        &mut self,
        id: i64,
        i: usize,
        done: bool,
        what: Surface,
        Ghost(before): Ghost<StoreView>,
    )
        requires
            before.wf(),
            place(before.projects, id) == Some(i as int),
            i < old(self).projects.len(),
            old(self)@ == (StoreView { projects: old(self)@.projects, ..before }),
            old(self)@.projects.len() == before.projects.len(),
            forall|k: int|
                0 <= k < before.projects.len() && k != i ==> #[trigger] old(self)@.projects[k]
                    == before.projects[k],
            old(self)@.projects[i as int].wf(),
            old(self)@.projects[i as int].id == id,
            !done ==> old(self)@.projects[i as int] == before.projects[i as int],
        ensures
            final(self)@ == (if done {
                before.with_project(id, old(self)@.projects[i as int]).showing(id, seq![what])
            } else {
                before
            }),
            final(self)@.wf(),
    {
        proof {
            lemma_place(before.projects, id);
            lemma_with_project_wf(before, id, self@.projects[i as int], seq![what]);
            assert(self@.projects =~= before.projects.update(
                i as int,
                self@.projects[i as int],
            ));
        }
        if done {
            self.show(id, what);
        } else {
            assert(self@.projects =~= before.projects);
        }
    }

    /// Takes what is to be shown again.
    pub fn take_pending(&mut self) -> (out: Vec<(i64, Surface)>)
        ensures
            out@ == old(self)@.pending,
            final(self)@ == (StoreView { pending: seq![], ..old(self)@ }),
    {
        let mut out: Vec<(i64, Surface)> = Vec::new();
        let mut i: usize = 0;
        while i < self.pending.len()
            invariant
                i <= self.pending.len(),
                out@ == self.pending@.take(i as int),
            decreases self.pending.len() - i,
        {
            out.push(self.pending[i]);
            assert(self.pending@.take(i + 1) =~= self.pending@.take(i as int).push(
                self.pending@[i as int],
            ));
            i += 1;
        }
        assert(self.pending@.take(i as int) =~= self.pending@);
        self.pending = Vec::new();
        assert(self@.pending =~= seq![]);
        out
    }

    /// Where the workspace of a project is.
    pub fn project_root(&self, project: ProjectId) -> (r: Result<String, CoreError>)
        ensures
            match r {
                Ok(s) => self@.has(project.0) && s@ == self@.project(project.0).root,
                Err(e) => !self@.has(project.0) && e@ == ErrorView::ProjectNotFound(project.0),
            },
    {
        match self.find_project(project.0) {
            Some(i) => Ok(self.projects[i].root.clone()),
            None => Err(CoreError::ProjectNotFound(project.0)),
        }
    }
}

} // verus!
