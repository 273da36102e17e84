//! What can be done with notes, project by project.

use vstd::prelude::*;
use vstd::string::*;

use crate::error::{CoreError, ErrorView};
use crate::model::{Note, NotePatch, NoteView, ProjectId};
use crate::notes;
use crate::projection;
use crate::store;
use crate::store::{Moment, Store, StoreView, Surface};
use crate::table;
use crate::text;

verus! {

impl Store {
    /// Finishes an operation on a note: where it did something, the note and
    /// the index are left to be shown again.
    fn settle_note(
        &mut self,
        project: i64,
        i: usize,
        done: bool,
        id: u64,
        Ghost(before): Ghost<StoreView>,
    )
        requires
            before.wf(),
            store::place(before.projects, project) == Some(i as int),
            i < old(self).projects.len(),
            old(self)@ == (StoreView { projects: old(self)@.projects, ..before }),
            old(self)@.projects.len() == before.projects.len(),
            forall|k: int|
                0 <= k < before.projects.len() && k != i ==> #[trigger] old(self)@.projects[k]
                    == before.projects[k],
            old(self)@.projects[i as int].wf(),
            old(self)@.projects[i as int].id == project,
            !done ==> old(self)@.projects[i as int] == before.projects[i as int],
        ensures
            final(self)@ == (if done {
                before.with_project(project, old(self)@.projects[i as int]).showing(
                    project,
                    seq![Surface::Note(id), Surface::NotesIndex],
                )
            } else {
                before
            }),
            final(self)@.wf(),
    {
        self.settle_change(project, i, done, Surface::Note(id), Ghost(before));
        if done {
            self.show(project, Surface::NotesIndex);
            assert(before.pending + store::shows(project, seq![Surface::Note(id)]) + store::shows(
                project,
                seq![Surface::NotesIndex],
            ) =~= before.pending + store::shows(
                project,
                seq![Surface::Note(id), Surface::NotesIndex],
            ));
        }
    }

    /// Creates an empty note. Returns its id.
    pub fn note_create(&mut self, project: ProjectId, title: String, now: &Moment) -> (r: Result<
        u64,
        CoreError,
    >)
        requires
            old(self)@.wf(),
            old(self)@.has_room(project.0),
        ensures
            store::settles(
                r,
                if old(self)@.has(project.0) {
                    Ok(notes::note_added(old(self)@.project(project.0), title@, now.text@))
                } else {
                    Err(ErrorView::ProjectNotFound(project.0))
                },
                project.0,
                seq![
                    Surface::Note(old(self)@.project(project.0).next_id),
                    Surface::NotesIndex,
                ],
                old(self)@,
                final(self)@,
            ),
            r matches Ok(id) ==> id == old(self)@.project(project.0).next_id,
            final(self)@.wf(),
    {
        let ghost before = self@;
        let i: usize = match self.find_project(project.0) {
            Some(i) => i,
            None => return Err(CoreError::ProjectNotFound(project.0)),
        };
        proof {
            store::lemma_place(before.projects, project.0);
        }
        let id: u64 = self.projects[i].note_create(title, now.text.as_str());
        self.settle_note(project.0, i, true, id, Ghost(before));
        Ok(id)
    }

    /// The ids and titles of the notes of a project, by id.
    pub fn note_list(&self, project: ProjectId) -> (r: Result<Vec<(u64, String)>, CoreError>)
        ensures
            r is Ok,
            notes::title_views(r->Ok_0@) == notes::titles_of(
                table::live_values(self@.project(project.0).notes),
            ),
    {
        match self.find_project(project.0) {
            Some(i) => Ok(self.projects[i].note_list()),
            None => {
                let out: Vec<(u64, String)> = Vec::new();
                assert(notes::title_views(out@) =~= notes::titles_of(
                    table::live_values(self@.project(project.0).notes),
                ));
                Ok(out)
            },
        }
    }

    /// The rows of the index of notes.
    pub fn note_index_rows(&self, project: ProjectId) -> (r: Vec<(u64, String, String)>)
        ensures
            projection::row_views(r@) == notes::index_rows(
                table::live_values(self@.project(project.0).notes),
            ),
    {
        match self.find_project(project.0) {
            Some(i) => self.projects[i].note_index_rows(),
            None => {
                let out: Vec<(u64, String, String)> = Vec::new();
                assert(projection::row_views(out@) =~= notes::index_rows(
                    table::live_values(self@.project(project.0).notes),
                ));
                out
            },
        }
    }

    /// The ids and titles of the notes of a project that answer a search.
    pub fn note_search(
        &self,
        project: ProjectId,
        query: Option<&str>,
        require_tags: &Vec<String>,
    ) -> (r: Result<Vec<(u64, String)>, CoreError>)
        ensures
            r is Ok,
            notes::title_views(r->Ok_0@) == notes::titles_of(
                notes::notes_found(
                    self@.project(project.0),
                    text::opt_str(query),
                    text::texts(require_tags@),
                ),
            ),
    {
        match self.find_project(project.0) {
            Some(i) => Ok(self.projects[i].note_search(query, require_tags)),
            None => {
                let out: Vec<(u64, String)> = Vec::new();
                assert(notes::title_views(out@) =~= notes::titles_of(
                    notes::notes_found(
                        self@.project(project.0),
                        text::opt_str(query),
                        text::texts(require_tags@),
                    ),
                )) by {
                    reveal(Seq::filter);
                    assert(table::live_values(self@.project(project.0).notes) =~= seq![]);
                }
                Ok(out)
            },
        }
    }

    /// The body of a note.
    pub fn note_read(&self, project: ProjectId, id: u64) -> (r: Result<String, CoreError>)
        ensures
            match r {
                Ok(s) => notes::note_at(self@.project(project.0), id) is Ok && s@
                    == notes::note_at(self@.project(project.0), id)->Ok_0.body,
                Err(e) => notes::note_at(self@.project(project.0), id) == Err::<
                    NoteView,
                    ErrorView,
                >(e@),
            },
    {
        match self.find_project(project.0) {
            Some(i) => self.projects[i].note_read(id),
            None => Err(CoreError::NoteNotFound(id)),
        }
    }

    /// A note in full.
    pub fn note_get(&self, project: ProjectId, id: u64) -> (r: Result<Note, CoreError>)
        ensures
            match r {
                Ok(n) => notes::note_at(self@.project(project.0), id) == Ok::<NoteView, ErrorView>(
                    n@,
                ),
                Err(e) => notes::note_at(self@.project(project.0), id) == Err::<
                    NoteView,
                    ErrorView,
                >(e@),
            },
    {
        match self.find_project(project.0) {
            Some(i) => self.projects[i].note_get(id),
            None => Err(CoreError::NoteNotFound(id)),
        }
    }

    /// The tags that live todos and notes of a project use, in order, each
    /// once.
    pub fn tags_list(&self, project: ProjectId) -> (r: Result<Vec<String>, CoreError>)
        ensures
            r is Ok,
            forall|i: int, j: int|
                0 <= i < j < r->Ok_0@.len() ==> text::precedes(
                    (#[trigger] r->Ok_0@[i])@,
                    (#[trigger] r->Ok_0@[j])@,
                ),
            forall|t: Seq<char>| #[trigger]
                text::texts(r->Ok_0@).contains(t) == (t.len() > 0 && notes::tag_in_use(
                    self@.project(project.0),
                    t,
                )),
    {
        match self.find_project(project.0) {
            Some(i) => Ok(self.projects[i].tags_list()),
            None => Ok(Vec::new()),
        }
    }

    /// The tags of a project: todos and notes share them.
    pub fn todo_tags_list(&self, project: ProjectId) -> (r: Result<Vec<String>, CoreError>)
        ensures
            r is Ok,
            forall|i: int, j: int|
                0 <= i < j < r->Ok_0@.len() ==> text::precedes(
                    (#[trigger] r->Ok_0@[i])@,
                    (#[trigger] r->Ok_0@[j])@,
                ),
            forall|t: Seq<char>| #[trigger]
                text::texts(r->Ok_0@).contains(t) == (t.len() > 0 && notes::tag_in_use(
                    self@.project(project.0),
                    t,
                )),
    {
        self.tags_list(project)
    }

    /// Appends to a note, on a line of its own.
    pub fn note_append(
        &mut self,
        project: ProjectId,
        id: u64,
        content: &str,
        now: &Moment,
    ) -> (r: Result<(), CoreError>)
        requires
            old(self)@.wf(),
        ensures
            store::settles(
                r,
                notes::on_note(
                    old(self)@.project(project.0),
                    id,
                    |n: NoteView| notes::note_grown(n, content@, now.text@),
                ),
                project.0,
                seq![Surface::Note(id), Surface::NotesIndex],
                old(self)@,
                final(self)@,
            ),
            final(self)@.wf(),
    {
        let ghost before = self@;
        let i: usize = match self.find_project(project.0) {
            Some(i) => i,
            None => return Err(CoreError::NoteNotFound(id)),
        };
        proof {
            store::lemma_place(before.projects, project.0);
        }
        let r = self.projects[i].note_append(id, content, now.text.as_str());
        self.settle_note(project.0, i, r.is_ok(), id, Ghost(before));
        r
    }

    /// Edits a note.
    pub fn note_update(
        &mut self,
        project: ProjectId,
        id: u64,
        patch: NotePatch,
        now: &Moment,
    ) -> (r: Result<(), CoreError>)
        requires
            old(self)@.wf(),
        ensures
            store::settles(
                r,
                notes::on_note(
                    old(self)@.project(project.0),
                    id,
                    |n: NoteView| notes::note_edited(n, patch, now.text@),
                ),
                project.0,
                seq![Surface::Note(id), Surface::NotesIndex],
                old(self)@,
                final(self)@,
            ),
            final(self)@.wf(),
    {
        let ghost before = self@;
        let i: usize = match self.find_project(project.0) {
            Some(i) => i,
            None => return Err(CoreError::NoteNotFound(id)),
        };
        proof {
            store::lemma_place(before.projects, project.0);
        }
        let r = self.projects[i].note_update(id, patch, now.text.as_str());
        self.settle_note(project.0, i, r.is_ok(), id, Ghost(before));
        r
    }

    /// Deletes a note.
    pub fn note_delete(
        &mut self,
        project: ProjectId,
        id: u64,
        now: &Moment,
    ) -> (r: Result<(), CoreError>)
        requires
            old(self)@.wf(),
        ensures
            store::settles(
                r,
                notes::note_deleted(old(self)@.project(project.0), id, now.text@),
                project.0,
                seq![Surface::NotesIndex],
                old(self)@,
                final(self)@,
            ),
            final(self)@.wf(),
    {
        let ghost before = self@;
        let i: usize = match self.find_project(project.0) {
            Some(i) => i,
            None => return Err(CoreError::NoteNotFound(id)),
        };
        proof {
            store::lemma_place(before.projects, project.0);
        }
        let r = self.projects[i].note_delete(id, now.text.as_str());
        self.settle_change(project.0, i, r.is_ok(), Surface::NotesIndex, Ghost(before));
        r
    }
}

} // verus!
