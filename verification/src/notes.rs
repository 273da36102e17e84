//! The notes of a project, and the tags that notes and todos share.

use vstd::prelude::*;
use vstd::string::*;

use crate::error::{CoreError, ErrorView};
use crate::model;
use crate::model::{Note, NotePatch, NoteView};
use crate::project;
use crate::project::{Project, ProjectView};
use crate::projection;
use crate::table;
use crate::table::Table;
use crate::text;
use crate::textmap::TextMap;
use crate::todo_ops;
use crate::todos;

verus! {

/// A new note.
pub open spec fn new_note(id: u64, title: Seq<char>, now: Seq<char>) -> NoteView {
    NoteView { id, title, body: seq![], tags: seq![], created_at: now, updated_at: now }
}

/// A project with one note more.
pub open spec fn note_added(p: ProjectView, title: Seq<char>, now: Seq<char>) -> ProjectView {
    ProjectView {
        next_id: (p.next_id + 1) as u64,
        notes: table::with_row(p.notes, p.next_id, new_note(p.next_id, title, now)),
        ..p
    }
}

/// A note.
pub open spec fn note_at(p: ProjectView, id: u64) -> Result<NoteView, ErrorView> {
    match table::live_value(p.notes, id) {
        Some(n) => Ok(n),
        None => Err(ErrorView::NoteNotFound(id)),
    }
}

/// A project with another value for a note.
pub open spec fn with_note(p: ProjectView, i: int, n: NoteView) -> ProjectView {
    ProjectView { notes: table::with_value(p.notes, i, n), ..p }
}

/// A project after a change of one note.
pub open spec fn on_note(
    p: ProjectView,
    id: u64,
    change: spec_fn(NoteView) -> NoteView,
) -> Result<ProjectView, ErrorView> {
    match table::live_place(p.notes, id) {
        Some(i) => Ok(with_note(p, i, change(p.notes[i].value))),
        None => Err(ErrorView::NoteNotFound(id)),
    }
}

/// A text with more behind it, on a line of its own.
pub open spec fn appended(body: Seq<char>, content: Seq<char>) -> Seq<char> {
    if body.len() > 0 && body.last() != '\n' {
        body.push('\n') + content
    } else {
        body + content
    }
}

/// A note with more behind its body.
pub open spec fn note_grown(n: NoteView, content: Seq<char>, now: Seq<char>) -> NoteView {
    NoteView { body: appended(n.body, content), updated_at: now, ..n }
}

/// A note after an edit.
pub open spec fn note_edited(n: NoteView, patch: NotePatch, now: Seq<char>) -> NoteView {
    NoteView {
        title: model::edited(patch.title, n.title),
        body: model::edited(patch.body, n.body),
        tags: model::edited_all(patch.tags, n.tags),
        updated_at: now,
        ..n
    }
}

/// A project after a note was deleted.
pub open spec fn note_deleted(p: ProjectView, id: u64, now: Seq<char>) -> Result<
    ProjectView,
    ErrorView,
> {
    match table::live_place(p.notes, id) {
        Some(i) => Ok(ProjectView { notes: table::with_deleted(p.notes, i, now), ..p }),
        None => Err(ErrorView::NoteNotFound(id)),
    }
}

/// The ids and titles of notes.
pub open spec fn titles_of(notes: Seq<NoteView>) -> Seq<(u64, Seq<char>)> {
    notes.map_values(|n: NoteView| (n.id, n.title))
}

/// The contents of ids and titles.
pub open spec fn title_views(v: Seq<(u64, String)>) -> Seq<(u64, Seq<char>)> {
    v.map_values(|t: (u64, String)| (t.0, t.1@))
}

/// The rows of the index of notes.
pub open spec fn index_rows(notes: Seq<NoteView>) -> Seq<(u64, Seq<char>, Seq<char>)> {
    notes.map_values(|n: NoteView| (n.id, n.title, n.updated_at))
}

/// Whether a note answers a search.
pub open spec fn note_answers(n: NoteView, q: Option<Seq<char>>, tags: Seq<Seq<char>>) -> bool {
    todos::answers(n.id, n.title, n.body, q) && todos::has_tags(n.tags, tags)
}

/// The notes that answer a search, by id.
pub open spec fn notes_found(p: ProjectView, q: Option<Seq<char>>, tags: Seq<Seq<char>>) -> Seq<
    NoteView,
> {
    table::live_values(p.notes).filter(|n: NoteView| note_answers(n, q, tags))
}

/// Whether a tag is in use: on a live todo or a live note.
pub open spec fn tag_in_use(p: ProjectView, tag: Seq<char>) -> bool {
    ||| exists|i: int|
        0 <= i < p.todos.len() && (#[trigger] p.todos[i]).deleted_at is None
            && p.todos[i].value.todo.tags.contains(tag)
    ||| exists|i: int|
        0 <= i < p.notes.len() && (#[trigger] p.notes[i]).deleted_at is None
            && p.notes[i].value.tags.contains(tag)
}

// ---------------------------------------------------------------------------
// What every operation keeps
// ---------------------------------------------------------------------------

/// A value with the id of its row keeps the project sound and its numbers apart.
pub proof fn lemma_with_note_wf(p: ProjectView, i: int, n: NoteView)
    requires
        p.wf(),
        0 <= i < p.notes.len(),
        n.id == p.notes[i].id,
    ensures
        with_note(p, i, n).wf(),
        p.told_apart() ==> with_note(p, i, n).told_apart(),
{
    let after = with_note(p, i, n);
    project::lemma_value_same_ids(p.notes, i, n);
    project::lemma_same_ids_ordered(p, after);
}

/// One note more keeps the project sound and its numbers apart.
pub proof fn lemma_note_added_wf(p: ProjectView, title: Seq<char>, now: Seq<char>)
    requires
        p.wf(),
        p.has_room(),
    ensures
        note_added(p, title, now).wf(),
        p.told_apart() ==> note_added(p, title, now).told_apart(),
{
    let after = note_added(p, title, now);
    let id = p.next_id;
    let n = new_note(id, title, now);
    project::lemma_row_in_order(p.notes, id, n);
    project::lemma_counter_grows(p.todos, id, after.next_id);
    project::lemma_counter_grows(p.tools, id, after.next_id);
    project::lemma_counter_grows(p.processes, id, after.next_id);
    if p.told_apart() {
        project::lemma_apart_turned(p.todos, p.notes);
        project::lemma_row_apart(p.notes, p.todos, id, n);
        project::lemma_row_apart(p.notes, p.tools, id, n);
        project::lemma_row_apart(p.notes, p.processes, id, n);
    }
}

/// Deleting a note keeps the project sound and its numbers apart.
pub proof fn lemma_note_deleted_wf(p: ProjectView, i: int, now: Seq<char>)
    requires
        p.wf(),
        0 <= i < p.notes.len(),
    ensures
        (ProjectView { notes: table::with_deleted(p.notes, i, now), ..p }).wf(),
        p.told_apart() ==> (
        ProjectView { notes: table::with_deleted(p.notes, i, now), ..p }).told_apart(),
{
    let after = ProjectView { notes: table::with_deleted(p.notes, i, now), ..p };
    project::lemma_deleted_same_ids(p.notes, i, now);
    project::lemma_same_ids_ordered(p, after);
    assert forall|k: int| 0 <= k < after.notes.len() implies (#[trigger] after.notes[k]).value.id
        == after.notes[k].id by {
        assert(p.notes[k].value.id == p.notes[k].id);
    }
}

/// What was created is read back: the title, and nothing else yet.
pub proof fn law_created_note_is_read(p: ProjectView, title: Seq<char>, now: Seq<char>)
    requires
        p.wf(),
        p.has_room(),
    ensures
        note_at(note_added(p, title, now), p.next_id) == Ok::<NoteView, ErrorView>(
            new_note(p.next_id, title, now),
        ),
{
    table::law_added_is_found(p.notes, p.next_id, new_note(p.next_id, title, now));
}

/// What is appended comes behind all that was there, and between two pieces
/// there is a line break.
pub proof fn law_appending_keeps_body(body: Seq<char>, content: Seq<char>)
    ensures
        appended(body, content).take(body.len() as int) == body,
        text::ends(appended(body, content), content),
        body.len() > 0 ==> appended(body, content).take(
            appended(body, content).len() - content.len(),
        ).last() == '\n',
{
    let after = appended(body, content);
    assert(after.take(body.len() as int) =~= body);
    assert(after.subrange(after.len() - content.len(), after.len() as int) =~= content);
}

/// A deleted note is not found.
pub proof fn law_deleted_note_is_gone(p: ProjectView, id: u64, now: Seq<char>)
    requires
        p.wf(),
        table::has_live(p.notes, id),
    ensures
        note_at(note_deleted(p, id, now)->Ok_0, id) is Err,
{
    project::lemma_in_order_unique(p.notes, p.next_id);
    table::law_deleted_is_gone(p.notes, id, now);
}

/// A search without conditions finds every note.
pub proof fn law_open_note_search_finds_all(p: ProjectView)
    ensures
        notes_found(p, None, seq![]) == table::live_values(p.notes),
{
    lemma_keep_all(
        table::live_values(p.notes),
        |n: NoteView| note_answers(n, None, seq![]),
    );
}

proof fn lemma_keep_all(s: Seq<NoteView>, keep: spec_fn(NoteView) -> bool)
    requires
        forall|n: NoteView| #[trigger] keep(n),
    ensures
        s.filter(keep) == s,
    decreases s.len(),
{
    reveal(Seq::filter);
    if s.len() > 0 {
        lemma_keep_all(s.drop_last(), keep);
        assert(keep(s.last()));
        assert(s.drop_last().push(s.last()) =~= s);
    } else {
        assert(s.filter(keep) =~= s);
    }
}

// ---------------------------------------------------------------------------
// Operations
// ---------------------------------------------------------------------------

/// The live notes, by id.
fn live_notes(notes: &Table<Note>) -> (out: Vec<Note>)
    ensures
        out@.map_values(|n: Note| n@) == table::live_values(notes@),
{
    let ghost all = notes@;
    let mut out: Vec<Note> = Vec::new();
    let mut i: usize = 0;
    assert(all.take(0) =~= seq![]);
    assert(out@.map_values(|n: Note| n@) =~= table::live_values(all.take(0)));
    while i < notes.rows.len()
        invariant
            i <= notes.rows.len(),
            all == notes@,
            out@.map_values(|n: Note| n@) == table::live_values(all.take(i as int)),
        decreases notes.rows.len() - i,
    {
        let ghost was = out@;
        proof {
            let part = all.take(i + 1);
            assert(part.drop_last() =~= all.take(i as int));
            assert(part.last() == notes.rows@[i as int]@);
        }
        if notes.rows[i].deleted_at.is_none() {
            let n = notes.rows[i].value.copy();
            out.push(n);
            assert(out@.map_values(|n: Note| n@) =~= was.map_values(|n: Note| n@).push(n@));
        }
        i += 1;
    }
    assert(all.take(i as int) =~= all);
    out
}

/// Puts the tags that are not blank into a set.
fn collect_tags(set: &mut TextMap<bool>, tags: &Vec<String>)
    requires
        old(set).wf(),
    ensures
        final(set).wf(),
        forall|t: Seq<char>| #[trigger]
            final(set).has(t) == (old(set).has(t) || (t.len() > 0 && text::texts(tags@).contains(t))),
{
    let ghost all = text::texts(tags@);
    let ghost was = *set;
    let mut i: usize = 0;
    assert(all.take(0) =~= seq![]);
    while i < tags.len()
        invariant
            i <= tags.len(),
            all == text::texts(tags@),
            set.wf(),
            forall|t: Seq<char>| #[trigger]
                set.has(t) == (was.has(t) || (t.len() > 0 && all.take(i as int).contains(t))),
        decreases tags.len() - i,
    {
        let ghost before = *set;
        let ghost part = all.take(i as int);
        let ghost next = all.take(i + 1);
        let ghost tag = tags@[i as int]@;
        proof {
            assert(next =~= part.push(tag));
            assert forall|t: Seq<char>| #[trigger] next.contains(t) == (part.contains(t) || t
                == tag) by {
                if next.contains(t) {
                    let k = choose|k: int| 0 <= k < next.len() && next[k] == t;
                    if k < part.len() {
                        assert(part[k] == t);
                    }
                }
                if part.contains(t) {
                    let k = choose|k: int| 0 <= k < part.len() && part[k] == t;
                    assert(next[k] == t);
                }
                if t == tag {
                    assert(next[i as int] == t);
                }
            }
        }
        if tags[i].as_str().unicode_len() > 0 {
            let t = tags[i].clone();
            set.insert(t, true);
        }
        proof {
            assert forall|t: Seq<char>| #[trigger] set.has(t) == (was.has(t) || (t.len() > 0
                && next.contains(t))) by {
                assert(before.has(t) == (was.has(t) || (t.len() > 0 && part.contains(t))));
                assert(next.contains(t) == (part.contains(t) || t == tag));
                if t != tag {
                    assert(set.has(t) == before.has(t));
                }
            }
        }
        i += 1;
    }
    assert(all.take(i as int) =~= all);
}

impl Project {
    /// Creates an empty note.
    pub fn note_create(&mut self, title: String, now: &str) -> (id: u64)
        requires
            old(self)@.wf(),
            old(self)@.has_room(),
        ensures
            id == old(self)@.next_id,
            final(self)@ == note_added(old(self)@, title@, now@),
            final(self)@.wf(),
    {
        proof {
            lemma_note_added_wf(self@, title@, now@);
        }
        let id: u64 = self.next_id;
        let note = Note {
            id,
            title,
            body: String::new(),
            tags: Vec::new(),
            created_at: now.to_owned(),
            updated_at: now.to_owned(),
        };
        assert(text::texts(note.tags@) =~= seq![]);
        self.notes.add(id, note);
        self.next_id = id + 1;
        id
    }

    /// A note in full.
    pub fn note_get(&self, id: u64) -> (r: Result<Note, CoreError>)
        ensures
            match r {
                Ok(n) => note_at(self@, id) == Ok::<NoteView, ErrorView>(n@),
                Err(e) => note_at(self@, id) == Err::<NoteView, ErrorView>(e@),
            },
    {
        match self.notes.find(id) {
            Some(i) => {
                proof {
                    table::lemma_live_place(self.notes@, id);
                }
                Ok(self.notes.at(i).copy())
            },
            None => Err(CoreError::NoteNotFound(id)),
        }
    }

    /// The ids and titles of the notes, by id.
    pub fn note_list(&self) -> (out: Vec<(u64, String)>)
        ensures
            title_views(out@) == titles_of(table::live_values(self@.notes)),
    {
        let list = live_notes(&self.notes);
        let ghost all = list@.map_values(|n: Note| n@);
        let ghost goal = titles_of(all);
        let mut out: Vec<(u64, String)> = Vec::new();
        let mut i: usize = 0;
        assert(title_views(out@) =~= goal.take(0));
        while i < list.len()
            invariant
                i <= list.len(),
                all == list@.map_values(|n: Note| n@),
                goal == titles_of(all),
                title_views(out@) == goal.take(i as int),
            decreases list.len() - i,
        {
            let ghost was = out@;
            let e = (list[i].id, list[i].title.clone());
            out.push(e);
            proof {
                assert(goal[i as int] == (e.0, e.1@));
                assert(title_views(out@) =~= title_views(was).push((e.0, e.1@)));
                assert(goal.take(i + 1) =~= goal.take(i as int).push(goal[i as int]));
            }
            i += 1;
        }
        assert(goal.take(i as int) =~= goal);
        out
    }

    /// The rows of the index of notes: id, title and when it was changed.
    pub fn note_index_rows(&self) -> (out: Vec<(u64, String, String)>)
        ensures
            projection::row_views(out@) == index_rows(table::live_values(self@.notes)),
    {
        let list = live_notes(&self.notes);
        let ghost all = list@.map_values(|n: Note| n@);
        let ghost goal = index_rows(all);
        let mut out: Vec<(u64, String, String)> = Vec::new();
        let mut i: usize = 0;
        assert(projection::row_views(out@) =~= goal.take(0));
        while i < list.len()
            invariant
                i <= list.len(),
                all == list@.map_values(|n: Note| n@),
                goal == index_rows(all),
                projection::row_views(out@) == goal.take(i as int),
            decreases list.len() - i,
        {
            let ghost was = out@;
            let e = (list[i].id, list[i].title.clone(), list[i].updated_at.clone());
            out.push(e);
            proof {
                assert(goal[i as int] == (e.0, e.1@, e.2@));
                assert(projection::row_views(out@) =~= projection::row_views(was).push(
                    (e.0, e.1@, e.2@),
                ));
                assert(goal.take(i + 1) =~= goal.take(i as int).push(goal[i as int]));
            }
            i += 1;
        }
        assert(goal.take(i as int) =~= goal);
        out
    }

    /// The ids and titles of the notes that answer a search, by id.
    pub fn note_search(&self, query: Option<&str>, require_tags: &Vec<String>) -> (out: Vec<
        (u64, String),
    >)
        ensures
            title_views(out@) == titles_of(
                notes_found(self@, text::opt_str(query), text::texts(require_tags@)),
            ),
    {
        let list = live_notes(&self.notes);
        let ghost all = list@.map_values(|n: Note| n@);
        let ghost keep = |n: NoteView|
            note_answers(n, text::opt_str(query), text::texts(require_tags@));
        let mut out: Vec<(u64, String)> = Vec::new();
        let mut i: usize = 0;
        assert(all.take(0) =~= seq![]);
        assert(title_views(out@) =~= titles_of(all.take(0).filter(keep))) by {
            reveal(Seq::filter);
        }
        while i < list.len()
            invariant
                i <= list.len(),
                all == list@.map_values(|n: Note| n@),
                keep == (|n: NoteView|
                    note_answers(n, text::opt_str(query), text::texts(require_tags@))),
                title_views(out@) == titles_of(all.take(i as int).filter(keep)),
            decreases list.len() - i,
        {
            let ghost was = out@;
            let n = &list[i];
            let ghost found = all.take(i as int).filter(keep);
            proof {
                let part = all.take(i + 1);
                assert(part.drop_last() =~= all.take(i as int));
                assert(part.last() == n@);
                reveal(Seq::filter);
            }
            if todo_ops::answers_query(n.id, n.title.as_str(), n.body.as_str(), query)
                && todo_ops::holds_tags(&n.tags, require_tags) {
                let e = (n.id, n.title.clone());
                out.push(e);
                proof {
                    assert(title_views(out@) =~= title_views(was).push((e.0, e.1@)));
                    assert(titles_of(found.push(n@)) =~= titles_of(found).push((n.id, n.title@)));
                }
            }
            i += 1;
        }
        assert(all.take(i as int) =~= all);
        out
    }

    /// Appends to a note, on a line of its own.
    pub fn note_append(&mut self, id: u64, content: &str, now: &str) -> (r: Result<(), CoreError>)
        requires
            old(self)@.wf(),
        ensures
            project::settles(
                r,
                on_note(old(self)@, id, |n: NoteView| note_grown(n, content@, now@)),
                old(self)@,
                final(self)@,
            ),
            final(self)@.wf(),
    {
        let i: usize = match self.notes.find(id) {
            Some(i) => i,
            None => return Err(CoreError::NoteNotFound(id)),
        };
        let mut note = self.notes.at(i).copy();
        let ghost was = note@;
        let n: usize = note.body.as_str().unicode_len();
        if n > 0 && note.body.as_str().get_char(n - 1) != '\n' {
            note.body.push('\n');
        }
        note.body.append(content);
        note.updated_at = now.to_owned();
        proof {
            table::lemma_live_place(self.notes@, id);
            assert(note@ == note_grown(was, content@, now@));
            assert(self@.notes[i as int].value.id == self@.notes[i as int].id);
            lemma_with_note_wf(self@, i as int, note@);
        }
        self.notes.set(i, note);
        Ok(())
    }

    /// The body of a note.
    pub fn note_read(&self, id: u64) -> (r: Result<String, CoreError>)
        ensures
            match r {
                Ok(s) => note_at(self@, id) is Ok && s@ == note_at(self@, id)->Ok_0.body,
                Err(e) => note_at(self@, id) == Err::<NoteView, ErrorView>(e@),
            },
    {
        match self.note_get(id) {
            Ok(n) => Ok(n.body),
            Err(e) => Err(e),
        }
    }

    /// Edits a note.
    pub fn note_update(&mut self, id: u64, patch: NotePatch, now: &str) -> (r: Result<(), CoreError>)
        requires
            old(self)@.wf(),
        ensures
            project::settles(
                r,
                on_note(old(self)@, id, |n: NoteView| note_edited(n, patch, now@)),
                old(self)@,
                final(self)@,
            ),
            final(self)@.wf(),
    {
        let i: usize = match self.notes.find(id) {
            Some(i) => i,
            None => return Err(CoreError::NoteNotFound(id)),
        };
        let mut note = self.notes.at(i).copy();
        let ghost was = note@;
        if let Some(v) = patch.title {
            note.title = v;
        }
        if let Some(v) = patch.body {
            note.body = v;
        }
        if let Some(v) = patch.tags {
            note.tags = v;
        }
        note.updated_at = now.to_owned();
        proof {
            table::lemma_live_place(self.notes@, id);
            assert(note@ == note_edited(was, patch, now@));
            assert(self@.notes[i as int].value.id == self@.notes[i as int].id);
            lemma_with_note_wf(self@, i as int, note@);
        }
        self.notes.set(i, note);
        Ok(())
    }

    /// Deletes a note.
    pub fn note_delete(&mut self, id: u64, now: &str) -> (r: Result<(), CoreError>)
        requires
            old(self)@.wf(),
        ensures
            project::settles(r, note_deleted(old(self)@, id, now@), old(self)@, final(self)@),
            final(self)@.wf(),
    {
        match self.notes.find(id) {
            Some(i) => {
                proof {
                    table::lemma_live_place(self.notes@, id);
                    lemma_note_deleted_wf(self@, i as int, now@);
                }
                self.notes.delete(i, now);
                Ok(())
            },
            None => Err(CoreError::NoteNotFound(id)),
        }
    }

    /// The tags that live todos and notes use, in order, each once.
    pub fn tags_list(&self) -> (out: Vec<String>)
        ensures
            forall|i: int, j: int|
                0 <= i < j < out@.len() ==> text::precedes(
                    (#[trigger] out@[i])@,
                    (#[trigger] out@[j])@,
                ),
            forall|t: Seq<char>| #[trigger]
                text::texts(out@).contains(t) == (t.len() > 0 && tag_in_use(self@, t)),
    {
        let mut set: TextMap<bool> = TextMap::new();
        let ghost all = self@.todos;
        let ghost rows = self@.notes;
        let mut i: usize = 0;
        while i < self.todos.rows.len()
            invariant
                i <= self.todos.rows.len(),
                all == self@.todos,
                set.wf(),
                forall|t: Seq<char>| #[trigger]
                    set.has(t) == (t.len() > 0 && exists|k: int|
                        0 <= k < i && (#[trigger] all[k]).deleted_at is None
                            && all[k].value.todo.tags.contains(t)),
            decreases self.todos.rows.len() - i,
        {
            let ghost before = set;
            assert(all[i as int] == self.todos.rows@[i as int]@);
            if self.todos.rows[i].deleted_at.is_none() {
                collect_tags(&mut set, &self.todos.rows[i].value.todo.tags);
            }
            proof {
                assert forall|t: Seq<char>| #[trigger] set.has(t) == (t.len() > 0 && exists|k: int|
                    0 <= k < i + 1 && (#[trigger] all[k]).deleted_at is None
                        && all[k].value.todo.tags.contains(t)) by {
                    assert(before.has(t) == (t.len() > 0 && exists|k: int|
                        0 <= k < i && (#[trigger] all[k]).deleted_at is None
                            && all[k].value.todo.tags.contains(t)));
                    if set.has(t) && !before.has(t) {
                        assert(all[i as int].deleted_at is None);
                    }
                }
            }
            i += 1;
        }
        let ghost base = set;
        let mut j: usize = 0;
        while j < self.notes.rows.len()
            invariant
                j <= self.notes.rows.len(),
                rows == self@.notes,
                set.wf(),
                forall|t: Seq<char>| #[trigger]
                    set.has(t) == (base.has(t) || (t.len() > 0 && exists|k: int|
                        0 <= k < j && (#[trigger] rows[k]).deleted_at is None
                            && rows[k].value.tags.contains(t))),
            decreases self.notes.rows.len() - j,
        {
            let ghost before = set;
            assert(rows[j as int] == self.notes.rows@[j as int]@);
            if self.notes.rows[j].deleted_at.is_none() {
                collect_tags(&mut set, &self.notes.rows[j].value.tags);
            }
            proof {
                assert forall|t: Seq<char>| #[trigger] set.has(t) == (base.has(t) || (t.len() > 0
                    && exists|k: int|
                    0 <= k < j + 1 && (#[trigger] rows[k]).deleted_at is None
                        && rows[k].value.tags.contains(t))) by {
                    assert(before.has(t) == (base.has(t) || (t.len() > 0 && exists|k: int|
                        0 <= k < j && (#[trigger] rows[k]).deleted_at is None
                            && rows[k].value.tags.contains(t))));
                    if set.has(t) && !before.has(t) {
                        assert(rows[j as int].deleted_at is None);
                    }
                }
            }
            j += 1;
        }
        let ghost goal = set.key_list();
        let mut out: Vec<String> = Vec::new();
        let mut k: usize = 0;
        assert(text::texts(out@) =~= goal.take(0));
        while k < set.len()
            invariant
                k <= set.list().len(),
                goal == set.key_list(),
                text::texts(out@) == goal.take(k as int),
            decreases set.list().len() - k,
        {
            let ghost was = out@;
            let t = set.at(k).0.clone();
            out.push(t);
            proof {
                assert(goal[k as int] == t@);
                assert(text::texts(out@) =~= text::texts(was).push(t@));
                assert(goal.take(k + 1) =~= goal.take(k as int).push(goal[k as int]));
            }
            k += 1;
        }
        assert(goal.take(k as int) =~= goal);
        proof {
            assert forall|a: int, b: int| 0 <= a < b < out@.len() implies text::precedes(
                (#[trigger] out@[a])@,
                (#[trigger] out@[b])@,
            ) by {
                assert(text::texts(out@)[a] == goal[a] && text::texts(out@)[b] == goal[b]);
            }
            assert forall|t: Seq<char>| #[trigger] text::texts(out@).contains(t) == (t.len() > 0
                && tag_in_use(self@, t)) by {
                assert(set.has(t) == goal.contains(t));
                assert(base.has(t) == (t.len() > 0 && exists|k: int|
                    0 <= k < all.len() && (#[trigger] all[k]).deleted_at is None
                        && all[k].value.todo.tags.contains(t)));
            }
        }
        out
    }
}

} // verus!
