//! A table of numbered rows. Deleting a row only marks it: it stays behind,
//! and every read passes over it.

use vstd::prelude::*;
use vstd::string::*;

use crate::text;

verus! {

/// One row.
#[derive(Debug)]
pub struct Row<R> {
    pub id: u64,
    /// When the row was deleted.
    pub deleted_at: Option<String>,
    pub value: R,
}

/// The contents of a [`Row`].
pub struct Entry<V> {
    pub id: u64,
    pub deleted_at: Option<Seq<char>>,
    pub value: V,
}

impl<R: View> View for Row<R> {
    type V = Entry<R::V>;

    open spec fn view(&self) -> Entry<R::V> {
        Entry { id: self.id, deleted_at: text::opt_text(self.deleted_at), value: self.value@ }
    }
}

/// Rows, in the order in which they were added.
#[derive(Debug)]
pub struct Table<R> {
    pub rows: Vec<Row<R>>,
}

impl<R: View> View for Table<R> {
    type V = Seq<Entry<R::V>>;

    open spec fn view(&self) -> Seq<Entry<R::V>> {
        self.rows@.map_values(|r: Row<R>| r@)
    }
}

/// Whether a row is the live one with an id.
pub open spec fn is_live<V>(e: Entry<V>, id: u64) -> bool {
    e.id == id && e.deleted_at is None
}

/// The place of the live row with an id.
pub open spec fn live_place<V>(rows: Seq<Entry<V>>, id: u64) -> Option<int>
    decreases rows.len(),
{
    if rows.len() == 0 {
        None
    } else if is_live(rows[0], id) {
        Some(0int)
    } else {
        match live_place(rows.drop_first(), id) {
            Some(i) => Some(i + 1),
            None => None,
        }
    }
}

/// The value of the live row with an id.
pub open spec fn live_value<V>(rows: Seq<Entry<V>>, id: u64) -> Option<V> {
    match live_place(rows, id) {
        Some(i) => Some(rows[i].value),
        None => None,
    }
}

/// Whether there is a live row with an id.
pub open spec fn has_live<V>(rows: Seq<Entry<V>>, id: u64) -> bool {
    live_place(rows, id) is Some
}

/// The values of the live rows, in order.
pub open spec fn live_values<V>(rows: Seq<Entry<V>>) -> Seq<V>
    decreases rows.len(),
{
    if rows.len() == 0 {
        seq![]
    } else if rows.last().deleted_at is None {
        live_values(rows.drop_last()).push(rows.last().value)
    } else {
        live_values(rows.drop_last())
    }
}

/// A new row at the end.
pub open spec fn with_row<V>(rows: Seq<Entry<V>>, id: u64, value: V) -> Seq<Entry<V>> {
    rows.push(Entry { id, deleted_at: None, value })
}

/// Another value in a row.
pub open spec fn with_value<V>(rows: Seq<Entry<V>>, i: int, value: V) -> Seq<Entry<V>> {
    rows.update(i, Entry { value, ..rows[i] })
}

/// A row marked as deleted.
pub open spec fn with_deleted<V>(rows: Seq<Entry<V>>, i: int, now: Seq<char>) -> Seq<Entry<V>> {
    rows.update(i, Entry { deleted_at: Some(now), ..rows[i] })
}

/// Every id stands in one row only.
pub open spec fn unique_ids<V>(rows: Seq<Entry<V>>) -> bool {
    forall|i: int, j: int|
        0 <= i < j < rows.len() ==> (#[trigger] rows[i]).id != (#[trigger] rows[j]).id
}

/// What a search finds is live, and the first; where it finds nothing, nothing
/// is.
pub proof fn lemma_live_place<V>(rows: Seq<Entry<V>>, id: u64)
    ensures
        match live_place(rows, id) {
            Some(i) => 0 <= i < rows.len() && is_live(rows[i], id) && forall|j: int|
                0 <= j < i ==> !is_live(#[trigger] rows[j], id),
            None => forall|j: int| 0 <= j < rows.len() ==> !is_live(#[trigger] rows[j], id),
        },
    decreases rows.len(),
{
    if rows.len() > 0 && !is_live(rows[0], id) {
        let rest = rows.drop_first();
        lemma_live_place(rest, id);
        assert forall|j: int| 0 < j < rows.len() implies #[trigger] rows[j] == rest[j - 1] by {}
    }
}

/// A row that was deleted is found no more.
pub proof fn law_deleted_is_gone<V>(rows: Seq<Entry<V>>, id: u64, now: Seq<char>)
    requires
        unique_ids(rows),
        has_live(rows, id),
    ensures
        !has_live(with_deleted(rows, live_place(rows, id)->0, now), id),
{
    let i = live_place(rows, id)->0;
    let after = with_deleted(rows, i, now);
    lemma_live_place(rows, id);
    lemma_live_place(after, id);
    if let Some(j) = live_place(after, id) {
        assert(is_live(after[j], id));
        if j != i {
            assert(after[j] == rows[j]);
            assert(rows[i].id == rows[j].id);
        }
    }
}

/// A row that was deleted stays behind.
pub proof fn law_deleted_stays_behind<V>(rows: Seq<Entry<V>>, i: int, now: Seq<char>)
    requires
        0 <= i < rows.len(),
    ensures
        with_deleted(rows, i, now).len() == rows.len(),
        with_deleted(rows, i, now)[i].id == rows[i].id,
        with_deleted(rows, i, now)[i].value == rows[i].value,
{
}

/// A row that was added is found.
pub proof fn law_added_is_found<V>(rows: Seq<Entry<V>>, id: u64, value: V)
    requires
        forall|i: int| 0 <= i < rows.len() ==> (#[trigger] rows[i]).id != id,
    ensures
        live_value(with_row(rows, id, value), id) == Some(value),
{
    let after = with_row(rows, id, value);
    lemma_live_place(after, id);
    assert(is_live(after[rows.len() as int], id));
    if let Some(j) = live_place(after, id) {
        if j < rows.len() {
            assert(after[j] == rows[j]);
        }
    }
}

/// What is written to a row is what is read from it, and no other row changes.
pub proof fn law_written_is_read<V>(rows: Seq<Entry<V>>, id: u64, value: V, other: u64)
    requires
        unique_ids(rows),
        has_live(rows, id),
    ensures
        ({
            let after = with_value(rows, live_place(rows, id)->0, value);
            &&& live_value(after, id) == Some(value)
            &&& other != id ==> live_value(after, other) == live_value(rows, other)
        }),
{
    let i = live_place(rows, id)->0;
    let after = with_value(rows, i, value);
    lemma_live_place(rows, id);
    lemma_live_place(after, id);
    assert(is_live(after[i], id));
    if let Some(j) = live_place(after, id) {
        if j < i {
            assert(after[j] == rows[j]);
        }
    }
    if other != id {
        lemma_live_place(rows, other);
        lemma_live_place(after, other);
        assert forall|j: int| 0 <= j < rows.len() implies is_live(#[trigger] after[j], other)
            == is_live(rows[j], other) by {
            if j != i {
                assert(after[j] == rows[j]);
            }
        }
        match (live_place(rows, other), live_place(after, other)) {
            (Some(a), Some(b)) => {
                if a < b {
                    assert(is_live(after[a], other));
                }
                if b < a {
                    assert(is_live(after[b], other));
                }
                assert(a != i);
            },
            (Some(a), None) => {
                assert(is_live(after[a], other));
            },
            (None, Some(b)) => {
                assert(is_live(after[b], other));
            },
            (None, None) => {},
        }
    }
}

impl<R: View> Table<R> {
    /// A table without rows.
    pub fn new() -> (t: Table<R>)
        ensures
            t@ == Seq::<Entry<R::V>>::empty(),
    {
        let t = Table { rows: Vec::new() };
        assert(t@ =~= Seq::<Entry<R::V>>::empty());
        t
    }

    /// The place of the live row with an id.
    pub fn find(&self, id: u64) -> (r: Option<usize>)
        ensures
            text::opt_index(r) == live_place(self@, id),
            r matches Some(i) ==> i < self.rows.len(),
    {
        let ghost all = self@;
        let mut i: usize = 0;
        assert(all.skip(0) =~= all);
        while i < self.rows.len()
            invariant
                i <= self.rows.len(),
                all == self@,
                live_place(all, id) == (match live_place(all.skip(i as int), id) {
                    Some(j) => Some(j + i),
                    None => None,
                }),
            decreases self.rows.len() - i,
        {
            assert(all.skip(i as int)[0] == self.rows@[i as int]@);
            if self.rows[i].id == id && self.rows[i].deleted_at.is_none() {
                return Some(i);
            }
            assert(all.skip(i as int).drop_first() =~= all.skip(i + 1));
            i += 1;
        }
        None
    }

    /// Whether there is a live row with an id.
    pub fn has(&self, id: u64) -> (r: bool)
        ensures
            r == has_live(self@, id),
    {
        self.find(id).is_some()
    }

    /// The value of a row.
    pub fn at(&self, i: usize) -> (v: &R)
        requires
            i < self.rows.len(),
        ensures
            v@ == self@[i as int].value,
    {
        &self.rows[i].value
    }

    /// Adds a row.
    pub fn add(&mut self, id: u64, value: R)
        ensures
            final(self)@ == with_row(old(self)@, id, value@),
    {
        self.rows.push(Row { id, deleted_at: None, value });
        assert(self@ =~= with_row(old(self)@, id, value@));
    }

    /// Writes another value to a row.
    pub fn set(&mut self, i: usize, value: R)
        requires
            i < old(self).rows.len(),
        ensures
            final(self)@ == with_value(old(self)@, i as int, value@),
    {
        let id: u64 = self.rows[i].id;
        let deleted_at = self.rows[i].deleted_at.clone();
        self.rows.set(i, Row { id, deleted_at, value });
        assert(self@ =~= with_value(old(self)@, i as int, value@));
    }

    /// Marks a row as deleted.
    pub fn delete(&mut self, i: usize, now: &str)
        requires
            i < old(self).rows.len(),
        ensures
            final(self)@ == with_deleted(old(self)@, i as int, now@),
    {
        let mark = Some(now.to_owned());
        let ghost before = self.rows@;
        self.rows[i].deleted_at = mark;
        assert(self.rows@ =~= before.update(
            i as int,
            Row { deleted_at: mark, ..before[i as int] },
        ));
        assert(self@ =~= with_deleted(old(self)@, i as int, now@));
    }
}

} // verus!
