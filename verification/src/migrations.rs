//! Which steps bring an older database to the schema of today.

use vstd::prelude::*;
use vstd::string::*;

use crate::text;

verus! {

/// The schema of today.
pub const SCHEMA_VERSION: i64 = 9;

/// A step towards the schema of today.
#[derive(Debug, Clone, Copy, PartialEq, Eq, Structural)]
pub enum Step {
    /// Brings the schema to a version from the one before.
    Schema(i64),
    /// Writes down that the schema is the one of today.
    Stamp,
}

/// The steps from a version to another, one version at a time.
pub open spec fn steps_between(from: int, to: int) -> Seq<Step>
    decreases to - from,
{
    if from >= to {
        seq![]
    } else {
        steps_between(from, to - 1).push(Step::Schema(to as i64))
    }
}

/// The steps that bring a database to the schema of today. A new database is
/// of version 0; one of today needs nothing, and one of a later version is
/// only written down.
pub open spec fn plan(version: i64) -> Seq<Step> {
    let from = if version < 0 {
        0int
    } else {
        version as int
    };
    let steps = steps_between(from, SCHEMA_VERSION as int);
    if version == SCHEMA_VERSION {
        steps
    } else {
        steps.push(Step::Stamp)
    }
}

/// The steps that bring a database to the schema of today.
pub fn migration_plan(version: i64) -> (out: Vec<Step>)
    ensures
        out@ == plan(version),
{
    let mut out: Vec<Step> = Vec::new();
    let from: i64 = if version < 0 {
        0
    } else {
        version
    };
    let mut v: i64 = from;
    assert(out@ =~= steps_between(from as int, v as int));
    while v < SCHEMA_VERSION
        invariant
            out@ == steps_between(from as int, v as int),
            from <= v,
            v <= SCHEMA_VERSION || v == from,
        decreases SCHEMA_VERSION - v,
    {
        v = v + 1;
        out.push(Step::Schema(v));
    }
    proof {
        if v > SCHEMA_VERSION {
            assert(steps_between(from as int, SCHEMA_VERSION as int) =~= seq![]);
            assert(out@ =~= seq![]);
        }
    }
    if version != SCHEMA_VERSION {
        out.push(Step::Stamp);
    }
    out
}

/// A database of today is left untouched.
pub proof fn law_current_database_is_untouched()
    ensures
        plan(SCHEMA_VERSION).len() == 0,
{
}

/// Whatever version a database starts from, it passes through the same steps
/// from there on: those of a newer one are the last of those of an older one.
pub proof fn law_upgrades_share_their_end(older: int, newer: int, to: int)
    requires
        0 <= older <= newer <= to,
    ensures
        steps_between(older, to) == steps_between(older, newer) + steps_between(newer, to),
    decreases to - newer,
{
    if newer < to {
        law_upgrades_share_their_end(older, newer, to - 1);
        assert(steps_between(older, to) =~= steps_between(older, newer) + steps_between(newer, to));
    } else {
        assert(steps_between(newer, to) =~= seq![]);
        assert(steps_between(older, newer) + seq![] =~= steps_between(older, newer));
    }
}

/// Whether a column is still to be added to a table with some columns.
pub fn column_missing(columns: &Vec<String>, column: &str) -> (r: bool)
    ensures
        r == !text::texts(columns@).contains(column@),
{
    let ghost all = text::texts(columns@);
    let mut i: usize = 0;
    while i < columns.len()
        invariant
            i <= columns.len(),
            all == text::texts(columns@),
            forall|j: int| 0 <= j < i ==> (#[trigger] all[j]) != column@,
        decreases columns.len() - i,
    {
        assert(all[i as int] == columns@[i as int]@);
        if text::same(columns[i].as_str(), column) {
            assert(all.contains(column@));
            return false;
        }
        i += 1;
    }
    true
}

} // verus!
