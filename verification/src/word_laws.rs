//! Names and words: what a path ends in, how a title leaves out a number that it
//! says anyway, and which words stand for what.

use vstd::prelude::*;
use vstd::string::*;

use crate::auth;
use crate::error::ErrorView;
use crate::migrations;
use crate::migrations::Step;
use crate::model::{KeySource, Priority, ProcessKind, TodoStatus};
use crate::modes::{Mode, TodoFilter, TodoSort};
use crate::paths;
use crate::text;
use crate::titles;

verus! {

// ---------------------------------------------------------------------------
// Paths
// ---------------------------------------------------------------------------

/// A name in a directory stands behind it and a slash, which is not written twice;
/// in no directory it stands alone.
pub proof fn law_name_stands_in_its_directory(dir: Seq<char>, name: Seq<char>)
    ensures
        paths::in_dir(Seq::empty(), name) == name,
        dir.len() > 0 && dir.last() == '/' ==> paths::in_dir(dir, name) == dir + name,
        dir.len() > 0 && dir.last() != '/' ==> paths::in_dir(dir, name) == dir + seq!['/'] + name,
{
    assert(Seq::<char>::empty() + name =~= name);
}

/// The pieces of a text with one more behind a slash.
proof fn lemma_one_more_piece(a: Seq<char>, name: Seq<char>)
    requires
        !name.contains('/'),
    ensures
        text::pieces(a + seq!['/'] + name, seq!['/']) == text::pieces(a, seq!['/']).push(name),
    decreases a.len(),
{
    let sep = seq!['/'];
    let s = a + sep + name;
    assert forall|j: int| 0 <= j < name.len() implies name[j] != '/' by {
        assert(name.contains(name[j]));
    }
    text::lemma_find_char_none(name, '/');
    text::lemma_find_from(a, sep, 0);
    match text::find_seq(a, sep) {
        None => {
            assert forall|j: int| 0 <= j < a.len() implies a[j] != '/' by {
                if a[j] == '/' {
                    assert(a.subrange(j, j + 1) =~= sep);
                    assert(text::occurs_at(a, sep, j));
                }
            }
            text::lemma_find_char_at(a, '/', name);
            let n = a.len() as int;
            assert(s.take(n) =~= a);
            assert(s.skip(n + 1) =~= name);
            assert(text::pieces(name, sep) == seq![name]);
            assert(text::pieces(a, sep) == seq![a]);
            assert(seq![a] + seq![name] =~= seq![a].push(name));
        },
        Some(i) => {
            assert(s.subrange(i, i + 1) =~= a.subrange(i, i + 1));
            assert(text::occurs_at(s, sep, i));
            assert forall|j: int| 0 <= j < i implies !text::occurs_at(s, sep, j) by {
                assert(!text::occurs_at(a, sep, j));
                assert(s.subrange(j, j + 1) =~= a.subrange(j, j + 1));
            }
            text::lemma_find_is(s, sep, i);
            let rest = a.skip(i + 1);
            lemma_one_more_piece(rest, name);
            assert(s.take(i) =~= a.take(i));
            assert(s.skip(i + 1) =~= rest + sep + name);
            assert(seq![a.take(i)] + text::pieces(rest, sep).push(name) =~= (seq![a.take(i)]
                + text::pieces(rest, sep)).push(name));
        },
    }
}

/// A path ends in its last name. A slash or a dot behind that does not count; a path
/// that leads up ends in none.
pub proof fn law_path_ends_in_its_last_name(dir: Seq<char>, name: Seq<char>)
    requires
        name.len() > 0,
        !name.contains('/'),
        name != "."@,
        name != ".."@,
    ensures
        paths::name_at_end(dir + seq!['/'] + name) == Some(name),
        paths::name_at_end(name) == Some(name),
        paths::name_at_end(dir + seq!['/']) == paths::name_at_end(dir),
        paths::name_at_end(dir + seq!['/'] + "."@) == paths::name_at_end(dir),
        paths::name_at_end(dir + seq!['/'] + ".."@) is None,
{
    reveal_strlit("/");
    reveal_strlit(".");
    reveal_strlit("..");
    let sep = seq!['/'];
    assert("/"@ =~= sep);
    let parts = text::pieces(dir, sep);
    lemma_one_more_piece(dir, name);
    assert(parts.push(name).last() == name);
    assert(dir + sep + Seq::<char>::empty() =~= dir + sep);
    lemma_one_more_piece(dir, Seq::empty());
    assert(parts.push(Seq::empty()).drop_last() =~= parts);
    assert forall|j: int| 0 <= j < "."@.len() implies "."@[j] != '/' by {}
    lemma_one_more_piece(dir, "."@);
    assert(parts.push("."@).drop_last() =~= parts);
    assert(parts.push("."@).last() == "."@);
    lemma_one_more_piece(dir, ".."@);
    assert(parts.push(".."@).last() == ".."@);
    assert("."@.len() == 1 && ".."@.len() == 2);
    assert forall|j: int| 0 <= j < name.len() implies name[j] != '/' by {
        assert(name.contains(name[j]));
    }
    text::lemma_find_char_none(name, '/');
    assert(text::pieces(name, sep) == seq![name]);
}

// ---------------------------------------------------------------------------
// Titles
// ---------------------------------------------------------------------------

/// What separates a name from a number behind it.
pub open spec fn is_mark(c: char) -> bool {
    c == '#' || c == '-' || c == ' '
}

/// A number that a name ends in is left out of it, with what separates the two; a
/// number that nothing separates from the name is part of it.
pub proof fn law_number_is_not_said_twice(name: Seq<char>, sep: Seq<char>, id: u64)
    requires
        name.len() > 0,
        !text::white(name[0]),
        !is_mark(name.last()),
        forall|i: int| 0 <= i < sep.len() ==> is_mark(#[trigger] sep[i]),
    ensures
        sep.len() > 0 ==> titles::without_id(name + sep + text::decimal(id as nat), id) == name,
        sep.len() == 0 ==> titles::without_id(name + text::decimal(id as nat), id) == name
            + text::decimal(id as nat),
{
    reveal_strlit("#- ");
    let d = text::decimal(id as nat);
    text::lemma_decimal_value(id as nat);
    let front = name + sep;
    let l = front + d;
    assert(text::is_digit(d[d.len() - 1]));
    text::lemma_digit_not_white(d[d.len() - 1]);
    assert(l[0] == name[0]);
    assert(l.last() == d[d.len() - 1]);
    text::lemma_trim_nothing(l);
    assert(l.subrange(l.len() - d.len(), l.len() as int) =~= d);
    assert(l.take(l.len() - d.len()) =~= front);
    let set = "#- "@;
    assert(set[0] == '#' && set[1] == '-' && set[2] == ' ');
    assert forall|c: char| set.contains(c) <==> is_mark(c) by {
        if set.contains(c) {
            let k = choose|k: int| 0 <= k < set.len() && set[k] == c;
        }
    }
    lemma_marks_go(name, sep, set);
    if sep.len() == 0 {
        assert(front =~= name);
        assert(l =~= name + d);
    }
}

/// Marks at the end go.
proof fn lemma_marks_go(name: Seq<char>, sep: Seq<char>, set: Seq<char>)
    requires
        name.len() > 0,
        !set.contains(name.last()),
        forall|i: int| 0 <= i < sep.len() ==> set.contains(#[trigger] sep[i]),
    ensures
        text::trim_right_of(name + sep, set) == name,
    decreases sep.len(),
{
    if sep.len() == 0 {
        assert(name + sep =~= name);
    } else {
        let all = name + sep;
        assert(all.last() == sep[sep.len() - 1]);
        assert(all.drop_last() =~= name + sep.drop_last());
        assert forall|i: int| 0 <= i < sep.drop_last().len() implies set.contains(
            #[trigger] sep.drop_last()[i],
        ) by {
            assert(sep[i] == sep.drop_last()[i]);
        }
        lemma_marks_go(name, sep.drop_last(), set);
    }
}

/// A process is titled by its kind, its number and its name, where there is more to
/// the name than the number.
pub proof fn law_process_title_says_kind_number_and_name(kind: Seq<char>, id: u64, name: Seq<char>)
    ensures
        ({
            let bare = titles::without_id(name, id);
            let start = kind + " #"@ + text::decimal(id as nat);
            &&& bare.len() == 0 ==> titles::process_title(kind, id, name) == start
            &&& bare.len() > 0 ==> titles::process_title(kind, id, name) == start + " - "@ + bare
        }),
        !text::ends(text::trimmed(name), text::decimal(id as nat)) ==> titles::without_id(name, id)
            == text::trimmed(name),
{
}

// ---------------------------------------------------------------------------
// Tokens and versions
// ---------------------------------------------------------------------------

/// The number that a digit of a token stands for.
pub open spec fn digit_value(c: char) -> int {
    if c <= '9' {
        c as int - '0' as int
    } else {
        c as int - 'a' as int + 10
    }
}

/// A token says its bytes, each by two digits, the higher one first.
pub proof fn law_token_says_its_bytes(bytes: Seq<u8>, i: int)
    requires
        0 <= i < bytes.len(),
    ensures
        auth::hex(bytes).len() == 2 * bytes.len(),
        16 * digit_value(auth::hex(bytes)[2 * i]) + digit_value(auth::hex(bytes)[2 * i + 1])
            == bytes[i],
    decreases bytes.len(),
{
    let front = bytes.drop_last();
    auth::law_hex_token_shape(front);
    auth::law_hex_token_shape(bytes);
    let before = auth::hex(front);
    let all = auth::hex(bytes);
    if i < front.len() {
        law_token_says_its_bytes(front, i);
        assert(all[2 * i] == before[2 * i]);
        assert(all[2 * i + 1] == before[2 * i + 1]);
        assert(front[i] == bytes[i]);
    } else {
        assert(bytes[i] == bytes.last());
    }
}

/// A database goes through each version above its own, one by one, and is stamped at
/// the end.
pub proof fn law_database_goes_through_each_version(version: i64, k: int)
    requires
        0 <= version < migrations::SCHEMA_VERSION,
    ensures
        ({
            let steps = migrations::plan(version);
            &&& steps.len() == migrations::SCHEMA_VERSION - version + 1
            &&& 0 <= k < steps.len() - 1 ==> steps[k] == Step::Schema((version + 1 + k) as i64)
            &&& steps.last() == Step::Stamp
        }),
{
    lemma_steps(version as int, migrations::SCHEMA_VERSION as int, k);
}

/// The steps between two versions.
proof fn lemma_steps(from: int, to: int, k: int)
    requires
        from <= to,
    ensures
        migrations::steps_between(from, to).len() == to - from,
        0 <= k < to - from ==> migrations::steps_between(from, to)[k] == Step::Schema(
            (from + 1 + k) as i64,
        ),
    decreases to - from,
{
    if from < to {
        lemma_steps(from, to - 1, k);
    }
}

/// The words for what a todo, a process and an agent can be.
pub proof fn law_words_for_what_there_is()
    ensures
        TodoStatus::Open.token() == "open"@,
        TodoStatus::InProgress.token() == "in_progress"@,
        TodoStatus::Backlog.token() == "backlog"@,
        TodoStatus::Draft.token() == "draft"@,
        TodoStatus::Completed.token() == "completed"@,
        TodoStatus::NotDone.token() == "not_done"@,
        Priority::High.token() == "high"@,
        Priority::Medium.token() == "medium"@,
        Priority::Low.token() == "low"@,
        ProcessKind::Agent.token() == "agent"@,
        ProcessKind::Command.token() == "command"@,
        ProcessKind::Terminal.token() == "terminal"@,
        KeySource::Declared.token() == "declared"@,
        KeySource::Session.token() == "session"@,
{
}

/// The lists are numbered in the order in which they stand, and each has a letter of
/// its own.
pub proof fn law_lists_are_numbered(a: Mode, b: Mode)
    ensures
        Mode::Todos.hotkey() == '1',
        Mode::Agents.hotkey() == '2',
        Mode::Terminals.hotkey() == '3',
        Mode::Commands.hotkey() == '4',
        Mode::Notes.hotkey() == '5',
        a != b ==> a.hotkey() != b.hotkey() && a.letter_char() != b.letter_char(),
        a.hint_text() == "alt+"@ + seq![a.hotkey()],
{
    assert("alt+"@.push(a.hotkey()) =~= "alt+"@ + seq![a.hotkey()]);
}

/// The words for how todos are picked and ordered: a slash means upwards, a
/// backslash downwards.
pub proof fn law_words_for_filters_and_axes()
    ensures
        TodoFilter::All.label_text() == "all"@,
        TodoFilter::Open.label_text() == "open"@,
        TodoFilter::Active.label_text() == "active"@,
        TodoFilter::InProgress.label_text() == "in_progress"@,
        TodoFilter::Backlog.label_text() == "backlog"@,
        TodoFilter::Draft.label_text() == "draft"@,
        TodoFilter::Completed.label_text() == "completed"@,
        TodoFilter::NotDone.label_text() == "not_done"@,
        TodoSort::PriorityDesc.label_text() == "priority"@,
        TodoSort::CreatedAsc.label_text() == "created-/"@,
        TodoSort::CreatedDesc.label_text() == "created-\\"@,
        TodoSort::ModifiedAsc.label_text() == "modified-/"@,
        TodoSort::ModifiedDesc.label_text() == "modified-\\"@,
{
}

/// What is missing is named in the error, by its number.
pub proof fn law_errors_name_what_is_missing(id: u64, other: u64)
    ensures
        ErrorView::TodoNotFound(id).words() == "todo "@ + text::decimal(id as nat) + " not found"@,
        ErrorView::NoteNotFound(id).words() == "note "@ + text::decimal(id as nat) + " not found"@,
        ErrorView::ProcessNotFound(id).words() == "process "@ + text::decimal(id as nat)
            + " not found"@,
        ErrorView::AgentToolNotFound(id).words() == "agent tool "@ + text::decimal(id as nat)
            + " not found"@,
        (ErrorView::TodoCommentNotFound { todo_id: id, comment_id: other }).words() == "comment "@
            + text::decimal(other as nat) + " not found on todo "@ + text::decimal(id as nat),
{
}

} // verus!
