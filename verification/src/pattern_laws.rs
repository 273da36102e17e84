//! What the daemon writes of the agent types is what the sidebar reads of them.

use vstd::prelude::*;
use vstd::string::*;

use crate::line_laws;
use crate::profiles::AgentProfile;
use crate::projection;
use crate::status;
use crate::status::{AgentState, StatusRules, TypePattern};
use crate::store_files;
use crate::text;

verus! {

/// A text that a line can hold: it has no line feed, and no white space at
/// either end.
pub open spec fn is_plain(s: Seq<char>) -> bool {
    &&& s.len() > 0
    &&& text::trimmed(s) == s
    &&& line_laws::has_no_feed(s)
}

/// A line that is read as it was written.
spec fn is_row(line: Seq<char>) -> bool {
    line_laws::has_no_feed(line) && text::without_cr(line) == line
}

/// Lines that are read as they were written.
spec fn are_rows(lines: Seq<Seq<char>>) -> bool {
    forall|i: int| 0 <= i < lines.len() ==> is_row(#[trigger] lines[i])
}

/// The ends of a plain text.
proof fn lemma_plain_ends(s: Seq<char>)
    requires
        is_plain(s),
    ensures
        !text::white(s[0]),
        !text::white(s.last()),
{
    text::lemma_trim_left(s);
    text::lemma_trim_right(text::trim_left(s));
    assert(text::trim_left(s).len() == s.len());
    assert(s.skip(0) =~= s);
}

// ---------------------------------------------------------------------------
// The lines of the agent types
// ---------------------------------------------------------------------------

/// A pattern's line.
pub open spec fn pattern_row(state: AgentState, p: Seq<char>) -> Seq<char> {
    state.name() + " = "@ + p
}

/// The lines of the patterns that tell a state.
pub open spec fn state_rows(r: StatusRules, state: AgentState) -> Seq<Seq<char>> {
    r.pattern_list(state).map_values(|p: Seq<char>| pattern_row(state, p))
}

/// The line that names a type.
pub open spec fn heading_row(key: Seq<char>) -> Seq<char> {
    "## "@ + key
}

/// The lines of a type.
pub open spec fn type_rows(key: Seq<char>, r: StatusRules) -> Seq<Seq<char>> {
    seq![heading_row(key)] + state_rows(r, AgentState::Thinking) + state_rows(r, AgentState::Idle)
        + state_rows(r, AgentState::Waiting) + state_rows(r, AgentState::Done)
}

/// The lines of all types.
pub open spec fn all_rows(list: Seq<(String, AgentProfile)>) -> Seq<Seq<char>>
    decreases list.len(),
{
    if list.len() == 0 {
        seq!["# Agent types"@, ""@]
    } else {
        all_rows(list.drop_last()) + type_rows(list.last().0@, list.last().1.status)
    }
}

/// Whether the patterns of a state can each stand on a line.
pub open spec fn plain_patterns(r: StatusRules, state: AgentState) -> bool {
    forall|i: int|
        0 <= i < r.pattern_list(state).len() ==> is_plain(#[trigger] r.pattern_list(state)[i])
}

/// Whether a type and its patterns can each stand on a line.
pub open spec fn plain_type(key: Seq<char>, r: StatusRules) -> bool {
    &&& is_plain(key)
    &&& plain_patterns(r, AgentState::Thinking)
    &&& plain_patterns(r, AgentState::Idle)
    &&& plain_patterns(r, AgentState::Waiting)
    &&& plain_patterns(r, AgentState::Done)
}

/// Whether all types and patterns can each stand on a line.
pub open spec fn plain_types(list: Seq<(String, AgentProfile)>) -> bool {
    forall|i: int| 0 <= i < list.len() ==> plain_type((#[trigger] list[i]).0@, list[i].1.status)
}

/// The patterns that tell a state of a type, as far as they are expressions.
pub open spec fn told(tool_type: Seq<char>, state: AgentState, patterns: Seq<Seq<char>>) -> Seq<
    TypePattern,
>
    decreases patterns.len(),
{
    if patterns.len() == 0 {
        seq![]
    } else {
        let before = told(tool_type, state, patterns.drop_last());
        match status::regex_of(patterns.last()) {
            Some(re) => before.push(TypePattern { tool_type, state, re }),
            None => before,
        }
    }
}

/// The patterns of a type.
pub open spec fn told_of_type(key: Seq<char>, r: StatusRules) -> Seq<TypePattern> {
    told(key, AgentState::Thinking, r.pattern_list(AgentState::Thinking)) + told(
        key,
        AgentState::Idle,
        r.pattern_list(AgentState::Idle),
    ) + told(key, AgentState::Waiting, r.pattern_list(AgentState::Waiting)) + told(
        key,
        AgentState::Done,
        r.pattern_list(AgentState::Done),
    )
}

/// The patterns of all types.
pub open spec fn told_of_all(list: Seq<(String, AgentProfile)>) -> Seq<TypePattern>
    decreases list.len(),
{
    if list.len() == 0 {
        seq![]
    } else {
        told_of_all(list.drop_last()) + told_of_type(list.last().0@, list.last().1.status)
    }
}

// ---------------------------------------------------------------------------
// Writing
// ---------------------------------------------------------------------------

/// The name of a state is a word.
proof fn lemma_state_name(state: AgentState)
    ensures
        state.name().len() > 0,
        forall|i: int| 0 <= i < state.name().len() ==> 'a' <= (#[trigger] state.name()[i]) <= 'z',
{
    reveal_strlit("thinking");
    reveal_strlit("idle");
    reveal_strlit("waiting");
    reveal_strlit("done");
}

/// The text of a state's patterns is its lines.
proof fn lemma_state_text(r: StatusRules, state: AgentState)
    ensures
        store_files::state_text(r, state) == projection::run_on(
            state_rows(r, state).map_values(|l: Seq<char>| line_laws::ended(l)),
        ),
{
    assert(store_files::pattern_lines(state, r.pattern_list(state)) =~= state_rows(
        r,
        state,
    ).map_values(|l: Seq<char>| line_laws::ended(l)));
}

/// The text of a type is its lines.
proof fn lemma_type_text(key: Seq<char>, r: StatusRules)
    ensures
        store_files::type_text(key, r) == projection::run_on(
            type_rows(key, r).map_values(|l: Seq<char>| line_laws::ended(l)),
        ),
{
    let f = |l: Seq<char>| line_laws::ended(l);
    let a = seq![heading_row(key)];
    let b = state_rows(r, AgentState::Thinking);
    let c = state_rows(r, AgentState::Idle);
    let d = state_rows(r, AgentState::Waiting);
    let e = state_rows(r, AgentState::Done);
    lemma_state_text(r, AgentState::Thinking);
    lemma_state_text(r, AgentState::Idle);
    lemma_state_text(r, AgentState::Waiting);
    lemma_state_text(r, AgentState::Done);
    line_laws::lemma_ended_add(a, b);
    line_laws::lemma_ended_add(a + b, c);
    line_laws::lemma_ended_add(a + b + c, d);
    line_laws::lemma_ended_add(a + b + c + d, e);
    let head = a.map_values(f);
    assert(head.drop_last() =~= seq![]);
    assert(head.last() == line_laws::ended(heading_row(key)));
    assert(projection::run_on(head) =~= "## "@ + key + "\n"@) by {
        assert(projection::run_on(head.drop_last()) =~= seq![]);
    }
}

/// The text of all types is their lines.
proof fn lemma_types_text(list: Seq<(String, AgentProfile)>)
    ensures
        store_files::types_text(list) == projection::run_on(
            all_rows(list).map_values(|l: Seq<char>| line_laws::ended(l)),
        ),
    decreases list.len(),
{
    let f = |l: Seq<char>| line_laws::ended(l);
    if list.len() == 0 {
        reveal_strlit("# Agent types\n\n");
        reveal_strlit("# Agent types");
        reveal_strlit("");
        reveal_strlit("\n");
        let head = all_rows(list).map_values(f);
        let first = head.drop_last();
        assert(first =~= seq![line_laws::ended("# Agent types"@)]);
        assert(first.drop_last() =~= seq![]);
        assert(projection::run_on(first) =~= line_laws::ended("# Agent types"@)) by {
            assert(projection::run_on(first.drop_last()) =~= seq![]);
        }
        assert(head.last() == line_laws::ended(""@));
        assert(projection::run_on(head) =~= line_laws::ended("# Agent types"@) + line_laws::ended(""@));
        assert("# Agent types\n\n"@ =~= line_laws::ended("# Agent types"@) + line_laws::ended(""@));
    } else {
        lemma_types_text(list.drop_last());
        lemma_type_text(list.last().0@, list.last().1.status);
        line_laws::lemma_ended_add(
            all_rows(list.drop_last()),
            type_rows(list.last().0@, list.last().1.status),
        );
    }
}

// ---------------------------------------------------------------------------
// Reading
// ---------------------------------------------------------------------------

/// What a pattern's line says.
proof fn lemma_pattern_row(state: AgentState, p: Seq<char>)
    requires
        is_plain(p),
    ensures
        is_row(pattern_row(state, p)),
        text::trimmed(pattern_row(state, p)) == pattern_row(state, p),
        !text::begins(pattern_row(state, p), "## "@),
        status::pattern_line(pattern_row(state, p)) == match status::regex_of(p) {
            Some(re) => Some((state, re)),
            None => None,
        },
{
    let name = state.name();
    let pat = " = "@;
    let s = pattern_row(state, p);
    reveal_strlit(" = ");
    reveal_strlit("## ");
    lemma_state_name(state);
    lemma_plain_ends(p);
    assert(s[0] == name[0]);
    assert(s.last() == p.last());
    text::lemma_trim_nothing(s);
    assert forall|i: int| 0 <= i < s.len() implies (#[trigger] s[i]) != '\n' by {
        if i < name.len() {
            assert(s[i] == name[i]);
        } else if i >= name.len() + 3 {
            assert(s[i] == p[i - name.len() - 3]);
        }
    }
    if text::begins(s, "## "@) {
        assert(s.subrange(0, 3)[0] == "## "@[0]);
    }
    let n = name.len() as int;
    assert forall|j: int| 0 <= j < n implies !text::occurs_at(s, pat, j) by {
        if text::occurs_at(s, pat, j) {
            assert(s.subrange(j, j + 3)[0] == pat[0]);
            assert(s[j] == name[j]);
        }
    }
    assert(s.subrange(n, n + 3) =~= pat);
    assert(text::occurs_at(s, pat, n));
    text::lemma_find_is(s, pat, n);
    assert(s.take(n) =~= name);
    assert(s.skip(n + 3) =~= p);
    text::lemma_trim_nothing(name);
    assert(status::named_state(name) == Some(state)) by {
        AgentState::lemma_names_distinct(state, AgentState::Thinking);
        AgentState::lemma_names_distinct(state, AgentState::Idle);
        AgentState::lemma_names_distinct(state, AgentState::Waiting);
        AgentState::lemma_names_distinct(state, AgentState::Done);
    }
}

/// What a heading says.
proof fn lemma_heading_row(key: Seq<char>)
    requires
        is_plain(key),
    ensures
        is_row(heading_row(key)),
        text::trimmed(heading_row(key)) == heading_row(key),
        text::after_prefix(heading_row(key), "## "@) == Some(key),
{
    let s = heading_row(key);
    reveal_strlit("## ");
    lemma_plain_ends(key);
    assert(s.last() == key.last());
    text::lemma_trim_nothing(s);
    assert forall|i: int| 0 <= i < s.len() implies (#[trigger] s[i]) != '\n' by {
        if i >= 3 {
            assert(s[i] == key[i - 3]);
        }
    }
    assert(s.subrange(0, 3) =~= "## "@);
    assert(s.skip(3) =~= key);
}

/// The lines of a state's patterns, read after the heading of their type.
proof fn lemma_rows_tell(
    before: Seq<Seq<char>>,
    key: Seq<char>,
    state: AgentState,
    patterns: Seq<Seq<char>>,
)
    requires
        status::heading(before) == Some(key),
        forall|i: int| 0 <= i < patterns.len() ==> is_plain(#[trigger] patterns[i]),
    ensures
        ({
            let rows = patterns.map_values(|p: Seq<char>| pattern_row(state, p));
            &&& status::heading(before + rows) == Some(key)
            &&& status::type_patterns(before + rows) == status::type_patterns(before) + told(
                key,
                state,
                patterns,
            )
        }),
    decreases patterns.len(),
{
    let f = |p: Seq<char>| pattern_row(state, p);
    let rows = patterns.map_values(f);
    if patterns.len() == 0 {
        assert(before + rows =~= before);
        assert(status::type_patterns(before) + told(key, state, patterns)
            =~= status::type_patterns(before));
    } else {
        let front = patterns.drop_last();
        lemma_rows_tell(before, key, state, front);
        lemma_pattern_row(state, patterns[patterns.len() - 1]);
        let all = before + rows;
        assert(all.drop_last() =~= before + front.map_values(f));
        assert(all.last() == pattern_row(state, patterns.last()));
        let was = status::type_patterns(before);
        match status::regex_of(patterns.last()) {
            Some(re) => {
                let p = TypePattern { tool_type: key, state, re };
                assert((was + told(key, state, front)).push(p) =~= was + told(
                    key,
                    state,
                    front,
                ).push(p));
            },
            None => {},
        }
    }
}

/// Two runs of lines, one after the other.
proof fn lemma_rows_add(a: Seq<Seq<char>>, b: Seq<Seq<char>>)
    requires
        are_rows(a),
        are_rows(b),
    ensures
        are_rows(a + b),
{
    assert forall|i: int| 0 <= i < (a + b).len() implies is_row(#[trigger] (a + b)[i]) by {
        if i < a.len() {
            assert((a + b)[i] == a[i]);
        } else {
            assert((a + b)[i] == b[i - a.len()]);
        }
    }
}

/// The lines of a state's patterns are read as they were written.
proof fn lemma_state_rows(r: StatusRules, state: AgentState)
    requires
        plain_patterns(r, state),
    ensures
        are_rows(state_rows(r, state)),
{
    let rows = state_rows(r, state);
    assert forall|i: int| 0 <= i < rows.len() implies is_row(#[trigger] rows[i]) by {
        lemma_pattern_row(state, r.pattern_list(state)[i]);
    }
}

/// The lines of a type are read as they were written.
proof fn lemma_type_rows(key: Seq<char>, r: StatusRules)
    requires
        plain_type(key, r),
    ensures
        are_rows(type_rows(key, r)),
{
    let a = seq![heading_row(key)];
    let b = state_rows(r, AgentState::Thinking);
    let c = state_rows(r, AgentState::Idle);
    let d = state_rows(r, AgentState::Waiting);
    let e = state_rows(r, AgentState::Done);
    lemma_heading_row(key);
    lemma_state_rows(r, AgentState::Thinking);
    lemma_state_rows(r, AgentState::Idle);
    lemma_state_rows(r, AgentState::Waiting);
    lemma_state_rows(r, AgentState::Done);
    lemma_rows_add(a, b);
    lemma_rows_add(a + b, c);
    lemma_rows_add(a + b + c, d);
    lemma_rows_add(a + b + c + d, e);
}

/// The lines of a type, read after other lines.
proof fn lemma_type_told(before: Seq<Seq<char>>, key: Seq<char>, r: StatusRules)
    requires
        plain_type(key, r),
    ensures
        status::type_patterns(before + type_rows(key, r)) == status::type_patterns(before)
            + told_of_type(key, r),
{
    lemma_heading_row(key);
    let h = heading_row(key);
    let a = before.push(h);
    assert(a.drop_last() =~= before);
    assert(a.last() == h);
    assert(status::heading(a) == Some(key));
    assert(status::type_patterns(a) == status::type_patterns(before));
    let b = state_rows(r, AgentState::Thinking);
    let c = state_rows(r, AgentState::Idle);
    let d = state_rows(r, AgentState::Waiting);
    let e = state_rows(r, AgentState::Done);
    lemma_rows_tell(a, key, AgentState::Thinking, r.pattern_list(AgentState::Thinking));
    lemma_rows_tell(a + b, key, AgentState::Idle, r.pattern_list(AgentState::Idle));
    lemma_rows_tell(a + b + c, key, AgentState::Waiting, r.pattern_list(AgentState::Waiting));
    lemma_rows_tell(a + b + c + d, key, AgentState::Done, r.pattern_list(AgentState::Done));
    assert(before + type_rows(key, r) =~= a + b + c + d + e);
    assert(status::type_patterns(before + type_rows(key, r)) =~= status::type_patterns(before)
        + told_of_type(key, r));
}

/// The lines of all types.
proof fn lemma_all_told(list: Seq<(String, AgentProfile)>)
    requires
        plain_types(list),
    ensures
        status::type_patterns(all_rows(list)) == told_of_all(list),
        are_rows(all_rows(list)),
    decreases list.len(),
{
    if list.len() == 0 {
        reveal_strlit("# Agent types");
        reveal_strlit("");
        let rows = all_rows(list);
        let first = rows.drop_last();
        assert(first =~= seq!["# Agent types"@]);
        assert(first.drop_last() =~= seq![]);
        lemma_no_heading("# Agent types"@);
        lemma_no_heading(""@);
        assert(status::heading(first.drop_last()) is None);
        assert(status::heading(first) is None);
        assert(status::type_patterns(first.drop_last()) =~= seq![]);
        assert(status::type_patterns(first) =~= seq![]);
        assert(status::type_patterns(rows) =~= seq![]);
        assert forall|i: int| 0 <= i < rows.len() implies is_row(#[trigger] rows[i]) by {}
    } else {
        let front = list.drop_last();
        assert forall|i: int| 0 <= i < front.len() implies plain_type(
            (#[trigger] front[i]).0@,
            front[i].1.status,
        ) by {
            assert(front[i] == list[i]);
        }
        lemma_all_told(front);
        let last = list[list.len() - 1];
        assert(plain_type(last.0@, last.1.status));
        lemma_type_told(all_rows(front), last.0@, last.1.status);
        lemma_type_rows(last.0@, last.1.status);
        lemma_rows_add(all_rows(front), type_rows(last.0@, last.1.status));
    }
}

/// The title of the file, and the blank line under it, name no type.
proof fn lemma_no_heading(line: Seq<char>)
    requires
        line == "# Agent types"@ || line == ""@,
    ensures
        text::after_prefix(text::trimmed(line), "## "@) is None,
{
    reveal_strlit("# Agent types");
    reveal_strlit("");
    reveal_strlit("## ");
    text::lemma_trim_nothing(line);
    if text::begins(line, "## "@) {
        assert(line.subrange(0, 3)[1] == "## "@[1]);
    }
}

/// What the sidebar reads of the types of agents is what the daemon wrote:
/// each type's expressions, under their states and in their order.
pub proof fn law_agent_types_are_read(list: Seq<(String, AgentProfile)>)
    requires
        plain_types(list),
    ensures
        status::type_patterns(text::line_seq(store_files::types_text(list))) == told_of_all(list),
{
    lemma_types_text(list);
    lemma_all_told(list);
    let rows = all_rows(list);
    assert forall|i: int| 0 <= i < rows.len() implies line_laws::has_no_feed(
        #[trigger] rows[i],
    ) by {
        assert(is_row(rows[i]));
    }
    line_laws::lemma_lines_are_read(rows);
    assert(line_laws::as_read(rows) =~= rows) by {
        assert forall|i: int| 0 <= i < rows.len() implies text::without_cr(#[trigger] rows[i])
            == rows[i] by {
            assert(is_row(rows[i]));
        }
    }
}

} // verus!
