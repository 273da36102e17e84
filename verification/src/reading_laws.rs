//! What is made of what is read: titles out of an index, states out of an output,
//! patterns out of a file, lists out of the files of a project.

use vstd::prelude::*;
use vstd::string::*;

use crate::host::{ActionView, Event, PaneId};
use crate::modes::{Mode, TodoSort};
use crate::picking;
use crate::presence_laws;
use crate::rows;
use crate::sidebar;
use crate::sidebar::PanoptPane;
use crate::sidebar_events;
use crate::sidebar_events::Settings;
use crate::sidebar_reload;
use crate::sidebar_reload::Projected;
use crate::sidebar_update;
use crate::status;
use crate::status::{AgentState, StatusMatcher, StatusRules, TypePattern};
use crate::text;
use crate::titles;
use crate::wire;

verus! {

// ---------------------------------------------------------------------------
// Titles
// ---------------------------------------------------------------------------

/// The label of an id is that of its first entry.
proof fn lemma_label_in(index: Seq<(u64, Seq<char>)>, id: u64, i: int)
    ensures
        0 <= i < index.len() && index[i].0 == id && (forall|k: int|
            0 <= k < i ==> (#[trigger] index[k]).0 != id) ==> titles::label_in(index, id) == Some(
            index[i].1,
        ),
        (forall|k: int| 0 <= k < index.len() ==> (#[trigger] index[k]).0 != id)
            ==> titles::label_in(index, id) is None,
    decreases index.len(),
{
    if index.len() > 0 && index[0].0 != id {
        let rest = index.drop_first();
        lemma_label_in(rest, id, i - 1);
        if 0 <= i < index.len() && index[i].0 == id && (forall|k: int|
            0 <= k < i ==> (#[trigger] index[k]).0 != id) {
            assert(rest[i - 1] == index[i]);
            assert forall|k: int| 0 <= k < i - 1 implies (#[trigger] rest[k]).0 != id by {
                assert(index[k + 1] == rest[k]);
            }
        }
        if forall|k: int| 0 <= k < index.len() ==> (#[trigger] index[k]).0 != id {
            assert forall|k: int| 0 <= k < rest.len() implies (#[trigger] rest[k]).0 != id by {
                assert(index[k + 1] == rest[k]);
            }
        }
    }
}

/// The title of an entry is what stands before the last dash between spaces in
/// its label, without space round it; a label without such a dash is a title as a
/// whole.
pub proof fn law_title_stands_before_the_last_dash(
    index: Seq<(u64, Seq<char>)>,
    id: u64,
    i: int,
    dash: int,
)
    requires
        0 <= i < index.len(),
        index[i].0 == id,
        forall|k: int| 0 <= k < i ==> (#[trigger] index[k]).0 != id,
    ensures
        ({
            let label = index[i].1;
            let found = titles::title_in(index, id);
            let before = text::trimmed(label.take(dash));
            let mark = " - "@;
            &&& text::occurs_at(label, mark, dash) && (forall|k: int|
                dash < k ==> !text::occurs_at(label, mark, k)) ==> found == (if before.len() == 0 {
                None
            } else {
                Some(before)
            })
            &&& (forall|k: int| !text::occurs_at(label, mark, k)) && !text::begins(label, "- "@)
                && text::trimmed(label).len() > 0 ==> found == Some(text::trimmed(label))
        }),
{
    let label = index[i].1;
    let mark = " - "@;
    lemma_label_in(index, id, i);
    text::lemma_rfind_from(label, mark, label.len() - mark.len());
    reveal_strlit(" - ");
    if text::occurs_at(label, mark, dash) && (forall|k: int|
        dash < k ==> !text::occurs_at(label, mark, k)) {
        let r = text::rfind_seq(label, mark);
        assert(r is Some);
        if r->0 < dash {
            assert(!text::occurs_at(label, mark, dash));
        }
        if r->0 > dash {
            assert(!text::occurs_at(label, mark, r->0));
        }
    }
}

/// The title of a viewer says what it shows: a todo or a note by its number and by
/// its title where it has one, a list or a form by its name.
pub proof fn law_viewer_is_titled_by_what_it_shows(
    id: u64,
    any: Option<u64>,
    todos: Seq<(u64, Seq<char>)>,
    notes: Seq<(u64, Seq<char>)>,
)
    ensures
        ({
            let number = " #"@ + text::decimal(id as nat);
            let todo = titles::title_in(todos, id);
            let note = titles::title_in(notes, id);
            &&& todo is Some ==> titles::viewer_title(Some("todo"@), Some(id), todos, notes)
                == "Todo"@ + number + " - "@ + todo->0
            &&& todo is None ==> titles::viewer_title(Some("todo"@), Some(id), todos, notes)
                == "Todo"@ + number
            &&& note is Some ==> titles::viewer_title(Some("note"@), Some(id), todos, notes)
                == "Note"@ + number + " - "@ + note->0
            &&& note is None ==> titles::viewer_title(Some("note"@), Some(id), todos, notes)
                == "Note"@ + number
            &&& titles::viewer_title(Some("agent-config"@), Some(id), todos, notes)
                == "Agent config"@ + number
            &&& titles::viewer_title(Some("todo-list"@), any, todos, notes)
                == "Todos"@
            &&& titles::viewer_title(Some("note-list"@), any, todos, notes)
                == "Notes"@
            &&& titles::viewer_title(Some("new-todo"@), any, todos, notes)
                == "New todo"@
            &&& titles::viewer_title(Some("new-note"@), any, todos, notes)
                == "New note"@
            &&& titles::viewer_title(Some("new-agent-config"@), any, todos, notes)
                == "New agent config"@
            &&& titles::viewer_title(Some("todo"@), None, todos, notes)
                == "Viewer"@
            &&& titles::viewer_title(Some("note"@), None, todos, notes)
                == "Viewer"@
            &&& titles::viewer_title(Some("agent-config"@), None, todos, notes)
                == "Viewer"@
            &&& titles::viewer_title(None, any, todos, notes)
                == "Viewer"@
        }),
{
    reveal_strlit("todo");
    reveal_strlit("note");
    reveal_strlit("todo-list");
    reveal_strlit("note-list");
    reveal_strlit("new-todo");
    reveal_strlit("new-note");
    reveal_strlit("agent-config");
    reveal_strlit("new-agent-config");
    assert("todo"@[0] == 't' && "note"@[0] == 'n' && "todo-list"@[0] == 't' && "note-list"@[0]
        == 'n' && "new-todo"@[1] == 'e' && "new-todo"@[4] == 't' && "new-note"@[4] == 'n'
        && "note-list"@[1] == 'o' && "agent-config"@[0] == 'a' && "new-agent-config"@[4] == 'a');
    assert("todo"@.len() == 4 && "note"@.len() == 4 && "todo-list"@.len() == 9 && "note-list"@.len()
        == 9 && "new-todo"@.len() == 8 && "new-note"@.len() == 8 && "agent-config"@.len() == 12
        && "new-agent-config"@.len() == 16);
    assert("todo-list"@ != "note-list"@);
    assert("new-todo"@ != "new-note"@);
    let number = " #"@ + text::decimal(id as nat);
    let d = text::decimal(id as nat);
    assert("Todo"@ + " #"@ + d =~= "Todo"@ + number);
    assert("Note"@ + " #"@ + d =~= "Note"@ + number);
    assert("Agent config"@ + " #"@ + d =~= "Agent config"@ + number);
}

/// A pane is titled by its kind and its label; a label that says the kind already,
/// however it is written, stands alone, and so does the kind of one without label.
pub proof fn law_title_says_the_kind_once(kind: Seq<char>, label: Seq<char>)
    ensures
        ({
            let bare = text::trimmed(label);
            let says = text::lowercase(bare) == text::lowercase(kind) || text::begins(
                text::lowercase(bare),
                text::lowercase(kind) + " "@,
            );
            let title = titles::prefixed_title(kind, label);
            &&& bare.len() == 0 ==> title == kind
            &&& bare.len() > 0 && says ==> title == bare
            &&& bare.len() > 0 && !says ==> title == kind + ": "@ + bare
        }),
{
}

// ---------------------------------------------------------------------------
// States
// ---------------------------------------------------------------------------

/// Whether an output shows a state.
pub open spec fn shows(m: StatusMatcher, state: AgentState, output: Seq<char>) -> bool {
    exists|i: int|
        0 <= i < m.patterns(state).len() && #[trigger] status::regex_matches(
            m.patterns(state)[i],
            output,
        )
}

/// An agent waits where its output shows that; else it thinks, else it is done,
/// and where nothing is shown it is idle.
pub proof fn law_waiting_comes_first(m: StatusMatcher, output: Seq<char>)
    ensures
        ({
            let waiting = shows(m, AgentState::Waiting, output);
            let thinking = shows(m, AgentState::Thinking, output);
            let done = shows(m, AgentState::Done, output);
            let state = m.state_of(output);
            &&& state == AgentState::Waiting <==> waiting
            &&& state == AgentState::Thinking <==> !waiting && thinking
            &&& state == AgentState::Done <==> !waiting && !thinking && done
            &&& state == AgentState::Idle <==> !waiting && !thinking && !done
        }),
{
}

/// What is looked at are the last twelve of the lines that are not blank, or all of
/// them where there are fewer, in their order.
pub proof fn law_last_filled_lines_are_looked_at(lines: Seq<Seq<char>>) -> (at: Seq<int>)
    ensures
        picking::ascend(at),
        forall|i: int| #[trigger]
            at.contains(i) <==> 0 <= i < lines.len() && text::trimmed(lines[i]).len() > 0,
        forall|k: int| 0 <= k < at.len() ==> 0 <= #[trigger] at[k] < lines.len(),
        ({
            let from: int = if at.len() <= 12 {
                0
            } else {
                at.len() - 12
            };
            status::live_region(lines) == text::joined(
                Seq::new((at.len() - from) as nat, |k: int| lines[at[from + k]]),
                "\n"@,
            )
        }),
{
    let keep = |l: Seq<char>| !status::blank(l);
    let at = picking::lemma_filter_places(lines, keep);
    let from: int = if at.len() <= 12 {
        0
    } else {
        at.len() - 12
    };
    let shown = Seq::new((at.len() - from) as nat, |k: int| lines[at[from + k]]);
    assert(status::last_lines(status::filled_lines(lines), 12) =~= shown);
    at
}

/// The word for a state is read as that state, and no other word as any.
pub proof fn law_states_are_read_by_name(word: Seq<char>)
    ensures
        status::named_state("thinking"@) == Some(AgentState::Thinking),
        status::named_state("idle"@) == Some(AgentState::Idle),
        status::named_state("waiting"@) == Some(AgentState::Waiting),
        status::named_state("done"@) == Some(AgentState::Done),
        word != "thinking"@ && word != "idle"@ && word != "waiting"@ && word != "done"@
            ==> status::named_state(word) is None,
{
    reveal_strlit("thinking");
    reveal_strlit("idle");
    reveal_strlit("waiting");
    reveal_strlit("done");
    assert("thinking"@[0] == 't' && "idle"@[0] == 'i' && "waiting"@[0] == 'w' && "done"@[0] == 'd');
}

/// The patterns of a state are those of the first rule for it.
pub proof fn law_first_rule_of_a_state_counts(
    rules: Seq<(AgentState, Vec<String>)>,
    state: AgentState,
    i: int,
)
    ensures
        0 <= i < rules.len() && rules[i].0 == state && (forall|k: int|
            0 <= k < i ==> (#[trigger] rules[k]).0 != state) ==> status::patterns_in(rules, state)
            == Some(text::texts(rules[i].1@)),
        (forall|k: int| 0 <= k < rules.len() ==> (#[trigger] rules[k]).0 != state)
            ==> status::patterns_in(rules, state) is None,
    decreases rules.len(),
{
    if rules.len() > 0 && rules[0].0 != state {
        let rest = rules.drop_first();
        law_first_rule_of_a_state_counts(rest, state, i - 1);
        if 0 <= i < rules.len() && rules[i].0 == state && (forall|k: int|
            0 <= k < i ==> (#[trigger] rules[k]).0 != state) {
            assert(rest[i - 1] == rules[i]);
            assert forall|k: int| 0 <= k < i - 1 implies (#[trigger] rest[k]).0 != state by {
                assert(rules[k + 1] == rest[k]);
            }
        }
        if forall|k: int| 0 <= k < rules.len() ==> (#[trigger] rules[k]).0 != state {
            assert forall|k: int| 0 <= k < rest.len() implies (#[trigger] rest[k]).0 != state by {
                assert(rules[k + 1] == rest[k]);
            }
        }
    }
}

/// Whether one of the patterns of a state cannot be compiled.
pub open spec fn has_fault(rules: StatusRules, state: AgentState) -> bool {
    exists|i: int|
        0 <= i < rules.pattern_list(state).len() && status::regex_of(
            #[trigger] rules.pattern_list(state)[i],
        ) is None
}

/// Rules are refused exactly where a pattern for waiting, thinking or done cannot be
/// compiled; what is told of is a pattern that cannot be, of the first of these
/// states that has one.
pub proof fn law_faulty_patterns_are_refused(rules: StatusRules)
    ensures
        match status::invalid_rule(rules) {
            Some((state, pattern)) => {
                &&& rules.pattern_list(state).contains(pattern)
                &&& status::regex_of(pattern) is None
                &&& state == AgentState::Waiting <==> has_fault(rules, AgentState::Waiting)
                &&& state == AgentState::Thinking ==> !has_fault(rules, AgentState::Waiting)
                &&& state == AgentState::Done ==> !has_fault(rules, AgentState::Waiting)
                    && !has_fault(rules, AgentState::Thinking)
                &&& state != AgentState::Idle
            },
            None => !has_fault(rules, AgentState::Waiting) && !has_fault(
                rules,
                AgentState::Thinking,
            ) && !has_fault(rules, AgentState::Done),
        },
{
    lemma_first_invalid(rules.pattern_list(AgentState::Waiting));
    lemma_first_invalid(rules.pattern_list(AgentState::Thinking));
    lemma_first_invalid(rules.pattern_list(AgentState::Done));
}

/// The first pattern that cannot be compiled.
proof fn lemma_first_invalid(patterns: Seq<Seq<char>>)
    ensures
        match status::first_invalid(patterns) {
            Some(p) => patterns.contains(p) && status::regex_of(p) is None && exists|i: int|
                0 <= i < patterns.len() && status::regex_of(#[trigger] patterns[i]) is None,
            None => forall|i: int|
                0 <= i < patterns.len() ==> status::regex_of(#[trigger] patterns[i]) is Some,
        },
    decreases patterns.len(),
{
    if patterns.len() > 0 {
        let rest = patterns.drop_first();
        if status::regex_of(patterns[0]) is Some {
            lemma_first_invalid(rest);
            if status::first_invalid(rest) is Some {
                let p = status::first_invalid(rest)->0;
                let k = choose|k: int| 0 <= k < rest.len() && rest[k] == p;
                assert(patterns[k + 1] == p);
            } else {
                assert forall|i: int| 0 <= i < patterns.len() implies status::regex_of(
                    #[trigger] patterns[i],
                ) is Some by {
                    if i > 0 {
                        assert(rest[i - 1] == patterns[i]);
                    }
                }
            }
        } else {
            assert(patterns.contains(patterns[0]));
        }
    }
}

/// The expressions of a type and a state are those of its patterns, in their order.
pub proof fn law_expressions_are_those_of_the_type(
    patterns: Seq<TypePattern>,
    tool_type: Seq<char>,
    state: AgentState,
) -> (at: Seq<int>)
    ensures
        ({
            let out = status::expressions(patterns, tool_type, state);
            &&& picking::ascend(at)
            &&& at.len() == out.len()
            &&& forall|k: int|
                0 <= k < at.len() ==> 0 <= (#[trigger] at[k]) < patterns.len() && out[k]
                    == patterns[at[k]].re
            &&& forall|i: int| #[trigger]
                at.contains(i) <==> 0 <= i < patterns.len() && patterns[i].tool_type == tool_type
                    && patterns[i].state == state
        }),
    decreases patterns.len(),
{
    if patterns.len() == 0 {
        Seq::empty()
    } else {
        let front = patterns.drop_last();
        let n = patterns.len() - 1;
        let at0 = law_expressions_are_those_of_the_type(front, tool_type, state);
        let out0 = status::expressions(front, tool_type, state);
        let out = status::expressions(patterns, tool_type, state);
        let at = if patterns[n].tool_type == tool_type && patterns[n].state == state {
            at0.push(n)
        } else {
            at0
        };
        presence_laws::lemma_grown(at0, n);
        assert forall|k: int| 0 <= k < at.len() implies 0 <= (#[trigger] at[k]) < patterns.len()
            && out[k] == patterns[at[k]].re by {
            if k < at0.len() {
                assert(at0[k] == at[k]);
                assert(front[at0[k]] == patterns[at[k]]);
                assert(out0[k] == out[k]);
            }
        }
        assert forall|i: int| #[trigger] at.contains(i) <==> 0 <= i < patterns.len()
            && patterns[i].tool_type == tool_type && patterns[i].state == state by {
            picking::lemma_push_holds(at0, n, i);
            let _ = at0.contains(i);
            if 0 <= i < front.len() {
                assert(front[i] == patterns[i]);
            }
        }
        at
    }
}

/// Whether a line heads a type.
pub open spec fn is_heading(line: Seq<char>) -> bool {
    text::begins(text::trimmed(line), "## "@)
}

/// A line stands under the type of the nearest heading before it; before the first
/// heading it stands under none.
pub proof fn law_lines_stand_under_their_heading(lines: Seq<Seq<char>>, h: int)
    ensures
        0 <= h < lines.len() && is_heading(lines[h]) && (forall|k: int|
            h < k < lines.len() ==> !is_heading(#[trigger] lines[k])) ==> status::heading(lines)
            == Some(text::trimmed(text::trimmed(lines[h]).skip(3))),
        (forall|k: int| 0 <= k < lines.len() ==> !is_heading(#[trigger] lines[k]))
            ==> status::heading(lines) is None,
    decreases lines.len(),
{
    reveal_strlit("## ");
    if lines.len() > 0 {
        let front = lines.drop_last();
        let n = lines.len() - 1;
        law_lines_stand_under_their_heading(front, h);
        assert forall|k: int| 0 <= k < n implies front[k] == #[trigger] lines[k] by {}
        assert(lines[n] == lines.last());
        if 0 <= h < n && is_heading(lines[h]) && (forall|k: int|
            h < k < lines.len() ==> !is_heading(#[trigger] lines[k])) {
            assert(!is_heading(lines[n]));
            assert(is_heading(front[h]));
            assert forall|k: int| h < k < front.len() implies !is_heading(#[trigger] front[k]) by {
                assert(!is_heading(lines[k]));
            }
        }
        if forall|k: int| 0 <= k < lines.len() ==> !is_heading(#[trigger] lines[k]) {
            assert(!is_heading(lines[n]));
            assert forall|k: int| 0 <= k < front.len() implies !is_heading(#[trigger] front[k]) by {
                assert(!is_heading(lines[k]));
            }
        }
    }
}

/// A line gives a pattern where it stands under a type and says a state and an
/// expression; headings give none. The patterns come in the order of their lines.
pub proof fn law_patterns_are_read_from_lines(lines: Seq<Seq<char>>) -> (at: Seq<int>)
    ensures
        ({
            let out = status::type_patterns(lines);
            &&& picking::ascend(at)
            &&& at.len() == out.len()
            &&& forall|k: int|
                0 <= k < at.len() ==> {
                    let i = #[trigger] at[k];
                    let read = status::pattern_line(text::trimmed(lines[i]));
                    &&& 0 <= i < lines.len()
                    &&& read is Some
                    &&& out[k] == (TypePattern {
                        tool_type: status::heading(lines.take(i))->0,
                        state: (read->0).0,
                        re: (read->0).1,
                    })
                }
            &&& forall|i: int| #[trigger]
                at.contains(i) <==> 0 <= i < lines.len() && !is_heading(lines[i])
                    && status::heading(lines.take(i)) is Some && status::pattern_line(
                    text::trimmed(lines[i]),
                ) is Some
        }),
    decreases lines.len(),
{
    if lines.len() == 0 {
        Seq::empty()
    } else {
        let front = lines.drop_last();
        let n = lines.len() - 1;
        let at0 = law_patterns_are_read_from_lines(front);
        let out0 = status::type_patterns(front);
        let out = status::type_patterns(lines);
        let line = text::trimmed(lines[n]);
        assert(lines.take(n) =~= front);
        let gives = !is_heading(lines[n]) && status::heading(front) is Some && status::pattern_line(
            line,
        ) is Some;
        let at = if gives {
            at0.push(n)
        } else {
            at0
        };
        presence_laws::lemma_grown(at0, n);
        assert(lines[n] == lines.last());
        assert forall|k: int| 0 <= k < at.len() implies {
            let i = #[trigger] at[k];
            let read = status::pattern_line(text::trimmed(lines[i]));
            &&& 0 <= i < lines.len()
            &&& read is Some
            &&& out[k] == (TypePattern {
                tool_type: status::heading(lines.take(i))->0,
                state: (read->0).0,
                re: (read->0).1,
            })
        } by {
            if k < at0.len() {
                assert(at0[k] == at[k]);
                assert(front[at0[k]] == lines[at[k]]);
                assert(front.take(at0[k]) =~= lines.take(at[k]));
                assert(out0[k] == out[k]);
            }
        }
        assert forall|i: int| #[trigger] at.contains(i) <==> 0 <= i < lines.len() && !is_heading(
            lines[i],
        ) && status::heading(lines.take(i)) is Some && status::pattern_line(
            text::trimmed(lines[i]),
        ) is Some by {
            picking::lemma_push_holds(at0, n, i);
            let _ = at0.contains(i);
            if 0 <= i < front.len() {
                assert(front[i] == lines[i]);
                assert(front.take(i) =~= lines.take(i));
            }
        }
        at
    }
}

// ---------------------------------------------------------------------------
// Files
// ---------------------------------------------------------------------------

/// The rows of an index are the lines that are rows, in their order; other lines
/// are passed over.
pub proof fn law_index_is_read_line_by_line(lines: Seq<Seq<char>>) -> (at: Seq<int>)
    ensures
        ({
            let out = sidebar_reload::index_rows(lines);
            &&& picking::ascend(at)
            &&& at.len() == out.len()
            &&& forall|k: int|
                0 <= k < at.len() ==> 0 <= (#[trigger] at[k]) < lines.len() && rows::index_line(
                    lines[at[k]],
                ) == Some(out[k])
            &&& forall|i: int| #[trigger]
                at.contains(i) <==> 0 <= i < lines.len() && rows::index_line(lines[i]) is Some
        }),
    decreases lines.len(),
{
    if lines.len() == 0 {
        Seq::empty()
    } else {
        let front = lines.drop_last();
        let n = lines.len() - 1;
        let at0 = law_index_is_read_line_by_line(front);
        let out0 = sidebar_reload::index_rows(front);
        let out = sidebar_reload::index_rows(lines);
        let at = if rows::index_line(lines[n]) is Some {
            at0.push(n)
        } else {
            at0
        };
        presence_laws::lemma_grown(at0, n);
        assert forall|k: int| 0 <= k < at.len() implies 0 <= (#[trigger] at[k]) < lines.len()
            && rows::index_line(lines[at[k]]) == Some(out[k]) by {
            if k < at0.len() {
                assert(at0[k] == at[k]);
                assert(front[at0[k]] == lines[at[k]]);
                assert(out0[k] == out[k]);
            }
        }
        assert forall|i: int| #[trigger] at.contains(i) <==> 0 <= i < lines.len()
            && rows::index_line(lines[i]) is Some by {
            picking::lemma_push_holds(at0, n, i);
            let _ = at0.contains(i);
            if 0 <= i < front.len() {
                assert(front[i] == lines[i]);
            }
        }
        at
    }
}

/// The processes are read from the lines that are theirs, in their order.
pub proof fn law_processes_are_read_line_by_line(lines: Seq<Seq<char>>) -> (at: Seq<int>)
    ensures
        ({
            let out = sidebar_reload::process_rows(lines);
            &&& picking::ascend(at)
            &&& at.len() == out.len()
            &&& forall|k: int|
                0 <= k < at.len() ==> 0 <= (#[trigger] at[k]) < lines.len() && rows::process_line(
                    lines[at[k]],
                ) == Some(out[k])
            &&& forall|i: int| #[trigger]
                at.contains(i) <==> 0 <= i < lines.len() && rows::process_line(lines[i]) is Some
        }),
    decreases lines.len(),
{
    if lines.len() == 0 {
        Seq::empty()
    } else {
        let front = lines.drop_last();
        let n = lines.len() - 1;
        let at0 = law_processes_are_read_line_by_line(front);
        let out0 = sidebar_reload::process_rows(front);
        let out = sidebar_reload::process_rows(lines);
        let at = if rows::process_line(lines[n]) is Some {
            at0.push(n)
        } else {
            at0
        };
        presence_laws::lemma_grown(at0, n);
        assert forall|k: int| 0 <= k < at.len() implies 0 <= (#[trigger] at[k]) < lines.len()
            && rows::process_line(lines[at[k]]) == Some(out[k]) by {
            if k < at0.len() {
                assert(at0[k] == at[k]);
                assert(front[at0[k]] == lines[at[k]]);
                assert(out0[k] == out[k]);
            }
        }
        assert forall|i: int| #[trigger] at.contains(i) <==> 0 <= i < lines.len()
            && rows::process_line(lines[i]) is Some by {
            picking::lemma_push_holds(at0, n, i);
            let _ = at0.contains(i);
            if 0 <= i < front.len() {
                assert(front[i] == lines[i]);
            }
        }
        at
    }
}

/// The configs are read from the lines that are theirs, in their order.
pub proof fn law_configs_are_read_line_by_line(lines: Seq<Seq<char>>) -> (at: Seq<int>)
    ensures
        ({
            let out = sidebar_reload::config_rows(lines);
            &&& picking::ascend(at)
            &&& at.len() == out.len()
            &&& forall|k: int|
                0 <= k < at.len() ==> 0 <= (#[trigger] at[k]) < lines.len() && rows::config_line(
                    lines[at[k]],
                ) == Some(out[k])
            &&& forall|i: int| #[trigger]
                at.contains(i) <==> 0 <= i < lines.len() && rows::config_line(lines[i]) is Some
        }),
    decreases lines.len(),
{
    if lines.len() == 0 {
        Seq::empty()
    } else {
        let front = lines.drop_last();
        let n = lines.len() - 1;
        let at0 = law_configs_are_read_line_by_line(front);
        let out0 = sidebar_reload::config_rows(front);
        let out = sidebar_reload::config_rows(lines);
        let at = if rows::config_line(lines[n]) is Some {
            at0.push(n)
        } else {
            at0
        };
        presence_laws::lemma_grown(at0, n);
        assert forall|k: int| 0 <= k < at.len() implies 0 <= (#[trigger] at[k]) < lines.len()
            && rows::config_line(lines[at[k]]) == Some(out[k]) by {
            if k < at0.len() {
                assert(at0[k] == at[k]);
                assert(front[at0[k]] == lines[at[k]]);
                assert(out0[k] == out[k]);
            }
        }
        assert forall|i: int| #[trigger] at.contains(i) <==> 0 <= i < lines.len()
            && rows::config_line(lines[i]) is Some by {
            picking::lemma_push_holds(at0, n, i);
            let _ = at0.contains(i);
            if 0 <= i < front.len() {
                assert(front[i] == lines[i]);
            }
        }
        at
    }
}

/// A sidebar reads the files of what it lists, and of what it needs to watch over
/// them; of the others it keeps what it had. What it does not find is empty.
pub proof fn law_sidebar_reads_what_it_lists(s: PanoptPane, f: Projected, after: PanoptPane)
    requires
        sidebar_reload::loads_to(s, f, after),
    ensures
        ({
            let of = |body: Option<&str>| if body is Some {
                text::line_seq(body->0@)
            } else {
                Seq::<Seq<char>>::empty()
            };
            &&& s.mode == Mode::Todos ==> titles::entries(after.todos@)
                == sidebar_reload::index_rows(of(f.todos))
            &&& s.mode != Mode::Todos ==> after.todos == s.todos
            &&& s.mode == Mode::Todos || s.mode == Mode::Notes ==> titles::entries(after.notes@)
                == sidebar_reload::index_rows(of(f.notes))
            &&& s.mode != Mode::Todos && s.mode != Mode::Notes ==> after.notes == s.notes
            &&& s.mode == Mode::Todos || s.mode == Mode::Agents || s.mode == Mode::Commands
                ==> after.process_list() == sidebar_reload::process_rows(of(f.processes))
            &&& s.mode == Mode::Notes || s.mode == Mode::Terminals ==> after.processes
                == s.processes
            &&& s.mode == Mode::Agents ==> sidebar::config_views(after.configs@)
                == sidebar_reload::config_rows(of(f.configs))
            &&& s.mode != Mode::Agents ==> after.configs == s.configs
            &&& s.mode != Mode::Todos ==> after.status_matchers == s.status_matchers
            &&& after.panes == s.panes && after.cursor == s.cursor && after.items == s.items
        }),
{
}

/// A view that is read is shown where its number is higher than that of the last
/// one that was; otherwise nothing changes.
pub proof fn law_newer_views_are_adopted(s: PanoptPane, body: &str, after: PanoptPane)
    requires
        sidebar_reload::adopts_to(s, Some(body), after),
    ensures
        ({
            let number = wire::field_value(body@, "seq"@);
            let newer = number is Some && number->0 > s.last_applied_seq;
            &&& !newer ==> after == s
            &&& newer ==> after.last_applied_seq == after.view_seq && wire::view_in(
                body@,
                sidebar_reload::view_of(after),
            )
            &&& after.panes == s.panes && after.items == s.items && after.todos == s.todos
                && after.mode == s.mode
        }),
{
}

// ---------------------------------------------------------------------------
// Events
// ---------------------------------------------------------------------------

/// A sidebar starts in the mode that it was given, and with the todos where that
/// is none; its bell rings unless it was switched off.
pub proof fn law_sidebar_starts_as_set(s: PanoptPane, f: Settings, plugin: u32, after: PanoptPane)
    requires
        sidebar_events::loads_with(s, f, plugin, after),
    ensures
        f.mode is Some && f.mode->0@ == "todos"@ ==> after.mode == Mode::Todos && after.mode_known,
        f.mode is Some && f.mode->0@ == "agents"@ ==> after.mode == Mode::Agents
            && after.mode_known,
        f.mode is Some && f.mode->0@ == "terminals"@ ==> after.mode == Mode::Terminals
            && after.mode_known,
        f.mode is Some && f.mode->0@ == "commands"@ ==> after.mode == Mode::Commands
            && after.mode_known,
        f.mode is Some && f.mode->0@ == "notes"@ ==> after.mode == Mode::Notes
            && after.mode_known,
        f.mode is None ==> after.mode == Mode::Todos && !after.mode_known,
        f.idle_bell is None ==> after.idle_bell,
        f.idle_bell is Some && (f.idle_bell->0@ == "off"@ || f.idle_bell->0@ == "false"@
            || f.idle_bell->0@ == "no"@ || f.idle_bell->0@ == "0"@) ==> !after.idle_bell,
        f.idle_bell is Some && f.idle_bell->0@ != "off"@ && f.idle_bell->0@ != "false"@
            && f.idle_bell->0@ != "no"@ && f.idle_bell->0@ != "0"@ ==> after.idle_bell,
        f.port is Some ==> after.port@ == f.port->0@,
        f.port is None ==> after.port@ == "7600"@,
        f.panopt_bin is Some ==> after.panopt_bin@ == f.panopt_bin->0@,
        f.panopt_bin is None ==> after.panopt_bin@ == "panopt"@,
        f.ws is Some ==> after.ws is Some && after.ws->0@ == f.ws->0@,
        f.ws is None ==> after.ws is None,
        after.plugin_pane == Some(PaneId::Plugin(plugin)),
        after.todo_sort_2 == TodoSort::CreatedAsc,
{
    reveal_strlit("todos");
    reveal_strlit("agents");
    reveal_strlit("terminals");
    reveal_strlit("commands");
    reveal_strlit("notes");
    let t = Mode::Todos.slug_text();
    let a = Mode::Agents.slug_text();
    let m = Mode::Terminals.slug_text();
    let c = Mode::Commands.slug_text();
    let n = Mode::Notes.slug_text();
    assert(t == "todos"@ && a == "agents"@ && m == "terminals"@ && c == "commands"@ && n
        == "notes"@);
    assert("todos"@[0] == 't' && "agents"@[0] == 'a' && "terminals"@[0] == 't' && "commands"@[0]
        == 'c' && "notes"@[0] == 'n');
    assert("todos"@.len() == 5 && "terminals"@.len() == 9);
}

/// The sidebar of the todos clears what the others left when it starts; each reads
/// its files, sets its title and starts its clock.
pub proof fn law_sidebar_starts_its_clock(mode: Mode)
    ensures
        ({
            let acts = sidebar_events::load_actions(mode);
            &&& acts.contains(ActionView::ClearShared) <==> mode == Mode::Todos
            &&& acts.contains(ActionView::ReloadData)
            &&& acts.contains(ActionView::SyncFrameTitle)
            &&& acts.last() == ActionView::SetTimer
        }),
{
    let acts = sidebar_events::load_actions(mode);
    let n = acts.len() as int;
    assert(acts[n - 3] == ActionView::ReloadData);
    assert(acts[n - 2] == ActionView::SyncFrameTitle);
    if mode == Mode::Todos {
        assert(acts[0] == ActionView::ClearShared);
    }
}

/// What is permitted is kept and told of; an event that is none of those that a
/// sidebar knows changes nothing.
pub proof fn law_permission_is_kept(
    s: PanoptPane,
    granted: bool,
    after: PanoptPane,
    acts: Seq<ActionView>,
    dirty: bool,
)
    ensures
        sidebar_update::updates_to(s, Event::Permission(granted), after, acts, dirty) ==> after == (
        PanoptPane { permitted: granted, ..s }) && acts == seq![ActionView::SyncFrameTitle]
            && dirty,
        sidebar_update::updates_to(s, Event::Other, after, acts, dirty) ==> after == s
            && acts.len() == 0 && !dirty,
{
}

} // verus!
