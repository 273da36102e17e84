//! What the daemon writes to its lists is what the sidebar reads from them.

use vstd::prelude::*;
use vstd::string::*;

use crate::model::{AgentToolView, Priority, ProcessKind, ProcessView, TodoStatus, TodoView};
use crate::modes;
use crate::projection;
use crate::rows;
use crate::rows::{ConfigRowView, ProcessRowView};
use crate::text;

verus! {

// ---------------------------------------------------------------------------
// Cutting
// ---------------------------------------------------------------------------

/// A text is cut at the first place where a pattern stands.
proof fn lemma_cut_at(a: Seq<char>, pat: Seq<char>, t: Seq<char>)
    requires
        forall|j: int| 0 <= j < a.len() ==> !text::occurs_at(a + pat + t, pat, j),
    ensures
        text::cut(a + pat + t, pat) == Some((a, t)),
{
    let s = a + pat + t;
    let n = a.len() as int;
    assert(s.subrange(n, n + pat.len()) =~= pat);
    assert(text::occurs_at(s, pat, n));
    text::lemma_find_is(s, pat, n);
    assert(s.take(n) =~= a);
    assert(s.skip(n + pat.len()) =~= t);
}

/// A pattern of two characters does not stand in a text without the second.
proof fn lemma_cut_pair(a: Seq<char>, x: char, y: char, t: Seq<char>)
    requires
        x != y,
        forall|j: int| 0 <= j < a.len() ==> (#[trigger] a[j]) != y,
    ensures
        text::cut(a + seq![x, y] + t, seq![x, y]) == Some((a, t)),
{
    let pat = seq![x, y];
    let s = a + pat + t;
    assert forall|j: int| 0 <= j < a.len() implies !text::occurs_at(s, pat, j) by {
        if text::occurs_at(s, pat, j) {
            assert(s.subrange(j, j + 2)[1] == pat[1]);
            assert(s[j + 1] == y);
            if j + 1 < a.len() {
                assert(a[j + 1] != y);
            } else {
                assert(s[j + 1] == pat[0]);
            }
        }
    }
    lemma_cut_at(a, pat, t);
}

/// The digits of a number.
proof fn lemma_digits(n: nat)
    ensures
        text::decimal(n).len() > 0,
        forall|i: int|
            0 <= i < text::decimal(n).len() ==> text::is_digit(#[trigger] text::decimal(n)[i]),
{
    text::lemma_decimal_value(n);
}

/// A text with a prefix loses it.
proof fn lemma_prefix(a: Seq<char>, t: Seq<char>)
    ensures
        text::after_prefix(a + t, a) == Some(t),
{
    assert((a + t).subrange(0, a.len() as int) =~= a);
    assert((a + t).take(a.len() as int) =~= a);
    assert((a + t).skip(a.len() as int) =~= t);
    assert((a + t).subrange(a.len() as int, (a + t).len() as int) =~= t);
}

// ---------------------------------------------------------------------------
// Index lines
// ---------------------------------------------------------------------------

/// What follows the link of an index line is its label.
proof fn lemma_link(id: u64, dir: Seq<char>, label: Seq<char>)
    requires
        forall|j: int| 0 <= j < dir.len() ==> (#[trigger] dir[j]) != ' ',
    ensures
        ({
            let n = text::decimal(id as nat);
            let r = n + "]("@ + dir + n + ".md) "@ + label;
            &&& text::cut(r, "]"@) == Some((n, "("@ + dir + n + ".md) "@ + label))
            &&& text::u64_of(n) == Some(id)
            &&& text::cut("("@ + dir + n + ".md) "@ + label, ") "@) == Some(
                ("("@ + dir + n + ".md"@, label),
            )
        }),
{
    let n = text::decimal(id as nat);
    lemma_digits(id as nat);
    text::lemma_u64_of_decimal(id);
    reveal_strlit("](");
    reveal_strlit("]");
    reveal_strlit("(");
    reveal_strlit(".md) ");
    reveal_strlit(".md");
    reveal_strlit(") ");
    let r = n + "]("@ + dir + n + ".md) "@ + label;
    let rest = "("@ + dir + n + ".md) "@ + label;
    assert("]"@ =~= seq![']']);
    assert(r =~= n + seq![']'] + rest);
    text::lemma_find_char_at(n, ']', rest);
    let head = "("@ + dir + n + ".md"@;
    assert(") "@ =~= seq![')', ' ']);
    assert(rest =~= head + seq![')', ' '] + label);
    assert forall|j: int| 0 <= j < head.len() implies (#[trigger] head[j]) != ' ' by {
        let k = 1 + dir.len() as int;
        if j == 0 {
        } else if j < k {
            assert(head[j] == dir[j - 1]);
        } else if j < k + n.len() {
            assert(head[j] == n[j - k]);
        }
    }
    lemma_cut_pair(head, ')', ' ', label);
}

/// The line of a todo in the index is read back: its id, and its title with
/// its status and priority.
pub proof fn law_todo_line_is_read(t: TodoView)
    ensures
        rows::index_line(projection::todo_entry(t)) == Some(
            (t.id, text::trimmed(projection::todo_label(t))),
        ),
{
    let n = text::decimal(t.id as nat);
    let mark = projection::check_mark(t.status);
    let label = projection::todo_label(t);
    let l = projection::todo_entry(t);
    reveal_strlit("- [");
    reveal_strlit("] [#");
    reveal_strlit("[#");
    reveal_strlit("](todos/");
    reveal_strlit("](");
    reveal_strlit("todos/");
    reveal_strlit("high");
    reveal_strlit("medium");
    reveal_strlit("low");
    let r = n + "]("@ + "todos/"@ + n + ".md) "@ + label;
    let a = seq!['-', ' ', '[', mark, ']', ' '];
    assert("[#"@ =~= seq!['[', '#']);
    assert("](todos/"@ =~= "]("@ + "todos/"@);
    assert(l =~= a + seq!['[', '#'] + r);
    // Nothing is trimmed: the line starts with a dash and ends with a letter.
    assert(l[0] == '-');
    assert(l.last() == t.priority.token().last()) by {
        assert(label.last() == t.priority.token().last());
        assert(l.last() == label.last());
    }
    assert(text::trimmed(l) == l) by {
        text::lemma_trim_nothing(l);
    }
    assert(l.subrange(0, 3) =~= "- ["@);
    lemma_cut_pair(a, '[', '#', r);
    lemma_link(t.id, "todos/"@, label);
}

/// The suffix of a todo's label is cut at its comma.
proof fn lemma_suffix_pieces(status: TodoStatus, priority: Priority)
    ensures
        ({
            let fields = text::pieces(status.token() + ", "@ + priority.token(), ","@);
            &&& fields.len() == 2
            &&& text::trimmed(fields[0]) == status.token()
            &&& text::trimmed(fields[1]) == priority.token()
        }),
{
    let s = status.token();
    let p = priority.token();
    lemma_tokens_plain(status, priority);
    reveal_strlit(", ");
    reveal_strlit(",");
    let rest = seq![' '] + p;
    let whole = s + ", "@ + p;
    assert(","@ =~= seq![',']);
    assert(whole =~= s + seq![','] + rest);
    text::lemma_find_char_at(s, ',', rest);
    assert(whole.take(s.len() as int) =~= s);
    assert(whole.skip(s.len() as int + 1) =~= rest);
    assert forall|j: int| 0 <= j < rest.len() implies rest[j] != ',' by {
        if j > 0 {
            assert(rest[j] == p[j - 1]);
        }
    }
    text::lemma_find_char_none(rest, ',');
    assert(text::pieces(rest, ","@) =~= seq![rest]);
    assert(text::pieces(whole, ","@) =~= seq![s, rest]);
    text::lemma_trim_nothing(s);
    text::lemma_trim_nothing(p);
    assert(rest.drop_first() =~= p);
    assert(text::trim_left(rest) == text::trim_left(p));
}

/// The tokens of statuses and priorities are words.
proof fn lemma_tokens_plain(status: TodoStatus, priority: Priority)
    ensures
        status.token().len() > 0,
        priority.token().len() > 0,
        forall|j: int|
            0 <= j < status.token().len() ==> (#[trigger] status.token()[j]) == '_' || 'a'
                <= status.token()[j] <= 'z',
        forall|j: int|
            0 <= j < priority.token().len() ==> 'a' <= (#[trigger] priority.token()[j]) <= 'z',
        modes::is_status_token(status.token()),
        modes::is_priority_token(priority.token()),
{
    reveal_strlit("open");
    reveal_strlit("in_progress");
    reveal_strlit("backlog");
    reveal_strlit("draft");
    reveal_strlit("completed");
    reveal_strlit("not_done");
    reveal_strlit("high");
    reveal_strlit("medium");
    reveal_strlit("low");
}

/// The suffix of a todo's label begins with a letter and holds no dash.
pub proof fn lemma_suffix_plain(status: TodoStatus, priority: Priority)
    ensures
        ({
            let suffix = status.token() + ", "@ + priority.token();
            &&& suffix.len() > 0
            &&& !text::white(suffix[0])
            &&& forall|j: int| 0 <= j < suffix.len() ==> (#[trigger] suffix[j]) != '-'
        }),
{
    let suffix = status.token() + ", "@ + priority.token();
    lemma_tokens_plain(status, priority);
    reveal_strlit(", ");
    assert(suffix[0] == status.token()[0]);
    assert forall|j: int| 0 <= j < suffix.len() implies (#[trigger] suffix[j]) != '-' by {
        let n = status.token().len() as int;
        if j < n {
            assert(suffix[j] == status.token()[j]);
        } else if j < n + 2 {
            assert(suffix[j] == ", "@[j - n]);
        } else {
            assert(suffix[j] == priority.token()[j - n - 2]);
        }
    }
}

/// A suffix without a dash begins behind the dash before it.
proof fn lemma_suffix_at(title: Seq<char>, suffix: Seq<char>)
    requires
        forall|j: int| 0 <= j < suffix.len() ==> (#[trigger] suffix[j]) != '-',
    ensures
        modes::suffix_at(title + " - "@ + suffix) == Some(title.len() as int + 3),
{
    reveal_strlit(" - ");
    let pat = " - "@;
    let s = title + pat + suffix;
    let at = title.len() as int;
    assert(s.subrange(at, at + 3) =~= pat);
    assert(text::occurs_at(s, pat, at));
    assert forall|j: int| at < j <= s.len() - 3 implies !text::occurs_at(s, pat, j) by {
        if text::occurs_at(s, pat, j) {
            assert(s.subrange(j, j + 3)[1] == pat[1]);
            assert(s[j + 1] == '-');
            if j + 1 < at + 3 {
                assert(s[j + 1] == pat[j + 1 - at]);
            } else {
                assert(s[j + 1] == suffix[j + 1 - at - 3]);
            }
        }
    }
    text::lemma_rfind_from(s, pat, s.len() - 3);
}

/// A suffix without a dash begins behind the dash before it, also where nothing
/// comes before that.
proof fn lemma_suffix_alone(suffix: Seq<char>)
    requires
        forall|j: int| 0 <= j < suffix.len() ==> (#[trigger] suffix[j]) != '-',
    ensures
        modes::suffix_at("- "@ + suffix) == Some(2int),
{
    reveal_strlit(" - ");
    reveal_strlit("- ");
    let pat = " - "@;
    let t = "- "@ + suffix;
    assert forall|j: int| j <= t.len() - 3 implies !text::occurs_at(t, pat, j) by {
        if text::occurs_at(t, pat, j) {
            assert(t.subrange(j, j + 3)[1] == pat[1]);
            assert(t[j + 1] == '-');
            if j + 1 >= 2 {
                assert(t[j + 1] == suffix[j - 1]);
            }
        }
    }
    text::lemma_rfind_from(t, pat, t.len() - 3);
    assert(t.subrange(0, 2) =~= "- "@);
}

/// The label of a todo tells its status and its priority, whatever its title
/// holds, also where it has none.
pub proof fn law_todo_label_tells(t: TodoView)
    ensures
        ({
            let l = text::trimmed(projection::todo_label(t));
            &&& modes::status_of(l) == Some(t.status.token())
            &&& modes::priority_of(l) == Some(t.priority.token())
        }),
{
    let suffix = t.status.token() + ", "@ + t.priority.token();
    let label = projection::todo_label(t);
    lemma_tokens_plain(t.status, t.priority);
    lemma_suffix_pieces(t.status, t.priority);
    reveal_strlit(" - ");
    reveal_strlit("- ");
    reveal_strlit(", ");
    lemma_suffix_plain(t.status, t.priority);
    assert(label =~= t.title + (" - "@ + suffix));
    let head = text::trim_left(t.title);
    lemma_suffix_at(head, suffix);
    lemma_suffix_alone(suffix);
    text::lemma_trim_left_head(t.title, " - "@ + suffix);
    let tail = " - "@ + suffix;
    assert(tail.drop_first() =~= "- "@ + suffix);
    assert(text::trim_left("- "@ + suffix) == "- "@ + suffix) by {
        assert(("- "@ + suffix)[0] == '-');
    }
    let left = text::trim_left(label);
    assert(left == if head.len() > 0 {
        head + tail
    } else {
        "- "@ + suffix
    });
    assert(head + tail =~= head + " - "@ + suffix);
    assert(left.last() == t.priority.token().last());
    assert(text::trim_right(left) == left);
    if head.len() > 0 {
        assert(left.skip(head.len() as int + 3) =~= suffix);
    } else {
        assert(left.skip(2) =~= suffix);
    }
}

/// The line of a note in the index is read back: its id, and its title with
/// the moment of its last change.
pub proof fn law_note_line_is_read(dir: Seq<char>, row: (u64, Seq<char>, Seq<char>))
    requires
        forall|j: int| 0 <= j < dir.len() ==> (#[trigger] dir[j]) != ' ',
    ensures
        rows::index_line(projection::note_entry(dir, row)) == Some(
            (row.0, text::trimmed(row.1 + " - updated "@ + row.2)),
        ),
{
    let n = text::decimal(row.0 as nat);
    let label = row.1 + " - updated "@ + row.2;
    let l = projection::note_entry(dir, row);
    reveal_strlit("- [#");
    reveal_strlit("- [");
    reveal_strlit("[#");
    reveal_strlit("](");
    reveal_strlit("/");
    reveal_strlit(" - updated ");
    let path = dir + "/"@;
    let front = "- [#"@ + n + "]("@ + path + n + ".md) "@;
    assert(l =~= front + label);
    // What stands at the end of the line may be trimmed, the word before it not.
    let kept = text::trim_right(label);
    assert(label[row.1.len() as int + 9] == 'd');
    text::lemma_trim_right_stops(label, row.1.len() as int + 9);
    text::lemma_trim_right_tail(front, label);
    text::lemma_trimmed_trim_right(label);
    let r = n + "]("@ + path + n + ".md) "@ + kept;
    let a = seq!['-', ' '];
    let t = text::trimmed(l);
    assert(l[0] == '-');
    assert(text::trim_left(l) == l);
    assert("[#"@ =~= seq!['[', '#']);
    assert(t =~= a + seq!['[', '#'] + r);
    assert(t.subrange(0, 3) =~= "- ["@);
    lemma_cut_pair(a, '[', '#', r);
    assert forall|j: int| 0 <= j < path.len() implies (#[trigger] path[j]) != ' ' by {
        if j < dir.len() {
            assert(path[j] == dir[j]);
        }
    }
    lemma_link(row.0, path, kept);
}

// ---------------------------------------------------------------------------
// Config lines
// ---------------------------------------------------------------------------

/// A label without ` [` has none before the one that follows it.
proof fn lemma_absent_stays(label: Seq<char>, rest: Seq<char>)
    requires
        text::find_seq(label, " ["@) is None,
    ensures
        forall|j: int|
            0 <= j < label.len() ==> !text::occurs_at(label + " ["@ + rest, " ["@, j),
{
    reveal_strlit(" [");
    let pat = " ["@;
    let s = label + pat + rest;
    text::lemma_find_from(label, pat, 0);
    assert forall|j: int| 0 <= j < label.len() implies !text::occurs_at(s, pat, j) by {
        if text::occurs_at(s, pat, j) {
            assert(s.subrange(j, j + 2)[0] == ' ' && s.subrange(j, j + 2)[1] == '[');
            assert(s[j] == ' ' && s[j + 1] == '[');
            if j + 1 < label.len() {
                assert(label.subrange(j, j + 2) =~= pat);
                assert(text::occurs_at(label, pat, j));
            } else {
                assert(s[j + 1] == ' ');
            }
        }
    }
}

/// A config line is read part by part.
proof fn lemma_config_parts(
    id: u64,
    label: Seq<char>,
    flag: Seq<char>,
    tail: Seq<char>,
    line: Seq<char>,
)
    requires
        line == "- #"@ + text::decimal(id as nat) + " "@ + label + " ["@ + flag + "]"@ + tail,
        text::trimmed(line) == line,
        text::find_seq(label, " ["@) is None,
        forall|j: int| 0 <= j < flag.len() ==> (#[trigger] flag[j]) != ']',
    ensures
        rows::config_line(line) == Some(
            ConfigRowView {
                id,
                label: text::trimmed(label),
                enabled: flag == "enabled"@,
            },
        ),
{
    let n = text::decimal(id as nat);
    let flagged = flag + "]"@ + tail;
    let after = label + " ["@ + flagged;
    let rest = n + " "@ + after;
    text::lemma_u64_of_decimal(id);
    assert(line =~= "- #"@ + rest);
    lemma_prefix("- #"@, rest);
    assert(text::cut(rest, " "@) == Some((n, after))) by {
        reveal_strlit(" ");
        lemma_digits(id as nat);
        assert(" "@ =~= seq![' ']);
        text::lemma_find_char_at(n, ' ', after);
    }
    assert(text::cut(after, " ["@) == Some((label, flagged))) by {
        lemma_absent_stays(label, flagged);
        lemma_cut_at(label, " ["@, flagged);
    }
    assert(text::cut(flagged, "]"@) == Some((flag, tail))) by {
        reveal_strlit("]");
        assert("]"@ =~= seq![']']);
        text::lemma_find_char_at(flag, ']', tail);
    }
}

/// The line of an agent tool is read back: its id, its name, and whether it is
/// enabled.
pub proof fn law_tool_line_is_read(t: AgentToolView)
    requires
        text::find_seq(projection::tool_label(t), " ["@) is None,
    ensures
        rows::config_line(projection::tool_entry(t)) == Some(
            ConfigRowView {
                id: t.id,
                label: text::trimmed(projection::tool_label(t)),
                enabled: t.enabled,
            },
        ),
{
    let label = projection::tool_label(t);
    let flag = if t.enabled {
        "enabled"@
    } else {
        "disabled"@
    };
    let tail = if t.command.len() == 0 {
        Seq::<char>::empty()
    } else {
        " "@ + t.command
    };
    let l = projection::tool_entry(t);
    let front = "- #"@ + text::decimal(t.id as nat) + " "@ + label + " ["@ + flag + "]"@;
    let kept = front + text::trim_right(tail);
    assert(text::trimmed(l) == kept && text::trimmed(kept) == kept) by {
        reveal_strlit("- #");
        reveal_strlit("]");
        assert(l =~= front + tail);
        assert(front.last() == ']');
        text::lemma_trim_right_tail(front, tail);
        text::lemma_trim_right(tail);
        assert(l[0] == '-');
        assert(text::trim_left(l) == l);
        assert(kept[0] == '-');
        assert(text::trim_right(tail).len() == 0 ==> kept =~= front);
        assert(!text::white(kept.last()));
        text::lemma_trim_nothing(kept);
    }
    assert(forall|j: int| 0 <= j < flag.len() ==> (#[trigger] flag[j]) != ']') by {
        reveal_strlit("enabled");
        reveal_strlit("disabled");
    }
    assert(t.enabled == (flag == "enabled"@)) by {
        reveal_strlit("enabled");
        reveal_strlit("disabled");
        assert("enabled"@[0] == 'e' && "disabled"@[0] == 'd');
    }
    lemma_config_parts(t.id, label, flag, text::trim_right(tail), kept);
}

// ---------------------------------------------------------------------------
// Process lines
// ---------------------------------------------------------------------------

/// A text that can stand as an attribute: it holds no separator, and neither
/// starts nor ends with white space.
pub open spec fn is_plain(s: Seq<char>) -> bool {
    &&& s.len() > 0
    &&& !text::white(s[0])
    &&& !text::white(s.last())
    &&& forall|j: int| 0 <= j < s.len() ==> (#[trigger] s[j]) != '·'
}

/// Whether an attribute can be read back, where it is there.
pub open spec fn absent_or_plain(s: Option<Seq<char>>) -> bool {
    s is None || is_plain(s->0)
}

/// An attribute as a segment, where it is there.
pub open spec fn segment(key: Seq<char>, value: Option<Seq<char>>) -> Seq<Seq<char>> {
    match value {
        Some(v) => seq![key + v],
        None => seq![],
    }
}

/// Segments with the separator before each.
pub open spec fn trail(segs: Seq<Seq<char>>) -> Seq<char>
    decreases segs.len(),
{
    if segs.len() == 0 {
        seq![]
    } else {
        trail(segs.drop_last()) + " · "@ + segs.last()
    }
}

/// One segment more at the end.
proof fn lemma_trail_push(segs: Seq<Seq<char>>, key: Seq<char>, value: Option<Seq<char>>)
    ensures
        trail(segs + segment(key, value)) == trail(segs) + projection::attribute(key, value),
{
    match value {
        Some(v) => {
            let all = segs + segment(key, value);
            assert(all.drop_last() =~= segs);
            assert(all.last() == key + v);
            assert(trail(segs) + " · "@ + (key + v) =~= trail(segs) + (" · "@ + key + v));
        },
        None => {
            assert(segs + segment(key, value) =~= segs);
            assert(trail(segs) + seq![] =~= trail(segs));
        },
    }
}

/// A text without the separator, followed by segments without it, splits into
/// these.
proof fn lemma_pieces_of_trail(head: Seq<char>, segs: Seq<Seq<char>>)
    requires
        forall|j: int| 0 <= j < head.len() ==> (#[trigger] head[j]) != '·',
        forall|i: int, j: int|
            0 <= i < segs.len() && 0 <= j < segs[i].len() ==> (#[trigger] segs[i][j]) != '·',
    ensures
        text::pieces(head + trail(segs), " · "@) == seq![head] + segs,
    decreases segs.len(),
{
    reveal_strlit(" · ");
    let pat = " · "@;
    if segs.len() == 0 {
        assert(head + trail(segs) =~= head);
        text::lemma_find_from(head, pat, 0);
        if let Some(i) = text::find_seq(head, pat) {
            assert(head.subrange(i, i + 3)[1] == '·');
            assert(head[i + 1] == '·');
        }
        assert(seq![head] + segs =~= seq![head]);
    } else {
        // Peel the first segment off the front.
        let first = segs[0];
        let rest = segs.drop_first();
        lemma_trail_front(segs);
        let t = first + trail(rest);
        assert forall|i: int, j: int| 0 <= i < rest.len() && 0 <= j < rest[i].len() implies (
        #[trigger] rest[i][j]) != '·' by {
            assert(rest[i] == segs[i + 1]);
            assert(segs[i + 1][j] != '·');
        }
        assert forall|j: int| 0 <= j < first.len() implies (#[trigger] first[j]) != '·' by {
            assert(segs[0][j] != '·');
        }
        lemma_pieces_of_trail(first, rest);
        assert(head + trail(segs) =~= head + (pat + t));
        assert forall|j: int| 0 <= j < head.len() implies !text::occurs_at(
            head + (pat + t),
            pat,
            j,
        ) by {
            let s = head + (pat + t);
            if text::occurs_at(s, pat, j) {
                assert(s.subrange(j, j + 3)[1] == '·');
                assert(s[j + 1] == '·');
                if j + 1 < head.len() {
                    assert(head[j + 1] != '·');
                } else {
                    assert(s[j + 1] == pat[0]);
                }
            }
        }
        text::lemma_pieces_past(head, pat + t, pat);
        text::lemma_pieces_at(t, pat);
        let p = text::pieces(pat + t, pat);
        assert(p =~= seq![Seq::<char>::empty()] + (seq![first] + rest));
        assert(head + p[0] =~= head);
        assert(p.drop_first() =~= seq![first] + rest);
        assert(seq![first] + rest =~= segs);
    }
}

/// The separator and the first segment stand at the front.
proof fn lemma_trail_front(segs: Seq<Seq<char>>)
    requires
        segs.len() > 0,
    ensures
        trail(segs) == " · "@ + (segs[0] + trail(segs.drop_first())),
    decreases segs.len(),
{
    let rest = segs.drop_first();
    if segs.len() == 1 {
        assert(segs.drop_last() =~= seq![]);
        assert(rest =~= seq![]);
        assert(trail(segs) =~= " · "@ + (segs[0] + trail(rest)));
    } else {
        lemma_trail_front(segs.drop_last());
        assert(segs.drop_last().drop_first() =~= rest.drop_last());
        assert(segs.drop_last()[0] == segs[0]);
        assert(trail(segs) =~= " · "@ + (segs[0] + trail(rest)));
    }
}

/// The words that name attributes.
pub open spec fn is_key(k: Seq<char>) -> bool {
    k == "type:"@ || k == "state:"@ || k == "agent:"@ || k == "idle:"@
}

/// Keys that do not begin each other.
proof fn lemma_keys(a: Seq<char>, b: Seq<char>, v: Seq<char>)
    requires
        is_key(a),
        is_key(b),
        a != b,
    ensures
        !text::begins(a + v, b),
        text::begins(a + v, a),
        a.len() > 0 && !text::white(a[0]),
{
    reveal_strlit("type:");
    reveal_strlit("state:");
    reveal_strlit("agent:");
    reveal_strlit("idle:");
    assert((a + v).subrange(0, a.len() as int) =~= a);
    if text::begins(a + v, b) {
        assert((a + v).subrange(0, b.len() as int)[0] == b[0]);
        assert((a + v)[0] == a[0]);
    }
}

/// An attribute at the end is the one that is read.
proof fn lemma_read_key(segs: Seq<Seq<char>>, key: Seq<char>, v: Option<Seq<char>>)
    requires
        is_key(key),
        absent_or_plain(v),
    ensures
        rows::last_keyed(segs + segment(key, v), key) == (if v is Some {
            v
        } else {
            rows::last_keyed(segs, key)
        }),
        forall|other: Seq<char>|
            is_key(other) && other != key ==> #[trigger] rows::last_keyed(
                segs + segment(key, v),
                other,
            ) == rows::last_keyed(segs, other),
        rows::last_plain(segs + segment(key, v)) == rows::last_plain(segs),
{
    match v {
        None => {
            assert(segs + segment(key, v) =~= segs);
        },
        Some(x) => {
            let all = segs + segment(key, v);
            assert(all.drop_last() =~= segs);
            assert(all.last() == key + x);
            let seg = key + x;
            assert(exists|k: Seq<char>| is_key(k) && k != key) by {
                reveal_strlit("type:");
                reveal_strlit("idle:");
                assert("type:"@[0] == 't' && "idle:"@[0] == 'i');
                assert(is_key("type:"@) && is_key("idle:"@));
            }
            let some = choose|k: Seq<char>| is_key(k) && k != key;
            lemma_keys(key, some, x);
            assert(seg[0] == key[0]);
            assert(seg.last() == x.last());
            assert(text::trimmed(seg) == seg) by {
                text::lemma_trim_nothing(seg);
            }
            lemma_prefix(key, x);
            assert(text::trimmed(x) == x) by {
                text::lemma_trim_nothing(x);
            }
            assert forall|other: Seq<char>|
                is_key(other) && other != key implies #[trigger] rows::last_keyed(all, other)
                == rows::last_keyed(segs, other) by {
                lemma_keys(key, other, x);
            }
        },
    }
}

/// Whether a status can be read back: it is plain and names no attribute.
pub open spec fn is_plain_status(s: Option<Seq<char>>) -> bool {
    s is None || (is_plain(s->0) && !rows::is_keyed(s->0))
}

/// The mark of a tool stands last where it is put.
proof fn lemma_last_mark(label: Seq<char>, n: Seq<char>)
    requires
        forall|i: int| 0 <= i < n.len() ==> text::is_digit(#[trigger] n[i]),
    ensures
        text::rfind_seq(label + (" (from #"@ + n + ")"@), " (from #"@) == Some(
            label.len() as int,
        ),
{
    reveal_strlit(" (from #");
    reveal_strlit(")");
    let mark = " (from #"@;
    let full = label + (mark + n + ")"@);
    let at = label.len() as int;
    assert(full.subrange(at, at + 8) =~= mark);
    assert(text::occurs_at(full, mark, at));
    text::lemma_rfind_from(full, mark, full.len() - 8);
    assert forall|j: int| at < j <= full.len() - 8 implies !text::occurs_at(full, mark, j) by {
        if text::occurs_at(full, mark, j) {
            // The hash would stand among the digits.
            assert(full.subrange(j, j + 8)[7] == mark[7]);
            assert(full[j + 7] == '#');
            let k = j - at - 1;
            if k < n.len() {
                assert(full[j + 7] == n[k]);
                assert(text::is_digit(n[k]));
            } else {
                assert(full[j + 7] == ")"@[k - n.len()]);
            }
        }
    }
}

/// The head of a process line is read back: the name, and the tool.
proof fn lemma_process_label(label: Seq<char>, tool: Option<u64>)
    requires
        is_plain(label),
        tool is None ==> rows::from_at(label) is None,
    ensures
        ({
            let full = label + (match tool {
                Some(t) => " (from #"@ + text::decimal(t as nat) + ")"@,
                None => seq![],
            });
            &&& rows::bare_label(full) == label
            &&& rows::from_id(full) == tool
            &&& is_plain(full)
        }),
{
    match tool {
        None => {
            assert(label + seq![] =~= label);
        },
        Some(t) => {
            let n = text::decimal(t as nat);
            let mark = " (from #"@;
            lemma_digits(t as nat);
            text::lemma_u64_of_decimal(t);
            reveal_strlit(" (from #");
            reveal_strlit(")");
            let full = label + (mark + n + ")"@);
            let at = label.len() as int;
            assert(full.subrange(full.len() - 1, full.len() as int) =~= ")"@);
            assert(text::ends(full, ")"@));
            lemma_last_mark(label, n);
            assert(full.take(at) =~= label);
            assert(full.subrange(at + 8, full.len() - 1) =~= n);
            text::lemma_digit_not_white(n[0]);
            text::lemma_digit_not_white(n.last());
            assert(text::trimmed(n) == n) by {
                text::lemma_trim_nothing(n);
            }
            assert forall|j: int| 0 <= j < full.len() implies (#[trigger] full[j]) != '·' by {
                if j < at {
                    assert(full[j] == label[j]);
                } else if j < at + 8 {
                    assert(full[j] == mark[j - at]);
                } else if j < full.len() - 1 {
                    assert(full[j] == n[j - at - 8]);
                    assert(text::is_digit(n[j - at - 8]));
                }
            }
            assert(full[0] == label[0]);
            assert(full.last() == ')');
        },
    }
}

/// The line of a process without attributes is read back: its kind, its id, its
/// name, the tool that it is from, and nothing else.
pub proof fn law_plain_process_line_is_read(p: ProcessView)
    requires
        is_plain(projection::process_label(p)),
        p.agent_tool_id is None ==> rows::from_at(projection::process_label(p)) is None,
    ensures
        rows::process_line(projection::process_head(p)) == Some(
            ProcessRowView {
                kind: p.kind.token(),
                id: p.id,
                label: projection::process_label(p),
                status: None,
                tool_type: None,
                agent_state: None,
                agent_id: None,
                agent_tool_id: p.agent_tool_id,
                idle: None,
            },
        ),
{
    let none = Seq::<(u64, Seq<char>)>::empty();
    let q = ProcessView {
        name: seq![],
        display_name: projection::process_label(p),
        status: None,
        agent_state: None,
        ..p
    };
    assert(projection::process_type(q, none) is None);
    law_process_line_is_read(q, none, 0);
    assert(projection::process_entry(q, none, 0) =~= projection::process_head(p));
}

/// The line of a process is read back, with all its attributes. Its name, its
/// status and what is known of it must be plain, and a name without a tool may
/// not look like one with a tool.
pub proof fn law_process_line_is_read(p: ProcessView, types: Seq<(u64, Seq<char>)>, now: i64)
    requires
        is_plain(projection::process_label(p)),
        p.agent_tool_id is None ==> rows::from_at(projection::process_label(p)) is None,
        is_plain_status(p.status),
        absent_or_plain(projection::process_type(p, types)),
        absent_or_plain(projection::process_agent(p)),
        absent_or_plain(p.agent_state),
    ensures
        rows::process_line(projection::process_entry(p, types, now)) == Some(
            ProcessRowView {
                kind: p.kind.token(),
                id: p.id,
                label: projection::process_label(p),
                status: p.status,
                tool_type: projection::process_type(p, types),
                agent_state: p.agent_state,
                agent_id: projection::process_agent(p),
                agent_tool_id: p.agent_tool_id,
                idle: projection::idle_age(p, now),
            },
        ),
{
    let label = projection::process_label(p);
    let full = label + (match p.agent_tool_id {
        Some(t) => " (from #"@ + text::decimal(t as nat) + ")"@,
        None => seq![],
    });
    lemma_process_label(label, p.agent_tool_id);
    let kind = projection::process_type(p, types);
    let agent = projection::process_agent(p);
    let age = projection::idle_age(p, now);
    lemma_age_plain(p, now);
    let none = Seq::<Seq<char>>::empty();
    let s1 = segment(seq![], p.status);
    let s2 = s1 + segment("type:"@, kind);
    let s3 = s2 + segment("agent:"@, agent);
    let s4 = s3 + segment("state:"@, p.agent_state);
    let s5 = s4 + segment("idle:"@, age);
    lemma_trail_push(none, seq![], p.status);
    assert(none + s1 =~= s1);
    lemma_trail_push(s1, "type:"@, kind);
    lemma_trail_push(s2, "agent:"@, agent);
    lemma_trail_push(s3, "state:"@, p.agent_state);
    lemma_trail_push(s4, "idle:"@, age);
    assert(trail(none) =~= seq![]);
    assert(trail(s1) =~= projection::attribute(seq![], p.status));
    let body = full + trail(s5);
    lemma_entry_is_body(p, types, now, full, trail(s5));
    lemma_segments_plain(p, kind, agent, age);
    lemma_pieces_of_trail(full, s5);
    lemma_body_ends(full, s5);
    let segs = text::pieces(body, " · "@);
    assert(segs == seq![full] + s5);
    assert(segs[0] == full);
    assert(segs.drop_first() =~= s5);
    assert(text::trimmed(full) == full) by {
        text::lemma_trim_nothing(full);
    }
    lemma_read_status(p.status);
    lemma_read_key(s1, "type:"@, kind);
    lemma_read_key(s2, "agent:"@, agent);
    lemma_read_key(s3, "state:"@, p.agent_state);
    lemma_read_key(s4, "idle:"@, age);
    lemma_keys_differ();
    lemma_head_is_read(p, body);
}

/// A status stands for itself and for no attribute.
proof fn lemma_read_status(s: Option<Seq<char>>)
    requires
        is_plain_status(s),
    ensures
        rows::last_plain(segment(seq![], s)) == s,
        rows::last_keyed(segment(seq![], s), "type:"@) is None,
        rows::last_keyed(segment(seq![], s), "agent:"@) is None,
        rows::last_keyed(segment(seq![], s), "state:"@) is None,
        rows::last_keyed(segment(seq![], s), "idle:"@) is None,
{
    match s {
        None => {
            assert(segment(seq![], s).len() == 0);
        },
        Some(x) => {
            let all = segment(seq![], s);
            assert(seq![] + x =~= x);
            assert(all.last() == x);
            assert(all.drop_last().len() == 0);
            assert(rows::last_plain(all.drop_last()) is None);
            assert(rows::last_keyed(all.drop_last(), "type:"@) is None);
            assert(rows::last_keyed(all.drop_last(), "agent:"@) is None);
            assert(rows::last_keyed(all.drop_last(), "state:"@) is None);
            assert(rows::last_keyed(all.drop_last(), "idle:"@) is None);
            assert(text::trimmed(x) == x) by {
                text::lemma_trim_nothing(x);
            }
        },
    }
}

/// The keys are four words.
proof fn lemma_keys_differ()
    ensures
        "type:"@ != "agent:"@ && "type:"@ != "state:"@ && "type:"@ != "idle:"@,
        "agent:"@ != "state:"@ && "agent:"@ != "idle:"@ && "state:"@ != "idle:"@,
{
    reveal_strlit("type:");
    reveal_strlit("state:");
    reveal_strlit("agent:");
    reveal_strlit("idle:");
    assert("type:"@[0] == 't' && "state:"@[0] == 's' && "agent:"@[0] == 'a' && "idle:"@[0] == 'i');
}

/// How long an agent has been idle is plain.
proof fn lemma_age_plain(p: ProcessView, now: i64)
    ensures
        absent_or_plain(projection::idle_age(p, now)),
{
    if let Some(a) = projection::idle_age(p, now) {
        let m: nat = if now > p.state_since->0 {
            ((now - p.state_since->0) / 60) as nat
        } else {
            0
        };
        let n = text::decimal(m);
        lemma_digits(m);
        reveal_strlit("m");
        assert(a == n + "m"@);
        assert(a[0] == n[0]);
        text::lemma_digit_not_white(n[0]);
        assert(a.last() == 'm');
        assert forall|j: int| 0 <= j < a.len() implies (#[trigger] a[j]) != '·' by {
            if j < n.len() {
                assert(a[j] == n[j]);
                assert(text::is_digit(n[j]));
            }
        }
    }
}

/// The line is its head, the name, and the attributes.
proof fn lemma_entry_is_body(
    p: ProcessView,
    types: Seq<(u64, Seq<char>)>,
    now: i64,
    full: Seq<char>,
    rest: Seq<char>,
)
    requires
        full == projection::process_label(p) + (match p.agent_tool_id {
            Some(t) => " (from #"@ + text::decimal(t as nat) + ")"@,
            None => seq![],
        }),
        rest == projection::attribute(seq![], p.status) + projection::attribute(
            "type:"@,
            projection::process_type(p, types),
        ) + projection::attribute("agent:"@, projection::process_agent(p)) + projection::attribute(
            "state:"@,
            p.agent_state,
        ) + projection::attribute("idle:"@, projection::idle_age(p, now)),
    ensures
        projection::process_entry(p, types, now) == "- ["@ + p.kind.token() + "] #"@
            + text::decimal(p.id as nat) + " "@ + (full + rest),
{
    let head = "- ["@ + p.kind.token() + "] #"@ + text::decimal(p.id as nat) + " "@;
    assert(projection::process_head(p) =~= head + full);
    assert(projection::process_entry(p, types, now) =~= head + (full + rest));
}

/// No segment holds the separator.
proof fn lemma_segments_plain(
    p: ProcessView,
    kind: Option<Seq<char>>,
    agent: Option<Seq<char>>,
    age: Option<Seq<char>>,
)
    requires
        is_plain_status(p.status),
        absent_or_plain(kind),
        absent_or_plain(agent),
        absent_or_plain(p.agent_state),
        absent_or_plain(age),
    ensures
        ({
            let segs = segment(seq![], p.status) + segment("type:"@, kind) + segment(
                "agent:"@,
                agent,
            ) + segment("state:"@, p.agent_state) + segment("idle:"@, age);
            &&& forall|i: int, j: int|
                0 <= i < segs.len() && 0 <= j < segs[i].len() ==> (#[trigger] segs[i][j]) != '·'
            &&& segs.len() > 0 ==> segs.last().len() > 0 && !text::white(segs.last().last())
        }),
{
    reveal_strlit("type:");
    reveal_strlit("state:");
    reveal_strlit("agent:");
    reveal_strlit("idle:");
    let none = Seq::<Seq<char>>::empty();
    assert(seq![] + p.status->0 =~= p.status->0);
    lemma_plain_push(none, seq![], p.status);
    let s1 = segment(seq![], p.status);
    assert(none + s1 =~= s1);
    lemma_plain_push(s1, "type:"@, kind);
    let s2 = s1 + segment("type:"@, kind);
    lemma_plain_push(s2, "agent:"@, agent);
    let s3 = s2 + segment("agent:"@, agent);
    lemma_plain_push(s3, "state:"@, p.agent_state);
    let s4 = s3 + segment("state:"@, p.agent_state);
    lemma_plain_push(s4, "idle:"@, age);
}

/// Whether no segment holds the separator, and the last ends with no white
/// space.
spec fn plain_segments(segs: Seq<Seq<char>>) -> bool {
    &&& forall|i: int, j: int|
        0 <= i < segs.len() && 0 <= j < segs[i].len() ==> (#[trigger] segs[i][j]) != '·'
    &&& segs.len() > 0 ==> segs.last().len() > 0 && !text::white(segs.last().last())
}

proof fn lemma_plain_push(segs: Seq<Seq<char>>, key: Seq<char>, v: Option<Seq<char>>)
    requires
        plain_segments(segs),
        absent_or_plain(v),
        forall|j: int| 0 <= j < key.len() ==> (#[trigger] key[j]) != '·',
    ensures
        plain_segments(segs + segment(key, v)),
{
    let all = segs + segment(key, v);
    match v {
        None => {
            assert(all =~= segs);
        },
        Some(x) => {
            let n = segs.len() as int;
            assert(all[n] == key + x);
            assert(all.last() == key + x);
            assert((key + x).last() == x.last());
            assert forall|i: int, j: int| 0 <= i < all.len() && 0 <= j < all[i].len() implies (
            #[trigger] all[i][j]) != '·' by {
                if i < n {
                    assert(all[i] == segs[i]);
                    assert(segs[i][j] != '·');
                } else if j < key.len() {
                    assert(all[i][j] == key[j]);
                } else {
                    assert(all[i][j] == x[j - key.len()]);
                }
            }
        },
    }
}

/// A body that starts and ends with no white space is not trimmed.
proof fn lemma_body_ends(full: Seq<char>, segs: Seq<Seq<char>>)
    requires
        is_plain(full),
        segs.len() > 0 ==> segs.last().len() > 0 && !text::white(segs.last().last()),
    ensures
        text::trimmed(full + trail(segs)) == full + trail(segs),
        (full + trail(segs)).len() > 0,
        !text::white((full + trail(segs))[0]),
        !text::white((full + trail(segs)).last()),
{
    let body = full + trail(segs);
    assert(body[0] == full[0]);
    if segs.len() > 0 {
        assert(trail(segs).last() == segs.last().last());
        assert(body.last() == trail(segs).last());
    } else {
        assert(body =~= full);
    }
    text::lemma_trim_nothing(body);
}

/// The head of a process line is read: the kind and the id.
proof fn lemma_head_is_read(p: ProcessView, body: Seq<char>)
    requires
        body.len() > 0,
        !text::white(body.last()),
    ensures
        ({
            let line = "- ["@ + p.kind.token() + "] #"@ + text::decimal(p.id as nat) + " "@ + body;
            rows::process_line(line) == Some(rows::process_body(p.kind.token(), p.id, body))
        }),
{
    let n = text::decimal(p.id as nat);
    let kind = p.kind.token();
    let line = "- ["@ + kind + "] #"@ + n + " "@ + body;
    lemma_digits(p.id as nat);
    text::lemma_u64_of_decimal(p.id);
    reveal_strlit("- [");
    reveal_strlit("] #");
    reveal_strlit("]");
    reveal_strlit("#");
    reveal_strlit(" ");
    reveal_strlit("agent");
    reveal_strlit("command");
    reveal_strlit("terminal");
    assert(line[0] == '-');
    assert(line.last() == body.last());
    assert(text::trimmed(line) == line) by {
        text::lemma_trim_nothing(line);
    }
    let tail = " #"@ + n + " "@ + body;
    reveal_strlit(" #");
    let rest = kind + "]"@ + tail;
    assert(line =~= "- ["@ + rest);
    lemma_prefix("- ["@, rest);
    assert("]"@ =~= seq![']']);
    assert forall|j: int| 0 <= j < kind.len() implies (#[trigger] kind[j]) != ']' by {
        match p.kind {
            ProcessKind::Agent => {},
            ProcessKind::Command => {},
            ProcessKind::Terminal => {},
        }
    }
    text::lemma_find_char_at(kind, ']', tail);
    let after = n + " "@ + body;
    let hashed = "#"@ + after;
    assert(tail.drop_first() =~= hashed);
    assert(text::trim_left(hashed) == hashed);
    assert(text::trim_left(tail) == hashed);
    lemma_prefix("#"@, after);
    assert(" "@ =~= seq![' ']);
    assert(after =~= n + seq![' '] + body);
    text::lemma_find_char_at(n, ' ', body);
}

} // verus!
