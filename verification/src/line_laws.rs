//! Files that are made of lines.

use vstd::prelude::*;
use vstd::string::*;

use crate::projection;
use crate::text;

verus! {

/// A text without a line feed.
pub open spec fn has_no_feed(s: Seq<char>) -> bool {
    forall|i: int| 0 <= i < s.len() ==> (#[trigger] s[i]) != '\n'
}

/// Two texts without a line feed make one.
pub proof fn lemma_no_feed_add(a: Seq<char>, b: Seq<char>)
    requires
        has_no_feed(a),
        has_no_feed(b),
    ensures
        has_no_feed(a + b),
{
    assert forall|i: int| 0 <= i < (a + b).len() implies (#[trigger] (a + b)[i]) != '\n' by {
        if i < a.len() {
            assert((a + b)[i] == a[i]);
        } else {
            assert((a + b)[i] == b[i - a.len()]);
        }
    }
}

/// A number holds no line feed.
pub proof fn lemma_no_feed_decimal(n: nat)
    ensures
        has_no_feed(text::decimal(n)),
{
    text::lemma_decimal_value(n);
    assert forall|i: int| 0 <= i < text::decimal(n).len() implies (#[trigger] text::decimal(n)[i])
        != '\n' by {
        assert(text::is_digit(text::decimal(n)[i]));
    }
}

/// A line that its line feed ends.
pub open spec fn ended(line: Seq<char>) -> Seq<char> {
    line + "\n"@
}

/// Whether every text stands on one line.
pub open spec fn are_lines(lines: Seq<Seq<char>>) -> bool {
    forall|i: int| 0 <= i < lines.len() ==> has_no_feed(#[trigger] lines[i])
}

/// Lines as they are read: a carriage return at the end belongs to the end.
pub open spec fn as_read(lines: Seq<Seq<char>>) -> Seq<Seq<char>> {
    lines.map_values(|l: Seq<char>| text::without_cr(l))
}

/// Lines one after another, split at the first one.
proof fn lemma_run_on_cons(first: Seq<char>, rest: Seq<Seq<char>>)
    ensures
        projection::run_on(seq![first] + rest) == first + projection::run_on(rest),
    decreases rest.len(),
{
    let all = seq![first] + rest;
    if rest.len() == 0 {
        assert(all.drop_last() =~= seq![]);
        assert(projection::run_on(all.drop_last()) =~= seq![]);
        assert(projection::run_on(all) =~= first + projection::run_on(rest));
    } else {
        assert(all.drop_last() =~= seq![first] + rest.drop_last());
        assert(all.last() == rest.last());
        lemma_run_on_cons(first, rest.drop_last());
        assert(projection::run_on(all) =~= first + projection::run_on(rest));
    }
}

/// Lines that are written one after another are read one after another.
pub proof fn lemma_lines_are_read(lines: Seq<Seq<char>>)
    requires
        are_lines(lines),
    ensures
        text::line_seq(projection::run_on(lines.map_values(|l: Seq<char>| ended(l)))) == as_read(
            lines,
        ),
    decreases lines.len(),
{
    let all = lines.map_values(|l: Seq<char>| ended(l));
    reveal_strlit("\n");
    if lines.len() == 0 {
        assert(as_read(lines) =~= seq![]);
    } else {
        let line = lines[0];
        let rest = lines.drop_first();
        let tail = rest.map_values(|l: Seq<char>| ended(l));
        assert(all =~= seq![ended(line)] + tail);
        lemma_run_on_cons(ended(line), tail);
        assert forall|i: int| 0 <= i < rest.len() implies has_no_feed(#[trigger] rest[i]) by {
            assert(rest[i] == lines[i + 1]);
        }
        lemma_lines_are_read(rest);
        let t = projection::run_on(tail);
        let whole = line + seq!['\n'] + t;
        assert(has_no_feed(lines[0]));
        assert(projection::run_on(all) =~= whole);
        text::lemma_find_char_at(line, '\n', t);
        assert(whole.take(line.len() as int) =~= line);
        assert(whole.skip(line.len() as int + 1) =~= t);
        assert(text::line_seq(whole) == seq![text::without_cr(line)] + text::line_seq(t));
        assert(seq![text::without_cr(line)] + as_read(rest) =~= as_read(lines));
    }
}

/// Two runs of lines, one after the other.
pub proof fn lemma_run_on_add(a: Seq<Seq<char>>, b: Seq<Seq<char>>)
    ensures
        projection::run_on(a + b) == projection::run_on(a) + projection::run_on(b),
    decreases b.len(),
{
    if b.len() == 0 {
        assert(a + b =~= a);
        assert(projection::run_on(a) + projection::run_on(b) =~= projection::run_on(a));
    } else {
        assert((a + b).drop_last() =~= a + b.drop_last());
        assert((a + b).last() == b.last());
        lemma_run_on_add(a, b.drop_last());
        assert(projection::run_on(a + b) =~= projection::run_on(a) + projection::run_on(b));
    }
}

/// The lines of two parts.
pub proof fn lemma_ended_add(a: Seq<Seq<char>>, b: Seq<Seq<char>>)
    ensures
        projection::run_on((a + b).map_values(|l: Seq<char>| ended(l))) == projection::run_on(
            a.map_values(|l: Seq<char>| ended(l)),
        ) + projection::run_on(b.map_values(|l: Seq<char>| ended(l))),
{
    let f = |l: Seq<char>| ended(l);
    assert((a + b).map_values(f) =~= a.map_values(f) + b.map_values(f));
    lemma_run_on_add(a.map_values(f), b.map_values(f));
}

} // verus!
