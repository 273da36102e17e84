//! The title of a content pane is that of the record it shows: what the lists
//! put behind a title is taken away again.

use vstd::prelude::*;
use vstd::string::*;

use crate::model::TodoView;
use crate::projection;
use crate::projection_laws;
use crate::text;
use crate::titles;

verus! {

/// Whether a dash with white space on both sides stands nowhere in a text.
pub open spec fn holds_no_dash(s: Seq<char>) -> bool {
    forall|j: int| !(#[trigger] text::occurs_at(s, " - "@, j))
}

/// What is kept of a text holds no more dashes than the text.
proof fn lemma_kept_holds_no_dash(s: Seq<char>)
    requires
        holds_no_dash(s),
    ensures
        holds_no_dash(text::trim_right(s)),
{
    let kept = text::trim_right(s);
    text::lemma_trim_right(s);
    assert forall|j: int| !(#[trigger] text::occurs_at(kept, " - "@, j)) by {
        if text::occurs_at(kept, " - "@, j) {
            let n = " - "@.len() as int;
            assert(s.subrange(j, j + n) =~= kept.subrange(j, j + n));
            assert(text::occurs_at(s, " - "@, j));
        }
    }
}

/// The dash before a suffix is the last one.
proof fn lemma_last_dash(head: Seq<char>, suffix: Seq<char>)
    requires
        suffix.len() > 0,
        suffix[0] != '-',
        holds_no_dash(suffix),
    ensures
        text::rfind_seq(head + " - "@ + suffix, " - "@) == Some(head.len() as int),
{
    reveal_strlit(" - ");
    let pat = " - "@;
    let s = head + pat + suffix;
    let at = head.len() as int;
    assert(s.subrange(at, at + 3) =~= pat);
    assert(text::occurs_at(s, pat, at));
    assert forall|j: int| at < j <= s.len() - 3 implies !text::occurs_at(s, pat, j) by {
        if text::occurs_at(s, pat, j) {
            let w = s.subrange(j, j + 3);
            assert(w[0] == s[j] && w[1] == s[j + 1]);
            if j >= at + 3 {
                let k = j - at - 3;
                assert(suffix.subrange(k, k + 3) =~= w);
                assert(text::occurs_at(suffix, pat, k));
            } else if j == at + 2 {
                assert(s[j + 1] == suffix[0]);
            } else {
                assert(s[j] == pat[1]);
            }
        }
    }
    text::lemma_rfind_from(s, pat, s.len() - 3);
}

/// A suffix with its dash and nothing before it holds no other dash.
proof fn lemma_lone_suffix(suffix: Seq<char>)
    requires
        suffix.len() > 0,
        suffix[0] != '-',
        holds_no_dash(suffix),
    ensures
        text::rfind_seq("- "@ + suffix, " - "@) is None,
        text::begins("- "@ + suffix, "- "@),
{
    reveal_strlit(" - ");
    reveal_strlit("- ");
    let pat = " - "@;
    let s = "- "@ + suffix;
    assert forall|j: int| j <= s.len() - 3 implies !text::occurs_at(s, pat, j) by {
        if text::occurs_at(s, pat, j) {
            let w = s.subrange(j, j + 3);
            assert(w[0] == s[j] && w[1] == s[j + 1]);
            if j >= 2 {
                assert(suffix.subrange(j - 2, j + 1) =~= w);
                assert(text::occurs_at(suffix, pat, j - 2));
            } else if j == 1 {
                assert(s[2] == suffix[0]);
            }
        }
    }
    text::lemma_rfind_from(s, pat, s.len() - 3);
    assert(s.subrange(0, 2) =~= "- "@);
}

/// The title before a suffix is found again, without the white space around
/// it, also where there is none.
pub proof fn law_title_is_found(title: Seq<char>, suffix: Seq<char>)
    requires
        suffix.len() > 0,
        suffix[0] != '-',
        !text::white(suffix[0]),
        holds_no_dash(suffix),
    ensures
        titles::title_in_label(text::trimmed(title + " - "@ + suffix)) == text::trimmed(title),
{
    reveal_strlit(" - ");
    reveal_strlit("- ");
    let tail = " - "@ + suffix;
    let kept = text::trim_right(suffix);
    let head = text::trim_left(title);
    let label = title + " - "@ + suffix;
    assert(label =~= title + tail);
    text::lemma_trim_right_stops(suffix, 0);
    text::lemma_trim_right(suffix);
    assert(kept[0] == suffix[0]);
    lemma_kept_holds_no_dash(suffix);
    text::lemma_trim_left(title);
    text::lemma_trim_left_head(title, tail);
    if head.len() > 0 {
        let front = head + " - "@;
        assert(head + tail =~= front + suffix);
        text::lemma_trim_right_tail(front, suffix);
        assert(text::trimmed(label) == head + " - "@ + kept);
        lemma_last_dash(head, kept);
        assert((head + " - "@ + kept).take(head.len() as int) =~= head);
        assert(text::trim_left(head) == head);
    } else {
        assert(tail.drop_first() =~= "- "@ + suffix);
        assert(tail[0] == ' ');
        assert(text::trim_left(tail) == text::trim_left(tail.drop_first()));
        assert(("- "@ + suffix)[0] == '-');
        assert(text::trim_left("- "@ + suffix) == "- "@ + suffix);
        text::lemma_trim_right_tail("- "@, suffix);
        assert(text::trimmed(label) == "- "@ + kept);
        lemma_lone_suffix(kept);
        assert(text::trimmed(title) =~= seq![]);
    }
}

/// The label of a todo gives its title back, whatever it holds.
pub proof fn law_todo_title_is_found(t: TodoView)
    ensures
        titles::title_in_label(text::trimmed(projection::todo_label(t))) == text::trimmed(t.title),
{
    let suffix = t.status.token() + ", "@ + t.priority.token();
    projection_laws::lemma_suffix_plain(t.status, t.priority);
    reveal_strlit(" - ");
    assert forall|j: int| !(#[trigger] text::occurs_at(suffix, " - "@, j)) by {
        if text::occurs_at(suffix, " - "@, j) {
            assert(suffix.subrange(j, j + 3)[1] == suffix[j + 1]);
        }
    }
    law_title_is_found(t.title, suffix);
    assert(projection::todo_label(t) =~= t.title + " - "@ + suffix);
}

/// The label of a note gives its title back, whatever it holds. The moment of
/// its last change is text in which no dash stands apart.
pub proof fn law_note_title_is_found(title: Seq<char>, updated: Seq<char>)
    requires
        holds_no_dash("updated "@ + updated),
    ensures
        titles::title_in_label(text::trimmed(title + " - updated "@ + updated)) == text::trimmed(
            title,
        ),
{
    reveal_strlit(" - ");
    reveal_strlit("updated ");
    reveal_strlit(" - updated ");
    let suffix = "updated "@ + updated;
    law_title_is_found(title, suffix);
    assert(title + " - updated "@ + updated =~= title + " - "@ + suffix);
}

} // verus!
