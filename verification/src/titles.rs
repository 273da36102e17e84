//! The titles of content panes.

use vstd::prelude::*;
use vstd::string::*;

use crate::text;

verus! {

/// The views of index rows, each an id and a label.
pub open spec fn entries(index: Seq<(u64, String)>) -> Seq<(u64, Seq<char>)> {
    index.map_values(|e: (u64, String)| (e.0, e.1@))
}

/// The label of the first row with the given id.
pub open spec fn label_in(index: Seq<(u64, Seq<char>)>, id: u64) -> Option<Seq<char>>
    decreases index.len(),
{
    if index.len() == 0 {
        None
    } else if index[0].0 == id {
        Some(index[0].1)
    } else {
        label_in(index.drop_first(), id)
    }
}

/// A label without the ` - ...` that the projection appends to the title.
pub open spec fn title_in_label(label: Seq<char>) -> Seq<char> {
    match text::rfind_seq(label, " - "@) {
        Some(dash) => text::trimmed(label.take(dash)),
        None => if text::begins(label, "- "@) {
            seq![]
        } else {
            text::trimmed(label)
        },
    }
}

/// The title of the row with the given id, unless it is empty.
pub open spec fn title_in(index: Seq<(u64, Seq<char>)>, id: u64) -> Option<Seq<char>> {
    match label_in(index, id) {
        Some(label) => if title_in_label(label).len() == 0 {
            None
        } else {
            Some(title_in_label(label))
        },
        None => None,
    }
}

/// The title that the user gave to the row with the given id.
pub fn lookup_title(index: &[(u64, String)], id: u64) -> (r: Option<String>)
    ensures
        text::opt_text(r) == title_in(entries(index@), id),
{
    let ghost all = entries(index@);
    let mut i: usize = 0;
    assert(all.skip(0) =~= all);
    while i < index.len()
        invariant
            i <= index.len(),
            all == entries(index@),
            label_in(all, id) == label_in(all.skip(i as int), id),
        decreases index.len() - i,
    {
        let ghost rest = all.skip(i as int);
        assert(rest[0] == (index@[i as int].0, index@[i as int].1@));
        if index[i].0 == id {
            let label = index[i].1.as_str();
            let title = match text::rfind(label, " - ") {
                Some(dash) => {
                    assert(label@.subrange(0, dash as int) =~= label@.take(dash as int));
                    text::trim(text::slice(label, 0, dash))
                },
                None => if text::starts_with(label, "- ") {
                    proof {
                        reveal_strlit("");
                        assert(""@ =~= seq![]);
                    }
                    ""
                } else {
                    text::trim(label)
                },
            };
            return if title.is_empty() {
                None
            } else {
                Some(title.to_owned())
            };
        }
        assert(rest.drop_first() =~= all.skip(i + 1));
        i += 1;
    }
    None
}

/// `<kind> #<id>`, and ` - <name>` where there is one.
pub open spec fn named_title(kind: Seq<char>, id: u64, name: Option<Seq<char>>) -> Seq<char> {
    match name {
        Some(t) => kind + " #"@ + text::decimal(id as nat) + " - "@ + t,
        None => kind + " #"@ + text::decimal(id as nat),
    }
}

/// `<kind> #<id>`, and ` - <name>` where there is one.
fn name_title(kind: &str, id: u64, name: &Option<String>) -> (r: String)
    ensures
        r@ == named_title(kind@, id, text::opt_text(*name)),
{
    let mut out = kind.to_owned();
    out.append(" #");
    out.append(text::number(id).as_str());
    match name {
        Some(t) => {
            out.append(" - ");
            out.append(t.as_str());
        },
        None => {},
    }
    out
}

/// The title of a viewer that shows the given kind of document.
pub open spec fn viewer_title(
    kind: Option<Seq<char>>,
    id: Option<u64>,
    todos: Seq<(u64, Seq<char>)>,
    notes: Seq<(u64, Seq<char>)>,
) -> Seq<char> {
    match (kind, id) {
        (Some(k), Some(i)) if k == "todo"@ => named_title("Todo"@, i, title_in(todos, i)),
        (Some(k), Some(i)) if k == "note"@ => named_title("Note"@, i, title_in(notes, i)),
        (Some(k), _) if k == "todo-list"@ => "Todos"@,
        (Some(k), _) if k == "note-list"@ => "Notes"@,
        (Some(k), _) if k == "new-todo"@ => "New todo"@,
        (Some(k), _) if k == "new-note"@ => "New note"@,
        (Some(k), Some(i)) if k == "agent-config"@ => named_title("Agent config"@, i, None),
        (Some(k), _) if k == "new-agent-config"@ => "New agent config"@,
        _ => "Viewer"@,
    }
}

/// The title of a viewer pane: what it shows, with the document's own title
/// where the index has one.
pub fn viewer_title_for(
    kind: Option<&str>,
    id: Option<u64>,
    todos: &[(u64, String)],
    notes: &[(u64, String)],
) -> (r: String)
    ensures
        r@ == viewer_title(text::opt_str(kind), id, entries(todos@), entries(notes@)),
{
    let k = match kind {
        None => {
            return "Viewer".to_owned();
        },
        Some(k) => k,
    };
    if let Some(i) = id {
        if text::same(k, "todo") {
            return name_title("Todo", i, &lookup_title(todos, i));
        }
        if text::same(k, "note") {
            return name_title("Note", i, &lookup_title(notes, i));
        }
    }
    proof {
        lemma_kinds_apart();
    }
    if text::same(k, "todo-list") {
        "Todos".to_owned()
    } else if text::same(k, "note-list") {
        "Notes".to_owned()
    } else if text::same(k, "new-todo") {
        "New todo".to_owned()
    } else if text::same(k, "new-note") {
        "New note".to_owned()
    } else if text::same(k, "new-agent-config") {
        "New agent config".to_owned()
    } else if text::same(k, "agent-config") {
        match id {
            Some(i) => name_title("Agent config", i, &None),
            None => "Viewer".to_owned(),
        }
    } else {
        "Viewer".to_owned()
    }
}

/// The two names of the config form differ.
proof fn lemma_kinds_apart()
    ensures
        "agent-config"@ != "new-agent-config"@,
{
    reveal_strlit("agent-config");
    reveal_strlit("new-agent-config");
    assert("agent-config"@[0] == 'a' && "new-agent-config"@[0] == 'n');
}

/// `label` with `<kind>: ` before it, unless it begins with the kind's word in
/// whatever case.
pub open spec fn prefixed_title(kind: Seq<char>, label: Seq<char>) -> Seq<char> {
    let l = text::trimmed(label);
    if l.len() == 0 {
        kind
    } else if text::lowercase(l) == text::lowercase(kind) || text::begins(
        text::lowercase(l),
        text::lowercase(kind) + " "@,
    ) {
        l
    } else {
        kind + ": "@ + l
    }
}

/// [`prefixed_title`], given the lowercase forms of the trimmed label and of
/// the kind.
pub fn prefix_title(kind: &str, label: &str, lower_kind: &str, lower_label: &str) -> (r: String)
    ensures
        r@ == (if text::trimmed(label@).len() == 0 {
            kind@
        } else if lower_label@ == lower_kind@ || text::begins(lower_label@, lower_kind@ + " "@) {
            text::trimmed(label@)
        } else {
            kind@ + ": "@ + text::trimmed(label@)
        }),
{
    let l = text::trim(label);
    if l.is_empty() {
        return kind.to_owned();
    }
    let mut word = lower_kind.to_owned();
    word.append(" ");
    if text::same(lower_label, lower_kind) || text::starts_with(lower_label, word.as_str()) {
        l.to_owned()
    } else {
        let mut out = kind.to_owned();
        out.append(": ");
        out.append(l);
        out
    }
}

/// The title of a pane of the given kind whose label may name the kind.
pub fn kind_prefixed_title(kind: &str, label: &str) -> (r: String)
    ensures
        r@ == prefixed_title(kind@, label@),
{
    let lower_label = text::to_lowercase(text::trim(label));
    let lower_kind = text::to_lowercase(kind);
    prefix_title(kind, label, lower_kind.as_str(), lower_label.as_str())
}

/// A label without the instance id that a `#`, a `-` or a space sets off at
/// its end, or that is the whole of it.
pub open spec fn without_id(label: Seq<char>, id: u64) -> Seq<char> {
    let l = text::trimmed(label);
    match text::before_suffix(l, text::decimal(id as nat)) {
        Some(prefix) => {
            let bare = text::trim_right_of(prefix, "#- "@);
            if bare.len() < prefix.len() || prefix.len() == 0 {
                bare
            } else {
                l
            }
        },
        None => l,
    }
}

/// Trimming characters off the end leaves a prefix.
proof fn lemma_trim_right_of_len(s: Seq<char>, set: Seq<char>)
    ensures
        text::trim_right_of(s, set).len() <= s.len(),
    decreases s.len(),
{
    if s.len() > 0 && set.contains(s.last()) {
        lemma_trim_right_of_len(s.drop_last(), set);
    }
}

/// A process label without the id that the daemon appended to it. Digits that
/// merely end a name stay.
pub fn strip_trailing_id(label: &str, id: u64) -> (r: String)
    ensures
        r@ == without_id(label@, id),
{
    let l = text::trim(label);
    let digits = text::number(id);
    match text::strip_suffix(l, digits.as_str()) {
        Some(prefix) => {
            let bare = text::trim_end_of(prefix, "#- ");
            let n: usize = prefix.unicode_len();
            proof {
                lemma_trim_right_of_len(prefix@, "#- "@);
            }
            if bare.unicode_len() < n || n == 0 {
                bare.to_owned()
            } else {
                l.to_owned()
            }
        },
        None => l.to_owned(),
    }
}

/// The title of a process pane.
pub open spec fn process_title(kind: Seq<char>, id: u64, name: Seq<char>) -> Seq<char> {
    let bare = without_id(name, id);
    named_title(
        kind,
        id,
        if bare.len() == 0 {
            None
        } else {
            Some(bare)
        },
    )
}

/// The title of a process pane: `<Kind> #<id> - <name>`, with the id once.
pub fn process_pane_title_for(kind: &str, id: u64, name: &str) -> (r: String)
    ensures
        r@ == process_title(kind@, id, name@),
{
    let bare = strip_trailing_id(name, id);
    if bare.as_str().is_empty() {
        name_title(kind, id, &None)
    } else {
        name_title(kind, id, &Some(bare))
    }
}

} // verus!
