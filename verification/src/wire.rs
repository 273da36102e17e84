//! The small files that the sidebar's panes share: the view state, the agent
//! labels and the routing of viewers. One side writes them, the other reads.

use vstd::prelude::*;
use vstd::string::*;

use crate::modes::{TodoFilter, TodoSort};
use crate::text;

verus! {

// ---------------------------------------------------------------------------
// View state
// ---------------------------------------------------------------------------

/// What every instance of a mode's pane shows alike: a snapshot that the last
/// writer wins, told by `seq`.
pub struct ViewState {
    pub cursor: usize,
    pub scroll: usize,
    pub filter: TodoFilter,
    pub sort_1: TodoSort,
    pub sort_2: TodoSort,
    pub show_help: bool,
    pub seq: u64,
}

/// How many of the leading characters are digits.
pub open spec fn digit_run(s: Seq<char>) -> int
    decreases s.len(),
{
    if s.len() > 0 && text::is_digit(s[0]) {
        1 + digit_run(s.drop_first())
    } else {
        0
    }
}

/// A digit run lies within the text.
proof fn lemma_digit_run(s: Seq<char>)
    ensures
        0 <= digit_run(s) <= s.len(),
        forall|i: int| 0 <= i < digit_run(s) ==> text::is_digit(#[trigger] s[i]),
        digit_run(s) < s.len() ==> !text::is_digit(s[digit_run(s)]),
    decreases s.len(),
{
    if s.len() > 0 && text::is_digit(s[0]) {
        lemma_digit_run(s.drop_first());
        assert forall|i: int| 0 <= i < digit_run(s) implies text::is_digit(#[trigger] s[i]) by {
            if i > 0 {
                assert(s.drop_first()[i - 1] == s[i]);
            }
        }
        if digit_run(s) < s.len() {
            assert(s.drop_first()[digit_run(s) - 1] == s[digit_run(s)]);
        }
    }
}

/// What stands before the value of a field: `"<key>":`.
pub open spec fn field_mark(key: Seq<char>) -> Seq<char> {
    "\""@ + key + "\":"@
}

/// The number after the first `"<key>":`.
pub open spec fn field_value(body: Seq<char>, key: Seq<char>) -> Option<u64> {
    match text::cut(body, field_mark(key)) {
        Some((_, rest)) => text::u64_of(rest.take(digit_run(rest))),
        None => None,
    }
}

/// The number of the field `key` in a flat object.
pub fn view_field(body: &str, key: &str) -> (r: Option<u64>)
    ensures
        r == field_value(body@, key@),
{
    let mut mark = "\"".to_owned();
    mark.append(key);
    mark.append("\":");
    match text::split_once(body, mark.as_str()) {
        None => None,
        Some((_, rest)) => {
            let cs = text::chars_of(rest);
            let mut n: usize = 0;
            assert(rest@.skip(0) =~= rest@);
            while n < cs.len() && cs[n] >= '0' && cs[n] <= '9'
                invariant
                    cs@ == rest@,
                    n <= cs.len(),
                    digit_run(rest@) == n + digit_run(rest@.skip(n as int)),
                decreases cs.len() - n,
            {
                assert(rest@.skip(n as int).drop_first() =~= rest@.skip(n + 1));
                n += 1;
            }
            assert(digit_run(rest@) == n) by {
                if n < cs.len() {
                    assert(rest@.skip(n as int)[0] == cs@[n as int]);
                }
            }
            assert(rest@.subrange(0, n as int) =~= rest@.take(n as int));
            text::parse_u64(text::slice(rest, 0, n))
        },
    }
}

/// One field of a flat object: `"<key>":<number>`.
pub open spec fn field_text(key: Seq<char>, value: nat) -> Seq<char> {
    field_mark(key) + text::decimal(value)
}

/// The fields of a flat object, with commas between them.
pub open spec fn fields_text(fields: Seq<(Seq<char>, nat)>) -> Seq<char> {
    text::joined(fields.map_values(|f: (Seq<char>, nat)| field_text(f.0, f.1)), ","@)
}

/// A flat object of numbers.
pub open spec fn flat_text(fields: Seq<(Seq<char>, nat)>) -> Seq<char> {
    "{"@ + fields_text(fields) + "}"@
}

/// The fields that a view state is published as.
pub open spec fn view_fields(v: ViewState) -> Seq<(Seq<char>, nat)> {
    seq![
        ("cursor"@, v.cursor as nat),
        ("scroll"@, v.scroll as nat),
        ("filter"@, v.filter.code() as nat),
        ("sort1"@, v.sort_1.code() as nat),
        ("sort2"@, v.sort_2.code() as nat),
        ("help"@, if v.show_help { 1 } else { 0 }),
        ("seq"@, v.seq as nat),
    ]
}

/// The file of a view state.
pub open spec fn view_text(v: ViewState) -> Seq<char> {
    flat_text(view_fields(v))
}

/// One field of a flat object.
fn render_field(key: &str, value: u64) -> (r: String)
    ensures
        r@ == field_text(key@, value as nat),
{
    let mut out = "\"".to_owned();
    out.append(key);
    out.append("\":");
    out.append(text::number(value).as_str());
    out
}

/// The file that publishes a view state.
pub fn render_view_state(v: &ViewState) -> (r: String)
    ensures
        r@ == view_text(*v),
{
    let help: u64 = if v.show_help {
        1
    } else {
        0
    };
    let mut fields: Vec<String> = Vec::new();
    fields.push(render_field("cursor", v.cursor as u64));
    fields.push(render_field("scroll", v.scroll as u64));
    fields.push(render_field("filter", v.filter.to_wire() as u64));
    fields.push(render_field("sort1", v.sort_1.to_wire() as u64));
    fields.push(render_field("sort2", v.sort_2.to_wire() as u64));
    fields.push(render_field("help", help));
    fields.push(render_field("seq", v.seq));
    proof {
        let goal = view_fields(*v).map_values(|f: (Seq<char>, nat)| field_text(f.0, f.1));
        assert(text::texts(fields@) =~= goal);
    }
    let mut out = "{".to_owned();
    out.append(text::join_texts(&fields, ",").as_str());
    out.append("}");
    out
}

/// A filter code as the reader takes it: the default where no filter has that
/// code.
pub open spec fn filter_field(v: Option<u64>) -> int {
    match v {
        Some(c) => if c < 8 {
            c as int
        } else {
            2
        },
        None => 2,
    }
}

/// A sort code as the reader takes it: `otherwise` where no axis has that
/// code.
pub open spec fn sort_field(v: Option<u64>, otherwise: int) -> int {
    match v {
        Some(c) => if c < 5 {
            c as int
        } else {
            otherwise
        },
        None => otherwise,
    }
}

/// A position as the reader takes it: as many of its low bits as the machine
/// counts with.
pub open spec fn place_field(v: Option<u64>) -> int {
    match v {
        Some(c) => c as int % (usize::MAX + 1),
        None => 0,
    }
}

/// A number as a code; the largest code, which names nothing, stands for what
/// is too large for one.
fn as_code(c: u64) -> (b: u8)
    ensures
        b == if c < 255 {
            c
        } else {
            255
        },
{
    if c < 255 {
        c as u8
    } else {
        255
    }
}

/// Whether a snapshot is the one in a file.
pub open spec fn view_in(body: Seq<char>, v: ViewState) -> bool {
    &&& field_value(body, "seq"@) == Some(v.seq)
    &&& v.cursor == place_field(field_value(body, "cursor"@))
    &&& v.scroll == place_field(field_value(body, "scroll"@))
    &&& v.filter.code() == filter_field(field_value(body, "filter"@))
    &&& v.sort_1.code() == sort_field(field_value(body, "sort1"@), 0)
    &&& v.sort_2.code() == sort_field(field_value(body, "sort2"@), 1)
    &&& v.show_help == (field_value(body, "help"@) matches Some(h) && h != 0)
}

/// The view state that a file publishes, unless it has no `seq`. Codes that
/// this version does not know fall back to the defaults.
pub fn parse_view_state(body: &str) -> (r: Option<ViewState>)
    ensures
        match r {
            Some(v) => view_in(body@, v),
            None => field_value(body@, "seq"@) is None,
        },
{
    let seq: u64 = match view_field(body, "seq") {
        Some(seq) => seq,
        None => {
            return None;
        },
    };
    let filter = match view_field(body, "filter") {
        Some(c) => match TodoFilter::from_wire(as_code(c)) {
            Some(f) => f,
            None => TodoFilter::Active,
        },
        None => TodoFilter::Active,
    };
    let sort_1 = match view_field(body, "sort1") {
        Some(c) => match TodoSort::from_wire(as_code(c)) {
            Some(s) => s,
            None => TodoSort::PriorityDesc,
        },
        None => TodoSort::PriorityDesc,
    };
    let sort_2 = match view_field(body, "sort2") {
        Some(c) => match TodoSort::from_wire(as_code(c)) {
            Some(s) => s,
            None => TodoSort::CreatedAsc,
        },
        None => TodoSort::CreatedAsc,
    };
    let show_help = match view_field(body, "help") {
        Some(h) => h != 0,
        None => false,
    };
    Some(
        ViewState {
            cursor: place(view_field(body, "cursor")),
            scroll: place(view_field(body, "scroll")),
            filter,
            sort_1,
            sort_2,
            show_help,
            seq,
        },
    )
}

/// A position from a field.
fn place(v: Option<u64>) -> (r: usize)
    ensures
        r == place_field(v),
{
    match v {
        Some(c) => if c <= usize::MAX as u64 {
            proof {
                vstd::arithmetic::div_mod::lemma_small_mod(c as nat, (usize::MAX + 1) as nat);
            }
            c as usize
        } else {
            (c % (usize::MAX as u64 + 1)) as usize
        },
        None => 0,
    }
}

// ---------------------------------------------------------------------------
// Agent labels
// ---------------------------------------------------------------------------

/// The pieces of `s` at the separators that stand outside of quotes: `cur` is
/// what the current piece holds so far, `quoted` whether a string is open, and
/// `escaped` whether a backslash in it comes just before.
pub open spec fn top_pieces(
    s: Seq<char>,
    sep: char,
    cur: Seq<char>,
    quoted: bool,
    escaped: bool,
) -> Seq<Seq<char>>
    decreases s.len(),
{
    if s.len() == 0 {
        seq![cur]
    } else {
        let c = s[0];
        let rest = s.drop_first();
        if escaped {
            top_pieces(rest, sep, cur.push(c), quoted, false)
        } else if c == '\\' && quoted {
            top_pieces(rest, sep, cur.push(c), quoted, true)
        } else if c == '"' {
            top_pieces(rest, sep, cur.push(c), !quoted, false)
        } else if c == sep && !quoted {
            seq![cur] + top_pieces(rest, sep, seq![], quoted, false)
        } else {
            top_pieces(rest, sep, cur.push(c), quoted, false)
        }
    }
}

/// `body` split at the separators that stand outside of quoted strings.
pub fn split_top_level(body: &str, sep: char) -> (out: Vec<String>)
    ensures
        text::texts(out@) == top_pieces(body@, sep, seq![], false, false),
{
    let cs = text::chars_of(body);
    let mut out: Vec<String> = Vec::new();
    let mut current = String::new();
    let mut in_string = false;
    let mut escape = false;
    let mut i: usize = 0;
    let ghost goal = top_pieces(body@, sep, seq![], false, false);
    assert(body@.skip(0) =~= body@);
    assert(text::texts(out@) + goal =~= goal);
    while i < cs.len()
        invariant
            cs@ == body@,
            i <= cs.len(),
            goal == text::texts(out@) + top_pieces(
                body@.skip(i as int),
                sep,
                current@,
                in_string,
                escape,
            ),
        decreases cs.len() - i,
    {
        let c = cs[i];
        assert(body@.skip(i as int)[0] == c);
        assert(body@.skip(i as int).drop_first() =~= body@.skip(i + 1));
        i += 1;
        if escape {
            current.push(c);
            escape = false;
        } else if c == '\\' && in_string {
            current.push(c);
            escape = true;
        } else if c == '"' {
            in_string = !in_string;
            current.push(c);
        } else if c == sep && !in_string {
            let ghost before = out@;
            let done = current;
            out.push(done);
            current = String::new();
            proof {
                assert(text::texts(out@) =~= text::texts(before).push(done@));
                assert(text::texts(before) + (seq![done@] + top_pieces(
                    body@.skip(i as int),
                    sep,
                    seq![],
                    in_string,
                    false,
                )) =~= text::texts(out@) + top_pieces(
                    body@.skip(i as int),
                    sep,
                    seq![],
                    in_string,
                    false,
                ));
            }
        } else {
            current.push(c);
        }
    }
    let ghost before = out@;
    let ghost last = current@;
    out.push(current);
    assert(text::texts(out@) =~= text::texts(before) + seq![last]);
    out
}

/// A label as the file writes it: backslashes and quotes behind a backslash.
pub open spec fn escaped_label(label: Seq<char>) -> Seq<char> {
    text::replaced(text::replaced(label, "\\"@, "\\\\"@), "\""@, "\\\""@)
}

/// A label as the file's text denotes it.
pub open spec fn unescaped_label(s: Seq<char>) -> Seq<char> {
    text::replaced(text::replaced(s, "\\\""@, "\""@), "\\\\"@, "\\"@)
}

/// The key and the value of an entry, at its first colon.
pub open spec fn entry_parts(entry: Seq<char>) -> Option<(Seq<char>, Seq<char>)> {
    match text::cut(text::trimmed(entry), ":"@) {
        Some((key, value)) => Some((text::trimmed(key), text::trimmed(value))),
        None => None,
    }
}

/// The pane and the label that one entry names: `"<pane>":"<label>"`.
pub open spec fn label_entry(entry: Seq<char>) -> Option<(u32, Seq<char>)> {
    match entry_parts(entry) {
        None => None,
        Some((key, value)) => match (text::between(key, '"', '"'), text::between(value, '"', '"')) {
            (Some(k), Some(v)) => match text::u32_of(k) {
                Some(tid) => Some((tid, unescaped_label(v))),
                None => None,
            },
            _ => None,
        },
    }
}

/// What the entries name, in order; nothing where one of them cannot be read.
pub open spec fn label_entries(entries: Seq<Seq<char>>) -> Seq<(u32, Seq<char>)> {
    if forall|i: int| 0 <= i < entries.len() ==> label_entry(#[trigger] entries[i]) is Some {
        entries.map_values(|e: Seq<char>| label_entry(e)->Some_0)
    } else {
        seq![]
    }
}

/// The labels that a file names; a file that is no object names none.
pub open spec fn labels_in(body: Seq<char>) -> Seq<(u32, Seq<char>)> {
    match text::between(text::trimmed(body), '{', '}') {
        None => seq![],
        Some(inner) => if text::trimmed(inner).len() == 0 {
            seq![]
        } else {
            label_entries(top_pieces(inner, ',', seq![], false, false))
        },
    }
}

/// The views of panes with labels.
pub open spec fn label_views(v: Seq<(u32, String)>) -> Seq<(u32, Seq<char>)> {
    v.map_values(|e: (u32, String)| (e.0, e.1@))
}

/// The key and the value of an entry.
fn parts_of<'a>(entry: &'a str) -> (r: Option<(&'a str, &'a str)>)
    ensures
        text::opt_pair(r) == entry_parts(entry@),
{
    match text::split_once(text::trim(entry), ":") {
        Some((key, value)) => Some((text::trim(key), text::trim(value))),
        None => None,
    }
}

/// The pane and the label of one entry.
fn parse_label_entry(entry: &str) -> (r: Option<(u32, String)>)
    ensures
        match r {
            Some((tid, label)) => label_entry(entry@) == Some((tid, label@)),
            None => label_entry(entry@) is None,
        },
{
    proof {
        reveal_strlit("\\\"");
        reveal_strlit("\\\\");
    }
    match parts_of(entry) {
        None => None,
        Some((key, value)) => match (
            text::unwrap_in(key, '"', '"'),
            text::unwrap_in(value, '"', '"'),
        ) {
            (Some(k), Some(v)) => match text::parse_u32(k) {
                Some(tid) => {
                    let quotes = text::replace(v, "\\\"", "\"");
                    Some((tid, text::replace(quotes.as_str(), "\\\\", "\\")))
                },
                None => None,
            },
            _ => None,
        },
    }
}

/// The labels of agent panes that a file names. Tolerant of a file that is
/// empty or malformed: it names none.
pub fn parse_agent_labels(body: &str) -> (out: Vec<(u32, String)>)
    ensures
        label_views(out@) == labels_in(body@),
{
    let mut out: Vec<(u32, String)> = Vec::new();
    assert(label_views(out@) =~= seq![]);
    let inner = match text::unwrap_in(text::trim(body), '{', '}') {
        None => {
            return out;
        },
        Some(inner) => inner,
    };
    if text::trim(inner).is_empty() {
        return out;
    }
    let entries = split_top_level(inner, ',');
    let ghost all = text::texts(entries@);
    let mut i: usize = 0;
    while i < entries.len()
        invariant
            i <= entries.len(),
            all == text::texts(entries@),
            all == top_pieces(inner@, ',', seq![], false, false),
            text::between(text::trimmed(body@), '{', '}') == Some(inner@),
            text::trimmed(inner@).len() > 0,
            label_views(out@) == all.take(i as int).map_values(
                |e: Seq<char>| label_entry(e)->Some_0,
            ),
            forall|j: int| 0 <= j < i ==> label_entry(#[trigger] all[j]) is Some,
        decreases entries.len() - i,
    {
        let ghost before = out@;
        assert(all[i as int] == entries@[i as int]@);
        match parse_label_entry(entries[i].as_str()) {
            Some(e) => {
                out.push(e);
                proof {
                    assert(label_views(out@) =~= label_views(before).push((e.0, e.1@)));
                    assert(label_views(out@) =~= all.take(i + 1).map_values(
                        |e: Seq<char>| label_entry(e)->Some_0,
                    ));
                }
            },
            None => {
                let none: Vec<(u32, String)> = Vec::new();
                assert(label_views(none@) =~= seq![]);
                return none;
            },
        }
        i += 1;
    }
    assert(all.take(i as int) =~= all);
    out
}

/// One entry of the label file.
pub open spec fn entry_text(e: (u32, Seq<char>)) -> Seq<char> {
    "\""@ + text::decimal(e.0 as nat) + "\":\""@ + escaped_label(e.1) + "\""@
}

/// The entries of the label file, with commas between them.
pub open spec fn entries_text(labels: Seq<(u32, Seq<char>)>) -> Seq<char> {
    text::joined(labels.map_values(|e: (u32, Seq<char>)| entry_text(e)), ","@)
}

/// The label file.
pub open spec fn labels_text(labels: Seq<(u32, Seq<char>)>) -> Seq<char> {
    "{"@ + entries_text(labels) + "}"@
}

/// One entry of the label file.
fn render_entry(tid: u32, label: &str) -> (r: String)
    ensures
        r@ == entry_text((tid, label@)),
{
    proof {
        reveal_strlit("\\");
        reveal_strlit("\"");
    }
    let slashes = text::replace(label, "\\", "\\\\");
    let safe = text::replace(slashes.as_str(), "\"", "\\\"");
    let mut entry = "\"".to_owned();
    entry.append(text::number(tid as u64).as_str());
    entry.append("\":\"");
    entry.append(safe.as_str());
    entry.append("\"");
    entry
}

/// The file that publishes the labels of agent panes.
pub fn render_agent_labels(labels: &Vec<(u32, String)>) -> (r: String)
    ensures
        r@ == labels_text(label_views(labels@)),
{
    let ghost goal = label_views(labels@).map_values(|e: (u32, Seq<char>)| entry_text(e));
    let mut entries: Vec<String> = Vec::new();
    let mut i: usize = 0;
    while i < labels.len()
        invariant
            i <= labels.len(),
            goal == label_views(labels@).map_values(|e: (u32, Seq<char>)| entry_text(e)),
            text::texts(entries@) == goal.take(i as int),
        decreases labels.len() - i,
    {
        let ghost before = entries@;
        let entry = render_entry(labels[i].0, labels[i].1.as_str());
        entries.push(entry);
        proof {
            assert(text::texts(entries@) =~= text::texts(before).push(entry@));
            assert(goal.take(i + 1) =~= goal.take(i as int).push(goal[i as int]));
        }
        i += 1;
    }
    assert(goal.take(i as int) =~= goal);
    let mut out = "{".to_owned();
    out.append(text::join_texts(&entries, ",").as_str());
    out.append("}");
    out
}

// ---------------------------------------------------------------------------
// Viewer routing
// ---------------------------------------------------------------------------

/// What the entries of a routing file say, the last one of a key winning.
pub open spec fn routing(entries: Seq<Seq<char>>) -> (Option<Seq<char>>, Option<u64>)
    decreases entries.len(),
{
    if entries.len() == 0 {
        (None, None)
    } else {
        let before = routing(entries.drop_last());
        match entry_parts(entries.last()) {
            None => before,
            Some((key, value)) => match text::between(key, '"', '"') {
                None => before,
                Some(k) => if k == "kind"@ {
                    (text::between(value, '"', '"'), before.1)
                } else if k == "id"@ {
                    (before.0, text::u64_of(value))
                } else {
                    before
                },
            },
        }
    }
}

/// What a routing file says: the kind of document and its id.
pub open spec fn routing_in(body: Seq<char>) -> (Option<Seq<char>>, Option<u64>) {
    match text::between(text::trimmed(body), '{', '}') {
        None => (None, None),
        Some(inner) => routing(text::pieces(inner, ","@)),
    }
}

/// The kind of document and the id that a routing file names.
pub fn parse_viewer_routing(body: &str) -> (r: (Option<String>, Option<u64>))
    ensures
        (text::opt_text(r.0), r.1) == routing_in(body@),
{
    let inner = match text::unwrap_in(text::trim(body), '{', '}') {
        None => {
            return (None, None);
        },
        Some(inner) => inner,
    };
    proof {
        reveal_strlit(",");
        reveal_strlit("kind");
        reveal_strlit("id");
        assert("kind"@[0] == 'k' && "id"@[0] == 'i');
    }
    let entries = text::split(inner, ",");
    let ghost all = text::views(entries@);
    let mut kind: Option<String> = None;
    let mut id: Option<u64> = None;
    let mut i: usize = 0;
    assert(all.take(0) =~= seq![]);
    while i < entries.len()
        invariant
            i <= entries.len(),
            all == text::views(entries@),
            (text::opt_text(kind), id) == routing(all.take(i as int)),
        decreases entries.len() - i,
    {
        proof {
            assert(all.take(i + 1).drop_last() =~= all.take(i as int));
            assert(all.take(i + 1).last() == entries@[i as int]@);
        }
        if let Some((key, value)) = parts_of(entries[i]) {
            if let Some(k) = text::unwrap_in(key, '"', '"') {
                if text::same(k, "kind") {
                    kind = match text::unwrap_in(value, '"', '"') {
                        Some(v) => Some(v.to_owned()),
                        None => None,
                    };
                } else if text::same(k, "id") {
                    id = text::parse_u64(value);
                }
            }
        }
        i += 1;
    }
    assert(all.take(i as int) =~= all);
    (kind, id)
}

/// A routing file.
pub open spec fn routing_text(kind: Seq<char>, id: Option<u64>) -> Seq<char> {
    match id {
        Some(i) => "{\"kind\":\""@ + kind + "\",\"id\":"@ + text::decimal(i as nat) + "}"@,
        None => "{\"kind\":\""@ + kind + "\"}"@,
    }
}

/// The file that points a viewer at a document.
pub fn render_routing(kind: &str, id: Option<u64>) -> (r: String)
    ensures
        r@ == routing_text(kind@, id),
{
    let mut out = "{\"kind\":\"".to_owned();
    out.append(kind);
    match id {
        Some(i) => {
            out.append("\",\"id\":");
            out.append(text::number(i).as_str());
            out.append("}");
        },
        None => {
            out.append("\"}");
        },
    }
    out
}

} // verus!
