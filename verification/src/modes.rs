//! The sidebar's modes, and how its Todos pane filters and sorts.

use std::cmp::Ordering;

use vstd::prelude::*;
use vstd::string::*;

use crate::sorting;
use crate::sorting::Order;
use crate::text;

verus! {

/// Which kind of resource one sidebar pane shows. Five panes run side by
/// side, one per mode.
#[derive(Clone, Copy, PartialEq, Eq, Debug, Structural)]
pub enum Mode {
    Todos,
    Agents,
    Terminals,
    Commands,
    Notes,
}

impl Default for Mode {
    /// The Todos pane.
    fn default() -> (m: Mode)
        ensures
            m == Mode::Todos,
    {
        Mode::Todos
    }
}

impl Mode {
    /// The name of a mode in configuration and in pipe payloads.
    pub open spec fn slug_text(self) -> Seq<char> {
        match self {
            Mode::Todos => "todos"@,
            Mode::Agents => "agents"@,
            Mode::Terminals => "terminals"@,
            Mode::Commands => "commands"@,
            Mode::Notes => "notes"@,
        }
    }

    /// The name of a mode in a pane's title.
    pub open spec fn label_text(self) -> Seq<char> {
        match self {
            Mode::Todos => "Todos"@,
            Mode::Agents => "Agents"@,
            Mode::Terminals => "Terminals"@,
            Mode::Commands => "Commands"@,
            Mode::Notes => "Notes"@,
        }
    }

    /// The letter that marks what a mode's pane writes and spawns.
    pub open spec fn letter_char(self) -> char {
        match self {
            Mode::Todos => 't',
            Mode::Agents => 'a',
            Mode::Terminals => 'r',
            Mode::Commands => 'c',
            Mode::Notes => 'n',
        }
    }

    /// The digit whose Alt key focuses a mode's pane.
    pub open spec fn hotkey(self) -> char {
        match self {
            Mode::Todos => '1',
            Mode::Agents => '2',
            Mode::Terminals => '3',
            Mode::Commands => '4',
            Mode::Notes => '5',
        }
    }

    /// How the hotkey is written in a pane's title.
    pub open spec fn hint_text(self) -> Seq<char> {
        "alt+"@.push(self.hotkey())
    }

    /// No two modes share a slug.
    pub proof fn law_slugs_distinct(a: Mode, b: Mode)
        ensures
            a.slug_text() == b.slug_text() ==> a == b,
    {
        reveal_strlit("todos");
        reveal_strlit("agents");
        reveal_strlit("terminals");
        reveal_strlit("commands");
        reveal_strlit("notes");
        assert("todos"@[0] == 't' && "todos"@[1] == 'o');
        assert("agents"@[0] == 'a');
        assert("terminals"@[0] == 't' && "terminals"@[1] == 'e');
        assert("commands"@[0] == 'c');
        assert("notes"@[0] == 'n');
    }

    /// No two modes share a letter, and none shares a hotkey.
    pub proof fn law_letters_distinct(a: Mode, b: Mode)
        ensures
            a.letter_char() == b.letter_char() ==> a == b,
            a.hotkey() == b.hotkey() ==> a == b,
    {
    }

    /// The mode that `s` names.
    pub fn parse(s: &str) -> (r: Option<Mode>)
        ensures
            match r {
                Some(m) => s@ == m.slug_text(),
                None => forall|m: Mode| s@ != #[trigger] m.slug_text(),
            },
    {
        if text::same(s, "todos") {
            Some(Mode::Todos)
        } else if text::same(s, "agents") {
            Some(Mode::Agents)
        } else if text::same(s, "terminals") {
            Some(Mode::Terminals)
        } else if text::same(s, "commands") {
            Some(Mode::Commands)
        } else if text::same(s, "notes") {
            Some(Mode::Notes)
        } else {
            None
        }
    }

    /// The name of the mode in a pane's title.
    pub fn label(self) -> (r: &'static str)
        ensures
            r@ == self.label_text(),
    {
        match self {
            Mode::Todos => "Todos",
            Mode::Agents => "Agents",
            Mode::Terminals => "Terminals",
            Mode::Commands => "Commands",
            Mode::Notes => "Notes",
        }
    }

    /// The letter that keeps the names of what the five panes spawn apart.
    pub fn letter(self) -> (r: char)
        ensures
            r == self.letter_char(),
    {
        match self {
            Mode::Todos => 't',
            Mode::Agents => 'a',
            Mode::Terminals => 'r',
            Mode::Commands => 'c',
            Mode::Notes => 'n',
        }
    }

    /// The name that [`Mode::parse`] reads.
    pub fn slug(self) -> (r: &'static str)
        ensures
            r@ == self.slug_text(),
    {
        match self {
            Mode::Todos => "todos",
            Mode::Agents => "agents",
            Mode::Terminals => "terminals",
            Mode::Commands => "commands",
            Mode::Notes => "notes",
        }
    }

    /// How the hotkey that focuses this pane is written.
    pub fn hotkey_hint(self) -> (r: &'static str)
        ensures
            r@ == self.hint_text(),
    {
        proof {
            reveal_strlit("alt+");
            reveal_strlit("alt+1");
            reveal_strlit("alt+2");
            reveal_strlit("alt+3");
            reveal_strlit("alt+4");
            reveal_strlit("alt+5");
            assert("alt+1"@ =~= "alt+"@.push('1'));
            assert("alt+2"@ =~= "alt+"@.push('2'));
            assert("alt+3"@ =~= "alt+"@.push('3'));
            assert("alt+4"@ =~= "alt+"@.push('4'));
            assert("alt+5"@ =~= "alt+"@.push('5'));
        }
        match self {
            Mode::Todos => "alt+1",
            Mode::Agents => "alt+2",
            Mode::Terminals => "alt+3",
            Mode::Commands => "alt+4",
            Mode::Notes => "alt+5",
        }
    }

    /// The mode whose pane the Alt key with the digit `c` focuses.
    pub fn from_hotkey(c: char) -> (r: Option<Mode>)
        ensures
            match r {
                Some(m) => c == m.hotkey(),
                None => forall|m: Mode| c != #[trigger] m.hotkey(),
            },
    {
        if c == '1' {
            Some(Mode::Todos)
        } else if c == '2' {
            Some(Mode::Agents)
        } else if c == '3' {
            Some(Mode::Terminals)
        } else if c == '4' {
            Some(Mode::Commands)
        } else if c == '5' {
            Some(Mode::Notes)
        } else {
            None
        }
    }
}

/// Which todos the Todos pane shows. `Active` is the working set: what is
/// open and what is in progress.
#[derive(Clone, Copy, PartialEq, Eq, Debug, Structural)]
pub enum TodoFilter {
    All,
    Open,
    Active,
    InProgress,
    Backlog,
    Draft,
    Completed,
    NotDone,
}

/// Every filter, in the order that cycling walks and the wire codes count.
pub const ALL_TODO_FILTERS: [TodoFilter; 8] = [
    TodoFilter::All,
    TodoFilter::Open,
    TodoFilter::Active,
    TodoFilter::InProgress,
    TodoFilter::Backlog,
    TodoFilter::Draft,
    TodoFilter::Completed,
    TodoFilter::NotDone,
];

impl Default for TodoFilter {
    /// The working set.
    fn default() -> (f: TodoFilter)
        ensures
            f == TodoFilter::Active,
    {
        TodoFilter::Active
    }
}

impl TodoFilter {
    /// The place of a filter in [`ALL_TODO_FILTERS`].
    pub open spec fn code(self) -> int {
        match self {
            TodoFilter::All => 0,
            TodoFilter::Open => 1,
            TodoFilter::Active => 2,
            TodoFilter::InProgress => 3,
            TodoFilter::Backlog => 4,
            TodoFilter::Draft => 5,
            TodoFilter::Completed => 6,
            TodoFilter::NotDone => 7,
        }
    }

    /// The name of a filter in a pane's title; for a filter of one status,
    /// that status as the projection writes it.
    pub open spec fn label_text(self) -> Seq<char> {
        match self {
            TodoFilter::All => "all"@,
            TodoFilter::Open => "open"@,
            TodoFilter::Active => "active"@,
            TodoFilter::InProgress => "in_progress"@,
            TodoFilter::Backlog => "backlog"@,
            TodoFilter::Draft => "draft"@,
            TodoFilter::Completed => "completed"@,
            TodoFilter::NotDone => "not_done"@,
        }
    }

    /// Whether a filter lets a status through.
    pub open spec fn admits(self, status: Seq<char>) -> bool {
        match self {
            TodoFilter::All => true,
            TodoFilter::Active => status == "open"@ || status == "in_progress"@,
            _ => status == self.label_text(),
        }
    }

    /// Whether a filter shows a row: a row without a known status is always
    /// shown.
    pub open spec fn shows(self, label: Seq<char>) -> bool {
        match status_of(label) {
            Some(status) => self.admits(status),
            None => true,
        }
    }

    /// Stepping forward and back again, or back and forward, changes nothing.
    pub proof fn lemma_cycle(a: TodoFilter, b: TodoFilter)
        requires
            b.code() == (a.code() + 1) % 8,
        ensures
            a.code() == (b.code() + 7) % 8,
    {
    }

    /// The code of a filter names it.
    pub proof fn lemma_code_distinct(a: TodoFilter, b: TodoFilter)
        ensures
            0 <= a.code() < 8,
            a.code() == b.code() ==> a == b,
    {
    }

    /// The name of the filter.
    pub fn label(self) -> (r: &'static str)
        ensures
            r@ == self.label_text(),
    {
        match self {
            TodoFilter::All => "all",
            TodoFilter::Open => "open",
            TodoFilter::Active => "active",
            TodoFilter::InProgress => "in_progress",
            TodoFilter::Backlog => "backlog",
            TodoFilter::Draft => "draft",
            TodoFilter::Completed => "completed",
            TodoFilter::NotDone => "not_done",
        }
    }

    /// The filter after this one, wrapping round.
    pub fn next(self) -> (r: TodoFilter)
        ensures
            r.code() == (self.code() + 1) % 8,
    {
        let i: usize = self.to_wire() as usize;
        ALL_TODO_FILTERS[(i + 1) % 8]
    }

    /// The filter before this one, wrapping round.
    pub fn prev(self) -> (r: TodoFilter)
        ensures
            r.code() == (self.code() + 7) % 8,
    {
        let i: usize = self.to_wire() as usize;
        ALL_TODO_FILTERS[(i + 7) % 8]
    }

    /// Whether the row of a projected index with this label is shown.
    pub fn includes_label(self, label: &str) -> (r: bool)
        ensures
            r == self.shows(label@),
    {
        match parse_status_suffix(label) {
            None => true,
            Some(status) => match self {
                TodoFilter::All => true,
                TodoFilter::Active => text::same(status, "open") || text::same(
                    status,
                    "in_progress",
                ),
                _ => text::same(status, self.label()),
            },
        }
    }

    /// The code of the filter in the shared view state.
    pub fn to_wire(self) -> (r: u8)
        ensures
            r == self.code(),
    {
        match self {
            TodoFilter::All => 0,
            TodoFilter::Open => 1,
            TodoFilter::Active => 2,
            TodoFilter::InProgress => 3,
            TodoFilter::Backlog => 4,
            TodoFilter::Draft => 5,
            TodoFilter::Completed => 6,
            TodoFilter::NotDone => 7,
        }
    }

    /// The filter with the given code.
    pub fn from_wire(code: u8) -> (r: Option<TodoFilter>)
        ensures
            match r {
                Some(f) => f.code() == code,
                None => code >= 8,
            },
    {
        let i: usize = code as usize;
        if i < 8 {
            Some(ALL_TODO_FILTERS[i])
        } else {
            None
        }
    }
}

/// Where the last ` - ` of a label ends, in characters; for a label with an
/// empty title, which begins with `- `, where that ends.
pub open spec fn suffix_at(label: Seq<char>) -> Option<int> {
    match text::rfind_seq(label, " - "@) {
        Some(p) => Some(p + 3),
        None => if text::begins(label, "- "@) {
            Some(2)
        } else {
            None
        },
    }
}

/// The comma-separated fields of a label's suffix.
pub open spec fn suffix_fields(label: Seq<char>) -> Option<Seq<Seq<char>>> {
    match suffix_at(label) {
        Some(p) => Some(text::pieces(label.skip(p), ","@)),
        None => None,
    }
}

/// A status as the projection writes it.
pub open spec fn is_status_token(t: Seq<char>) -> bool {
    t == "open"@ || t == "in_progress"@ || t == "backlog"@ || t == "draft"@ || t == "completed"@
        || t == "not_done"@
}

/// A priority as the projection writes it.
pub open spec fn is_priority_token(t: Seq<char>) -> bool {
    t == "high"@ || t == "medium"@ || t == "low"@
}

/// The status in a label: the first field of its suffix, if that is a status.
pub open spec fn status_of(label: Seq<char>) -> Option<Seq<char>> {
    match suffix_fields(label) {
        Some(fields) => if is_status_token(text::trimmed(fields[0])) {
            Some(text::trimmed(fields[0]))
        } else {
            None
        },
        None => None,
    }
}

/// The priority in a label: the second field of its suffix, if that is a
/// priority.
pub open spec fn priority_of(label: Seq<char>) -> Option<Seq<char>> {
    match suffix_fields(label) {
        Some(fields) => if fields.len() > 1 && is_priority_token(text::trimmed(fields[1])) {
            Some(text::trimmed(fields[1]))
        } else {
            None
        },
        None => None,
    }
}

/// What follows `updated ` in the first field that starts with it.
pub open spec fn first_updated(fields: Seq<Seq<char>>) -> Option<Seq<char>>
    decreases fields.len(),
{
    if fields.len() == 0 {
        None
    } else {
        match text::after_prefix(text::trimmed(fields[0]), "updated "@) {
            Some(stamp) => Some(text::trimmed(stamp)),
            None => first_updated(fields.drop_first()),
        }
    }
}

/// The time of the last change in a label.
pub open spec fn updated_of(label: Seq<char>) -> Option<Seq<char>> {
    match suffix_fields(label) {
        Some(fields) => first_updated(fields),
        None => None,
    }
}

/// Every text has at least one piece.
proof fn lemma_pieces_nonempty(s: Seq<char>, pat: Seq<char>)
    ensures
        text::pieces(s, pat).len() > 0,
{
}

/// Where the suffix of `label` begins, in characters.
fn suffix_index(label: &str) -> (r: Option<usize>)
    ensures
        text::opt_index(r) == suffix_at(label@),
        r matches Some(p) ==> p <= label@.len(),
{
    proof {
        reveal_strlit(" - ");
        reveal_strlit("- ");
    }
    match text::rfind(label, " - ") {
        Some(p) => Some(p + 3),
        None => if text::starts_with(label, "- ") {
            Some(2)
        } else {
            None
        },
    }
}

/// Where the suffix of `label` begins: the offset in bytes of the first
/// character past ` - `, or past the `- ` of a label without a title.
pub fn suffix_start(label: &str) -> (r: Option<usize>)
    ensures
        match r {
            Some(k) => suffix_at(label@) is Some && k == vstd::utf8::encode_utf8(
                label@.take(suffix_at(label@)->0),
            ).len(),
            None => suffix_at(label@) is None,
        },
{
    match suffix_index(label) {
        Some(p) => {
            let head = text::slice(label, 0, p);
            assert(head@ =~= label@.take(p as int));
            Some(head.as_bytes().len())
        },
        None => None,
    }
}

/// The fields of the suffix of `label`.
fn fields_of<'a>(label: &'a str) -> (r: Option<Vec<&'a str>>)
    ensures
        match r {
            Some(v) => suffix_fields(label@) == Some(text::views(v@)) && v@.len() > 0,
            None => suffix_fields(label@) is None,
        },
{
    match suffix_index(label) {
        Some(p) => {
            let n: usize = label.unicode_len();
            let rest = text::slice(label, p, n);
            assert(rest@ =~= label@.skip(p as int));
            proof {
                reveal_strlit(",");
                lemma_pieces_nonempty(rest@, ","@);
            }
            let v = text::split(rest, ",");
            assert(text::views(v@).len() == v@.len());
            Some(v)
        },
        None => None,
    }
}

/// The status in the label of an index row.
pub fn parse_status_suffix<'a>(label: &'a str) -> (r: Option<&'a str>)
    ensures
        text::opt_str(r) == status_of(label@),
{
    match fields_of(label) {
        Some(fields) => {
            assert(text::views(fields@)[0] == fields@[0]@);
            let token = text::trim(fields[0]);
            if text::same(token, "open") || text::same(token, "in_progress") || text::same(
                token,
                "backlog",
            ) || text::same(token, "draft") || text::same(token, "completed") || text::same(
                token,
                "not_done",
            ) {
                Some(token)
            } else {
                None
            }
        },
        None => None,
    }
}

/// The priority in the label of an index row.
pub fn parse_priority_suffix<'a>(label: &'a str) -> (r: Option<&'a str>)
    ensures
        text::opt_str(r) == priority_of(label@),
{
    match fields_of(label) {
        Some(fields) => {
            if fields.len() < 2 {
                return None;
            }
            assert(text::views(fields@)[1] == fields@[1]@);
            let token = text::trim(fields[1]);
            if text::same(token, "high") || text::same(token, "medium") || text::same(token, "low") {
                Some(token)
            } else {
                None
            }
        },
        None => None,
    }
}

/// The time of the last change in the label of an index row.
pub fn parse_updated_suffix<'a>(label: &'a str) -> (r: Option<&'a str>)
    ensures
        text::opt_str(r) == updated_of(label@),
{
    match fields_of(label) {
        Some(fields) => {
            let ghost all = text::views(fields@);
            let mut i: usize = 0;
            assert(all.skip(0) =~= all);
            while i < fields.len()
                invariant
                    i <= fields.len(),
                    all == text::views(fields@),
                    updated_of(label@) == first_updated(all),
                    first_updated(all) == first_updated(all.skip(i as int)),
                decreases fields.len() - i,
            {
                assert(all.skip(i as int)[0] == fields@[i as int]@);
                match text::strip_prefix(text::trim(fields[i]), "updated ") {
                    Some(stamp) => {
                        return Some(text::trim(stamp));
                    },
                    None => {},
                }
                assert(all.skip(i as int).drop_first() =~= all.skip(i + 1));
                i += 1;
            }
            None
        },
        None => None,
    }
}

/// One axis of the two-level sort of the Todos pane. `Created` goes by id,
/// which is the order of creation.
#[derive(Clone, Copy, PartialEq, Eq, Debug, Structural)]
pub enum TodoSort {
    PriorityDesc,
    CreatedAsc,
    CreatedDesc,
    ModifiedAsc,
    ModifiedDesc,
}

/// Every axis, in the order that cycling walks and the wire codes count.
pub const ALL_TODO_SORTS: [TodoSort; 5] = [
    TodoSort::PriorityDesc,
    TodoSort::CreatedAsc,
    TodoSort::CreatedDesc,
    TodoSort::ModifiedAsc,
    TodoSort::ModifiedDesc,
];

impl Default for TodoSort {
    /// High priority first.
    fn default() -> (s: TodoSort)
        ensures
            s == TodoSort::PriorityDesc,
    {
        TodoSort::PriorityDesc
    }
}

/// How a number stands to another.
pub open spec fn number_order(a: u64, b: u64) -> Ordering {
    if a < b {
        Ordering::Less
    } else if a == b {
        Ordering::Equal
    } else {
        Ordering::Greater
    }
}

/// How a text stands to another in the order of character codes.
pub open spec fn text_order(a: Seq<char>, b: Seq<char>) -> Ordering {
    if text::precedes(a, b) {
        Ordering::Less
    } else if text::precedes(b, a) {
        Ordering::Greater
    } else {
        Ordering::Equal
    }
}

/// The rank of the priority in a label; nothing ranks lowest.
pub open spec fn priority_rank(label: Seq<char>) -> u64 {
    match priority_of(label) {
        Some(p) => if p == "high"@ {
            3
        } else if p == "medium"@ {
            2
        } else {
            1
        },
        None => 0,
    }
}

/// How two rows stand to each other by their last change, or by id where one
/// of them names none.
pub open spec fn modified_order(
    id_a: u64,
    label_a: Seq<char>,
    id_b: u64,
    label_b: Seq<char>,
) -> Ordering {
    match (updated_of(label_a), updated_of(label_b)) {
        (Some(ua), Some(ub)) => text_order(ua, ub),
        _ => number_order(id_a, id_b),
    }
}

impl TodoSort {
    /// The place of an axis in [`ALL_TODO_SORTS`].
    pub open spec fn code(self) -> int {
        match self {
            TodoSort::PriorityDesc => 0,
            TodoSort::CreatedAsc => 1,
            TodoSort::CreatedDesc => 2,
            TodoSort::ModifiedAsc => 3,
            TodoSort::ModifiedDesc => 4,
        }
    }

    /// The name of an axis; a slash means ascending, a backslash descending.
    pub open spec fn label_text(self) -> Seq<char> {
        match self {
            TodoSort::PriorityDesc => "priority"@,
            TodoSort::CreatedAsc => "created-/"@,
            TodoSort::CreatedDesc => "created-\\"@,
            TodoSort::ModifiedAsc => "modified-/"@,
            TodoSort::ModifiedDesc => "modified-\\"@,
        }
    }

    /// How two index rows, each an id and a label, stand to each other.
    pub open spec fn order_of(
        self,
        id_a: u64,
        label_a: Seq<char>,
        id_b: u64,
        label_b: Seq<char>,
    ) -> Ordering {
        match self {
            TodoSort::PriorityDesc => number_order(priority_rank(label_b), priority_rank(label_a)),
            TodoSort::CreatedAsc => number_order(id_a, id_b),
            TodoSort::CreatedDesc => number_order(id_b, id_a),
            TodoSort::ModifiedAsc => modified_order(id_a, label_a, id_b, label_b),
            TodoSort::ModifiedDesc => modified_order(id_b, label_b, id_a, label_a),
        }
    }

    /// Stepping forward and back again changes nothing.
    pub proof fn lemma_cycle(a: TodoSort, b: TodoSort)
        requires
            b.code() == (a.code() + 1) % 5,
        ensures
            a.code() == (b.code() + 4) % 5,
    {
    }

    /// The code of an axis names it.
    pub proof fn lemma_code_distinct(a: TodoSort, b: TodoSort)
        ensures
            0 <= a.code() < 5,
            a.code() == b.code() ==> a == b,
    {
    }

    /// The name of the axis.
    pub fn label(self) -> (r: &'static str)
        ensures
            r@ == self.label_text(),
    {
        match self {
            TodoSort::PriorityDesc => "priority",
            TodoSort::CreatedAsc => "created-/",
            TodoSort::CreatedDesc => "created-\\",
            TodoSort::ModifiedAsc => "modified-/",
            TodoSort::ModifiedDesc => "modified-\\",
        }
    }

    /// The axis after this one, wrapping round.
    pub fn next(self) -> (r: TodoSort)
        ensures
            r.code() == (self.code() + 1) % 5,
    {
        let i: usize = self.to_wire() as usize;
        ALL_TODO_SORTS[(i + 1) % 5]
    }

    /// The axis before this one, wrapping round.
    pub fn prev(self) -> (r: TodoSort)
        ensures
            r.code() == (self.code() + 4) % 5,
    {
        let i: usize = self.to_wire() as usize;
        ALL_TODO_SORTS[(i + 4) % 5]
    }

    /// The code of the axis in the shared view state.
    pub fn to_wire(self) -> (r: u8)
        ensures
            r == self.code(),
    {
        match self {
            TodoSort::PriorityDesc => 0,
            TodoSort::CreatedAsc => 1,
            TodoSort::CreatedDesc => 2,
            TodoSort::ModifiedAsc => 3,
            TodoSort::ModifiedDesc => 4,
        }
    }

    /// The axis with the given code.
    pub fn from_wire(code: u8) -> (r: Option<TodoSort>)
        ensures
            match r {
                Some(s) => s.code() == code,
                None => code >= 5,
            },
    {
        let i: usize = code as usize;
        if i < 5 {
            Some(ALL_TODO_SORTS[i])
        } else {
            None
        }
    }

    /// How two index rows, each an id and a label, stand to each other on
    /// this axis.
    pub fn cmp_rows(self, a: &(u64, String), b: &(u64, String)) -> (r: Ordering)
        ensures
            r == self.order_of(a.0, a.1@, b.0, b.1@),
    {
        match self {
            TodoSort::PriorityDesc => order_numbers(rank(b.1.as_str()), rank(a.1.as_str())),
            TodoSort::CreatedAsc => order_numbers(a.0, b.0),
            TodoSort::CreatedDesc => order_numbers(b.0, a.0),
            TodoSort::ModifiedAsc => order_modified(a, b),
            TodoSort::ModifiedDesc => order_modified(b, a),
        }
    }
}

impl Order<(u64, String)> for TodoSort {
    open spec fn after(&self, a: (u64, String), b: (u64, String)) -> bool {
        self.order_of(a.0, a.1@, b.0, b.1@) == Ordering::Greater
    }

    fn is_after(&self, a: &(u64, String), b: &(u64, String)) -> (r: bool) {
        match self.cmp_rows(a, b) {
            Ordering::Greater => true,
            _ => false,
        }
    }
}

/// Whether an axis goes by the last change.
pub open spec fn goes_by_change(axis: TodoSort) -> bool {
    axis == TodoSort::ModifiedAsc || axis == TodoSort::ModifiedDesc
}

/// Whether all rows name their last change, or none does.
pub open spec fn are_uniform(rows: Seq<(u64, String)>) -> bool {
    forall|i: int, j: int|
        0 <= i < rows.len() && 0 <= j < rows.len() ==> (updated_of((#[trigger] rows[i]).1@)
            is Some) == (updated_of((#[trigger] rows[j]).1@) is Some)
}

/// Rows can be sorted by any axis: by the last change where all of them name
/// theirs or none does, by the others always.
pub proof fn law_axis_sorts(axis: TodoSort, rows: Seq<(u64, String)>)
    requires
        goes_by_change(axis) ==> are_uniform(rows),
    ensures
        sorting::is_weak_order(&axis, rows),
{
    if goes_by_change(axis) {
        assert forall|a: (u64, String), b: (u64, String)|
            rows.contains(a) && rows.contains(b) && #[trigger] axis.after(a, b) implies !axis.after(
            b,
            a,
        ) by {
            lemma_modified(rows, a, b);
            lemma_text_order(updated_of(a.1@), updated_of(b.1@), updated_of(b.1@));
        }
        assert forall|a: (u64, String), b: (u64, String), c: (u64, String)|
            rows.contains(a) && rows.contains(b) && rows.contains(c) && !(#[trigger] axis.after(
                a,
                b,
            )) && !(#[trigger] axis.after(b, c)) implies !axis.after(a, c) by {
            lemma_modified(rows, a, b);
            lemma_modified(rows, b, c);
            lemma_text_order(updated_of(a.1@), updated_of(b.1@), updated_of(c.1@));
        }
    }
}

/// Two rows of a uniform run both name their last change, or neither does.
proof fn lemma_modified(rows: Seq<(u64, String)>, a: (u64, String), b: (u64, String))
    requires
        are_uniform(rows),
        rows.contains(a),
        rows.contains(b),
    ensures
        (updated_of(a.1@) is Some) == (updated_of(b.1@) is Some),
{
    let i = choose|i: int| 0 <= i < rows.len() && rows[i] == a;
    let j = choose|j: int| 0 <= j < rows.len() && rows[j] == b;
    assert(rows[i].1@ == a.1@ && rows[j].1@ == b.1@);
}

/// The order of texts is one that a sort can establish.
proof fn lemma_text_order(a: Option<Seq<char>>, b: Option<Seq<char>>, c: Option<Seq<char>>)
    ensures
        a is Some && b is Some && text_order(a->0, b->0) == Ordering::Greater ==> text_order(
            b->0,
            a->0,
        ) != Ordering::Greater,
        a is Some && b is Some && c is Some && text_order(a->0, b->0) != Ordering::Greater
            && text_order(b->0, c->0) != Ordering::Greater ==> text_order(a->0, c->0)
            != Ordering::Greater,
        a is Some && b is Some && c is Some && text_order(b->0, a->0) != Ordering::Greater
            && text_order(c->0, b->0) != Ordering::Greater ==> text_order(c->0, a->0)
            != Ordering::Greater,
{
    if a is Some && b is Some {
        text::lemma_precedes_total(a->0, b->0);
        if c is Some {
            text::lemma_precedes_total(b->0, c->0);
            text::lemma_precedes_total(a->0, c->0);
            if text::precedes(a->0, b->0) && text::precedes(b->0, c->0) {
                text::lemma_precedes_trans(a->0, b->0, c->0);
            }
            if text::precedes(c->0, b->0) && text::precedes(b->0, a->0) {
                text::lemma_precedes_trans(c->0, b->0, a->0);
            }
        }
    }
}

/// The rank of the priority in a label.
fn rank(label: &str) -> (r: u64)
    ensures
        r == priority_rank(label@),
{
    match parse_priority_suffix(label) {
        Some(p) => if text::same(p, "high") {
            3
        } else if text::same(p, "medium") {
            2
        } else {
            1
        },
        None => 0,
    }
}

/// How a number stands to another.
pub fn order_numbers(a: u64, b: u64) -> (r: Ordering)
    ensures
        r == number_order(a, b),
{
    if a < b {
        Ordering::Less
    } else if a == b {
        Ordering::Equal
    } else {
        Ordering::Greater
    }
}

/// How a text stands to another.
pub fn order_texts(a: &str, b: &str) -> (r: Ordering)
    ensures
        r == text_order(a@, b@),
{
    if text::before(a, b) {
        Ordering::Less
    } else if text::before(b, a) {
        Ordering::Greater
    } else {
        Ordering::Equal
    }
}

/// How two rows stand to each other by their last change.
fn order_modified(a: &(u64, String), b: &(u64, String)) -> (r: Ordering)
    ensures
        r == modified_order(a.0, a.1@, b.0, b.1@),
{
    match (parse_updated_suffix(a.1.as_str()), parse_updated_suffix(b.1.as_str())) {
        (Some(ua), Some(ub)) => order_texts(ua, ub),
        _ => order_numbers(a.0, b.0),
    }
}

} // verus!
