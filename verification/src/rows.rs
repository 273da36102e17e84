//! Reading the projected files: one line, one row.

use vstd::prelude::*;
use vstd::string::*;

use crate::text;

verus! {

/// One line of `processes.md`: a process instance.
#[derive(Debug, Default, Clone)]
pub struct ProcessRow {
    /// `agent`, `command` or `terminal`.
    pub kind: String,
    pub id: u64,
    pub label: String,
    /// Where the instance stands in its life: `starting`, `running`,
    /// `stopped`, ...
    pub status: Option<String>,
    /// The agent type, for an agent backed by a config.
    pub tool_type: Option<String>,
    /// The last classified activity of an agent.
    pub agent_state: Option<String>,
    /// The stable agent id, which binds a pane to this row.
    pub agent_id: Option<String>,
    /// The config that the instance was started from.
    pub agent_tool_id: Option<u64>,
    /// For how long an idle agent has been idle.
    pub idle: Option<String>,
}

/// The contents of a [`ProcessRow`].
pub struct ProcessRowView {
    pub kind: Seq<char>,
    pub id: u64,
    pub label: Seq<char>,
    pub status: Option<Seq<char>>,
    pub tool_type: Option<Seq<char>>,
    pub agent_state: Option<Seq<char>>,
    pub agent_id: Option<Seq<char>>,
    pub agent_tool_id: Option<u64>,
    pub idle: Option<Seq<char>>,
}

impl View for ProcessRow {
    type V = ProcessRowView;

    open spec fn view(&self) -> ProcessRowView {
        ProcessRowView {
            kind: self.kind@,
            id: self.id,
            label: self.label@,
            status: text::opt_text(self.status),
            tool_type: text::opt_text(self.tool_type),
            agent_state: text::opt_text(self.agent_state),
            agent_id: text::opt_text(self.agent_id),
            agent_tool_id: self.agent_tool_id,
            idle: text::opt_text(self.idle),
        }
    }
}

/// One line of `agent_tools.md`: an agent config.
#[derive(Debug)]
pub struct ConfigRow {
    pub id: u64,
    pub label: String,
    /// Whether the config is offered for starting.
    pub enabled: bool,
}

/// The contents of a [`ConfigRow`].
pub struct ConfigRowView {
    pub id: u64,
    pub label: Seq<char>,
    pub enabled: bool,
}

impl View for ConfigRow {
    type V = ConfigRowView;

    open spec fn view(&self) -> ConfigRowView {
        ConfigRowView { id: self.id, label: self.label@, enabled: self.enabled }
    }
}

// ---------------------------------------------------------------------------
// Index lines
// ---------------------------------------------------------------------------

/// What an index line names: `- [..[#<id>](<path>) <label>`.
pub open spec fn index_line(line: Seq<char>) -> Option<(u64, Seq<char>)> {
    let l = text::trimmed(line);
    if !text::begins(l, "- ["@) {
        None
    } else {
        match text::cut(l, "[#"@) {
            None => None,
            Some((_, r)) => match text::cut(r, "]"@) {
                None => None,
                Some((number, rest)) => match (
                    text::u64_of(number),
                    text::cut(rest, ") "@),
                ) {
                    (Some(id), Some((_, label))) => Some((id, text::trimmed(label))),
                    _ => None,
                },
            },
        }
    }
}

/// The id and the label of an index line; other lines give nothing.
pub fn parse_index_line(line: &str) -> (r: Option<(u64, String)>)
    ensures
        match r {
            Some((id, label)) => index_line(line@) == Some((id, label@)),
            None => index_line(line@) is None,
        },
{
    let l = text::trim(line);
    if !text::starts_with(l, "- [") {
        return None;
    }
    match text::split_once(l, "[#") {
        None => None,
        Some((_, r)) => match text::split_once(r, "]") {
            None => None,
            Some((number, rest)) => match (text::parse_u64(number), text::split_once(rest, ") ")) {
                (Some(id), Some((_, label))) => Some((id, text::trim(label).to_owned())),
                _ => None,
            },
        },
    }
}

// ---------------------------------------------------------------------------
// Config lines
// ---------------------------------------------------------------------------

/// What a config line says: `- #<id> <label> [<flag>]...`.
pub open spec fn config_line(line: Seq<char>) -> Option<ConfigRowView> {
    match text::after_prefix(text::trimmed(line), "- #"@) {
        None => None,
        Some(rest) => match text::cut(rest, " "@) {
            None => None,
            Some((number, after)) => match (text::u64_of(number), text::cut(after, " ["@)) {
                (Some(id), Some((label, flagged))) => match text::cut(flagged, "]"@) {
                    None => None,
                    Some((flag, _)) => Some(
                        ConfigRowView {
                            id,
                            label: text::trimmed(label),
                            enabled: flag == "enabled"@,
                        },
                    ),
                },
                _ => None,
            },
        },
    }
}

/// The config of a config line; other lines give nothing.
pub fn parse_config_line(line: &str) -> (r: Option<ConfigRow>)
    ensures
        match r {
            Some(row) => config_line(line@) == Some(row@),
            None => config_line(line@) is None,
        },
{
    match text::strip_prefix(text::trim(line), "- #") {
        None => None,
        Some(rest) => match text::split_once(rest, " ") {
            None => None,
            Some((number, after)) => match (text::parse_u64(number), text::split_once(after, " [")) {
                (Some(id), Some((label, flagged))) => match text::split_once(flagged, "]") {
                    None => None,
                    Some((flag, _)) => Some(
                        ConfigRow {
                            id,
                            label: text::trim(label).to_owned(),
                            enabled: text::same(flag, "enabled"),
                        },
                    ),
                },
                _ => None,
            },
        },
    }
}

/// The state that a config's row shows of its instance: the classified
/// activity, or else the lifecycle status; an empty one shows nothing.
pub open spec fn shown_state(inst: Option<ProcessRowView>) -> Option<Seq<char>> {
    match inst {
        None => None,
        Some(row) => {
            let state = match row.agent_state {
                Some(s) => Some(s),
                None => row.status,
            };
            match state {
                Some(s) => if s.len() == 0 {
                    None
                } else {
                    Some(s)
                },
                None => None,
            }
        },
    }
}

/// The Agents row of a config: `#<id> <name>`, then the state of its instance,
/// and while that is idle, for how long.
pub open spec fn config_label(config: ConfigRowView, inst: Option<ProcessRowView>) -> Seq<char> {
    let base = "#"@ + text::decimal(config.id as nat) + " "@ + config.label;
    match shown_state(inst) {
        None => base,
        Some(state) => if inst->0.agent_state == Some("idle"@) && inst->0.idle is Some {
            base + " · "@ + state + " "@ + inst->0.idle->0
        } else {
            base + " · "@ + state
        },
    }
}

/// The view of an optional row.
pub open spec fn opt_row(inst: Option<&ProcessRow>) -> Option<ProcessRowView> {
    match inst {
        Some(row) => Some(row@),
        None => None,
    }
}

/// The Agents row of a config, given its live instance if it has one.
pub fn agent_config_label(config: &ConfigRow, inst: Option<&ProcessRow>) -> (r: String)
    ensures
        r@ == config_label(config@, opt_row(inst)),
{
    let mut out = "#".to_owned();
    out.append(text::number(config.id).as_str());
    out.append(" ");
    out.append(config.label.as_str());
    match inst {
        None => out,
        Some(row) => {
            let state: &str = match &row.agent_state {
                Some(s) => s.as_str(),
                None => match &row.status {
                    Some(s) => s.as_str(),
                    None => {
                        return out;
                    },
                },
            };
            if state.is_empty() {
                return out;
            }
            out.append(" · ");
            out.append(state);
            match &row.idle {
                Some(age) => {
                    if text::is_some_text(&row.agent_state, "idle") {
                        out.append(" ");
                        out.append(age.as_str());
                    }
                },
                None => {},
            }
            out
        },
    }
}

// ---------------------------------------------------------------------------
// Process lines
// ---------------------------------------------------------------------------

/// A segment that names one of the keyed attributes.
pub open spec fn is_keyed(seg: Seq<char>) -> bool {
    text::begins(seg, "type:"@) || text::begins(seg, "state:"@) || text::begins(seg, "agent:"@)
        || text::begins(seg, "idle:"@)
}

/// The value of the last segment that starts with `key`.
pub open spec fn last_keyed(segs: Seq<Seq<char>>, key: Seq<char>) -> Option<Seq<char>>
    decreases segs.len(),
{
    if segs.len() == 0 {
        None
    } else {
        match text::after_prefix(text::trimmed(segs.last()), key) {
            Some(v) => Some(text::trimmed(v)),
            None => last_keyed(segs.drop_last(), key),
        }
    }
}

/// The last segment that is not empty and names no keyed attribute.
pub open spec fn last_plain(segs: Seq<Seq<char>>) -> Option<Seq<char>>
    decreases segs.len(),
{
    if segs.len() == 0 {
        None
    } else {
        let seg = text::trimmed(segs.last());
        if seg.len() > 0 && !is_keyed(seg) {
            Some(seg)
        } else {
            last_plain(segs.drop_last())
        }
    }
}

/// Where the ` (from #<id>)` at the end of a label starts, if it has one.
pub open spec fn from_at(label: Seq<char>) -> Option<int> {
    if text::ends(label, ")"@) {
        text::rfind_seq(label, " (from #"@)
    } else {
        None
    }
}

/// A label without its ` (from #<id>)`.
pub open spec fn bare_label(label: Seq<char>) -> Seq<char> {
    match from_at(label) {
        Some(i) => label.take(i),
        None => label,
    }
}

/// The id in the ` (from #<id>)` of a label.
pub open spec fn from_id(label: Seq<char>) -> Option<u64> {
    match from_at(label) {
        Some(i) => text::u64_of(text::trimmed(label.subrange(i + 8, label.len() - 1))),
        None => None,
    }
}

/// What the part of a process line after its id says: a label, and attributes
/// that ` · ` separates.
pub open spec fn process_body(kind: Seq<char>, id: u64, body: Seq<char>) -> ProcessRowView {
    let segs = text::pieces(text::trimmed(body), " · "@);
    let label = text::trimmed(segs[0]);
    let attrs = segs.drop_first();
    ProcessRowView {
        kind,
        id,
        label: bare_label(label),
        status: last_plain(attrs),
        tool_type: last_keyed(attrs, "type:"@),
        agent_state: last_keyed(attrs, "state:"@),
        agent_id: last_keyed(attrs, "agent:"@),
        agent_tool_id: from_id(label),
        idle: last_keyed(attrs, "idle:"@),
    }
}

/// What a process line says: `- [<kind>] #<id> <label> · <attribute> ...`.
pub open spec fn process_line(line: Seq<char>) -> Option<ProcessRowView> {
    match text::after_prefix(text::trimmed(line), "- ["@) {
        None => None,
        Some(rest) => match text::cut(rest, "]"@) {
            None => None,
            Some((kind, tail)) => match text::after_prefix(text::trim_left(tail), "#"@) {
                None => None,
                Some(after) => match text::cut(after, " "@) {
                    None => None,
                    Some((number, body)) => match text::u64_of(number) {
                        None => None,
                        Some(id) => Some(process_body(kind, id, body)),
                    },
                },
            },
        },
    }
}

/// No key of an attribute starts with another one.
proof fn lemma_keys_apart(seg: Seq<char>)
    ensures
        text::begins(seg, "type:"@) ==> !text::begins(seg, "state:"@) && !text::begins(
            seg,
            "agent:"@,
        ) && !text::begins(seg, "idle:"@),
        text::begins(seg, "state:"@) ==> !text::begins(seg, "agent:"@) && !text::begins(
            seg,
            "idle:"@,
        ),
        text::begins(seg, "agent:"@) ==> !text::begins(seg, "idle:"@),
{
    reveal_strlit("type:");
    reveal_strlit("state:");
    reveal_strlit("agent:");
    reveal_strlit("idle:");
    assert(text::begins(seg, "type:"@) ==> seg.subrange(0, 5)[0] == 't');
    assert(text::begins(seg, "state:"@) ==> seg.subrange(0, 6)[0] == 's');
    assert(text::begins(seg, "agent:"@) ==> seg.subrange(0, 6)[0] == 'a');
    assert(text::begins(seg, "idle:"@) ==> seg.subrange(0, 5)[0] == 'i');
}

/// A label that ends with `)` has room for an id after its ` (from #`.
proof fn lemma_from_room(label: Seq<char>)
    ensures
        from_at(label) matches Some(i) ==> 0 <= i && i + 8 <= label.len() - 1,
{
    reveal_strlit(")");
    reveal_strlit(" (from #");
    if text::ends(label, ")"@) {
        assert(label.subrange(label.len() - 1, label.len() as int)[0] == ')');
        text::lemma_rfind_from(label, " (from #"@, label.len() - 8);
        if let Some(i) = text::rfind_seq(label, " (from #"@) {
            assert(label.subrange(i, i + 8)[7] == '#');
        }
    }
}

/// The process of a process line; other lines give nothing.
pub fn parse_process_line(line: &str) -> (r: Option<ProcessRow>)
    ensures
        match r {
            Some(row) => process_line(line@) == Some(row@),
            None => process_line(line@) is None,
        },
{
    let rest = match text::strip_prefix(text::trim(line), "- [") {
        None => {
            return None;
        },
        Some(rest) => rest,
    };
    let (kind, tail) = match text::split_once(rest, "]") {
        None => {
            return None;
        },
        Some(p) => p,
    };
    let after = match text::strip_prefix(text::trim_start(tail), "#") {
        None => {
            return None;
        },
        Some(after) => after,
    };
    let (number, body) = match text::split_once(after, " ") {
        None => {
            return None;
        },
        Some(p) => p,
    };
    match text::parse_u64(number) {
        None => None,
        Some(id) => Some(process_row(kind, id, body)),
    }
}

/// The row of a process line, given its kind, its id and what follows them.
fn process_row(kind: &str, id: u64, body: &str) -> (row: ProcessRow)
    ensures
        row@ == process_body(kind@, id, body@),
{
    proof {
        reveal_strlit(" · ");
        reveal_strlit(" (from #");
    }
    let segs = text::split(text::trim(body), " · ");
    let ghost all = text::views(segs@);
    let ghost attrs = all.drop_first();
    assert(all.len() == segs@.len());
    assert(all[0] == segs@[0]@);
    let label = text::trim(segs[0]);
    let mut status: Option<String> = None;
    let mut tool_type: Option<String> = None;
    let mut agent_state: Option<String> = None;
    let mut agent_id: Option<String> = None;
    let mut idle: Option<String> = None;
    let mut i: usize = 1;
    while i < segs.len()
        invariant
            1 <= i <= segs.len(),
            all == text::views(segs@),
            attrs == all.drop_first(),
            text::opt_text(status) == last_plain(attrs.take(i - 1)),
            text::opt_text(tool_type) == last_keyed(attrs.take(i - 1), "type:"@),
            text::opt_text(agent_state) == last_keyed(attrs.take(i - 1), "state:"@),
            text::opt_text(agent_id) == last_keyed(attrs.take(i - 1), "agent:"@),
            text::opt_text(idle) == last_keyed(attrs.take(i - 1), "idle:"@),
        decreases segs.len() - i,
    {
        let seg = text::trim(segs[i]);
        proof {
            lemma_keys_apart(seg@);
            assert(attrs.take(i as int).drop_last() =~= attrs.take(i - 1));
            assert(attrs.take(i as int).last() == segs@[i as int]@);
        }
        if let Some(v) = text::strip_prefix(seg, "type:") {
            tool_type = Some(text::trim(v).to_owned());
        } else if let Some(v) = text::strip_prefix(seg, "state:") {
            agent_state = Some(text::trim(v).to_owned());
        } else if let Some(v) = text::strip_prefix(seg, "agent:") {
            agent_id = Some(text::trim(v).to_owned());
        } else if let Some(v) = text::strip_prefix(seg, "idle:") {
            idle = Some(text::trim(v).to_owned());
        } else if !seg.is_empty() {
            status = Some(seg.to_owned());
        }
        i += 1;
    }
    assert(attrs.take(i - 1) =~= attrs);
    let mut agent_tool_id: Option<u64> = None;
    let mut bare = label;
    proof {
        lemma_from_room(label@);
    }
    if text::ends_with(label, ")") {
        if let Some(f) = text::rfind(label, " (from #") {
            let n: usize = label.unicode_len();
            let inner = text::slice(label, f + 8, n - 1);
            agent_tool_id = text::parse_u64(text::trim(inner));
            bare = text::slice(label, 0, f);
            assert(bare@ =~= label@.take(f as int));
        }
    }
    ProcessRow {
        kind: kind.to_owned(),
        id,
        label: bare.to_owned(),
        status,
        tool_type,
        agent_state,
        agent_id,
        agent_tool_id,
        idle,
    }
}

} // verus!
