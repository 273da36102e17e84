//! What a pane is, read off the command it was launched with.

use vstd::prelude::*;
use vstd::string::*;

use crate::text;

verus! {

/// What a content pane is.
#[derive(Clone, Copy, PartialEq, Eq, Debug, Structural)]
pub enum PaneRole {
    /// A document viewer.
    Viewer,
    /// An ad-hoc agent.
    Agent,
    /// The pane of a process, by its id.
    Process(u64),
    /// A plain terminal.
    Shell,
}

/// The names of the shells that a user may sit in.
pub open spec fn shell_name(name: Seq<char>) -> bool {
    name == "zsh"@ || name == "bash"@ || name == "fish"@ || name == "sh"@ || name == "dash"@ || name
        == "ksh"@ || name == "tcsh"@ || name == "nu"@ || name == "ash"@ || name == "elvish"@
}

/// Whether a program of this name is a user's shell.
pub fn is_user_shell(basename: &str) -> (r: bool)
    ensures
        r == shell_name(basename@),
{
    text::same(basename, "zsh") || text::same(basename, "bash") || text::same(basename, "fish")
        || text::same(basename, "sh") || text::same(basename, "dash") || text::same(
        basename,
        "ksh",
    ) || text::same(basename, "tcsh") || text::same(basename, "nu") || text::same(basename, "ash")
        || text::same(basename, "elvish")
}

/// Whether `pat` stands anywhere in `s`.
pub open spec fn mentions(s: Seq<char>, pat: Seq<char>) -> bool {
    text::find_seq(s, pat) is Some
}

/// The last of the words that is a number.
pub open spec fn last_number(words: Seq<Seq<char>>) -> Option<u64>
    decreases words.len(),
{
    if words.len() == 0 {
        None
    } else {
        match text::u64_of(words.last()) {
            Some(n) => Some(n),
            None => last_number(words.drop_last()),
        }
    }
}

/// The part that follows the first part equal to `key`.
pub open spec fn part_after(parts: Seq<Seq<char>>, key: Seq<char>) -> Option<Seq<char>>
    decreases parts.len(),
{
    if parts.len() == 0 {
        None
    } else if parts[0] == key {
        if parts.len() > 1 {
            Some(parts[1])
        } else {
            None
        }
    } else {
        part_after(parts.drop_first(), key)
    }
}

/// The process id in a command that names `.../instances/<id>/...`.
pub open spec fn instance_id(cmd: Seq<char>) -> Option<u64> {
    match part_after(text::pieces(cmd, "/"@), "instances"@) {
        Some(segment) => text::u64_of(segment),
        None => None,
    }
}

/// What the pane of a command is.
pub open spec fn pane_role(command: Option<Seq<char>>) -> PaneRole {
    match command {
        None => PaneRole::Shell,
        Some(cmd) => if mentions(cmd, "_viewer"@) {
            PaneRole::Viewer
        } else if mentions(cmd, "_process-run"@) {
            match last_number(text::words(cmd)) {
                Some(id) => PaneRole::Process(id),
                None => PaneRole::Shell,
            }
        } else {
            match instance_id(cmd) {
                Some(id) => PaneRole::Process(id),
                None => if mentions(cmd, "_agent"@) {
                    PaneRole::Agent
                } else {
                    PaneRole::Shell
                },
            }
        },
    }
}

/// The part after the first part equal to `key`.
fn next_after<'a>(parts: &Vec<&'a str>, key: &str) -> (r: Option<&'a str>)
    ensures
        text::opt_str(r) == part_after(text::views(parts@), key@),
{
    let ghost all = text::views(parts@);
    let mut i: usize = 0;
    assert(all.skip(0) =~= all);
    while i < parts.len()
        invariant
            i <= parts.len(),
            all == text::views(parts@),
            part_after(all, key@) == part_after(all.skip(i as int), key@),
        decreases parts.len() - i,
    {
        let ghost rest = all.skip(i as int);
        assert(rest[0] == parts@[i as int]@);
        if text::same(parts[i], key) {
            if i + 1 < parts.len() {
                assert(rest[1] == parts@[i + 1]@);
                return Some(parts[i + 1]);
            }
            return None;
        }
        assert(rest.drop_first() =~= all.skip(i + 1));
        i += 1;
    }
    None
}

/// The process id in a command that runs a process directly: the path segment
/// after `instances`.
fn instance_id_from_command(cmd: &str) -> (r: Option<u64>)
    ensures
        r == instance_id(cmd@),
{
    proof {
        reveal_strlit("/");
    }
    match next_after(&text::split(cmd, "/"), "instances") {
        Some(segment) => text::parse_u64(segment),
        None => None,
    }
}

/// The last word of `cmd` that is a number.
fn last_number_in(cmd: &str) -> (r: Option<u64>)
    ensures
        r == last_number(text::words(cmd@)),
{
    let words = text::split_words(cmd);
    let ghost all = text::views(words@);
    let mut i: usize = words.len();
    assert(all.take(i as int) =~= all);
    while i > 0
        invariant
            i <= words.len(),
            all == text::views(words@),
            all == text::words(cmd@),
            last_number(all) == last_number(all.take(i as int)),
        decreases i,
    {
        assert(all.take(i as int).last() == words@[i - 1]@);
        assert(all.take(i as int).drop_last() =~= all.take(i - 1));
        match text::parse_u64(words[i - 1]) {
            Some(n) => {
                return Some(n);
            },
            None => {},
        }
        i -= 1;
    }
    None
}

/// What a pane is, from the command it was launched with.
pub fn classify_pane(command: Option<&str>) -> (r: PaneRole)
    ensures
        r == pane_role(text::opt_str(command)),
{
    match command {
        None => PaneRole::Shell,
        Some(cmd) => if text::contains(cmd, "_viewer") {
            PaneRole::Viewer
        } else if text::contains(cmd, "_process-run") {
            match last_number_in(cmd) {
                Some(id) => PaneRole::Process(id),
                None => PaneRole::Shell,
            }
        } else {
            match instance_id_from_command(cmd) {
                Some(id) => PaneRole::Process(id),
                None => if text::contains(cmd, "_agent") {
                    PaneRole::Agent
                } else {
                    PaneRole::Shell
                },
            }
        },
    }
}

/// The value of the flag `--slot` in a viewer's command.
pub open spec fn slot_of(command: Option<Seq<char>>) -> Option<Seq<char>> {
    match command {
        Some(cmd) => part_after(text::words(cmd), "--slot"@),
        None => None,
    }
}

/// The routing slot in a viewer's command.
pub fn parse_viewer_slot(command: Option<&str>) -> (r: Option<String>)
    ensures
        text::opt_text(r) == slot_of(text::opt_str(command)),
{
    match command {
        Some(cmd) => match next_after(&text::split_words(cmd), "--slot") {
            Some(slot) => Some(slot.to_owned()),
            None => None,
        },
        None => None,
    }
}

/// The agent id in the command of an agent, or of an agent's proxy.
pub open spec fn agent_id_of(command: Option<Seq<char>>) -> Option<Seq<char>> {
    match command {
        Some(cmd) => if mentions(cmd, "_mcp-proxy"@) || mentions(cmd, "_agent"@) {
            part_after(text::words(cmd), "--id"@)
        } else {
            None
        },
        None => None,
    }
}

/// The stable agent id in the command of an agent pane. Another program's
/// `--id` names no agent.
pub fn agent_id_from_command(command: Option<&str>) -> (r: Option<String>)
    ensures
        text::opt_text(r) == agent_id_of(text::opt_str(command)),
{
    match command {
        Some(cmd) => {
            if !text::contains(cmd, "_mcp-proxy") && !text::contains(cmd, "_agent") {
                return None;
            }
            match next_after(&text::split_words(cmd), "--id") {
                Some(id) => Some(id.to_owned()),
                None => None,
            }
        },
        None => None,
    }
}

} // verus!
