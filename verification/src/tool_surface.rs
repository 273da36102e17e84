//! The tools that the daemon offers to agents. This is the one list of them:
//! whatever publishes or forwards a tool goes by it.

use vstd::prelude::*;
use vstd::string::*;


verus! {

/// A tool as it is published.
#[derive(Debug)]
pub struct ToolDef {
    pub name: &'static str,
    pub description: &'static str,
    /// The type of its arguments; empty where it takes none.
    pub args: &'static str,
}

impl View for ToolDef {
    type V = (Seq<char>, Seq<char>, Seq<char>);

    open spec fn view(&self) -> (Seq<char>, Seq<char>, Seq<char>) {
        (self.name@, self.description@, self.args@)
    }
}

/// The contents of tools.
pub open spec fn tool_defs(v: Seq<ToolDef>) -> Seq<(Seq<char>, Seq<char>, Seq<char>)> {
    v.map_values(|t: ToolDef| t@)
}

/// The names of tools.
pub open spec fn names_of(v: Seq<ToolDef>) -> Seq<Seq<char>> {
    v.map_values(|t: ToolDef| t.name@)
}

/// The names of the tools, in the order in which they are published.
pub open spec fn tool_names() -> Seq<Seq<char>> {
    seq![
        "identify"@,
        "agent_leave"@,
        "whoami"@,
        "agent_list"@,
        "lock_acquire"@,
        "lock_release"@,
        "lock_status"@,
        "note_create"@,
        "note_list"@,
        "note_search"@,
        "note_append"@,
        "note_read"@,
        "note_get"@,
        "note_update"@,
        "note_delete"@,
        "note_tags_list"@,
        "todo_create"@,
        "todo_list"@,
        "todo_search"@,
        "todo_get"@,
        "todo_update"@,
        "todo_complete"@,
        "todo_start"@,
        "todo_delete"@,
        "todo_add_blocker"@,
        "todo_remove_blocker"@,
        "todo_comment_add"@,
        "todo_comment_update"@,
        "todo_comment_delete"@,
        "todo_set_blockers"@,
        "todo_tags_list"@,
        "todo_lock"@,
        "todo_unlock"@,
        "agent_tool_create"@,
        "agent_tool_list"@,
        "agent_tool_get"@,
        "agent_tool_update"@,
        "agent_tool_delete"@,
        "process_create"@,
        "process_list"@,
        "process_get"@,
        "process_update"@,
        "process_delete"@,
        "id_kind"@,
    ]
}

/// The tools as they are published: the name, what agents are told, and the
/// type of the arguments.
pub open spec fn published() -> Seq<(Seq<char>, Seq<char>, Seq<char>)> {
    seq![
        (
            "identify"@,
            "Register or update this agent's name and status in the coordination registry. Other agents see it via agent_list."@,
            "IdentifyArgs"@,
        ),
        (
            "agent_leave"@,
            "Cooperatively leave the project's agent registry. Removes this agent from agent_list immediately, releases every advisory lock it holds, and re-projects .panopt/agents.md and .panopt/locks.md. Idempotent: a second call by an already-gone agent is a silent ok. Intended for a clean handoff or shutdown - the idle sweep handles agents that just disappear."@,
            ""@,
        ),
        (
            "whoami"@,
            "Return this agent's own registry entry: {name, status, idle_seconds, is_self}."@,
            ""@,
        ),
        (
            "agent_list"@,
            "List every agent currently connected to this project as a JSON array of {name, status, idle_seconds, is_self}."@,
            ""@,
        ),
        (
            "lock_acquire"@,
            "Acquire a named advisory lock to coordinate exclusive work. Non-blocking: returns {acquired: bool, held_by?: name} - acquired is false when another agent holds it."@,
            "LockAcquireArgs"@,
        ),
        (
            "lock_release"@,
            "Release a named advisory lock you hold. Returns {released: bool, held_by?: name}; released is false only if another agent holds it."@,
            "LockReleaseArgs"@,
        ),
        (
            "lock_status"@,
            "List all advisory locks held in this project as a JSON array of {name, held_by, note, age_seconds, is_mine}."@,
            ""@,
        ),
        (
            "note_create"@,
            "Create a new note with a title. Returns its numeric id."@,
            "NoteCreateArgs"@,
        ),
        (
            "note_list"@,
            "List all notes as a JSON array of {id, title}."@,
            ""@,
        ),
        (
            "note_search"@,
            "Find notes. Optional `query` substring-matches title and body (case-insensitive). Optional `tags` requires every listed tag to be present (AND semantics). Returns the same {id, title} shape as note_list; an empty-arg call is equivalent to note_list."@,
            "NoteSearchArgs"@,
        ),
        (
            "note_append"@,
            "Append text to an existing note, addressed by numeric id."@,
            "NoteAppendArgs"@,
        ),
        (
            "note_read"@,
            "Read the full body of a note, addressed by numeric id."@,
            "NoteReadArgs"@,
        ),
        (
            "note_get"@,
            "Fetch one note in full - id, title, body, and timestamps - addressed by numeric id."@,
            "NoteGetArgs"@,
        ),
        (
            "note_update"@,
            "Edit a note's title, body, and/or tags. Each omitted field is left unchanged; body replaces the existing body in full (use note_append to add instead of replace); tags replaces the whole tag list."@,
            "NoteUpdateArgs"@,
        ),
        (
            "note_delete"@,
            "Delete a note. Removes both the database row and the per-note projection file."@,
            "NoteDeleteArgs"@,
        ),
        (
            "note_tags_list"@,
            "List the project's tag vocabulary: the sorted, deduped union of every tag attached to any todo OR note. Identical output to todo_tags_list - the two surfaces share one project-wide tag pool."@,
            ""@,
        ),
        (
            "todo_create"@,
            "Create a new todo with a title. Returns its numeric id."@,
            "TodoCreateArgs"@,
        ),
        (
            "todo_list"@,
            "List all todos as a JSON array of {id, title, status, priority, assignee, tags, blockers, comment_count, created_at, updated_at}. Use todo_get for a todo's body and comment thread."@,
            ""@,
        ),
        (
            "todo_search"@,
            "Find todos. Optional `query` substring-matches title and body (case-insensitive). Optional status/priority/assignee narrow by exact match (assignee is case-insensitive); pass an empty assignee string to find unassigned todos. Optional `tags` requires every listed tag (AND semantics). Returns the same shape as todo_list; an empty-arg call is equivalent to todo_list."@,
            "TodoSearchArgs"@,
        ),
        (
            "todo_get"@,
            "Fetch one todo in full - body, comment thread, blockers and all - addressed by numeric id. `locked_by` is set when an agent holds the `todo:<id>` advisory lock."@,
            "TodoGetArgs"@,
        ),
        (
            "todo_update"@,
            "Edit a todo's fields. Every argument but todo_id is optional; an omitted field is left unchanged. status is one of open/in_progress/backlog/draft/completed/not_done, priority one of high/medium/low; tags replaces the whole tag list."@,
            "TodoUpdateArgs"@,
        ),
        (
            "todo_complete"@,
            "Mark a todo complete, addressed by numeric id."@,
            "TodoCompleteArgs"@,
        ),
        (
            "todo_start"@,
            "Claim a todo for active work: atomically acquires the `todo:<id>` advisory lock, transitions status to `in_progress`, and returns the same full detail as `todo_get`. Use this as the first MCP call when you start work on a todo (e.g. the user asks 'do #N'). Idempotent when you already hold the lock and the todo is `in_progress`. If another agent holds the lock, returns {started: false, held_by} without mutating status. Errors on terminal states (`completed`/`not_done`) - reopen via `todo_update` first."@,
            "TodoStartArgs"@,
        ),
        (
            "todo_delete"@,
            "Delete a todo, addressed by numeric id. Its comments and blocker links are removed with it."@,
            "TodoDeleteArgs"@,
        ),
        (
            "todo_add_blocker"@,
            "Record that one todo is blocked by another: todo_id is blocked by blocker_id. Both must exist and must differ."@,
            "TodoBlockerArgs"@,
        ),
        (
            "todo_remove_blocker"@,
            "Remove a blocker link, so todo_id is no longer blocked by blocker_id."@,
            "TodoBlockerArgs"@,
        ),
        (
            "todo_comment_add"@,
            "Add a comment to a todo. The author is the supplied `author`, or - omitted - the calling agent's registered name. Returns the new comment's numeric id."@,
            "TodoCommentAddArgs"@,
        ),
        (
            "todo_comment_update"@,
            "Edit an existing comment's body. The author and timestamp are preserved - this is not a re-post."@,
            "TodoCommentUpdateArgs"@,
        ),
        (
            "todo_comment_delete"@,
            "Delete a comment from a todo. Comment ids are not reused after deletion - the per-todo counter keeps advancing."@,
            "TodoCommentDeleteArgs"@,
        ),
        (
            "todo_set_blockers"@,
            "Replace a todo's blocker set in one call. Equivalent to a diff of todo_add_blocker / todo_remove_blocker, but atomic - used by the cockpit form to avoid a half-applied state."@,
            "TodoSetBlockersArgs"@,
        ),
        (
            "todo_tags_list"@,
            "List the project's tag vocabulary: the sorted, deduped union of every tag attached to any todo OR note. The two surfaces share one project-wide tag pool, so this returns identical output to note_tags_list."@,
            ""@,
        ),
        (
            "todo_lock"@,
            "Claim a todo as `todo:<id>` in the advisory lock table. A thin wrapper around lock_acquire - non-blocking, returns {acquired: bool, held_by?: name}. Advisory only."@,
            "TodoLockArgs"@,
        ),
        (
            "todo_unlock"@,
            "Release the `todo:<id>` advisory lock you hold. Returns {released: bool, held_by?: name}."@,
            "TodoUnlockArgs"@,
        ),
        (
            "agent_tool_create"@,
            "Create an agent tool (config layer) - a durable agent configuration this project can spawn processes from. Returns its numeric id."@,
            "AgentToolCreateArgs"@,
        ),
        (
            "agent_tool_list"@,
            "List this project's agent tools as a JSON array of {id, name, display_name, command, cwd, tool_type, enabled, position, created_at}."@,
            ""@,
        ),
        (
            "agent_tool_get"@,
            "Fetch one agent tool in full, addressed by numeric id."@,
            "AgentToolGetArgs"@,
        ),
        (
            "agent_tool_update"@,
            "Edit an agent tool's fields. Every argument but agent_tool_id is optional; an omitted field is left unchanged."@,
            "AgentToolUpdateArgs"@,
        ),
        (
            "agent_tool_delete"@,
            "Delete an agent tool, addressed by numeric id. Any processes that reference it keep running; their agent_tool_id back-reference is set to NULL."@,
            "AgentToolDeleteArgs"@,
        ),
        (
            "process_create"@,
            "Create a process (instance layer) - a per-project agent/command/ terminal instance. Optionally links to a source agent_tool via agent_tool_id. Returns its numeric id."@,
            "ProcessCreateArgs"@,
        ),
        (
            "process_list"@,
            "List this project's processes as a JSON array of {id, kind, name, display_name, command, cwd, position, agent_tool_id, pid, status, agent_state, last_seen, created_at}."@,
            ""@,
        ),
        (
            "process_get"@,
            "Fetch one process in full, addressed by numeric id."@,
            "ProcessGetArgs"@,
        ),
        (
            "process_update"@,
            "Edit a process's fields. Every argument but process_id is optional; an omitted field is left unchanged."@,
            "ProcessUpdateArgs"@,
        ),
        (
            "process_delete"@,
            "Delete a process, addressed by numeric id."@,
            "ProcessDeleteArgs"@,
        ),
        (
            "id_kind"@,
            "Given a numeric id, return what kind of resource it is and a short label. Resolves across todos, notes, agent tools, and processes (ids are unified per project so a `#N` reference points to exactly one row). Errors `invalid_params` if the id matches no live (non-soft- deleted) resource."@,
            "IdKindArgs"@,
        ),
    ]
}

/// A number that tells the names apart: their length, and the characters at
/// both ends and three before the last.
pub open spec fn mark(s: Seq<char>) -> int {
    ((s.len() * 256 + s[0] as int) * 256 + s[s.len() - 1] as int) * 256 + s[s.len() - 4] as int
}

/// The place of a name, by its mark.
spec fn place_of(m: int) -> int {
    if m == 141130100 {
        0
    } else if m == 190932325 {
        1
    } else if m == 108489071 {
        2
    } else if m == 174158956 {
        3
    } else if m == 208430453 {
        4
    } else if m == 208430437 {
        5
    } else if m == 191656801 {
        6
    } else if m == 191784293 {
        7
    } else if m == 158233708 {
        8
    } else if m == 191785057 {
        9
    } else if m == 191784048 {
        10
    } else if m == 158229618 {
        11
    } else if m == 141456479 {
        12
    } else if m == 191784292 {
        13
    } else if m == 191784300 {
        14
    } else if m == 242119788 {
        15
    } else if m == 192177509 {
        16
    } else if m == 158626924 {
        17
    } else if m == 192178273 {
        18
    } else if m == 141849695 {
        19
    } else if m == 192177508 {
        20
    } else if m == 225731948 {
        21
    } else if m == 175404148 {
        22
    } else if m == 192177516 {
        23
    } else if m == 276066915 {
        24
    } else if m == 326398563 {
        25
    } else if m == 276063327 {
        26
    } else if m == 326395236 {
        27
    } else if m == 326395244 {
        28
    } else if m == 292844395 {
        29
    } else if m == 242513004 {
        30
    } else if m == 158624620 {
        31
    } else if m == 192179052 {
        32
    } else if m == 291595621 {
        33
    } else if m == 258045036 {
        34
    } else if m == 241267807 {
        35
    } else if m == 291595620 {
        36
    } else if m == 291595628 {
        37
    } else if m == 242247013 {
        38
    } else if m == 208696428 {
        39
    } else if m == 191919199 {
        40
    } else if m == 242247012 {
        41
    } else if m == 242247020 {
        42
    } else if m == 124347499 {
        43
    } else {
        -1
    }
}

proof fn lemma_marks_first()
    ensures
        mark("identify"@) == 141130100,
        mark("agent_leave"@) == 190932325,
        mark("whoami"@) == 108489071,
        mark("agent_list"@) == 174158956,
        mark("lock_acquire"@) == 208430453,
        mark("lock_release"@) == 208430437,
        mark("lock_status"@) == 191656801,
        mark("note_create"@) == 191784293,
        mark("note_list"@) == 158233708,
        mark("note_search"@) == 191785057,
        mark("note_append"@) == 191784048,
{
    reveal_strlit("identify");
    reveal_strlit("agent_leave");
    reveal_strlit("whoami");
    reveal_strlit("agent_list");
    reveal_strlit("lock_acquire");
    reveal_strlit("lock_release");
    reveal_strlit("lock_status");
    reveal_strlit("note_create");
    reveal_strlit("note_list");
    reveal_strlit("note_search");
    reveal_strlit("note_append");
}

proof fn lemma_marks_second()
    ensures
        mark("note_read"@) == 158229618,
        mark("note_get"@) == 141456479,
        mark("note_update"@) == 191784292,
        mark("note_delete"@) == 191784300,
        mark("note_tags_list"@) == 242119788,
        mark("todo_create"@) == 192177509,
        mark("todo_list"@) == 158626924,
        mark("todo_search"@) == 192178273,
        mark("todo_get"@) == 141849695,
        mark("todo_update"@) == 192177508,
        mark("todo_complete"@) == 225731948,
{
    reveal_strlit("note_read");
    reveal_strlit("note_get");
    reveal_strlit("note_update");
    reveal_strlit("note_delete");
    reveal_strlit("note_tags_list");
    reveal_strlit("todo_create");
    reveal_strlit("todo_list");
    reveal_strlit("todo_search");
    reveal_strlit("todo_get");
    reveal_strlit("todo_update");
    reveal_strlit("todo_complete");
}

proof fn lemma_marks_third()
    ensures
        mark("todo_start"@) == 175404148,
        mark("todo_delete"@) == 192177516,
        mark("todo_add_blocker"@) == 276066915,
        mark("todo_remove_blocker"@) == 326398563,
        mark("todo_comment_add"@) == 276063327,
        mark("todo_comment_update"@) == 326395236,
        mark("todo_comment_delete"@) == 326395244,
        mark("todo_set_blockers"@) == 292844395,
        mark("todo_tags_list"@) == 242513004,
        mark("todo_lock"@) == 158624620,
        mark("todo_unlock"@) == 192179052,
{
    reveal_strlit("todo_start");
    reveal_strlit("todo_delete");
    reveal_strlit("todo_add_blocker");
    reveal_strlit("todo_remove_blocker");
    reveal_strlit("todo_comment_add");
    reveal_strlit("todo_comment_update");
    reveal_strlit("todo_comment_delete");
    reveal_strlit("todo_set_blockers");
    reveal_strlit("todo_tags_list");
    reveal_strlit("todo_lock");
    reveal_strlit("todo_unlock");
}

proof fn lemma_marks_fourth()
    ensures
        mark("agent_tool_create"@) == 291595621,
        mark("agent_tool_list"@) == 258045036,
        mark("agent_tool_get"@) == 241267807,
        mark("agent_tool_update"@) == 291595620,
        mark("agent_tool_delete"@) == 291595628,
        mark("process_create"@) == 242247013,
        mark("process_list"@) == 208696428,
        mark("process_get"@) == 191919199,
        mark("process_update"@) == 242247012,
        mark("process_delete"@) == 242247020,
        mark("id_kind"@) == 124347499,
{
    reveal_strlit("agent_tool_create");
    reveal_strlit("agent_tool_list");
    reveal_strlit("agent_tool_get");
    reveal_strlit("agent_tool_update");
    reveal_strlit("agent_tool_delete");
    reveal_strlit("process_create");
    reveal_strlit("process_list");
    reveal_strlit("process_get");
    reveal_strlit("process_update");
    reveal_strlit("process_delete");
    reveal_strlit("id_kind");
}

/// Every tool is published once.
pub proof fn law_tools_are_published_once(i: int, j: int)
    requires
        0 <= i < j < tool_names().len(),
    ensures
        tool_names()[i] != tool_names()[j],
{
    lemma_place(i);
    lemma_place(j);
}

proof fn lemma_place(i: int)
    requires
        0 <= i < tool_names().len(),
    ensures
        place_of(mark(tool_names()[i])) == i,
{
    lemma_marks_first();
    lemma_marks_second();
    lemma_marks_third();
    lemma_marks_fourth();
    let all = tool_names();
    assert(all[0] == "identify"@);
    assert(all[1] == "agent_leave"@);
    assert(all[2] == "whoami"@);
    assert(all[3] == "agent_list"@);
    assert(all[4] == "lock_acquire"@);
    assert(all[5] == "lock_release"@);
    assert(all[6] == "lock_status"@);
    assert(all[7] == "note_create"@);
    assert(all[8] == "note_list"@);
    assert(all[9] == "note_search"@);
    assert(all[10] == "note_append"@);
    assert(all[11] == "note_read"@);
    assert(all[12] == "note_get"@);
    assert(all[13] == "note_update"@);
    assert(all[14] == "note_delete"@);
    assert(all[15] == "note_tags_list"@);
    assert(all[16] == "todo_create"@);
    assert(all[17] == "todo_list"@);
    assert(all[18] == "todo_search"@);
    assert(all[19] == "todo_get"@);
    assert(all[20] == "todo_update"@);
    assert(all[21] == "todo_complete"@);
    assert(all[22] == "todo_start"@);
    assert(all[23] == "todo_delete"@);
    assert(all[24] == "todo_add_blocker"@);
    assert(all[25] == "todo_remove_blocker"@);
    assert(all[26] == "todo_comment_add"@);
    assert(all[27] == "todo_comment_update"@);
    assert(all[28] == "todo_comment_delete"@);
    assert(all[29] == "todo_set_blockers"@);
    assert(all[30] == "todo_tags_list"@);
    assert(all[31] == "todo_lock"@);
    assert(all[32] == "todo_unlock"@);
    assert(all[33] == "agent_tool_create"@);
    assert(all[34] == "agent_tool_list"@);
    assert(all[35] == "agent_tool_get"@);
    assert(all[36] == "agent_tool_update"@);
    assert(all[37] == "agent_tool_delete"@);
    assert(all[38] == "process_create"@);
    assert(all[39] == "process_list"@);
    assert(all[40] == "process_get"@);
    assert(all[41] == "process_update"@);
    assert(all[42] == "process_delete"@);
    assert(all[43] == "id_kind"@);
}

/// A tool.
fn def(name: &'static str, description: &'static str, args: &'static str) -> (t: ToolDef)
    ensures
        t@ == (name@, description@, args@),
{
    ToolDef { name, description, args }
}

/// The tools that the daemon offers, each with what agents are told of it.
pub fn tool_surface() -> (out: Vec<ToolDef>)
    ensures
        tool_defs(out@) == published(),
        names_of(out@) == tool_names(),
{
    let mut out: Vec<ToolDef> = Vec::new();
    out.push(
        def(
            "identify",
            "Register or update this agent's name and status in the coordination registry. Other agents see it via agent_list.",
            "IdentifyArgs",
        ),
    );
    out.push(
        def(
            "agent_leave",
            "Cooperatively leave the project's agent registry. Removes this agent from agent_list immediately, releases every advisory lock it holds, and re-projects .panopt/agents.md and .panopt/locks.md. Idempotent: a second call by an already-gone agent is a silent ok. Intended for a clean handoff or shutdown - the idle sweep handles agents that just disappear.",
            "",
        ),
    );
    out.push(
        def(
            "whoami",
            "Return this agent's own registry entry: {name, status, idle_seconds, is_self}.",
            "",
        ),
    );
    out.push(
        def(
            "agent_list",
            "List every agent currently connected to this project as a JSON array of {name, status, idle_seconds, is_self}.",
            "",
        ),
    );
    out.push(
        def(
            "lock_acquire",
            "Acquire a named advisory lock to coordinate exclusive work. Non-blocking: returns {acquired: bool, held_by?: name} - acquired is false when another agent holds it.",
            "LockAcquireArgs",
        ),
    );
    out.push(
        def(
            "lock_release",
            "Release a named advisory lock you hold. Returns {released: bool, held_by?: name}; released is false only if another agent holds it.",
            "LockReleaseArgs",
        ),
    );
    out.push(
        def(
            "lock_status",
            "List all advisory locks held in this project as a JSON array of {name, held_by, note, age_seconds, is_mine}.",
            "",
        ),
    );
    out.push(
        def(
            "note_create",
            "Create a new note with a title. Returns its numeric id.",
            "NoteCreateArgs",
        ),
    );
    out.push(
        def(
            "note_list",
            "List all notes as a JSON array of {id, title}.",
            "",
        ),
    );
    out.push(
        def(
            "note_search",
            "Find notes. Optional `query` substring-matches title and body (case-insensitive). Optional `tags` requires every listed tag to be present (AND semantics). Returns the same {id, title} shape as note_list; an empty-arg call is equivalent to note_list.",
            "NoteSearchArgs",
        ),
    );
    out.push(
        def(
            "note_append",
            "Append text to an existing note, addressed by numeric id.",
            "NoteAppendArgs",
        ),
    );
    out.push(
        def(
            "note_read",
            "Read the full body of a note, addressed by numeric id.",
            "NoteReadArgs",
        ),
    );
    out.push(
        def(
            "note_get",
            "Fetch one note in full - id, title, body, and timestamps - addressed by numeric id.",
            "NoteGetArgs",
        ),
    );
    out.push(
        def(
            "note_update",
            "Edit a note's title, body, and/or tags. Each omitted field is left unchanged; body replaces the existing body in full (use note_append to add instead of replace); tags replaces the whole tag list.",
            "NoteUpdateArgs",
        ),
    );
    out.push(
        def(
            "note_delete",
            "Delete a note. Removes both the database row and the per-note projection file.",
            "NoteDeleteArgs",
        ),
    );
    out.push(
        def(
            "note_tags_list",
            "List the project's tag vocabulary: the sorted, deduped union of every tag attached to any todo OR note. Identical output to todo_tags_list - the two surfaces share one project-wide tag pool.",
            "",
        ),
    );
    out.push(
        def(
            "todo_create",
            "Create a new todo with a title. Returns its numeric id.",
            "TodoCreateArgs",
        ),
    );
    out.push(
        def(
            "todo_list",
            "List all todos as a JSON array of {id, title, status, priority, assignee, tags, blockers, comment_count, created_at, updated_at}. Use todo_get for a todo's body and comment thread.",
            "",
        ),
    );
    out.push(
        def(
            "todo_search",
            "Find todos. Optional `query` substring-matches title and body (case-insensitive). Optional status/priority/assignee narrow by exact match (assignee is case-insensitive); pass an empty assignee string to find unassigned todos. Optional `tags` requires every listed tag (AND semantics). Returns the same shape as todo_list; an empty-arg call is equivalent to todo_list.",
            "TodoSearchArgs",
        ),
    );
    out.push(
        def(
            "todo_get",
            "Fetch one todo in full - body, comment thread, blockers and all - addressed by numeric id. `locked_by` is set when an agent holds the `todo:<id>` advisory lock.",
            "TodoGetArgs",
        ),
    );
    out.push(
        def(
            "todo_update",
            "Edit a todo's fields. Every argument but todo_id is optional; an omitted field is left unchanged. status is one of open/in_progress/backlog/draft/completed/not_done, priority one of high/medium/low; tags replaces the whole tag list.",
            "TodoUpdateArgs",
        ),
    );
    out.push(
        def(
            "todo_complete",
            "Mark a todo complete, addressed by numeric id.",
            "TodoCompleteArgs",
        ),
    );
    out.push(
        def(
            "todo_start",
            "Claim a todo for active work: atomically acquires the `todo:<id>` advisory lock, transitions status to `in_progress`, and returns the same full detail as `todo_get`. Use this as the first MCP call when you start work on a todo (e.g. the user asks 'do #N'). Idempotent when you already hold the lock and the todo is `in_progress`. If another agent holds the lock, returns {started: false, held_by} without mutating status. Errors on terminal states (`completed`/`not_done`) - reopen via `todo_update` first.",
            "TodoStartArgs",
        ),
    );
    out.push(
        def(
            "todo_delete",
            "Delete a todo, addressed by numeric id. Its comments and blocker links are removed with it.",
            "TodoDeleteArgs",
        ),
    );
    out.push(
        def(
            "todo_add_blocker",
            "Record that one todo is blocked by another: todo_id is blocked by blocker_id. Both must exist and must differ.",
            "TodoBlockerArgs",
        ),
    );
    out.push(
        def(
            "todo_remove_blocker",
            "Remove a blocker link, so todo_id is no longer blocked by blocker_id.",
            "TodoBlockerArgs",
        ),
    );
    out.push(
        def(
            "todo_comment_add",
            "Add a comment to a todo. The author is the supplied `author`, or - omitted - the calling agent's registered name. Returns the new comment's numeric id.",
            "TodoCommentAddArgs",
        ),
    );
    out.push(
        def(
            "todo_comment_update",
            "Edit an existing comment's body. The author and timestamp are preserved - this is not a re-post.",
            "TodoCommentUpdateArgs",
        ),
    );
    out.push(
        def(
            "todo_comment_delete",
            "Delete a comment from a todo. Comment ids are not reused after deletion - the per-todo counter keeps advancing.",
            "TodoCommentDeleteArgs",
        ),
    );
    out.push(
        def(
            "todo_set_blockers",
            "Replace a todo's blocker set in one call. Equivalent to a diff of todo_add_blocker / todo_remove_blocker, but atomic - used by the cockpit form to avoid a half-applied state.",
            "TodoSetBlockersArgs",
        ),
    );
    out.push(
        def(
            "todo_tags_list",
            "List the project's tag vocabulary: the sorted, deduped union of every tag attached to any todo OR note. The two surfaces share one project-wide tag pool, so this returns identical output to note_tags_list.",
            "",
        ),
    );
    out.push(
        def(
            "todo_lock",
            "Claim a todo as `todo:<id>` in the advisory lock table. A thin wrapper around lock_acquire - non-blocking, returns {acquired: bool, held_by?: name}. Advisory only.",
            "TodoLockArgs",
        ),
    );
    out.push(
        def(
            "todo_unlock",
            "Release the `todo:<id>` advisory lock you hold. Returns {released: bool, held_by?: name}.",
            "TodoUnlockArgs",
        ),
    );
    out.push(
        def(
            "agent_tool_create",
            "Create an agent tool (config layer) - a durable agent configuration this project can spawn processes from. Returns its numeric id.",
            "AgentToolCreateArgs",
        ),
    );
    out.push(
        def(
            "agent_tool_list",
            "List this project's agent tools as a JSON array of {id, name, display_name, command, cwd, tool_type, enabled, position, created_at}.",
            "",
        ),
    );
    out.push(
        def(
            "agent_tool_get",
            "Fetch one agent tool in full, addressed by numeric id.",
            "AgentToolGetArgs",
        ),
    );
    out.push(
        def(
            "agent_tool_update",
            "Edit an agent tool's fields. Every argument but agent_tool_id is optional; an omitted field is left unchanged.",
            "AgentToolUpdateArgs",
        ),
    );
    out.push(
        def(
            "agent_tool_delete",
            "Delete an agent tool, addressed by numeric id. Any processes that reference it keep running; their agent_tool_id back-reference is set to NULL.",
            "AgentToolDeleteArgs",
        ),
    );
    out.push(
        def(
            "process_create",
            "Create a process (instance layer) - a per-project agent/command/ terminal instance. Optionally links to a source agent_tool via agent_tool_id. Returns its numeric id.",
            "ProcessCreateArgs",
        ),
    );
    out.push(
        def(
            "process_list",
            "List this project's processes as a JSON array of {id, kind, name, display_name, command, cwd, position, agent_tool_id, pid, status, agent_state, last_seen, created_at}.",
            "",
        ),
    );
    out.push(
        def(
            "process_get",
            "Fetch one process in full, addressed by numeric id.",
            "ProcessGetArgs",
        ),
    );
    out.push(
        def(
            "process_update",
            "Edit a process's fields. Every argument but process_id is optional; an omitted field is left unchanged.",
            "ProcessUpdateArgs",
        ),
    );
    out.push(
        def(
            "process_delete",
            "Delete a process, addressed by numeric id.",
            "ProcessDeleteArgs",
        ),
    );
    out.push(
        def(
            "id_kind",
            "Given a numeric id, return what kind of resource it is and a short label. Resolves across todos, notes, agent tools, and processes (ids are unified per project so a `#N` reference points to exactly one row). Errors `invalid_params` if the id matches no live (non-soft- deleted) resource.",
            "IdKindArgs",
        ),
    );
    assert(tool_defs(out@) =~= published());
    assert(names_of(out@) =~= tool_names());
    out
}

} // verus!
