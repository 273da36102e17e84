//! The arguments of the tools that the daemon offers to agents.

use vstd::prelude::*;

verus! {

/// The arguments of `note_create`.
#[derive(Debug)]
pub struct NoteCreateArgs {
    /// Human-readable title for the new note.
    pub title: String,
}

/// The arguments of `note_append`.
#[derive(Debug)]
pub struct NoteAppendArgs {
    /// Numeric id of the note to append to.
    pub note_id: u64,
    /// Text to append. It is placed on its own line after existing content.
    pub content: String,
}

/// The arguments of `note_read`.
#[derive(Debug)]
pub struct NoteReadArgs {
    /// Numeric id of the note to read.
    pub note_id: u64,
}

/// The arguments of `note_get`.
#[derive(Debug)]
pub struct NoteGetArgs {
    /// Numeric id of the note to fetch in full.
    pub note_id: u64,
}

/// The arguments of `note_update`.
#[derive(Debug)]
pub struct NoteUpdateArgs {
    /// Numeric id of the note to edit.
    pub note_id: u64,
    /// New title. Omit to leave unchanged.
    pub title: Option<String>,
    /// Replacement body. Replaces the existing body in full. Omit to leave
    /// unchanged.
    pub body: Option<String>,
    /// New complete tag list, replacing the old one. Tags share a project-wide
    /// vocabulary with todos (see `note_tags_list`). Omit to leave
    /// unchanged.
    pub tags: Option<Vec<String>>,
}

/// The arguments of `note_delete`.
#[derive(Debug)]
pub struct NoteDeleteArgs {
    /// Numeric id of the note to delete.
    pub note_id: u64,
}

/// The arguments of `note_search`.
#[derive(Debug)]
pub struct NoteSearchArgs {
    /// Case-insensitive substring matched against title and body. Omit to
    /// match every note (subject to other filters).
    pub query: Option<String>,
    /// Require every listed tag to be present on the note (AND
    /// semantics). Omit or pass an empty list to skip the tag filter.
    pub tags: Option<Vec<String>>,
}

/// The arguments of `todo_create`.
#[derive(Debug)]
pub struct TodoCreateArgs {
    /// Short description of the todo.
    pub title: String,
    /// Free-form description body. Omit for an empty body.
    pub body: Option<String>,
    /// Initial status: one of open, in_progress, backlog, draft, completed,
    /// not_done. Omit to default to open.
    pub status: Option<String>,
    /// Priority: one of high, medium, low. Omit to default to medium.
    pub priority: Option<String>,
    /// Assignee name. Omit to leave unassigned.
    pub assignee: Option<String>,
    /// Initial tag list. Omit for no tags.
    pub tags: Option<Vec<String>>,
}

/// The arguments of `todo_complete`.
#[derive(Debug)]
pub struct TodoCompleteArgs {
    /// Numeric id of the todo to mark complete.
    pub todo_id: u64,
}

/// The arguments of `todo_start`.
#[derive(Debug)]
pub struct TodoStartArgs {
    /// Numeric id of the todo to claim and transition to `in_progress`.
    pub todo_id: u64,
    /// Optional reason, forwarded to the `todo:<id>` advisory lock and shown
    /// to other agents in `lock_status`.
    pub note: Option<String>,
}

/// The arguments of `todo_get`.
#[derive(Debug)]
pub struct TodoGetArgs {
    /// Numeric id of the todo to fetch.
    pub todo_id: u64,
}

/// The arguments of `id_kind`.
#[derive(Debug)]
pub struct IdKindArgs {
    /// Numeric id to resolve to its resource kind.
    pub id: u64,
}

/// The arguments of `todo_delete`.
#[derive(Debug)]
pub struct TodoDeleteArgs {
    /// Numeric id of the todo to delete. Its comments and blocker links go too.
    pub todo_id: u64,
}

/// The arguments of `todo_update`.
#[derive(Debug)]
pub struct TodoUpdateArgs {
    /// Numeric id of the todo to edit.
    pub todo_id: u64,
    /// New title. Omit to leave unchanged.
    pub title: Option<String>,
    /// New free-form description body. Omit to leave unchanged.
    pub body: Option<String>,
    /// New status: one of open, in_progress, backlog, draft, completed,
    /// not_done. Omit to leave unchanged.
    pub status: Option<String>,
    /// New priority: one of high, medium, low. Omit to leave unchanged.
    pub priority: Option<String>,
    /// New assignee name. Absent leaves it unchanged; present and empty clears
    /// it.
    pub assignee: Option<Option<String>>,
    /// New complete tag list, replacing the old one. Omit to leave unchanged.
    pub tags: Option<Vec<String>>,
}

/// The arguments of `todo_search`.
#[derive(Debug)]
pub struct TodoSearchArgs {
    /// Case-insensitive substring matched against title and body. Omit to
    /// match every todo (subject to other filters).
    pub query: Option<String>,
    /// Restrict to this status. One of open, in_progress, backlog, draft,
    /// completed, not_done. Omit to ignore status.
    pub status: Option<String>,
    /// Restrict to this priority. One of high, medium, low. Omit to ignore
    /// priority.
    pub priority: Option<String>,
    /// Case-insensitive exact match on assignee name. Pass an empty string
    /// to match only unassigned todos; omit to ignore assignee.
    pub assignee: Option<String>,
    /// Require every listed tag to be present on the todo (AND semantics).
    /// Omit or pass an empty list to skip the tag filter.
    pub tags: Option<Vec<String>>,
}

/// The arguments of `todo_add_blocker` and `todo_remove_blocker`.
#[derive(Debug)]
pub struct TodoBlockerArgs {
    /// Numeric id of the blocked todo.
    pub todo_id: u64,
    /// Numeric id of the todo that blocks it.
    pub blocker_id: u64,
}

/// The arguments of `todo_comment_add`.
#[derive(Debug)]
pub struct TodoCommentAddArgs {
    /// Numeric id of the todo to comment on.
    pub todo_id: u64,
    /// Comment text.
    pub body: String,
    /// Author name to record. Omit to use the calling agent's registered name;
    /// a non-agent caller (the `panopt` CLI) supplies this explicitly.
    pub author: Option<String>,
}

/// The arguments of `todo_comment_update`.
#[derive(Debug)]
pub struct TodoCommentUpdateArgs {
    /// Numeric id of the todo the comment lives on.
    pub todo_id: u64,
    /// Numeric id of the comment to edit (per-todo, restarts at 1 in each todo).
    pub comment_id: u64,
    /// Replacement body. The author and timestamp are preserved.
    pub body: String,
}

/// The arguments of `todo_comment_delete`.
#[derive(Debug)]
pub struct TodoCommentDeleteArgs {
    /// Numeric id of the todo the comment lives on.
    pub todo_id: u64,
    /// Numeric id of the comment to delete.
    pub comment_id: u64,
}

/// The arguments of `todo_set_blockers`.
#[derive(Debug)]
pub struct TodoSetBlockersArgs {
    /// Numeric id of the todo whose blocker set is being replaced.
    pub todo_id: u64,
    /// Replacement set of blocker ids. May be empty to clear all blockers.
    pub blocker_ids: Vec<u64>,
}

/// The arguments of `todo_lock`.
#[derive(Debug)]
pub struct TodoLockArgs {
    /// Numeric id of the todo to claim. The advisory lock name is `todo:<id>`.
    pub todo_id: u64,
    /// Optional reason, shown to other agents in `lock_status`.
    pub note: Option<String>,
}

/// The arguments of `todo_unlock`.
#[derive(Debug)]
pub struct TodoUnlockArgs {
    /// Numeric id of the todo whose lock to release.
    pub todo_id: u64,
}

/// The arguments of `agent_tool_create`.
#[derive(Debug)]
pub struct AgentToolCreateArgs {
    /// Identifier-style name for the tool (e.g. "codex").
    pub name: String,
    /// Optional human label shown in the cockpit. Omit to use `name`.
    pub display_name: Option<String>,
    /// Shell command this tool launches when a process is spawned from it.
    pub command: Option<String>,
    /// Working directory passed to the launched command. Omit to use project root.
    pub cwd: Option<String>,
    /// Free-form tag for future categorization. Defaults to "agent".
    pub tool_type: Option<String>,
    /// Per-config system prompt the spawn template can land into a launch flag
    /// or file. Omit for an empty prompt (the agent's own default).
    pub system_prompt: Option<String>,
    /// Whether the tool is offered in spawn UIs. Defaults to true.
    pub enabled: Option<bool>,
}

/// The arguments of `agent_tool_get`.
#[derive(Debug)]
pub struct AgentToolGetArgs {
    /// Numeric id of the agent tool to fetch.
    pub agent_tool_id: u64,
}

/// The arguments of `agent_tool_update`.
#[derive(Debug)]
pub struct AgentToolUpdateArgs {
    /// Numeric id of the agent tool to edit.
    pub agent_tool_id: u64,
    /// New name. Omit to leave unchanged.
    pub name: Option<String>,
    /// New display label. Omit to leave unchanged.
    pub display_name: Option<String>,
    /// New launch command. Omit to leave unchanged.
    pub command: Option<String>,
    /// New working directory. Omit to leave unchanged.
    pub cwd: Option<String>,
    /// New tool_type tag. Omit to leave unchanged.
    pub tool_type: Option<String>,
    /// New system prompt. Omit to leave unchanged.
    pub system_prompt: Option<String>,
    /// New enabled flag. Omit to leave unchanged.
    pub enabled: Option<bool>,
    /// New sort position. Omit to leave unchanged.
    pub position: Option<i64>,
}

/// The arguments of `agent_tool_delete`.
#[derive(Debug)]
pub struct AgentToolDeleteArgs {
    /// Numeric id of the agent tool to delete.
    pub agent_tool_id: u64,
}

/// The arguments of `process_create`.
#[derive(Debug)]
pub struct ProcessCreateArgs {
    /// Kind of process: one of agent, command, terminal.
    pub kind: String,
    /// Identifier-style name for the process.
    pub name: String,
    /// Optional human label shown in the cockpit. Omit to use `name`.
    pub display_name: Option<String>,
    /// Shell command the process executes. Omit for a bare terminal.
    pub command: Option<String>,
    /// Working directory for the process. Omit to use project root.
    pub cwd: Option<String>,
    /// Numeric id of the agent tool this process was spawned from. Omit for
    /// command and terminal processes that have no backing config.
    pub agent_tool_id: Option<u64>,
}

/// The arguments of `process_get`.
#[derive(Debug)]
pub struct ProcessGetArgs {
    /// Numeric id of the process to fetch.
    pub process_id: u64,
}

/// The arguments of `process_update`.
#[derive(Debug)]
pub struct ProcessUpdateArgs {
    /// Numeric id of the process to edit.
    pub process_id: u64,
    /// New name. Omit to leave unchanged.
    pub name: Option<String>,
    /// New display label. Omit to leave unchanged.
    pub display_name: Option<String>,
    /// New launch command. Omit to leave unchanged.
    pub command: Option<String>,
    /// New working directory. Omit to leave unchanged.
    pub cwd: Option<String>,
    /// New sort position. Omit to leave unchanged.
    pub position: Option<i64>,
}

/// The arguments of `process_delete`.
#[derive(Debug)]
pub struct ProcessDeleteArgs {
    /// Numeric id of the process to delete.
    pub process_id: u64,
}

/// The arguments of `process_start`.
#[derive(Debug)]
pub struct ProcessStartArgs {
    /// Numeric id of the agent config (agent_tool) to start an instance of.
    pub agent_tool_id: u64,
    /// Per-launch display name for this instance. Overrides the config's name
    /// for this run only - the durable config is never touched. Omit to inherit
    /// the config's name.
    pub name: Option<String>,
    /// Per-launch extra arguments appended to the rendered spawn command for
    /// this instance only. Copied onto the instance, never written back to the
    /// config, so two launches of the same config can differ. Omit for none.
    pub extra_args: Option<Vec<String>>,
}

/// The arguments of `spawn_agent`.
#[derive(Debug)]
pub struct SpawnAgentArgs {
    /// Id of an existing agent config to start an instance of. Omit for an
    /// ad-hoc spawn, in which case a fresh config is created from `tool_type`.
    pub agent_tool_id: Option<u64>,
    /// Agent type for an ad-hoc spawn (e.g. `codex`). Ignored when
    /// `agent_tool_id` is given. Defaults to the standard agent type.
    pub tool_type: Option<String>,
    /// Display name for the spawned agent. For an ad-hoc spawn this names the
    /// created config; for a config-backed spawn it overrides the instance's
    /// name for this run only.
    pub name: Option<String>,
    /// Opening task to hand the spawned agent: queued as its first input and
    /// typed into its pane once it is live. Omit to spawn an idle agent.
    pub prompt: Option<String>,
    /// Per-launch extra arguments appended to the spawn command for this
    /// instance only, never written back to the config.
    pub extra_args: Option<Vec<String>>,
    /// Opt-in idle auto-reap window, in seconds. When set, the daemon stops and
    /// deletes this instance once it has sat idle for at least this long - a
    /// safety valve for fire-and-forget sub-agents. Omit (the default) and the
    /// agent is never auto-killed: an idle-but-live agent you want to keep around
    /// is left running. Use for one-shot children you do not plan to reuse.
    pub idle_ttl_secs: Option<u64>,
}

/// The arguments of `send_input`.
#[derive(Debug)]
pub struct SendInputArgs {
    /// Numeric id of the running instance (process) to type input into.
    pub process_id: u64,
    /// The text to write into the agent's pane. A trailing newline submits it,
    /// the same as if a human typed it.
    pub input: String,
}

/// The arguments of `input_ack`.
#[derive(Debug)]
pub struct InputAckArgs {
    /// Queue id (`seq`) of the delivered input, from the input projection.
    /// Cockpit-internal: the sidebar plugin calls this after writing the input
    /// into the pane, so the daemon drops it from the queue.
    pub seq: i64,
}

/// The arguments of `wait_for_idle`.
#[derive(Debug)]
pub struct WaitForIdleArgs {
    /// Numeric ids of the running instances (processes) to wait on - typically
    /// the `process_id`s of agents you spawned.
    pub process_ids: Vec<u64>,
    /// How long to block before returning, in milliseconds. Capped server-side
    /// (a few minutes); if the cap or this value elapses first the call returns
    /// with `timed_out: true` and you can call again. Defaults to ~60s.
    pub timeout_ms: Option<u64>,
    /// "all" (default) returns once every listed process is idle or gone; "any"
    /// returns as soon as one is.
    pub mode: Option<String>,
}

/// The arguments of `process_output`.
#[derive(Debug)]
pub struct ProcessOutputArgs {
    /// Numeric id of the instance (process) whose pane output to read.
    pub process_id: u64,
    /// How many of the most recent rendered terminal rows to return. Defaults to
    /// a recent window; the capture is bounded, so older scrollback is not kept.
    pub lines: Option<u64>,
}

/// The arguments of `search_output`.
#[derive(Debug)]
pub struct SearchOutputArgs {
    /// Numeric id of the instance (process) whose pane output to search.
    pub process_id: u64,
    /// Substring to look for in the captured pane output (e.g. a sentinel the
    /// child was told to print). Returns the matching rows.
    pub pattern: String,
}

/// The arguments of `process_stop`.
#[derive(Debug)]
pub struct ProcessStopArgs {
    /// Numeric id of the process (instance) to stop.
    pub process_id: u64,
}

/// The arguments of `process_report`.
#[derive(Debug)]
pub struct ProcessReportArgs {
    /// Numeric id of the process (instance) being reported on.
    pub process_id: u64,
    /// OS process id of the live instance. Setting it flips the row to
    /// `running`. Reported by the edge wrapper, whose pid survives its exec
    /// into the agent.
    pub pid: Option<i64>,
    /// Opaque identifier of the pane the instance landed in. Reported
    /// best-effort by the cockpit plugin. Omit to leave unchanged.
    pub pane_id: Option<String>,
    /// Latest derived agent activity state. Omit to leave unchanged.
    pub agent_state: Option<String>,
}

/// The arguments of `identify`.
#[derive(Debug)]
pub struct IdentifyArgs {
    /// Human-readable name for this agent, shown to others in the registry.
    pub name: String,
    /// Optional free-form status, for example "implementing auth" or "blocked".
    pub status: Option<String>,
}

/// The arguments of `lock_acquire`.
#[derive(Debug)]
pub struct LockAcquireArgs {
    /// Name of the advisory lock to acquire - an agreed-on string such as a
    /// path, a task, or a phase of work.
    pub name: String,
    /// Optional reason for holding the lock, shown to other agents.
    pub note: Option<String>,
}

/// The arguments of `lock_release`.
#[derive(Debug)]
pub struct LockReleaseArgs {
    /// Name of the advisory lock to release.
    pub name: String,
}

} // verus!
