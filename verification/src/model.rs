//! Plain data types of the shared state.

use vstd::prelude::*;
use vstd::string::*;

use crate::text;

verus! {

/// Handle to a project.
#[derive(Debug, Clone, Copy, PartialEq, Eq, Hash, Structural)]
pub struct ProjectId(pub i64);

/// Where a todo stands in its life. `Completed` and `NotDone` are terminal;
/// only `Completed` counts as done.
#[derive(Debug, Clone, Copy, PartialEq, Eq, Structural)]
pub enum TodoStatus {
    Open,
    InProgress,
    Backlog,
    Draft,
    Completed,
    NotDone,
}

impl Default for TodoStatus {
    fn default() -> (s: TodoStatus)
        ensures
            s == TodoStatus::Open,
    {
        TodoStatus::Open
    }
}

impl TodoStatus {
    /// The token of a status.
    pub open spec fn token(self) -> Seq<char> {
        match self {
            TodoStatus::Open => "open"@,
            TodoStatus::InProgress => "in_progress"@,
            TodoStatus::Backlog => "backlog"@,
            TodoStatus::Draft => "draft"@,
            TodoStatus::Completed => "completed"@,
            TodoStatus::NotDone => "not_done"@,
        }
    }

    /// No two statuses share a token.
    pub proof fn law_tokens_distinct(a: TodoStatus, b: TodoStatus)
        ensures
            a.token() == b.token() ==> a == b,
    {
        reveal_strlit("open");
        reveal_strlit("in_progress");
        reveal_strlit("backlog");
        reveal_strlit("draft");
        reveal_strlit("completed");
        reveal_strlit("not_done");
        assert("open"@[0] == 'o' && "in_progress"@[0] == 'i' && "backlog"@[0] == 'b' && "draft"@[0]
            == 'd' && "completed"@[0] == 'c' && "not_done"@[0] == 'n');
    }

    /// The token of the status.
    pub fn as_str(self) -> (r: &'static str)
        ensures
            r@ == self.token(),
    {
        match self {
            TodoStatus::Open => "open",
            TodoStatus::InProgress => "in_progress",
            TodoStatus::Backlog => "backlog",
            TodoStatus::Draft => "draft",
            TodoStatus::Completed => "completed",
            TodoStatus::NotDone => "not_done",
        }
    }

    /// The status with a token.
    pub fn parse(s: &str) -> (r: Option<TodoStatus>)
        ensures
            match r {
                Some(t) => s@ == t.token(),
                None => forall|t: TodoStatus| s@ != #[trigger] t.token(),
            },
    {
        if text::same(s, "open") {
            Some(TodoStatus::Open)
        } else if text::same(s, "in_progress") {
            Some(TodoStatus::InProgress)
        } else if text::same(s, "backlog") {
            Some(TodoStatus::Backlog)
        } else if text::same(s, "draft") {
            Some(TodoStatus::Draft)
        } else if text::same(s, "completed") {
            Some(TodoStatus::Completed)
        } else if text::same(s, "not_done") {
            Some(TodoStatus::NotDone)
        } else {
            None
        }
    }
}

/// How important a todo is.
#[derive(Debug, Clone, Copy, PartialEq, Eq, Structural)]
pub enum Priority {
    High,
    Medium,
    Low,
}

impl Default for Priority {
    fn default() -> (p: Priority)
        ensures
            p == Priority::Medium,
    {
        Priority::Medium
    }
}

impl Priority {
    /// The token of a priority.
    pub open spec fn token(self) -> Seq<char> {
        match self {
            Priority::High => "high"@,
            Priority::Medium => "medium"@,
            Priority::Low => "low"@,
        }
    }

    /// No two priorities share a token.
    pub proof fn law_tokens_distinct(a: Priority, b: Priority)
        ensures
            a.token() == b.token() ==> a == b,
    {
        reveal_strlit("high");
        reveal_strlit("medium");
        reveal_strlit("low");
        assert("high"@[0] == 'h' && "medium"@[0] == 'm' && "low"@[0] == 'l');
    }

    /// The token of the priority.
    pub fn as_str(self) -> (r: &'static str)
        ensures
            r@ == self.token(),
    {
        match self {
            Priority::High => "high",
            Priority::Medium => "medium",
            Priority::Low => "low",
        }
    }

    /// The priority with a token.
    pub fn parse(s: &str) -> (r: Option<Priority>)
        ensures
            match r {
                Some(p) => s@ == p.token(),
                None => forall|p: Priority| s@ != #[trigger] p.token(),
            },
    {
        if text::same(s, "high") {
            Some(Priority::High)
        } else if text::same(s, "medium") {
            Some(Priority::Medium)
        } else if text::same(s, "low") {
            Some(Priority::Low)
        } else {
            None
        }
    }
}

/// What a process is.
#[derive(Debug, Clone, Copy, PartialEq, Eq, Structural)]
pub enum ProcessKind {
    Agent,
    Command,
    Terminal,
}

impl Default for ProcessKind {
    fn default() -> (k: ProcessKind)
        ensures
            k == ProcessKind::Agent,
    {
        ProcessKind::Agent
    }
}

impl ProcessKind {
    /// The token of a kind.
    pub open spec fn token(self) -> Seq<char> {
        match self {
            ProcessKind::Agent => "agent"@,
            ProcessKind::Command => "command"@,
            ProcessKind::Terminal => "terminal"@,
        }
    }

    /// No two kinds share a token.
    pub proof fn law_tokens_distinct(a: ProcessKind, b: ProcessKind)
        ensures
            a.token() == b.token() ==> a == b,
    {
        reveal_strlit("agent");
        reveal_strlit("command");
        reveal_strlit("terminal");
        assert("agent"@[0] == 'a' && "command"@[0] == 'c' && "terminal"@[0] == 't');
    }

    /// The token of the kind.
    pub fn as_str(self) -> (r: &'static str)
        ensures
            r@ == self.token(),
    {
        match self {
            ProcessKind::Agent => "agent",
            ProcessKind::Command => "command",
            ProcessKind::Terminal => "terminal",
        }
    }

    /// The kind with a token.
    pub fn parse(s: &str) -> (r: Option<ProcessKind>)
        ensures
            match r {
                Some(k) => s@ == k.token(),
                None => forall|k: ProcessKind| s@ != #[trigger] k.token(),
            },
    {
        if text::same(s, "agent") {
            Some(ProcessKind::Agent)
        } else if text::same(s, "command") {
            Some(ProcessKind::Command)
        } else if text::same(s, "terminal") {
            Some(ProcessKind::Terminal)
        } else {
            None
        }
    }
}

/// How the registry came to know an agent: by a stable id that it declared, or
/// by the rotating key of a session.
#[derive(Debug, Clone, Copy, PartialEq, Eq, Structural)]
pub enum KeySource {
    Declared,
    Session,
}

impl KeySource {
    /// The token of a source.
    pub open spec fn token(self) -> Seq<char> {
        match self {
            KeySource::Declared => "declared"@,
            KeySource::Session => "session"@,
        }
    }

    /// The token of the source.
    pub fn as_str(self) -> (r: &'static str)
        ensures
            r@ == self.token(),
    {
        match self {
            KeySource::Declared => "declared",
            KeySource::Session => "session",
        }
    }
}

// ---------------------------------------------------------------------------
// Notes
// ---------------------------------------------------------------------------

/// A shared, append-oriented note.
#[derive(Debug)]
pub struct Note {
    pub id: u64,
    pub title: String,
    pub body: String,
    pub tags: Vec<String>,
    pub created_at: String,
    pub updated_at: String,
}

/// A note under its older name.
pub type Scratchpad = Note;

/// The contents of a [`Note`].
pub struct NoteView {
    pub id: u64,
    pub title: Seq<char>,
    pub body: Seq<char>,
    pub tags: Seq<Seq<char>>,
    pub created_at: Seq<char>,
    pub updated_at: Seq<char>,
}

impl View for Note {
    type V = NoteView;

    open spec fn view(&self) -> NoteView {
        NoteView {
            id: self.id,
            title: self.title@,
            body: self.body@,
            tags: text::texts(self.tags@),
            created_at: self.created_at@,
            updated_at: self.updated_at@,
        }
    }
}

impl Note {
    /// A copy.
    pub fn copy(&self) -> (r: Note)
        ensures
            r@ == self@,
    {
        Note {
            id: self.id,
            title: self.title.clone(),
            body: self.body.clone(),
            tags: text::copy_texts(&self.tags),
            created_at: self.created_at.clone(),
            updated_at: self.updated_at.clone(),
        }
    }
}

impl Default for Note {
    fn default() -> (n: Note)
        ensures
            n.id == 0,
            n.title@.len() == 0 && n.body@.len() == 0 && n.tags@.len() == 0,
            n.created_at@.len() == 0 && n.updated_at@.len() == 0,
    {
        Note {
            id: 0,
            title: String::new(),
            body: String::new(),
            tags: Vec::new(),
            created_at: String::new(),
            updated_at: String::new(),
        }
    }
}

/// Edits of a note: what is there replaces, what is not leaves as it is.
#[derive(Debug)]
pub struct NotePatch {
    pub title: Option<String>,
    pub body: Option<String>,
    pub tags: Option<Vec<String>>,
}

/// Edits of a note under its older name.
pub type ScratchpadPatch = NotePatch;

impl Default for NotePatch {
    fn default() -> (p: NotePatch)
        ensures
            p.title is None && p.body is None && p.tags is None,
    {
        NotePatch { title: None, body: None, tags: None }
    }
}

// ---------------------------------------------------------------------------
// Todos
// ---------------------------------------------------------------------------

/// A comment on a todo.
#[derive(Debug)]
pub struct TodoComment {
    /// Unique within the todo.
    pub id: u64,
    pub author: String,
    pub body: String,
    pub created_at: String,
}

/// The contents of a [`TodoComment`].
pub struct TodoCommentView {
    pub id: u64,
    pub author: Seq<char>,
    pub body: Seq<char>,
    pub created_at: Seq<char>,
}

impl View for TodoComment {
    type V = TodoCommentView;

    open spec fn view(&self) -> TodoCommentView {
        TodoCommentView {
            id: self.id,
            author: self.author@,
            body: self.body@,
            created_at: self.created_at@,
        }
    }
}

impl TodoComment {
    /// A copy.
    pub fn copy(&self) -> (r: TodoComment)
        ensures
            r@ == self@,
    {
        TodoComment {
            id: self.id,
            author: self.author.clone(),
            body: self.body.clone(),
            created_at: self.created_at.clone(),
        }
    }
}

/// The contents of comments.
pub open spec fn comment_views(v: Seq<TodoComment>) -> Seq<TodoCommentView> {
    v.map_values(|c: TodoComment| c@)
}

/// Copies of comments.
pub fn copy_comments(v: &Vec<TodoComment>) -> (out: Vec<TodoComment>)
    ensures
        comment_views(out@) == comment_views(v@),
{
    let mut out: Vec<TodoComment> = Vec::new();
    let mut i: usize = 0;
    while i < v.len()
        invariant
            i <= v.len(),
            comment_views(out@) == comment_views(v@).take(i as int),
        decreases v.len() - i,
    {
        let ghost before = out@;
        let c = v[i].copy();
        out.push(c);
        proof {
            assert(comment_views(out@) =~= comment_views(before).push(c@));
            assert(comment_views(v@).take(i + 1) =~= comment_views(v@).take(i as int).push(c@));
        }
        i += 1;
    }
    assert(comment_views(v@).take(i as int) =~= comment_views(v@));
    out
}

/// Copies of numbers.
pub fn copy_ids(v: &Vec<u64>) -> (out: Vec<u64>)
    ensures
        out@ == v@,
{
    let mut out: Vec<u64> = Vec::new();
    let mut i: usize = 0;
    while i < v.len()
        invariant
            i <= v.len(),
            out@ == v@.take(i as int),
        decreases v.len() - i,
    {
        out.push(v[i]);
        assert(v@.take(i + 1) =~= v@.take(i as int).push(v@[i as int]));
        i += 1;
    }
    assert(v@.take(i as int) =~= v@);
    out
}

/// A todo.
#[derive(Debug)]
pub struct Todo {
    pub id: u64,
    pub title: String,
    pub body: String,
    pub status: TodoStatus,
    pub priority: Priority,
    /// Empty while nobody is assigned.
    pub assignee: String,
    pub tags: Vec<String>,
    /// The todos that block this one.
    pub blockers: Vec<u64>,
    pub comments: Vec<TodoComment>,
    pub created_at: String,
    pub updated_at: String,
    /// Set while the todo is completed.
    pub completed_at: Option<String>,
}

/// The contents of a [`Todo`].
pub struct TodoView {
    pub id: u64,
    pub title: Seq<char>,
    pub body: Seq<char>,
    pub status: TodoStatus,
    pub priority: Priority,
    pub assignee: Seq<char>,
    pub tags: Seq<Seq<char>>,
    pub blockers: Seq<u64>,
    pub comments: Seq<TodoCommentView>,
    pub created_at: Seq<char>,
    pub updated_at: Seq<char>,
    pub completed_at: Option<Seq<char>>,
}

impl View for Todo {
    type V = TodoView;

    open spec fn view(&self) -> TodoView {
        TodoView {
            id: self.id,
            title: self.title@,
            body: self.body@,
            status: self.status,
            priority: self.priority,
            assignee: self.assignee@,
            tags: text::texts(self.tags@),
            blockers: self.blockers@,
            comments: comment_views(self.comments@),
            created_at: self.created_at@,
            updated_at: self.updated_at@,
            completed_at: text::opt_text(self.completed_at),
        }
    }
}

impl Todo {
    /// A copy.
    pub fn copy(&self) -> (r: Todo)
        ensures
            r@ == self@,
    {
        Todo {
            id: self.id,
            title: self.title.clone(),
            body: self.body.clone(),
            status: self.status,
            priority: self.priority,
            assignee: self.assignee.clone(),
            tags: text::copy_texts(&self.tags),
            blockers: copy_ids(&self.blockers),
            comments: copy_comments(&self.comments),
            created_at: self.created_at.clone(),
            updated_at: self.updated_at.clone(),
            completed_at: copy_opt(&self.completed_at),
        }
    }
}

impl Default for Todo {
    fn default() -> (t: Todo)
        ensures
            t.id == 0,
            t.status == TodoStatus::Open,
            t.priority == Priority::Medium,
            t.title@.len() == 0 && t.body@.len() == 0 && t.assignee@.len() == 0,
            t.tags@.len() == 0 && t.blockers@.len() == 0 && t.comments@.len() == 0,
            t.created_at@.len() == 0 && t.updated_at@.len() == 0 && t.completed_at is None,
    {
        Todo {
            id: 0,
            title: String::new(),
            body: String::new(),
            status: TodoStatus::Open,
            priority: Priority::Medium,
            assignee: String::new(),
            tags: Vec::new(),
            blockers: Vec::new(),
            comments: Vec::new(),
            created_at: String::new(),
            updated_at: String::new(),
            completed_at: None,
        }
    }
}

/// The contents of todos.
pub open spec fn todo_views(v: Seq<Todo>) -> Seq<TodoView> {
    v.map_values(|t: Todo| t@)
}

/// A copy of a text that may be there.
pub fn copy_opt(o: &Option<String>) -> (r: Option<String>)
    ensures
        text::opt_text(r) == text::opt_text(*o),
{
    match o {
        Some(s) => Some(s.clone()),
        None => None,
    }
}

/// Edits of a todo: what is there replaces, what is not leaves as it is.
#[derive(Debug)]
pub struct TodoPatch {
    pub title: Option<String>,
    pub body: Option<String>,
    pub status: Option<TodoStatus>,
    pub priority: Option<Priority>,
    pub assignee: Option<String>,
    pub tags: Option<Vec<String>>,
}

impl Default for TodoPatch {
    fn default() -> (p: TodoPatch)
        ensures
            p.title is None && p.body is None && p.status is None,
            p.priority is None && p.assignee is None && p.tags is None,
    {
        TodoPatch {
            title: None,
            body: None,
            status: None,
            priority: None,
            assignee: None,
            tags: None,
        }
    }
}

/// A text after an edit.
pub open spec fn edited(o: Option<String>, was: Seq<char>) -> Seq<char> {
    match o {
        Some(s) => s@,
        None => was,
    }
}

/// Texts after an edit.
pub open spec fn edited_all(o: Option<Vec<String>>, was: Seq<Seq<char>>) -> Seq<Seq<char>> {
    match o {
        Some(v) => text::texts(v@),
        None => was,
    }
}

/// A value after an edit.
pub open spec fn replaced<T>(o: Option<T>, was: T) -> T {
    match o {
        Some(v) => v,
        None => was,
    }
}

/// A text that may be there, after an edit that can take it away.
pub open spec fn edited_opt(o: Option<Option<String>>, was: Option<Seq<char>>) -> Option<Seq<char>> {
    match o {
        Some(v) => text::opt_text(v),
        None => was,
    }
}

// ---------------------------------------------------------------------------
// Agent tools and processes
// ---------------------------------------------------------------------------

/// The configuration of an agent. One configuration can back many processes.
#[derive(Debug)]
pub struct AgentTool {
    pub id: u64,
    pub name: String,
    /// The name falls in where this is empty.
    pub display_name: String,
    pub command: String,
    /// The project's root where this is empty.
    pub cwd: String,
    /// The type of agent.
    pub tool_type: String,
    pub system_prompt: String,
    pub enabled: bool,
    pub position: i64,
    pub created_at: String,
}

/// The contents of an [`AgentTool`].
pub struct AgentToolView {
    pub id: u64,
    pub name: Seq<char>,
    pub display_name: Seq<char>,
    pub command: Seq<char>,
    pub cwd: Seq<char>,
    pub tool_type: Seq<char>,
    pub system_prompt: Seq<char>,
    pub enabled: bool,
    pub position: i64,
    pub created_at: Seq<char>,
}

impl View for AgentTool {
    type V = AgentToolView;

    open spec fn view(&self) -> AgentToolView {
        AgentToolView {
            id: self.id,
            name: self.name@,
            display_name: self.display_name@,
            command: self.command@,
            cwd: self.cwd@,
            tool_type: self.tool_type@,
            system_prompt: self.system_prompt@,
            enabled: self.enabled,
            position: self.position,
            created_at: self.created_at@,
        }
    }
}

impl AgentTool {
    /// A copy.
    pub fn copy(&self) -> (r: AgentTool)
        ensures
            r@ == self@,
    {
        AgentTool {
            id: self.id,
            name: self.name.clone(),
            display_name: self.display_name.clone(),
            command: self.command.clone(),
            cwd: self.cwd.clone(),
            tool_type: self.tool_type.clone(),
            system_prompt: self.system_prompt.clone(),
            enabled: self.enabled,
            position: self.position,
            created_at: self.created_at.clone(),
        }
    }
}

impl Default for AgentTool {
    fn default() -> (t: AgentTool)
        ensures
            t.id == 0 && !t.enabled && t.position == 0,
            t.name@.len() == 0 && t.display_name@.len() == 0 && t.command@.len() == 0,
            t.cwd@.len() == 0 && t.tool_type@.len() == 0 && t.system_prompt@.len() == 0,
            t.created_at@.len() == 0,
    {
        AgentTool {
            id: 0,
            name: String::new(),
            display_name: String::new(),
            command: String::new(),
            cwd: String::new(),
            tool_type: String::new(),
            system_prompt: String::new(),
            enabled: false,
            position: 0,
            created_at: String::new(),
        }
    }
}

/// The contents of agent tools.
pub open spec fn tool_views(v: Seq<AgentTool>) -> Seq<AgentToolView> {
    v.map_values(|t: AgentTool| t@)
}

/// Edits of an agent tool.
#[derive(Debug)]
pub struct AgentToolPatch {
    pub name: Option<String>,
    pub display_name: Option<String>,
    pub command: Option<String>,
    pub cwd: Option<String>,
    pub tool_type: Option<String>,
    pub system_prompt: Option<String>,
    pub enabled: Option<bool>,
    pub position: Option<i64>,
}

impl Default for AgentToolPatch {
    fn default() -> (p: AgentToolPatch)
        ensures
            p.name is None && p.display_name is None && p.command is None && p.cwd is None,
            p.tool_type is None && p.system_prompt is None && p.enabled is None,
            p.position is None,
    {
        AgentToolPatch {
            name: None,
            display_name: None,
            command: None,
            cwd: None,
            tool_type: None,
            system_prompt: None,
            enabled: None,
            position: None,
        }
    }
}

/// A process: an instance of an agent, a command or a terminal.
#[derive(Debug)]
pub struct Process {
    pub id: u64,
    pub kind: ProcessKind,
    pub name: String,
    pub display_name: String,
    pub command: String,
    pub cwd: String,
    pub position: i64,
    /// The configuration it was started from.
    pub agent_tool_id: Option<u64>,
    pub pid: Option<i64>,
    pub pane_id: Option<String>,
    /// `starting`, `running`, `stopped` or `exited`.
    pub status: Option<String>,
    /// What the agent is doing.
    pub agent_state: Option<String>,
    pub last_seen: Option<String>,
    /// Since when the agent is doing it, in seconds.
    pub state_since: Option<i64>,
    pub created_at: String,
    /// Arguments of this launch only.
    pub extra_args: Vec<String>,
}

/// The contents of a [`Process`].
pub struct ProcessView {
    pub id: u64,
    pub kind: ProcessKind,
    pub name: Seq<char>,
    pub display_name: Seq<char>,
    pub command: Seq<char>,
    pub cwd: Seq<char>,
    pub position: i64,
    pub agent_tool_id: Option<u64>,
    pub pid: Option<i64>,
    pub pane_id: Option<Seq<char>>,
    pub status: Option<Seq<char>>,
    pub agent_state: Option<Seq<char>>,
    pub last_seen: Option<Seq<char>>,
    pub state_since: Option<i64>,
    pub created_at: Seq<char>,
    pub extra_args: Seq<Seq<char>>,
}

impl View for Process {
    type V = ProcessView;

    open spec fn view(&self) -> ProcessView {
        ProcessView {
            id: self.id,
            kind: self.kind,
            name: self.name@,
            display_name: self.display_name@,
            command: self.command@,
            cwd: self.cwd@,
            position: self.position,
            agent_tool_id: self.agent_tool_id,
            pid: self.pid,
            pane_id: text::opt_text(self.pane_id),
            status: text::opt_text(self.status),
            agent_state: text::opt_text(self.agent_state),
            last_seen: text::opt_text(self.last_seen),
            state_since: self.state_since,
            created_at: self.created_at@,
            extra_args: text::texts(self.extra_args@),
        }
    }
}

impl Process {
    /// A copy.
    pub fn copy(&self) -> (r: Process)
        ensures
            r@ == self@,
    {
        Process {
            id: self.id,
            kind: self.kind,
            name: self.name.clone(),
            display_name: self.display_name.clone(),
            command: self.command.clone(),
            cwd: self.cwd.clone(),
            position: self.position,
            agent_tool_id: self.agent_tool_id,
            pid: self.pid,
            pane_id: copy_opt(&self.pane_id),
            status: copy_opt(&self.status),
            agent_state: copy_opt(&self.agent_state),
            last_seen: copy_opt(&self.last_seen),
            state_since: self.state_since,
            created_at: self.created_at.clone(),
            extra_args: text::copy_texts(&self.extra_args),
        }
    }
}

impl Default for Process {
    fn default() -> (p: Process)
        ensures
            p.id == 0 && p.kind == ProcessKind::Agent && p.position == 0,
            p.name@.len() == 0 && p.display_name@.len() == 0 && p.command@.len() == 0,
            p.cwd@.len() == 0 && p.created_at@.len() == 0 && p.extra_args@.len() == 0,
            p.agent_tool_id is None && p.pid is None && p.pane_id is None && p.status is None,
            p.agent_state is None && p.last_seen is None && p.state_since is None,
    {
        Process {
            id: 0,
            kind: ProcessKind::Agent,
            name: String::new(),
            display_name: String::new(),
            command: String::new(),
            cwd: String::new(),
            position: 0,
            agent_tool_id: None,
            pid: None,
            pane_id: None,
            status: None,
            agent_state: None,
            last_seen: None,
            state_since: None,
            created_at: String::new(),
            extra_args: Vec::new(),
        }
    }
}

/// The contents of processes.
pub open spec fn instance_views(v: Seq<Process>) -> Seq<ProcessView> {
    v.map_values(|p: Process| p@)
}

/// Edits of a process. What can be cleared is edited to nothing.
#[derive(Debug)]
pub struct ProcessPatch {
    pub name: Option<String>,
    pub display_name: Option<String>,
    pub command: Option<String>,
    pub cwd: Option<String>,
    pub position: Option<i64>,
    pub agent_tool_id: Option<Option<u64>>,
    pub pid: Option<Option<i64>>,
    pub pane_id: Option<Option<String>>,
    pub status: Option<Option<String>>,
    pub agent_state: Option<Option<String>>,
    pub last_seen: Option<Option<String>>,
    pub state_since: Option<Option<i64>>,
}

impl Default for ProcessPatch {
    fn default() -> (p: ProcessPatch)
        ensures
            p == blank_patch(),
    {
        ProcessPatch {
            name: None,
            display_name: None,
            command: None,
            cwd: None,
            position: None,
            agent_tool_id: None,
            pid: None,
            pane_id: None,
            status: None,
            agent_state: None,
            last_seen: None,
            state_since: None,
        }
    }
}

/// No edits.
pub open spec fn blank_patch() -> ProcessPatch {
    ProcessPatch {
        name: None,
        display_name: None,
        command: None,
        cwd: None,
        position: None,
        agent_tool_id: None,
        pid: None,
        pane_id: None,
        status: None,
        agent_state: None,
        last_seen: None,
        state_since: None,
    }
}

// ---------------------------------------------------------------------------
// Agents and locks
// ---------------------------------------------------------------------------

/// An agent that is connected. Moments are counted in nanoseconds.
#[derive(Debug)]
pub struct Agent {
    pub key: String,
    /// The key, until the agent identifies itself.
    pub name: String,
    pub status: String,
    pub key_source: KeySource,
    pub first_seen: u64,
    pub last_seen: u64,
}

/// The contents of an [`Agent`].
pub struct AgentView {
    pub key: Seq<char>,
    pub name: Seq<char>,
    pub status: Seq<char>,
    pub key_source: KeySource,
    pub first_seen: u64,
    pub last_seen: u64,
}

impl View for Agent {
    type V = AgentView;

    open spec fn view(&self) -> AgentView {
        AgentView {
            key: self.key@,
            name: self.name@,
            status: self.status@,
            key_source: self.key_source,
            first_seen: self.first_seen,
            last_seen: self.last_seen,
        }
    }
}

impl Agent {
    /// A copy.
    pub fn copy(&self) -> (r: Agent)
        ensures
            r@ == self@,
    {
        Agent {
            key: self.key.clone(),
            name: self.name.clone(),
            status: self.status.clone(),
            key_source: self.key_source,
            first_seen: self.first_seen,
            last_seen: self.last_seen,
        }
    }
}

/// The contents of agents.
pub open spec fn agent_views(v: Seq<Agent>) -> Seq<AgentView> {
    v.map_values(|a: Agent| a@)
}

/// A claim that an agent holds to coordinate exclusive work.
#[derive(Debug)]
pub struct Lock {
    pub name: String,
    pub holder_key: String,
    /// Filled in when the lock is read.
    pub holder_name: String,
    pub note: String,
    pub acquired_at: u64,
}

/// The contents of a [`Lock`].
pub struct LockView {
    pub name: Seq<char>,
    pub holder_key: Seq<char>,
    pub holder_name: Seq<char>,
    pub note: Seq<char>,
    pub acquired_at: u64,
}

impl View for Lock {
    type V = LockView;

    open spec fn view(&self) -> LockView {
        LockView {
            name: self.name@,
            holder_key: self.holder_key@,
            holder_name: self.holder_name@,
            note: self.note@,
            acquired_at: self.acquired_at,
        }
    }
}

impl Lock {
    /// A copy.
    pub fn copy(&self) -> (r: Lock)
        ensures
            r@ == self@,
    {
        Lock {
            name: self.name.clone(),
            holder_key: self.holder_key.clone(),
            holder_name: self.holder_name.clone(),
            note: self.note.clone(),
            acquired_at: self.acquired_at,
        }
    }
}

/// The contents of locks.
pub open spec fn lock_views(v: Seq<Lock>) -> Seq<LockView> {
    v.map_values(|l: Lock| l@)
}

/// A project at a glance.
#[derive(Debug)]
pub struct ProjectSummary {
    pub name: String,
    pub identity: String,
    pub root: String,
    pub agents_active: usize,
    pub todos_open: usize,
    pub todos_in_progress: usize,
    pub locks_held: usize,
    pub last_activity: Option<String>,
}

/// The contents of a [`ProjectSummary`].
pub struct ProjectSummaryView {
    pub name: Seq<char>,
    pub identity: Seq<char>,
    pub root: Seq<char>,
    pub agents_active: nat,
    pub todos_open: nat,
    pub todos_in_progress: nat,
    pub locks_held: nat,
    pub last_activity: Option<Seq<char>>,
}

impl View for ProjectSummary {
    type V = ProjectSummaryView;

    open spec fn view(&self) -> ProjectSummaryView {
        ProjectSummaryView {
            name: self.name@,
            identity: self.identity@,
            root: self.root@,
            agents_active: self.agents_active as nat,
            todos_open: self.todos_open as nat,
            todos_in_progress: self.todos_in_progress as nat,
            locks_held: self.locks_held as nat,
            last_activity: text::opt_text(self.last_activity),
        }
    }
}

} // verus!
