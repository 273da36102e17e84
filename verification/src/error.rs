//! What can go wrong in an operation of the store.

use vstd::prelude::*;
use vstd::string::*;

use crate::text;

verus! {

/// Why an operation of the store was refused.
#[derive(Debug)]
pub enum CoreError {
    /// No note has the id.
    NoteNotFound(u64),
    /// No scratchpad has the id.
    ScratchpadNotFound(u64),
    /// No entry of the roster has the id.
    RosterNotFound(u64),
    /// No todo has the id.
    TodoNotFound(u64),
    /// No comment of the todo has the id.
    TodoCommentNotFound { todo_id: u64, comment_id: u64 },
    /// No agent tool has the id.
    AgentToolNotFound(u64),
    /// No process has the id.
    ProcessNotFound(u64),
    /// No profile describes the type of agent.
    UnknownToolType(String),
    /// An argument was refused; the message may be shown to the caller.
    BadRequest(String),
    /// No project has the id.
    ProjectNotFound(i64),
    /// The workspace cannot be reached.
    Workspace(String),
}

/// The contents of a [`CoreError`].
pub enum ErrorView {
    NoteNotFound(u64),
    ScratchpadNotFound(u64),
    RosterNotFound(u64),
    TodoNotFound(u64),
    TodoCommentNotFound { todo_id: u64, comment_id: u64 },
    AgentToolNotFound(u64),
    ProcessNotFound(u64),
    UnknownToolType(Seq<char>),
    BadRequest(Seq<char>),
    ProjectNotFound(i64),
    Workspace(Seq<char>),
}

impl View for CoreError {
    type V = ErrorView;

    open spec fn view(&self) -> ErrorView {
        match *self {
            CoreError::NoteNotFound(id) => ErrorView::NoteNotFound(id),
            CoreError::ScratchpadNotFound(id) => ErrorView::ScratchpadNotFound(id),
            CoreError::RosterNotFound(id) => ErrorView::RosterNotFound(id),
            CoreError::TodoNotFound(id) => ErrorView::TodoNotFound(id),
            CoreError::TodoCommentNotFound { todo_id, comment_id } => ErrorView::TodoCommentNotFound {
                todo_id,
                comment_id,
            },
            CoreError::AgentToolNotFound(id) => ErrorView::AgentToolNotFound(id),
            CoreError::ProcessNotFound(id) => ErrorView::ProcessNotFound(id),
            CoreError::UnknownToolType(t) => ErrorView::UnknownToolType(t@),
            CoreError::BadRequest(m) => ErrorView::BadRequest(m@),
            CoreError::ProjectNotFound(id) => ErrorView::ProjectNotFound(id),
            CoreError::Workspace(p) => ErrorView::Workspace(p@),
        }
    }
}

impl ErrorView {
    /// What an error says.
    pub open spec fn words(self) -> Seq<char> {
        match self {
            ErrorView::NoteNotFound(id) => "note "@ + text::decimal(id as nat) + " not found"@,
            ErrorView::ScratchpadNotFound(id) => "scratchpad "@ + text::decimal(id as nat)
                + " not found"@,
            ErrorView::RosterNotFound(id) => "roster entry "@ + text::decimal(id as nat)
                + " not found"@,
            ErrorView::TodoNotFound(id) => "todo "@ + text::decimal(id as nat) + " not found"@,
            ErrorView::TodoCommentNotFound { todo_id, comment_id } => "comment "@ + text::decimal(
                comment_id as nat,
            ) + " not found on todo "@ + text::decimal(todo_id as nat),
            ErrorView::AgentToolNotFound(id) => "agent tool "@ + text::decimal(id as nat)
                + " not found"@,
            ErrorView::ProcessNotFound(id) => "process "@ + text::decimal(id as nat)
                + " not found"@,
            ErrorView::UnknownToolType(t) => "unknown agent type '"@ + t + "'"@,
            ErrorView::BadRequest(m) => m,
            ErrorView::ProjectNotFound(id) => "project "@ + text::signed_decimal(id as int)
                + " not found"@,
            ErrorView::Workspace(p) => "workspace path not found or inaccessible: "@ + p,
        }
    }
}

/// `<noun> <id> not found`.
fn not_found(noun: &str, id: u64) -> (r: String)
    ensures
        r@ == noun@ + text::decimal(id as nat) + " not found"@,
{
    let mut out = noun.to_owned();
    out.append(text::number(id).as_str());
    out.append(" not found");
    out
}

impl CoreError {
    /// What the error says.
    pub fn message(&self) -> (r: String)
        ensures
            r@ == self@.words(),
    {
        match self {
            CoreError::NoteNotFound(id) => not_found("note ", *id),
            CoreError::ScratchpadNotFound(id) => not_found("scratchpad ", *id),
            CoreError::RosterNotFound(id) => not_found("roster entry ", *id),
            CoreError::TodoNotFound(id) => not_found("todo ", *id),
            CoreError::TodoCommentNotFound { todo_id, comment_id } => {
                let mut out = "comment ".to_owned();
                out.append(text::number(*comment_id).as_str());
                out.append(" not found on todo ");
                out.append(text::number(*todo_id).as_str());
                out
            },
            CoreError::AgentToolNotFound(id) => not_found("agent tool ", *id),
            CoreError::ProcessNotFound(id) => not_found("process ", *id),
            CoreError::UnknownToolType(t) => {
                let mut out = "unknown agent type '".to_owned();
                out.append(t.as_str());
                out.append("'");
                out
            },
            CoreError::BadRequest(m) => m.clone(),
            CoreError::ProjectNotFound(id) => {
                let mut out = "project ".to_owned();
                out.append(text::signed_number(*id).as_str());
                out.append(" not found");
                out
            },
            CoreError::Workspace(p) => {
                let mut out = "workspace path not found or inaccessible: ".to_owned();
                out.append(p.as_str());
                out
            },
        }
    }
}

/// The outcome of an operation, with the contents of its error.
pub open spec fn outcome<T>(r: Result<T, CoreError>) -> Result<T, ErrorView> {
    match r {
        Ok(v) => Ok(v),
        Err(e) => Err(e@),
    }
}

} // verus!
