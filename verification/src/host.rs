//! What the sidebar and its terminal multiplexer say to each other: panes and
//! input come in, actions go out.

use vstd::prelude::*;
use vstd::string::*;

use crate::text;

verus! {

/// A pane of the session.
#[derive(Clone, Copy, PartialEq, Eq, PartialOrd, Ord, Debug, Structural)]
pub enum PaneId {
    Terminal(u32),
    Plugin(u32),
}

/// What the multiplexer tells about one pane.
#[derive(Debug, Default)]
pub struct PaneInfo {
    pub id: u32,
    pub is_plugin: bool,
    pub is_focused: bool,
    pub is_floating: bool,
    /// A suppressed pane is hidden but still runs.
    pub is_suppressed: bool,
    pub is_selectable: bool,
    pub exited: bool,
    pub title: String,
    /// The command that the pane was launched with.
    pub terminal_command: Option<String>,
}

/// The contents of a [`PaneInfo`].
pub struct PaneInfoView {
    pub id: u32,
    pub is_plugin: bool,
    pub is_focused: bool,
    pub is_floating: bool,
    pub is_suppressed: bool,
    pub is_selectable: bool,
    pub exited: bool,
    pub title: Seq<char>,
    pub command: Option<Seq<char>>,
}

impl View for PaneInfo {
    type V = PaneInfoView;

    open spec fn view(&self) -> PaneInfoView {
        PaneInfoView {
            id: self.id,
            is_plugin: self.is_plugin,
            is_focused: self.is_focused,
            is_floating: self.is_floating,
            is_suppressed: self.is_suppressed,
            is_selectable: self.is_selectable,
            exited: self.exited,
            title: self.title@,
            command: text::opt_text(self.terminal_command),
        }
    }
}

/// The panes of every tab, by the tab's position.
#[derive(Debug, Default)]
pub struct PaneManifest {
    pub tabs: Vec<(usize, Vec<PaneInfo>)>,
}

/// A key without its modifiers.
#[derive(Clone, Copy, PartialEq, Eq, Debug, Structural)]
pub enum BareKey {
    Up,
    Down,
    PageUp,
    PageDown,
    Home,
    End,
    Enter,
    Char(char),
    Other,
}

/// A keypress.
#[derive(Clone, Copy, PartialEq, Eq, Debug, Structural)]
pub struct Key {
    pub bare: BareKey,
    /// Whether Alt is held.
    pub alt: bool,
}

/// What the mouse does over a pane.
#[derive(Clone, Copy, PartialEq, Eq, Debug, Structural)]
pub enum Mouse {
    LeftClick(isize),
    ScrollUp,
    ScrollDown,
    Other,
}

/// What happens to the sidebar.
#[derive(Debug)]
pub enum Event {
    /// The answer to the request for permissions.
    Permission(bool),
    Panes(PaneManifest),
    Key(Key),
    Mouse(Mouse),
    Timer,
    Other,
}

/// What a viewer shows.
#[derive(Clone, Copy, PartialEq, Eq, Debug, Structural)]
pub enum Document {
    Todo(u64),
    Note(u64),
    TodoList,
    NoteList,
    NewTodo,
    NewNote,
    Config(u64),
    NewConfig,
    Empty,
}

impl Document {
    /// The name of a kind of document in routing files and commands.
    pub open spec fn kind_text(self) -> Seq<char> {
        match self {
            Document::Todo(_) => "todo"@,
            Document::Note(_) => "note"@,
            Document::TodoList => "todo-list"@,
            Document::NoteList => "note-list"@,
            Document::NewTodo => "new-todo"@,
            Document::NewNote => "new-note"@,
            Document::Config(_) => "agent-config"@,
            Document::NewConfig => "new-agent-config"@,
            Document::Empty => "empty"@,
        }
    }

    /// The id of the document, if it has one.
    pub open spec fn id_of(self) -> Option<u64> {
        match self {
            Document::Todo(id) => Some(id),
            Document::Note(id) => Some(id),
            Document::Config(id) => Some(id),
            _ => None,
        }
    }

    /// The name of the kind of document.
    pub fn kind(self) -> (r: &'static str)
        ensures
            r@ == self.kind_text(),
    {
        match self {
            Document::Todo(_) => "todo",
            Document::Note(_) => "note",
            Document::TodoList => "todo-list",
            Document::NoteList => "note-list",
            Document::NewTodo => "new-todo",
            Document::NewNote => "new-note",
            Document::Config(_) => "agent-config",
            Document::NewConfig => "new-agent-config",
            Document::Empty => "empty",
        }
    }

    /// The id of the document.
    pub fn id(self) -> (r: Option<u64>)
        ensures
            r == self.id_of(),
    {
        match self {
            Document::Todo(id) => Some(id),
            Document::Note(id) => Some(id),
            Document::Config(id) => Some(id),
            _ => None,
        }
    }
}

/// Why a pane is spawned; the answer with its id comes back with this.
#[derive(Clone, Copy, PartialEq, Eq, Debug, Structural)]
pub enum Purpose {
    /// A viewer.
    Viewer,
    /// The pane of a process that the user asked for.
    Process,
    /// The pane of a process that the daemon wants started, by its id.
    Starting(u64),
}

/// What the multiplexer, or the file system, is asked to do.
#[derive(Debug)]
pub enum Action {
    RenamePlugin(u32, String),
    RenameTerminal(u32, String),
    /// Locks the multiplexer's own keys, or gives them back.
    SetLocked(bool),
    Focus(PaneId),
    Close(PaneId),
    CloseTab,
    Quit,
    Copy(String),
    /// Sends a named message to every sidebar pane of the session.
    Broadcast(String, String),
    /// Runs the launcher with these arguments, in the background.
    Run(Vec<String>),
    /// Opens a floating pane that runs the launcher with these arguments.
    OpenFloating(Vec<String>),
    /// The same, for the search dialog: the pane's id comes back.
    OpenSearch(Vec<String>),
    /// Opens a tiled pane that runs the launcher with these arguments.
    OpenTiled(Vec<String>),
    /// Opens a pane in place of the slot's, or a new one where there is no
    /// slot; its id comes back.
    Spawn { slot: Option<PaneId>, args: Vec<String>, focus: bool, purpose: Purpose },
    /// Opens an agent's pane like [`Action::Spawn`]; its id comes back with
    /// the agent's id and label.
    SpawnAgent { slot: Option<PaneId>, args: Vec<String>, agent_id: String, label: String },
    /// Covers a pane with a new one; the new one's id comes back.
    Cover { target: PaneId, args: Vec<String> },
    Show(PaneId),
    /// Puts an existing pane in place of another.
    Replace { place: PaneId, pane: PaneId },
    /// Points the viewer with a routing slot at a document.
    Route { viewer: String, document: Document },
    WriteLabels(String),
    WriteView(String),
    WriteCount(usize),
    /// Types text into a pane.
    Type(PaneId, String),
    /// Saves the last lines of a process's output.
    SaveOutput(u64, String),
    /// Clears what an earlier session left in the shared directory.
    ClearShared,
    /// The steps that read files or panes first, each a method of the sidebar.
    SyncPaneTitles,
    SyncFrameTitle,
    ReloadData,
    AdoptView,
    ReconcileDisposed,
    ReconcileStarting,
    ObserveAgents,
    DeliverInputs,
    /// Wakes the sidebar again after a second.
    SetTimer,
}

/// The contents of an [`Action`].
pub enum ActionView {
    RenamePlugin(u32, Seq<char>),
    RenameTerminal(u32, Seq<char>),
    SetLocked(bool),
    Focus(PaneId),
    Close(PaneId),
    CloseTab,
    Quit,
    Copy(Seq<char>),
    Broadcast(Seq<char>, Seq<char>),
    Run(Seq<Seq<char>>),
    OpenFloating(Seq<Seq<char>>),
    OpenSearch(Seq<Seq<char>>),
    OpenTiled(Seq<Seq<char>>),
    Spawn { slot: Option<PaneId>, args: Seq<Seq<char>>, focus: bool, purpose: Purpose },
    SpawnAgent {
        slot: Option<PaneId>,
        args: Seq<Seq<char>>,
        agent_id: Seq<char>,
        label: Seq<char>,
    },
    Cover { target: PaneId, args: Seq<Seq<char>> },
    Show(PaneId),
    Replace { place: PaneId, pane: PaneId },
    Route { viewer: Seq<char>, document: Document },
    WriteLabels(Seq<char>),
    WriteView(Seq<char>),
    WriteCount(usize),
    Type(PaneId, Seq<char>),
    SaveOutput(u64, Seq<char>),
    ClearShared,
    SyncPaneTitles,
    SyncFrameTitle,
    ReloadData,
    AdoptView,
    ReconcileDisposed,
    ReconcileStarting,
    ObserveAgents,
    DeliverInputs,
    SetTimer,
}

impl View for Action {
    type V = ActionView;

    open spec fn view(&self) -> ActionView {
        match *self {
            Action::RenamePlugin(id, t) => ActionView::RenamePlugin(id, t@),
            Action::RenameTerminal(id, t) => ActionView::RenameTerminal(id, t@),
            Action::SetLocked(b) => ActionView::SetLocked(b),
            Action::Focus(p) => ActionView::Focus(p),
            Action::Close(p) => ActionView::Close(p),
            Action::CloseTab => ActionView::CloseTab,
            Action::Quit => ActionView::Quit,
            Action::Copy(t) => ActionView::Copy(t@),
            Action::Broadcast(n, p) => ActionView::Broadcast(n@, p@),
            Action::Run(a) => ActionView::Run(text::texts(a@)),
            Action::OpenFloating(a) => ActionView::OpenFloating(text::texts(a@)),
            Action::OpenSearch(a) => ActionView::OpenSearch(text::texts(a@)),
            Action::OpenTiled(a) => ActionView::OpenTiled(text::texts(a@)),
            Action::Spawn { slot, args, focus, purpose } => ActionView::Spawn {
                slot,
                args: text::texts(args@),
                focus,
                purpose,
            },
            Action::SpawnAgent { slot, args, agent_id, label } => ActionView::SpawnAgent {
                slot,
                args: text::texts(args@),
                agent_id: agent_id@,
                label: label@,
            },
            Action::Cover { target, args } => ActionView::Cover {
                target,
                args: text::texts(args@),
            },
            Action::Show(p) => ActionView::Show(p),
            Action::Replace { place, pane } => ActionView::Replace { place, pane },
            Action::Route { viewer, document } => ActionView::Route { viewer: viewer@, document },
            Action::WriteLabels(t) => ActionView::WriteLabels(t@),
            Action::WriteView(t) => ActionView::WriteView(t@),
            Action::WriteCount(n) => ActionView::WriteCount(n),
            Action::Type(p, t) => ActionView::Type(p, t@),
            Action::SaveOutput(id, t) => ActionView::SaveOutput(id, t@),
            Action::ClearShared => ActionView::ClearShared,
            Action::SyncPaneTitles => ActionView::SyncPaneTitles,
            Action::SyncFrameTitle => ActionView::SyncFrameTitle,
            Action::ReloadData => ActionView::ReloadData,
            Action::AdoptView => ActionView::AdoptView,
            Action::ReconcileDisposed => ActionView::ReconcileDisposed,
            Action::ReconcileStarting => ActionView::ReconcileStarting,
            Action::ObserveAgents => ActionView::ObserveAgents,
            Action::DeliverInputs => ActionView::DeliverInputs,
            Action::SetTimer => ActionView::SetTimer,
        }
    }
}

/// The contents of a run of actions.
pub open spec fn actions(v: Seq<Action>) -> Seq<ActionView> {
    v.map_values(|a: Action| a@)
}

/// Adds an action to a run.
pub fn push_action(out: &mut Vec<Action>, action: Action)
    ensures
        actions(final(out)@) == actions(old(out)@).push(action@),
{
    out.push(action);
    assert(actions(out@) =~= actions(old(out)@).push(action@));
}

/// Adds the actions of another run.
pub fn append_actions(out: &mut Vec<Action>, more: Vec<Action>)
    ensures
        actions(final(out)@) == actions(old(out)@) + actions(more@),
{
    let mut rest = more;
    out.append(&mut rest);
    assert(actions(out@) =~= actions(old(out)@) + actions(more@));
}

/// A run of one action.
pub fn one_action(action: Action) -> (out: Vec<Action>)
    ensures
        actions(out@) == seq![action@],
{
    let mut out: Vec<Action> = Vec::new();
    out.push(action);
    assert(actions(out@) =~= seq![action@]);
    out
}

/// A run of no actions.
pub fn no_actions() -> (out: Vec<Action>)
    ensures
        actions(out@) == Seq::<ActionView>::empty(),
{
    let out: Vec<Action> = Vec::new();
    assert(actions(out@) =~= Seq::<ActionView>::empty());
    out
}

/// Owned copies of a run of words.
pub fn owned(words: &Vec<&str>) -> (out: Vec<String>)
    ensures
        text::texts(out@) == text::views(words@),
{
    let mut out: Vec<String> = Vec::new();
    let mut i: usize = 0;
    while i < words.len()
        invariant
            i <= words.len(),
            text::texts(out@) == text::views(words@).take(i as int),
        decreases words.len() - i,
    {
        let ghost before = out@;
        out.push(words[i].to_owned());
        proof {
            assert(text::texts(out@) =~= text::texts(before).push(words@[i as int]@));
            assert(text::views(words@).take(i + 1) =~= text::views(words@).take(i as int).push(
                words@[i as int]@,
            ));
        }
        i += 1;
    }
    assert(text::views(words@).take(i as int) =~= text::views(words@));
    out
}

} // verus!
