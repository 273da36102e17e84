//! The processes of a project: instances of agents, commands and terminals.

use vstd::prelude::*;
use vstd::string::*;

use crate::error::{CoreError, ErrorView};
use crate::model;
use crate::model::{AgentToolView, Process, ProcessKind, ProcessPatch, ProcessView};
use crate::project;
use crate::project::{Project, ProjectView};
use crate::sorting;
use crate::sorting::Order;
use crate::table;
use crate::table::Entry;
use crate::text;
use crate::tools;

verus! {

/// A process that was asked for and is not up yet.
pub const STARTING: &'static str = "starting";

/// A process that is up.
pub const RUNNING: &'static str = "running";

/// A process that was stopped.
pub const STOPPED: &'static str = "stopped";

/// A process that is gone.
pub const EXITED: &'static str = "exited";

/// What a new process is made of.
#[derive(Debug)]
pub struct ProcessDraft {
    pub kind: ProcessKind,
    pub name: String,
    pub display_name: String,
    pub command: String,
    pub cwd: String,
    pub agent_tool_id: Option<u64>,
}

/// A new process. It stands behind those that were made before.
pub open spec fn new_process(id: u64, d: ProcessDraft, now: Seq<char>) -> ProcessView {
    ProcessView {
        id,
        kind: d.kind,
        name: d.name@,
        display_name: d.display_name@,
        command: d.command@,
        cwd: d.cwd@,
        position: id as i64,
        agent_tool_id: d.agent_tool_id,
        pid: None,
        pane_id: None,
        status: None,
        agent_state: None,
        last_seen: None,
        state_since: None,
        created_at: now,
        extra_args: seq![],
    }
}

/// A project with one process more.
pub open spec fn with_process(p: ProjectView, v: ProcessView) -> ProjectView {
    ProjectView {
        next_id: (p.next_id + 1) as u64,
        processes: table::with_row(p.processes, p.next_id, v),
        ..p
    }
}

/// What is said where a process names a tool that is not there.
pub open spec fn no_such_tool(id: u64) -> ErrorView {
    ErrorView::BadRequest(
        "agent_tool_id "@ + text::decimal(id as nat) + " does not exist in this project"@,
    )
}

/// What is wrong with the tool that a process names, if anything.
pub open spec fn tool_fault(p: ProjectView, tool: Option<u64>) -> Option<ErrorView> {
    match tool {
        Some(t) => if table::has_live(p.tools, t) {
            None
        } else {
            Some(no_such_tool(t))
        },
        None => None,
    }
}

/// A project after a process was created. A tool that it names must be there.
pub open spec fn process_added(p: ProjectView, d: ProcessDraft, now: Seq<char>) -> Result<
    ProjectView,
    ErrorView,
> {
    match tool_fault(p, d.agent_tool_id) {
        Some(e) => Err(e),
        None => Ok(with_process(p, new_process(p.next_id, d, now))),
    }
}

/// A process.
pub open spec fn process_at(p: ProjectView, id: u64) -> Result<ProcessView, ErrorView> {
    match table::live_value(p.processes, id) {
        Some(v) => Ok(v),
        None => Err(ErrorView::ProcessNotFound(id)),
    }
}

/// Whether a process is listed after another: by position, then by id.
pub open spec fn process_after(a: ProcessView, b: ProcessView) -> bool {
    a.position > b.position || (a.position == b.position && a.id > b.id)
}

/// The processes, by position.
pub open spec fn processes_of(p: ProjectView) -> Seq<ProcessView> {
    sorting::sorted_by(
        |a: ProcessView, b: ProcessView| process_after(a, b),
        table::live_values(p.processes),
    )
}

/// A process after an edit.
pub open spec fn process_edited(v: ProcessView, patch: ProcessPatch) -> ProcessView {
    ProcessView {
        name: model::edited(patch.name, v.name),
        display_name: model::edited(patch.display_name, v.display_name),
        command: model::edited(patch.command, v.command),
        cwd: model::edited(patch.cwd, v.cwd),
        position: model::replaced(patch.position, v.position),
        agent_tool_id: model::replaced(patch.agent_tool_id, v.agent_tool_id),
        pid: model::replaced(patch.pid, v.pid),
        pane_id: model::edited_opt(patch.pane_id, v.pane_id),
        status: model::edited_opt(patch.status, v.status),
        agent_state: model::edited_opt(patch.agent_state, v.agent_state),
        last_seen: model::edited_opt(patch.last_seen, v.last_seen),
        state_since: model::replaced(patch.state_since, v.state_since),
        ..v
    }
}

/// A project after a change of one process.
pub open spec fn on_process(
    p: ProjectView,
    id: u64,
    change: spec_fn(ProcessView) -> ProcessView,
) -> Result<ProjectView, ErrorView> {
    match table::live_place(p.processes, id) {
        Some(i) => Ok(
            ProjectView {
                processes: table::with_value(p.processes, i, change(p.processes[i].value)),
                ..p
            },
        ),
        None => Err(ErrorView::ProcessNotFound(id)),
    }
}

/// A project after a process was edited. A tool that it comes to name must be
/// there.
pub open spec fn process_updated(p: ProjectView, id: u64, patch: ProcessPatch) -> Result<
    ProjectView,
    ErrorView,
> {
    if !table::has_live(p.processes, id) {
        Err(ErrorView::ProcessNotFound(id))
    } else if patch.agent_tool_id matches Some(t) && tool_fault(p, t) is Some {
        Err(tool_fault(p, patch.agent_tool_id->0)->0)
    } else {
        on_process(p, id, |v: ProcessView| process_edited(v, patch))
    }
}

/// A project after a process was deleted.
pub open spec fn process_deleted(p: ProjectView, id: u64, now: Seq<char>) -> Result<
    ProjectView,
    ErrorView,
> {
    match table::live_place(p.processes, id) {
        Some(i) => Ok(ProjectView { processes: table::with_deleted(p.processes, i, now), ..p }),
        None => Err(ErrorView::ProcessNotFound(id)),
    }
}

/// Whether a text is blank.
pub open spec fn is_blank(s: Seq<char>) -> bool {
    text::trimmed(s).len() == 0
}

/// The name of an instance: that of its tool with its own id, so that no two
/// instances share one.
pub open spec fn instance_name(config: Seq<char>, id: u64) -> Seq<char> {
    if is_blank(config) {
        "agent-"@ + text::decimal(id as nat)
    } else {
        config + "-"@ + text::decimal(id as nat)
    }
}

/// The friendly name of an instance: the one asked for, else that of its tool,
/// with its own id; its plain name where both are blank.
pub open spec fn instance_display(
    config: AgentToolView,
    wish: Option<Seq<char>>,
    id: u64,
) -> Seq<char> {
    let friendly = if wish is Some && !is_blank(wish->0) {
        wish->0
    } else {
        config.display_name
    };
    if is_blank(friendly) {
        instance_name(config.name, id)
    } else {
        friendly + " #"@ + text::decimal(id as nat)
    }
}

/// A new instance of a tool: what the tool says now, and what this launch adds.
pub open spec fn new_instance(
    id: u64,
    config: AgentToolView,
    wish: Option<Seq<char>>,
    extra: Seq<Seq<char>>,
    now: Seq<char>,
) -> ProcessView {
    ProcessView {
        id,
        kind: ProcessKind::Agent,
        name: instance_name(config.name, id),
        display_name: instance_display(config, wish, id),
        command: config.command,
        cwd: config.cwd,
        position: id as i64,
        agent_tool_id: Some(config.id),
        pid: None,
        pane_id: None,
        status: Some(STARTING@),
        agent_state: None,
        last_seen: None,
        state_since: None,
        created_at: now,
        extra_args: extra,
    }
}

/// A project after an instance of a tool was asked for. Each call makes a new
/// one; a disabled tool makes none.
pub open spec fn process_started(
    p: ProjectView,
    tool: u64,
    wish: Option<Seq<char>>,
    extra: Seq<Seq<char>>,
    now: Seq<char>,
) -> Result<ProjectView, ErrorView> {
    match table::live_value(p.tools, tool) {
        None => Err(ErrorView::AgentToolNotFound(tool)),
        Some(config) => if !config.enabled {
            Err(
                ErrorView::BadRequest(
                    "agent config #"@ + text::decimal(tool as nat) + " is disabled"@,
                ),
            )
        } else {
            Ok(with_process(p, new_instance(p.next_id, config, wish, extra, now)))
        },
    }
}

/// A process after its host reported on it. A pid means that it is up; a state
/// that is new starts its clock.
pub open spec fn process_reported(
    v: ProcessView,
    pid: Option<i64>,
    pane: Option<Seq<char>>,
    state: Option<Seq<char>>,
    now: Seq<char>,
    secs: i64,
) -> ProcessView {
    ProcessView {
        pid: if pid is Some {
            pid
        } else {
            v.pid
        },
        status: if pid is Some {
            Some(RUNNING@)
        } else {
            v.status
        },
        last_seen: if pid is Some {
            Some(now)
        } else {
            v.last_seen
        },
        pane_id: if pane is Some {
            pane
        } else {
            v.pane_id
        },
        agent_state: if state is Some {
            state
        } else {
            v.agent_state
        },
        state_since: if state is Some && state != v.agent_state {
            Some(secs)
        } else {
            v.state_since
        },
        ..v
    }
}

/// A process with another status.
pub open spec fn with_status(v: ProcessView, status: Seq<char>) -> ProcessView {
    ProcessView { status: Some(status), ..v }
}

/// Whether a process can be sent input: it is up or coming up.
pub open spec fn takes_input(v: ProcessView) -> bool {
    v.status == Some(STARTING@) || v.status == Some(RUNNING@)
}

/// Whether a row is a process that ran and whose pid is not among the live
/// ones.
pub open spec fn is_dead(e: Entry<ProcessView>, alive: Seq<i64>) -> bool {
    e.deleted_at is None && e.value.status == Some(RUNNING@) && e.value.pid is Some
        && !alive.contains(e.value.pid->0)
}

/// Rows after those that are dead were marked as gone.
pub open spec fn reaped(rows: Seq<Entry<ProcessView>>, alive: Seq<i64>) -> Seq<Entry<ProcessView>> {
    rows.map_values(
        |e: Entry<ProcessView>|
            if is_dead(e, alive) {
                Entry { value: with_status(e.value, EXITED@), ..e }
            } else {
                e
            },
    )
}

/// The ids of the rows that are dead.
pub open spec fn dead_ids(rows: Seq<Entry<ProcessView>>, alive: Seq<i64>) -> Seq<u64>
    decreases rows.len(),
{
    if rows.len() == 0 {
        seq![]
    } else if is_dead(rows.last(), alive) {
        dead_ids(rows.drop_last(), alive).push(rows.last().id)
    } else {
        dead_ids(rows.drop_last(), alive)
    }
}

/// Whether a row is an agent that is up or coming up.
pub open spec fn is_live_agent(e: Entry<ProcessView>) -> bool {
    e.deleted_at is None && e.value.kind == ProcessKind::Agent && takes_input(e.value)
}

/// Whether a project has an agent that is up or coming up.
pub open spec fn has_live_agent(p: ProjectView) -> bool {
    exists|i: int| 0 <= i < p.processes.len() && is_live_agent(#[trigger] p.processes[i])
}

// ---------------------------------------------------------------------------
// What every operation keeps
// ---------------------------------------------------------------------------

/// A value with the id of its row keeps the project sound and its numbers apart.
pub proof fn lemma_put_process_wf(p: ProjectView, i: int, v: ProcessView)
    requires
        p.wf(),
        0 <= i < p.processes.len(),
        v.id == p.processes[i].id,
    ensures
        (ProjectView { processes: table::with_value(p.processes, i, v), ..p }).wf(),
        p.told_apart() ==> (
        ProjectView { processes: table::with_value(p.processes, i, v), ..p }).told_apart(),
{
    let after = ProjectView { processes: table::with_value(p.processes, i, v), ..p };
    project::lemma_value_same_ids(p.processes, i, v);
    project::lemma_same_ids_ordered(p, after);
}

/// One process more keeps the project sound and its numbers apart.
pub proof fn lemma_with_process_wf(p: ProjectView, v: ProcessView)
    requires
        p.wf(),
        p.has_room(),
        v.id == p.next_id,
    ensures
        with_process(p, v).wf(),
        p.told_apart() ==> with_process(p, v).told_apart(),
{
    let after = with_process(p, v);
    let id = p.next_id;
    project::lemma_row_in_order(p.processes, id, v);
    project::lemma_counter_grows(p.todos, id, after.next_id);
    project::lemma_counter_grows(p.notes, id, after.next_id);
    project::lemma_counter_grows(p.tools, id, after.next_id);
    if p.told_apart() {
        project::lemma_apart_turned(p.todos, p.processes);
        project::lemma_apart_turned(p.notes, p.processes);
        project::lemma_apart_turned(p.tools, p.processes);
        project::lemma_row_apart(p.processes, p.todos, id, v);
        project::lemma_row_apart(p.processes, p.notes, id, v);
        project::lemma_row_apart(p.processes, p.tools, id, v);
    }
}

/// Deleting a process keeps the project sound and its numbers apart.
pub proof fn lemma_process_deleted_wf(p: ProjectView, i: int, now: Seq<char>)
    requires
        p.wf(),
        0 <= i < p.processes.len(),
    ensures
        (ProjectView { processes: table::with_deleted(p.processes, i, now), ..p }).wf(),
        p.told_apart() ==> (
        ProjectView { processes: table::with_deleted(p.processes, i, now), ..p }).told_apart(),
{
    let after = ProjectView { processes: table::with_deleted(p.processes, i, now), ..p };
    project::lemma_deleted_same_ids(p.processes, i, now);
    project::lemma_same_ids_ordered(p, after);
    assert forall|k: int| 0 <= k < after.processes.len() implies (#[trigger] after.processes[k]).value.id
        == after.processes[k].id by {
        assert(p.processes[k].value.id == p.processes[k].id);
    }
}

/// Marking the dead keeps the project sound and its numbers apart.
pub proof fn lemma_reaped_wf(p: ProjectView, alive: Seq<i64>)
    requires
        p.wf(),
    ensures
        (ProjectView { processes: reaped(p.processes, alive), ..p }).wf(),
        p.told_apart() ==> (
        ProjectView { processes: reaped(p.processes, alive), ..p }).told_apart(),
{
    let after = ProjectView { processes: reaped(p.processes, alive), ..p };
    project::lemma_same_ids_ordered(p, after);
    assert forall|k: int| 0 <= k < after.processes.len() implies (#[trigger] after.processes[k]).value.id
        == after.processes[k].id by {
        assert(p.processes[k].value.id == p.processes[k].id);
    }
}

// ---------------------------------------------------------------------------
// Laws
// ---------------------------------------------------------------------------

/// Starting a tool makes one more process and leaves the tool and every other
/// process as they are; the new one is read back.
pub proof fn law_start_is_a_factory(
    p: ProjectView,
    tool: u64,
    wish: Option<Seq<char>>,
    extra: Seq<Seq<char>>,
    now: Seq<char>,
)
    requires
        p.wf(),
        p.has_room(),
        process_started(p, tool, wish, extra, now) is Ok,
    ensures
        ({
            let after = process_started(p, tool, wish, extra, now)->Ok_0;
            &&& after.tools == p.tools
            &&& after.processes.len() == p.processes.len() + 1
            &&& after.processes.take(p.processes.len() as int) == p.processes
            &&& process_at(after, p.next_id) == Ok::<ProcessView, ErrorView>(
                new_instance(p.next_id, table::live_value(p.tools, tool)->0, wish, extra, now),
            )
        }),
{
    let config = table::live_value(p.tools, tool)->0;
    let v = new_instance(p.next_id, config, wish, extra, now);
    let after = process_started(p, tool, wish, extra, now)->Ok_0;
    table::law_added_is_found(p.processes, p.next_id, v);
    assert(after.processes.take(p.processes.len() as int) =~= p.processes);
}

/// Two instances of one tool never share a name.
pub proof fn law_instances_have_names_of_their_own(config: Seq<char>, a: u64, b: u64)
    requires
        a != b,
    ensures
        instance_name(config, a) != instance_name(config, b),
{
    let head = if is_blank(config) {
        "agent-"@
    } else {
        config + "-"@
    };
    let x = text::decimal(a as nat);
    let y = text::decimal(b as nat);
    text::lemma_u64_of_decimal(a);
    text::lemma_u64_of_decimal(b);
    if instance_name(config, a) == instance_name(config, b) {
        assert((head + x).skip(head.len() as int) =~= x);
        assert((head + y).skip(head.len() as int) =~= y);
    }
}

/// Reporting a state again leaves its clock alone, and a new state starts it.
pub proof fn law_same_state_keeps_clock(
    v: ProcessView,
    state: Seq<char>,
    now: Seq<char>,
    secs: i64,
    later: Seq<char>,
    later_secs: i64,
)
    ensures
        ({
            let once = process_reported(v, None, None, Some(state), now, secs);
            let twice = process_reported(once, None, None, Some(state), later, later_secs);
            &&& twice == once
            &&& v.agent_state != Some(state) ==> once.state_since == Some(secs)
        }),
{
}

/// What was created is read back, and nothing else is in its place.
pub proof fn law_created_process_is_read(p: ProjectView, d: ProcessDraft, now: Seq<char>)
    requires
        p.wf(),
        p.has_room(),
        process_added(p, d, now) is Ok,
    ensures
        process_at(process_added(p, d, now)->Ok_0, p.next_id) == Ok::<ProcessView, ErrorView>(
            new_process(p.next_id, d, now),
        ),
{
    table::law_added_is_found(p.processes, p.next_id, new_process(p.next_id, d, now));
}

/// A deleted process is not found; the tool that it was started from stays as
/// it was.
pub proof fn law_deleted_process_is_gone(p: ProjectView, id: u64, now: Seq<char>)
    requires
        p.wf(),
        table::has_live(p.processes, id),
    ensures
        process_at(process_deleted(p, id, now)->Ok_0, id) is Err,
        process_deleted(p, id, now)->Ok_0.tools == p.tools,
{
    project::lemma_in_order_unique(p.processes, p.next_id);
    table::law_deleted_is_gone(p.processes, id, now);
}

/// Marking the dead touches only processes that ran and are gone, and doing it
/// again finds none.
pub proof fn law_reaping_is_final(rows: Seq<Entry<ProcessView>>, alive: Seq<i64>)
    ensures
        reaped(reaped(rows, alive), alive) == reaped(rows, alive),
        dead_ids(reaped(rows, alive), alive).len() == 0,
        forall|i: int|
            0 <= i < rows.len() && !is_dead(rows[i], alive) ==> #[trigger] reaped(rows, alive)[i]
                == rows[i],
    decreases rows.len(),
{
    reveal_strlit("running");
    reveal_strlit("exited");
    assert(EXITED@[0] == 'e' && RUNNING@[0] == 'r');
    assert forall|i: int| 0 <= i < rows.len() implies !is_dead(
        #[trigger] reaped(rows, alive)[i],
        alive,
    ) by {}
    assert(reaped(reaped(rows, alive), alive) =~= reaped(rows, alive));
    lemma_none_dead(reaped(rows, alive), alive);
}

/// Where no process is dead, none is found.
proof fn lemma_none_dead(rows: Seq<Entry<ProcessView>>, alive: Seq<i64>)
    requires
        forall|i: int| 0 <= i < rows.len() ==> !is_dead(#[trigger] rows[i], alive),
    ensures
        dead_ids(rows, alive).len() == 0,
    decreases rows.len(),
{
    if rows.len() > 0 {
        let front = rows.drop_last();
        assert forall|i: int| 0 <= i < front.len() implies !is_dead(#[trigger] front[i], alive) by {
            assert(front[i] == rows[i]);
        }
        lemma_none_dead(front, alive);
    }
}

/// An edit that asks for nothing changes nothing.
pub proof fn law_blank_edit_keeps_process(v: ProcessView)
    ensures
        process_edited(v, model::blank_patch()) == v,
{
}

// ---------------------------------------------------------------------------
// Operations
// ---------------------------------------------------------------------------

/// The order in which processes are listed.
struct ByPosition;

impl Order<Process> for ByPosition {
    closed spec fn after(&self, a: Process, b: Process) -> bool {
        process_after(a@, b@)
    }

    fn is_after(&self, a: &Process, b: &Process) -> (r: bool) {
        a.position > b.position || (a.position == b.position && a.id > b.id)
    }
}

/// Whether a text is blank.
fn blank_text(s: &str) -> (r: bool)
    ensures
        r == is_blank(s@),
{
    text::trim(s).unicode_len() == 0
}

/// The name of an instance.
fn name_instance(config: &str, id: u64) -> (r: String)
    ensures
        r@ == instance_name(config@, id),
{
    let mut out = if blank_text(config) {
        "agent-".to_owned()
    } else {
        let mut s = config.to_owned();
        s.append("-");
        s
    };
    out.append(text::number(id).as_str());
    out
}

/// A friendly name with an id.
fn with_number(friendly: &str, id: u64) -> (r: String)
    ensures
        r@ == friendly@ + " #"@ + text::decimal(id as nat),
{
    let mut out = friendly.to_owned();
    out.append(" #");
    out.append(text::number(id).as_str());
    out
}

/// Whether a pid is among the live ones.
fn is_alive(alive: &Vec<i64>, pid: i64) -> (r: bool)
    ensures
        r == alive@.contains(pid),
{
    let mut i: usize = 0;
    while i < alive.len()
        invariant
            i <= alive.len(),
            forall|j: int| 0 <= j < i ==> (#[trigger] alive@[j]) != pid,
        decreases alive.len() - i,
    {
        if alive[i] == pid {
            assert(alive@[i as int] == pid);
            return true;
        }
        i += 1;
    }
    false
}

impl Project {
    /// What is wrong with the tool that a process names.
    fn check_tool(&self, tool: Option<u64>) -> (r: Option<CoreError>)
        ensures
            match r {
                Some(e) => tool_fault(self@, tool) == Some(e@),
                None => tool_fault(self@, tool) is None,
            },
    {
        match tool {
            Some(t) => if self.tools.has(t) {
                None
            } else {
                let mut out = "agent_tool_id ".to_owned();
                out.append(text::number(t).as_str());
                out.append(" does not exist in this project");
                Some(CoreError::BadRequest(out))
            },
            None => None,
        }
    }

    /// Adds a process under the next id.
    fn add_process(&mut self, v: Process) -> (id: u64)
        requires
            old(self)@.wf(),
            old(self)@.has_room(),
            v.id == old(self)@.next_id,
        ensures
            id == old(self)@.next_id,
            final(self)@ == with_process(old(self)@, v@),
            final(self)@.wf(),
    {
        proof {
            lemma_with_process_wf(self@, v@);
        }
        let id: u64 = self.next_id;
        self.processes.add(id, v);
        self.next_id = id + 1;
        id
    }

    /// Creates a process.
    pub fn process_create(&mut self, draft: ProcessDraft, now: &str) -> (r: Result<u64, CoreError>)
        requires
            old(self)@.wf(),
            old(self)@.has_room(),
        ensures
            project::settles(r, process_added(old(self)@, draft, now@), old(self)@, final(self)@),
            r matches Ok(id) ==> id == old(self)@.next_id,
            final(self)@.wf(),
    {
        if let Some(e) = self.check_tool(draft.agent_tool_id) {
            return Err(e);
        }
        let id: u64 = self.next_id;
        let v = Process {
            id,
            kind: draft.kind,
            name: draft.name,
            display_name: draft.display_name,
            command: draft.command,
            cwd: draft.cwd,
            position: id as i64,
            agent_tool_id: draft.agent_tool_id,
            pid: None,
            pane_id: None,
            status: None,
            agent_state: None,
            last_seen: None,
            state_since: None,
            created_at: now.to_owned(),
            extra_args: Vec::new(),
        };
        assert(text::texts(v.extra_args@) =~= seq![]);
        Ok(self.add_process(v))
    }

    /// The processes, by position.
    pub fn process_list(&self) -> (out: Vec<Process>)
        ensures
            model::instance_views(out@) == processes_of(self@),
    {
        let ghost all = self@.processes;
        let mut out: Vec<Process> = Vec::new();
        let mut i: usize = 0;
        assert(all.take(0) =~= seq![]);
        assert(sorting::contents(out@) =~= table::live_values(all.take(0)));
        while i < self.processes.rows.len()
            invariant
                i <= self.processes.rows.len(),
                all == self@.processes,
                sorting::contents(out@) == table::live_values(all.take(i as int)),
            decreases self.processes.rows.len() - i,
        {
            let ghost was = out@;
            proof {
                let part = all.take(i + 1);
                assert(part.drop_last() =~= all.take(i as int));
                assert(part.last() == self.processes.rows@[i as int]@);
            }
            if self.processes.rows[i].deleted_at.is_none() {
                let v = self.processes.rows[i].value.copy();
                out.push(v);
                assert(sorting::contents(out@) =~= sorting::contents(was).push(v@));
            }
            i += 1;
        }
        assert(all.take(i as int) =~= all);
        proof {
            sorting::lemma_sorted_contents(
                &ByPosition,
                |a: ProcessView, b: ProcessView| process_after(a, b),
                out@,
            );
        }
        let sorted = sorting::sort(&ByPosition, out);
        assert(model::instance_views(sorted@) =~= sorting::contents(sorted@));
        sorted
    }

    /// A process.
    pub fn process_get(&self, id: u64) -> (r: Result<Process, CoreError>)
        ensures
            match r {
                Ok(v) => process_at(self@, id) == Ok::<ProcessView, ErrorView>(v@),
                Err(e) => process_at(self@, id) == Err::<ProcessView, ErrorView>(e@),
            },
    {
        match self.processes.find(id) {
            Some(i) => {
                proof {
                    table::lemma_live_place(self.processes@, id);
                }
                Ok(self.processes.at(i).copy())
            },
            None => Err(CoreError::ProcessNotFound(id)),
        }
    }

    /// Writes another value to a process.
    fn put_process(&mut self, i: usize, v: Process)
        requires
            old(self)@.wf(),
            i < old(self).processes.rows.len(),
            v.id == old(self)@.processes[i as int].id,
        ensures
            final(self)@ == (ProjectView {
                processes: table::with_value(old(self)@.processes, i as int, v@),
                ..old(self)@
            }),
            final(self)@.wf(),
    {
        proof {
            lemma_put_process_wf(self@, i as int, v@);
        }
        self.processes.set(i, v);
    }

    /// Edits a process.
    pub fn process_update(&mut self, id: u64, patch: ProcessPatch) -> (r: Result<(), CoreError>)
        requires
            old(self)@.wf(),
        ensures
            project::settles(r, process_updated(old(self)@, id, patch), old(self)@, final(self)@),
            final(self)@.wf(),
    {
        let i: usize = match self.processes.find(id) {
            Some(i) => i,
            None => return Err(CoreError::ProcessNotFound(id)),
        };
        proof {
            table::lemma_live_place(self.processes@, id);
            assert(self@.processes[i as int].value.id == self@.processes[i as int].id);
        }
        if let Some(t) = patch.agent_tool_id {
            if let Some(e) = self.check_tool(t) {
                return Err(e);
            }
        }
        let v = edit_process(self.processes.at(i), patch);
        self.put_process(i, v);
        Ok(())
    }

    /// Deletes a process.
    pub fn process_delete(&mut self, id: u64, now: &str) -> (r: Result<(), CoreError>)
        requires
            old(self)@.wf(),
        ensures
            project::settles(r, process_deleted(old(self)@, id, now@), old(self)@, final(self)@),
            final(self)@.wf(),
    {
        match self.processes.find(id) {
            Some(i) => {
                proof {
                    table::lemma_live_place(self.processes@, id);
                    lemma_process_deleted_wf(self@, i as int, now@);
                }
                self.processes.delete(i, now);
                Ok(())
            },
            None => Err(CoreError::ProcessNotFound(id)),
        }
    }

    /// Asks for an instance of a tool, under a name and with arguments of this
    /// launch only.
    pub fn process_start_with(
        &mut self,
        agent_tool_id: u64,
        name: Option<String>,
        extra_args: Vec<String>,
        now: &str,
    ) -> (r: Result<Process, CoreError>)
        requires
            old(self)@.wf(),
            old(self)@.has_room(),
        ensures
            project::settles(
                r,
                process_started(
                    old(self)@,
                    agent_tool_id,
                    text::opt_text(name),
                    text::texts(extra_args@),
                    now@,
                ),
                old(self)@,
                final(self)@,
            ),
            r matches Ok(v) ==> process_at(final(self)@, old(self)@.next_id) == Ok::<
                ProcessView,
                ErrorView,
            >(v@),
            final(self)@.wf(),
    {
        let i: usize = match self.tools.find(agent_tool_id) {
            Some(i) => i,
            None => return Err(CoreError::AgentToolNotFound(agent_tool_id)),
        };
        proof {
            table::lemma_live_place(self.tools@, agent_tool_id);
            assert(self@.tools[i as int].value.id == self@.tools[i as int].id);
        }
        let id: u64 = self.next_id;
        let config = self.tools.at(i);
        if !config.enabled {
            let mut out = "agent config #".to_owned();
            out.append(text::number(agent_tool_id).as_str());
            out.append(" is disabled");
            return Err(CoreError::BadRequest(out));
        }
        let own = name_instance(config.name.as_str(), id);
        let friendly = match &name {
            Some(n) => if blank_text(n.as_str()) {
                config.display_name.clone()
            } else {
                n.clone()
            },
            None => config.display_name.clone(),
        };
        let display = if blank_text(friendly.as_str()) {
            own.clone()
        } else {
            with_number(friendly.as_str(), id)
        };
        let v = Process {
            id,
            kind: ProcessKind::Agent,
            name: own,
            display_name: display,
            command: config.command.clone(),
            cwd: config.cwd.clone(),
            position: id as i64,
            agent_tool_id: Some(agent_tool_id),
            pid: None,
            pane_id: None,
            status: Some(STARTING.to_owned()),
            agent_state: None,
            last_seen: None,
            state_since: None,
            created_at: now.to_owned(),
            extra_args,
        };
        let made = v.copy();
        proof {
            assert(v@ == new_instance(
                id,
                config@,
                text::opt_text(name),
                text::texts(extra_args@),
                now@,
            ));
            table::law_added_is_found(self@.processes, id, v@);
        }
        self.add_process(v);
        Ok(made)
    }

    /// Notes what the host of a process reports: its pid, the pane that it
    /// landed in, what the agent is doing.
    pub fn process_report(
        &mut self,
        id: u64,
        pid: Option<i64>,
        pane_id: Option<String>,
        agent_state: Option<String>,
        now: &str,
        secs: i64,
    ) -> (r: Result<(), CoreError>)
        requires
            old(self)@.wf(),
        ensures
            project::settles(
                r,
                on_process(
                    old(self)@,
                    id,
                    |v: ProcessView|
                        process_reported(
                            v,
                            pid,
                            text::opt_text(pane_id),
                            text::opt_text(agent_state),
                            now@,
                            secs,
                        ),
                ),
                old(self)@,
                final(self)@,
            ),
            final(self)@.wf(),
    {
        let i: usize = match self.processes.find(id) {
            Some(i) => i,
            None => return Err(CoreError::ProcessNotFound(id)),
        };
        proof {
            table::lemma_live_place(self.processes@, id);
            assert(self@.processes[i as int].value.id == self@.processes[i as int].id);
        }
        let mut v = self.processes.at(i).copy();
        let ghost was = v@;
        if let Some(n) = pid {
            v.pid = Some(n);
            v.status = Some(RUNNING.to_owned());
            v.last_seen = Some(now.to_owned());
        }
        if let Some(p) = pane_id {
            v.pane_id = Some(p);
        }
        if let Some(s) = agent_state {
            if !text::is_some_text(&v.agent_state, s.as_str()) {
                v.state_since = Some(secs);
            }
            v.agent_state = Some(s);
        }
        assert(v@ == process_reported(
            was,
            pid,
            text::opt_text(pane_id),
            text::opt_text(agent_state),
            now@,
            secs,
        ));
        self.put_process(i, v);
        Ok(())
    }

    /// Marks a process as stopped. Returns its pid, for whoever is to signal
    /// it.
    pub fn process_stop(&mut self, id: u64) -> (r: Result<Option<i64>, CoreError>)
        requires
            old(self)@.wf(),
        ensures
            project::settles(
                r,
                on_process(old(self)@, id, |v: ProcessView| with_status(v, STOPPED@)),
                old(self)@,
                final(self)@,
            ),
            r matches Ok(pid) ==> pid == table::live_value(old(self)@.processes, id)->0.pid,
            final(self)@.wf(),
    {
        let i: usize = match self.processes.find(id) {
            Some(i) => i,
            None => return Err(CoreError::ProcessNotFound(id)),
        };
        proof {
            table::lemma_live_place(self.processes@, id);
            assert(self@.processes[i as int].value.id == self@.processes[i as int].id);
        }
        let mut v = self.processes.at(i).copy();
        let pid = v.pid;
        v.status = Some(STOPPED.to_owned());
        self.put_process(i, v);
        Ok(pid)
    }

    /// Marks the processes that ran and whose pids are not among the live ones
    /// as gone. Returns their ids.
    pub fn reap(&mut self, alive: &Vec<i64>) -> (out: Vec<u64>)
        requires
            old(self)@.wf(),
        ensures
            final(self)@ == (ProjectView {
                processes: reaped(old(self)@.processes, alive@),
                ..old(self)@
            }),
            out@ == dead_ids(old(self)@.processes, alive@),
            final(self)@.wf(),
    {
        proof {
            lemma_reaped_wf(self@, alive@);
        }
        let ghost before = *self;
        let ghost all = self@.processes;
        let ghost goal = reaped(all, alive@);
        let mut out: Vec<u64> = Vec::new();
        let mut i: usize = 0;
        assert(all.take(0) =~= seq![]);
        assert(self@.processes =~= goal.take(0) + all.skip(0));
        while i < self.processes.rows.len()
            invariant
                i <= self.processes.rows.len(),
                self.processes.rows.len() == all.len(),
                goal == reaped(all, alive@),
                self@.processes == goal.take(i as int) + all.skip(i as int),
                self@ == (ProjectView { processes: self@.processes, ..before@ }),
                out@ == dead_ids(all.take(i as int), alive@),
            decreases self.processes.rows.len() - i,
        {
            proof {
                let part = all.take(i + 1);
                assert(part.drop_last() =~= all.take(i as int));
                assert(part.last() == all[i as int]);
                assert(self@.processes[i as int] == all[i as int]);
                assert(self.processes.rows@[i as int]@ == all[i as int]);
                assert(goal.take(i + 1) =~= goal.take(i as int).push(goal[i as int]));
            }
            let row = &self.processes.rows[i];
            let dead = row.deleted_at.is_none() && text::is_some_text(&row.value.status, RUNNING)
                && (match row.value.pid {
                Some(pid) => !is_alive(alive, pid),
                None => false,
            });
            if dead {
                let id: u64 = row.id;
                let mut v = row.value.copy();
                v.status = Some(EXITED.to_owned());
                out.push(id);
                self.processes.set(i, v);
            }
            assert(self@.processes =~= goal.take(i + 1) + all.skip(i + 1));
            i += 1;
        }
        proof {
            assert(all.take(i as int) =~= all);
            assert(goal.take(i as int) + all.skip(i as int) =~= goal);
        }
        out
    }

    /// The pids of the processes that run.
    pub fn running_pids(&self) -> (out: Vec<i64>)
        ensures
            forall|pid: i64| #[trigger]
                out@.contains(pid) == exists|i: int|
                    0 <= i < self@.processes.len() && (
                    #[trigger] self@.processes[i]).deleted_at is None
                        && self@.processes[i].value.status == Some(RUNNING@)
                        && self@.processes[i].value.pid == Some(pid),
    {
        let ghost all = self@.processes;
        let mut out: Vec<i64> = Vec::new();
        let mut i: usize = 0;
        while i < self.processes.rows.len()
            invariant
                i <= self.processes.rows.len(),
                all == self@.processes,
                forall|pid: i64| #[trigger]
                    out@.contains(pid) == exists|k: int|
                        0 <= k < i && (#[trigger] all[k]).deleted_at is None && all[k].value.status
                            == Some(RUNNING@) && all[k].value.pid == Some(pid),
            decreases self.processes.rows.len() - i,
        {
            let ghost was = out@;
            let row = &self.processes.rows[i];
            assert(all[i as int] == row@);
            let counts = row.deleted_at.is_none() && text::is_some_text(&row.value.status, RUNNING);
            if counts {
                if let Some(pid) = row.value.pid {
                    out.push(pid);
                }
            }
            proof {
                assert forall|pid: i64| #[trigger] out@.contains(pid) == exists|k: int|
                    0 <= k < i + 1 && (#[trigger] all[k]).deleted_at is None && all[k].value.status
                        == Some(RUNNING@) && all[k].value.pid == Some(pid) by {
                    assert(was.contains(pid) == exists|k: int|
                        0 <= k < i && (#[trigger] all[k]).deleted_at is None && all[k].value.status
                            == Some(RUNNING@) && all[k].value.pid == Some(pid));
                    if was.contains(pid) {
                        let k = choose|k: int| 0 <= k < was.len() && was[k] == pid;
                        assert(out@[k] == pid);
                    }
                    if out@.contains(pid) && !was.contains(pid) {
                        let k = choose|k: int| 0 <= k < out@.len() && out@[k] == pid;
                        if k < was.len() {
                            assert(was[k] == pid);
                        }
                        assert(all[i as int].value.pid == Some(pid));
                    }
                    if counts && row.value.pid == Some(pid) {
                        assert(out@[was.len() as int] == pid);
                    }
                }
            }
            i += 1;
        }
        out
    }

    /// Whether an agent is up or coming up.
    pub fn any_live_agent(&self) -> (r: bool)
        ensures
            r == has_live_agent(self@),
    {
        let ghost all = self@.processes;
        let mut i: usize = 0;
        while i < self.processes.rows.len()
            invariant
                i <= self.processes.rows.len(),
                all == self@.processes,
                forall|k: int| 0 <= k < i ==> !is_live_agent(#[trigger] all[k]),
            decreases self.processes.rows.len() - i,
        {
            let row = &self.processes.rows[i];
            assert(all[i as int] == row@);
            if row.deleted_at.is_none() && row.value.kind == ProcessKind::Agent && (
            text::is_some_text(&row.value.status, STARTING) || text::is_some_text(
                &row.value.status,
                RUNNING,
            )) {
                assert(is_live_agent(all[i as int]));
                return true;
            }
            i += 1;
        }
        false
    }
}

/// A process after an edit.
fn edit_process(was: &Process, patch: ProcessPatch) -> (v: Process)
    ensures
        v@ == process_edited(was@, patch),
{
    let mut v = was.copy();
    if let Some(x) = patch.name {
        v.name = x;
    }
    if let Some(x) = patch.display_name {
        v.display_name = x;
    }
    if let Some(x) = patch.command {
        v.command = x;
    }
    if let Some(x) = patch.cwd {
        v.cwd = x;
    }
    if let Some(x) = patch.position {
        v.position = x;
    }
    if let Some(x) = patch.agent_tool_id {
        v.agent_tool_id = x;
    }
    if let Some(x) = patch.pid {
        v.pid = x;
    }
    if let Some(x) = patch.pane_id {
        v.pane_id = x;
    }
    if let Some(x) = patch.status {
        v.status = x;
    }
    if let Some(x) = patch.agent_state {
        v.agent_state = x;
    }
    if let Some(x) = patch.last_seen {
        v.last_seen = x;
    }
    if let Some(x) = patch.state_since {
        v.state_since = x;
    }
    v
}

} // verus!
