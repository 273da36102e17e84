//! The agent tools of a project: configurations that agents are started from.

use vstd::prelude::*;
use vstd::string::*;

use crate::error::{CoreError, ErrorView};
use crate::model;
use crate::model::{AgentTool, AgentToolPatch, AgentToolView};
use crate::profile_set::ProfileSet;
use crate::project;
use crate::project::{Project, ProjectView};
use crate::projection;
use crate::sorting;
use crate::sorting::Order;
use crate::table;
use crate::text;

verus! {

/// What a new tool is made of.
#[derive(Debug)]
pub struct ToolDraft {
    pub name: String,
    pub display_name: String,
    pub command: String,
    pub cwd: String,
    pub tool_type: String,
    pub system_prompt: String,
    pub enabled: bool,
}

/// A new tool. It stands behind those that were made before.
pub open spec fn new_tool(id: u64, d: ToolDraft, now: Seq<char>) -> AgentToolView {
    AgentToolView {
        id,
        name: d.name@,
        display_name: d.display_name@,
        command: d.command@,
        cwd: d.cwd@,
        tool_type: d.tool_type@,
        system_prompt: d.system_prompt@,
        enabled: d.enabled,
        position: id as i64,
        created_at: now,
    }
}

/// A project with one tool more.
pub open spec fn tool_added(p: ProjectView, d: ToolDraft, now: Seq<char>) -> ProjectView {
    ProjectView {
        next_id: (p.next_id + 1) as u64,
        tools: table::with_row(p.tools, p.next_id, new_tool(p.next_id, d, now)),
        ..p
    }
}

/// The type of a tool as it is read: where none is named, or the one that
/// older files name, it is the usual one.
pub open spec fn normal_type(usual: Seq<char>, raw: Seq<char>) -> Seq<char> {
    if raw.len() == 0 || raw == "agent"@ {
        usual
    } else {
        raw
    }
}

/// A tool as it is read.
pub open spec fn shown_tool(usual: Seq<char>, t: AgentToolView) -> AgentToolView {
    AgentToolView { tool_type: normal_type(usual, t.tool_type), ..t }
}

/// A tool.
pub open spec fn tool_at(p: ProjectView, usual: Seq<char>, id: u64) -> Result<
    AgentToolView,
    ErrorView,
> {
    match table::live_value(p.tools, id) {
        Some(t) => Ok(shown_tool(usual, t)),
        None => Err(ErrorView::AgentToolNotFound(id)),
    }
}

/// Whether a tool is listed after another: by position, then by id.
pub open spec fn tool_after(a: AgentToolView, b: AgentToolView) -> bool {
    a.position > b.position || (a.position == b.position && a.id > b.id)
}

/// The tools, by position.
pub open spec fn tools_of(p: ProjectView, usual: Seq<char>) -> Seq<AgentToolView> {
    sorting::sorted_by(
        |a: AgentToolView, b: AgentToolView| tool_after(a, b),
        table::live_values(p.tools).map_values(|t: AgentToolView| shown_tool(usual, t)),
    )
}

/// A tool after an edit.
pub open spec fn tool_edited(
    usual: Seq<char>,
    t: AgentToolView,
    patch: AgentToolPatch,
) -> AgentToolView {
    AgentToolView {
        name: model::edited(patch.name, t.name),
        display_name: model::edited(patch.display_name, t.display_name),
        command: model::edited(patch.command, t.command),
        cwd: model::edited(patch.cwd, t.cwd),
        tool_type: model::edited(patch.tool_type, normal_type(usual, t.tool_type)),
        system_prompt: model::edited(patch.system_prompt, t.system_prompt),
        enabled: model::replaced(patch.enabled, t.enabled),
        position: model::replaced(patch.position, t.position),
        ..t
    }
}

/// A project with another value for a tool.
pub open spec fn with_tool(p: ProjectView, i: int, t: AgentToolView) -> ProjectView {
    ProjectView { tools: table::with_value(p.tools, i, t), ..p }
}

/// A project after a tool was edited. A type that no profile describes is
/// refused.
pub open spec fn tool_updated(
    p: ProjectView,
    types: ProfileSet,
    usual: Seq<char>,
    id: u64,
    patch: AgentToolPatch,
) -> Result<ProjectView, ErrorView> {
    match table::live_place(p.tools, id) {
        None => Err(ErrorView::AgentToolNotFound(id)),
        Some(i) => if patch.tool_type matches Some(t) && !types.map().has(t@) {
            Err(ErrorView::UnknownToolType(patch.tool_type->0@))
        } else {
            Ok(with_tool(p, i, tool_edited(usual, p.tools[i].value, patch)))
        },
    }
}

/// A project after a tool was deleted. Processes that were started from it
/// keep saying so.
pub open spec fn tool_deleted(p: ProjectView, id: u64, now: Seq<char>) -> Result<
    ProjectView,
    ErrorView,
> {
    match table::live_place(p.tools, id) {
        Some(i) => Ok(ProjectView { tools: table::with_deleted(p.tools, i, now), ..p }),
        None => Err(ErrorView::AgentToolNotFound(id)),
    }
}

/// The types of the tools, by id of the tool.
pub open spec fn types_of(tools: Seq<AgentToolView>) -> Seq<(u64, Seq<char>)> {
    tools.map_values(|t: AgentToolView| (t.id, t.tool_type))
}

// ---------------------------------------------------------------------------
// What every operation keeps
// ---------------------------------------------------------------------------

/// A value with the id of its row keeps the project sound and its numbers apart.
pub proof fn lemma_with_tool_wf(p: ProjectView, i: int, t: AgentToolView)
    requires
        p.wf(),
        0 <= i < p.tools.len(),
        t.id == p.tools[i].id,
    ensures
        with_tool(p, i, t).wf(),
        p.told_apart() ==> with_tool(p, i, t).told_apart(),
{
    let after = with_tool(p, i, t);
    project::lemma_value_same_ids(p.tools, i, t);
    project::lemma_same_ids_ordered(p, after);
}

/// One tool more keeps the project sound and its numbers apart.
pub proof fn lemma_tool_added_wf(p: ProjectView, d: ToolDraft, now: Seq<char>)
    requires
        p.wf(),
        p.has_room(),
    ensures
        tool_added(p, d, now).wf(),
        p.told_apart() ==> tool_added(p, d, now).told_apart(),
{
    let after = tool_added(p, d, now);
    let id = p.next_id;
    let t = new_tool(id, d, now);
    project::lemma_row_in_order(p.tools, id, t);
    project::lemma_counter_grows(p.todos, id, after.next_id);
    project::lemma_counter_grows(p.notes, id, after.next_id);
    project::lemma_counter_grows(p.processes, id, after.next_id);
    if p.told_apart() {
        project::lemma_apart_turned(p.todos, p.tools);
        project::lemma_apart_turned(p.notes, p.tools);
        project::lemma_row_apart(p.tools, p.todos, id, t);
        project::lemma_row_apart(p.tools, p.notes, id, t);
        project::lemma_row_apart(p.tools, p.processes, id, t);
    }
}

/// Deleting a tool keeps the project sound and its numbers apart.
pub proof fn lemma_tool_deleted_wf(p: ProjectView, i: int, now: Seq<char>)
    requires
        p.wf(),
        0 <= i < p.tools.len(),
    ensures
        (ProjectView { tools: table::with_deleted(p.tools, i, now), ..p }).wf(),
        p.told_apart() ==> (
        ProjectView { tools: table::with_deleted(p.tools, i, now), ..p }).told_apart(),
{
    let after = ProjectView { tools: table::with_deleted(p.tools, i, now), ..p };
    project::lemma_deleted_same_ids(p.tools, i, now);
    project::lemma_same_ids_ordered(p, after);
    assert forall|k: int| 0 <= k < after.tools.len() implies (#[trigger] after.tools[k]).value.id
        == after.tools[k].id by {
        assert(p.tools[k].value.id == p.tools[k].id);
    }
}

/// What was created is read back, with the usual type where none was named.
pub proof fn law_created_tool_is_read(
    p: ProjectView,
    usual: Seq<char>,
    d: ToolDraft,
    now: Seq<char>,
)
    requires
        p.wf(),
        p.has_room(),
    ensures
        tool_at(tool_added(p, d, now), usual, p.next_id) == Ok::<AgentToolView, ErrorView>(
            shown_tool(usual, new_tool(p.next_id, d, now)),
        ),
{
    table::law_added_is_found(p.tools, p.next_id, new_tool(p.next_id, d, now));
}

/// A deleted tool is not found; its row, and with it what was started from it,
/// stays as it was.
pub proof fn law_deleted_tool_is_gone(
    p: ProjectView,
    usual: Seq<char>,
    id: u64,
    now: Seq<char>,
)
    requires
        p.wf(),
        table::has_live(p.tools, id),
    ensures
        tool_at(tool_deleted(p, id, now)->Ok_0, usual, id) is Err,
        tool_deleted(p, id, now)->Ok_0.processes == p.processes,
{
    project::lemma_in_order_unique(p.tools, p.next_id);
    table::law_deleted_is_gone(p.tools, id, now);
}

/// Reading the type of a tool twice gives what reading it once gives.
pub proof fn law_normal_type_stays(usual: Seq<char>, raw: Seq<char>)
    ensures
        normal_type(usual, normal_type(usual, raw)) == normal_type(usual, raw),
{
}

// ---------------------------------------------------------------------------
// Operations
// ---------------------------------------------------------------------------

/// The type of a tool as it is read.
fn normalize_tool_type(usual: &str, raw: String) -> (r: String)
    ensures
        r@ == normal_type(usual@, raw@),
{
    if raw.as_str().unicode_len() == 0 || text::same(raw.as_str(), "agent") {
        usual.to_owned()
    } else {
        raw
    }
}

/// A tool as it is read.
fn show_tool(usual: &str, t: &AgentTool) -> (r: AgentTool)
    ensures
        r@ == shown_tool(usual@, t@),
{
    let mut r = t.copy();
    r.tool_type = normalize_tool_type(usual, t.tool_type.clone());
    r
}

/// The order in which tools are listed.
struct ByPosition;

impl Order<AgentTool> for ByPosition {
    closed spec fn after(&self, a: AgentTool, b: AgentTool) -> bool {
        tool_after(a@, b@)
    }

    fn is_after(&self, a: &AgentTool, b: &AgentTool) -> (r: bool) {
        a.position > b.position || (a.position == b.position && a.id > b.id)
    }
}

impl Project {
    /// Creates a tool.
    pub fn agent_tool_create(&mut self, draft: ToolDraft, now: &str) -> (id: u64)
        requires
            old(self)@.wf(),
            old(self)@.has_room(),
        ensures
            id == old(self)@.next_id,
            final(self)@ == tool_added(old(self)@, draft, now@),
            final(self)@.wf(),
    {
        proof {
            lemma_tool_added_wf(self@, draft, now@);
        }
        let id: u64 = self.next_id;
        let tool = AgentTool {
            id,
            name: draft.name,
            display_name: draft.display_name,
            command: draft.command,
            cwd: draft.cwd,
            tool_type: draft.tool_type,
            system_prompt: draft.system_prompt,
            enabled: draft.enabled,
            position: id as i64,
            created_at: now.to_owned(),
        };
        self.tools.add(id, tool);
        self.next_id = id + 1;
        id
    }

    /// The tools, by position.
    pub fn agent_tool_list(&self, usual: &str) -> (out: Vec<AgentTool>)
        ensures
            model::tool_views(out@) == tools_of(self@, usual@),
    {
        let ghost all = self@.tools;
        let ghost show = |t: AgentToolView| shown_tool(usual@, t);
        let mut out: Vec<AgentTool> = Vec::new();
        let mut i: usize = 0;
        assert(all.take(0) =~= seq![]);
        assert(sorting::contents(out@) =~= table::live_values(all.take(0)).map_values(show));
        while i < self.tools.rows.len()
            invariant
                i <= self.tools.rows.len(),
                all == self@.tools,
                show == (|t: AgentToolView| shown_tool(usual@, t)),
                sorting::contents(out@) == table::live_values(all.take(i as int)).map_values(show),
            decreases self.tools.rows.len() - i,
        {
            let ghost was = out@;
            let ghost live = table::live_values(all.take(i as int));
            proof {
                let part = all.take(i + 1);
                assert(part.drop_last() =~= all.take(i as int));
                assert(part.last() == self.tools.rows@[i as int]@);
            }
            if self.tools.rows[i].deleted_at.is_none() {
                let t = show_tool(usual, &self.tools.rows[i].value);
                out.push(t);
                proof {
                    let v = self.tools.rows@[i as int].value@;
                    assert(sorting::contents(out@) =~= sorting::contents(was).push(t@));
                    assert(live.push(v).map_values(show) =~= live.map_values(show).push(show(v)));
                }
            }
            i += 1;
        }
        assert(all.take(i as int) =~= all);
        proof {
            sorting::lemma_sorted_contents(
                &ByPosition,
                |a: AgentToolView, b: AgentToolView| tool_after(a, b),
                out@,
            );
        }
        let sorted = sorting::sort(&ByPosition, out);
        assert(model::tool_views(sorted@) =~= sorting::contents(sorted@));
        sorted
    }

    /// A tool.
    pub fn agent_tool_get(&self, usual: &str, id: u64) -> (r: Result<AgentTool, CoreError>)
        ensures
            match r {
                Ok(t) => tool_at(self@, usual@, id) == Ok::<AgentToolView, ErrorView>(t@),
                Err(e) => tool_at(self@, usual@, id) == Err::<AgentToolView, ErrorView>(e@),
            },
    {
        match self.tools.find(id) {
            Some(i) => {
                proof {
                    table::lemma_live_place(self.tools@, id);
                }
                Ok(show_tool(usual, self.tools.at(i)))
            },
            None => Err(CoreError::AgentToolNotFound(id)),
        }
    }

    /// Edits a tool.
    pub fn agent_tool_update(
        &mut self,
        types: &ProfileSet,
        usual: &str,
        id: u64,
        patch: AgentToolPatch,
    ) -> (r: Result<(), CoreError>)
        requires
            old(self)@.wf(),
            types.wf(),
        ensures
            project::settles(
                r,
                tool_updated(old(self)@, *types, usual@, id, patch),
                old(self)@,
                final(self)@,
            ),
            final(self)@.wf(),
    {
        let i: usize = match self.tools.find(id) {
            Some(i) => i,
            None => return Err(CoreError::AgentToolNotFound(id)),
        };
        proof {
            table::lemma_live_place(self.tools@, id);
        }
        let mut tool = show_tool(usual, self.tools.at(i));
        let ghost was = self@.tools[i as int].value;
        if let Some(t) = patch.tool_type {
            if !types.contains(t.as_str()) {
                return Err(CoreError::UnknownToolType(t));
            }
            tool.tool_type = t;
        }
        if let Some(v) = patch.name {
            tool.name = v;
        }
        if let Some(v) = patch.display_name {
            tool.display_name = v;
        }
        if let Some(v) = patch.command {
            tool.command = v;
        }
        if let Some(v) = patch.cwd {
            tool.cwd = v;
        }
        if let Some(v) = patch.system_prompt {
            tool.system_prompt = v;
        }
        if let Some(v) = patch.enabled {
            tool.enabled = v;
        }
        if let Some(v) = patch.position {
            tool.position = v;
        }
        proof {
            assert(tool@ == tool_edited(usual@, was, patch));
            assert(self@.tools[i as int].value.id == self@.tools[i as int].id);
            lemma_with_tool_wf(self@, i as int, tool@);
        }
        self.tools.set(i, tool);
        Ok(())
    }

    /// Deletes a tool.
    pub fn agent_tool_delete(&mut self, id: u64, now: &str) -> (r: Result<(), CoreError>)
        requires
            old(self)@.wf(),
        ensures
            project::settles(r, tool_deleted(old(self)@, id, now@), old(self)@, final(self)@),
            final(self)@.wf(),
    {
        match self.tools.find(id) {
            Some(i) => {
                proof {
                    table::lemma_live_place(self.tools@, id);
                    lemma_tool_deleted_wf(self@, i as int, now@);
                }
                self.tools.delete(i, now);
                Ok(())
            },
            None => Err(CoreError::AgentToolNotFound(id)),
        }
    }

    /// The types of the tools, by id of the tool.
    pub fn tool_types(&self, usual: &str) -> (out: Vec<(u64, String)>)
        ensures
            projection::type_views(out@) == types_of(tools_of(self@, usual@)),
    {
        let list = self.agent_tool_list(usual);
        let ghost goal = types_of(model::tool_views(list@));
        let mut out: Vec<(u64, String)> = Vec::new();
        let mut i: usize = 0;
        assert(projection::type_views(out@) =~= goal.take(0));
        while i < list.len()
            invariant
                i <= list.len(),
                goal == types_of(model::tool_views(list@)),
                projection::type_views(out@) == goal.take(i as int),
            decreases list.len() - i,
        {
            let ghost was = out@;
            let e = (list[i].id, list[i].tool_type.clone());
            out.push(e);
            proof {
                assert(goal[i as int] == (e.0, e.1@));
                assert(projection::type_views(out@) =~= projection::type_views(was).push(
                    (e.0, e.1@),
                ));
                assert(goal.take(i + 1) =~= goal.take(i as int).push(goal[i as int]));
            }
            i += 1;
        }
        assert(goal.take(i as int) =~= goal);
        out
    }
}

} // verus!
