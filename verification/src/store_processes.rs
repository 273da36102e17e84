//! What can be done with agent tools and processes, project by project.

use vstd::prelude::*;
use vstd::string::*;

use crate::error::{CoreError, ErrorView};
use crate::model;
use crate::model::{
    AgentTool, AgentToolPatch, AgentToolView, Process, ProcessKind, ProcessPatch, ProcessView,
    ProjectId,
};
use crate::processes;
use crate::processes::ProcessDraft;
use crate::project::Project;
use crate::projection;
use crate::store;
use crate::store::{Moment, Store, Surface};
use crate::table;
use crate::text;
use crate::tools;
use crate::tools::ToolDraft;

verus! {

impl Store {
    /// Whether a type of agent has a profile.
    pub fn known_tool_type(&self, tool_type: &str) -> (r: bool)
        requires
            self@.wf(),
        ensures
            r == self@.profiles.map().has(tool_type@),
    {
        self.profiles.contains(tool_type)
    }

    /// The types of agents that have a profile, in order.
    pub fn agent_types(&self) -> (out: Vec<String>)
        ensures
            text::texts(out@) == self@.profiles.map().key_list(),
    {
        self.profiles.keys()
    }

    /// Creates an agent tool. Returns its id. A type that no profile describes
    /// is refused.
    pub fn agent_tool_create(
        &mut self,
        project: ProjectId,
        name: String,
        display_name: String,
        command: String,
        cwd: String,
        tool_type: String,
        system_prompt: String,
        enabled: bool,
        now: &Moment,
    ) -> (r: Result<u64, CoreError>)
        requires
            old(self)@.wf(),
            old(self)@.has_room(project.0),
        ensures
            store::settles(
                r,
                if !old(self)@.profiles.map().has(tool_type@) {
                    Err(ErrorView::UnknownToolType(tool_type@))
                } else if !old(self)@.has(project.0) {
                    Err(ErrorView::ProjectNotFound(project.0))
                } else {
                    Ok(
                        tools::tool_added(
                            old(self)@.project(project.0),
                            (ToolDraft {
                                name,
                                display_name,
                                command,
                                cwd,
                                tool_type,
                                system_prompt,
                                enabled,
                            }),
                            now.text@,
                        ),
                    )
                },
                project.0,
                seq![Surface::AgentTools],
                old(self)@,
                final(self)@,
            ),
            r matches Ok(id) ==> id == old(self)@.project(project.0).next_id,
            final(self)@.wf(),
    {
        if !self.profiles.contains(tool_type.as_str()) {
            return Err(CoreError::UnknownToolType(tool_type));
        }
        let ghost before = self@;
        let i: usize = match self.find_project(project.0) {
            Some(i) => i,
            None => return Err(CoreError::ProjectNotFound(project.0)),
        };
        proof {
            store::lemma_place(before.projects, project.0);
        }
        let draft = ToolDraft {
            name,
            display_name,
            command,
            cwd,
            tool_type,
            system_prompt,
            enabled,
        };
        let id: u64 = self.projects[i].agent_tool_create(draft, now.text.as_str());
        self.settle_change(project.0, i, true, Surface::AgentTools, Ghost(before));
        Ok(id)
    }

    /// The agent tools of a project, by position.
    pub fn agent_tool_list(&self, project: ProjectId) -> (r: Result<Vec<AgentTool>, CoreError>)
        ensures
            r is Ok,
            model::tool_views(r->Ok_0@) == tools::tools_of(self@.project(project.0), self@.default_type),
    {
        match self.find_project(project.0) {
            Some(i) => Ok(self.projects[i].agent_tool_list(self.default_type.as_str())),
            None => {
                let none = Project::new(project.0, String::new(), None);
                proof {
                    assert(none@.root =~= seq![]);
                }
                Ok(none.agent_tool_list(self.default_type.as_str()))
            },
        }
    }

    /// An agent tool.
    pub fn agent_tool_get(&self, project: ProjectId, id: u64) -> (r: Result<AgentTool, CoreError>)
        ensures
            match r {
                Ok(t) => tools::tool_at(self@.project(project.0), self@.default_type, id) == Ok::<
                    AgentToolView,
                    ErrorView,
                >(t@),
                Err(e) => tools::tool_at(self@.project(project.0), self@.default_type, id) == Err::<
                    AgentToolView,
                    ErrorView,
                >(e@),
            },
    {
        match self.find_project(project.0) {
            Some(i) => self.projects[i].agent_tool_get(self.default_type.as_str(), id),
            None => Err(CoreError::AgentToolNotFound(id)),
        }
    }

    /// Edits an agent tool. A type that no profile describes is refused.
    pub fn agent_tool_update(
        &mut self,
        project: ProjectId,
        id: u64,
        patch: AgentToolPatch,
    ) -> (r: Result<(), CoreError>)
        requires
            old(self)@.wf(),
        ensures
            store::settles(
                r,
                tools::tool_updated(
                    old(self)@.project(project.0),
                    old(self)@.profiles,
                    old(self)@.default_type,
                    id,
                    patch,
                ),
                project.0,
                seq![Surface::AgentTools],
                old(self)@,
                final(self)@,
            ),
            final(self)@.wf(),
    {
        let ghost before = self@;
        let i: usize = match self.find_project(project.0) {
            Some(i) => i,
            None => return Err(CoreError::AgentToolNotFound(id)),
        };
        proof {
            store::lemma_place(before.projects, project.0);
        }
        let r = self.projects[i].agent_tool_update(
            &self.profiles,
            self.default_type.as_str(),
            id,
            patch,
        );
        self.settle_change(project.0, i, r.is_ok(), Surface::AgentTools, Ghost(before));
        r
    }

    /// Deletes an agent tool. What was started from it keeps saying so.
    pub fn agent_tool_delete(
        &mut self,
        project: ProjectId,
        id: u64,
        now: &Moment,
    ) -> (r: Result<(), CoreError>)
        requires
            old(self)@.wf(),
        ensures
            store::settles(
                r,
                tools::tool_deleted(old(self)@.project(project.0), id, now.text@),
                project.0,
                seq![Surface::AgentTools],
                old(self)@,
                final(self)@,
            ),
            final(self)@.wf(),
    {
        let ghost before = self@;
        let i: usize = match self.find_project(project.0) {
            Some(i) => i,
            None => return Err(CoreError::AgentToolNotFound(id)),
        };
        proof {
            store::lemma_place(before.projects, project.0);
        }
        let r = self.projects[i].agent_tool_delete(id, now.text.as_str());
        self.settle_change(project.0, i, r.is_ok(), Surface::AgentTools, Ghost(before));
        r
    }

    /// Creates a process. Returns its id. A tool that it names must be there.
    pub fn process_create(
        &mut self,
        project: ProjectId,
        kind: ProcessKind,
        name: String,
        display_name: String,
        command: String,
        cwd: String,
        agent_tool_id: Option<u64>,
        now: &Moment,
    ) -> (r: Result<u64, CoreError>)
        requires
            old(self)@.wf(),
            old(self)@.has_room(project.0),
        ensures
            store::settles(
                r,
                if old(self)@.has(project.0) || processes::tool_fault(
                    old(self)@.project(project.0),
                    agent_tool_id,
                ) is Some {
                    processes::process_added(
                        old(self)@.project(project.0),
                        (ProcessDraft { kind, name, display_name, command, cwd, agent_tool_id }),
                        now.text@,
                    )
                } else {
                    Err(ErrorView::ProjectNotFound(project.0))
                },
                project.0,
                seq![Surface::Processes],
                old(self)@,
                final(self)@,
            ),
            r matches Ok(id) ==> id == old(self)@.project(project.0).next_id,
            final(self)@.wf(),
    {
        let ghost before = self@;
        let draft = ProcessDraft { kind, name, display_name, command, cwd, agent_tool_id };
        let i: usize = match self.find_project(project.0) {
            Some(i) => i,
            None => {
                if agent_tool_id.is_none() {
                    return Err(CoreError::ProjectNotFound(project.0));
                }
                let mut none = Project::new(project.0, String::new(), None);
                proof {
                    assert(none@.root =~= seq![]);
                }
                return none.process_create(draft, now.text.as_str());
            },
        };
        proof {
            store::lemma_place(before.projects, project.0);
        }
        let r = self.projects[i].process_create(draft, now.text.as_str());
        self.settle_change(project.0, i, r.is_ok(), Surface::Processes, Ghost(before));
        r
    }

    /// The processes of a project, by position.
    pub fn process_list(&self, project: ProjectId) -> (r: Result<Vec<Process>, CoreError>)
        ensures
            r is Ok,
            model::instance_views(r->Ok_0@) == processes::processes_of(self@.project(project.0)),
    {
        match self.find_project(project.0) {
            Some(i) => Ok(self.projects[i].process_list()),
            None => {
                let none = Project::new(project.0, String::new(), None);
                proof {
                    assert(none@.root =~= seq![]);
                }
                Ok(none.process_list())
            },
        }
    }

    /// The types of the tools of a project, by id of the tool.
    pub fn tool_type_map(&self, project: ProjectId) -> (r: Vec<(u64, String)>)
        ensures
            projection::type_views(r@) == tools::types_of(
                tools::tools_of(self@.project(project.0), self@.default_type),
            ),
    {
        match self.find_project(project.0) {
            Some(i) => self.projects[i].tool_types(self.default_type.as_str()),
            None => {
                let none = Project::new(project.0, String::new(), None);
                proof {
                    assert(none@.root =~= seq![]);
                }
                none.tool_types(self.default_type.as_str())
            },
        }
    }

    /// A process.
    pub fn process_get(&self, project: ProjectId, id: u64) -> (r: Result<Process, CoreError>)
        ensures
            match r {
                Ok(v) => processes::process_at(self@.project(project.0), id) == Ok::<
                    ProcessView,
                    ErrorView,
                >(v@),
                Err(e) => processes::process_at(self@.project(project.0), id) == Err::<
                    ProcessView,
                    ErrorView,
                >(e@),
            },
    {
        match self.find_project(project.0) {
            Some(i) => self.projects[i].process_get(id),
            None => Err(CoreError::ProcessNotFound(id)),
        }
    }

    /// Edits a process. A tool that it comes to name must be there.
    pub fn process_update(
        &mut self,
        project: ProjectId,
        id: u64,
        patch: ProcessPatch,
    ) -> (r: Result<(), CoreError>)
        requires
            old(self)@.wf(),
        ensures
            store::settles(
                r,
                processes::process_updated(old(self)@.project(project.0), id, patch),
                project.0,
                seq![Surface::Processes],
                old(self)@,
                final(self)@,
            ),
            final(self)@.wf(),
    {
        let ghost before = self@;
        let i: usize = match self.find_project(project.0) {
            Some(i) => i,
            None => return Err(CoreError::ProcessNotFound(id)),
        };
        proof {
            store::lemma_place(before.projects, project.0);
        }
        let r = self.projects[i].process_update(id, patch);
        self.settle_change(project.0, i, r.is_ok(), Surface::Processes, Ghost(before));
        r
    }

    /// Deletes a process.
    pub fn process_delete(
        &mut self,
        project: ProjectId,
        id: u64,
        now: &Moment,
    ) -> (r: Result<(), CoreError>)
        requires
            old(self)@.wf(),
        ensures
            store::settles(
                r,
                processes::process_deleted(old(self)@.project(project.0), id, now.text@),
                project.0,
                seq![Surface::Processes],
                old(self)@,
                final(self)@,
            ),
            final(self)@.wf(),
    {
        let ghost before = self@;
        let i: usize = match self.find_project(project.0) {
            Some(i) => i,
            None => return Err(CoreError::ProcessNotFound(id)),
        };
        proof {
            store::lemma_place(before.projects, project.0);
        }
        let r = self.projects[i].process_delete(id, now.text.as_str());
        self.settle_change(project.0, i, r.is_ok(), Surface::Processes, Ghost(before));
        r
    }

    /// Asks for an instance of a tool. Each call makes a new one; what this
    /// launch adds is kept with it and not with the tool.
    pub fn process_start_with(
        &mut self,
        project: ProjectId,
        agent_tool_id: u64,
        name: Option<String>,
        extra_args: Vec<String>,
        now: &Moment,
    ) -> (r: Result<Process, CoreError>)
        requires
            old(self)@.wf(),
            old(self)@.has_room(project.0),
        ensures
            store::settles(
                r,
                processes::process_started(
                    old(self)@.project(project.0),
                    agent_tool_id,
                    text::opt_text(name),
                    text::texts(extra_args@),
                    now.text@,
                ),
                project.0,
                seq![Surface::Processes],
                old(self)@,
                final(self)@,
            ),
            r matches Ok(v) ==> processes::process_at(
                final(self)@.project(project.0),
                old(self)@.project(project.0).next_id,
            ) == Ok::<ProcessView, ErrorView>(v@),
            final(self)@.wf(),
    {
        let ghost before = self@;
        let i: usize = match self.find_project(project.0) {
            Some(i) => i,
            None => return Err(CoreError::AgentToolNotFound(agent_tool_id)),
        };
        proof {
            store::lemma_place(before.projects, project.0);
        }
        let r = self.projects[i].process_start_with(agent_tool_id, name, extra_args, now.text.as_str());
        let ghost after = self@.projects[i as int];
        self.settle_change(project.0, i, r.is_ok(), Surface::Processes, Ghost(before));
        proof {
            if r is Ok {
                store::law_written_project_is_read(
                    before,
                    project.0,
                    after,
                    seq![Surface::Processes],
                );
            }
        }
        r
    }

    /// Asks for an instance of a tool.
    pub fn process_start(&mut self, project: ProjectId, agent_tool_id: u64, now: &Moment) -> (r:
        Result<Process, CoreError>)
        requires
            old(self)@.wf(),
            old(self)@.has_room(project.0),
        ensures
            store::settles(
                r,
                processes::process_started(
                    old(self)@.project(project.0),
                    agent_tool_id,
                    None,
                    seq![],
                    now.text@,
                ),
                project.0,
                seq![Surface::Processes],
                old(self)@,
                final(self)@,
            ),
            r matches Ok(v) ==> processes::process_at(
                final(self)@.project(project.0),
                old(self)@.project(project.0).next_id,
            ) == Ok::<ProcessView, ErrorView>(v@),
            final(self)@.wf(),
    {
        let none: Vec<String> = Vec::new();
        assert(text::texts(none@) =~= seq![]);
        self.process_start_with(project, agent_tool_id, None, none, now)
    }

    /// Notes what the host of a process reports.
    pub fn process_report(
        &mut self,
        project: ProjectId,
        id: u64,
        pid: Option<i64>,
        pane_id: Option<String>,
        agent_state: Option<String>,
        now: &Moment,
    ) -> (r: Result<(), CoreError>)
        requires
            old(self)@.wf(),
        ensures
            store::settles(
                r,
                processes::on_process(
                    old(self)@.project(project.0),
                    id,
                    |v: ProcessView|
                        processes::process_reported(
                            v,
                            pid,
                            text::opt_text(pane_id),
                            text::opt_text(agent_state),
                            now.text@,
                            now.secs,
                        ),
                ),
                project.0,
                seq![Surface::Processes],
                old(self)@,
                final(self)@,
            ),
            final(self)@.wf(),
    {
        let ghost before = self@;
        let i: usize = match self.find_project(project.0) {
            Some(i) => i,
            None => return Err(CoreError::ProcessNotFound(id)),
        };
        proof {
            store::lemma_place(before.projects, project.0);
        }
        let r = self.projects[i].process_report(id, pid, pane_id, agent_state, now.text.as_str(), now.secs);
        self.settle_change(project.0, i, r.is_ok(), Surface::Processes, Ghost(before));
        r
    }

    /// Marks a process as stopped. Returns its pid, for whoever is to signal it.
    pub fn process_stop(
        &mut self,
        project: ProjectId,
        id: u64,
    ) -> (r: Result<Option<i64>, CoreError>)
        requires
            old(self)@.wf(),
        ensures
            store::settles(
                r,
                processes::on_process(
                    old(self)@.project(project.0),
                    id,
                    |v: ProcessView| processes::with_status(v, processes::STOPPED@),
                ),
                project.0,
                seq![Surface::Processes],
                old(self)@,
                final(self)@,
            ),
            r matches Ok(pid) ==> pid == table::live_value(
                old(self)@.project(project.0).processes,
                id,
            )->0.pid,
            final(self)@.wf(),
    {
        let ghost before = self@;
        let i: usize = match self.find_project(project.0) {
            Some(i) => i,
            None => return Err(CoreError::ProcessNotFound(id)),
        };
        proof {
            store::lemma_place(before.projects, project.0);
        }
        let r = self.projects[i].process_stop(id);
        self.settle_change(project.0, i, r.is_ok(), Surface::Processes, Ghost(before));
        r
    }
}

} // verus!
