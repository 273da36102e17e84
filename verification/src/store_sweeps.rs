//! What the daemon does from time to time: it finds the processes that are
//! gone, and shows again what changes with time alone.

use vstd::prelude::*;
use vstd::string::*;

use crate::error::CoreError;
use crate::processes;
use crate::project::ProjectView;
use crate::sorting;
use crate::store;
use crate::store::{Store, StoreView, Surface};

verus! {

/// The projects after the processes that are gone were marked.
pub open spec fn all_reaped(projects: Seq<ProjectView>, alive: Seq<i64>) -> Seq<ProjectView> {
    projects.map_values(
        |p: ProjectView| ProjectView { processes: processes::reaped(p.processes, alive), ..p },
    )
}

/// The processes that are gone, with their projects.
pub open spec fn all_dead(projects: Seq<ProjectView>, alive: Seq<i64>) -> Seq<(i64, u64)>
    decreases projects.len(),
{
    if projects.len() == 0 {
        seq![]
    } else {
        all_dead(projects.drop_last(), alive) + processes::dead_ids(
            projects.last().processes,
            alive,
        ).map_values(|id: u64| (projects.last().id, id))
    }
}

/// The processes of a project are shown again for each that is gone.
pub open spec fn dead_shown(dead: Seq<(i64, u64)>) -> Seq<(i64, Surface)> {
    dead.map_values(|d: (i64, u64)| (d.0, Surface::Processes))
}

/// The projects with an agent that is up or coming up.
pub open spec fn projects_with_agents(projects: Seq<ProjectView>) -> Seq<i64>
    decreases projects.len(),
{
    if projects.len() == 0 {
        seq![]
    } else if processes::has_live_agent(projects.last()) {
        projects_with_agents(projects.drop_last()).push(projects.last().id)
    } else {
        projects_with_agents(projects.drop_last())
    }
}

/// The processes of some projects, to be shown again.
pub open spec fn processes_shown(ids: Seq<i64>) -> Seq<(i64, Surface)> {
    ids.map_values(|id: i64| (id, Surface::Processes))
}

/// Marking the dead keeps every project sound and every id in its place.
proof fn lemma_all_reaped(projects: Seq<ProjectView>, alive: Seq<i64>)
    requires
        forall|i: int| 0 <= i < projects.len() ==> (#[trigger] projects[i]).wf(),
    ensures
        forall|i: int|
            0 <= i < projects.len() ==> (#[trigger] all_reaped(projects, alive)[i]).wf()
                && all_reaped(projects, alive)[i].id == projects[i].id,
{
    assert forall|i: int| 0 <= i < projects.len() implies (#[trigger] all_reaped(
        projects,
        alive,
    )[i]).wf() && all_reaped(projects, alive)[i].id == projects[i].id by {
        processes::lemma_reaped_wf(projects[i], alive);
    }
}

/// A process that is found to be gone is found once.
pub proof fn law_dead_are_found_once(projects: Seq<ProjectView>, alive: Seq<i64>)
    ensures
        all_dead(all_reaped(projects, alive), alive).len() == 0,
    decreases projects.len(),
{
    if projects.len() > 0 {
        let after = all_reaped(projects, alive);
        law_dead_are_found_once(projects.drop_last(), alive);
        assert(after.drop_last() =~= all_reaped(projects.drop_last(), alive));
        processes::law_reaping_is_final(projects.last().processes, alive);
    }
}

impl Store {
    /// The pids of the processes that run, over all projects. Whoever can ask
    /// the machine tells which of them are alive.
    pub fn running_pids(&self) -> (out: Vec<i64>)
        ensures
            forall|pid: i64| #[trigger]
                out@.contains(pid) == exists|i: int, k: int|
                    0 <= i < self@.projects.len() && 0 <= k < self@.projects[i].processes.len()
                        && (#[trigger] self@.projects[i].processes[k]).deleted_at is None
                        && self@.projects[i].processes[k].value.status == Some(
                        processes::RUNNING@,
                    ) && self@.projects[i].processes[k].value.pid == Some(pid),
    {
        let ghost all = self@.projects;
        let mut out: Vec<i64> = Vec::new();
        let mut i: usize = 0;
        while i < self.projects.len()
            invariant
                i <= self.projects.len(),
                all == sorting::contents(self.projects@),
                forall|pid: i64| #[trigger]
                    out@.contains(pid) == exists|a: int, k: int|
                        0 <= a < i && 0 <= k < all[a].processes.len() && (
                        #[trigger] all[a].processes[k]).deleted_at is None
                            && all[a].processes[k].value.status == Some(processes::RUNNING@)
                            && all[a].processes[k].value.pid == Some(pid),
            decreases self.projects.len() - i,
        {
            let ghost was = out@;
            let mut more = self.projects[i].running_pids();
            let ghost extra = more@;
            assert(all[i as int] == self.projects@[i as int]@);
            out.append(&mut more);
            proof {
                assert forall|pid: i64| #[trigger] out@.contains(pid) == exists|a: int, k: int|
                    0 <= a < i + 1 && 0 <= k < all[a].processes.len() && (
                    #[trigger] all[a].processes[k]).deleted_at is None
                        && all[a].processes[k].value.status == Some(processes::RUNNING@)
                        && all[a].processes[k].value.pid == Some(pid) by {
                    assert(was.contains(pid) == exists|a: int, k: int|
                        0 <= a < i && 0 <= k < all[a].processes.len() && (
                        #[trigger] all[a].processes[k]).deleted_at is None
                            && all[a].processes[k].value.status == Some(processes::RUNNING@)
                            && all[a].processes[k].value.pid == Some(pid));
                    assert(out@ == was + extra);
                    if was.contains(pid) {
                        let k = choose|k: int| 0 <= k < was.len() && was[k] == pid;
                        assert(out@[k] == pid);
                    }
                    if extra.contains(pid) {
                        let k = choose|k: int| 0 <= k < extra.len() && extra[k] == pid;
                        assert(out@[was.len() + k] == pid);
                    }
                    if out@.contains(pid) {
                        let k = choose|k: int| 0 <= k < out@.len() && out@[k] == pid;
                        if k < was.len() {
                            assert(was[k] == pid);
                        } else {
                            assert(extra[k - was.len()] == pid);
                        }
                    }
                }
            }
            i += 1;
        }
        out
    }

    /// Marks the processes that ran and whose pids are not alive as gone.
    /// Returns them with their projects.
    pub fn sweep_dead_processes(&mut self, alive: &Vec<i64>) -> (r: Result<
        Vec<(i64, u64)>,
        CoreError,
    >)
        requires
            old(self)@.wf(),
        ensures
            r is Ok,
            r->Ok_0@ == all_dead(old(self)@.projects, alive@),
            final(self)@ == (StoreView {
                projects: all_reaped(old(self)@.projects, alive@),
                pending: old(self)@.pending + dead_shown(
                    all_dead(old(self)@.projects, alive@),
                ),
                ..old(self)@
            }),
            final(self)@.wf(),
    {
        let ghost before = self@;
        let ghost all = before.projects;
        let ghost goal = all_reaped(all, alive@);
        proof {
            lemma_all_reaped(all, alive@);
        }
        let mut dead: Vec<(i64, u64)> = Vec::new();
        let mut i: usize = 0;
        assert(all.take(0) =~= seq![]);
        assert(self@.projects =~= goal.take(0) + all.skip(0));
        while i < self.projects.len()
            invariant
                i <= self.projects.len(),
                self.projects.len() == all.len(),
                before.wf(),
                all == before.projects,
                goal == all_reaped(all, alive@),
                self@.projects == goal.take(i as int) + all.skip(i as int),
                self@ == (StoreView { projects: self@.projects, ..before }),
                dead@ == all_dead(all.take(i as int), alive@),
            decreases self.projects.len() - i,
        {
            let ghost rows = self@.projects;
            proof {
                assert(all.take(i + 1).drop_last() =~= all.take(i as int));
                assert(all.take(i + 1).last() == all[i as int]);
                assert(rows[i as int] == all[i as int]);
                assert(self.projects@[i as int]@ == all[i as int]);
                assert(all[i as int].wf());
                assert(goal.take(i + 1) =~= goal.take(i as int).push(goal[i as int]));
            }
            let id: i64 = self.projects[i].id;
            let ids = self.projects[i].reap(alive);
            assert(self@.projects =~= rows.update(i as int, goal[i as int]));
            assert(self@.projects =~= goal.take(i + 1) + all.skip(i + 1));
            let ghost so_far = dead@;
            let mut k: usize = 0;
            assert(so_far + ids@.take(0).map_values(|n: u64| (id, n)) =~= so_far);
            while k < ids.len()
                invariant
                    k <= ids.len(),
                    dead@ == so_far + ids@.take(k as int).map_values(|n: u64| (id, n)),
                decreases ids.len() - k,
            {
                let ghost was = dead@;
                dead.push((id, ids[k]));
                assert(ids@.take(k + 1).map_values(|n: u64| (id, n)) =~= ids@.take(
                    k as int,
                ).map_values(|n: u64| (id, n)).push((id, ids@[k as int])));
                assert(dead@ =~= so_far + ids@.take(k + 1).map_values(|n: u64| (id, n)));
                k += 1;
            }
            assert(ids@.take(k as int) =~= ids@);
            i += 1;
        }
        assert(all.take(i as int) =~= all);
        assert(goal.take(i as int) + all.skip(i as int) =~= goal);
        let ghost mid = self@;
        let mut j: usize = 0;
        assert(before.pending + dead_shown(dead@.take(0)) =~= before.pending);
        while j < dead.len()
            invariant
                j <= dead.len(),
                mid == (StoreView { projects: goal, ..before }),
                self@ == (StoreView {
                    pending: before.pending + dead_shown(dead@.take(j as int)),
                    ..mid
                }),
            decreases dead.len() - j,
        {
            let id: i64 = dead[j].0;
            self.show(id, Surface::Processes);
            assert(before.pending + dead_shown(dead@.take(j as int)) + store::shows(
                id,
                seq![Surface::Processes],
            ) =~= before.pending + dead_shown(dead@.take(j + 1)));
            j += 1;
        }
        assert(dead@.take(j as int) =~= dead@);
        proof {
            assert forall|a: int, b: int| 0 <= a < b < goal.len() implies (#[trigger] goal[a]).id
                < (#[trigger] goal[b]).id by {
                assert(all[a].id < all[b].id);
            }
        }
        Ok(dead)
    }

    /// Leaves the processes of every project with an agent that is up or
    /// coming up to be shown again. Returns how many projects these are.
    pub fn tick_process_projections(&mut self) -> (r: Result<usize, CoreError>)
        requires
            old(self)@.wf(),
        ensures
            r is Ok,
            r->Ok_0 == projects_with_agents(old(self)@.projects).len(),
            final(self)@ == (StoreView {
                pending: old(self)@.pending + processes_shown(
                    projects_with_agents(old(self)@.projects),
                ),
                ..old(self)@
            }),
            final(self)@.wf(),
    {
        let ghost before = self@;
        let ghost all = before.projects;
        let mut n: usize = 0;
        let mut i: usize = 0;
        assert(all.take(0) =~= seq![]);
        assert(before.pending + processes_shown(seq![]) =~= before.pending);
        while i < self.projects.len()
            invariant
                i <= self.projects.len(),
                n <= i,
                before.wf(),
                all == before.projects,
                self.projects.len() == all.len(),
                n == projects_with_agents(all.take(i as int)).len(),
                self@ == (StoreView {
                    pending: before.pending + processes_shown(
                        projects_with_agents(all.take(i as int)),
                    ),
                    ..before
                }),
            decreases self.projects.len() - i,
        {
            let ghost found = projects_with_agents(all.take(i as int));
            proof {
                assert(all.take(i + 1).drop_last() =~= all.take(i as int));
                assert(all.take(i + 1).last() == all[i as int]);
                assert(self@.projects[i as int] == self.projects@[i as int]@);
            }
            if self.projects[i].any_live_agent() {
                let id: i64 = self.projects[i].id;
                self.show(id, Surface::Processes);
                assert(before.pending + processes_shown(found) + store::shows(
                    id,
                    seq![Surface::Processes],
                ) =~= before.pending + processes_shown(found.push(id)));
                n += 1;
            }
            i += 1;
        }
        assert(all.take(i as int) =~= all);
        Ok(n)
    }
}

} // verus!
