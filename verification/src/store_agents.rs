//! Who is connected, and what they hold.

use vstd::prelude::*;
use vstd::string::*;

use crate::error::{CoreError, ErrorView};
use crate::locks;
use crate::model;
use crate::model::{Agent, AgentView, KeySource, Lock, LockView, ProjectId};
use crate::registry;
use crate::store;
use crate::store::{Moment, Store, StoreView, Surface};
use crate::text;

verus! {

/// How long an agent that is known by its session may be silent, in
/// nanoseconds: half an hour.
pub const AGENT_MAX_IDLE: u64 = 1_800_000_000_000;

/// How long ago an agent may have been heard of to count as connected, in
/// nanoseconds.
pub const ACTIVE_PRESENCE: u64 = 5_000_000_000;

/// The locks without those of agents that are gone from a project.
pub open spec fn without_holders(
    held: Seq<(i64, LockView)>,
    project: i64,
    keys: Seq<Seq<char>>,
) -> Seq<(i64, LockView)>
    decreases keys.len(),
{
    if keys.len() == 0 {
        held
    } else {
        locks::without_holder(
            without_holders(held, project, keys.drop_last()),
            project,
            keys.last(),
        )
    }
}

/// The locks without those of agents that are gone.
pub open spec fn without_gone(
    held: Seq<(i64, LockView)>,
    gone: Seq<(i64, Seq<char>)>,
) -> Seq<(i64, LockView)>
    decreases gone.len(),
{
    if gone.len() == 0 {
        held
    } else {
        locks::without_holder(
            without_gone(held, gone.drop_last()),
            gone.last().0,
            gone.last().1,
        )
    }
}

/// What is to be shown again where agents went: the agents, and the locks if
/// any was given back.
pub open spec fn shown_after_leaving(before: Seq<(i64, LockView)>, after: Seq<(i64, LockView)>) -> Seq<
    Surface,
> {
    if after.len() < before.len() {
        seq![Surface::Agents, Surface::Locks]
    } else {
        seq![Surface::Agents]
    }
}

/// The agents of a project that are silent at a moment.
pub open spec fn gone_from(s: StoreView, project: i64, now: u64) -> Seq<Seq<char>> {
    registry::keys_of(registry::silent(s.agents, Some(project), now, AGENT_MAX_IDLE))
}

/// The state without the agents of a project that are silent. They hold
/// nothing any more.
pub open spec fn without_silent(s: StoreView, project: i64, now: u64) -> StoreView {
    StoreView {
        agents: registry::pruned(s.agents, Some(project), now, AGENT_MAX_IDLE),
        locks: without_holders(s.locks, project, gone_from(s, project, now)),
        ..s
    }
}

/// What is to be shown again where the silent agents of a project went.
pub open spec fn silent_shown(s: StoreView, project: i64, now: u64) -> Seq<Surface> {
    if gone_from(s, project, now).len() == 0 {
        seq![]
    } else {
        shown_after_leaving(s.locks, without_silent(s, project, now).locks)
    }
}

/// Whether a change of what is kept in memory was followed by showing it: this
/// fails where the project is not there, and the change stays.
pub open spec fn lands<T>(
    r: Result<T, CoreError>,
    s: StoreView,
    project: i64,
    what: Seq<Surface>,
    after: StoreView,
) -> bool {
    if what.len() == 0 {
        r is Ok && after == s
    } else if s.has(project) {
        r is Ok && after == s.showing(project, what)
    } else {
        r is Err && r->Err_0@ == ErrorView::ProjectNotFound(project) && after == s
    }
}

/// The state after an agent was heard of.
pub open spec fn heard(s: StoreView, project: i64, key: Seq<char>, source: KeySource, now: u64) -> StoreView {
    StoreView { agents: registry::touched(s.agents, project, key, source, now), ..s }
}

/// What is to be shown again after an agent was heard of: what went with the
/// silent ones, or the agents where it is new.
pub open spec fn heard_shown(
    s: StoreView,
    project: i64,
    key: Seq<char>,
    source: KeySource,
    now: u64,
) -> Seq<Surface> {
    let gone = silent_shown(heard(s, project, key, source, now), project, now);
    if gone.len() == 0 && registry::agent_of(s.agents, project, key) is None {
        seq![Surface::Agents]
    } else {
        gone
    }
}

/// The name of an agent; its key where it is not known.
pub open spec fn agent_name(s: StoreView, project: i64, key: Seq<char>) -> Seq<char> {
    match registry::agent_of(s.agents, project, key) {
        Some(a) => a.name,
        None => key,
    }
}

/// The name of who is in the way, if anybody.
pub open spec fn name_in_the_way(s: StoreView, project: i64, key: Seq<char>, name: Seq<char>) -> Option<
    Seq<char>,
> {
    match locks::in_the_way(s.locks, project, key, name) {
        Some(h) => Some(agent_name(s, project, h)),
        None => None,
    }
}

/// The locks of a project, each with the name of its holder.
pub open spec fn locks_shown(s: StoreView, project: i64) -> Seq<LockView> {
    locks::listed(s.locks, project).map_values(
        |l: LockView| LockView { holder_name: agent_name(s, project, l.holder_key), ..l },
    )
}

/// Projects, each once, in the order in which they first occur.
pub open spec fn each_once(gone: Seq<(i64, Seq<char>)>) -> Seq<i64>
    decreases gone.len(),
{
    if gone.len() == 0 {
        seq![]
    } else {
        let before = each_once(gone.drop_last());
        if before.contains(gone.last().0) {
            before
        } else {
            before.push(gone.last().0)
        }
    }
}

/// The agents and locks of some projects shown again, up to the first project
/// that is not there.
pub open spec fn shown_for(s: StoreView, ids: Seq<i64>) -> (StoreView, Option<i64>)
    decreases ids.len(),
{
    if ids.len() == 0 {
        (s, None)
    } else {
        let (before, missing) = shown_for(s, ids.drop_last());
        if missing is Some {
            (before, missing)
        } else if !before.has(ids.last()) {
            (before, Some(ids.last()))
        } else {
            (before.showing(ids.last(), seq![Surface::Agents, Surface::Locks]), None)
        }
    }
}

/// The state after the silent agents of every project went.
pub open spec fn without_all_silent(s: StoreView, now: u64) -> StoreView {
    let gone = registry::silent(s.agents, None, now, AGENT_MAX_IDLE);
    StoreView {
        agents: registry::pruned(s.agents, None, now, AGENT_MAX_IDLE),
        locks: without_gone(s.locks, gone),
        ..s
    }
}

/// Agents that are gone from a project hold nothing there.
pub proof fn law_silent_hold_nothing(
    held: Seq<(i64, LockView)>,
    project: i64,
    keys: Seq<Seq<char>>,
    k: int,
    i: int,
)
    requires
        0 <= k < keys.len(),
        0 <= i < without_holders(held, project, keys).len(),
    ensures
        !(without_holders(held, project, keys)[i].0 == project && without_holders(
            held,
            project,
            keys,
        )[i].1.holder_key == keys[k]),
    decreases keys.len(),
{
    let before = without_holders(held, project, keys.drop_last());
    let after = without_holders(held, project, keys);
    locks::law_gone_holds_nothing(before, project, keys.last(), i);
    if k < keys.len() - 1 {
        lemma_kept_is_held(before, project, keys.last(), i);
        let j = choose|j: int| 0 <= j < before.len() && #[trigger] before[j] == after[i];
        law_silent_hold_nothing(held, project, keys.drop_last(), k, j);
    }
}

/// What is kept was held.
proof fn lemma_kept_is_held(held: Seq<(i64, LockView)>, project: i64, key: Seq<char>, i: int)
    requires
        0 <= i < locks::without_holder(held, project, key).len(),
    ensures
        exists|j: int|
            0 <= j < held.len() && #[trigger] held[j] == locks::without_holder(
                held,
                project,
                key,
            )[i],
    decreases held.len(),
{
    let after = locks::without_holder(held, project, key);
    let front = held.drop_last();
    let rest = locks::without_holder(front, project, key);
    if i < rest.len() {
        lemma_kept_is_held(front, project, key, i);
        let j = choose|j: int| 0 <= j < front.len() && #[trigger] front[j] == rest[i];
        assert(held[j] == after[i]);
    } else {
        assert(held[held.len() - 1] == after[i]);
    }
}

/// Giving locks back never adds one.
proof fn lemma_fewer_locks(held: Seq<(i64, LockView)>, project: i64, keys: Seq<Seq<char>>)
    ensures
        without_holders(held, project, keys).len() <= held.len(),
    decreases keys.len(),
{
    if keys.len() > 0 {
        let before = without_holders(held, project, keys.drop_last());
        lemma_fewer_locks(held, project, keys.drop_last());
        locks::law_gone_holds_nothing(before, project, keys.last(), 0);
    }
}

/// Giving locks back keeps every lock once.
proof fn lemma_left_unique(held: Seq<(i64, LockView)>, project: i64, keys: Seq<Seq<char>>)
    requires
        locks::unique_locks(held),
    ensures
        locks::unique_locks(without_holders(held, project, keys)),
    decreases keys.len(),
{
    if keys.len() > 0 {
        let before = without_holders(held, project, keys.drop_last());
        lemma_left_unique(held, project, keys.drop_last());
        locks::law_locks_stand_once(before, project, keys.last(), seq![]);
    }
}

/// The same over all projects.
proof fn lemma_left_anywhere_unique(held: Seq<(i64, LockView)>, gone: Seq<(i64, Seq<char>)>)
    requires
        locks::unique_locks(held),
    ensures
        locks::unique_locks(without_gone(held, gone)),
    decreases gone.len(),
{
    if gone.len() > 0 {
        let before = without_gone(held, gone.drop_last());
        lemma_left_anywhere_unique(held, gone.drop_last());
        locks::law_locks_stand_once(before, gone.last().0, gone.last().1, seq![]);
    }
}

/// Other agents, each once, keep the state sound.
proof fn lemma_agents_wf(s: StoreView, agents: Seq<(i64, AgentView)>)
    requires
        s.wf(),
        registry::unique_agents(agents),
    ensures
        (StoreView { agents, ..s }).wf(),
{
}

/// Other locks, each once, keep the state sound.
proof fn lemma_locks_wf(s: StoreView, held: Seq<(i64, LockView)>)
    requires
        s.wf(),
        locks::unique_locks(held),
    ensures
        (StoreView { locks: held, ..s }).wf(),
{
}

/// The state without the silent agents of a project is sound.
proof fn lemma_without_silent_wf(s: StoreView, project: i64, now: u64)
    requires
        s.wf(),
    ensures
        without_silent(s, project, now).wf(),
{
    let mid = StoreView {
        agents: registry::pruned(s.agents, Some(project), now, AGENT_MAX_IDLE),
        ..s
    };
    registry::law_agents_stand_once(
        s.agents,
        project,
        seq![],
        KeySource::Session,
        seq![],
        None,
        Some(project),
        now,
        AGENT_MAX_IDLE,
        0,
    );
    lemma_agents_wf(s, mid.agents);
    lemma_left_unique(s.locks, project, gone_from(s, project, now));
    lemma_locks_wf(mid, without_silent(s, project, now).locks);
}

/// The state without the silent agents of every project is sound.
proof fn lemma_without_all_silent_wf(s: StoreView, now: u64)
    requires
        s.wf(),
    ensures
        without_all_silent(s, now).wf(),
{
    let mid = StoreView { agents: registry::pruned(s.agents, None, now, AGENT_MAX_IDLE), ..s };
    registry::law_agents_stand_once(
        s.agents,
        0,
        seq![],
        KeySource::Session,
        seq![],
        None,
        None,
        now,
        AGENT_MAX_IDLE,
        0,
    );
    lemma_agents_wf(s, mid.agents);
    lemma_left_anywhere_unique(
        s.locks,
        registry::silent(s.agents, None, now, AGENT_MAX_IDLE),
    );
    lemma_locks_wf(mid, without_all_silent(s, now).locks);
}

/// What is said of one agent keeps the state sound.
proof fn lemma_one_agent_wf(
    s: StoreView,
    project: i64,
    key: Seq<char>,
    source: KeySource,
    name: Seq<char>,
    status: Option<Seq<char>>,
    at: u64,
)
    requires
        s.wf(),
    ensures
        heard(s, project, key, source, at).wf(),
        (StoreView {
            agents: registry::identified(s.agents, project, key, name, status),
            ..s
        }).wf(),
        (StoreView { agents: registry::backdated(s.agents, project, key, at), ..s }).wf(),
{
    registry::law_agents_stand_once(
        s.agents,
        project,
        key,
        source,
        name,
        status,
        None,
        at,
        at,
        0,
    );
    lemma_agents_wf(s, registry::touched(s.agents, project, key, source, at));
    lemma_agents_wf(s, registry::identified(s.agents, project, key, name, status));
    lemma_agents_wf(s, registry::backdated(s.agents, project, key, at));
}

/// Counts with the plain ids of their projects.
pub open spec fn plain_counts(v: Seq<(ProjectId, usize)>) -> Seq<(i64, usize)> {
    v.map_values(|c: (ProjectId, usize)| (c.0.0, c.1))
}

impl Store {
    /// Leaves surfaces to be shown again, where the project is there.
    fn land(&mut self, project: i64, what: &Vec<Surface>) -> (r: Result<(), CoreError>)
        requires
            old(self)@.wf(),
        ensures
            lands(r, old(self)@, project, what@, final(self)@),
            final(self)@.wf(),
    {
        if what.len() == 0 {
            return Ok(());
        }
        if self.find_project(project).is_none() {
            return Err(CoreError::ProjectNotFound(project));
        }
        let ghost before = self@;
        let mut i: usize = 0;
        assert(before.pending + store::shows(project, what@.take(0)) =~= before.pending);
        while i < what.len()
            invariant
                i <= what.len(),
                before.wf(),
                self@ == before.showing(project, what@.take(i as int)),
            decreases what.len() - i,
        {
            self.show(project, what[i]);
            assert(before.pending + store::shows(project, what@.take(i as int)) + store::shows(
                project,
                seq![what@[i as int]],
            ) =~= before.pending + store::shows(project, what@.take(i + 1)));
            i += 1;
        }
        assert(what@.take(i as int) =~= what@);
        Ok(())
    }

    /// Forgets the silent agents of a project. Returns what is to be shown
    /// again.
    fn drop_silent(&mut self, project: i64, now: u64) -> (what: Vec<Surface>)
        requires
            old(self)@.wf(),
        ensures
            final(self)@ == without_silent(old(self)@, project, now),
            what@ == silent_shown(old(self)@, project, now),
            final(self)@.wf(),
    {
        let ghost before = self@;
        proof {
            lemma_without_silent_wf(before, project, now);
        }
        let gone = self.registry.prune(project, AGENT_MAX_IDLE, now);
        let ghost keys = text::texts(gone@);
        assert(keys == gone_from(before, project, now));
        let mut what: Vec<Surface> = Vec::new();
        if gone.len() == 0 {
            assert(keys =~= seq![]);
            assert(what@ =~= seq![]);
            return what;
        }
        let mut any = false;
        let mut i: usize = 0;
        assert(keys.take(0) =~= seq![]);
        while i < gone.len()
            invariant
                i <= gone.len(),
                keys == text::texts(gone@),
                self@ == (StoreView {
                    agents: self@.agents,
                    locks: without_holders(before.locks, project, keys.take(i as int)),
                    ..before
                }),
                self@.agents == registry::pruned(
                    before.agents,
                    Some(project),
                    now,
                    AGENT_MAX_IDLE,
                ),
                any == (self@.locks.len() < before.locks.len()),
            decreases gone.len() - i,
        {
            proof {
                assert(keys.take(i + 1).drop_last() =~= keys.take(i as int));
                assert(keys.take(i + 1).last() == gone@[i as int]@);
                lemma_fewer_locks(before.locks, project, keys.take(i as int));
                locks::law_gone_holds_nothing(self@.locks, project, gone@[i as int]@, 0);
            }
            let n: usize = self.locks.release_all(project, gone[i].as_str());
            if n > 0 {
                any = true;
            }
            i += 1;
        }
        assert(keys.take(i as int) =~= keys);
        what.push(Surface::Agents);
        if any {
            what.push(Surface::Locks);
        }
        assert(what@ =~= silent_shown(before, project, now));
        what
    }

    /// An agent was heard of. It is known from now on; the silent ones of its
    /// project are forgotten.
    pub fn agent_touch(&mut self, project: ProjectId, key: &str, source: KeySource, now: &Moment) -> (r:
        Result<(), CoreError>)
        requires
            old(self)@.wf(),
        ensures
            lands(
                r,
                without_silent(
                    heard(old(self)@, project.0, key@, source, now.nanos),
                    project.0,
                    now.nanos,
                ),
                project.0,
                heard_shown(old(self)@, project.0, key@, source, now.nanos),
                final(self)@,
            ),
            final(self)@.wf(),
    {
        let ghost before = self@;
        proof {
            lemma_one_agent_wf(before, project.0, key@, source, seq![], None, now.nanos);
        }
        let added = self.registry.touch(project.0, key, source, now.nanos);
        assert(self@ == heard(before, project.0, key@, source, now.nanos));
        let mut what = self.drop_silent(project.0, now.nanos);
        if added && what.len() == 0 {
            what.push(Surface::Agents);
            assert(what@ =~= seq![Surface::Agents]);
        }
        self.land(project.0, &what)
    }

    /// An agent leaves, and gives back all that it holds. Returns whether it
    /// was known.
    pub fn agent_leave(&mut self, project: ProjectId, key: &str) -> (r: Result<bool, CoreError>)
        requires
            old(self)@.wf(),
        ensures
            match registry::agent_place(old(self)@.agents, project.0, key@) {
                None => r == Ok::<bool, CoreError>(false) && final(self)@ == old(self)@,
                Some(i) => {
                    let held = locks::without_holder(old(self)@.locks, project.0, key@);
                    &&& lands(
                        r,
                        StoreView {
                            agents: old(self)@.agents.remove(i),
                            locks: held,
                            ..old(self)@
                        },
                        project.0,
                        shown_after_leaving(old(self)@.locks, held),
                        final(self)@,
                    )
                    &&& r is Ok ==> r->Ok_0
                },
            },
            final(self)@.wf(),
    {
        let ghost before = self@;
        if self.registry.remove(project.0, key).is_none() {
            return Ok(false);
        }
        proof {
            let i = registry::agent_place(before.agents, project.0, key@)->0;
            registry::lemma_agent_place(before.agents, project.0, key@);
            registry::law_agents_stand_once(
                before.agents,
                project.0,
                key@,
                KeySource::Session,
                seq![],
                None,
                None,
                0,
                0,
                i,
            );
            locks::law_locks_stand_once(before.locks, project.0, key@, seq![]);
            lemma_agents_wf(before, before.agents.remove(i));
            lemma_locks_wf(self@, locks::without_holder(before.locks, project.0, key@));
        }
        let n: usize = self.locks.release_all(project.0, key);
        let mut what: Vec<Surface> = Vec::new();
        what.push(Surface::Agents);
        if n > 0 {
            what.push(Surface::Locks);
        }
        proof {
            let held = locks::without_holder(old(self)@.locks, project.0, key@);
            assert(what@ =~= shown_after_leaving(old(self)@.locks, held));
        }
        match self.land(project.0, &what) {
            Ok(()) => Ok(true),
            Err(e) => Err(e),
        }
    }

    /// An agent says who it is.
    pub fn agent_identify(
        &mut self,
        project: ProjectId,
        key: &str,
        name: String,
        status: Option<String>,
    ) -> (r: Result<(), CoreError>)
        requires
            old(self)@.wf(),
        ensures
            lands(
                r,
                StoreView {
                    agents: registry::identified(
                        old(self)@.agents,
                        project.0,
                        key@,
                        name@,
                        text::opt_text(status),
                    ),
                    ..old(self)@
                },
                project.0,
                seq![Surface::Agents],
                final(self)@,
            ),
            final(self)@.wf(),
    {
        proof {
            lemma_one_agent_wf(
                self@,
                project.0,
                key@,
                KeySource::Session,
                name@,
                text::opt_text(status),
                0,
            );
        }
        self.registry.identify(project.0, key, name, status);
        let mut what: Vec<Surface> = Vec::new();
        what.push(Surface::Agents);
        assert(what@ =~= seq![Surface::Agents]);
        self.land(project.0, &what)
    }

    /// An agent of a project, if it is known.
    pub fn agent_whoami(&self, project: ProjectId, key: &str) -> (r: Option<Agent>)
        ensures
            match registry::agent_of(self@.agents, project.0, key@) {
                Some(a) => r is Some && r->0@ == a,
                None => r is None,
            },
    {
        self.registry.get(project.0, key)
    }

    /// The agents of a project, after the silent ones were forgotten.
    pub fn agent_list(&mut self, project: ProjectId, now: &Moment) -> (r: Result<
        Vec<Agent>,
        CoreError,
    >)
        requires
            old(self)@.wf(),
        ensures
            lands(
                r,
                without_silent(old(self)@, project.0, now.nanos),
                project.0,
                silent_shown(old(self)@, project.0, now.nanos),
                final(self)@,
            ),
            r matches Ok(v) ==> model::agent_views(v@) == registry::listed(
                final(self)@.agents,
                project.0,
            ),
            final(self)@.wf(),
    {
        let what = self.drop_silent(project.0, now.nanos);
        match self.land(project.0, &what) {
            Ok(()) => Ok(self.registry.list(project.0)),
            Err(e) => Err(e),
        }
    }

    /// The moment an agent was last seen, put back by `by` nanoseconds.
    pub fn test_backdate_last_seen(&mut self, project: ProjectId, key: &str, by: u64)
        requires
            old(self)@.wf(),
            match registry::agent_of(old(self)@.agents, project.0, key@) {
                Some(a) => a.last_seen >= by,
                None => true,
            },
        ensures
            final(self)@ == (StoreView {
                agents: registry::backdated(old(self)@.agents, project.0, key@, by),
                ..old(self)@
            }),
            final(self)@.wf(),
    {
        proof {
            lemma_one_agent_wf(self@, project.0, key@, KeySource::Session, seq![], None, by);
        }
        self.registry.backdate_last_seen(project.0, key, by);
    }

    /// How many agents are connected, over all projects.
    pub fn connected_agent_count(&self, now: &Moment) -> (n: usize)
        ensures
            n == registry::active_count(self@.agents, now.nanos, ACTIVE_PRESENCE),
    {
        self.registry.active_total(ACTIVE_PRESENCE, now.nanos)
    }

    /// The projects with connected agents, ascending, each with how many. They
    /// add up to all that are connected.
    pub fn connected_agents_by_project(&self, now: &Moment) -> (out: Vec<(ProjectId, usize)>)
        ensures
            registry::breaks_down(self@.agents, plain_counts(out@), now.nanos, ACTIVE_PRESENCE),
            registry::total(plain_counts(out@)) == registry::active_count(
                self@.agents,
                now.nanos,
                ACTIVE_PRESENCE,
            ),
    {
        let counts = self.registry.active_counts_by_project(ACTIVE_PRESENCE, now.nanos);
        let mut out: Vec<(ProjectId, usize)> = Vec::new();
        let mut i: usize = 0;
        assert(plain_counts(out@) =~= counts@.take(0));
        while i < counts.len()
            invariant
                i <= counts.len(),
                plain_counts(out@) == counts@.take(i as int),
            decreases counts.len() - i,
        {
            let ghost before = out@;
            out.push((ProjectId(counts[i].0), counts[i].1));
            assert(plain_counts(out@) =~= plain_counts(before).push(counts@[i as int]));
            assert(counts@.take(i + 1) =~= counts@.take(i as int).push(counts@[i as int]));
            i += 1;
        }
        assert(counts@.take(i as int) =~= counts@);
        out
    }

    /// Forgets the silent agents of every project. Returns their keys.
    pub fn sweep_idle_agents(&mut self, now: &Moment) -> (r: Result<Vec<String>, CoreError>)
        requires
            old(self)@.wf(),
        ensures
            ({
                let gone = registry::silent(old(self)@.agents, None, now.nanos, AGENT_MAX_IDLE);
                let (s, missing) = shown_for(
                    without_all_silent(old(self)@, now.nanos),
                    each_once(gone),
                );
                &&& final(self)@ == s
                &&& match missing {
                    Some(p) => r is Err && r->Err_0@ == ErrorView::ProjectNotFound(p),
                    None => r is Ok && text::texts(r->Ok_0@) == registry::keys_of(gone),
                }
            }),
            final(self)@.wf(),
    {
        let ghost before = self@;
        let gone = self.registry.prune_all(AGENT_MAX_IDLE, now.nanos);
        let ghost all = registry::pair_views(gone@);
        let mut keys: Vec<String> = Vec::new();
        let mut ids: Vec<i64> = Vec::new();
        let mut i: usize = 0;
        let ghost goal = registry::keys_of(all);
        assert(all.take(0) =~= seq![]);
        assert(text::texts(keys@) =~= goal.take(0));
        assert(ids@ =~= each_once(all.take(0)));
        while i < gone.len()
            invariant
                i <= gone.len(),
                all == registry::pair_views(gone@),
                goal == registry::keys_of(all),
                text::texts(keys@) == goal.take(i as int),
                ids@ == each_once(all.take(i as int)),
                self@ == (StoreView {
                    agents: self@.agents,
                    locks: without_gone(before.locks, all.take(i as int)),
                    ..before
                }),
                self@.agents == registry::pruned(before.agents, None, now.nanos, AGENT_MAX_IDLE),
            decreases gone.len() - i,
        {
            let ghost was = keys@;
            proof {
                assert(all.take(i + 1).drop_last() =~= all.take(i as int));
                assert(all.take(i + 1).last() == (gone@[i as int].0, gone@[i as int].1@));
                assert(goal.take(i + 1) =~= goal.take(i as int).push(goal[i as int]));
            }
            let id: i64 = gone[i].0;
            self.locks.release_all(id, gone[i].1.as_str());
            let k = gone[i].1.clone();
            keys.push(k);
            assert(text::texts(keys@) =~= text::texts(was).push(k@));
            if !holds_id(&ids, id) {
                ids.push(id);
            }
            i += 1;
        }
        assert(all.take(i as int) =~= all);
        assert(goal.take(i as int) =~= goal);
        let ghost mid = without_all_silent(before, now.nanos);
        assert(self@ == mid);
        proof {
            lemma_without_all_silent_wf(before, now.nanos);
        }
        let mut j: usize = 0;
        assert(ids@.take(0) =~= seq![]);
        while j < ids.len()
            invariant
                j <= ids.len(),
                mid.wf(),
                self@ == shown_for(mid, ids@.take(j as int)).0,
                shown_for(mid, ids@.take(j as int)).1 is None,
                self@.wf(),
                ids@ == each_once(all),
                all == registry::silent(old(self)@.agents, None, now.nanos, AGENT_MAX_IDLE),
                mid == without_all_silent(old(self)@, now.nanos),
            decreases ids.len() - j,
        {
            let id: i64 = ids[j];
            proof {
                assert(ids@.take(j + 1).drop_last() =~= ids@.take(j as int));
                assert(ids@.take(j + 1).last() == id);
            }
            if self.find_project(id).is_none() {
                proof {
                    lemma_missing_stays(mid, ids@, j + 1);
                }
                return Err(CoreError::ProjectNotFound(id));
            }
            let ghost was = self@;
            self.show(id, Surface::Agents);
            self.show(id, Surface::Locks);
            assert(was.pending + store::shows(id, seq![Surface::Agents]) + store::shows(
                id,
                seq![Surface::Locks],
            ) =~= was.pending + store::shows(id, seq![Surface::Agents, Surface::Locks]));
            j += 1;
        }
        assert(ids@.take(j as int) =~= ids@);
        Ok(keys)
    }

    /// Asks for a lock. Returns the name of its holder where another agent has
    /// it.
    pub fn lock_acquire(
        &mut self,
        project: ProjectId,
        key: &str,
        name: String,
        note: Option<String>,
        now: &Moment,
    ) -> (r: Result<Option<String>, CoreError>)
        requires
            old(self)@.wf(),
        ensures
            match name_in_the_way(old(self)@, project.0, key@, name@) {
                Some(h) => r is Ok && text::opt_text(r->Ok_0) == Some(h) && final(self)@ == old(
                    self,
                )@,
                None => lands(
                    r,
                    StoreView {
                        locks: locks::acquired(
                            old(self)@.locks,
                            project.0,
                            key@,
                            name@,
                            text::opt_text(note),
                            now.nanos,
                        ),
                        ..old(self)@
                    },
                    project.0,
                    seq![Surface::Locks],
                    final(self)@,
                ) && (r is Ok ==> r->Ok_0 is None),
            },
            final(self)@.wf(),
    {
        proof {
            let n = text::opt_text(note);
            locks::law_lock_is_exclusive(self@.locks, project.0, key@, name@, n, now.nanos);
            lemma_locks_wf(
                self@,
                locks::acquired(self@.locks, project.0, key@, name@, n, now.nanos),
            );
        }
        match self.locks.acquire(project.0, key, name, note, now.nanos) {
            Some(h) => {
                assert(self@.locks == old(self)@.locks);
                Ok(Some(self.resolve_agent_name(project, h.as_str())))
            },
            None => {
                let mut what: Vec<Surface> = Vec::new();
                what.push(Surface::Locks);
                assert(what@ =~= seq![Surface::Locks]);
                match self.land(project.0, &what) {
                    Ok(()) => Ok(None),
                    Err(e) => Err(e),
                }
            },
        }
    }

    /// Gives a lock back. Returns the name of its holder where another agent
    /// has it.
    pub fn lock_release(&mut self, project: ProjectId, key: &str, name: &str) -> (r: Result<
        Option<String>,
        CoreError,
    >)
        requires
            old(self)@.wf(),
        ensures
            match name_in_the_way(old(self)@, project.0, key@, name@) {
                Some(h) => r is Ok && text::opt_text(r->Ok_0) == Some(h) && final(self)@ == old(
                    self,
                )@,
                None => lands(
                    r,
                    StoreView {
                        locks: locks::released(old(self)@.locks, project.0, key@, name@),
                        ..old(self)@
                    },
                    project.0,
                    seq![Surface::Locks],
                    final(self)@,
                ) && (r is Ok ==> r->Ok_0 is None),
            },
            final(self)@.wf(),
    {
        proof {
            locks::law_locks_stand_once(self@.locks, project.0, key@, name@);
            lemma_locks_wf(self@, locks::released(self@.locks, project.0, key@, name@));
        }
        match self.locks.release(project.0, key, name) {
            Some(h) => {
                assert(self@.locks == old(self)@.locks);
                Ok(Some(self.resolve_agent_name(project, h.as_str())))
            },
            None => {
                let mut what: Vec<Surface> = Vec::new();
                what.push(Surface::Locks);
                assert(what@ =~= seq![Surface::Locks]);
                match self.land(project.0, &what) {
                    Ok(()) => Ok(None),
                    Err(e) => Err(e),
                }
            },
        }
    }

    /// The locks of a project, each with the name of its holder.
    pub fn lock_list(&self, project: ProjectId) -> (out: Vec<Lock>)
        ensures
            model::lock_views(out@) == locks_shown(self@, project.0),
    {
        let list = self.locks.list(project.0);
        let ghost all = model::lock_views(list@);
        let ghost goal = locks_shown(self@, project.0);
        let mut out: Vec<Lock> = Vec::new();
        let mut i: usize = 0;
        assert(model::lock_views(out@) =~= goal.take(0));
        while i < list.len()
            invariant
                i <= list.len(),
                all == model::lock_views(list@),
                all == locks::listed(self@.locks, project.0),
                goal == locks_shown(self@, project.0),
                model::lock_views(out@) == goal.take(i as int),
            decreases list.len() - i,
        {
            let ghost was = out@;
            let mut l = list[i].copy();
            l.holder_name = self.resolve_agent_name(project, list[i].holder_key.as_str());
            out.push(l);
            proof {
                assert(all[i as int] == list@[i as int]@);
                assert(goal[i as int] == l@);
                assert(model::lock_views(out@) =~= model::lock_views(was).push(l@));
                assert(goal.take(i + 1) =~= goal.take(i as int).push(goal[i as int]));
            }
            i += 1;
        }
        assert(goal.take(i as int) =~= goal);
        out
    }

    /// The name of an agent; its key where it is not known.
    fn resolve_agent_name(&self, project: ProjectId, key: &str) -> (r: String)
        ensures
            r@ == agent_name(self@, project.0, key@),
    {
        match self.registry.get(project.0, key) {
            Some(a) => a.name,
            None => key.to_owned(),
        }
    }
}

/// The first project that is not there ends the run.
proof fn lemma_missing_stays(s: StoreView, ids: Seq<i64>, n: int)
    requires
        0 <= n <= ids.len(),
        shown_for(s, ids.take(n)).1 is Some,
    ensures
        shown_for(s, ids) == shown_for(s, ids.take(n)),
    decreases ids.len() - n,
{
    if n < ids.len() {
        assert(ids.take(n + 1).drop_last() =~= ids.take(n));
        lemma_missing_stays(s, ids, n + 1);
    } else {
        assert(ids.take(n) =~= ids);
    }
}

/// Whether a project is among some.
fn holds_id(ids: &Vec<i64>, id: i64) -> (r: bool)
    ensures
        r == ids@.contains(id),
{
    let mut i: usize = 0;
    while i < ids.len()
        invariant
            i <= ids.len(),
            forall|j: int| 0 <= j < i ==> (#[trigger] ids@[j]) != id,
        decreases ids.len() - i,
    {
        if ids[i] == id {
            assert(ids@[i as int] == id);
            return true;
        }
        i += 1;
    }
    false
}

} // verus!
