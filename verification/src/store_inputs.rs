//! Input that waits for processes, what processes put out, and what an agent
//! is told when it starts.

use vstd::prelude::*;
use vstd::string::*;

use crate::error::{CoreError, ErrorView};
use crate::inputs;
use crate::inputs::PendingInput;
use crate::launch;
use crate::model::{Process, ProcessView, ProjectId};
use crate::paths;
use crate::processes;
use crate::sorting;
use crate::store::{InputRow, InputRowView, Moment, Store, StoreView, Surface};
use crate::table;
use crate::templates::{Facts, FactsView};
use crate::text;
use crate::tools;

verus! {

/// What is said where a process cannot be sent input.
pub open spec fn not_live(id: u64) -> ErrorView {
    ErrorView::BadRequest(
        "process #"@ + text::decimal(id as nat) + " is not live (cannot receive input)"@,
    )
}

/// The state after input was put in line for a process. It must be up or
/// coming up.
pub open spec fn input_queued(
    s: StoreView,
    project: i64,
    process: u64,
    content: Seq<char>,
    now: Seq<char>,
) -> Result<StoreView, ErrorView> {
    match table::live_value(s.project(project).processes, process) {
        None => Err(ErrorView::ProcessNotFound(process)),
        Some(v) => if !processes::takes_input(v) {
            Err(not_live(process))
        } else {
            Ok(
                StoreView {
                    inputs: s.inputs.push(
                        InputRowView {
                            id: s.next_input,
                            project,
                            process_id: process,
                            content,
                            created_at: now,
                            delivered_at: None,
                        },
                    ),
                    next_input: (s.next_input + 1) as i64,
                    ..s
                }.showing(project, seq![Surface::Inputs]),
            )
        },
    }
}

/// Whether a row is input of a project that was not delivered.
pub open spec fn is_waiting(r: InputRowView, project: i64) -> bool {
    r.project == project && r.delivered_at is None
}

/// The input of a project that waits, oldest first.
pub open spec fn waiting(rows: Seq<InputRowView>, project: i64) -> Seq<(i64, u64, Seq<char>)>
    decreases rows.len(),
{
    if rows.len() == 0 {
        seq![]
    } else if is_waiting(rows.last(), project) {
        waiting(rows.drop_last(), project).push(
            (rows.last().id, rows.last().process_id, rows.last().content),
        )
    } else {
        waiting(rows.drop_last(), project)
    }
}

/// Rows after one was delivered. One that is not there, or was delivered
/// before, changes nothing.
pub open spec fn delivered(
    rows: Seq<InputRowView>,
    project: i64,
    seq: i64,
    now: Seq<char>,
) -> Seq<InputRowView> {
    rows.map_values(
        |r: InputRowView|
            if is_waiting(r, project) && r.id == seq {
                InputRowView { delivered_at: Some(now), ..r }
            } else {
                r
            },
    )
}

/// Input that was put in line waits last, and input of other projects is left
/// alone.
pub proof fn law_queued_waits_last(
    s: StoreView,
    project: i64,
    process: u64,
    content: Seq<char>,
    now: Seq<char>,
    other: i64,
)
    requires
        input_queued(s, project, process, content, now) is Ok,
    ensures
        ({
            let after = input_queued(s, project, process, content, now)->Ok_0;
            &&& waiting(after.inputs, project) == waiting(s.inputs, project).push(
                (s.next_input, process, content),
            )
            &&& other != project ==> waiting(after.inputs, other) == waiting(s.inputs, other)
        }),
{
    let after = input_queued(s, project, process, content, now)->Ok_0;
    assert(after.inputs.drop_last() =~= s.inputs);
}

/// What was delivered waits no more, delivering it again changes nothing, and
/// all else waits as before.
pub proof fn law_delivered_waits_no_more(
    rows: Seq<InputRowView>,
    project: i64,
    seq: i64,
    now: Seq<char>,
    later: Seq<char>,
    x: (i64, u64, Seq<char>),
)
    ensures
        waiting(delivered(rows, project, seq, now), project).contains(x) == (waiting(
            rows,
            project,
        ).contains(x) && x.0 != seq),
        delivered(delivered(rows, project, seq, now), project, seq, later) == delivered(
            rows,
            project,
            seq,
            now,
        ),
    decreases rows.len(),
{
    let after = delivered(rows, project, seq, now);
    assert(delivered(after, project, seq, later) =~= after);
    if rows.len() > 0 {
        let front = rows.drop_last();
        law_delivered_waits_no_more(front, project, seq, now, later, x);
        assert(after.drop_last() =~= delivered(front, project, seq, now));
        let a = waiting(front, project);
        let b = waiting(delivered(front, project, seq, now), project);
        let e = (rows.last().id, rows.last().process_id, rows.last().content);
        lemma_push_holds(a, e, x);
        lemma_push_holds(b, e, x);
    }
}

proof fn lemma_push_holds(
    s: Seq<(i64, u64, Seq<char>)>,
    e: (i64, u64, Seq<char>),
    x: (i64, u64, Seq<char>),
)
    ensures
        s.push(e).contains(x) == (s.contains(x) || x == e),
{
    let t = s.push(e);
    if t.contains(x) {
        let k = choose|k: int| 0 <= k < t.len() && t[k] == x;
        if k < s.len() {
            assert(s[k] == x);
        }
    }
    if s.contains(x) {
        let k = choose|k: int| 0 <= k < s.len() && s[k] == x;
        assert(t[k] == x);
    }
    if x == e {
        assert(t[s.len() as int] == x);
    }
}

/// The last lines of a text; all of it where no number is given.
pub open spec fn last_lines(body: Seq<char>, n: Option<u64>) -> Seq<char> {
    match n {
        None => body,
        Some(n) => {
            let rows = text::line_seq(body);
            let from = if rows.len() <= n {
                0int
            } else {
                rows.len() - n
            };
            text::joined(rows.skip(from), "\n"@)
        },
    }
}

/// The lines of a text that hold a pattern.
pub open spec fn lines_with(body: Seq<char>, pattern: Seq<char>) -> Seq<Seq<char>> {
    text::line_seq(body).filter(|l: Seq<char>| text::find_seq(l, pattern) is Some)
}

/// What is known of an agent when it is told how to start.
pub open spec fn start_facts(
    s: StoreView,
    project: i64,
    v: ProcessView,
    host: Seq<char>,
    port: u16,
    token: Seq<char>,
    bin: Seq<char>,
) -> FactsView {
    let p = s.project(project);
    let config = table::live_value(p.tools, v.agent_tool_id->0)->0;
    let agent_id = if processes::is_blank(v.name) {
        config.name
    } else {
        v.name
    };
    FactsView {
        panopt_bin: bin,
        host,
        port,
        ws: p.root,
        project: match p.identity {
            Some(i) => i,
            None => p.root,
        },
        agent_id,
        name: if processes::is_blank(v.display_name) {
            agent_id
        } else {
            v.display_name
        },
        token,
        model: text::opt_text(
            s.profiles.map().value(tools::normal_type(s.default_type, config.tool_type)).default_model,
        ),
        process_id: Some(v.id),
    }
}

/// What an instance is told when it starts: nothing where it is from no tool,
/// or where the type of the tool has no profile or says nothing.
pub open spec fn instructions_for(
    s: StoreView,
    project: i64,
    v: ProcessView,
    host: Seq<char>,
    port: u16,
    token: Seq<char>,
    bin: Seq<char>,
) -> Result<Option<Seq<char>>, ErrorView> {
    match v.agent_tool_id {
        None => Ok(None),
        Some(t) => match table::live_value(s.project(project).tools, t) {
            None => Err(ErrorView::AgentToolNotFound(t)),
            Some(config) => {
                let kind = tools::normal_type(s.default_type, config.tool_type);
                if !s.profiles.map().has(kind) {
                    Ok(None)
                } else {
                    match launch::instructed(
                        s.profiles.map().value(kind),
                        start_facts(s, project, v, host, port, token, bin),
                    ) {
                        Ok(t) => Ok(t),
                        Err(e) => Err(ErrorView::BadRequest(e.words())),
                    }
                }
            },
        },
    }
}

/// Whether a text is blank.
fn blank_text(s: &str) -> (r: bool)
    ensures
        r == processes::is_blank(s@),
{
    text::trim(s).unicode_len() == 0
}

impl Store {
    /// Puts input in line for a process.
    pub fn send_input(&mut self, project: ProjectId, process_id: u64, content: &str, now: &Moment) -> (r:
        Result<(), CoreError>)
        requires
            old(self)@.wf(),
            old(self)@.next_input < i64::MAX,
        ensures
            match input_queued(old(self)@, project.0, process_id, content@, now.text@) {
                Ok(s) => r is Ok && final(self)@ == s,
                Err(e) => r is Err && r->Err_0@ == e && final(self)@ == old(self)@,
            },
            final(self)@.wf(),
    {
        let v = match self.process_get(project, process_id) {
            Ok(v) => v,
            Err(e) => return Err(e),
        };
        if !(text::is_some_text(&v.status, processes::STARTING) || text::is_some_text(
            &v.status,
            processes::RUNNING,
        )) {
            let mut out = "process #".to_owned();
            out.append(text::number(process_id).as_str());
            out.append(" is not live (cannot receive input)");
            return Err(CoreError::BadRequest(out));
        }
        let ghost before = self@;
        let row = InputRow {
            id: self.next_input,
            project: project.0,
            process_id,
            content: content.to_owned(),
            created_at: now.text.clone(),
            delivered_at: None,
        };
        let ghost rows = self.inputs@;
        self.inputs.push(row);
        self.next_input = self.next_input + 1;
        proof {
            assert(sorting::contents(self.inputs@) =~= sorting::contents(rows).push(row@));
            let after = self@.inputs;
            assert forall|i: int, j: int| 0 <= i < j < after.len() implies (#[trigger] after[i]).id
                < (#[trigger] after[j]).id by {
                assert(after[i] == before.inputs[i]);
                if j < before.inputs.len() {
                    assert(after[j] == before.inputs[j]);
                }
            }
            assert forall|i: int| 0 <= i < after.len() implies (#[trigger] after[i]).id
                < self.next_input by {
                if i < before.inputs.len() {
                    assert(after[i] == before.inputs[i]);
                }
            }
        }
        self.show(project.0, Surface::Inputs);
        Ok(())
    }

    /// The input of a project that waits, oldest first.
    pub fn pending_inputs(&self, project: ProjectId) -> (r: Result<Vec<PendingInput>, CoreError>)
        ensures
            r is Ok,
            inputs::input_views(r->Ok_0@) == waiting(self@.inputs, project.0),
    {
        let ghost all = self@.inputs;
        let mut out: Vec<PendingInput> = Vec::new();
        let mut i: usize = 0;
        assert(all.take(0) =~= seq![]);
        assert(inputs::input_views(out@) =~= seq![]);
        while i < self.inputs.len()
            invariant
                i <= self.inputs.len(),
                all == sorting::contents(self.inputs@),
                inputs::input_views(out@) == waiting(all.take(i as int), project.0),
            decreases self.inputs.len() - i,
        {
            let ghost was = out@;
            let row = &self.inputs[i];
            proof {
                assert(all.take(i + 1).drop_last() =~= all.take(i as int));
                assert(all.take(i + 1).last() == row@);
            }
            if row.project == project.0 && row.delivered_at.is_none() {
                let e = PendingInput {
                    id: row.id,
                    process_id: row.process_id,
                    content: row.content.clone(),
                };
                out.push(e);
                assert(inputs::input_views(out@) =~= inputs::input_views(was).push(
                    (e.id, e.process_id, e.content@),
                ));
            }
            i += 1;
        }
        assert(all.take(i as int) =~= all);
        Ok(out)
    }

    /// Notes that input was delivered. Input that is not there, or was
    /// delivered before, is no error.
    pub fn ack_input(&mut self, project: ProjectId, seq: i64, now: &Moment) -> (r: Result<
        (),
        CoreError,
    >)
        requires
            old(self)@.wf(),
        ensures
            ({
                let s = StoreView {
                    inputs: delivered(old(self)@.inputs, project.0, seq, now.text@),
                    ..old(self)@
                };
                if old(self)@.has(project.0) {
                    r is Ok && final(self)@ == s.showing(project.0, seq![Surface::Inputs])
                } else {
                    r is Err && r->Err_0@ == ErrorView::ProjectNotFound(project.0) && final(self)@
                        == s
                }
            }),
            final(self)@.wf(),
    {
        let ghost before = self@;
        let ghost all = self@.inputs;
        let ghost goal = delivered(all, project.0, seq, now.text@);
        let mut i: usize = 0;
        assert(self@.inputs =~= goal.take(0) + all.skip(0));
        while i < self.inputs.len()
            invariant
                i <= self.inputs.len(),
                self.inputs.len() == all.len(),
                goal == delivered(all, project.0, seq, now.text@),
                self@.inputs == goal.take(i as int) + all.skip(i as int),
                self@ == (StoreView { inputs: self@.inputs, ..before }),
            decreases self.inputs.len() - i,
        {
            proof {
                assert(self@.inputs[i as int] == all[i as int]);
                assert(self.inputs@[i as int]@ == all[i as int]);
                assert(goal.take(i + 1) =~= goal.take(i as int).push(goal[i as int]));
            }
            if self.inputs[i].project == project.0 && self.inputs[i].delivered_at.is_none()
                && self.inputs[i].id == seq {
                let row = InputRow {
                    id: self.inputs[i].id,
                    project: self.inputs[i].project,
                    process_id: self.inputs[i].process_id,
                    content: self.inputs[i].content.clone(),
                    created_at: self.inputs[i].created_at.clone(),
                    delivered_at: Some(now.text.clone()),
                };
                let ghost was = self@.inputs;
                self.inputs.set(i, row);
                proof {
                    assert(row@ == goal[i as int]);
                    assert(self@.inputs =~= was.update(i as int, row@));
                }
            } else {
                assert(goal[i as int] == all[i as int]);
            }
            assert(self@.inputs =~= goal.take(i + 1) + all.skip(i + 1));
            i += 1;
        }
        proof {
            assert(goal.take(i as int) + all.skip(i as int) =~= goal);
            assert forall|a: int, b: int| 0 <= a < b < goal.len() implies (#[trigger] goal[a]).id
                < (#[trigger] goal[b]).id by {
                assert(goal[a].id == all[a].id && goal[b].id == all[b].id);
            }
            assert forall|a: int| 0 <= a < goal.len() implies (#[trigger] goal[a]).id
                < before.next_input by {
                assert(goal[a].id == all[a].id);
            }
        }
        match self.find_project(project.0) {
            Some(_) => {
                self.show(project.0, Surface::Inputs);
                Ok(())
            },
            None => Err(CoreError::ProjectNotFound(project.0)),
        }
    }

    /// Where what a process puts out is kept.
    pub fn output_capture_path(&self, project: ProjectId, id: u64) -> (r: Result<String, CoreError>)
        ensures
            match r {
                Ok(s) => self@.has(project.0) && s@ == paths::in_dir(
                    self@.project(project.0).root,
                    ".panopt/.cockpit/output-"@ + text::decimal(id as nat) + ".txt"@,
                ),
                Err(e) => !self@.has(project.0) && e@ == ErrorView::ProjectNotFound(project.0),
            },
    {
        let root = match self.project_root(project) {
            Ok(s) => s,
            Err(e) => return Err(e),
        };
        let mut name = ".panopt/.cockpit/output-".to_owned();
        name.append(text::number(id).as_str());
        name.append(".txt");
        Ok(paths::join_path(root.as_str(), name.as_str()))
    }

    /// The last rows that a process put out; all where no number is given.
    /// `body` is what was kept of it, if anything.
    pub fn process_output(
        &self,
        project: ProjectId,
        id: u64,
        lines: Option<u64>,
        body: Option<&str>,
    ) -> (r: Result<String, CoreError>)
        ensures
            match r {
                Ok(s) => table::has_live(self@.project(project.0).processes, id) && s@
                    == last_lines(
                    match body {
                        Some(b) => b@,
                        None => seq![],
                    },
                    lines,
                ),
                Err(e) => !table::has_live(self@.project(project.0).processes, id) && e@
                    == ErrorView::ProcessNotFound(id),
            },
    {
        if let Err(e) = self.process_get(project, id) {
            return Err(e);
        }
        proof {
            reveal_strlit("");
            assert(""@ =~= Seq::<char>::empty());
        }
        let body: &str = match body {
            Some(b) => b,
            None => "",
        };
        match lines {
            None => Ok(body.to_owned()),
            Some(n) => {
                let rows = text::lines(body);
                let len: usize = rows.len();
                let from: usize = if len as u64 <= n {
                    0
                } else {
                    len - n as usize
                };
                let ghost all = text::views(rows@);
                let mut tail: Vec<&str> = Vec::new();
                let mut i: usize = from;
                assert(all.subrange(from as int, from as int) =~= seq![]);
                assert(text::views(tail@) =~= seq![]);
                while i < rows.len()
                    invariant
                        from <= i <= rows.len(),
                        all == text::views(rows@),
                        text::views(tail@) == all.subrange(from as int, i as int),
                    decreases rows.len() - i,
                {
                    let ghost was = tail@;
                    tail.push(rows[i]);
                    proof {
                        assert(text::views(tail@) =~= text::views(was).push(rows@[i as int]@));
                        assert(all.subrange(from as int, i + 1) =~= all.subrange(
                            from as int,
                            i as int,
                        ).push(all[i as int]));
                    }
                    i += 1;
                }
                assert(all.subrange(from as int, i as int) =~= all.skip(from as int));
                Ok(text::join(&tail, "\n"))
            },
        }
    }

    /// The rows that a process put out and that hold a pattern.
    pub fn search_output(
        &self,
        project: ProjectId,
        id: u64,
        pattern: &str,
        body: Option<&str>,
    ) -> (r: Result<Vec<String>, CoreError>)
        ensures
            match r {
                Ok(v) => table::has_live(self@.project(project.0).processes, id) && text::texts(v@)
                    == lines_with(
                    match body {
                        Some(b) => b@,
                        None => seq![],
                    },
                    pattern@,
                ),
                Err(e) => !table::has_live(self@.project(project.0).processes, id) && e@
                    == ErrorView::ProcessNotFound(id),
            },
    {
        if let Err(e) = self.process_get(project, id) {
            return Err(e);
        }
        proof {
            reveal_strlit("");
            assert(""@ =~= Seq::<char>::empty());
        }
        let body: &str = match body {
            Some(b) => b,
            None => "",
        };
        let rows = text::lines(body);
        let ghost all = text::views(rows@);
        let ghost keep = |l: Seq<char>| text::find_seq(l, pattern@) is Some;
        let mut out: Vec<String> = Vec::new();
        let mut i: usize = 0;
        assert(all.take(0) =~= seq![]);
        assert(text::texts(out@) =~= all.take(0).filter(keep)) by {
            reveal(Seq::filter);
        }
        while i < rows.len()
            invariant
                i <= rows.len(),
                all == text::views(rows@),
                keep == (|l: Seq<char>| text::find_seq(l, pattern@) is Some),
                text::texts(out@) == all.take(i as int).filter(keep),
            decreases rows.len() - i,
        {
            let ghost was = out@;
            let row: &str = rows[i];
            proof {
                let part = all.take(i + 1);
                assert(part.drop_last() =~= all.take(i as int));
                assert(part.last() == row@);
                reveal(Seq::filter);
            }
            if text::contains(row, pattern) {
                let s = row.to_owned();
                out.push(s);
                assert(text::texts(out@) =~= text::texts(was).push(s@));
            }
            i += 1;
        }
        assert(all.take(i as int) =~= all);
        Ok(out)
    }

    /// What an instance is told when it starts, if anything.
    pub fn render_agent_instructions(
        &self,
        project: ProjectId,
        process: &Process,
        host: &str,
        port: u16,
        token: &str,
        panopt_bin: &str,
    ) -> (r: Result<Option<String>, CoreError>)
        requires
            self@.wf(),
        ensures
            match r {
                Ok(s) => instructions_for(
                    self@,
                    project.0,
                    process@,
                    host@,
                    port,
                    token@,
                    panopt_bin@,
                ) == Ok::<Option<Seq<char>>, ErrorView>(text::opt_text(s)),
                Err(e) => instructions_for(
                    self@,
                    project.0,
                    process@,
                    host@,
                    port,
                    token@,
                    panopt_bin@,
                ) == Err::<Option<Seq<char>>, ErrorView>(e@),
            },
    {
        let tool_id: u64 = match process.agent_tool_id {
            Some(t) => t,
            None => return Ok(None),
        };
        let config = match self.agent_tool_get(project, tool_id) {
            Ok(c) => c,
            Err(e) => return Err(e),
        };
        let profile = match self.profiles.get(config.tool_type.as_str()) {
            Some(p) => p,
            None => return Ok(None),
        };
        let i: usize = match self.find_project(project.0) {
            Some(i) => i,
            None => return Err(CoreError::ProjectNotFound(project.0)),
        };
        let root = self.projects[i].root.clone();
        let identity = match &self.projects[i].identity {
            Some(s) => s.clone(),
            None => root.clone(),
        };
        let agent_id = if blank_text(process.name.as_str()) {
            config.name.clone()
        } else {
            process.name.clone()
        };
        let name = if blank_text(process.display_name.as_str()) {
            agent_id.clone()
        } else {
            process.display_name.clone()
        };
        let facts = Facts {
            panopt_bin: panopt_bin.to_owned(),
            host: host.to_owned(),
            port,
            ws: root,
            project: identity,
            agent_id,
            name,
            token: token.to_owned(),
            model: profile.default_model.clone(),
            process_id: Some(process.id),
        };
        assert(facts@ == start_facts(
            self@,
            project.0,
            process@,
            host@,
            port,
            token@,
            panopt_bin@,
        ));
        match launch::render_instructions(profile, &facts) {
            Ok(s) => Ok(s),
            Err(e) => Err(CoreError::BadRequest(e.message())),
        }
    }
}

} // verus!
