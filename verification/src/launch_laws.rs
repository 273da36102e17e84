//! What an agent is launched with: how a template is filled in, what the files,
//! the arguments and the environment of a launch are, and what an agent is told.

use vstd::prelude::*;
use vstd::string::*;

use crate::error::ErrorView;
use crate::launch;
use crate::model::ProcessView;
use crate::paths;
use crate::profiles::AgentProfile;
use crate::project_laws;
use crate::record_laws;
use crate::store::StoreView;
use crate::store_inputs;
use crate::templates;
use crate::templates::{Cut, FactsView, Paths, RenderFault};
use crate::text;

verus! {

// ---------------------------------------------------------------------------
// Templates
// ---------------------------------------------------------------------------

/// What is left of the first two braces stays; what stands between them and the
/// next two is a name, whatever space is round it; what follows is filled in like
/// a template of its own. The first fault is the one that is told of.
pub proof fn law_placeholder_is_replaced(
    before: Seq<char>,
    name: Seq<char>,
    after: Seq<char>,
    facts: FactsView,
    files: Option<Paths>,
)
    requires
        !before.contains('{'),
        !name.contains('}'),
        !name.contains('{'),
    ensures
        ({
            let whole = templates::filled(
                before + seq!['{', '{'] + (name + seq!['}', '}'] + after),
                facts,
                files,
            );
            let value = templates::resolved(text::trimmed(name), facts, files);
            let rest = templates::filled(after, facts, files);
            &&& value is Err ==> whole == Err::<Seq<char>, RenderFault>(value->Err_0)
            &&& value is Ok && rest is Err ==> whole == Err::<Seq<char>, RenderFault>(rest->Err_0)
            &&& value is Ok && rest is Ok ==> whole == Ok::<Seq<char>, RenderFault>(
                before + value->Ok_0 + rest->Ok_0,
            )
        }),
{
    let open = seq!['{', '{'];
    let close = seq!['}', '}'];
    let tail = name + close + after;
    let t = before + open + tail;
    lemma_cut_before(before, '{', tail);
    lemma_cut_before(name, '}', after);
    assert(text::cut(t, templates::opening()) == Some((before, tail)));
    assert(text::cut(tail, templates::closing()) == Some((name, after)));
    assert(templates::first_cut(t) == (Cut::Named { before, name: text::trimmed(name), after }));
}

/// A text is cut where a character first stands twice, where it does not stand
/// before that.
proof fn lemma_cut_before(a: Seq<char>, c: char, b: Seq<char>)
    requires
        !a.contains(c),
    ensures
        text::cut(a + seq![c, c] + b, seq![c, c]) == Some((a, b)),
{
    let pat = seq![c, c];
    let s = a + pat + b;
    let n = a.len() as int;
    assert(s.subrange(n, n + 2) =~= pat);
    assert forall|j: int| 0 <= j < n implies !text::occurs_at(s, pat, j) by {
        if text::occurs_at(s, pat, j) {
            assert(s.subrange(j, j + 2)[0] == pat[0]);
            assert(s[j] == a[j]);
            assert(a.contains(a[j]));
        }
    }
    text::lemma_find_is(s, pat, n);
    assert(s.take(n) =~= a);
    assert(s.skip(n + 2) =~= b);
}

/// Where a placeholder is opened and not closed, a template is refused.
pub proof fn law_open_placeholder_is_refused(
    before: Seq<char>,
    rest: Seq<char>,
    facts: FactsView,
    files: Option<Paths>,
)
    requires
        !before.contains('{'),
        !rest.contains('}'),
    ensures
        templates::filled(before + seq!['{', '{'] + rest, facts, files) == Err::<
            Seq<char>,
            RenderFault,
        >(RenderFault::Unterminated),
{
    lemma_cut_before(before, '{', rest);
    text::lemma_find_from(rest, seq!['}', '}'], 0);
    if let Some(i) = text::find_seq(rest, seq!['}', '}']) {
        assert(rest.subrange(i, i + 2)[0] == seq!['}', '}'][0]);
        assert(rest.contains(rest[i]));
    }
    assert(templates::opening() =~= seq!['{', '{']);
    assert(templates::closing() =~= seq!['}', '}']);
}

/// Each name stands for the fact of that name, and a name that is none is refused.
pub proof fn law_names_stand_for_facts(facts: FactsView, files: Option<Paths>, name: Seq<char>)
    ensures
        templates::resolved("panopt_bin"@, facts, files) == Ok::<Seq<char>, RenderFault>(
            facts.panopt_bin,
        ),
        templates::resolved("host"@, facts, files) == Ok::<Seq<char>, RenderFault>(facts.host),
        templates::resolved("port"@, facts, files) == Ok::<Seq<char>, RenderFault>(
            text::decimal(facts.port as nat),
        ),
        templates::resolved("ws"@, facts, files) == Ok::<Seq<char>, RenderFault>(facts.ws),
        templates::resolved("project"@, facts, files) == Ok::<Seq<char>, RenderFault>(
            facts.project,
        ),
        templates::resolved("agent_id"@, facts, files) == Ok::<Seq<char>, RenderFault>(
            facts.agent_id,
        ),
        templates::resolved("name"@, facts, files) == Ok::<Seq<char>, RenderFault>(facts.name),
        templates::resolved("token"@, facts, files) == Ok::<Seq<char>, RenderFault>(facts.token),
        facts.model is Some ==> templates::resolved("model"@, facts, files) == Ok::<
            Seq<char>,
            RenderFault,
        >(facts.model->0),
        facts.model is None ==> templates::resolved("model"@, facts, files) == Ok::<
            Seq<char>,
            RenderFault,
        >(seq![]),
        facts.process_id is Some ==> templates::resolved("process_id"@, facts, files) == Ok::<
            Seq<char>,
            RenderFault,
        >(text::decimal(facts.process_id->0 as nat)),
        facts.process_id is None ==> templates::resolved("process_id"@, facts, files) == Ok::<
            Seq<char>,
            RenderFault,
        >(seq![]),
        name != "panopt_bin"@ && name != "host"@ && name != "port"@ && name != "ws"@ && name
            != "project"@ && name != "agent_id"@ && name != "name"@ && name != "token"@ && name
            != "model"@ && name != "process_id"@ && text::after_prefix(name, "file:"@) is None
            ==> templates::resolved(name, facts, files) == Err::<Seq<char>, RenderFault>(
            RenderFault::UnknownPlaceholder(name),
        ),
{
    reveal_strlit("file:");
    reveal_strlit("panopt_bin");
    reveal_strlit("host");
    reveal_strlit("port");
    reveal_strlit("ws");
    reveal_strlit("project");
    reveal_strlit("agent_id");
    reveal_strlit("name");
    reveal_strlit("token");
    reveal_strlit("model");
    reveal_strlit("process_id");
    lemma_no_file("panopt_bin"@);
    lemma_no_file("host"@);
    lemma_no_file("port"@);
    lemma_no_file("ws"@);
    lemma_no_file("project"@);
    lemma_no_file("agent_id"@);
    lemma_no_file("name"@);
    lemma_no_file("token"@);
    lemma_no_file("model"@);
    lemma_no_file("process_id"@);
    assert("host"@[0] == 'h' && "port"@[0] == 'p' && "port"@[1] == 'o' && "ws"@[0] == 'w');
    assert("project"@.len() == 7 && "agent_id"@.len() == 8 && "name"@[0] == 'n' && "token"@[0]
        == 't' && "model"@[0] == 'm' && "process_id"@[1] == 'r' && "panopt_bin"@[1] == 'a');
}

/// A name that begins with no f asks for no file.
proof fn lemma_no_file(name: Seq<char>)
    requires
        name.len() > 0,
        name[0] != 'f',
    ensures
        text::after_prefix(name, "file:"@) is None,
{
    reveal_strlit("file:");
    if text::begins(name, "file:"@) {
        assert(name.subrange(0, 5)[0] == "file:"@[0]);
    }
}

/// A name behind the mark of a file stands for the path of that file, where there
/// is one; a file that is not known is refused.
pub proof fn law_names_stand_for_files(facts: FactsView, files: Paths, file: Seq<char>)
    ensures
        files.dom().contains(file) ==> templates::resolved("file:"@ + file, facts, Some(files))
            == Ok::<Seq<char>, RenderFault>(files[file]),
        !files.dom().contains(file) ==> templates::resolved("file:"@ + file, facts, Some(files))
            == Err::<Seq<char>, RenderFault>(RenderFault::UnknownFile(file)),
        templates::resolved("file:"@ + file, facts, None) == Err::<Seq<char>, RenderFault>(
            RenderFault::UnknownFile("file:"@ + file),
        ),
{
    let mark = "file:"@;
    let name = mark + file;
    assert(name.subrange(0, mark.len() as int) =~= mark);
    assert(name.skip(mark.len() as int) =~= file);
}

// ---------------------------------------------------------------------------
// Launches
// ---------------------------------------------------------------------------

/// Where a launch is made, its files are those of the type, in their order, each
/// in the directory of the launch under its name as one segment, and each filled in
/// with the files before it; the name of each leads to its path.
pub proof fn law_files_are_written_in_order(
    files: Seq<(Seq<char>, Seq<char>)>,
    facts: FactsView,
    dir: Seq<char>,
)
    requires
        launch::files_filled(files, facts, dir) is Ok,
    ensures
        ({
            let (done, paths) = launch::files_filled(files, facts, dir)->Ok_0;
            &&& done.len() == files.len()
            &&& forall|i: int|
                0 <= i < files.len() ==> (#[trigger] done[i]).0 == paths::in_dir(
                    dir,
                    templates::sanitized(files[i].0),
                )
            &&& forall|i: int|
                0 <= i < files.len() ==> templates::filled(
                    (#[trigger] files[i]).1,
                    facts,
                    Some(launch::files_filled(files.take(i), facts, dir)->Ok_0.1),
                ) == Ok::<Seq<char>, RenderFault>(done[i].1)
            &&& forall|n: Seq<char>| #[trigger]
                paths.dom().contains(n) <==> exists|i: int|
                    0 <= i < files.len() && (#[trigger] files[i]).0 == n
            &&& forall|n: Seq<char>|
                paths.dom().contains(n) ==> #[trigger] paths[n] == paths::in_dir(
                    dir,
                    templates::sanitized(n),
                )
        }),
    decreases files.len(),
{
    if files.len() > 0 {
        let front = files.drop_last();
        let k = files.len() - 1;
        law_files_are_written_in_order(front, facts, dir);
        let (done0, paths0) = launch::files_filled(front, facts, dir)->Ok_0;
        let (done, paths) = launch::files_filled(files, facts, dir)->Ok_0;
        assert(files.take(k) =~= front);
        assert forall|i: int| 0 <= i < files.len() implies (#[trigger] done[i]).0 == paths::in_dir(
            dir,
            templates::sanitized(files[i].0),
        ) by {
            if i < k {
                assert(done[i] == done0[i]);
                assert(front[i] == files[i]);
            }
        }
        assert forall|i: int| 0 <= i < files.len() implies templates::filled(
            (#[trigger] files[i]).1,
            facts,
            Some(launch::files_filled(files.take(i), facts, dir)->Ok_0.1),
        ) == Ok::<Seq<char>, RenderFault>(done[i].1) by {
            if i < k {
                assert(done[i] == done0[i]);
                assert(front[i] == files[i]);
                assert(front.take(i) =~= files.take(i));
            }
        }
        assert forall|n: Seq<char>| #[trigger] paths.dom().contains(n) <==> exists|i: int|
            0 <= i < files.len() && (#[trigger] files[i]).0 == n by {
            if paths0.dom().contains(n) {
                let i = choose|i: int| 0 <= i < front.len() && (#[trigger] front[i]).0 == n;
                assert(files[i] == front[i]);
            }
            if n == files[k].0 {
                assert(files[k].0 == n);
            }
            if exists|i: int| 0 <= i < files.len() && (#[trigger] files[i]).0 == n {
                let i = choose|i: int| 0 <= i < files.len() && (#[trigger] files[i]).0 == n;
                if i < k {
                    assert(front[i].0 == n);
                }
            }
        }
    }
}

/// The arguments are those of the type and then the usual ones, and the
/// environment has the names of the type, each value filled in with the files.
/// Where any of them cannot be, nothing is launched.
pub proof fn law_launch_is_that_of_the_type(p: AgentProfile, facts: FactsView, dir: Seq<char>)
    requires
        launch::launch_of(p, facts, dir) is Ok,
    ensures
        ({
            let made = launch::launch_of(p, facts, dir)->Ok_0;
            let files = launch::files_filled(launch::pair_views(p.spawn.files.list()), facts, dir);
            let paths = files->Ok_0.1;
            let own = p.spawn.argv@.len() as int;
            let env = p.spawn.env.list();
            &&& files is Ok
            &&& made.files == files->Ok_0.0
            &&& made.argv.len() == own + p.default_args@.len()
            &&& forall|i: int|
                0 <= i < own ==> templates::filled(p.spawn.argv@[i]@, facts, Some(paths)) == Ok::<
                    Seq<char>,
                    RenderFault,
                >(#[trigger] made.argv[i])
            &&& forall|i: int|
                0 <= i < p.default_args@.len() ==> templates::filled(
                    (#[trigger] p.default_args@[i])@,
                    facts,
                    Some(paths),
                ) == Ok::<Seq<char>, RenderFault>(made.argv[own + i])
            &&& made.env.len() == env.len()
            &&& forall|i: int|
                0 <= i < env.len() ==> (#[trigger] made.env[i]).0 == env[i].0@
                    && templates::filled(env[i].1@, facts, Some(paths)) == Ok::<
                    Seq<char>,
                    RenderFault,
                >(made.env[i].1)
        }),
{
    let own = text::texts(p.spawn.argv@);
    let usual = text::texts(p.default_args@);
    let paths = launch::files_filled(launch::pair_views(p.spawn.files.list()), facts, dir)->Ok_0.1;
    lemma_all_filled(own + usual, facts, paths);
    lemma_values_filled(launch::pair_views(p.spawn.env.list()), facts, paths);
    let made = launch::launch_of(p, facts, dir)->Ok_0;
    let all = own + usual;
    assert forall|i: int| 0 <= i < own.len() implies templates::filled(
        p.spawn.argv@[i]@,
        facts,
        Some(paths),
    ) == Ok::<Seq<char>, RenderFault>(#[trigger] made.argv[i]) by {
        assert(all[i] == p.spawn.argv@[i]@);
    }
    assert forall|i: int| 0 <= i < usual.len() implies templates::filled(
        (#[trigger] p.default_args@[i])@,
        facts,
        Some(paths),
    ) == Ok::<Seq<char>, RenderFault>(made.argv[own.len() + i]) by {
        assert(all[own.len() + i] == p.default_args@[i]@);
    }
    let pairs = launch::pair_views(p.spawn.env.list());
    assert forall|i: int| 0 <= i < pairs.len() implies (#[trigger] made.env[i]).0
        == p.spawn.env.list()[i].0@ && templates::filled(
        p.spawn.env.list()[i].1@,
        facts,
        Some(paths),
    ) == Ok::<Seq<char>, RenderFault>(made.env[i].1) by {
        assert(pairs[i] == (p.spawn.env.list()[i].0@, p.spawn.env.list()[i].1@));
    }
}

/// Templates are filled in one by one.
proof fn lemma_all_filled(ts: Seq<Seq<char>>, facts: FactsView, paths: Paths)
    ensures
        launch::all_filled(ts, facts, paths) matches Ok(done) ==> done.len() == ts.len()
            && forall|i: int|
            0 <= i < ts.len() ==> templates::filled(#[trigger] ts[i], facts, Some(paths)) == Ok::<
                Seq<char>,
                RenderFault,
            >(done[i]),
    decreases ts.len(),
{
    if ts.len() > 0 {
        let front = ts.drop_last();
        lemma_all_filled(front, facts, paths);
        if launch::all_filled(ts, facts, paths) is Ok {
            let done = launch::all_filled(ts, facts, paths)->Ok_0;
            let done0 = launch::all_filled(front, facts, paths)->Ok_0;
            assert forall|i: int| 0 <= i < ts.len() implies templates::filled(
                #[trigger] ts[i],
                facts,
                Some(paths),
            ) == Ok::<Seq<char>, RenderFault>(done[i]) by {
                if i < front.len() {
                    assert(front[i] == ts[i]);
                    assert(done0[i] == done[i]);
                }
            }
        }
    }
}

/// Values are filled in one by one, and keep their names.
proof fn lemma_values_filled(
    pairs: Seq<(Seq<char>, Seq<char>)>,
    facts: FactsView,
    paths: Paths,
)
    ensures
        launch::values_filled(pairs, facts, paths) matches Ok(done) ==> done.len() == pairs.len()
            && forall|i: int|
            0 <= i < pairs.len() ==> (#[trigger] pairs[i]).0 == done[i].0 && templates::filled(
                pairs[i].1,
                facts,
                Some(paths),
            ) == Ok::<Seq<char>, RenderFault>(done[i].1),
    decreases pairs.len(),
{
    if pairs.len() > 0 {
        let front = pairs.drop_last();
        lemma_values_filled(front, facts, paths);
        if launch::values_filled(pairs, facts, paths) is Ok {
            let done = launch::values_filled(pairs, facts, paths)->Ok_0;
            let done0 = launch::values_filled(front, facts, paths)->Ok_0;
            assert forall|i: int| 0 <= i < pairs.len() implies (#[trigger] pairs[i]).0
                == done[i].0 && templates::filled(pairs[i].1, facts, Some(paths)) == Ok::<
                Seq<char>,
                RenderFault,
            >(done[i].1) by {
                if i < front.len() {
                    assert(front[i] == pairs[i]);
                    assert(done0[i] == done[i]);
                }
            }
        }
    }
}

// ---------------------------------------------------------------------------
// What an agent is told
// ---------------------------------------------------------------------------

/// An agent is told what the template of its type says of it: who it is, by its
/// own names and by those of its config where it has none, which project it is in,
/// and where to connect. A process that comes from no config, and a type without a
/// template, are told nothing; a config that is gone is refused.
pub proof fn law_agent_is_told_who_it_is(
    s: StoreView,
    at: int,
    v: ProcessView,
    host: Seq<char>,
    port: u16,
    token: Seq<char>,
    bin: Seq<char>,
    i: int,
)
    requires
        s.wf(),
        0 <= at < s.projects.len(),
    ensures
        ({
            let p = s.projects[at];
            let r = store_inputs::instructions_for(s, p.id, v, host, port, token, bin);
            let config = p.tools[i].value;
            let kind = if config.tool_type.len() == 0 || config.tool_type == "agent"@ {
                s.default_type
            } else {
                config.tool_type
            };
            let of_type = s.profiles.map().value(kind);
            let id = if text::trimmed(v.name).len() == 0 {
                config.name
            } else {
                v.name
            };
            &&& v.agent_tool_id is None ==> r == Ok::<Option<Seq<char>>, ErrorView>(None)
            &&& v.agent_tool_id is Some && record_laws::is_missing(p.tools, v.agent_tool_id->0)
                ==> r == Err::<Option<Seq<char>>, ErrorView>(
                ErrorView::AgentToolNotFound(v.agent_tool_id->0),
            )
            &&& v.agent_tool_id is Some && record_laws::is_row(p.tools, i, v.agent_tool_id->0) ==> {
                &&& !s.profiles.map().has(kind) || of_type.instructions is None ==> r == Ok::<
                    Option<Seq<char>>,
                    ErrorView,
                >(None)
                &&& s.profiles.map().has(kind) && of_type.instructions is Some ==> {
                    let told = templates::filled(
                        of_type.instructions->0@,
                        FactsView {
                            panopt_bin: bin,
                            host,
                            port,
                            ws: p.root,
                            project: if p.identity is Some {
                                p.identity->0
                            } else {
                                p.root
                            },
                            agent_id: id,
                            name: if text::trimmed(v.display_name).len() == 0 {
                                id
                            } else {
                                v.display_name
                            },
                            token,
                            model: text::opt_text(of_type.default_model),
                            process_id: Some(v.id),
                        },
                        None,
                    );
                    &&& told is Ok ==> r == Ok::<Option<Seq<char>>, ErrorView>(Some(told->Ok_0))
                    &&& told is Err ==> r is Err && r->Err_0 is BadRequest
                }
            }
        }),
{
    let p = s.projects[at];
    project_laws::lemma_project(s, at);
    if v.agent_tool_id is Some {
        record_laws::lemma_row(p.tools, p.next_id, v.agent_tool_id->0, i);
    }
}

} // verus!
