//! How an agent is launched: the template of its type, filled in.

use vstd::prelude::*;
use vstd::string::*;

use crate::paths;
use crate::profile_set;
use crate::profiles::AgentProfile;
use crate::templates;
use crate::templates::{Facts, FactsView, Paths, RenderError, RenderFault};
use crate::text;
use crate::textmap::TextMap;

verus! {

/// A file that is written before a launch.
#[derive(Debug)]
pub struct SpawnFile {
    pub path: String,
    pub contents: String,
}

/// The contents of files: their paths and what they hold.
pub open spec fn file_views(v: Seq<SpawnFile>) -> Seq<(Seq<char>, Seq<char>)> {
    v.map_values(|f: SpawnFile| (f.path@, f.contents@))
}

/// The contents of pairs of texts.
pub open spec fn pair_views(v: Seq<(String, String)>) -> Seq<(Seq<char>, Seq<char>)> {
    v.map_values(|p: (String, String)| (p.0@, p.1@))
}

/// A launch, filled in. Whoever makes it writes the files first, and removes
/// them when the agent is gone.
#[derive(Debug)]
pub struct Launch {
    /// The arguments, the program first.
    pub argv: Vec<String>,
    /// The variables of the environment.
    pub env: Vec<(String, String)>,
    /// The files to write, in order.
    pub files: Vec<SpawnFile>,
}

/// The contents of a [`Launch`].
pub struct LaunchView {
    pub argv: Seq<Seq<char>>,
    pub env: Seq<(Seq<char>, Seq<char>)>,
    pub files: Seq<(Seq<char>, Seq<char>)>,
}

impl View for Launch {
    type V = LaunchView;

    open spec fn view(&self) -> LaunchView {
        LaunchView {
            argv: text::texts(self.argv@),
            env: pair_views(self.env@),
            files: file_views(self.files@),
        }
    }
}

/// The files of a launch, each filled in with the paths of those before it,
/// and the paths of all.
pub open spec fn files_filled(
    files: Seq<(Seq<char>, Seq<char>)>,
    facts: FactsView,
    dir: Seq<char>,
) -> Result<(Seq<(Seq<char>, Seq<char>)>, Paths), RenderFault>
    decreases files.len(),
{
    if files.len() == 0 {
        Ok((seq![], Map::empty()))
    } else {
        match files_filled(files.drop_last(), facts, dir) {
            Err(e) => Err(e),
            Ok((done, paths)) => {
                let (name, template) = files.last();
                let path = paths::in_dir(dir, templates::sanitized(name));
                match templates::filled(template, facts, Some(paths)) {
                    Err(e) => Err(e),
                    Ok(contents) => Ok((done.push((path, contents)), paths.insert(name, path))),
                }
            },
        }
    }
}

/// Templates, filled in one after the other.
pub open spec fn all_filled(
    ts: Seq<Seq<char>>,
    facts: FactsView,
    paths: Paths,
) -> Result<Seq<Seq<char>>, RenderFault>
    decreases ts.len(),
{
    if ts.len() == 0 {
        Ok(seq![])
    } else {
        match all_filled(ts.drop_last(), facts, paths) {
            Err(e) => Err(e),
            Ok(done) => match templates::filled(ts.last(), facts, Some(paths)) {
                Err(e) => Err(e),
                Ok(s) => Ok(done.push(s)),
            },
        }
    }
}

/// The values of pairs, filled in one after the other.
pub open spec fn values_filled(
    pairs: Seq<(Seq<char>, Seq<char>)>,
    facts: FactsView,
    paths: Paths,
) -> Result<Seq<(Seq<char>, Seq<char>)>, RenderFault>
    decreases pairs.len(),
{
    if pairs.len() == 0 {
        Ok(seq![])
    } else {
        match values_filled(pairs.drop_last(), facts, paths) {
            Err(e) => Err(e),
            Ok(done) => match templates::filled(pairs.last().1, facts, Some(paths)) {
                Err(e) => Err(e),
                Ok(s) => Ok(done.push((pairs.last().0, s))),
            },
        }
    }
}

/// The launch of a profile: first its files, then its arguments and those that
/// always follow, then its environment.
pub open spec fn launch_of(p: AgentProfile, facts: FactsView, dir: Seq<char>) -> Result<
    LaunchView,
    RenderFault,
> {
    match files_filled(pair_views(p.spawn.files.list()), facts, dir) {
        Err(e) => Err(e),
        Ok((files, paths)) => match all_filled(
            text::texts(p.spawn.argv@) + text::texts(p.default_args@),
            facts,
            paths,
        ) {
            Err(e) => Err(e),
            Ok(argv) => match values_filled(pair_views(p.spawn.env.list()), facts, paths) {
                Err(e) => Err(e),
                Ok(env) => Ok(LaunchView { argv, env, files }),
            },
        },
    }
}

/// The result of a launch, with the contents of its error.
pub open spec fn launched(r: Result<Launch, RenderError>) -> Result<LaunchView, RenderFault> {
    match r {
        Ok(l) => Ok(l@),
        Err(e) => Err(e@),
    }
}

/// Every file of a launch has a path.
pub proof fn lemma_files_have_paths(
    files: Seq<(Seq<char>, Seq<char>)>,
    facts: FactsView,
    dir: Seq<char>,
    i: int,
)
    requires
        files_filled(files, facts, dir) is Ok,
        0 <= i < files.len(),
    ensures
        files_filled(files, facts, dir)->Ok_0.1.dom().contains(files[i].0),
    decreases files.len(),
{
    if i < files.len() - 1 {
        lemma_files_have_paths(files.drop_last(), facts, dir, i);
    }
}

/// Of a profile that was checked, a closed argument or variable of the
/// environment is always filled in: it asks only for facts that have values
/// and for files that are written.
pub proof fn law_checked_templates_render(
    p: AgentProfile,
    facts: FactsView,
    dir: Seq<char>,
    i: int,
)
    requires
        p.wf(),
        profile_set::unknown_in(p) is None,
        files_filled(pair_views(p.spawn.files.list()), facts, dir) is Ok,
    ensures
        ({
            let paths = files_filled(pair_views(p.spawn.files.list()), facts, dir)->Ok_0.1;
            &&& 0 <= i < p.spawn.argv@.len() && templates::is_closed(p.spawn.argv@[i]@)
                ==> templates::filled(p.spawn.argv@[i]@, facts, Some(paths)) is Ok
            &&& 0 <= i < p.spawn.env.list().len() && templates::is_closed(
                p.spawn.env.list()[i].1@,
            ) ==> templates::filled(p.spawn.env.list()[i].1@, facts, Some(paths)) is Ok
        }),
{
    let files = p.spawn.files;
    let pairs = pair_views(files.list());
    let paths = files_filled(pairs, facts, dir)->Ok_0.1;
    assert forall|name: Seq<char>|
        profile_set::may_spawn_with(name, files) implies #[trigger] templates::resolved(
        name,
        facts,
        Some(paths),
    ) is Ok by {
        match text::after_prefix(name, "file:"@) {
            Some(file) => {
                assert(files.key_list().contains(file));
                let k = choose|k: int|
                    0 <= k < files.key_list().len() && files.key_list()[k] == file;
                assert(pairs[k].0 == file);
                lemma_files_have_paths(pairs, facts, dir, k);
            },
            None => {
                profile_set::law_known_facts_have_values(name, facts);
            },
        }
    }
    if 0 <= i < p.spawn.argv@.len() {
        let ts = text::texts(p.spawn.argv@);
        let t = ts[i];
        templates::law_filled_where_all_resolve(t, facts, Some(paths));
        assert forall|j: int| 0 <= j < templates::names(t).len() implies templates::resolved(
            #[trigger] templates::names(t)[j],
            facts,
            Some(paths),
        ) is Ok by {
            profile_set::lemma_all_known(ts, files, i, j);
        }
    }
    if 0 <= i < p.spawn.env.list().len() {
        let ts = profile_set::values_of(p.spawn.env);
        let t = ts[i];
        templates::law_filled_where_all_resolve(t, facts, Some(paths));
        assert forall|j: int| 0 <= j < templates::names(t).len() implies templates::resolved(
            #[trigger] templates::names(t)[j],
            facts,
            Some(paths),
        ) is Ok by {
            profile_set::lemma_all_known(ts, files, i, j);
        }
    }
}

/// Fills in templates one after the other, behind those that are done.
fn fill_all(
    list: &Vec<String>,
    facts: &Facts,
    paths: &TextMap<String>,
    Ghost(before): Ghost<Seq<Seq<char>>>,
    done: Vec<String>,
) -> (r: Result<Vec<String>, RenderError>)
    requires
        paths.wf(),
        all_filled(before, facts@, templates::contents(*paths)) == Ok::<
            Seq<Seq<char>>,
            RenderFault,
        >(text::texts(done@)),
    ensures
        match r {
            Ok(v) => all_filled(
                before + text::texts(list@),
                facts@,
                templates::contents(*paths),
            ) == Ok::<Seq<Seq<char>>, RenderFault>(text::texts(v@)),
            Err(e) => all_filled(
                before + text::texts(list@),
                facts@,
                templates::contents(*paths),
            ) == Err::<Seq<Seq<char>>, RenderFault>(e@),
        },
{
    let ghost all = text::texts(list@);
    let ghost known = templates::contents(*paths);
    let mut out = done;
    let mut i: usize = 0;
    assert(before + all.take(0) =~= before);
    while i < list.len()
        invariant
            paths.wf(),
            i <= list.len(),
            all == text::texts(list@),
            known == templates::contents(*paths),
            all_filled(before + all.take(i as int), facts@, known) == Ok::<
                Seq<Seq<char>>,
                RenderFault,
            >(text::texts(out@)),
        decreases list.len() - i,
    {
        let ghost part = before + all.take(i + 1);
        proof {
            assert(part.drop_last() =~= before + all.take(i as int));
            assert(part.last() == list@[i as int]@);
        }
        match templates::substitute(list[i].as_str(), facts, Some(paths)) {
            Ok(s) => {
                let ghost was = out@;
                out.push(s);
                assert(text::texts(out@) =~= text::texts(was).push(s@));
            },
            Err(e) => {
                proof {
                    assert((before + all).take(part.len() as int) =~= part);
                    lemma_error_stays(part, before + all, facts@, known);
                }
                return Err(e);
            },
        }
        i += 1;
    }
    assert(all.take(i as int) =~= all);
    Ok(out)
}

/// The first template that cannot be filled in is the error, whatever comes
/// after it.
proof fn lemma_error_stays(
    part: Seq<Seq<char>>,
    whole: Seq<Seq<char>>,
    facts: FactsView,
    paths: Paths,
)
    requires
        part.len() <= whole.len(),
        part == whole.take(part.len() as int),
        all_filled(part, facts, paths) is Err,
    ensures
        all_filled(whole, facts, paths) == all_filled(part, facts, paths),
    decreases whole.len(),
{
    if part.len() < whole.len() {
        assert(whole.drop_last().take(part.len() as int) =~= part);
        lemma_error_stays(part, whole.drop_last(), facts, paths);
    } else {
        assert(part =~= whole);
    }
}

/// The first value that cannot be filled in is the error, whatever comes after
/// it.
proof fn lemma_value_error_stays(
    part: Seq<(Seq<char>, Seq<char>)>,
    whole: Seq<(Seq<char>, Seq<char>)>,
    facts: FactsView,
    paths: Paths,
)
    requires
        part.len() <= whole.len(),
        part == whole.take(part.len() as int),
        values_filled(part, facts, paths) is Err,
    ensures
        values_filled(whole, facts, paths) == values_filled(part, facts, paths),
    decreases whole.len(),
{
    if part.len() < whole.len() {
        assert(whole.drop_last().take(part.len() as int) =~= part);
        lemma_value_error_stays(part, whole.drop_last(), facts, paths);
    } else {
        assert(part =~= whole);
    }
}

/// The first file that cannot be filled in is the error, whatever comes after
/// it.
proof fn lemma_file_error_stays(
    part: Seq<(Seq<char>, Seq<char>)>,
    whole: Seq<(Seq<char>, Seq<char>)>,
    facts: FactsView,
    dir: Seq<char>,
)
    requires
        part.len() <= whole.len(),
        part == whole.take(part.len() as int),
        files_filled(part, facts, dir) is Err,
    ensures
        files_filled(whole, facts, dir) == files_filled(part, facts, dir),
    decreases whole.len(),
{
    if part.len() < whole.len() {
        assert(whole.drop_last().take(part.len() as int) =~= part);
        lemma_file_error_stays(part, whole.drop_last(), facts, dir);
    } else {
        assert(part =~= whole);
    }
}

/// Fills in the values of a map, in the order of its keys.
fn fill_values(m: &TextMap<String>, facts: &Facts, paths: &TextMap<String>) -> (r: Result<
    Vec<(String, String)>,
    RenderError,
>)
    requires
        paths.wf(),
    ensures
        match r {
            Ok(v) => values_filled(pair_views(m.list()), facts@, templates::contents(*paths))
                == Ok::<Seq<(Seq<char>, Seq<char>)>, RenderFault>(pair_views(v@)),
            Err(e) => values_filled(pair_views(m.list()), facts@, templates::contents(*paths))
                == Err::<Seq<(Seq<char>, Seq<char>)>, RenderFault>(e@),
        },
{
    let ghost all = pair_views(m.list());
    let ghost known = templates::contents(*paths);
    let mut out: Vec<(String, String)> = Vec::new();
    let mut i: usize = 0;
    assert(all.take(0) =~= seq![]);
    assert(pair_views(out@) =~= seq![]);
    while i < m.len()
        invariant
            paths.wf(),
            i <= m.list().len(),
            all == pair_views(m.list()),
            known == templates::contents(*paths),
            values_filled(all.take(i as int), facts@, known) == Ok::<
                Seq<(Seq<char>, Seq<char>)>,
                RenderFault,
            >(pair_views(out@)),
        decreases m.list().len() - i,
    {
        let e = m.at(i);
        let ghost part = all.take(i + 1);
        proof {
            assert(part.drop_last() =~= all.take(i as int));
            assert(part.last() == (e.0@, e.1@));
        }
        match templates::substitute(e.1.as_str(), facts, Some(paths)) {
            Ok(s) => {
                let ghost was = out@;
                out.push((e.0.clone(), s));
                assert(pair_views(out@) =~= pair_views(was).push((e.0@, s@)));
            },
            Err(e) => {
                proof {
                    lemma_value_error_stays(part, all, facts@, known);
                }
                return Err(e);
            },
        }
        i += 1;
    }
    assert(all.take(i as int) =~= all);
    Ok(out)
}

/// Fills in the files of a launch. Returns them with their paths.
fn fill_files(m: &TextMap<String>, facts: &Facts, dir: &str) -> (r: Result<
    (Vec<SpawnFile>, TextMap<String>),
    RenderError,
>)
    ensures
        match r {
            Ok((v, paths)) => paths.wf() && files_filled(pair_views(m.list()), facts@, dir@)
                == Ok::<(Seq<(Seq<char>, Seq<char>)>, Paths), RenderFault>(
                (file_views(v@), templates::contents(paths)),
            ),
            Err(e) => files_filled(pair_views(m.list()), facts@, dir@) == Err::<
                (Seq<(Seq<char>, Seq<char>)>, Paths),
                RenderFault,
            >(e@),
        },
{
    let ghost all = pair_views(m.list());
    let mut out: Vec<SpawnFile> = Vec::new();
    let mut paths: TextMap<String> = TextMap::new();
    let mut i: usize = 0;
    assert(all.take(0) =~= seq![]);
    assert(file_views(out@) =~= seq![]);
    assert(templates::contents(paths) =~= Map::empty());
    while i < m.len()
        invariant
            paths.wf(),
            i <= m.list().len(),
            all == pair_views(m.list()),
            files_filled(all.take(i as int), facts@, dir@) == Ok::<
                (Seq<(Seq<char>, Seq<char>)>, Paths),
                RenderFault,
            >((file_views(out@), templates::contents(paths))),
        decreases m.list().len() - i,
    {
        let e = m.at(i);
        let ghost part = all.take(i + 1);
        proof {
            assert(part.drop_last() =~= all.take(i as int));
            assert(part.last() == (e.0@, e.1@));
        }
        match templates::substitute(e.1.as_str(), facts, Some(&paths)) {
            Ok(contents) => {
                let path = paths::join_path(dir, templates::sanitize(e.0.as_str()).as_str());
                let ghost was = out@;
                let ghost known = templates::contents(paths);
                let ghost before = paths;
                let name = e.0.clone();
                paths.insert(name, path.clone());
                out.push(SpawnFile { path, contents });
                proof {
                    assert(file_views(out@) =~= file_views(was).push((path@, contents@)));
                    let now = templates::contents(paths);
                    assert forall|k: Seq<char>| #[trigger] now.dom().contains(k) == known.insert(
                        name@,
                        path@,
                    ).dom().contains(k) by {
                        if k != name@ {
                            assert(paths.has(k) == before.has(k));
                        }
                    }
                    assert forall|k: Seq<char>| #[trigger] now.dom().contains(k) implies now[k]
                        == known.insert(name@, path@)[k] by {
                        if k != name@ {
                            assert(paths.has(k) == before.has(k));
                            assert(paths.value(k) == before.value(k));
                        }
                    }
                    assert(now =~= known.insert(name@, path@));
                }
            },
            Err(e) => {
                proof {
                    lemma_file_error_stays(part, all, facts@, dir@);
                }
                return Err(e);
            },
        }
        i += 1;
    }
    assert(all.take(i as int) =~= all);
    Ok((out, paths))
}

/// The launch of a profile, its files under `dir`. Nothing is written.
pub fn build_launch(profile: &AgentProfile, facts: &Facts, dir: &str) -> (r: Result<
    Launch,
    RenderError,
>)
    ensures
        launched(r) == launch_of(*profile, facts@, dir@),
{
    let (files, paths) = match fill_files(&profile.spawn.files, facts, dir) {
        Ok(p) => p,
        Err(e) => return Err(e),
    };
    let ghost known = templates::contents(paths);
    let ghost own = text::texts(profile.spawn.argv@);
    let ghost rest = text::texts(profile.default_args@);
    let empty: Vec<String> = Vec::new();
    proof {
        assert(text::texts(empty@) =~= seq![]);
        assert(Seq::<Seq<char>>::empty() + own =~= own);
    }
    let first = match fill_all(
        &profile.spawn.argv,
        facts,
        &paths,
        Ghost(Seq::<Seq<char>>::empty()),
        empty,
    ) {
        Ok(v) => v,
        Err(e) => {
            proof {
                assert((own + rest).take(own.len() as int) =~= own);
                lemma_error_stays(own, own + rest, facts@, known);
            }
            return Err(e);
        },
    };
    let argv = match fill_all(&profile.default_args, facts, &paths, Ghost(own), first) {
        Ok(v) => v,
        Err(e) => return Err(e),
    };
    match fill_values(&profile.spawn.env, facts, &paths) {
        Ok(env) => Ok(Launch { argv, env, files }),
        Err(e) => Err(e),
    }
}

/// What an agent of a profile is told when it starts, if anything.
pub open spec fn instructed(p: AgentProfile, facts: FactsView) -> Result<
    Option<Seq<char>>,
    RenderFault,
> {
    match p.instructions {
        None => Ok(None),
        Some(t) => match templates::filled(t@, facts, None) {
            Ok(s) => Ok(Some(s)),
            Err(e) => Err(e),
        },
    }
}

/// What an agent of a profile is told when it starts, if anything.
pub fn render_instructions(profile: &AgentProfile, facts: &Facts) -> (r: Result<
    Option<String>,
    RenderError,
>)
    ensures
        match r {
            Ok(s) => instructed(*profile, facts@) == Ok::<Option<Seq<char>>, RenderFault>(
                text::opt_text(s),
            ),
            Err(e) => instructed(*profile, facts@) == Err::<Option<Seq<char>>, RenderFault>(e@),
        },
{
    match &profile.instructions {
        None => Ok(None),
        Some(t) => match templates::substitute(t.as_str(), facts, None) {
            Ok(s) => Ok(Some(s)),
            Err(e) => Err(e),
        },
    }
}

} // verus!
