//! The set of agent types: two documents, merged, read and checked.

use vstd::prelude::*;
use vstd::string::*;

use crate::profiles;
use crate::profiles::AgentProfile;
use crate::templates;
use crate::text;
use crate::textmap::TextMap;
use crate::tree;
use crate::tree::{Node, Tree};

verus! {

/// Whether a name is one of the facts that a launch may ask for.
pub open spec fn is_known(name: Seq<char>) -> bool {
    name == "panopt_bin"@ || name == "host"@ || name == "port"@ || name == "ws"@ || name
        == "project"@ || name == "agent_id"@ || name == "name"@ || name == "token"@ || name
        == "model"@
}

/// The facts that a launch may ask for.
pub fn known_placeholders() -> (out: Vec<&'static str>)
    ensures
        forall|n: Seq<char>| #[trigger] text::views(out@).contains(n) == is_known(n),
{
    let mut out: Vec<&'static str> = Vec::new();
    out.push("panopt_bin");
    out.push("host");
    out.push("port");
    out.push("ws");
    out.push("project");
    out.push("agent_id");
    out.push("name");
    out.push("token");
    out.push("model");
    proof {
        let v = text::views(out@);
        assert(v =~= seq![
            "panopt_bin"@,
            "host"@,
            "port"@,
            "ws"@,
            "project"@,
            "agent_id"@,
            "name"@,
            "token"@,
            "model"@,
        ]);
        assert forall|n: Seq<char>| #[trigger] v.contains(n) == is_known(n) by {
            if is_known(n) {
                assert(v[0] == "panopt_bin"@ && v[1] == "host"@ && v[2] == "port"@ && v[3] == "ws"@
                    && v[4] == "project"@ && v[5] == "agent_id"@ && v[6] == "name"@ && v[7]
                    == "token"@ && v[8] == "model"@);
            }
        }
    }
    out
}

/// Whether a launch with these files may ask for a name.
pub open spec fn may_spawn_with(name: Seq<char>, files: TextMap<String>) -> bool {
    match text::after_prefix(name, "file:"@) {
        Some(file) => files.has(file),
        None => is_known(name),
    }
}

/// Whether instructions may ask for a name: a fact or the id of the process,
/// but no file.
pub open spec fn may_instruct_with(name: Seq<char>) -> bool {
    text::after_prefix(name, "file:"@) is None && (is_known(name) || name == "process_id"@)
}

/// The first of some names that a launch may not ask for.
pub open spec fn unknown_name(names: Seq<Seq<char>>, files: TextMap<String>) -> Option<Seq<char>>
    decreases names.len(),
{
    if names.len() == 0 {
        None
    } else if !may_spawn_with(names[0], files) {
        Some(names[0])
    } else {
        unknown_name(names.drop_first(), files)
    }
}

/// The first name that instructions may not ask for.
pub open spec fn unknown_instruction(names: Seq<Seq<char>>) -> Option<Seq<char>>
    decreases names.len(),
{
    if names.len() == 0 {
        None
    } else if !may_instruct_with(names[0]) {
        Some(names[0])
    } else {
        unknown_instruction(names.drop_first())
    }
}

/// The first name in some templates that a launch may not ask for.
pub open spec fn unknown_among(templates: Seq<Seq<char>>, files: TextMap<String>) -> Option<
    Seq<char>,
>
    decreases templates.len(),
{
    if templates.len() == 0 {
        None
    } else {
        match unknown_name(templates::names(templates[0]), files) {
            Some(n) => Some(n),
            None => unknown_among(templates.drop_first(), files),
        }
    }
}

/// The values of a map, in the order of the keys.
pub open spec fn values_of(m: TextMap<String>) -> Seq<Seq<char>> {
    m.list().map_values(|e: (String, String)| e.1@)
}

/// The first name that a profile asks for and may not: in its arguments, its
/// environment, its files, and then its instructions.
pub open spec fn unknown_in(p: AgentProfile) -> Option<Seq<char>> {
    match unknown_among(text::texts(p.spawn.argv@), p.spawn.files) {
        Some(n) => Some(n),
        None => match unknown_among(values_of(p.spawn.env), p.spawn.files) {
            Some(n) => Some(n),
            None => match unknown_among(values_of(p.spawn.files), p.spawn.files) {
                Some(n) => Some(n),
                None => match p.instructions {
                    Some(t) => unknown_instruction(templates::names(t@)),
                    None => None,
                },
            },
        },
    }
}

/// The first profile of some that asks for what it may not.
pub open spec fn fault_among(list: Seq<(String, AgentProfile)>) -> Option<(Seq<char>, Seq<char>)>
    decreases list.len(),
{
    if list.len() == 0 {
        None
    } else {
        match unknown_in(list[0].1) {
            Some(n) => Some((list[0].0@, n)),
            None => fault_among(list.drop_first()),
        }
    }
}

/// Where none of some templates asks for what it may not, each name may be
/// asked for.
pub proof fn lemma_all_known(templates: Seq<Seq<char>>, files: TextMap<String>, i: int, j: int)
    requires
        unknown_among(templates, files) is None,
        0 <= i < templates.len(),
        0 <= j < templates::names(templates[i]).len(),
    ensures
        may_spawn_with(templates::names(templates[i])[j], files),
    decreases templates.len(),
{
    if i == 0 {
        lemma_names_known(templates::names(templates[0]), files, j);
    } else {
        lemma_all_known(templates.drop_first(), files, i - 1, j);
    }
}

/// Where no name is one that a launch may not ask for, each may be.
proof fn lemma_names_known(names: Seq<Seq<char>>, files: TextMap<String>, j: int)
    requires
        unknown_name(names, files) is None,
        0 <= j < names.len(),
    ensures
        may_spawn_with(names[j], files),
    decreases names.len(),
{
    if j > 0 {
        lemma_names_known(names.drop_first(), files, j - 1);
    }
}

/// Every fact that a launch may ask for has a value.
pub proof fn law_known_facts_have_values(name: Seq<char>, facts: templates::FactsView)
    requires
        is_known(name),
    ensures
        facts.fact(name) is Some,
{
}

/// Why the types cannot be read from a layer.
#[derive(Debug)]
pub enum ParseCause {
    /// It is no TOML document.
    Document(toml::de::Error),
    /// What it holds under a key is no profile.
    Profile(String),
}

impl ParseCause {
    /// What a cause says.
    pub open spec fn words(self) -> Seq<char> {
        match self {
            ParseCause::Document(e) => tree::toml_error_text(e),
            ParseCause::Profile(key) => "no profile in `"@ + key@ + "`"@,
        }
    }

    /// What the cause says.
    pub fn message(&self) -> (r: String)
        ensures
            r@ == self.words(),
    {
        match self {
            ParseCause::Document(e) => tree::toml_error_message(e),
            ParseCause::Profile(key) => {
                let mut out = "no profile in `".to_owned();
                out.append(key.as_str());
                out.append("`");
                out
            },
        }
    }
}

/// Why the agent types cannot be used.
#[derive(Debug)]
pub enum ProfileError {
    /// A layer is no document, or the merged one holds no profiles.
    Parse { layer: &'static str, source: ParseCause },
    /// A profile asks for a name that is no fact and no file of its own.
    UnknownPlaceholder { tool_type: String, placeholder: String },
}

impl ProfileError {
    /// What an error says.
    pub open spec fn words(self) -> Seq<char> {
        match self {
            ProfileError::Parse { layer, source } => "parsing agent profiles ("@ + layer@
                + " layer): "@ + source.words(),
            ProfileError::UnknownPlaceholder { tool_type, placeholder } => "agent profile '"@
                + tool_type@ + "' references unknown placeholder '"@ + placeholder@ + "'"@,
        }
    }

    /// What the error says.
    pub fn message(&self) -> (r: String)
        ensures
            r@ == self.words(),
    {
        match self {
            ProfileError::Parse { layer, source } => {
                let mut out = "parsing agent profiles (".to_owned();
                out.append(layer);
                out.append(" layer): ");
                out.append(source.message().as_str());
                out
            },
            ProfileError::UnknownPlaceholder { tool_type, placeholder } => {
                let mut out = "agent profile '".to_owned();
                out.append(tool_type.as_str());
                out.append("' references unknown placeholder '");
                out.append(placeholder.as_str());
                out.append("'");
                out
            },
        }
    }
}

/// The agent types, by key.
#[derive(Debug)]
pub struct ProfileSet {
    profiles: TextMap<AgentProfile>,
}

/// Whether a document is a set of profiles.
pub open spec fn is_set(t: Seq<(Seq<char>, Tree)>) -> bool {
    forall|i: int| 0 <= i < t.len() ==> profiles::is_profile((#[trigger] t[i]).1)
}

/// The first key of a document under which no profile stands.
pub open spec fn first_stray(t: Seq<(Seq<char>, Tree)>) -> Option<Seq<char>>
    decreases t.len(),
{
    if t.len() == 0 {
        None
    } else if !profiles::is_profile(t[0].1) {
        Some(t[0].0)
    } else {
        first_stray(t.drop_first())
    }
}

/// Whether the types cannot be read because a layer is no document.
pub open spec fn is_no_document(
    r: Result<ProfileSet, ProfileError>,
    layer: Seq<char>,
    doc: Seq<char>,
) -> bool {
    r matches Err(ProfileError::Parse { layer: l, source: ParseCause::Document(e) }) && l@ == layer
        && tree::toml_of(doc) == Err::<Tree, Seq<char>>(tree::toml_error_text(e))
}

/// Whether reading the types from a document gives a result: the first key
/// under which no profile stands is an error, and then the first name that a
/// profile asks for and may not; otherwise there is a set of what it holds.
pub open spec fn is_read_of(
    r: Result<ProfileSet, ProfileError>,
    doc: Seq<(Seq<char>, Tree)>,
) -> bool {
    if !is_set(doc) {
        r matches Err(ProfileError::Parse { layer, source: ParseCause::Profile(key) }) && layer@
            == "merged"@ && first_stray(doc) == Some(key@)
    } else {
        match r {
            Ok(set) => set.holds(doc) && set.fault() is None,
            Err(ProfileError::UnknownPlaceholder { tool_type, placeholder }) => exists|
                set: ProfileSet,
            | #[trigger] set.holds(doc) && set.fault() == Some((tool_type@, placeholder@)),
            Err(_) => false,
        }
    }
}

/// The document of two layers, each a document of its own.
pub open spec fn layers(lower: Seq<char>, upper: Option<Seq<char>>) -> Seq<(Seq<char>, Tree)> {
    let base = tree::toml_of(lower)->Ok_0->Table_0;
    match upper {
        Some(u) => tree::merged(base, tree::toml_of(u)->Ok_0->Table_0),
        None => base,
    }
}

impl ProfileSet {
    /// The profiles, by key.
    pub closed spec fn map(self) -> TextMap<AgentProfile> {
        self.profiles
    }

    /// The maps are in order.
    pub open spec fn wf(self) -> bool {
        &&& self.map().wf()
        &&& forall|i: int| 0 <= i < self.map().list().len() ==> (#[trigger] self.map().list()[i]).1.wf()
    }

    /// Whether the set is the one of a document.
    pub open spec fn holds(self, t: Seq<(Seq<char>, Tree)>) -> bool {
        &&& self.wf()
        &&& forall|k: Seq<char>| #[trigger] self.map().has(k) == (profiles::last_field(t, k) is Some)
        &&& forall|k: Seq<char>|
            #![trigger self.map().value(k)]
            self.map().has(k) ==> profiles::holds_profile(
                self.map().value(k),
                profiles::last_field(t, k)->0->Table_0,
            )
    }

    /// The first profile that asks for what it may not, in the order of the
    /// keys.
    pub open spec fn fault(self) -> Option<(Seq<char>, Seq<char>)> {
        fault_among(self.map().list())
    }

    /// The profile of a type.
    pub fn get(&self, tool_type: &str) -> (r: Option<&AgentProfile>)
        requires
            self.wf(),
        ensures
            match r {
                Some(p) => self.map().has(tool_type@) && *p == self.map().value(tool_type@)
                    && p.wf(),
                None => !self.map().has(tool_type@),
            },
    {
        let r = self.profiles.get(tool_type);
        proof {
            if let Some(p) = r {
                let m = self.map();
                assert(m.key_list().contains(tool_type@));
                let i = choose|i: int|
                    0 <= i < m.key_list().len() && m.key_list()[i] == tool_type@;
                assert(m.list()[i].0@ == tool_type@);
                m.lemma_place(i);
                assert(m.list()[i].1.wf());
            }
        }
        r
    }

    /// Whether a type is known.
    pub fn contains(&self, tool_type: &str) -> (r: bool)
        requires
            self.wf(),
        ensures
            r == self.map().has(tool_type@),
    {
        self.profiles.contains(tool_type)
    }

    /// The keys of the types, in order.
    pub fn keys(&self) -> (out: Vec<String>)
        ensures
            text::texts(out@) == self.map().key_list(),
    {
        let ghost goal = self.map().key_list();
        let mut out: Vec<String> = Vec::new();
        let mut i: usize = 0;
        assert(text::texts(out@) =~= goal.take(0));
        while i < self.profiles.len()
            invariant
                i <= self.map().list().len(),
                goal == self.map().key_list(),
                text::texts(out@) == goal.take(i as int),
            decreases self.map().list().len() - i,
        {
            let ghost was = out@;
            let k = self.profiles.at(i).0.clone();
            out.push(k);
            proof {
                assert(goal[i as int] == k@);
                assert(text::texts(out@) =~= text::texts(was).push(k@));
                assert(goal.take(i + 1) =~= goal.take(i as int).push(goal[i as int]));
            }
            i += 1;
        }
        assert(goal.take(i as int) =~= goal);
        out
    }

    /// The types with their profiles, in the order of the keys.
    pub fn iter(&self) -> (out: Vec<(&str, &AgentProfile)>)
        ensures
            out@.len() == self.map().list().len(),
            forall|i: int|
                0 <= i < out@.len() ==> (#[trigger] out@[i]).0@ == self.map().list()[i].0@
                    && *out@[i].1 == self.map().list()[i].1,
    {
        let mut out: Vec<(&str, &AgentProfile)> = Vec::new();
        let mut i: usize = 0;
        while i < self.profiles.len()
            invariant
                i <= self.map().list().len(),
                out@.len() == i,
                forall|j: int|
                    0 <= j < i ==> (#[trigger] out@[j]).0@ == self.map().list()[j].0@ && *out@[j].1
                        == self.map().list()[j].1,
            decreases self.map().list().len() - i,
        {
            let e = self.profiles.at(i);
            out.push((e.0.as_str(), &e.1));
            i += 1;
        }
        out
    }

    /// How many types there are.
    pub fn len(&self) -> (n: usize)
        ensures
            n == self.map().list().len(),
    {
        self.profiles.len()
    }

    /// Whether there are no types.
    pub fn is_empty(&self) -> (r: bool)
        ensures
            r == (self.map().list().len() == 0),
    {
        self.profiles.len() == 0
    }

    /// Merges the user's document over the shipped one, reads the profiles
    /// and checks that each asks only for what it may.
    pub fn from_layers(default_toml: &str, override_toml: Option<&str>) -> (r: Result<
        ProfileSet,
        ProfileError,
    >)
        ensures
            ({
                let doc = layers(default_toml@, text::opt_str(override_toml));
                if tree::toml_of(default_toml@) is Err {
                    is_no_document(r, "default"@, default_toml@)
                } else if override_toml matches Some(o) && tree::toml_of(o@) is Err {
                    is_no_document(r, "override"@, override_toml->0@)
                } else {
                    is_read_of(r, doc)
                }
            }),
    {
        let lower = match tree::read_toml(default_toml) {
            Ok(t) => t,
            Err(e) => {
                return Err(
                    ProfileError::Parse { layer: "default", source: ParseCause::Document(e) },
                );
            },
        };
        let upper = match override_toml {
            Some(o) => match tree::read_toml(o) {
                Ok(t) => Some(t),
                Err(e) => {
                    return Err(
                        ProfileError::Parse { layer: "override", source: ParseCause::Document(e) },
                    );
                },
            },
            None => None,
        };
        ProfileSet::from_tables(lower, upper)
    }

    /// Merges one table over another, reads the profiles and checks that each
    /// asks only for what it may.
    pub fn from_tables(lower: Vec<(String, Node)>, upper: Option<Vec<(String, Node)>>) -> (r:
        Result<ProfileSet, ProfileError>)
        ensures
            is_read_of(
                r,
                match upper {
                    Some(u) => tree::merged(tree::entries(lower@), tree::entries(u@)),
                    None => tree::entries(lower@),
                },
            ),
    {
        let table = match upper {
            Some(u) => tree::merge_tables(&lower, &u),
            None => lower,
        };
        match read_set(&table) {
            Ok(set) => match set.validate() {
                Ok(()) => Ok(set),
                Err(e) => Err(e),
            },
            Err(key) => Err(
                ProfileError::Parse { layer: "merged", source: ParseCause::Profile(key) },
            ),
        }
    }

    /// Checks that each profile asks only for what it may.
    fn validate(&self) -> (r: Result<(), ProfileError>)
        requires
            self.wf(),
        ensures
            match r {
                Ok(()) => self.fault() is None,
                Err(ProfileError::UnknownPlaceholder { tool_type, placeholder }) => self.fault()
                    == Some((tool_type@, placeholder@)),
                Err(_) => false,
            },
    {
        let ghost all = self.map().list();
        let mut i: usize = 0;
        assert(all.skip(0) =~= all);
        while i < self.profiles.len()
            invariant
                self.wf(),
                all == self.map().list(),
                i <= all.len(),
                fault_among(all) == fault_among(all.skip(i as int)),
            decreases all.len() - i,
        {
            let e = self.profiles.at(i);
            proof {
                assert(all.skip(i as int)[0] == all[i as int]);
                assert(all.skip(i as int).drop_first() =~= all.skip(i + 1));
                assert(self.map().list()[i as int].1.wf());
            }
            if let Some(n) = find_unknown(&e.1) {
                return Err(
                    ProfileError::UnknownPlaceholder { tool_type: e.0.clone(), placeholder: n },
                );
            }
            i += 1;
        }
        Ok(())
    }
}

/// Reads a set of profiles, or the first key under which none stands.
fn read_set(t: &Vec<(String, Node)>) -> (r: Result<ProfileSet, String>)
    ensures
        match r {
            Ok(set) => is_set(tree::entries(t@)) && set.holds(tree::entries(t@)),
            Err(key) => !is_set(tree::entries(t@)) && first_stray(tree::entries(t@)) == Some(key@),
        },
{
    let ghost all = tree::entries(t@);
    let mut m: TextMap<AgentProfile> = TextMap::new();
    let mut i: usize = 0;
    assert(all.take(0) =~= seq![]);
    assert(all.skip(0) =~= all);
    while i < t.len()
        invariant
            i <= t.len(),
            all == tree::entries(t@),
            first_stray(all) == first_stray(all.skip(i as int)),
            forall|j: int| 0 <= j < i ==> profiles::is_profile((#[trigger] all[j]).1),
            (ProfileSet { profiles: m }).holds(all.take(i as int)),
        decreases t.len() - i,
    {
        proof {
            assert(all[i as int] == (t@[i as int].0@, t@[i as int].1.tree()));
            assert(all.take(i + 1).drop_last() =~= all.take(i as int));
            assert(all.take(i + 1).last() == all[i as int]);
            assert(all.skip(i as int)[0] == all[i as int]);
            assert(all.skip(i as int).drop_first() =~= all.skip(i + 1));
        }
        match profiles::read_profile(&t[i].1) {
            Some(p) => {
                let ghost was = m;
                let ghost before = ProfileSet { profiles: m };
                let key = t[i].0.clone();
                m.insert(key, p);
                proof {
                    let after = ProfileSet { profiles: m };
                    lemma_set_grows(before, after, key@, p, all.take(i + 1));
                }
            },
            None => {
                assert(!profiles::is_profile(all[i as int].1));
                return Err(t[i].0.clone());
            },
        }
        i += 1;
    }
    assert(all.take(i as int) =~= all);
    Ok(ProfileSet { profiles: m })
}

/// A set with one profile more is the one of the longer document.
proof fn lemma_set_grows(
    before: ProfileSet,
    after: ProfileSet,
    key: Seq<char>,
    p: AgentProfile,
    t: Seq<(Seq<char>, Tree)>,
)
    requires
        t.len() > 0,
        before.holds(t.drop_last()),
        t.last().0 == key,
        profiles::is_profile(t.last().1),
        profiles::holds_profile(p, t.last().1->Table_0),
        after.map().wf(),
        after.map().has(key),
        after.map().value(key) == p,
        forall|k: Seq<char>|
            k != key ==> (#[trigger] after.map().has(k) <==> before.map().has(k)),
        forall|k: Seq<char>|
            k != key && before.map().has(k) ==> #[trigger] after.map().value(k)
                == before.map().value(k),
    ensures
        after.holds(t),
{
    assert(p.wf());
    let m = after.map();
    assert forall|i: int| 0 <= i < m.list().len() implies (#[trigger] m.list()[i]).1.wf() by {
        let k = m.list()[i].0@;
        m.lemma_place(i);
        if k != key {
            assert(before.map().has(k));
            assert(m.value(k) == before.map().value(k));
            let b = before.map();
            let j = choose|j: int| 0 <= j < b.key_list().len() && b.key_list()[j] == k;
            assert(b.list()[j].0@ == k);
            b.lemma_place(j);
            assert(b.list()[j].1.wf());
        }
    }
    assert forall|k: Seq<char>| #[trigger] m.has(k) == (profiles::last_field(t, k) is Some) by {
        if k != key {
            assert(m.has(k) == before.map().has(k));
        }
    }
    assert forall|k: Seq<char>| #![trigger m.value(k)] m.has(k) implies profiles::holds_profile(
        m.value(k),
        profiles::last_field(t, k)->0->Table_0,
    ) by {
        if k != key {
            assert(m.has(k) == before.map().has(k));
            assert(m.value(k) == before.map().value(k));
        }
    }
}

/// Whether a name is one of the facts.
fn known(name: &str) -> (r: bool)
    ensures
        r == is_known(name@),
{
    text::same(name, "panopt_bin") || text::same(name, "host") || text::same(name, "port")
        || text::same(name, "ws") || text::same(name, "project") || text::same(name, "agent_id")
        || text::same(name, "name") || text::same(name, "token") || text::same(name, "model")
}

/// The first name of a template that a launch may not ask for.
fn unknown_of(template: &str, files: &TextMap<String>) -> (r: Option<String>)
    requires
        files.wf(),
    ensures
        text::opt_text(r) == unknown_name(templates::names(template@), *files),
{
    let names = templates::placeholders(template);
    let ghost all = text::views(names@);
    let mut i: usize = 0;
    assert(all.skip(0) =~= all);
    while i < names.len()
        invariant
            files.wf(),
            i <= names.len(),
            all == text::views(names@),
            all == templates::names(template@),
            unknown_name(all, *files) == unknown_name(all.skip(i as int), *files),
        decreases names.len() - i,
    {
        let n: &str = names[i];
        proof {
            assert(all.skip(i as int)[0] == n@);
            assert(all.skip(i as int).drop_first() =~= all.skip(i + 1));
        }
        let ok = match text::strip_prefix(n, "file:") {
            Some(file) => files.contains(file),
            None => known(n),
        };
        if !ok {
            return Some(n.to_owned());
        }
        i += 1;
    }
    None
}

/// The first name of a template that instructions may not ask for.
fn unknown_in_instructions(template: &str) -> (r: Option<String>)
    ensures
        text::opt_text(r) == unknown_instruction(templates::names(template@)),
{
    let names = templates::placeholders(template);
    let ghost all = text::views(names@);
    let mut i: usize = 0;
    assert(all.skip(0) =~= all);
    while i < names.len()
        invariant
            i <= names.len(),
            all == text::views(names@),
            all == templates::names(template@),
            unknown_instruction(all) == unknown_instruction(all.skip(i as int)),
        decreases names.len() - i,
    {
        let n: &str = names[i];
        proof {
            assert(all.skip(i as int)[0] == n@);
            assert(all.skip(i as int).drop_first() =~= all.skip(i + 1));
        }
        let ok = text::strip_prefix(n, "file:").is_none() && (known(n) || text::same(
            n,
            "process_id",
        ));
        if !ok {
            return Some(n.to_owned());
        }
        i += 1;
    }
    None
}

/// The first name in some templates that a launch may not ask for.
fn unknown_in_list(list: &Vec<String>, files: &TextMap<String>) -> (r: Option<String>)
    requires
        files.wf(),
    ensures
        text::opt_text(r) == unknown_among(text::texts(list@), *files),
{
    let ghost all = text::texts(list@);
    let mut i: usize = 0;
    assert(all.skip(0) =~= all);
    while i < list.len()
        invariant
            files.wf(),
            i <= list.len(),
            all == text::texts(list@),
            unknown_among(all, *files) == unknown_among(all.skip(i as int), *files),
        decreases list.len() - i,
    {
        proof {
            assert(all.skip(i as int)[0] == list@[i as int]@);
            assert(all.skip(i as int).drop_first() =~= all.skip(i + 1));
        }
        if let Some(n) = unknown_of(list[i].as_str(), files) {
            return Some(n);
        }
        i += 1;
    }
    None
}

/// The first name in the values of a map that a launch may not ask for.
fn unknown_in_values(m: &TextMap<String>, files: &TextMap<String>) -> (r: Option<String>)
    requires
        files.wf(),
    ensures
        text::opt_text(r) == unknown_among(values_of(*m), *files),
{
    let ghost all = values_of(*m);
    let mut i: usize = 0;
    assert(all.skip(0) =~= all);
    while i < m.len()
        invariant
            files.wf(),
            i <= m.list().len(),
            all == values_of(*m),
            unknown_among(all, *files) == unknown_among(all.skip(i as int), *files),
        decreases m.list().len() - i,
    {
        let e = m.at(i);
        proof {
            assert(all.skip(i as int)[0] == m.list()[i as int].1@);
            assert(all.skip(i as int).drop_first() =~= all.skip(i + 1));
        }
        if let Some(n) = unknown_of(e.1.as_str(), files) {
            return Some(n);
        }
        i += 1;
    }
    None
}

/// The first name that a profile asks for and may not.
fn find_unknown(p: &AgentProfile) -> (r: Option<String>)
    requires
        p.wf(),
    ensures
        text::opt_text(r) == unknown_in(*p),
{
    if let Some(n) = unknown_in_list(&p.spawn.argv, &p.spawn.files) {
        return Some(n);
    }
    if let Some(n) = unknown_in_values(&p.spawn.env, &p.spawn.files) {
        return Some(n);
    }
    if let Some(n) = unknown_in_values(&p.spawn.files, &p.spawn.files) {
        return Some(n);
    }
    match &p.instructions {
        Some(t) => unknown_in_instructions(t.as_str()),
        None => None,
    }
}

} // verus!
