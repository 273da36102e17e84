//! The types of agents. A type is data: a template of how one is launched and
//! patterns that tell what one is doing. The shipped types are one document,
//! and the user may lay another over it.

use vstd::prelude::*;
use vstd::string::*;

use crate::status;
use crate::status::{AgentState, StatusRules};
use crate::templates;
use crate::text;
use crate::textmap::TextMap;
use crate::tree;
use crate::tree::{Node, Tree};

verus! {

/// How an agent of a type is launched.
#[derive(Debug)]
pub struct SpawnSpec {
    /// The arguments, the program first. Each is a template.
    pub argv: Vec<String>,
    /// Variables of the environment. The values are templates.
    pub env: TextMap<String>,
    /// Files to write before the launch. The contents are templates.
    pub files: TextMap<String>,
}

/// A type of agent.
#[derive(Debug)]
pub struct AgentProfile {
    pub display_name: String,
    /// The model, where the type pins one.
    pub default_model: Option<String>,
    /// Arguments that follow those of the launch.
    pub default_args: Vec<String>,
    /// A template of what an agent is told when it starts.
    pub instructions: Option<String>,
    pub spawn: SpawnSpec,
    pub status: StatusRules,
}

impl AgentProfile {
    /// The order of the maps.
    pub open spec fn wf(self) -> bool {
        self.spawn.env.wf() && self.spawn.files.wf()
    }
}

// ---------------------------------------------------------------------------
// Reading a profile
// ---------------------------------------------------------------------------

/// The last entry with a key.
pub open spec fn last_field(t: Seq<(Seq<char>, Tree)>, key: Seq<char>) -> Option<Tree>
    decreases t.len(),
{
    if t.len() == 0 {
        None
    } else if t.last().0 == key {
        Some(t.last().1)
    } else {
        last_field(t.drop_last(), key)
    }
}

/// Whether a part of a document is a list of texts.
pub open spec fn is_texts(t: Tree) -> bool {
    t matches Tree::List(l) && forall|i: int| 0 <= i < l.len() ==> (#[trigger] l[i]) is Text
}

/// The texts of a list.
pub open spec fn texts_of(t: Tree) -> Seq<Seq<char>> {
    Seq::new(t->List_0.len(), |i: int| t->List_0[i]->Text_0)
}

/// Whether a part of a document is a table of texts.
pub open spec fn is_text_table(t: Tree) -> bool {
    t matches Tree::Table(e) && forall|i: int| 0 <= i < e.len() ==> (#[trigger] e[i]).1 is Text
}

/// Whether a map holds the texts of a table.
pub open spec fn holds_texts(m: TextMap<String>, t: Seq<(Seq<char>, Tree)>) -> bool {
    &&& m.wf()
    &&& forall|k: Seq<char>| #[trigger] m.has(k) == (last_field(t, k) is Some)
    &&& forall|k: Seq<char>|
        #![trigger m.value(k)]
        m.has(k) ==> last_field(t, k) == Some(Tree::Text(m.value(k)@))
}

/// Whether a key names a state.
pub open spec fn is_state(key: Seq<char>) -> bool {
    exists|s: AgentState| key == #[trigger] s.name()
}

/// Whether a part of a document holds status rules: lists of texts, each under
/// the name of a state.
pub open spec fn is_rules(t: Tree) -> bool {
    t matches Tree::Table(e) && forall|i: int|
        0 <= i < e.len() ==> is_state((#[trigger] e[i]).0) && is_texts(e[i].1)
}

/// The patterns for a state.
pub open spec fn patterns_at(t: Seq<(Seq<char>, Tree)>, state: AgentState) -> Option<
    Seq<Seq<char>>,
> {
    match tree::field(t, state.name()) {
        Some(l) => Some(texts_of(l)),
        None => None,
    }
}

/// Whether status rules are those of a table.
pub open spec fn holds_rules(r: StatusRules, t: Seq<(Seq<char>, Tree)>) -> bool {
    forall|s: AgentState| #[trigger] r.patterns(s) == patterns_at(t, s)
}

/// Whether a field is absent or is of a kind.
pub open spec fn absent_or(t: Option<Tree>, ok: spec_fn(Tree) -> bool) -> bool {
    t is None || ok(t->0)
}

/// A field that is a text.
pub open spec fn text_at(t: Seq<(Seq<char>, Tree)>, key: Seq<char>) -> Option<Seq<char>> {
    match tree::field(t, key) {
        Some(f) => Some(f->Text_0),
        None => None,
    }
}

/// A field that is a list of texts; none where it is absent.
pub open spec fn texts_at(t: Seq<(Seq<char>, Tree)>, key: Seq<char>) -> Seq<Seq<char>> {
    match tree::field(t, key) {
        Some(f) => texts_of(f),
        None => seq![],
    }
}

/// A field that is a table; empty where it is absent.
pub open spec fn table_at(t: Seq<(Seq<char>, Tree)>, key: Seq<char>) -> Seq<(Seq<char>, Tree)> {
    match tree::field(t, key) {
        Some(f) => f->Table_0,
        None => seq![],
    }
}

/// The fields of a launch.
pub open spec fn is_spawn_key(k: Seq<char>) -> bool {
    k == "argv"@ || k == "env"@ || k == "files"@
}

/// Whether a part of a document says how to launch: the arguments are there,
/// and no field is unknown.
pub open spec fn is_spawn(t: Tree) -> bool {
    &&& t is Table
    &&& forall|i: int| 0 <= i < t->Table_0.len() ==> is_spawn_key((#[trigger] t->Table_0[i]).0)
    &&& tree::field(t->Table_0, "argv"@) is Some
    &&& is_texts(tree::field(t->Table_0, "argv"@)->0)
    &&& absent_or(tree::field(t->Table_0, "env"@), |f: Tree| is_text_table(f))
    &&& absent_or(tree::field(t->Table_0, "files"@), |f: Tree| is_text_table(f))
}

/// Whether a launch is the one of a table.
pub open spec fn holds_spawn(s: SpawnSpec, t: Seq<(Seq<char>, Tree)>) -> bool {
    &&& text::texts(s.argv@) == texts_at(t, "argv"@)
    &&& holds_texts(s.env, table_at(t, "env"@))
    &&& holds_texts(s.files, table_at(t, "files"@))
}

/// The fields of a profile.
pub open spec fn is_profile_key(k: Seq<char>) -> bool {
    k == "display_name"@ || k == "default_model"@ || k == "default_args"@ || k == "instructions"@
        || k == "spawn"@ || k == "status"@
}

/// Whether a part of a document is a profile: its name and its launch are
/// there, every field is of its kind, and no field is unknown.
pub open spec fn is_profile(t: Tree) -> bool {
    &&& t is Table
    &&& forall|i: int| 0 <= i < t->Table_0.len() ==> is_profile_key((#[trigger] t->Table_0[i]).0)
    &&& tree::field(t->Table_0, "display_name"@) is Some
    &&& tree::field(t->Table_0, "display_name"@)->0 is Text
    &&& absent_or(tree::field(t->Table_0, "default_model"@), |f: Tree| f is Text)
    &&& absent_or(tree::field(t->Table_0, "default_args"@), |f: Tree| is_texts(f))
    &&& absent_or(tree::field(t->Table_0, "instructions"@), |f: Tree| f is Text)
    &&& tree::field(t->Table_0, "spawn"@) is Some
    &&& is_spawn(tree::field(t->Table_0, "spawn"@)->0)
    &&& absent_or(tree::field(t->Table_0, "status"@), |f: Tree| is_rules(f))
}

/// Whether a profile is the one of a table.
pub open spec fn holds_profile(p: AgentProfile, t: Seq<(Seq<char>, Tree)>) -> bool {
    &&& Some(p.display_name@) == text_at(t, "display_name"@)
    &&& text::opt_text(p.default_model) == text_at(t, "default_model"@)
    &&& text::texts(p.default_args@) == texts_at(t, "default_args"@)
    &&& text::opt_text(p.instructions) == text_at(t, "instructions"@)
    &&& holds_spawn(p.spawn, table_at(t, "spawn"@))
    &&& holds_rules(p.status, table_at(t, "status"@))
}

/// Reads a list of texts.
fn read_texts(n: &Node) -> (r: Option<Vec<String>>)
    ensures
        match r {
            Some(v) => is_texts(n.tree()) && text::texts(v@) == texts_of(n.tree()),
            None => !is_texts(n.tree()),
        },
{
    proof {
        tree::lemma_tree(*n);
    }
    let l = match n {
        Node::List(l) => l,
        _ => return None,
    };
    let ghost all = tree::trees(l@);
    let ghost goal = texts_of(n.tree());
    let mut out: Vec<String> = Vec::new();
    let mut i: usize = 0;
    assert(text::texts(out@) =~= goal.take(0));
    while i < l.len()
        invariant
            i <= l.len(),
            n.tree() == Tree::List(all),
            all == tree::trees(l@),
            goal == texts_of(n.tree()),
            goal.len() == l.len(),
            forall|j: int| 0 <= j < i ==> (#[trigger] all[j]) is Text,
            text::texts(out@) == goal.take(i as int),
        decreases l.len() - i,
    {
        assert(all[i as int] == l@[i as int].tree());
        match &l[i] {
            Node::Text(s) => {
                let ghost was = out@;
                out.push(s.clone());
                proof {
                    assert(goal[i as int] == s@);
                    assert(text::texts(out@) =~= text::texts(was).push(s@));
                    assert(goal.take(i + 1) =~= goal.take(i as int).push(goal[i as int]));
                }
            },
            _ => {
                proof {
                    tree::lemma_tree(l@[i as int]);
                    assert(!(all[i as int] is Text));
                }
                return None;
            },
        }
        i += 1;
    }
    assert(goal.take(i as int) =~= goal);
    Some(out)
}

/// Reads a table of texts.
fn read_text_table(n: &Node) -> (r: Option<TextMap<String>>)
    ensures
        match r {
            Some(m) => is_text_table(n.tree()) && holds_texts(m, n.tree()->Table_0),
            None => !is_text_table(n.tree()),
        },
{
    proof {
        tree::lemma_tree(*n);
    }
    let t = match n {
        Node::Table(t) => t,
        _ => return None,
    };
    let ghost all = tree::entries(t@);
    let mut m: TextMap<String> = TextMap::new();
    let mut i: usize = 0;
    assert(all.take(0) =~= seq![]);
    while i < t.len()
        invariant
            i <= t.len(),
            n.tree() == Tree::Table(all),
            all == tree::entries(t@),
            forall|j: int| 0 <= j < i ==> (#[trigger] all[j]).1 is Text,
            holds_texts(m, all.take(i as int)),
        decreases t.len() - i,
    {
        proof {
            assert(all[i as int] == (t@[i as int].0@, t@[i as int].1.tree()));
            assert(all.take(i + 1).drop_last() =~= all.take(i as int));
            assert(all.take(i + 1).last() == all[i as int]);
        }
        match &t[i].1 {
            Node::Text(s) => {
                let ghost was = m;
                let key = t[i].0.clone();
                m.insert(key, s.clone());
                proof {
                    let part = all.take(i + 1);
                    assert forall|k: Seq<char>| #[trigger] m.has(k) == (last_field(part, k) is Some) by {
                        if k != key@ {
                            assert(m.has(k) == was.has(k));
                        }
                    }
                    assert forall|k: Seq<char>|
                        #![trigger m.value(k)]
                        m.has(k) implies last_field(part, k) == Some(Tree::Text(m.value(k)@)) by {
                        if k != key@ {
                            assert(m.has(k) == was.has(k));
                            assert(m.value(k) == was.value(k));
                        }
                    }
                }
            },
            _ => {
                proof {
                    tree::lemma_tree(t@[i as int].1);
                    assert(!(all[i as int].1 is Text));
                }
                return None;
            },
        }
        i += 1;
    }
    assert(all.take(i as int) =~= all);
    Some(m)
}

/// Reads status rules.
fn read_rules(n: &Node) -> (r: Option<StatusRules>)
    ensures
        match r {
            Some(s) => is_rules(n.tree()) && holds_rules(s, n.tree()->Table_0),
            None => !is_rules(n.tree()),
        },
{
    proof {
        tree::lemma_tree(*n);
    }
    let t = match n {
        Node::Table(t) => t,
        _ => return None,
    };
    let ghost all = tree::entries(t@);
    let mut rules: Vec<(AgentState, Vec<String>)> = Vec::new();
    let mut i: usize = 0;
    while i < t.len()
        invariant
            i <= t.len(),
            n.tree() == Tree::Table(all),
            all == tree::entries(t@),
            rules@.len() == i,
            forall|j: int|
                #![trigger all[j]]
                0 <= j < i ==> all[j].0 == rules@[j].0.name() && is_texts(all[j].1) && text::texts(
                    rules@[j].1@,
                ) == texts_of(all[j].1),
        decreases t.len() - i,
    {
        assert(all[i as int] == (t@[i as int].0@, t@[i as int].1.tree()));
        match AgentState::parse(t[i].0.as_str()) {
            Some(state) => match read_texts(&t[i].1) {
                Some(list) => {
                    rules.push((state, list));
                },
                None => {
                    assert(!is_texts(all[i as int].1));
                    assert(!is_rules(n.tree())) by {
                        assert(n.tree()->Table_0[i as int] == all[i as int]);
                    }
                    return None;
                },
            },
            None => {
                assert(!is_state(all[i as int].0));
                assert(!is_rules(n.tree())) by {
                    assert(n.tree()->Table_0[i as int] == all[i as int]);
                }
                return None;
            },
        }
        i += 1;
    }
    let r = StatusRules { rules };
    proof {
        assert forall|s: AgentState| #[trigger] r.patterns(s) == patterns_at(all, s) by {
            lemma_rules_match(rules@, all, s);
        }
        assert forall|j: int| 0 <= j < all.len() implies is_state((#[trigger] all[j]).0) && is_texts(
            all[j].1,
        ) by {
            assert(all[j].0 == rules@[j].0.name());
        }
    }
    Some(r)
}

/// Rules that stand in the order of a table have its patterns.
proof fn lemma_rules_match(
    rules: Seq<(AgentState, Vec<String>)>,
    t: Seq<(Seq<char>, Tree)>,
    s: AgentState,
)
    requires
        rules.len() == t.len(),
        forall|j: int|
            #![trigger t[j]]
            0 <= j < t.len() ==> t[j].0 == rules[j].0.name() && text::texts(rules[j].1@)
                == texts_of(t[j].1),
    ensures
        status::patterns_in(rules, s) == patterns_at(t, s),
    decreases rules.len(),
{
    if rules.len() > 0 {
        AgentState::lemma_names_distinct(rules[0].0, s);
        assert(t[0].0 == rules[0].0.name());
        if rules[0].0 != s {
            let r = rules.drop_first();
            let u = t.drop_first();
            assert forall|j: int| #![trigger u[j]] 0 <= j < u.len() implies u[j].0 == r[j].0.name()
                && text::texts(r[j].1@) == texts_of(u[j].1) by {
                assert(u[j] == t[j + 1]);
            }
            lemma_rules_match(r, u, s);
            tree::lemma_key_place(u, s.name());
        }
    }
}

/// Reads a text that may be absent.
fn read_text(n: Option<&Node>) -> (r: Option<Option<String>>)
    ensures
        match n {
            Some(n) => match r {
                Some(s) => s is Some && n.tree() == Tree::Text(s->0@),
                None => !(n.tree() is Text),
            },
            None => r == Some(None::<String>),
        },
{
    match n {
        Some(n) => {
            proof {
                tree::lemma_tree(*n);
            }
            match n {
                Node::Text(s) => Some(Some(s.clone())),
                _ => None,
            }
        },
        None => Some(None),
    }
}

/// Whether every key of a table is one of a launch.
fn only_spawn_keys(t: &Vec<(String, Node)>) -> (r: bool)
    ensures
        r == forall|i: int|
            0 <= i < tree::entries(t@).len() ==> is_spawn_key((#[trigger] tree::entries(t@)[i]).0),
{
    let ghost all = tree::entries(t@);
    let mut i: usize = 0;
    while i < t.len()
        invariant
            i <= t.len(),
            all == tree::entries(t@),
            forall|j: int| 0 <= j < i ==> is_spawn_key((#[trigger] all[j]).0),
        decreases t.len() - i,
    {
        let k = t[i].0.as_str();
        assert(all[i as int].0 == k@);
        if !(text::same(k, "argv") || text::same(k, "env") || text::same(k, "files")) {
            return false;
        }
        i += 1;
    }
    true
}

/// Whether every key of a table is one of a profile.
fn only_profile_keys(t: &Vec<(String, Node)>) -> (r: bool)
    ensures
        r == forall|i: int|
            0 <= i < tree::entries(t@).len() ==> is_profile_key((#[trigger] tree::entries(t@)[i]).0),
{
    let ghost all = tree::entries(t@);
    let mut i: usize = 0;
    while i < t.len()
        invariant
            i <= t.len(),
            all == tree::entries(t@),
            forall|j: int| 0 <= j < i ==> is_profile_key((#[trigger] all[j]).0),
        decreases t.len() - i,
    {
        let k = t[i].0.as_str();
        assert(all[i as int].0 == k@);
        if !(text::same(k, "display_name") || text::same(k, "default_model") || text::same(
            k,
            "default_args",
        ) || text::same(k, "instructions") || text::same(k, "spawn") || text::same(k, "status")) {
            return false;
        }
        i += 1;
    }
    true
}

/// Reads a table of texts that may be absent.
fn read_opt_table(n: Option<&Node>) -> (r: Option<TextMap<String>>)
    ensures
        match n {
            Some(n) => match r {
                Some(m) => is_text_table(n.tree()) && holds_texts(m, n.tree()->Table_0),
                None => !is_text_table(n.tree()),
            },
            None => r is Some && holds_texts(r->0, seq![]),
        },
{
    match n {
        Some(n) => read_text_table(n),
        None => Some(TextMap::new()),
    }
}

/// Reads how to launch.
fn read_spawn(n: &Node) -> (r: Option<SpawnSpec>)
    ensures
        match r {
            Some(s) => is_spawn(n.tree()) && holds_spawn(s, n.tree()->Table_0),
            None => !is_spawn(n.tree()),
        },
{
    proof {
        tree::lemma_tree(*n);
    }
    let t = match n {
        Node::Table(t) => t,
        _ => return None,
    };
    if !only_spawn_keys(t) {
        return None;
    }
    let argv = match tree::get(t, "argv") {
        Some(a) => match read_texts(a) {
            Some(v) => v,
            None => return None,
        },
        None => return None,
    };
    let env = match read_opt_table(tree::get(t, "env")) {
        Some(m) => m,
        None => return None,
    };
    let files = match read_opt_table(tree::get(t, "files")) {
        Some(m) => m,
        None => return None,
    };
    Some(SpawnSpec { argv, env, files })
}

/// Reads a list of texts that may be absent.
fn read_opt_texts(n: Option<&Node>) -> (r: Option<Vec<String>>)
    ensures
        match n {
            Some(n) => match r {
                Some(v) => is_texts(n.tree()) && text::texts(v@) == texts_of(n.tree()),
                None => !is_texts(n.tree()),
            },
            None => r is Some && text::texts(r->0@) == Seq::<Seq<char>>::empty(),
        },
{
    match n {
        Some(n) => read_texts(n),
        None => {
            let v: Vec<String> = Vec::new();
            assert(text::texts(v@) =~= Seq::<Seq<char>>::empty());
            Some(v)
        },
    }
}

/// Reads status rules that may be absent.
fn read_opt_rules(n: Option<&Node>) -> (r: Option<StatusRules>)
    ensures
        match n {
            Some(n) => match r {
                Some(s) => is_rules(n.tree()) && holds_rules(s, n.tree()->Table_0),
                None => !is_rules(n.tree()),
            },
            None => r is Some && holds_rules(r->0, seq![]),
        },
{
    match n {
        Some(n) => read_rules(n),
        None => {
            let r = StatusRules { rules: Vec::new() };
            Some(r)
        },
    }
}

/// Reads a profile.
pub fn read_profile(n: &Node) -> (r: Option<AgentProfile>)
    ensures
        match r {
            Some(p) => is_profile(n.tree()) && holds_profile(p, n.tree()->Table_0),
            None => !is_profile(n.tree()),
        },
{
    proof {
        tree::lemma_tree(*n);
    }
    let t = match n {
        Node::Table(t) => t,
        _ => return None,
    };
    if !only_profile_keys(t) {
        return None;
    }
    let display_name = match read_text(tree::get(t, "display_name")) {
        Some(Some(s)) => s,
        _ => return None,
    };
    let default_model = match read_text(tree::get(t, "default_model")) {
        Some(s) => s,
        None => return None,
    };
    let default_args = match read_opt_texts(tree::get(t, "default_args")) {
        Some(v) => v,
        None => return None,
    };
    let instructions = match read_text(tree::get(t, "instructions")) {
        Some(s) => s,
        None => return None,
    };
    let spawn = match tree::get(t, "spawn") {
        Some(s) => match read_spawn(s) {
            Some(s) => s,
            None => return None,
        },
        None => return None,
    };
    let status = match read_opt_rules(tree::get(t, "status")) {
        Some(s) => s,
        None => return None,
    };
    Some(AgentProfile { display_name, default_model, default_args, instructions, spawn, status })
}

} // verus!
