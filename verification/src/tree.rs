//! Documents as trees of tables, lists and texts, and how one is laid over
//! another.

use vstd::prelude::*;
use vstd::string::*;

use crate::text;

verus! {

/// A document, or a part of one.
pub enum Tree {
    Text(Seq<char>),
    List(Seq<Tree>),
    Table(Seq<(Seq<char>, Tree)>),
    /// A number, a truth value or a date.
    Other,
}

/// A document, or a part of one.
#[derive(Debug)]
pub enum Node {
    Text(String),
    List(Vec<Node>),
    Table(Vec<(String, Node)>),
    /// A number, a truth value or a date.
    Other,
}

impl Node {
    /// What a node holds.
    pub open spec fn tree(self) -> Tree
        decreases self,
    {
        match self {
            Node::Text(s) => Tree::Text(s@),
            Node::List(v) => Tree::List(
                Seq::new(
                    v@.len(),
                    |i: int|
                        if 0 <= i < v@.len() {
                            v@[i].tree()
                        } else {
                            Tree::Other
                        },
                ),
            ),
            Node::Table(v) => Tree::Table(
                Seq::new(
                    v@.len(),
                    |i: int|
                        if 0 <= i < v@.len() {
                            (v@[i].0@, v@[i].1.tree())
                        } else {
                            (seq![], Tree::Other)
                        },
                ),
            ),
            Node::Other => Tree::Other,
        }
    }
}

/// What a list of nodes holds.
pub open spec fn trees(v: Seq<Node>) -> Seq<Tree> {
    Seq::new(v.len(), |i: int| v[i].tree())
}

/// What a table of nodes holds.
pub open spec fn entries(v: Seq<(String, Node)>) -> Seq<(Seq<char>, Tree)> {
    Seq::new(v.len(), |i: int| (v[i].0@, v[i].1.tree()))
}

/// What nodes of each kind hold.
pub proof fn lemma_tree(n: Node)
    ensures
        n matches Node::List(v) ==> n.tree() == Tree::List(trees(v@)),
        n matches Node::Table(v) ==> n.tree() == Tree::Table(entries(v@)),
{
    match n {
        Node::List(v) => {
            assert(n.tree()->List_0 =~= trees(v@));
        },
        Node::Table(v) => {
            assert(n.tree()->Table_0 =~= entries(v@));
        },
        _ => {},
    }
}

/// The place of a key.
pub open spec fn key_place(t: Seq<(Seq<char>, Tree)>, key: Seq<char>) -> Option<int>
    decreases t.len(),
{
    if t.len() == 0 {
        None
    } else if t[0].0 == key {
        Some(0int)
    } else {
        match key_place(t.drop_first(), key) {
            Some(i) => Some(i + 1),
            None => None,
        }
    }
}

/// What a key stands for.
pub open spec fn field(t: Seq<(Seq<char>, Tree)>, key: Seq<char>) -> Option<Tree> {
    match key_place(t, key) {
        Some(i) => Some(t[i].1),
        None => None,
    }
}

/// What a search finds is the key; where it finds none, there is none.
pub proof fn lemma_key_place(t: Seq<(Seq<char>, Tree)>, key: Seq<char>)
    ensures
        match key_place(t, key) {
            Some(i) => 0 <= i < t.len() && t[i].0 == key && forall|j: int|
                0 <= j < i ==> (#[trigger] t[j]).0 != key,
            None => forall|j: int| 0 <= j < t.len() ==> (#[trigger] t[j]).0 != key,
        },
    decreases t.len(),
{
    if t.len() > 0 && t[0].0 != key {
        let rest = t.drop_first();
        lemma_key_place(rest, key);
        assert forall|j: int| 0 < j < t.len() implies #[trigger] t[j] == rest[j - 1] by {}
    }
}

/// A table with another laid over it, entry by entry: two tables are merged,
/// and anything else replaces what was there.
pub open spec fn merged(base: Seq<(Seq<char>, Tree)>, over: Seq<(Seq<char>, Tree)>) -> Seq<
    (Seq<char>, Tree),
>
    decreases over,
{
    if over.len() == 0 {
        base
    } else {
        let below = merged(base, over.drop_last());
        let (key, value) = over[over.len() - 1];
        match key_place(below, key) {
            Some(i) => match (below[i].1, value) {
                (Tree::Table(b), Tree::Table(o)) => below.update(
                    i,
                    (key, Tree::Table(merged(b, o))),
                ),
                _ => below.update(i, (key, value)),
            },
            None => below.push((key, value)),
        }
    }
}

/// What a key of a merged table stands for: what the upper layer says, the
/// lower one where it says nothing, and both merged where both are tables.
pub open spec fn layered(below: Option<Tree>, above: Option<Tree>) -> Option<Tree> {
    match (below, above) {
        (b, None) => b,
        (Some(Tree::Table(b)), Some(Tree::Table(o))) => Some(Tree::Table(merged(b, o))),
        (_, o) => o,
    }
}

/// No key stands twice.
pub open spec fn distinct_keys(t: Seq<(Seq<char>, Tree)>) -> bool {
    forall|i: int, j: int| 0 <= i < j < t.len() ==> (#[trigger] t[i]).0 != (#[trigger] t[j]).0
}

/// The whole policy of laying one document over another: tables merge key by
/// key, and texts, lists and everything else replace.
pub proof fn law_merge_policy(
    base: Seq<(Seq<char>, Tree)>,
    over: Seq<(Seq<char>, Tree)>,
    key: Seq<char>,
)
    requires
        distinct_keys(over),
    ensures
        field(merged(base, over), key) == layered(field(base, key), field(over, key)),
    decreases over.len(),
{
    if over.len() > 0 {
        let front = over.drop_last();
        let below = merged(base, front);
        let (k, value) = over[over.len() - 1];
        let all = merged(base, over);
        assert(distinct_keys(front)) by {
            assert forall|i: int, j: int| 0 <= i < j < front.len() implies (#[trigger] front[i]).0
                != (#[trigger] front[j]).0 by {
                assert(front[i] == over[i] && front[j] == over[j]);
            }
        }
        law_merge_policy(base, front, key);
        lemma_key_place(over, key);
        lemma_key_place(front, key);
        lemma_key_place(below, key);
        lemma_key_place(below, k);
        lemma_key_place(all, key);
        assert forall|j: int| 0 <= j < front.len() implies #[trigger] front[j] == over[j] by {}
        if key == k {
            assert(key_place(front, key) is None) by {
                if let Some(i) = key_place(front, key) {
                    assert(over[i].0 != over[over.len() - 1].0);
                }
            }
            if let Some(i) = key_place(over, key) {
                if i < front.len() {
                    assert(front[i].0 == key);
                }
            }
            assert(over[over.len() - 1].0 == key);
            assert(field(over, key) == Some(value));
            match key_place(below, key) {
                Some(i) => {
                    assert(all[i].0 == key);
                    if let Some(j) = key_place(all, key) {
                        if j < i {
                            assert(all[j] == below[j]);
                        }
                    }
                },
                None => {
                    assert(all[below.len() as int].0 == key);
                    if let Some(j) = key_place(all, key) {
                        if j < below.len() {
                            assert(all[j] == below[j]);
                        }
                    }
                },
            }
        } else {
            assert(field(over, key) == field(front, key)) by {
                match (key_place(over, key), key_place(front, key)) {
                    (Some(a), Some(b)) => {
                        if a < b {
                            assert(front[a].0 == key);
                        }
                        if b < a {
                            assert(over[b].0 == key);
                        }
                    },
                    (Some(a), None) => {
                        assert(front[a].0 == key);
                    },
                    (None, Some(b)) => {
                        assert(over[b].0 == key);
                    },
                    (None, None) => {},
                }
            }
            assert forall|j: int| 0 <= j < below.len() implies (#[trigger] all[j]).0 == below[j].0
                && (below[j].0 == key ==> all[j] == below[j]) by {}
            if all.len() > below.len() {
                assert(all[below.len() as int].0 == k);
            }
            match (key_place(below, key), key_place(all, key)) {
                (Some(a), Some(b)) => {
                    if a < b {
                        assert(all[a].0 == key);
                    }
                    if b < a {
                        assert(below[b].0 == key);
                    }
                },
                (Some(a), None) => {
                    assert(all[a].0 == key);
                },
                (None, Some(b)) => {
                    assert(below[b].0 == key);
                },
                (None, None) => {},
            }
        }
    }
}

/// The place of a key.
fn find_key(t: &Vec<(String, Node)>, key: &str) -> (r: Option<usize>)
    ensures
        text::opt_index(r) == key_place(entries(t@), key@),
        r matches Some(i) ==> i < t.len(),
{
    let ghost all = entries(t@);
    let mut i: usize = 0;
    assert(all.skip(0) =~= all);
    while i < t.len()
        invariant
            i <= t.len(),
            all == entries(t@),
            key_place(all, key@) == (match key_place(all.skip(i as int), key@) {
                Some(j) => Some(j + i),
                None => None,
            }),
        decreases t.len() - i,
    {
        assert(all.skip(i as int)[0] == all[i as int]);
        if text::same(t[i].0.as_str(), key) {
            return Some(i);
        }
        assert(all.skip(i as int).drop_first() =~= all.skip(i + 1));
        i += 1;
    }
    None
}

/// What a key stands for.
pub fn get<'a>(t: &'a Vec<(String, Node)>, key: &str) -> (r: Option<&'a Node>)
    ensures
        match r {
            Some(n) => field(entries(t@), key@) == Some(n.tree()),
            None => field(entries(t@), key@) is None,
        },
{
    match find_key(t, key) {
        Some(i) => Some(&t[i].1),
        None => None,
    }
}

impl Node {
    /// A copy.
    pub fn copy(&self) -> (r: Node)
        ensures
            r.tree() == self.tree(),
        decreases *self,
    {
        proof {
            lemma_tree(*self);
        }
        match self {
            Node::Text(s) => Node::Text(s.clone()),
            Node::List(v) => {
                let mut out: Vec<Node> = Vec::new();
                let mut i: usize = 0;
                while i < v.len()
                    invariant
                        i <= v.len(),
                        *self == Node::List(*v),
                        out@.len() == i,
                        forall|j: int| 0 <= j < i ==> (#[trigger] out@[j]).tree() == v@[j].tree(),
                    decreases v.len() - i,
                {
                    proof {
                        assert(decreases_to!(self->List_0 => self->List_0@));
                        assert(decreases_to!(v@ => v@[i as int]));
                    }
                    out.push(v[i].copy());
                    i += 1;
                }
                let r = Node::List(out);
                proof {
                    lemma_tree(r);
                    assert(trees(out@) =~= trees(v@));
                }
                r
            },
            Node::Table(v) => {
                let mut out: Vec<(String, Node)> = Vec::new();
                let mut i: usize = 0;
                while i < v.len()
                    invariant
                        i <= v.len(),
                        *self == Node::Table(*v),
                        out@.len() == i,
                        forall|j: int|
                            0 <= j < i ==> (#[trigger] out@[j]).0@ == v@[j].0@ && out@[j].1.tree()
                                == v@[j].1.tree(),
                    decreases v.len() - i,
                {
                    proof {
                        assert(decreases_to!(self->Table_0 => self->Table_0@));
                        assert(decreases_to!(v@ => v@[i as int]));
                    }
                    out.push((v[i].0.clone(), v[i].1.copy()));
                    i += 1;
                }
                let r = Node::Table(out);
                proof {
                    lemma_tree(r);
                    assert(entries(out@) =~= entries(v@));
                }
                r
            },
            Node::Other => Node::Other,
        }
    }
}

/// One entry laid over another: two tables are merged, anything else replaces.
fn merge_entry(base: &Node, over: &Node) -> (r: Node)
    ensures
        r.tree() == (match (base.tree(), over.tree()) {
            (Tree::Table(b), Tree::Table(o)) => Tree::Table(merged(b, o)),
            _ => over.tree(),
        }),
    decreases *over, 1int,
{
    proof {
        lemma_tree(*base);
        lemma_tree(*over);
    }
    match (base, over) {
        (Node::Table(b), Node::Table(o)) => {
            let v = merge_tables(b, o);
            let r = Node::Table(v);
            proof {
                lemma_tree(r);
            }
            r
        },
        _ => over.copy(),
    }
}

/// A table with another laid over it.
pub fn merge_tables(base: &Vec<(String, Node)>, over: &Vec<(String, Node)>) -> (out: Vec<
    (String, Node),
>)
    ensures
        entries(out@) == merged(entries(base@), entries(over@)),
    decreases *over, 0int,
{
    let ghost b = entries(base@);
    let ghost o = entries(over@);
    let mut out: Vec<(String, Node)> = Vec::new();
    let mut i: usize = 0;
    while i < base.len()
        invariant
            i <= base.len(),
            b == entries(base@),
            entries(out@) == b.take(i as int),
        decreases base.len() - i,
    {
        let ghost was = out@;
        let e = (base[i].0.clone(), base[i].1.copy());
        out.push(e);
        proof {
            assert(entries(out@) =~= entries(was).push((e.0@, e.1.tree())));
            assert(b.take(i + 1) =~= b.take(i as int).push(b[i as int]));
        }
        i += 1;
    }
    assert(b.take(i as int) =~= b);
    let mut j: usize = 0;
    assert(o.take(0) =~= seq![]);
    while j < over.len()
        invariant
            j <= over.len(),
            o == entries(over@),
            entries(out@) == merged(b, o.take(j as int)),
        decreases over.len() - j,
    {
        let ghost was = out@;
        let ghost upto = o.take(j + 1);
        proof {
            assert(upto.drop_last() =~= o.take(j as int));
            assert(upto[upto.len() - 1] == o[j as int]);
        }
        match find_key(&out, over[j].0.as_str()) {
            Some(k) => {
                let key = over[j].0.clone();
                let value = merge_entry(&out[k].1, &over[j].1);
                out.set(k, (key, value));
                assert(entries(out@) =~= entries(was).update(k as int, (key@, value.tree())));
            },
            None => {
                let e = (over[j].0.clone(), over[j].1.copy());
                out.push(e);
                assert(entries(out@) =~= entries(was).push((e.0@, e.1.tree())));
            },
        }
        j += 1;
    }
    assert(o.take(j as int) =~= o);
    out
}

/// A value of a TOML document.
#[verifier::external_type_specification]
#[verifier::external_body]
pub struct ExTomlValue(toml::Value);

/// Why a text is no TOML document.
#[verifier::external_type_specification]
#[verifier::external_body]
pub struct ExTomlError(toml::de::Error);

/// What `toml::from_str` reads from a text: what it holds as a TOML document,
/// or what the error says where it is none.
pub uninterp spec fn toml_of(s: Seq<char>) -> Result<Tree, Seq<char>>;

/// What a TOML error says: its `to_string`.
pub uninterp spec fn toml_error_text(e: toml::de::Error) -> Seq<char>;

/// What a TOML value holds: texts, lists and tables as such, the entries of a
/// table in the order in which `toml::Table` walks them.
pub uninterp spec fn toml_tree(v: toml::Value) -> Tree;

/// `toml::from_str` into a `toml::Table`: reads a document. Whether the text
/// is one, and what it holds, depends on the text alone; a document is a
/// table. What the error says where it is none depends on the text alone too.
#[verifier::external_body]
fn parse_toml(s: &str) -> (r: Result<toml::Value, toml::de::Error>)
    ensures
        match r {
            Ok(v) => toml_of(s@) == Ok::<Tree, Seq<char>>(toml_tree(v)) && toml_tree(v) is Table,
            Err(e) => toml_of(s@) == Err::<Tree, Seq<char>>(toml_error_text(e)),
        },
{
    toml::from_str::<toml::Table>(s).map(toml::Value::Table)
}

/// `to_string` of a `toml::de::Error`: what the error says.
#[verifier::external_body]
pub(crate) fn toml_error_message(e: &toml::de::Error) -> (r: String)
    ensures
        r@ == toml_error_text(*e),
{
    e.to_string()
}

/// `toml::Value::as_str`: the text, where the value is one.
#[verifier::external_body]
fn toml_str(v: &toml::Value) -> (r: Option<&str>)
    ensures
        match r {
            Some(s) => toml_tree(*v) == Tree::Text(s@),
            None => !(toml_tree(*v) is Text),
        },
{
    v.as_str()
}

/// `toml::Value::as_array`: the elements, where the value is a list.
#[verifier::external_body]
fn toml_list(v: &toml::Value) -> (r: Option<&Vec<toml::Value>>)
    ensures
        match r {
            Some(l) => toml_tree(*v) == Tree::List(l@.map_values(|e: toml::Value| toml_tree(e))),
            None => !(toml_tree(*v) is List),
        },
{
    v.as_array()
}

/// `toml::Value::as_table`: the entries, where the value is a table.
#[verifier::external_body]
fn toml_table(v: &toml::Value) -> (r: Option<Vec<(&String, &toml::Value)>>)
    ensures
        match r {
            Some(t) => toml_tree(*v) == Tree::Table(
                t@.map_values(|e: (&String, &toml::Value)| (e.0@, toml_tree(*e.1))),
            ),
            None => !(toml_tree(*v) is Table),
        },
{
    v.as_table().map(|t| t.iter().collect())
}

/// A TOML value as a node.
fn node_of(v: &toml::Value) -> (n: Node)
    ensures
        n.tree() == toml_tree(*v),
    decreases toml_tree(*v),
{
    if let Some(s) = toml_str(v) {
        return Node::Text(s.to_owned());
    }
    if let Some(l) = toml_list(v) {
        let ghost goal = toml_tree(*v)->List_0;
        let mut out: Vec<Node> = Vec::new();
        let mut i: usize = 0;
        while i < l.len()
            invariant
                i <= l.len(),
                toml_tree(*v) == Tree::List(goal),
                goal == l@.map_values(|e: toml::Value| toml_tree(e)),
                out@.len() == i,
                forall|j: int| 0 <= j < i ==> (#[trigger] out@[j]).tree() == goal[j],
            decreases l.len() - i,
        {
            proof {
                assert(goal[i as int] == toml_tree(l@[i as int]));
                assert(decreases_to!(toml_tree(*v) => toml_tree(*v)->List_0));
                assert(decreases_to!(goal => goal[i as int]));
            }
            out.push(node_of(&l[i]));
            i += 1;
        }
        let n = Node::List(out);
        proof {
            lemma_tree(n);
            assert(trees(out@) =~= goal);
        }
        return n;
    }
    if let Some(t) = toml_table(v) {
        let ghost goal = toml_tree(*v)->Table_0;
        let mut out: Vec<(String, Node)> = Vec::new();
        let mut i: usize = 0;
        while i < t.len()
            invariant
                i <= t.len(),
                toml_tree(*v) == Tree::Table(goal),
                goal == t@.map_values(|e: (&String, &toml::Value)| (e.0@, toml_tree(*e.1))),
                out@.len() == i,
                forall|j: int|
                    0 <= j < i ==> ((#[trigger] out@[j]).0@, out@[j].1.tree()) == goal[j],
            decreases t.len() - i,
        {
            proof {
                assert(goal[i as int] == (t@[i as int].0@, toml_tree(*t@[i as int].1)));
                assert(decreases_to!(toml_tree(*v) => toml_tree(*v)->Table_0));
                assert(decreases_to!(goal => goal[i as int]));
                assert(decreases_to!(goal[i as int] => goal[i as int].1));
            }
            let (key, value) = t[i];
            out.push((key.clone(), node_of(value)));
            i += 1;
        }
        let n = Node::Table(out);
        proof {
            lemma_tree(n);
            assert(entries(out@) =~= goal);
        }
        return n;
    }
    Node::Other
}

/// What a text holds as a TOML document, or why it is none.
pub fn read_toml(s: &str) -> (r: Result<Vec<(String, Node)>, toml::de::Error>)
    ensures
        match r {
            Ok(t) => toml_of(s@) == Ok::<Tree, Seq<char>>(Tree::Table(entries(t@))),
            Err(e) => toml_of(s@) == Err::<Tree, Seq<char>>(toml_error_text(e)),
        },
{
    match parse_toml(s) {
        Ok(v) => {
            let n = node_of(&v);
            proof {
                lemma_tree(n);
            }
            match n {
                Node::Table(t) => Ok(t),
                _ => {
                    assert(false);
                    Ok(Vec::new())
                },
            }
        },
        Err(e) => Err(e),
    }
}

} // verus!
