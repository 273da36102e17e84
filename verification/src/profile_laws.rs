//! The types of agents: what a document must say to be one, what is read of it,
//! how one layer covers another, and which placeholders a template may hold.

use vstd::prelude::*;
use vstd::string::*;

use crate::profile_set;
use crate::profiles;
use crate::profiles::AgentProfile;
use crate::status::AgentState;
use crate::templates;
use crate::text;
use crate::textmap::TextMap;
use crate::tree;
use crate::tree::Tree;

verus! {

// ---------------------------------------------------------------------------
// Documents
// ---------------------------------------------------------------------------

/// Whether a key of a table first stands somewhere.
pub open spec fn is_first(t: Seq<(Seq<char>, Tree)>, i: int, key: Seq<char>) -> bool {
    &&& 0 <= i < t.len()
    &&& t[i].0 == key
    &&& forall|k: int| 0 <= k < i ==> (#[trigger] t[k]).0 != key
}

/// A key leads to its first value, and to none where it does not stand.
pub proof fn law_key_leads_to_its_value(t: Seq<(Seq<char>, Tree)>, key: Seq<char>, i: int)
    ensures
        is_first(t, i, key) ==> tree::field(t, key) == Some(t[i].1),
        (forall|k: int| 0 <= k < t.len() ==> (#[trigger] t[k]).0 != key) ==> tree::field(t, key)
            is None,
{
    lemma_key_place(t, key);
    if is_first(t, i, key) {
        if let Some(k) = tree::key_place(t, key) {
            if k < i {
                assert(t[k].0 != key);
            }
            if i < k {
                assert(t[i].0 != key);
            }
        }
    }
}

/// The place of a key is the first.
proof fn lemma_key_place(t: Seq<(Seq<char>, Tree)>, key: Seq<char>)
    ensures
        match tree::key_place(t, key) {
            Some(i) => is_first(t, i, key),
            None => forall|k: int| 0 <= k < t.len() ==> (#[trigger] t[k]).0 != key,
        },
    decreases t.len(),
{
    if t.len() > 0 && t[0].0 != key {
        let rest = t.drop_first();
        lemma_key_place(rest, key);
        match tree::key_place(rest, key) {
            Some(i) => {
                assert forall|k: int| 0 <= k < i + 1 implies (#[trigger] t[k]).0 != key by {
                    if k > 0 {
                        assert(rest[k - 1] == t[k]);
                    }
                }
            },
            None => {
                assert forall|k: int| 0 <= k < t.len() implies (#[trigger] t[k]).0 != key by {
                    if k > 0 {
                        assert(rest[k - 1] == t[k]);
                    }
                }
            },
        }
    }
}

/// A layer covers the one below it key by key: what it says holds, what it does not
/// say stays, and a table in both is covered in the same way.
pub proof fn law_upper_layer_covers_the_lower(
    lower: Seq<(Seq<char>, Tree)>,
    upper: Seq<(Seq<char>, Tree)>,
    key: Seq<char>,
)
    requires
        tree::distinct_keys(upper),
    ensures
        ({
            let below = tree::field(lower, key);
            let above = tree::field(upper, key);
            let both = tree::field(tree::merged(lower, upper), key);
            &&& above is None ==> both == below
            &&& above is Some && !(above->0 is Table) ==> both == above
            &&& above is Some && below is None ==> both == above
            &&& above is Some && below is Some && !(below->0 is Table) ==> both == above
            &&& above is Some && below is Some && below->0 is Table && above->0 is Table ==> both
                == Some(Tree::Table(tree::merged(below->0->Table_0, above->0->Table_0)))
        }),
{
    tree::law_merge_policy(lower, upper, key);
}

/// A type must have a name to show and a program to spawn, and may say nothing that
/// is not known.
pub proof fn law_type_needs_a_name_and_a_program(t: Seq<(Seq<char>, Tree)>, i: int)
    requires
        profiles::is_profile(Tree::Table(t)),
    ensures
        tree::field(t, "display_name"@) is Some && tree::field(t, "display_name"@)->0 is Text,
        tree::field(t, "spawn"@) is Some && tree::field(t, "spawn"@)->0 is Table,
        tree::field(tree::field(t, "spawn"@)->0->Table_0, "argv"@) is Some && tree::field(
            tree::field(t, "spawn"@)->0->Table_0,
            "argv"@,
        )->0 is List,
        0 <= i < t.len() ==> seq![
            "display_name"@,
            "default_model"@,
            "default_args"@,
            "instructions"@,
            "spawn"@,
            "status"@,
        ].contains(t[i].0),
{
    let keys = seq![
        "display_name"@,
        "default_model"@,
        "default_args"@,
        "instructions"@,
        "spawn"@,
        "status"@,
    ];
    assert(keys[0] == "display_name"@ && keys[1] == "default_model"@ && keys[2] == "default_args"@
        && keys[3] == "instructions"@ && keys[4] == "spawn"@ && keys[5] == "status"@);
    if 0 <= i < t.len() {
        assert(profiles::is_profile_key(Tree::Table(t)->Table_0[i].0));
    }
}

/// A table with a name and a program, and nothing else, is a type.
pub proof fn law_name_and_program_are_enough(name: Seq<char>, argv: Seq<Seq<char>>)
    ensures
        profiles::is_profile(
            Tree::Table(
                seq![
                    ("display_name"@, Tree::Text(name)),
                    (
                        "spawn"@,
                        Tree::Table(
                            seq![
                                (
                                    "argv"@,
                                    Tree::List(
                                        Seq::new(argv.len(), |i: int| Tree::Text(argv[i])),
                                    ),
                                ),
                            ],
                        ),
                    ),
                ],
            ),
        ),
{
    let list = Tree::List(Seq::new(argv.len(), |i: int| Tree::Text(argv[i])));
    let spawn = seq![("argv"@, list)];
    let t = seq![("display_name"@, Tree::Text(name)), ("spawn"@, Tree::Table(spawn))];
    reveal_strlit("display_name");
    reveal_strlit("default_model");
    reveal_strlit("default_args");
    reveal_strlit("instructions");
    reveal_strlit("spawn");
    reveal_strlit("status");
    reveal_strlit("argv");
    reveal_strlit("env");
    reveal_strlit("files");
    assert("display_name"@.len() == 12 && "default_model"@.len() == 13 && "default_args"@.len()
        == 12 && "instructions"@.len() == 12 && "spawn"@.len() == 5 && "status"@.len() == 6
        && "argv"@.len() == 4 && "env"@.len() == 3 && "files"@.len() == 5);
    assert("display_name"@[1] == 'i' && "default_args"@[1] == 'e' && "instructions"@[1] == 'n');
    law_key_leads_to_its_value(t, "display_name"@, 0);
    law_key_leads_to_its_value(t, "spawn"@, 1);
    law_key_leads_to_its_value(t, "default_model"@, 0);
    law_key_leads_to_its_value(t, "default_args"@, 0);
    law_key_leads_to_its_value(t, "instructions"@, 0);
    law_key_leads_to_its_value(t, "status"@, 0);
    law_key_leads_to_its_value(spawn, "argv"@, 0);
    law_key_leads_to_its_value(spawn, "env"@, 0);
    law_key_leads_to_its_value(spawn, "files"@, 0);
    assert(profiles::is_texts(list));
    assert(profiles::is_spawn(Tree::Table(spawn)));
}

/// What is read of a type is what its document says of it; what it does not say is
/// empty.
pub proof fn law_type_is_read_as_written(p: AgentProfile, t: Seq<(Seq<char>, Tree)>)
    requires
        profiles::is_profile(Tree::Table(t)),
        profiles::holds_profile(p, t),
    ensures
        tree::field(t, "display_name"@) == Some(Tree::Text(p.display_name@)),
        tree::field(t, "default_model"@) is None <==> p.default_model is None,
        p.default_model is Some ==> tree::field(t, "default_model"@) == Some(
            Tree::Text(p.default_model->0@),
        ),
        tree::field(t, "instructions"@) is None <==> p.instructions is None,
        p.instructions is Some ==> tree::field(t, "instructions"@) == Some(
            Tree::Text(p.instructions->0@),
        ),
        tree::field(t, "default_args"@) is None ==> p.default_args@.len() == 0,
        tree::field(t, "default_args"@) is Some ==> {
            let l = tree::field(t, "default_args"@)->0->List_0;
            l.len() == p.default_args@.len() && forall|i: int|
                0 <= i < l.len() ==> #[trigger] l[i] == Tree::Text(p.default_args@[i]@)
        },
        ({
            let l = tree::field(tree::field(t, "spawn"@)->0->Table_0, "argv"@)->0->List_0;
            l.len() == p.spawn.argv@.len() && forall|i: int|
                0 <= i < l.len() ==> #[trigger] l[i] == Tree::Text(p.spawn.argv@[i]@)
        }),
        tree::field(t, "status"@) is None ==> forall|s: AgentState|
            (#[trigger] p.status.patterns(s)) is None,
{
    if tree::field(t, "default_args"@) is Some {
        let l = tree::field(t, "default_args"@)->0->List_0;
        assert(profiles::is_texts(tree::field(t, "default_args"@)->0));
        let all = text::texts(p.default_args@);
        assert(all.len() == l.len());
        assert forall|i: int| 0 <= i < l.len() implies #[trigger] l[i] == Tree::Text(
            p.default_args@[i]@,
        ) by {
            assert(all[i] == l[i]->Text_0);
        }
    } else {
        assert(text::texts(p.default_args@).len() == 0);
    }
    let spawn = tree::field(t, "spawn"@)->0;
    assert(profiles::is_spawn(spawn));
    let l = tree::field(spawn->Table_0, "argv"@)->0->List_0;
    let all = text::texts(p.spawn.argv@);
    assert(all.len() == l.len());
    assert forall|i: int| 0 <= i < l.len() implies #[trigger] l[i] == Tree::Text(
        p.spawn.argv@[i]@,
    ) by {
        assert(all[i] == l[i]->Text_0);
    }
    if tree::field(t, "status"@) is None {
        assert forall|s: AgentState| (#[trigger] p.status.patterns(s)) is None by {
            law_key_leads_to_its_value(Seq::empty(), s.name(), 0);
        }
    }
}

/// A set is refused for the first of its tables that is no type.
pub proof fn law_first_stray_is_told_of(t: Seq<(Seq<char>, Tree)>, i: int)
    ensures
        0 <= i < t.len() && !profiles::is_profile(t[i].1) && (forall|k: int|
            0 <= k < i ==> profiles::is_profile((#[trigger] t[k]).1)) ==> profile_set::first_stray(t)
            == Some(t[i].0),
        (forall|k: int| 0 <= k < t.len() ==> profiles::is_profile((#[trigger] t[k]).1))
            ==> profile_set::first_stray(t) is None && profile_set::is_set(t),
    decreases t.len(),
{
    if t.len() > 0 && profiles::is_profile(t[0].1) {
        let rest = t.drop_first();
        law_first_stray_is_told_of(rest, i - 1);
        if 0 <= i < t.len() && !profiles::is_profile(t[i].1) && (forall|k: int|
            0 <= k < i ==> profiles::is_profile((#[trigger] t[k]).1)) {
            assert(rest[i - 1] == t[i]);
            assert forall|k: int| 0 <= k < i - 1 implies profiles::is_profile(
                (#[trigger] rest[k]).1,
            ) by {
                assert(t[k + 1] == rest[k]);
            }
        }
        if forall|k: int| 0 <= k < t.len() ==> profiles::is_profile((#[trigger] t[k]).1) {
            assert forall|k: int| 0 <= k < rest.len() implies profiles::is_profile(
                (#[trigger] rest[k]).1,
            ) by {
                assert(t[k + 1] == rest[k]);
            }
        }
    }
}

// ---------------------------------------------------------------------------
// Placeholders
// ---------------------------------------------------------------------------

/// The facts that a launch may name.
pub open spec fn launch_facts() -> Seq<Seq<char>> {
    seq![
        "panopt_bin"@,
        "host"@,
        "port"@,
        "ws"@,
        "project"@,
        "agent_id"@,
        "name"@,
        "token"@,
        "model"@,
    ]
}

/// Whether a launch may name something: a fact, or a file of the type.
pub open spec fn may_name(files: TextMap<String>, name: Seq<char>) -> bool {
    if text::begins(name, "file:"@) {
        files.has(name.skip(5))
    } else {
        launch_facts().contains(name)
    }
}

/// Whether what an agent is told may name something: a fact or its number, but no
/// file.
pub open spec fn may_tell(name: Seq<char>) -> bool {
    !text::begins(name, "file:"@) && (launch_facts().contains(name) || name == "process_id"@)
}

/// What a launch may name, and what an agent may be told of.
proof fn lemma_may_name(files: TextMap<String>, name: Seq<char>)
    ensures
        profile_set::may_spawn_with(name, files) <==> may_name(files, name),
        profile_set::may_instruct_with(name) <==> may_tell(name),
{
    reveal_strlit("file:");
    let f = launch_facts();
    assert(f[0] == "panopt_bin"@ && f[1] == "host"@ && f[2] == "port"@ && f[3] == "ws"@ && f[4]
        == "project"@ && f[5] == "agent_id"@ && f[6] == "name"@ && f[7] == "token"@ && f[8]
        == "model"@);
    assert(profile_set::is_known(name) <==> f.contains(name));
}

/// Whether every placeholder of a template may stand in a launch.
pub open spec fn is_allowed(files: TextMap<String>, template: Seq<char>) -> bool {
    forall|i: int|
        0 <= i < templates::names(template).len() ==> may_name(
            files,
            #[trigger] templates::names(template)[i],
        )
}

/// A type is refused exactly where one of its templates names what it may not: an
/// argument, a value of its environment or a file of its launch, or what its agents
/// are told.
pub proof fn law_types_name_what_they_may(p: AgentProfile)
    ensures
        profile_set::unknown_in(p) is None <==> {
            &&& forall|i: int|
                0 <= i < p.spawn.argv@.len() ==> is_allowed(
                    p.spawn.files,
                    (#[trigger] p.spawn.argv@[i])@,
                )
            &&& forall|i: int|
                0 <= i < p.spawn.env.list().len() ==> is_allowed(
                    p.spawn.files,
                    (#[trigger] p.spawn.env.list()[i]).1@,
                )
            &&& forall|i: int|
                0 <= i < p.spawn.files.list().len() ==> is_allowed(
                    p.spawn.files,
                    (#[trigger] p.spawn.files.list()[i]).1@,
                )
            &&& p.instructions is Some ==> forall|i: int|
                0 <= i < templates::names(p.instructions->0@).len() ==> may_tell(
                    #[trigger] templates::names(p.instructions->0@)[i],
                )
        },
{
    let files = p.spawn.files;
    let argv = text::texts(p.spawn.argv@);
    let env = profile_set::values_of(p.spawn.env);
    let contents = profile_set::values_of(p.spawn.files);
    lemma_unknown_among(argv, files);
    lemma_unknown_among(env, files);
    lemma_unknown_among(contents, files);
    if p.instructions is Some {
        lemma_unknown_instruction(templates::names(p.instructions->0@), files);
    }
    assert((forall|i: int| 0 <= i < argv.len() ==> is_allowed(files, #[trigger] argv[i])) <==> (
    forall|i: int|
        0 <= i < p.spawn.argv@.len() ==> is_allowed(files, (#[trigger] p.spawn.argv@[i])@))) by {
        assert forall|i: int| 0 <= i < argv.len() implies #[trigger] argv[i]
            == p.spawn.argv@[i]@ by {}
        if forall|i: int| 0 <= i < argv.len() ==> is_allowed(files, #[trigger] argv[i]) {
            assert forall|i: int| 0 <= i < p.spawn.argv@.len() implies is_allowed(
                files,
                (#[trigger] p.spawn.argv@[i])@,
            ) by {
                assert(is_allowed(files, argv[i]));
            }
        }
    }
    assert((forall|i: int| 0 <= i < env.len() ==> is_allowed(files, #[trigger] env[i])) <==> (
    forall|i: int|
        0 <= i < p.spawn.env.list().len() ==> is_allowed(
            files,
            (#[trigger] p.spawn.env.list()[i]).1@,
        ))) by {
        if forall|i: int| 0 <= i < env.len() ==> is_allowed(files, #[trigger] env[i]) {
            assert forall|i: int| 0 <= i < p.spawn.env.list().len() implies is_allowed(
                files,
                (#[trigger] p.spawn.env.list()[i]).1@,
            ) by {
                assert(is_allowed(files, env[i]));
            }
        }
    }
    assert((forall|i: int| 0 <= i < contents.len() ==> is_allowed(files, #[trigger] contents[i]))
        <==> (forall|i: int|
        0 <= i < p.spawn.files.list().len() ==> is_allowed(
            files,
            (#[trigger] p.spawn.files.list()[i]).1@,
        ))) by {
        if forall|i: int| 0 <= i < contents.len() ==> is_allowed(files, #[trigger] contents[i]) {
            assert forall|i: int| 0 <= i < p.spawn.files.list().len() implies is_allowed(
                files,
                (#[trigger] p.spawn.files.list()[i]).1@,
            ) by {
                assert(is_allowed(files, contents[i]));
            }
        }
    }
}

/// The first name that a launch may not hold.
proof fn lemma_unknown_name(names: Seq<Seq<char>>, files: TextMap<String>)
    ensures
        profile_set::unknown_name(names, files) is None <==> forall|i: int|
            0 <= i < names.len() ==> may_name(files, #[trigger] names[i]),
        profile_set::unknown_name(names, files) matches Some(n) ==> names.contains(n) && !may_name(
            files,
            n,
        ),
    decreases names.len(),
{
    if names.len() > 0 {
        let rest = names.drop_first();
        lemma_unknown_name(rest, files);
        lemma_may_name(files, names[0]);
        if forall|i: int| 0 <= i < rest.len() ==> may_name(files, #[trigger] rest[i]) {
            if may_name(files, names[0]) {
                assert forall|i: int| 0 <= i < names.len() implies may_name(
                    files,
                    #[trigger] names[i],
                ) by {
                    if i > 0 {
                        assert(rest[i - 1] == names[i]);
                    }
                }
            }
        }
        if forall|i: int| 0 <= i < names.len() ==> may_name(files, #[trigger] names[i]) {
            assert(may_name(files, names[0]));
            assert forall|i: int| 0 <= i < rest.len() implies may_name(
                files,
                #[trigger] rest[i],
            ) by {
                assert(names[i + 1] == rest[i]);
            }
        }
        if profile_set::unknown_name(names, files) is Some {
            let n = profile_set::unknown_name(names, files)->0;
            if may_name(files, names[0]) {
                let k = choose|k: int| 0 <= k < rest.len() && rest[k] == n;
                assert(names[k + 1] == n);
            } else {
                assert(names[0] == n);
            }
        }
    }
}

/// The first name that an agent may not be told.
proof fn lemma_unknown_instruction(names: Seq<Seq<char>>, files: TextMap<String>)
    ensures
        profile_set::unknown_instruction(names) is None <==> forall|i: int|
            0 <= i < names.len() ==> may_tell(#[trigger] names[i]),
    decreases names.len(),
{
    if names.len() > 0 {
        let rest = names.drop_first();
        lemma_unknown_instruction(rest, files);
        lemma_may_name(files, names[0]);
        if forall|i: int| 0 <= i < rest.len() ==> may_tell(#[trigger] rest[i]) {
            if may_tell(names[0]) {
                assert forall|i: int| 0 <= i < names.len() implies may_tell(
                    #[trigger] names[i],
                ) by {
                    if i > 0 {
                        assert(rest[i - 1] == names[i]);
                    }
                }
            }
        }
        if forall|i: int| 0 <= i < names.len() ==> may_tell(#[trigger] names[i]) {
            assert(may_tell(names[0]));
            assert forall|i: int| 0 <= i < rest.len() implies may_tell(#[trigger] rest[i]) by {
                assert(names[i + 1] == rest[i]);
            }
        }
    }
}

/// The first name in templates that a launch may not hold.
proof fn lemma_unknown_among(all: Seq<Seq<char>>, files: TextMap<String>)
    ensures
        profile_set::unknown_among(all, files) is None <==> forall|i: int|
            0 <= i < all.len() ==> is_allowed(files, #[trigger] all[i]),
    decreases all.len(),
{
    if all.len() > 0 {
        let rest = all.drop_first();
        lemma_unknown_among(rest, files);
        lemma_unknown_name(templates::names(all[0]), files);
        if forall|i: int| 0 <= i < rest.len() ==> is_allowed(files, #[trigger] rest[i]) {
            if is_allowed(files, all[0]) {
                assert forall|i: int| 0 <= i < all.len() implies is_allowed(
                    files,
                    #[trigger] all[i],
                ) by {
                    if i > 0 {
                        assert(rest[i - 1] == all[i]);
                    }
                }
            }
        }
        if forall|i: int| 0 <= i < all.len() ==> is_allowed(files, #[trigger] all[i]) {
            assert(is_allowed(files, all[0]));
            assert forall|i: int| 0 <= i < rest.len() implies is_allowed(
                files,
                #[trigger] rest[i],
            ) by {
                assert(all[i + 1] == rest[i]);
            }
        }
    }
}

/// A set is refused for the first of its types that names what it may not, and for
/// none where all of them are in order.
pub proof fn law_first_faulty_type_is_told_of(list: Seq<(String, AgentProfile)>, i: int)
    ensures
        0 <= i < list.len() && profile_set::unknown_in(list[i].1) is Some && (forall|k: int|
            0 <= k < i ==> profile_set::unknown_in((#[trigger] list[k]).1) is None)
            ==> profile_set::fault_among(list) == Some(
            (list[i].0@, profile_set::unknown_in(list[i].1)->0),
        ),
        (forall|k: int|
            0 <= k < list.len() ==> profile_set::unknown_in((#[trigger] list[k]).1) is None)
            ==> profile_set::fault_among(list) is None,
    decreases list.len(),
{
    if list.len() > 0 && profile_set::unknown_in(list[0].1) is None {
        let rest = list.drop_first();
        law_first_faulty_type_is_told_of(rest, i - 1);
        if 0 <= i < list.len() && profile_set::unknown_in(list[i].1) is Some && (forall|k: int|
            0 <= k < i ==> profile_set::unknown_in((#[trigger] list[k]).1) is None) {
            assert(rest[i - 1] == list[i]);
            assert forall|k: int| 0 <= k < i - 1 implies profile_set::unknown_in(
                (#[trigger] rest[k]).1,
            ) is None by {
                assert(list[k + 1] == rest[k]);
            }
        }
        if forall|k: int|
            0 <= k < list.len() ==> profile_set::unknown_in((#[trigger] list[k]).1) is None {
            assert forall|k: int| 0 <= k < rest.len() implies profile_set::unknown_in(
                (#[trigger] rest[k]).1,
            ) is None by {
                assert(list[k + 1] == rest[k]);
            }
        }
    }
}

} // verus!
