use panopt::launch::{build_launch, render_instructions};
use panopt::profile_set::{known_placeholders, ParseCause, ProfileError, ProfileSet};
use panopt::status::{
    parse_agent_type_matchers, state_from, AgentState, StatusError, StatusMatcher, StatusRules,
};
use panopt::store_files::render_agent_types_md;
use panopt::templates::{placeholders, sanitize, substitute, Facts, RenderError};
use panopt::textmap::TextMap;
use panopt::tree::Node;

const SHIPPED: &str = r#"
[coder-cli]
display_name = "Coder CLI"
[coder-cli.spawn]
argv = ["coder", "--mcp-config", "{{file:mcp_config}}", "--disallowedTools", "Agent",
        "--append-system-prompt", "Use spawn_agent."]
[coder-cli.spawn.files]
mcp_config = """{"mcpServers":{"panopt":{"type":"stdio","command":"{{panopt_bin}}",
"args":["--port","{{port}}","_mcp-proxy","--host","{{host}}","--ws","{{ws}}","--project",
"{{project}}","--id","{{agent_id}}","--name","{{name}}","--token","{{token}}"]}}}"""
[coder-cli.status]
thinking = ['esc to interrupt']
waiting = ['Do you want']
"#;

#[test]
fn shipped_defaults_load_and_validate() {
    let set = ProfileSet::from_layers(SHIPPED, None).expect("defaults must load");
    let coder = set.get("coder-cli").expect("coder-cli present");
    assert_eq!(coder.display_name, "Coder CLI");
    assert_eq!(coder.spawn.argv[0], "coder");
    assert!(coder.spawn.files.contains("mcp_config"));
    assert!(set.contains("coder-cli"));
    assert_eq!(set.keys(), vec!["coder-cli"]);
}

#[test]
fn override_scalar_overrides_map_merges_list_replaces() {
    let default = r#"
[coder-cli]
display_name = "Coder CLI"
[coder-cli.spawn]
argv = ["coder", "--mcp-config", "{{file:mcp_config}}"]
[coder-cli.spawn.env]
EXISTING = "{{token}}"
[coder-cli.spawn.files]
mcp_config = "{{host}}"
"#;
    let over = r#"
[coder-cli]
display_name = "Coder (custom)"
[coder-cli.spawn]
argv = ["coder", "--dangerously-skip-permissions"]
[coder-cli.spawn.env]
ADDED = "{{name}}"
"#;
    let set = ProfileSet::from_layers(default, Some(over)).expect("merge");
    let p = set.get("coder-cli").unwrap();
    // scalar: replaced
    assert_eq!(p.display_name, "Coder (custom)");
    // list: replaced wholesale (the mcp-config args are gone)
    assert_eq!(
        p.spawn.argv,
        vec!["coder", "--dangerously-skip-permissions"]
    );
    // map: merged by inner key (both env vars survive)
    assert_eq!(
        p.spawn.env.get("EXISTING").map(|s| s.as_str()),
        Some("{{token}}")
    );
    assert_eq!(
        p.spawn.env.get("ADDED").map(|s| s.as_str()),
        Some("{{name}}")
    );
    // untouched nested map survives
    assert!(p.spawn.files.contains("mcp_config"));
}

#[test]
fn override_can_add_a_new_type() {
    let over = r#"
[my-agent]
display_name = "Homegrown"
[my-agent.spawn]
argv = ["my-agent", "--ws", "{{ws}}"]
"#;
    let set = ProfileSet::from_layers(SHIPPED, Some(over)).expect("merge");
    assert!(set.contains("coder-cli"), "shipped type still present");
    assert_eq!(set.get("my-agent").unwrap().display_name, "Homegrown");
}

#[test]
fn unknown_placeholder_is_rejected_at_load() {
    let default = r#"
[bad]
display_name = "Bad"
[bad.spawn]
argv = ["x", "{{nonsense}}"]
"#;
    let err = ProfileSet::from_layers(default, None).unwrap_err();
    match err {
        ProfileError::UnknownPlaceholder {
            tool_type,
            placeholder,
        } => {
            assert_eq!(tool_type, "bad");
            assert_eq!(placeholder, "nonsense");
        }
        other => panic!("expected UnknownPlaceholder, got {other:?}"),
    }
}

#[test]
fn file_placeholder_must_name_a_declared_file() {
    let default = r#"
[bad]
display_name = "Bad"
[bad.spawn]
argv = ["x", "{{file:missing}}"]
[bad.spawn.files]
present = "ok"
"#;
    let err = ProfileSet::from_layers(default, None).unwrap_err();
    assert!(matches!(err, ProfileError::UnknownPlaceholder { .. }));
}

#[test]
fn known_file_placeholder_passes() {
    let default = r#"
[good]
display_name = "Good"
[good.spawn]
argv = ["x", "{{file:cfg}}"]
[good.spawn.files]
cfg = "{{host}}:{{port}}"
"#;
    ProfileSet::from_layers(default, None).expect("declared file placeholder is valid");
}

#[test]
fn status_states_deserialize_and_unknown_state_errors() {
    let good = r#"
[a]
display_name = "A"
[a.spawn]
argv = ["a"]
[a.status]
thinking = ['esc to interrupt']
waiting = ['Do you want']
"#;
    let set = ProfileSet::from_layers(good, None).expect("good status");
    let status = &set.get("a").unwrap().status;
    assert_eq!(
        status.get(AgentState::Thinking).unwrap(),
        &vec!["esc to interrupt"]
    );

    let bad = r#"
[a]
display_name = "A"
[a.spawn]
argv = ["a"]
[a.status]
napping = ['zzz']
"#;
    assert!(
        ProfileSet::from_layers(bad, None).is_err(),
        "unknown state rejected"
    );
}

#[test]
fn placeholder_scanner_handles_edges() {
    assert_eq!(placeholders("{{a}}{{ b }}x{{c}}"), vec!["a", "b", "c"]);
    assert_eq!(placeholders("no placeholders"), Vec::<&str>::new());
    assert_eq!(placeholders("unterminated {{oops"), Vec::<&str>::new());
    assert_eq!(placeholders("{{file:cfg}}"), vec!["file:cfg"]);
}

fn sample_facts() -> Facts {
    Facts {
        panopt_bin: "/abs/panopt".into(),
        host: "127.0.0.1".into(),
        port: 7600,
        ws: "/home/u/proj".into(),
        project: "proj-key".into(),
        agent_id: "u-host".into(),
        name: "greg-main".into(),
        token: "secret-token".into(),
        model: None,
        process_id: None,
    }
}

#[test]
fn env_and_flag_identity_render_from_the_same_engine() {
    // A second profile shape: identity via env vars + flags, no files.
    // Proves the engine has no coder-specific branch.
    let toml = r#"
[codex-ish]
display_name = "Codex-ish"
default_args = ["--project", "{{project}}"]
[codex-ish.spawn]
argv = ["codex", "--server", "http://{{host}}:{{port}}", "--token", "{{token}}"]
[codex-ish.spawn.env]
CODEX_SESSION = "{{agent_id}}"
CODEX_NAME = "{{name}}"
"#;
    let set = ProfileSet::from_layers(toml, None).expect("load");
    let profile = set.get("codex-ish").unwrap();
        let launch = build_launch(profile, &sample_facts(), "/run/9").expect("render");

    assert_eq!(
        launch.argv,
        vec![
            "codex",
            "--server",
            "http://127.0.0.1:7600",
            "--token",
            "secret-token",
            // default_args appended after argv
            "--project",
            "proj-key",
        ]
    );
    assert_eq!(
        launch.env,
        vec![
            ("CODEX_NAME".to_string(), "greg-main".to_string()),
            ("CODEX_SESSION".to_string(), "u-host".to_string()),
        ]
    );
    assert!(launch.files.is_empty());
}

#[test]
fn model_renders_empty_when_unset_and_value_when_set() {
    let toml = r#"
[m]
display_name = "M"
[m.spawn]
argv = ["m", "--model", "{{model}}"]
"#;
    let set = ProfileSet::from_layers(toml, None).unwrap();
    let profile = set.get("m").unwrap();

    let mut facts = sample_facts();
    facts.model = None;
    let launch = build_launch(profile, &facts, "/run/9").unwrap();
    assert_eq!(launch.argv, vec!["m", "--model", ""]);

    facts.model = Some("opus".into());
    let launch = build_launch(profile, &facts, "/run/9").unwrap();
    assert_eq!(launch.argv, vec!["m", "--model", "opus"]);
}

#[test]
fn sanitize_blocks_path_traversal_in_file_names() {
    assert_eq!(sanitize("mcp_config"), "mcp_config");
    assert_eq!(sanitize("../escape"), "___escape");
    assert_eq!(sanitize("a/b"), "a_b");
    assert_eq!(sanitize(".."), "__");
    assert_eq!(sanitize("ok.json"), "ok_json");
}

#[test]
fn unterminated_placeholder_errors() {
    let err = substitute("a {{oops", &sample_facts(), None).unwrap_err();
    assert!(matches!(err, RenderError::Unterminated));
}

#[test]
fn instructions_render_facts_including_process_id() {
    let toml = r#"
[orchestrated]
display_name = "Orchestrated"
instructions = "You are #{{process_id}} ({{name}}). Token {{token}} on {{host}}:{{port}}."
[orchestrated.spawn]
argv = ["agent"]
"#;
    let set = ProfileSet::from_layers(toml, None).expect("load");
    let profile = set.get("orchestrated").unwrap();
    let mut facts = sample_facts();
    facts.process_id = Some(42);
    let rendered = render_instructions(profile, &facts)
        .expect("render")
        .expect("instructions present");
    assert_eq!(
        rendered,
        "You are #42 (greg-main). Token secret-token on 127.0.0.1:7600."
    );
}

#[test]
fn instructions_absent_render_to_none() {
    let toml = r#"
[plain]
display_name = "Plain"
[plain.spawn]
argv = ["agent"]
"#;
    let set = ProfileSet::from_layers(toml, None).expect("load");
    let profile = set.get("plain").unwrap();
    assert!(render_instructions(profile, &sample_facts())
        .expect("render")
        .is_none());
}

#[test]
fn precedence_waiting_beats_thinking() {
    // A snapshot that contains both markers resolves to the higher-priority
    // state deterministically.
    let toml = r#"
[a]
display_name = "A"
[a.spawn]
argv = ["a"]
[a.status]
thinking = ['esc to interrupt']
waiting = ['Do you want']
"#;
    let set = ProfileSet::from_layers(toml, None).unwrap();
    let m = StatusMatcher::compile(&set.get("a").unwrap().status).unwrap();
    assert_eq!(
        m.classify("Do you want to retry? (esc to interrupt)"),
        AgentState::Waiting
    );
}

#[test]
fn new_pattern_is_a_profile_edit_not_code() {
    // Adding a `done` pattern via TOML alone changes classification.
    let toml = r#"
[a]
display_name = "A"
[a.spawn]
argv = ["a"]
[a.status]
done = ['✓ Completed']
"#;
    let set = ProfileSet::from_layers(toml, None).unwrap();
    let m = StatusMatcher::compile(&set.get("a").unwrap().status).unwrap();
    assert_eq!(m.classify("✓ Completed in 3.2s"), AgentState::Done);
    assert_eq!(m.classify("still going"), AgentState::Idle);
}

#[test]
fn invalid_regex_fails_compile() {
    let toml = r#"
[a]
display_name = "A"
[a.spawn]
argv = ["a"]
[a.status]
thinking = ['(unclosed']
"#;
    let set = ProfileSet::from_layers(toml, None).unwrap();
    let err = StatusMatcher::compile(&set.get("a").unwrap().status).unwrap_err();
    assert!(matches!(err, StatusError::Pattern { .. }));
}

#[test]
fn empty_status_always_idle() {
    let m = StatusMatcher::compile(&StatusRules::default()).unwrap();
    assert_eq!(m.classify("anything at all"), AgentState::Idle);
}

#[test]
fn a_launch_with_a_file_names_where_it_stands() {
    let set = ProfileSet::from_layers(SHIPPED, None).expect("load");
    let profile = set.get("coder-cli").unwrap();
    let launch = build_launch(profile, &sample_facts(), "/run/9").expect("render");
    assert_eq!(launch.argv.len(), 7);
    assert_eq!(launch.argv[0], "coder");
    assert_eq!(launch.argv[1], "--mcp-config");
    assert_eq!(launch.files.len(), 1);
    assert_eq!(launch.files[0].path, "/run/9/mcp_config");
    assert_eq!(launch.argv[2], launch.files[0].path);
    assert_eq!(launch.argv[3], "--disallowedTools");
    assert_eq!(launch.argv[4], "Agent");
    assert_eq!(launch.argv[5], "--append-system-prompt");
    assert!(launch.argv[6].contains("spawn_agent"));
    assert!(launch.env.is_empty());

    let cfg = &launch.files[0].contents;
    let json: serde_json::Value = serde_json::from_str(cfg).expect("valid json");
    let server = &json["mcpServers"]["panopt"];
    assert_eq!(server["type"].as_str(), Some("stdio"));
    assert_eq!(server["command"].as_str(), Some("/abs/panopt"));
    let args: Vec<String> = server["args"]
        .as_array()
        .unwrap()
        .iter()
        .map(|v| v.as_str().unwrap().to_string())
        .collect();
    assert_eq!(
        args.join(" "),
        "--port 7600 _mcp-proxy --host 127.0.0.1 --ws /home/u/proj --project proj-key --id u-host \
         --name greg-main --token secret-token"
    );
    assert!(!cfg.contains("{{"), "unrendered placeholder in {cfg}");
}

#[test]
fn fixtures_classify() {
    let set = ProfileSet::from_layers(SHIPPED, None).expect("load");
    let m = StatusMatcher::compile(&set.get("coder-cli").unwrap().status).expect("compile");
    // A working spinner line carries the interrupt hint.
    assert_eq!(
        m.classify("✻ Compacting… (12s · esc to interrupt)"),
        AgentState::Thinking
    );
    // An approval prompt is waiting on the human.
    assert_eq!(
        m.classify("Do you want to proceed?\n  1. Yes\n  2. No"),
        AgentState::Waiting
    );
    // A plain ready prompt with no markers is idle.
    assert_eq!(m.classify("\u{203a} "), AgentState::Idle);
    assert_eq!(m.classify(""), AgentState::Idle);
}

#[test]
fn patterns_are_regular_expressions() {
    let toml = r#"
[a]
display_name = "A"
[a.spawn]
argv = ["a"]
[a.status]
thinking = ['^wait (\d+)s$']
"#;
    let set = ProfileSet::from_layers(toml, None).unwrap();
    let m = StatusMatcher::compile(&set.get("a").unwrap().status).unwrap();
    assert_eq!(m.classify("wait 12s"), AgentState::Thinking);
    assert_eq!(m.classify(r"^wait (\d+)s$"), AgentState::Idle);
}

#[test]
fn malformed_layers_are_named() {
    let err = ProfileSet::from_layers("not toml [", None).unwrap_err();
    assert!(matches!(err, ProfileError::Parse { layer: "default", .. }));
    let cause = toml::from_str::<toml::Table>("not toml [").unwrap_err();
    assert_eq!(
        err.message(),
        format!("parsing agent profiles (default layer): {cause}")
    );
    let err = ProfileSet::from_layers(SHIPPED, Some("= 3")).unwrap_err();
    assert!(matches!(err, ProfileError::Parse { layer: "override", .. }));
    let cause = toml::from_str::<toml::Table>("= 3").unwrap_err();
    assert_eq!(
        err.message(),
        format!("parsing agent profiles (override layer): {cause}")
    );
    // The first key under which no profile stands is named.
    let err = ProfileSet::from_layers(SHIPPED, Some("[zed]\n[abc]\n")).unwrap_err();
    assert!(matches!(
        &err,
        ProfileError::Parse { layer: "merged", source: ParseCause::Profile(key) } if key == "abc"
    ));
    assert_eq!(
        err.message(),
        "parsing agent profiles (merged layer): no profile in `abc`"
    );
    // A profile without a name or a command is no profile.
    assert!(ProfileSet::from_layers("[a]\ndisplay_name = \"A\"\n", None).is_err());
    assert!(ProfileSet::from_layers("[a.spawn]\nargv = []\n", None).is_err());
    // One with a command that is no list of texts is none either.
    assert!(
        ProfileSet::from_layers("[a]\ndisplay_name = \"A\"\n[a.spawn]\nargv = [1]\n", None).is_err()
    );
}

#[test]
fn waiting_comes_before_thinking_and_thinking_before_done() {
    assert_eq!(state_from(true, true, true), AgentState::Waiting);
    assert_eq!(state_from(false, true, true), AgentState::Thinking);
    assert_eq!(state_from(false, false, true), AgentState::Done);
    assert_eq!(state_from(false, false, false), AgentState::Idle);
}

#[test]
fn tables_are_merged_and_read() {
    let profile = |argv: &str| {
        Node::Table(vec![
            ("display_name".into(), Node::Text("A".into())),
            (
                "spawn".into(),
                Node::Table(vec![(
                    "argv".into(),
                    Node::List(vec![Node::Text(argv.into())]),
                )]),
            ),
        ])
    };
    let over = Node::Table(vec![("display_name".into(), Node::Text("B".into()))]);
    let set = ProfileSet::from_tables(
        vec![("a".into(), profile("run"))],
        Some(vec![("a".into(), over)]),
    )
    .unwrap();
    assert_eq!(set.get("a").unwrap().display_name, "B");
    assert_eq!(set.get("a").unwrap().spawn.argv, vec!["run"]);
    let err = ProfileSet::from_tables(vec![("a".into(), profile("{{x}}"))], None).unwrap_err();
    assert!(matches!(
        err,
        ProfileError::UnknownPlaceholder { placeholder, .. } if placeholder == "x"
    ));
    let err = ProfileSet::from_tables(vec![("a".into(), Node::Other)], None).unwrap_err();
    assert!(matches!(err, ProfileError::Parse { layer: "merged", .. }));
}

#[test]
fn no_layers_give_no_types() {
    let set = ProfileSet::from_layers("", None).unwrap();
    assert!(set.is_empty());
    assert_eq!(set.len(), 0);
    assert!(set.keys().is_empty());
    assert!(set.get("coder-cli").is_none());
}

#[test]
fn types_are_kept_in_order() {
    let toml = "[b]\ndisplay_name = \"B\"\n[b.spawn]\nargv = [\"b\"]\n[a]\ndisplay_name = \"A\"\n[a.spawn]\nargv = [\"a\"]\n";
    let set = ProfileSet::from_layers(toml, None).unwrap();
    assert_eq!(set.keys(), vec!["a", "b"]);
    let names: Vec<(&str, &str)> = set
        .iter()
        .into_iter()
        .map(|(k, p)| (k, p.display_name.as_str()))
        .collect();
    assert_eq!(names, vec![("a", "A"), ("b", "B")]);
}

#[test]
fn errors_have_words() {
    let toml = "[bad]\ndisplay_name = \"Bad\"\n[bad.spawn]\nargv = [\"{{nonsense}}\"]\n";
    let err = ProfileSet::from_layers(toml, None).unwrap_err();
    assert_eq!(
        err.message(),
        "agent profile 'bad' references unknown placeholder 'nonsense'"
    );
}

#[test]
fn known_facts_are_nine() {
    assert_eq!(
        known_placeholders(),
        vec![
            "panopt_bin",
            "host",
            "port",
            "ws",
            "project",
            "agent_id",
            "name",
            "token",
            "model"
        ]
    );
    let facts = sample_facts();
    for name in known_placeholders() {
        assert!(facts.lookup(name).is_some(), "{name}");
    }
    // The id of the process is a fact too, though no launch may ask for it.
    assert_eq!(facts.lookup("process_id").as_deref(), Some(""));
    assert_eq!(facts.lookup("port").as_deref(), Some("7600"));
    assert!(facts.lookup("nope").is_none());
}

#[test]
fn templates_are_filled() {
    let facts = sample_facts();
    let mut files: TextMap<String> = TextMap::new();
    files.insert("cfg".into(), "/run/cfg".into());
    assert_eq!(
        substitute("{{ host }}:{{port}} {{file:cfg}}}}", &facts, Some(&files)).unwrap(),
        "127.0.0.1:7600 /run/cfg}}"
    );
    assert_eq!(substitute("", &facts, None).unwrap(), "");
    // The first name that stands for nothing comes before what is not closed.
    assert!(matches!(
        substitute("{{host}} {{one}} {{two}} {{", &facts, None),
        Err(RenderError::UnknownPlaceholder(n)) if n == "one"
    ));
    assert!(matches!(
        substitute("{{host}} {{", &facts, None),
        Err(RenderError::Unterminated)
    ));
    // What a name stands for is not looked through again.
    let nested = Facts {
        host: "{{port}}".into(),
        ..Facts::default()
    };
    assert_eq!(substitute("<{{host}}>", &nested, None).unwrap(), "<{{port}}>");
    let err = substitute("{{nope}}", &facts, None).unwrap_err();
    assert!(matches!(err, RenderError::UnknownPlaceholder(_)));
    let err = substitute("{{file:nope}}", &facts, Some(&files)).unwrap_err();
    assert!(matches!(err, RenderError::UnknownFile(_)));
}

#[test]
fn types_are_shown_and_read_back() {
    let set = ProfileSet::from_layers(SHIPPED, None).unwrap();
    let body = render_agent_types_md(&set);
    let m = parse_agent_type_matchers(&body);
    let rules = m.get("coder-cli").expect("matcher");
    assert_eq!(rules.classify("esc to interrupt"), AgentState::Thinking);
    assert_eq!(rules.classify("Do you want it"), AgentState::Waiting);
    assert_eq!(rules.classify("ready"), AgentState::Idle);
}
