use panopt::inputs::parse_input_line;
use panopt::modes::{
    parse_priority_suffix, parse_status_suffix, parse_updated_suffix, suffix_start, Mode,
    TodoFilter, TodoSort, ALL_TODO_FILTERS, ALL_TODO_SORTS,
};
use panopt::panes::{agent_id_from_command, classify_pane, parse_viewer_slot, PaneRole};
use panopt::rows::{
    agent_config_label, parse_config_line, parse_index_line, parse_process_line, ConfigRow,
};
use panopt::status::{parse_agent_type_matchers, viewport_live_region, AgentState};
use panopt::titles::{
    kind_prefixed_title, lookup_title, process_pane_title_for, strip_trailing_id, viewer_title_for,
};
use panopt::wire::{parse_agent_labels, parse_viewer_routing, view_field};
use std::collections::BTreeMap;

#[test]
fn parses_a_todo_index_line() {
    let (id, label) = parse_index_line(
        "- [ ] [#3](todos/3.md) wire the form - open, high, updated 2026-05-23 18:05:21",
    )
    .unwrap();
    assert_eq!(id, 3);
    assert_eq!(
        label,
        "wire the form - open, high, updated 2026-05-23 18:05:21"
    );
}

#[test]
fn parse_priority_suffix_skips_the_trailing_updated_token() {
    // The third token (`updated <ts>`) was added so the sidebar can sort
    // by modified; the priority parser must keep returning the middle
    // token rather than "high, updated 2026-...".
    let label = "wire the form - open, high, updated 2026-05-23 18:05:21";
    assert_eq!(parse_priority_suffix(label), Some("high"));
    assert_eq!(parse_status_suffix(label), Some("open"));
}

#[test]
fn parse_updated_suffix_extracts_the_timestamp() {
    let label = "wire the form - open, high, updated 2026-05-23 18:05:21";
    assert_eq!(parse_updated_suffix(label), Some("2026-05-23 18:05:21"));
}

#[test]
fn parse_updated_suffix_returns_none_when_absent() {
    // Stale on-disk projection (predates the timestamp) - the parser
    // returns None so cmp_rows degrades to id ordering instead of
    // panicking.
    assert_eq!(parse_updated_suffix("wire the form - open, high"), None);
    assert_eq!(parse_updated_suffix("plain title"), None);
}

#[test]
fn modified_desc_sorts_by_timestamp_not_id() {
    // The lower-id row has the newer timestamp; ModifiedDesc must put it
    // first. If the cmp falls back to id, this returns Greater (b before
    // a) instead of Less, and the assertion fails.
    let a = (
        1u64,
        "wire the form - open, high, updated 2026-05-29 09:00:00".to_string(),
    );
    let b = (
        2u64,
        "write readme - open, medium, updated 2026-05-21 10:00:00".to_string(),
    );
    assert_eq!(
        TodoSort::ModifiedDesc.cmp_rows(&a, &b),
        std::cmp::Ordering::Less
    );
    assert_eq!(
        TodoSort::ModifiedAsc.cmp_rows(&a, &b),
        std::cmp::Ordering::Greater
    );
    // Sanity check that Created still uses id, unchanged.
    assert_eq!(
        TodoSort::CreatedAsc.cmp_rows(&a, &b),
        std::cmp::Ordering::Less
    );
}

#[test]
fn parses_a_note_index_line() {
    let (id, label) = parse_index_line("- [#7](note/7.md) design notes").unwrap();
    assert_eq!(id, 7);
    assert_eq!(label, "design notes");
}

#[test]
fn parses_a_note_index_line_with_updated_timestamp() {
    let (id, label) =
        parse_index_line("- [#1](note/1.md) Sample Notes - updated 2026-05-23 18:05:21")
            .unwrap();
    assert_eq!(id, 1);
    assert_eq!(label, "Sample Notes - updated 2026-05-23 18:05:21");
}

#[test]
fn ignores_non_index_lines() {
    assert!(parse_index_line("# Todos").is_none());
    assert!(parse_index_line("_(no todos)_").is_none());
    assert!(parse_index_line("").is_none());
}

#[test]
fn empty_title_note_line_keeps_the_suffix_in_the_label() {
    // After a user clears the title field, the projection renders
    // `- [#N](note/N.md)  - updated <ts>` (double space). The
    // parser strips one of the spaces, leaving the label as
    // "- updated <ts>" - suffix-only, no title.
    let (id, label) =
        parse_index_line("- [#73](note/73.md)  - updated 2026-05-27 07:00:00").unwrap();
    assert_eq!(id, 73);
    assert_eq!(label, "- updated 2026-05-27 07:00:00");
    // lookup_title recognises the leading "- " as the empty-title shape
    // and returns None so the pane title falls back to "Note #N".
    let pads = vec![(73u64, label)];
    assert!(lookup_title(&pads, 73).is_none());
}

#[test]
fn empty_title_todo_line_still_parses_status_and_priority() {
    // Empty title for a todo: "- [ ] [#75](todos/75.md)  - open, medium".
    // The sort path needs the priority and the filter path needs the
    // status; without `suffix_start`'s empty-title branch the label
    // "- open, medium" would parse as no-suffix and the todo would sort
    // to the bottom (rank 0) regardless of its real priority.
    let (id, label) = parse_index_line("- [ ] [#75](todos/75.md)  - open, medium").unwrap();
    assert_eq!(id, 75);
    assert_eq!(label, "- open, medium");
    assert_eq!(parse_status_suffix(&label), Some("open"));
    assert_eq!(parse_priority_suffix(&label), Some("medium"));
    let todos = vec![(75u64, label)];
    assert!(lookup_title(&todos, 75).is_none());
}

#[test]
fn suffix_start_picks_the_right_marker_for_each_shape() {
    // Normal case: title + suffix, separator is " - " (3 chars).
    assert_eq!(suffix_start("wire up auth - open, high"), Some(15));
    // Empty-title case: label is the suffix only, "- " consumed (2 chars).
    assert_eq!(suffix_start("- open, high"), Some(2));
    // Title with embedded " - " plus a trailing suffix: rfind picks the
    // rightmost, which is the projection-level separator.
    let s = "a - b - open, high";
    assert_eq!(suffix_start(s), Some(s.rfind(" - ").unwrap() + 3));
    // No suffix at all.
    assert!(suffix_start("plain title").is_none());
}

#[test]
fn parses_a_process_line() {
    let row = parse_process_line("- [agent] #1 NASTL-Mediator").unwrap();
    assert_eq!(row.kind, "agent");
    assert_eq!(row.id, 1);
    assert_eq!(row.label, "NASTL-Mediator");
}

#[test]
fn parses_a_process_line_with_a_from_suffix() {
    let row = parse_process_line("- [agent] #4 NASTL-Mediator (from #3)").unwrap();
    assert_eq!(row.kind, "agent");
    assert_eq!(row.id, 4);
    assert_eq!(row.label, "NASTL-Mediator");
    assert_eq!(row.status, None);
    assert_eq!(row.agent_tool_id, Some(3));
}

#[test]
fn parses_config_lines_and_ignores_non_config() {
    let row = parse_config_line("- #144 good [enabled]").unwrap();
    assert_eq!(row.id, 144);
    assert_eq!(row.label, "good");
    assert!(row.enabled);

    // A label with spaces, a disabled flag, and a trailing command.
    let row = parse_config_line("- #7 My Mediator [disabled] coder --foo").unwrap();
    assert_eq!(row.id, 7);
    assert_eq!(row.label, "My Mediator");
    assert!(!row.enabled);

    assert!(parse_config_line("# Agent tools").is_none());
    assert!(parse_config_line("_(no agent tools)_").is_none());
}

#[test]
fn parses_a_process_line_with_status_and_from_suffix() {
    let row = parse_process_line("- [agent] #4 NASTL-Mediator (from #3) · starting").unwrap();
    assert_eq!(row.kind, "agent");
    assert_eq!(row.id, 4);
    assert_eq!(row.label, "NASTL-Mediator");
    assert_eq!(row.status.as_deref(), Some("starting"));
}

#[test]
fn parses_a_process_line_with_status_and_no_from_suffix() {
    let row = parse_process_line("- [command] #2 Build · running").unwrap();
    assert_eq!(row.kind, "command");
    assert_eq!(row.id, 2);
    assert_eq!(row.label, "Build");
    assert_eq!(row.status.as_deref(), Some("running"));
}

#[test]
fn ignores_non_process_lines() {
    assert!(parse_process_line("# Processes").is_none());
    assert!(parse_process_line("_(no processes)_").is_none());
}

#[test]
fn parses_type_state_agent_and_idle_segments() {
    let row = parse_process_line(
        "- [agent] #5 Mediator (from #3) · running · type:coder-cli · agent:mediator-1a · state:idle · idle:2m",
    )
    .unwrap();
    assert_eq!(row.label, "Mediator");
    assert_eq!(row.status.as_deref(), Some("running"));
    assert_eq!(row.tool_type.as_deref(), Some("coder-cli"));
    assert_eq!(row.agent_id.as_deref(), Some("mediator-1a"));
    assert_eq!(row.agent_state.as_deref(), Some("idle"));
    assert_eq!(row.idle.as_deref(), Some("2m"));
}

fn config(label: &str) -> ConfigRow {
    ConfigRow {
        id: 7,
        label: label.to_string(),
        enabled: true,
    }
}

#[test]
fn label_for_config_with_no_instance_is_id_and_name() {
    // The `#<id>` prefix mirrors the Todos/Notes panes' `#N <label>` shape
    // so every Agents row is addressable by the same id quoted elsewhere.
    assert_eq!(agent_config_label(&config("Mediator"), None), "#7 Mediator");
}

#[test]
fn label_shows_classified_state_when_not_idle() {
    let inst = parse_process_line("- [agent] #5 Mediator (from #7) · running · state:thinking")
        .unwrap();
    assert_eq!(
        agent_config_label(&config("Mediator"), Some(&inst)),
        "#7 Mediator · thinking"
    );
}

#[test]
fn label_appends_idle_age_while_idle() {
    let inst =
        parse_process_line("- [agent] #5 Mediator (from #7) · running · state:idle · idle:3m")
            .unwrap();
    assert_eq!(
        agent_config_label(&config("Mediator"), Some(&inst)),
        "#7 Mediator · idle 3m"
    );
}

#[test]
fn label_falls_back_to_lifecycle_status_before_first_observation() {
    // A freshly-started instance has a lifecycle status but no classified
    // `state:` yet, so the row shows `starting` and carries no idle age.
    let inst = parse_process_line("- [agent] #5 Mediator (from #7) · starting").unwrap();
    assert_eq!(
        agent_config_label(&config("Mediator"), Some(&inst)),
        "#7 Mediator · starting"
    );
}

#[test]
fn strip_trailing_id_removes_only_a_separated_or_whole_id() {
    // Daemon-appended forms: `name-<id>` and `name #<id>`.
    assert_eq!(strip_trailing_id("good-224", 224), "good");
    assert_eq!(
        strip_trailing_id("verify-submit #220", 220),
        "verify-submit"
    );
    assert_eq!(
        strip_trailing_id("weather-portland #193", 193),
        "weather-portland"
    );
    // The id IS the whole label -> collapses to empty.
    assert_eq!(strip_trailing_id("224", 224), "");
    // No trailing id, or digits that are part of the name -> left alone.
    assert_eq!(strip_trailing_id("good", 224), "good");
    assert_eq!(strip_trailing_id("abc224", 224), "abc224");
    // A different trailing number is not this row's id -> left alone.
    assert_eq!(strip_trailing_id("good-225", 224), "good-225");
}

#[test]
fn process_pane_title_matches_viewer_pane_shape() {
    // `Agent #<id> - <name>`, parallel to `Todo #N - <title>`, with the
    // daemon-baked id stripped from the name so it appears exactly once.
    assert_eq!(
        process_pane_title_for("Agent", 224, "good-224"),
        "Agent #224 - good"
    );
    assert_eq!(
        process_pane_title_for("Agent", 220, "verify-submit #220"),
        "Agent #220 - verify-submit"
    );
    assert_eq!(
        process_pane_title_for("Command", 30, "deploy"),
        "Command #30 - deploy"
    );
    // Name that was only the id -> bare `<Kind> #<id>`, no dangling dash.
    assert_eq!(process_pane_title_for("Agent", 9, "9"), "Agent #9");
}

#[test]
fn parse_input_line_reads_seq_process_and_unescaped_content() {
    let row = parse_input_line(
        r#"{"seq":3,"process_id":5,"content":"check the weather\nin Portland\n"}"#,
    )
    .unwrap();
    assert_eq!(row.seq, 3);
    assert_eq!(row.process_id, 5);
    // The embedded escape is unescaped to a real newline - what a hand-rolled
    // splitter would get wrong.
    assert_eq!(row.content, "check the weather\nin Portland\n");
}

#[test]
fn parse_input_line_skips_blank_and_malformed() {
    assert!(parse_input_line("").is_none());
    assert!(parse_input_line("   ").is_none());
    assert!(parse_input_line("not json").is_none());
    assert!(parse_input_line(r#"{"seq":1}"#).is_none());
}

#[test]
fn agent_id_parses_from_mcp_proxy_and_agent_commands_only() {
    // The `_mcp-proxy` child Zellij usually surfaces for an agent pane.
    assert_eq!(
        agent_id_from_command(Some(
            "/bin/panopt --port 7600 _mcp-proxy --host 127.0.0.1 --id good --name good"
        )),
        Some("good".to_string())
    );
    // The pre-exec `_agent` shim.
    assert_eq!(
        agent_id_from_command(Some("/bin/panopt _agent --id mediator-1a2b")),
        Some("mediator-1a2b".to_string())
    );
    // A non-agent command carrying `--id` must not masquerade as an agent.
    assert_eq!(agent_id_from_command(Some("some-tool --id 42")), None);
    // Agent command with no `--id` (anonymous) yields nothing to bind on.
    assert_eq!(agent_id_from_command(Some("/bin/panopt _agent")), None);
    assert_eq!(agent_id_from_command(None), None);
}

#[test]
fn agent_state_roundtrips_through_its_wire_name() {
    for s in [
        AgentState::Thinking,
        AgentState::Idle,
        AgentState::Waiting,
        AgentState::Done,
    ] {
        assert_eq!(AgentState::parse(s.as_str()), Some(s));
    }
    assert_eq!(AgentState::parse("bogus"), None);
}

#[test]
fn matcher_classifies_with_waiting_over_thinking_precedence() {
    let body =
        "# Agent types\n\n## coder-cli\nthinking = esc to interrupt\nwaiting = Do you want\n";
    let matchers = parse_agent_type_matchers(body);
    let m = matchers.get("coder-cli").expect("coder-cli matcher");
    assert_eq!(m.classify("... esc to interrupt ..."), AgentState::Thinking);
    assert_eq!(m.classify("quiet output"), AgentState::Idle);
    // Both patterns present: waiting wins by precedence.
    assert_eq!(
        m.classify("esc to interrupt\nDo you want to proceed?"),
        AgentState::Waiting
    );
}

#[test]
fn live_region_windows_to_the_footer_and_ignores_transcript() {
    let body =
        "# Agent types\n\n## coder-cli\nthinking = esc to interrupt\nwaiting = Do you want\n";
    let m = parse_agent_type_matchers(body)
        .remove("coder-cli")
        .expect("coder-cli matcher");

    // A finished turn that mentioned the spinner far up in the transcript,
    // now sitting idle at the prompt. The whole viewport would (wrongly)
    // classify as thinking; the live region sees only the idle footer.
    let mut viewport: Vec<String> = vec!["assistant: running esc to interrupt".into()];
    for _ in 0..40 {
        viewport.push("transcript line".into());
    }
    viewport.push("> ".into());
    viewport.push(String::new());
    viewport.push(String::new());
    assert!(m.classify(&viewport.join("\n")) == AgentState::Thinking);
    assert_eq!(
        m.classify(&viewport_live_region(&viewport)),
        AgentState::Idle
    );

    // The live spinner on the last non-blank line is inside the window.
    let working = vec![
        "working...".into(),
        "esc to interrupt".into(),
        String::new(),
    ];
    assert_eq!(
        m.classify(&viewport_live_region(&working)),
        AgentState::Thinking
    );

    // An all-blank or empty viewport is idle, never a panic.
    assert_eq!(viewport_live_region(&[]), "");
    assert_eq!(viewport_live_region(&["".into(), "  ".into()]), "");
}

#[test]
fn matcher_parse_skips_bad_lines_and_invalid_regex() {
    let body = "## t\nthinking = (unclosed\nbogus = x\nwaiting = ok\n";
    let m = parse_agent_type_matchers(body);
    let t = m.get("t").expect("type t");
    // The invalid-regex `thinking` and unknown-state `bogus` lines drop;
    // only the valid `waiting` pattern survives.
    assert_eq!(t.classify("ok"), AgentState::Waiting);
    assert_eq!(t.classify("nope"), AgentState::Idle);
}

#[test]
fn classify_pane_reads_the_launch_command() {
    assert_eq!(
        classify_pane(Some("/bin/panopt _viewer --slot main --port 7600")),
        PaneRole::Viewer
    );
    assert_eq!(
        classify_pane(Some("/bin/panopt _process-run --port 7600 5")),
        PaneRole::Process(5)
    );
    assert_eq!(
        classify_pane(Some("/bin/panopt _agent --id mediator-1a2b")),
        PaneRole::Agent
    );
    // A first-class agent launched directly with its rendered per-instance
    // config ties back to its process id via the `instances/<id>/` segment,
    // even though it never went through the `_process-run` shim.
    assert_eq!(
        classify_pane(Some(
            "coder --mcp-config /home/u/.local/share/panopt/instances/158/mcp_config"
        )),
        PaneRole::Process(158)
    );
    // A bare `instances` path with no numeric id must not misclassify.
    assert_eq!(
        classify_pane(Some("vim /home/u/code/instances/notes.md")),
        PaneRole::Shell
    );
    assert_eq!(classify_pane(Some("/bin/zsh -l")), PaneRole::Shell);
    assert_eq!(classify_pane(None), PaneRole::Shell);
}

#[test]
fn parse_viewer_routing_reads_kind_and_id() {
    assert_eq!(
        parse_viewer_routing(r#"{"kind":"todo","id":30}"#),
        (Some("todo".to_string()), Some(30))
    );
    assert_eq!(
        parse_viewer_routing(r#"{"kind":"empty"}"#),
        (Some("empty".to_string()), None)
    );
    // Order is not constrained by the writer, but be tolerant anyway.
    assert_eq!(
        parse_viewer_routing(r#"{"id":7,"kind":"note"}"#),
        (Some("note".to_string()), Some(7))
    );
}

#[test]
fn parse_viewer_routing_tolerates_garbage() {
    assert_eq!(parse_viewer_routing(""), (None, None));
    assert_eq!(parse_viewer_routing("not json"), (None, None));
    // Missing kind: returns just the id, the caller falls back to "Viewer".
    assert_eq!(parse_viewer_routing(r#"{"id":3}"#), (None, Some(3)));
}

#[test]
fn viewer_title_for_each_known_kind() {
    let todos = vec![(30u64, "fixup pane titles - open, high".to_string())];
    let pads = vec![(5u64, "design notes - updated 2026-05-23".to_string())];
    assert_eq!(viewer_title_for(None, None, &todos, &pads), "Viewer");
    assert_eq!(
        viewer_title_for(Some("empty"), None, &todos, &pads),
        "Viewer"
    );
    assert_eq!(
        viewer_title_for(Some("todo"), Some(30), &todos, &pads),
        "Todo #30 - fixup pane titles"
    );
    // Unknown id: still useful, just no name.
    assert_eq!(
        viewer_title_for(Some("todo"), Some(99), &todos, &pads),
        "Todo #99"
    );
    assert_eq!(
        viewer_title_for(Some("note"), Some(5), &todos, &pads),
        "Note #5 - design notes"
    );
    assert_eq!(
        viewer_title_for(Some("todo-list"), None, &todos, &pads),
        "Todos"
    );
    assert_eq!(
        viewer_title_for(Some("note-list"), None, &todos, &pads),
        "Notes"
    );
    assert_eq!(
        viewer_title_for(Some("new-todo"), None, &todos, &pads),
        "New todo"
    );
    assert_eq!(
        viewer_title_for(Some("new-note"), None, &todos, &pads),
        "New note"
    );
    // Unknown kind: do not invent a name, just label generically.
    assert_eq!(
        viewer_title_for(Some("rumor"), None, &todos, &pads),
        "Viewer"
    );
}

#[test]
fn kind_prefixed_title_avoids_doubling_the_kind_word() {
    // Default ad-hoc agent label already names itself "Agent N" - the
    // prefix would duplicate, so use the label verbatim.
    assert_eq!(kind_prefixed_title("Agent", "Agent 1"), "Agent 1");
    // User-named: the prefix carries the kind, so the user sees both.
    assert_eq!(
        kind_prefixed_title("Agent", "panopt-bot"),
        "Agent: panopt-bot"
    );
    // Process-row labels from `panopt process add` typically lack the
    // kind word, so the prefix is what makes the role legible.
    assert_eq!(
        kind_prefixed_title("Command", "just check"),
        "Command: just check"
    );
    // Case-insensitive match so user typing `agent foo` still gets
    // collapsed onto the canonical "Agent foo".
    assert_eq!(kind_prefixed_title("Agent", "agent foo"), "agent foo");
}

#[test]
fn mode_hotkey_mapping_is_consistent() {
    // `from_hotkey` and `hotkey_hint` are inverses, and `slug` round-trips
    // through `parse` - the focus pipe relies on both to reach exactly the
    // target instance.
    for (digit, mode) in [
        ('1', Mode::Todos),
        ('2', Mode::Agents),
        ('3', Mode::Terminals),
        ('4', Mode::Commands),
        ('5', Mode::Notes),
    ] {
        assert_eq!(Mode::from_hotkey(digit), Some(mode));
        assert_eq!(mode.hotkey_hint(), format!("alt+{digit}"));
        assert_eq!(Mode::parse(mode.slug()), Some(mode));
    }
    assert_eq!(Mode::from_hotkey('0'), None);
    assert_eq!(Mode::from_hotkey('6'), None);
    assert_eq!(Mode::from_hotkey('a'), None);
}

#[test]
fn parse_viewer_slot_extracts_the_slot_token() {
    assert_eq!(
        parse_viewer_slot(Some("/bin/panopt _viewer --slot main --port 7600")),
        Some("main".to_string())
    );
    assert_eq!(
        parse_viewer_slot(Some("/bin/panopt _viewer --port 7600 --slot vt2")),
        Some("vt2".to_string())
    );
    assert_eq!(parse_viewer_slot(Some("/bin/zsh -l")), None);
    assert_eq!(parse_viewer_slot(None), None);
}

#[test]
fn agent_labels_parser_tolerates_malformed_input() {
    assert!(parse_agent_labels("").is_empty());
    assert!(parse_agent_labels("not json").is_empty());
    assert!(parse_agent_labels("{}").is_empty());
}

#[test]
fn todo_filter_wire_codes_round_trip() {
    for f in ALL_TODO_FILTERS {
        assert_eq!(TodoFilter::from_wire(f.to_wire()), Some(f));
    }
    // An out-of-range code from a newer writer decodes to None so the
    // reader can fall back to a default rather than panicking.
    assert_eq!(TodoFilter::from_wire(200), None);
}

#[test]
fn todo_sort_wire_codes_round_trip() {
    for s in ALL_TODO_SORTS {
        assert_eq!(TodoSort::from_wire(s.to_wire()), Some(s));
    }
    assert_eq!(TodoSort::from_wire(200), None);
}

#[test]
fn view_field_reads_each_key_and_tolerates_absence() {
    let body = r#"{"cursor":4,"scroll":2,"filter":3,"sort1":1,"sort2":0,"help":1,"seq":17}"#;
    assert_eq!(view_field(body, "cursor"), Some(4));
    assert_eq!(view_field(body, "scroll"), Some(2));
    assert_eq!(view_field(body, "filter"), Some(3));
    assert_eq!(view_field(body, "seq"), Some(17));
    assert_eq!(view_field(body, "help"), Some(1));
    // Absent key and total garbage both yield None.
    assert_eq!(view_field(body, "missing"), None);
    assert_eq!(view_field("not json", "seq"), None);
    assert_eq!(view_field("", "seq"), None);
}

#[test]
fn agent_labels_roundtrip_through_the_projection_format() {
    let mut input = BTreeMap::new();
    input.insert(4u32, "Mediator".to_string());
    input.insert(9u32, "Edge \"case\" with, commas".to_string());
    let mut body = String::from("{");
    for (i, (tid, label)) in input.iter().enumerate() {
        if i > 0 {
            body.push(',');
        }
        let safe = label.replace('\\', "\\\\").replace('"', "\\\"");
        body.push_str(&format!("\"{tid}\":\"{safe}\""));
    }
    body.push('}');
    let parsed: BTreeMap<u32, String> = parse_agent_labels(&body).into_iter().collect();
    assert_eq!(parsed, input);
}

#[test]
fn a_title_with_dashes_is_found_again() {
    let (id, label) = parse_index_line("- [ ] [#4](todos/4.md) a - b -c - open, high").unwrap();
    assert_eq!(lookup_title(&[(id, label)], 4).as_deref(), Some("a - b -c"));
    let (id, label) =
        parse_index_line("- [#5](note/5.md)  x - y  - updated 2026-05-27 07:00:00").unwrap();
    assert_eq!(lookup_title(&[(id, label)], 5).as_deref(), Some("x - y"));
}

#[test]
fn the_live_region_skips_blank_lines() {
    let view = |lines: &[&str]| -> Vec<String> { lines.iter().map(|l| l.to_string()).collect() };
    assert_eq!(viewport_live_region(&view(&["a", "", "b", ""])), "a\nb");
    assert_eq!(viewport_live_region(&view(&["  ", " a ", "\t"])), " a ");
    // Blank lines take none of the places.
    let mut lines: Vec<String> = Vec::new();
    for i in 0..20 {
        lines.push(format!("l{i}"));
        lines.push(String::new());
    }
    assert_eq!(
        viewport_live_region(&lines),
        "l8\nl9\nl10\nl11\nl12\nl13\nl14\nl15\nl16\nl17\nl18\nl19"
    );
}
