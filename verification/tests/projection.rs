use panopt::model::{
    Agent, AgentTool, KeySource, Lock, Note, Priority, Process, ProcessKind, Scratchpad, Todo,
    TodoComment, TodoStatus,
};
use panopt::modes::{parse_priority_suffix, parse_status_suffix};
use panopt::projected::{
    bootstrap_dirs, bootstrap_files, bootstrap_removed, project_note, project_todos, stale_files,
    ProjectedFile,
};
use panopt::projection::{
    render_agent_tools_md, render_agents_md, render_locks_md, render_note_md,
    render_notes_index_md, render_process_board_md, render_processes_md, render_roster_md,
    render_scratchpad_md, render_scratchpads_index_md, render_todo_md, render_todos_index_md,
};
use panopt::rows::{parse_config_line, parse_index_line, parse_process_line};

fn paths(files: &[ProjectedFile]) -> Vec<&str> {
    files.iter().map(|f| f.path.as_str()).collect()
}

/// A todo with the given identity and otherwise-default fields.
fn todo(id: u64, title: &str, status: TodoStatus) -> Todo {
    Todo {
        id,
        title: title.into(),
        status,
        ..Default::default()
    }
}

#[test]
fn empty_todo_index_renders_placeholder() {
    assert_eq!(render_todos_index_md(&vec![]), "# Todos\n\n_(no todos)_\n");
}

#[test]
fn todo_index_links_each_todo() {
    let todos = vec![
        todo(1, "wire up auth", TodoStatus::Open),
        todo(2, "write readme", TodoStatus::Completed),
    ];
    assert_eq!(
        render_todos_index_md(&todos),
        "# Todos\n\n\
         - [ ] [#1](todos/1.md) wire up auth - open, medium\n\
         - [x] [#2](todos/2.md) write readme - completed, medium\n"
    );
}

#[test]
fn todo_file_has_frontmatter_and_body() {
    let t = Todo {
        id: 3,
        title: "wire spawn_agent".into(),
        body: "Pipe the request to the cockpit plugin.".into(),
        status: TodoStatus::InProgress,
        priority: Priority::High,
        assignee: "coder-a1f".into(),
        tags: vec!["launcher".into(), "mcp".into()],
        blockers: vec![1, 2],
        comments: vec![TodoComment {
            id: 1,
            author: "coder-a1f".into(),
            body: "looking into this".into(),
            created_at: "2026-05-21 11:00:00".into(),
        }],
        created_at: "2026-05-21 10:00:00".into(),
        updated_at: "2026-05-21 11:00:00".into(),
        completed_at: None,
    };
    assert_eq!(
        render_todo_md(&t),
        "---\n\
         status: in_progress\n\
         priority: high\n\
         assignee: coder-a1f\n\
         tags: launcher, mcp\n\
         blockers: 1, 2\n\
         created: 2026-05-21 10:00:00\n\
         updated: 2026-05-21 11:00:00\n\
         ---\n\n\
         # wire spawn_agent\n\n\
         Pipe the request to the cockpit plugin.\n\n\
         ## Comments\n\n\
         **coder-a1f** - 2026-05-21 11:00:00\n\n\
         looking into this\n"
    );
}

#[test]
fn completed_todo_file_carries_completed_line() {
    let mut t = todo(1, "done thing", TodoStatus::Completed);
    t.completed_at = Some("2026-05-21 12:00:00".into());
    assert!(render_todo_md(&t).contains("completed: 2026-05-21 12:00:00\n"));
}

#[test]
fn scratchpad_renders_frontmatter_title_then_body() {
    let pad = Scratchpad {
        id: 3,
        title: "notes".into(),
        body: "line one".into(),
        tags: vec![],
        created_at: "2026-05-23 18:05:00".into(),
        updated_at: "2026-05-23 18:05:21".into(),
    };
    assert_eq!(
        render_scratchpad_md(&pad),
        "---\n\
         created: 2026-05-23 18:05:00\n\
         updated: 2026-05-23 18:05:21\n\
         ---\n\
         \n\
         # notes\n\
         \n\
         line one\n",
    );
}

#[test]
fn empty_agent_roster_renders_placeholder() {
    assert_eq!(
        render_agents_md(&vec![]),
        "# Agents\n\n_(no agents connected)_\n"
    );
    let a = Agent {
        key: "k1".into(),
        name: "alpha".into(),
        status: "working".into(),
        key_source: KeySource::Session,
        first_seen: 0,
        last_seen: 60_000_000_000,
    };
    assert_eq!(
        render_roster_md(&vec![a], 239_999_999_999),
        "# Agents\n\n- alpha - working (idle 2m)\n"
    );
}

#[test]
fn agents_render_with_and_without_status() {
    let now = 1_000;
    let agents = vec![
        Agent {
            key: "k1".into(),
            name: "alpha".into(),
            status: "working".into(),
            key_source: KeySource::Session,
            first_seen: now,
            last_seen: now,
        },
        Agent {
            key: "k2".into(),
            name: "beta".into(),
            status: String::new(),
            key_source: KeySource::Session,
            first_seen: now,
            last_seen: now,
        },
    ];
    assert_eq!(
        render_agents_md(&agents),
        "# Agents\n\n- alpha - working\n- beta\n"
    );
}

#[test]
fn empty_lock_table_renders_placeholder() {
    assert_eq!(render_locks_md(&vec![]), "# Locks\n\n_(no locks held)_\n");
}

#[test]
fn locks_render_with_and_without_a_note() {
    let now = 1_000;
    let locks = vec![
        Lock {
            name: "auth".into(),
            holder_key: "k1".into(),
            holder_name: "backend".into(),
            note: "token work".into(),
            acquired_at: now,
        },
        Lock {
            name: "deploy".into(),
            holder_key: "k2".into(),
            holder_name: "frontend".into(),
            note: String::new(),
            acquired_at: now,
        },
    ];
    assert_eq!(
        render_locks_md(&locks),
        "# Locks\n\n- `auth` - held by backend - token work\n- `deploy` - held by frontend\n"
    );
}

#[test]
fn empty_scratchpads_index_renders_placeholder() {
    assert_eq!(
        render_scratchpads_index_md(&vec![]),
        "# Scratchpads\n\n_(no scratchpads)_\n"
    );
}

#[test]
fn scratchpads_index_links_each_pad() {
    let pads = vec![
        (
            1,
            "design notes".to_string(),
            "2026-05-23 18:05:21".to_string(),
        ),
        (2, "scratch".to_string(), "2026-05-23 18:06:00".to_string()),
    ];
    assert_eq!(
        render_scratchpads_index_md(&pads),
        "# Scratchpads\n\n\
         - [#1](scratchpad/1.md) design notes - updated 2026-05-23 18:05:21\n\
         - [#2](scratchpad/2.md) scratch - updated 2026-05-23 18:06:00\n"
    );
}

#[test]
fn empty_agent_tools_renders_placeholder() {
    assert_eq!(
        render_agent_tools_md(&vec![]),
        "# Agent tools\n\n_(no agent tools)_\n"
    );
}

#[test]
fn agent_tools_render_with_label_enabled_flag_and_command() {
    let tools = vec![
        AgentTool {
            id: 1,
            name: "coder".into(),
            display_name: "Mediator".into(),
            command: "coder --model sonnet".into(),
            tool_type: "agent".into(),
            enabled: true,
            ..Default::default()
        },
        AgentTool {
            id: 2,
            name: "scratch".into(),
            tool_type: "agent".into(),
            enabled: false,
            ..Default::default()
        },
    ];
    assert_eq!(
        render_agent_tools_md(&tools),
        "# Agent tools\n\n\
         - #1 Mediator [enabled] coder --model sonnet\n\
         - #2 scratch [disabled]\n"
    );
}

#[test]
fn empty_processes_renders_placeholder() {
    assert_eq!(
        render_processes_md(&vec![]),
        "# Processes\n\n_(no processes)_\n"
    );
}

#[test]
fn processes_render_with_kind_id_label_and_optional_tool_ref() {
    let processes = vec![
        Process {
            id: 1,
            kind: ProcessKind::Agent,
            name: "coder-a".into(),
            display_name: "Mediator".into(),
            agent_tool_id: Some(7),
            ..Default::default()
        },
        Process {
            id: 2,
            kind: ProcessKind::Command,
            name: "Run server".into(),
            ..Default::default()
        },
    ];
    assert_eq!(
        render_processes_md(&processes),
        "# Processes\n\n\
         - [agent] #1 Mediator (from #7)\n\
         - [command] #2 Run server\n"
    );
}

#[test]
fn project_todos_writes_index_and_per_todo_files() {
    let todos = vec![
        todo(1, "first", TodoStatus::Open),
        todo(2, "second", TodoStatus::Open),
    ];
    let files = project_todos(&todos);
    assert_eq!(
        paths(&files),
        vec![
            ".panopt/todos.md",
            ".panopt/todos/1.md",
            ".panopt/todos/2.md"
        ]
    );
    assert_eq!(files[0].contents, render_todos_index_md(&todos));
    assert_eq!(files[2].contents, render_todo_md(&todos[1]));
}

#[test]
fn project_todos_sweeps_deleted_per_todo_files() {
    // Todo 2 is gone on the next projection; its file must be swept.
    let names = vec!["1.md".to_string(), "2.md".to_string()];
    assert_eq!(stale_files(&names, &vec![1]), vec!["2.md".to_string()]);
}

#[test]
fn only_numbered_files_are_swept() {
    let names: Vec<String> = ["1.md", "notes.md", "3.txt", "4", "+5.md", "007.md", ".md"]
        .iter()
        .map(|s| s.to_string())
        .collect();
    assert_eq!(
        stale_files(&names, &vec![7]),
        vec!["1.md".to_string(), "+5.md".to_string()]
    );
}

#[test]
fn bootstrap_creates_tree_and_gitignore() {
    let dirs = bootstrap_dirs();
    let files = bootstrap_files();
    let contents = |path: &str| {
        files
            .iter()
            .find(|f| f.path == path)
            .map(|f| f.contents.as_str())
    };

    assert!(dirs.contains(&".panopt/scratchpad"));
    assert!(dirs.contains(&".panopt/todos"));
    assert_eq!(contents(".panopt/.gitignore"), Some("*\n"));
    assert!(contents(".panopt/todos.md").is_some());
    assert!(contents(".panopt/scratchpads.md").is_some());
    assert!(contents(".panopt/agent_tools.md").is_some());
    assert!(contents(".panopt/processes.md").is_some());
    assert!(contents(".panopt/agents.md").is_some());
    assert!(contents(".panopt/locks.md").is_some());
}

#[test]
fn bootstrap_removes_a_stale_pre_v6_roster_md() {
    assert!(
        bootstrap_removed().contains(&".panopt/roster.md"),
        "bootstrap must drop the pre-V6 roster.md"
    );
    let files = bootstrap_files();
    let paths = paths(&files);
    assert!(!paths.contains(&".panopt/roster.md"));
    assert!(paths.contains(&".panopt/agent_tools.md"));
    assert!(paths.contains(&".panopt/processes.md"));
}

#[test]
fn a_new_tree_shows_empty_lists() {
    assert_eq!(
        bootstrap_dirs(),
        vec![
            ".panopt",
            ".panopt/scratchpad",
            ".panopt/todos",
            ".panopt/note"
        ]
    );
    let shown: Vec<(String, String)> = bootstrap_files()
        .into_iter()
        .map(|f| (f.path, f.contents))
        .collect();
    let expected: Vec<(String, String)> = [
        (".panopt/.gitignore", "*\n"),
        (".panopt/todos.md", "# Todos\n\n_(no todos)_\n"),
        (
            ".panopt/scratchpads.md",
            "# Scratchpads\n\n_(no scratchpads)_\n",
        ),
        (".panopt/notes.md", "# Notes\n\n_(no notes)_\n"),
        (
            ".panopt/agent_tools.md",
            "# Agent tools\n\n_(no agent tools)_\n",
        ),
        (
            ".panopt/processes.md",
            "# Processes\n\n_(no processes)_\n",
        ),
        (".panopt/agents.md", "# Agents\n\n_(no agents connected)_\n"),
        (".panopt/locks.md", "# Locks\n\n_(no locks held)_\n"),
    ]
    .iter()
    .map(|(p, c)| (p.to_string(), c.to_string()))
    .collect();
    assert_eq!(shown, expected);
}

#[test]
fn a_note_file_names_its_tags() {
    let note = Note {
        id: 4,
        title: "design".into(),
        body: "one".into(),
        tags: vec!["a".into(), "b".into()],
        created_at: "2026-05-23 18:05:00".into(),
        updated_at: "2026-05-23 18:05:21".into(),
    };
    let f = project_note(&note);
    assert_eq!(f.path, ".panopt/note/4.md");
    assert_eq!(f.contents, render_note_md(&note));
    assert!(f.contents.contains("tags: a, b\n"));
}

#[test]
fn index_lines_are_read_back() {
    let body = render_todos_index_md(&vec![todo(12, "wire (up) [auth] - now", TodoStatus::Draft)]);
    let rows: Vec<(u64, String)> = body.lines().filter_map(parse_index_line).collect();
    assert_eq!(
        rows,
        vec![(12, "wire (up) [auth] - now - draft, medium".to_string())]
    );
    let notes = render_notes_index_md(&vec![(7, "design".into(), "2026-05-23 18:05:21".into())]);
    assert_eq!(
        notes,
        "# Notes\n\n- [#7](note/7.md) design - updated 2026-05-23 18:05:21\n"
    );
    let rows: Vec<(u64, String)> = notes.lines().filter_map(parse_index_line).collect();
    assert_eq!(
        rows,
        vec![(7, "design - updated 2026-05-23 18:05:21".to_string())]
    );
}

#[test]
fn tool_lines_are_read_back() {
    let body = render_agent_tools_md(&vec![AgentTool {
        id: 9,
        name: "x".into(),
        display_name: "My [tool]".into(),
        command: "run it".into(),
        enabled: true,
        ..Default::default()
    }]);
    // A label with ` [` of its own is cut there.
    let row = body.lines().filter_map(parse_config_line).next().unwrap();
    assert_eq!((row.id, row.label.as_str(), row.enabled), (9, "My", false));
    let body = render_agent_tools_md(&vec![AgentTool {
        id: 9,
        name: "x".into(),
        command: "run [it]".into(),
        enabled: true,
        ..Default::default()
    }]);
    let row = body.lines().filter_map(parse_config_line).next().unwrap();
    assert_eq!((row.id, row.label.as_str(), row.enabled), (9, "x", true));
}

#[test]
fn process_lines_are_read_back() {
    let p = Process {
        id: 31,
        kind: ProcessKind::Agent,
        name: "worker-31".into(),
        display_name: "Worker (from #2)".into(),
        agent_tool_id: Some(7),
        status: Some("running".into()),
        agent_state: Some("idle".into()),
        state_since: Some(100),
        ..Default::default()
    };
    let body = render_process_board_md(&vec![p], &vec![(7, "coder-cli".into())], 100 + 185);
    assert_eq!(
        body,
        "# Processes\n\n- [agent] #31 Worker (from #2) (from #7) · running · type:coder-cli · \
         agent:worker-31 · state:idle · idle:3m\n"
    );
    let row = body.lines().filter_map(parse_process_line).next().unwrap();
    assert_eq!(row.kind, "agent");
    assert_eq!(row.id, 31);
    assert_eq!(row.label, "Worker (from #2)");
    assert_eq!(row.status.as_deref(), Some("running"));
    assert_eq!(row.tool_type.as_deref(), Some("coder-cli"));
    assert_eq!(row.agent_id.as_deref(), Some("worker-31"));
    assert_eq!(row.agent_state.as_deref(), Some("idle"));
    assert_eq!(row.agent_tool_id, Some(7));
    assert_eq!(row.idle.as_deref(), Some("3m"));
}

#[test]
fn the_roster_shows_who_was_seen_when() {
    assert_eq!(
        render_roster_md(&vec![], 0),
        "# Agents\n\n_(no agents connected)_\n"
    );
    let a = Agent {
        key: "k1".into(),
        name: "alpha".into(),
        status: "working".into(),
        key_source: KeySource::Session,
        first_seen: 0,
        last_seen: 60_000_000_000,
    };
    assert_eq!(
        render_roster_md(&vec![a], 239_999_999_999),
        "# Agents\n\n- alpha - working (idle 2m)\n"
    );
}

#[test]
fn the_label_of_a_todo_tells_its_status_and_priority() {
    for title in ["", "  ", "a - b", "[#9] x - open, low", " - ", "wire - completed"] {
        let body = render_todos_index_md(&vec![todo(75, title, TodoStatus::NotDone)]);
        let (id, label) = body.lines().filter_map(parse_index_line).next().unwrap();
        assert_eq!(id, 75);
        assert_eq!(label, format!("{title} - not_done, medium").trim());
        assert_eq!(parse_status_suffix(&label), Some("not_done"));
        assert_eq!(parse_priority_suffix(&label), Some("medium"));
    }
}

#[test]
fn plain_process_lines_are_read_back() {
    let body = render_processes_md(&vec![
        Process {
            id: 4,
            kind: ProcessKind::Command,
            name: "build".into(),
            status: Some("exited".into()),
            agent_tool_id: Some(2),
            ..Default::default()
        },
        Process {
            id: 5,
            kind: ProcessKind::Terminal,
            ..Default::default()
        },
    ]);
    let rows: Vec<(String, u64, String, Option<u64>)> = body
        .lines()
        .filter_map(parse_process_line)
        .map(|r| {
            assert_eq!((r.status, r.agent_state, r.agent_id, r.tool_type, r.idle), (None, None, None, None, None));
            (r.kind, r.id, r.label, r.agent_tool_id)
        })
        .collect();
    assert_eq!(
        rows,
        vec![
            ("command".to_string(), 4, "build".to_string(), Some(2)),
            ("terminal".to_string(), 5, "(unnamed)".to_string(), None),
        ]
    );
    for line in ["# Agent tools", "_(no agent tools)_", "", "# Processes"] {
        assert!(parse_config_line(line).is_none());
        assert!(parse_process_line(line).is_none());
        assert!(parse_index_line(line).is_none());
    }
}
