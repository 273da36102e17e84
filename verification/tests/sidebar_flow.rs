use panopt::host::{
    Action, BareKey, Document, Event, Key, Mouse, PaneId, PaneInfo, PaneManifest, Purpose,
};
use panopt::model::TodoStatus;
use panopt::modes::{Mode, TodoFilter, TodoSort};
use panopt::rows::{parse_config_line, parse_process_line};
use panopt::sidebar::{ItemTarget, PanoptPane, Refusal};
use panopt::sidebar_draw::{paint, Style};
use panopt::sidebar_events::Settings;
use panopt::sidebar_reload::Projected;

fn pane(id: u32, command: &str) -> PaneInfo {
    PaneInfo {
        id,
        is_selectable: true,
        terminal_command: Some(command.to_string()),
        ..Default::default()
    }
}

/// A pane of the sidebar that was loaded and permitted.
fn sidebar(mode: &str) -> PanoptPane {
    let mut s = PanoptPane::blank(Mode::Todos);
    s.load(
        &Settings {
            mode: Some(mode),
            ws: Some("/work/proj"),
            panopt_bin: Some("/bin/panopt"),
            port: Some("7600"),
            idle_bell: None,
        },
        1,
    );
    s.update(Event::Permission(true));
    s.last_rows = 10;
    s
}

fn ingest(s: &mut PanoptPane, panes: Vec<PaneInfo>) {
    s.update(Event::Panes(PaneManifest {
        tabs: vec![(0, panes)],
    }));
}

fn busy(id: u32) -> Vec<(PaneId, Vec<String>)> {
    vec![(PaneId::Terminal(id), vec!["/usr/bin/coder".to_string()])]
}

fn key(bare: BareKey) -> Event {
    Event::Key(Key { bare, alt: false })
}

#[test]
fn lines_are_painted_after_they_are_cut() {
    assert_eq!(paint("hello", 3, Style::Normal, None, false), "hel");
    assert_eq!(
        paint("hello", 9, Style::Dim, None, false),
        "\u{1b}[2mhello\u{1b}[0m"
    );
    assert_eq!(
        paint("héllo", 2, Style::Normal, Some(214), true),
        "\u{1b}[7;38;5;214mhé\u{1b}[0m"
    );
}

#[test]
fn reloading_lists_the_todos_that_are_not_done() {
    let mut s = sidebar("todos");
    s.refresh(&Projected {
        todos: Some(
            "# Todos\n\n- [ ] [#1](todos/1.md) a - open, low\n- [x] [#2](todos/2.md) b - completed, high\n- [ ] [#3](todos/3.md) c - open, high\n",
        ),
        notes: None,
        processes: None,
        configs: None,
        labels: None,
        agent_types: None,
        view: None,
    });
    let targets: Vec<ItemTarget> = s.items.iter().map(|i| i.target).collect();
    // The urgent one comes first.
    assert_eq!(targets, vec![ItemTarget::Todo(3), ItemTarget::Todo(1)]);
    s.cycle_todo_filter(true);
    assert_ne!(s.todo_filter, TodoFilter::Active);
    s.cycle_todo_filter(false);
    assert_eq!(s.todo_filter, TodoFilter::Active);
}

#[test]
fn only_the_todos_have_a_filter_and_two_sort_levels() {
    let mut s = sidebar("todos");
    s.cursor = 3;
    let (first, second) = (s.todo_sort_1, s.todo_sort_2);
    assert!(s.cycle_todo_sort(3, true).is_empty());
    assert_eq!((s.todo_sort_1, s.todo_sort_2, s.cursor), (first, second, 3));
    assert_eq!(s.cycle_todo_sort(1, true).len(), 1);
    assert_ne!(s.todo_sort_1, first);
    assert_eq!((s.todo_sort_2, s.cursor), (second, 0));
    s.cycle_todo_sort(1, false);
    assert_eq!(s.todo_sort_1, first);

    let mut notes = sidebar("notes");
    assert!(notes.cycle_todo_filter(true).is_empty());
    assert!(notes.cycle_todo_sort(1, true).is_empty());
    assert_eq!(notes.todo_filter, TodoFilter::Active);
}

#[test]
fn the_view_that_a_pane_published_is_not_adopted_again() {
    let two = |s: &mut PanoptPane| {
        s.notes = vec![(1, "a".into()), (2, "b".into())];
        s.rebuild_items();
    };
    let mut s = sidebar("notes");
    two(&mut s);
    let (_, acts) = s.update(key(BareKey::Down));
    let body = acts
        .iter()
        .find_map(|a| match a {
            Action::WriteView(b) => Some(b.clone()),
            _ => None,
        })
        .unwrap();
    assert_eq!(s.cursor, 1);
    s.cursor = 0;
    s.sync_view(Some(&body));
    assert_eq!(s.cursor, 0);
    // Another pane of the same kind adopts it.
    let mut other = sidebar("notes");
    two(&mut other);
    other.sync_view(Some(&body));
    assert_eq!(other.cursor, 1);
}

#[test]
fn the_last_content_pane_is_kept() {
    let mut s = sidebar("todos");
    ingest(&mut s, vec![pane(3, "/bin/panopt _viewer --slot main --port 7600")]);
    let acts = s.gate_close_focus(&vec![]);
    assert_eq!(s.last_gate_refusal, Some(Refusal::CloseLastContent));
    assert!(!acts.iter().any(|a| matches!(a, Action::Close(_))));
}

#[test]
fn a_pane_without_work_is_closed_and_one_with_work_is_asked_about() {
    let mut s = sidebar("todos");
    ingest(
        &mut s,
        vec![
            pane(3, "/bin/panopt _viewer --slot main --port 7600"),
            pane(9, "/bin/panopt _agent --id a"),
        ],
    );
    s.sidebar_focused = false;
    s.slot_pane = Some(PaneId::Terminal(3));
    let acts = s.gate_close_focus(&vec![]);
    assert!(matches!(
        acts.as_slice(),
        [Action::Close(PaneId::Terminal(3))]
    ));
    s.slot_pane = Some(PaneId::Terminal(9));
    // A shell at its prompt is no work.
    let shell = vec![(PaneId::Terminal(9), vec!["/bin/zsh".to_string()])];
    assert!(matches!(
        s.gate_close_focus(&shell).as_slice(),
        [Action::Close(PaneId::Terminal(9))]
    ));
    let acts = s.gate_close_focus(&busy(9));
    assert!(acts.iter().any(|a| matches!(a, Action::OpenFloating(args)
        if args[0] == "_close-gate" && args.contains(&"focus".to_string()))));
    assert!(!acts.iter().any(|a| matches!(a, Action::Close(_))));
}

#[test]
fn quitting_is_asked_about_while_agents_run() {
    let mut s = sidebar("todos");
    assert!(matches!(s.gate_quit(&vec![]).as_slice(), [Action::Quit]));
    ingest(&mut s, vec![pane(9, "/bin/panopt _agent --id a")]);
    let acts = s.gate_quit(&busy(9));
    assert!(!acts.iter().any(|a| matches!(a, Action::Quit)));
    // A yes quits, anything else does not.
    assert!(matches!(
        s.handle_gate_decision(Some("decision=close;scope=quit")).last(),
        Some(Action::Quit)
    ));
    assert!(s
        .handle_gate_decision(Some("decision=cancel;scope=quit"))
        .is_empty());
    assert!(s.handle_gate_decision(None).is_empty());
}

#[test]
fn only_the_gatekeeper_takes_requests() {
    let mut s = sidebar("agents");
    let (dirty, acts) = s.pipe("panopt:quit-request", None, &vec![]);
    assert!(!dirty && acts.is_empty());
    let mut s = sidebar("todos");
    let (dirty, acts) = s.pipe("panopt:quit-request", None, &vec![]);
    assert!(dirty);
    assert!(matches!(acts.as_slice(), [Action::Quit]));
    let (_, acts) = s.pipe("panopt:copy-to-clipboard", Some("text"), &vec![]);
    assert!(matches!(acts.as_slice(), [Action::Copy(t)] if t == "text"));
    let (dirty, acts) = s.pipe("panopt:unheard-of", None, &vec![]);
    assert!(!dirty && acts.is_empty());
}

#[test]
fn a_process_is_started_once() {
    let mut s = sidebar("todos");
    s.processes = vec![
        parse_process_line("- [agent] #4 W (from #3) · starting").unwrap(),
        parse_process_line("- [agent] #5 V (from #3) · running").unwrap(),
    ];
    assert_eq!(s.starting_processes(), vec![4]);
    let acts = s.start_process(4);
    assert!(matches!(
        acts.as_slice(),
        [Action::Spawn { args, focus: false, purpose: Purpose::Starting(4), .. }]
            if args == &vec!["_process-run", "--port", "7600", "4"]
    ));
    s.spawned(Purpose::Starting(4), false, Some(PaneId::Terminal(12)));
    assert!(s.start_process(4).is_empty());
    // Its pane is covered, and never closed, when its row is gone.
    s.processes = vec![];
    assert!(s.reconcile_disposed_processes().is_empty(), "not seen yet");
    ingest(&mut s, vec![pane(12, "/bin/panopt _process-run --port 7600 4")]);
    let acts = s.reconcile_disposed_processes();
    assert!(matches!(
        acts.as_slice(),
        [
            Action::Route {
                document: Document::Empty,
                ..
            },
            Action::Cover {
                target: PaneId::Terminal(12),
                ..
            }
        ]
    ));
    assert!(s.disposed_reconciled_panes().is_empty());
}

#[test]
fn what_an_agent_does_is_reported_when_it_changes() {
    let mut s = sidebar("todos");
    s.idle_bell = true;
    s.reload_status_matchers(Some("## t\nthinking = esc to interrupt\n"));
    s.processes = vec![parse_process_line(
        "- [agent] #5 V (from #3) · running · type:t · agent:v-5",
    )
    .unwrap()];
    ingest(&mut s, vec![pane(9, "/bin/panopt _agent --id v-5")]);
    let seen = s.observable_agents();
    assert_eq!(seen.len(), 1);
    let busy = vec!["esc to interrupt".to_string()];
    let acts = s.observe_agent(&seen[0], &busy);
    assert!(matches!(&acts[0], Action::SaveOutput(5, t) if t == "esc to interrupt"));
    assert!(matches!(&acts[1], Action::Run(args) if args.contains(&"thinking".to_string())));
    assert_eq!(s.observe_agent(&seen[0], &busy).len(), 1);
    assert!(!s.pending_bell);
    let acts = s.observe_agent(&seen[0], &vec!["> ".to_string()]);
    assert_eq!(acts.len(), 2);
    assert!(s.pending_bell, "falling idle rings");
}

#[test]
fn input_is_typed_once_and_entered_a_round_later() {
    let mut s = sidebar("todos");
    s.processes = vec![parse_process_line(
        "- [agent] #5 V (from #3) · running · type:t · agent:v-5",
    )
    .unwrap()];
    ingest(&mut s, vec![pane(9, "/bin/panopt _agent --id v-5")]);
    let body = "{\"seq\":3,\"process_id\":5,\"content\":\"go\\n\"}\n";
    let acts = s.deliver_pending_inputs(Some(body));
    assert!(matches!(&acts[0], Action::Type(PaneId::Terminal(9), t) if t == "go"));
    assert!(matches!(&acts[1], Action::Run(args) if args.contains(&"3".to_string())));
    assert_eq!(acts.len(), 2);
    let acts = s.deliver_pending_inputs(Some(body));
    assert!(matches!(
        acts.as_slice(),
        [Action::Type(PaneId::Terminal(9), t)] if t == "\r"
    ));
    assert!(s.deliver_pending_inputs(Some(body)).is_empty());
}

#[test]
fn configs_show_what_their_instance_does() {
    let mut s = sidebar("agents");
    s.configs = vec![parse_config_line("- #7 Mediator [enabled] run").unwrap()];
    s.processes =
        vec![parse_process_line("- [agent] #9 Mediator #9 (from #7) · running · state:waiting")
            .unwrap()];
    s.rebuild_items();
    assert_eq!(s.items[0].label, "#7 Mediator · waiting");
    assert_eq!(s.items[0].target, ItemTarget::Config(7));
}

#[test]
fn keys_move_and_help_is_dismissed_by_any_key() {
    let mut s = sidebar("notes");
    s.notes = vec![(1, "a".into()), (2, "b".into())];
    s.rebuild_items();
    s.update(key(BareKey::Down));
    assert_eq!(s.cursor, 1);
    s.update(key(BareKey::Home));
    assert_eq!(s.cursor, 0);
    s.update(key(BareKey::Char('?')));
    assert!(s.show_help);
    assert!(!s.help_lines().is_empty());
    s.update(key(BareKey::Down));
    assert!(!s.show_help);
    assert_eq!(s.cursor, 0);
    s.update(Event::Mouse(Mouse::ScrollDown));
    assert_eq!(s.cursor, 1);
    let (taken, _) = s.handle_mouse(Mouse::LeftClick(7));
    assert!(!taken, "below the items");
}

#[test]
fn opening_a_note_routes_the_viewer_that_is_there() {
    let mut s = sidebar("notes");
    ingest(&mut s, vec![pane(3, "/bin/panopt _viewer --slot main --port 7600")]);
    let acts = s.open_document(Document::Note(4), false);
    assert!(acts.iter().any(|a| matches!(a,
        Action::Route { viewer, document: Document::Note(4) } if viewer == "main")));
}

#[test]
fn viewer_slot_carries_mode_letter() {
    let mut todos = sidebar("todos");
    let mut notes = sidebar("notes");
    let a = todos.allocate_viewer_slot();
    let b = notes.allocate_viewer_slot();
    // Two panes both allocating their first slot - the mode letter is
    // what stops them from colliding on the same `v1`.
    assert_ne!(a, b);
    assert!(a.contains('t'));
    assert!(b.contains('n'));
}

#[test]
fn the_title_of_a_new_size_shows_the_window_before_it_is_fitted() {
    let mut s = sidebar("notes");
    s.notes = (1..=20).map(|n| (n, format!("n{n}"))).collect();
    s.rebuild_items();
    s.render(5, 80);
    s.cursor = 19;
    s.scroll = 15;
    let (acts, _) = s.render(10, 80);
    assert!(matches!(&acts[..], [Action::RenamePlugin(1, t)] if t.ends_with(" (16-20/20)")));
    assert_eq!(s.scroll, 10);
    // The next one is drawn with the fitted window.
    let (acts, _) = s.render(10, 80);
    assert!(matches!(&acts[..], [Action::RenamePlugin(1, t)] if t.ends_with(" (11-20/20)")));
    let (acts, _) = s.render(10, 80);
    assert!(acts.is_empty());
}

#[test]
fn todos_tied_on_both_axes_keep_the_order_of_the_file() {
    let mut s = sidebar("todos");
    s.todo_sort_1 = TodoSort::PriorityDesc;
    s.todo_sort_2 = TodoSort::PriorityDesc;
    s.todos = vec![
        (9, "a - open, low".into()),
        (4, "b - open, high".into()),
        (7, "c - open, low".into()),
        (2, "d - open, high".into()),
    ];
    s.rebuild_items();
    let ids: Vec<u64> = s
        .items
        .iter()
        .map(|i| match i.target {
            ItemTarget::Todo(id) => id,
            _ => 0,
        })
        .collect();
    assert_eq!(ids, vec![4, 2, 9, 7]);
}

#[test]
fn viewer_slots_carry_the_letter_of_their_pane() {
    let mut todos = sidebar("todos");
    let mut notes = sidebar("notes");
    assert_eq!(todos.allocate_viewer_slot(), "vt1");
    assert_eq!(todos.allocate_viewer_slot(), "vt2");
    assert_eq!(notes.allocate_viewer_slot(), "vn1");
}

#[test]
fn todos_stand_in_the_colour_of_their_status() {
    let mut s = sidebar("todos");
    s.todo_colors = vec![(TodoStatus::InProgress, 40), (TodoStatus::Draft, 244)];
    s.todos = vec![
        (1, "a - in_progress, high".into()),
        (2, "b - open, medium".into()),
        (3, "c - draft, low".into()),
    ];
    s.todo_filter = TodoFilter::All;
    s.rebuild_items();
    let colors: Vec<Option<u8>> = s.items.iter().map(|i| i.fg).collect();
    assert_eq!(colors, vec![Some(40), None, Some(244)]);
}
