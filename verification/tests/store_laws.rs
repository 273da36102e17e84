use panopt::error::CoreError;
use panopt::model::{KeySource, NotePatch, Priority, ProcessKind, ProjectId, TodoPatch, TodoStatus};
use panopt::profile_set::ProfileSet;
use panopt::project::Project;
use panopt::store::{InputRow, Moment, Store, Surface};
use panopt::store_agents::{ACTIVE_PRESENCE, AGENT_MAX_IDLE};
use panopt::todo_ops::{answers_lowered, assigned_lowered};

const PROFILES: &str = "[a]\ndisplay_name = \"A\"\ndefault_model = \"m1\"\ninstructions = \"{{name}} {{model}} {{ws}} {{project}}\"\n[a.spawn]\nargv = [\"a\"]\n[b]\ndisplay_name = \"B\"\n[b.spawn]\nargv = [\"b\"]\n";

fn moment(at: u64) -> Moment {
    Moment {
        text: format!("t{at}"),
        secs: at as i64,
        nanos: at * 1_000_000_000,
    }
}

fn open() -> (Store, ProjectId) {
    let profiles = ProfileSet::from_layers(PROFILES, None).unwrap();
    let mut store = Store::open(profiles, "a".into());
    let p = store.ensure_project("/w/x", Some("/w/x")).unwrap();
    store.take_pending();
    (store, p)
}

#[test]
fn lowered_texts_answer_a_query() {
    assert!(answers_lowered(4, "fix the door", "", "the", None));
    assert!(answers_lowered(4, "", "in the body", "body", None));
    assert!(answers_lowered(4, "", "", "#4", Some(4)));
    assert!(!answers_lowered(4, "door", "body", "x", Some(5)));
    assert!(assigned_lowered("ann", None));
    assert!(assigned_lowered("ann", Some("ann")));
    assert!(!assigned_lowered("ann", Some("an")));
}

fn kept_input(id: i64) -> InputRow {
    InputRow {
        id,
        project: 1,
        process_id: 1,
        content: "hi".into(),
        created_at: "t".into(),
        delivered_at: None,
    }
}

#[test]
fn sound_rows_are_taken_in() {
    let profiles = ProfileSet::from_layers(PROFILES, None).unwrap();
    let mut s = Store::open(profiles, "a".into());
    assert!(s.has_project_room());
    let mut p = Project::new(3, "/w".into(), None);
    p.todo_create("one".into(), "t1");
    assert!(p.is_sound());
    assert!(s.take_rows(vec![p], vec![kept_input(2), kept_input(8)]));
    assert_eq!(s.next_input, 9);
    assert_eq!(s.todo_get(ProjectId(3), 1).unwrap().title, "one");
    // Rows that are not sound leave the store as it is.
    assert!(!s.take_rows(vec![], vec![kept_input(8), kept_input(2)]));
    assert!(!s.take_rows(vec![], vec![kept_input(i64::MAX)]));
    let two = vec![
        Project::new(3, "/w".into(), None),
        Project::new(3, "/v".into(), None),
    ];
    assert!(!s.take_rows(two, vec![]));
    let mut p = Project::new(4, "/w".into(), None);
    p.todo_create("one".into(), "t1");
    p.next_id = 1;
    assert!(!p.is_sound());
    assert!(!s.take_rows(vec![p], vec![]));
    assert_eq!(s.todo_get(ProjectId(3), 1).unwrap().title, "one");
    assert!(s.take_rows(vec![Project::new(i64::MAX, "/w".into(), None)], vec![]));
    assert_eq!(s.next_input, 1);
    assert!(!s.has_project_room());
}

#[test]
fn what_was_created_is_read() {
    let (mut s, p) = open();
    let id = s.todo_create(p, "one".into(), &moment(5)).unwrap();
    let t = s.todo_get(p, id).unwrap();
    assert_eq!(t.title, "one");
    assert_eq!(t.status, TodoStatus::Open);
    assert_eq!(t.priority, Priority::Medium);
    assert_eq!((t.created_at.as_str(), t.updated_at.as_str()), ("t5", "t5"));
    assert_eq!(t.completed_at, None);
}

#[test]
fn an_edit_of_nothing_only_moves_the_moment() {
    let (mut s, p) = open();
    let id = s.todo_create(p, "one".into(), &moment(5)).unwrap();
    s.todo_complete(p, id, &moment(6)).unwrap();
    s.todo_update(p, id, TodoPatch::default(), &moment(9)).unwrap();
    let t = s.todo_get(p, id).unwrap();
    assert_eq!(t.title, "one");
    assert_eq!(t.status, TodoStatus::Completed);
    assert_eq!(t.completed_at.as_deref(), Some("t6"));
    assert_eq!(t.updated_at, "t9");
}

#[test]
fn a_refused_operation_changes_and_shows_nothing() {
    let (mut s, p) = open();
    let id = s.todo_create(p, "one".into(), &moment(1)).unwrap();
    s.take_pending();
    assert!(matches!(
        s.todo_add_blocker(p, id, id, &moment(2)),
        Err(CoreError::BadRequest(_))
    ));
    assert!(s.note_append(p, 77, "x", &moment(2)).is_err());
    assert!(s.take_pending().is_empty());
    assert_eq!(s.todo_get(p, id).unwrap().updated_at, "t1");
}

#[test]
fn every_change_is_shown() {
    let (mut s, p) = open();
    s.todo_create(p, "one".into(), &moment(1)).unwrap();
    assert_eq!(s.take_pending(), vec![(p.0, Surface::Todos)]);
    let n = s.note_create(p, "n".into(), &moment(1)).unwrap();
    let shown = s.take_pending();
    assert!(shown.contains(&(p.0, Surface::Note(n))));
    assert!(shown.contains(&(p.0, Surface::NotesIndex)));
    s.lock_acquire(p, "k", "l".into(), None, &moment(1)).unwrap();
    assert!(s.take_pending().contains(&(p.0, Surface::Locks)));
    assert!(s.take_pending().is_empty());
}

#[test]
fn unknown_projects_are_refused() {
    let (mut s, _) = open();
    let gone = ProjectId(99);
    assert!(matches!(
        s.todo_create(gone, "x".into(), &moment(1)),
        Err(CoreError::ProjectNotFound(99))
    ));
    assert!(s.todo_list(gone).unwrap().is_empty());
    assert!(matches!(
        s.ensure_project("/gone", None),
        Err(CoreError::Workspace(path)) if path == "/gone"
    ));
}

#[test]
fn searches_ignore_case_and_combine_filters() {
    let (mut s, p) = open();
    let a = s.todo_create(p, "Größe prüfen".into(), &moment(1)).unwrap();
    let b = s.todo_create(p, "other".into(), &moment(1)).unwrap();
    s.todo_update(
        p,
        a,
        TodoPatch {
            body: Some("100% done_ish".into()),
            priority: Some(Priority::High),
            assignee: Some("ann".into()),
            tags: Some(vec!["x".into(), "y".into()]),
            ..Default::default()
        },
        &moment(2),
    )
    .unwrap();
    let ids = |v: Vec<panopt::model::Todo>| v.into_iter().map(|t| t.id).collect::<Vec<u64>>();
    let none: Vec<String> = vec![];
    assert_eq!(
        ids(s.todo_search(p, Some("GRÖSSE"), None, None, None, &none).unwrap()),
        Vec::<u64>::new()
    );
    assert_eq!(
        ids(s.todo_search(p, Some("GRÖ"), None, None, None, &none).unwrap()),
        vec![a]
    );
    // Signs that a pattern language would read stand for themselves.
    assert_eq!(
        ids(s.todo_search(p, Some("0% D"), None, None, None, &none).unwrap()),
        vec![a]
    );
    assert_eq!(
        ids(s.todo_search(p, Some("o%er"), None, None, None, &none).unwrap()),
        Vec::<u64>::new()
    );
    assert_eq!(
        ids(s.todo_search(p, None, Some(TodoStatus::Open), None, None, &none).unwrap()),
        vec![a, b]
    );
    assert_eq!(
        ids(s
            .todo_search(p, None, None, Some(Priority::High), Some("ann"), &vec!["y".into()])
            .unwrap()),
        vec![a]
    );
    assert_eq!(
        ids(s
            .todo_search(p, None, None, None, None, &vec!["y".into(), "z".into()])
            .unwrap()),
        Vec::<u64>::new()
    );
}

#[test]
fn a_tool_that_names_no_type_is_of_the_usual_one() {
    let (mut s, p) = open();
    let id = s
        .agent_tool_create(
            p,
            "n".into(),
            String::new(),
            String::new(),
            String::new(),
            "b".into(),
            String::new(),
            true,
            &moment(1),
        )
        .unwrap();
    assert_eq!(s.agent_tool_get(p, id).unwrap().tool_type, "b");
    // Rows of older files name none, or just an agent.
    let at = s.find_project(p.0).unwrap();
    s.projects[at].tools.rows[0].value.tool_type = String::new();
    assert_eq!(s.agent_tool_get(p, id).unwrap().tool_type, "a");
    s.projects[at].tools.rows[0].value.tool_type = "agent".into();
    assert_eq!(s.agent_tool_list(p).unwrap()[0].tool_type, "a");
    assert_eq!(s.tool_type_map(p), vec![(id, "a".to_string())]);
    assert_eq!(s.agent_types(), vec!["a", "b"]);
    assert!(s.known_tool_type("a") && !s.known_tool_type("agent"));
}

#[test]
fn an_instance_is_told_its_facts() {
    let (mut s, p) = open();
    let id = s
        .agent_tool_create(
            p,
            "n".into(),
            "Nick".into(),
            String::new(),
            String::new(),
            "a".into(),
            String::new(),
            true,
            &moment(1),
        )
        .unwrap();
    let v = s.process_start(p, id, &moment(1)).unwrap();
    let told = s
        .render_agent_instructions(p, &v, "h", 1, "t", "bin")
        .unwrap();
    assert_eq!(
        told,
        Some(format!("Nick #{} m1 /w/x /w/x", v.id))
    );
    // A process that is from no tool is told nothing.
    let free = s
        .process_create(
            p,
            ProcessKind::Terminal,
            "t".into(),
            String::new(),
            String::new(),
            String::new(),
            None,
            &moment(1),
        )
        .unwrap();
    let row = s.process_get(p, free).unwrap();
    assert_eq!(
        s.render_agent_instructions(p, &row, "h", 1, "t", "bin").unwrap(),
        None
    );
}

#[test]
fn the_clock_of_a_state_starts_when_it_is_entered() {
    let (mut s, p) = open();
    let id = s
        .agent_tool_create(
            p,
            "n".into(),
            String::new(),
            String::new(),
            String::new(),
            "a".into(),
            String::new(),
            true,
            &moment(1),
        )
        .unwrap();
    let v = s.process_start(p, id, &moment(1)).unwrap();
    s.process_report(p, v.id, Some(7), None, Some("idle".into()), &moment(10))
        .unwrap();
    s.process_report(p, v.id, None, None, Some("idle".into()), &moment(70))
        .unwrap();
    let row = s.process_get(p, v.id).unwrap();
    assert_eq!(row.state_since, Some(10));
    // Only a report with a pid says that the process was seen.
    assert_eq!(row.last_seen.as_deref(), Some("t10"));
    s.process_report(p, v.id, None, None, Some("thinking".into()), &moment(80))
        .unwrap();
    assert_eq!(s.process_get(p, v.id).unwrap().state_since, Some(80));
}

#[test]
fn silent_agents_are_swept_with_their_locks() {
    let (mut s, p) = open();
    s.agent_touch(p, "quiet", KeySource::Session, &moment(0)).unwrap();
    s.lock_acquire(p, "quiet", "l".into(), None, &moment(0)).unwrap();
    assert_eq!(s.connected_agent_count(&moment(5)), 1);
    assert_eq!(s.connected_agents_by_project(&moment(5)), vec![(p, 1)]);
    let late = Moment {
        text: "late".into(),
        secs: 6,
        nanos: ACTIVE_PRESENCE + 1,
    };
    assert_eq!(s.connected_agent_count(&late), 0);
    let gone = Moment {
        text: "gone".into(),
        secs: 1800,
        nanos: AGENT_MAX_IDLE,
    };
    assert_eq!(s.sweep_idle_agents(&gone).unwrap(), vec!["quiet".to_string()]);
    assert!(s.lock_list(p).is_empty());
    assert!(s.agent_whoami(p, "quiet").is_none());
}

#[test]
fn notes_are_appended_to_and_edited() {
    let (mut s, p) = open();
    let id = s.note_create(p, "n".into(), &moment(1)).unwrap();
    s.note_append(p, id, "one\n", &moment(2)).unwrap();
    s.note_append(p, id, "two", &moment(3)).unwrap();
    assert_eq!(s.note_read(p, id).unwrap(), "one\ntwo");
    s.note_update(
        p,
        id,
        NotePatch {
            tags: Some(vec!["z".into(), "a".into()]),
            ..Default::default()
        },
        &moment(4),
    )
    .unwrap();
    assert_eq!(s.tags_list(p).unwrap(), vec!["a", "z"]);
    assert_eq!(
        s.note_search(p, Some("TWO"), &vec!["z".into()]).unwrap(),
        vec![(id, "n".to_string())]
    );
    assert!(s.note_search(p, None, &vec!["q".into()]).unwrap().is_empty());
    assert_eq!(s.live_note_ids(p), vec![id]);
}
