use panopt::error::CoreError;
use panopt::model::{
    AgentToolPatch, KeySource, NotePatch, Priority, ProcessKind, ProcessPatch, ProjectId,
    TodoPatch, TodoStatus,
};
use panopt::processes::{EXITED, RUNNING, STARTING, STOPPED};
use panopt::profile_set::ProfileSet;
use panopt::projected::stale_files;
use panopt::store::{Moment, Store};
use panopt::store_agents::AGENT_MAX_IDLE;
use std::collections::BTreeMap;

const PROFILES: &str = r#"
[coder-cli]
display_name = "Coder CLI"
instructions = "You are {{agent_id}}, process #{{process_id}}. Token {{token}}."
[coder-cli.spawn]
argv = ["coder"]
[coder-cli.status]
thinking = ['esc to interrupt']
"#;

/// A store, the moment it is in, and the files that show it.
struct Fixture {
    store: Store,
    now: Moment,
    disk: BTreeMap<(String, String), String>,
}

impl Fixture {
    fn new() -> Self {
        let profiles = ProfileSet::from_layers(PROFILES, None).unwrap();
        let mut fx = Fixture {
            store: Store::open(profiles, "coder-cli".into()),
            now: Moment {
                text: String::new(),
                secs: 0,
                nanos: 0,
            },
            disk: BTreeMap::new(),
        };
        fx.tick(1_700_000_000);
        fx
    }

    /// Lets some seconds pass.
    fn tick(&mut self, secs: u64) {
        let at = self.now.secs as u64 + secs;
        self.now = Moment {
            text: format!("2026-01-01 {at:012}"),
            secs: at as i64,
            nanos: at * 1_000_000_000,
        };
    }

    fn project(&mut self, name: &str) -> (ProjectId, String) {
        let root = format!("/work/{name}");
        let id = self.store.ensure_project(&root, Some(&root)).unwrap();
        (id, root)
    }

    /// Writes what is to be shown again, and sweeps what is left over.
    fn sync(&mut self) {
        for (pid, what) in self.store.take_pending() {
            let p = ProjectId(pid);
            let root = self.store.project_root(p).unwrap();
            for f in self.store.surface_files(p, what, &self.now) {
                self.disk.insert((root.clone(), f.path), f.contents);
            }
            let live = self.store.live_todo_ids(p);
            self.sweep(&root, ".panopt/todos/", &live);
            let live = self.store.live_note_ids(p);
            self.sweep(&root, ".panopt/note/", &live);
        }
    }

    fn sweep(&mut self, root: &str, dir: &str, live: &Vec<u64>) {
        let names: Vec<String> = self
            .disk
            .keys()
            .filter(|(r, _)| r == root)
            .filter_map(|(_, p)| p.strip_prefix(dir).map(|n| n.to_string()))
            .collect();
        for name in stale_files(&names, live) {
            self.disk.remove(&(root.to_string(), format!("{dir}{name}")));
        }
    }

    fn read(&mut self, root: &str, path: &str) -> String {
        self.sync();
        self.disk[&(root.to_string(), path.to_string())].clone()
    }

    fn is_file(&mut self, root: &str, path: &str) -> bool {
        self.sync();
        self.disk.contains_key(&(root.to_string(), path.to_string()))
    }

    fn remove(&mut self, root: &str, path: &str) {
        self.sync();
        self.disk.remove(&(root.to_string(), path.to_string()));
    }
}

/// The identity of a project.
fn identity_of(store: &Store, project: ProjectId) -> String {
    let at = store.find_project(project.0).unwrap();
    store.projects[at].identity.clone().unwrap()
}

#[test]
fn ensure_project_by_identity_adopts_unifies_and_resists_clobber() {
    let mut fx = Fixture::new();
    let a = "/work/checkout-a";

    // A path-keyed connect seeds the row with identity == canonical path.
    let p_path = fx.store.ensure_project(a, Some(a)).unwrap();
    assert_eq!(identity_of(&fx.store, p_path), a);

    // The edge resolver connects with a repo identity for the same path: it
    // adopts the existing row (no UNIQUE(root) collision) and re-keys it.
    let p_id = fx.store.ensure_project_by_identity("repo-key", a, Some(a)).unwrap();
    assert_eq!(p_path, p_id, "identity connect adopts the path-keyed row");
    assert_eq!(identity_of(&fx.store, p_id), "repo-key");

    // A second checkout at a different path but the same identity unifies
    // onto the same project row - the whole point of repo identity.
    let b = "/work/checkout-b";
    let p_other = fx.store.ensure_project_by_identity("repo-key", b, Some(b)).unwrap();
    assert_eq!(p_id, p_other, "same identity unifies distinct checkouts");

    // A later path-only client (the CLI) must NOT clobber the established
    // repo identity back to the path.
    let p_path2 = fx.store.ensure_project(a, Some(a)).unwrap();
    assert_eq!(p_id, p_path2);
    assert_eq!(
        identity_of(&fx.store, p_id),
        "repo-key",
        "path call left identity intact"
    );
}

#[test]
fn project_list_joins_aggregates_per_project() {
    let mut fx = Fixture::new();
    let (alpha, _) = fx.project("alpha");
    let (_beta, _) = fx.project("beta");

    // alpha: two open todos, one in-progress, plus a backlog todo that must
    // not be counted; a note; a held lock; and a live agent.
    let _o1 = fx.store.todo_create(alpha, "open one".into(), &fx.now).unwrap();
    let _o2 = fx.store.todo_create(alpha, "open two".into(), &fx.now).unwrap();
    let ip = fx.store.todo_create(alpha, "wip".into(), &fx.now).unwrap();
    let bl = fx.store.todo_create(alpha, "later".into(), &fx.now).unwrap();
    fx.store
        .todo_update(
            alpha,
            ip,
            TodoPatch {
                status: Some(TodoStatus::InProgress),
                ..Default::default()
            },
            &fx.now,
        )
        .unwrap();
    fx.store
        .todo_update(
            alpha,
            bl,
            TodoPatch {
                status: Some(TodoStatus::Backlog),
                ..Default::default()
            },
            &fx.now,
        )
        .unwrap();
    fx.store.note_create(alpha, "a note".into(), &fx.now).unwrap();
    fx.store
        .lock_acquire(alpha, "agent-1", "build".into(), None, &fx.now)
        .unwrap();
    fx.store
        .agent_touch(alpha, "agent-1", KeySource::Declared, &fx.now)
        .unwrap();

    let rows = fx.store.project_list(&fx.now).unwrap();
    assert_eq!(rows.len(), 2, "one row per project");

    // Rows come back in project-id (insertion) order: alpha then beta.
    let a = &rows[0];
    assert_eq!(a.name, "alpha");
    assert_eq!(a.todos_open, 2, "backlog todo is not an open badge");
    assert_eq!(a.todos_in_progress, 1);
    assert_eq!(a.locks_held, 1);
    assert_eq!(a.agents_active, 1);
    assert!(
        a.last_activity.is_some(),
        "a project with todos/notes has a last_activity timestamp"
    );
    assert_eq!(a.identity, a.root, "path-keyed project: identity == root");

    // beta is untouched: every badge is zero and there is no activity.
    let b = &rows[1];
    assert_eq!(b.name, "beta");
    assert_eq!(b.todos_open, 0);
    assert_eq!(b.todos_in_progress, 0);
    assert_eq!(b.locks_held, 0);
    assert_eq!(b.agents_active, 0);
    assert_eq!(b.last_activity, None);
}

#[test]
fn project_list_names_track_repo_identity_not_path() {
    // Two checkouts of one repo identity collapse to a single board row,
    // and its `name` is the basename of the projection path the daemon
    // recorded first - not re-derived per checkout.
    let mut fx = Fixture::new();
    let a = "/work/checkout-a";
    let b = "/work/checkout-b";
    fx.store.ensure_project_by_identity("repo-key", a, Some(a)).unwrap();
    fx.store.ensure_project_by_identity("repo-key", b, Some(b)).unwrap();

    let rows = fx.store.project_list(&fx.now).unwrap();
    assert_eq!(
        rows.len(),
        1,
        "same identity is one row, not one per checkout"
    );
    assert_eq!(rows[0].identity, "repo-key");
    assert_eq!(rows[0].name, "checkout-a");
}

#[test]
fn todo_ids_are_monotonic_within_a_project() {
    let mut fx = Fixture::new();
    let (p, _) = fx.project("proj");
    assert_eq!(fx.store.todo_create(p, "a".into(), &fx.now).unwrap(), 1);
    assert_eq!(fx.store.todo_create(p, "b".into(), &fx.now).unwrap(), 2);
    assert_eq!(fx.store.todo_create(p, "c".into(), &fx.now).unwrap(), 3);
}

#[test]
fn ids_are_globally_unique_across_resource_types() {
    // One shared sequence so `#N` resolves to exactly one
    // resource. A todo, note, agent tool, and process all draw from
    // the same counter in creation order.
    let mut fx = Fixture::new();
    let (p, _) = fx.project("proj");
    assert_eq!(fx.store.todo_create(p, "a".into(), &fx.now).unwrap(), 1);
    assert_eq!(fx.store.note_create(p, "pad".into(), &fx.now).unwrap(), 2);
    assert_eq!(
        fx.store
            .agent_tool_create(
                p,
                "coder".into(),
                String::new(),
                String::new(),
                String::new(),
                "coder-cli".into(),
                String::new(),
                true,
                &fx.now,
            )
            .unwrap(),
        3
    );
    assert_eq!(
        fx.store
            .process_create(
                p,
                ProcessKind::Command,
                "build".into(),
                String::new(),
                "cargo build".into(),
                String::new(),
                None,
                &fx.now,
            )
            .unwrap(),
        4
    );
    assert_eq!(fx.store.todo_create(p, "b".into(), &fx.now).unwrap(), 5);
    assert_eq!(fx.store.note_create(p, "pad2".into(), &fx.now).unwrap(), 6);
}

#[test]
fn process_create_with_invalid_agent_tool_id_is_rejected() {
    let mut fx = Fixture::new();
    let (p, _) = fx.project("proj");
    let err = fx
        .store
        .process_create(
            p,
            ProcessKind::Agent,
            "coder-1".into(),
            String::new(),
            "coder".into(),
            String::new(),
            Some(42),
            &fx.now,
        )
        .unwrap_err();
    assert!(matches!(err, CoreError::BadRequest(_)), "{err:?}");
}

#[test]
fn process_create_with_valid_agent_tool_id_links_it() {
    let mut fx = Fixture::new();
    let (p, _) = fx.project("proj");
    let tool = fx
        .store
        .agent_tool_create(
            p,
            "coder".into(),
            String::new(),
            "coder".into(),
            String::new(),
            "coder-cli".into(),
            String::new(),
            true,
            &fx.now,
        )
        .unwrap();
    let proc = fx
        .store
        .process_create(
            p,
            ProcessKind::Agent,
            "coder-1".into(),
            String::new(),
            "coder".into(),
            String::new(),
            Some(tool),
            &fx.now,
        )
        .unwrap();
    let row = fx.store.process_get(p, proc).unwrap();
    assert_eq!(row.agent_tool_id, Some(tool));
}

#[test]
fn a_process_without_a_name_is_shown_under_that_of_its_tool() {
    let mut fx = Fixture::new();
    let (p, root) = fx.project("proj");
    let tool = fx
        .store
        .agent_tool_create(
            p,
            "coder".into(),
            String::new(),
            "coder".into(),
            String::new(),
            "coder-cli".into(),
            String::new(),
            true,
            &fx.now,
        )
        .unwrap();
    for (name, from) in [("", Some(tool)), ("own", Some(tool)), ("", None)] {
        fx.store
            .process_create(
                p,
                ProcessKind::Command,
                name.into(),
                String::new(),
                "run".into(),
                String::new(),
                from,
                &fx.now,
            )
            .unwrap();
    }
    let md = fx.read(&root, ".panopt/processes.md");
    assert!(md.contains("- [command] #2 coder (from #1)"), "{md}");
    assert!(md.contains("- [command] #3 own (from #1)"), "{md}");
    assert!(md.contains("- [command] #4 (unnamed)"), "{md}");
    assert_eq!(fx.store.process_get(p, 2).unwrap().name, "");
}

#[test]
fn deleting_an_agent_tool_preserves_the_processes_back_reference() {
    let mut fx = Fixture::new();
    let (p, _) = fx.project("proj");
    let tool = fx
        .store
        .agent_tool_create(
            p,
            "coder".into(),
            String::new(),
            "coder".into(),
            String::new(),
            "coder-cli".into(),
            String::new(),
            true,
            &fx.now,
        )
        .unwrap();
    let proc = fx
        .store
        .process_create(
            p,
            ProcessKind::Agent,
            "coder-1".into(),
            String::new(),
            "coder".into(),
            String::new(),
            Some(tool),
            &fx.now,
        )
        .unwrap();
    fx.store.agent_tool_delete(p, tool, &fx.now).unwrap();
    // Soft delete keeps the link: the process row still names its source
    // tool, even though `agent_tool_get` now returns NotFound. That way a
    // future undelete reconstitutes the relationship as it was.
    let row = fx.store.process_get(p, proc).unwrap();
    assert_eq!(row.agent_tool_id, Some(tool));
    assert!(matches!(
        fx.store.agent_tool_get(p, tool).unwrap_err(),
        CoreError::AgentToolNotFound(_)
    ));
}

#[test]
fn append_concatenates_with_single_newline() {
    let mut fx = Fixture::new();
    let (p, _) = fx.project("proj");
    let id = fx.store.note_create(p, "notes".into(), &fx.now).unwrap();
    fx.store.note_append(p, id, "first", &fx.now).unwrap();
    fx.store.note_append(p, id, "second", &fx.now).unwrap();
    assert_eq!(fx.store.note_read(p, id).unwrap(), "first\nsecond");
}

#[test]
fn note_create_sets_created_and_updated_timestamps() {
    let mut fx = Fixture::new();
    let (p, _) = fx.project("proj");
    let id = fx.store.note_create(p, "notes".into(), &fx.now).unwrap();
    let pad = fx.store.note_get(p, id).unwrap();
    assert!(!pad.created_at.is_empty(), "created_at is set on create");
    assert!(!pad.updated_at.is_empty(), "updated_at is set on create");
}

#[test]
fn note_append_bumps_updated_at_and_rewrites_index() {
    let mut fx = Fixture::new();
    let (p, root) = fx.project("proj");
    let id = fx.store.note_create(p, "notes".into(), &fx.now).unwrap();
    let before = fx.store.note_get(p, id).unwrap().updated_at;

    fx.tick(1);
    fx.store.note_append(p, id, "more", &fx.now).unwrap();

    let after = fx.store.note_get(p, id).unwrap().updated_at;
    assert!(after > before, "updated_at must advance on append");

    // And the index file now carries the new timestamp - the bytes change
    // so the cockpit's 1s file poller observes the refresh.
    let index = fx.read(&root, ".panopt/notes.md");
    assert!(
        index.contains(&format!("updated {after}")),
        "index reflects the bumped updated_at\n{index}",
    );
}

#[test]
fn note_update_writes_only_the_some_fields() {
    let mut fx = Fixture::new();
    let (p, _) = fx.project("proj");
    let id = fx.store.note_create(p, "first-title".into(), &fx.now).unwrap();
    fx.store.note_append(p, id, "first-body", &fx.now).unwrap();

    // Patching only title leaves the body alone.
    fx.store
        .note_update(
            p,
            id,
            NotePatch {
                title: Some("renamed".into()),
                ..Default::default()
            },
            &fx.now,
        )
        .unwrap();
    let pad = fx.store.note_get(p, id).unwrap();
    assert_eq!(pad.title, "renamed");
    assert_eq!(pad.body, "first-body");

    // Patching only body leaves the title alone.
    fx.store
        .note_update(
            p,
            id,
            NotePatch {
                body: Some("rewritten".into()),
                ..Default::default()
            },
            &fx.now,
        )
        .unwrap();
    let pad = fx.store.note_get(p, id).unwrap();
    assert_eq!(pad.title, "renamed");
    assert_eq!(pad.body, "rewritten");
}

#[test]
fn note_update_bumps_updated_at_and_reprojects() {
    let mut fx = Fixture::new();
    let (p, root) = fx.project("proj");
    let id = fx.store.note_create(p, "notes".into(), &fx.now).unwrap();
    let before = fx.store.note_get(p, id).unwrap().updated_at;

    fx.tick(1);
    fx.store
        .note_update(
            p,
            id,
            NotePatch {
                body: Some("new body".into()),
                ..Default::default()
            },
            &fx.now,
        )
        .unwrap();

    let after = fx.store.note_get(p, id).unwrap().updated_at;
    assert!(after > before, "updated_at must advance on update");

    let pad_file = fx.read(&root, ".panopt/note/1.md");
    assert!(
        pad_file.contains("new body"),
        "per-pad projection refreshed"
    );
}

#[test]
fn note_update_errors_when_missing() {
    let mut fx = Fixture::new();
    let (p, _) = fx.project("proj");
    let err = fx
        .store
        .note_update(p, 999, NotePatch::default(), &fx.now)
        .unwrap_err();
    assert!(matches!(err, CoreError::NoteNotFound(999)));
}

#[test]
fn note_delete_removes_row_and_per_pad_file() {
    let mut fx = Fixture::new();
    let (p, root) = fx.project("proj");
    let id = fx.store.note_create(p, "deletable-title".into(), &fx.now).unwrap();
    assert!(
        fx.is_file(&root, ".panopt/note/1.md"),
        "per-pad file projected on create"
    );

    fx.store.note_delete(p, id, &fx.now).unwrap();

    assert!(
        !fx.is_file(&root, ".panopt/note/1.md"),
        "per-pad file swept on delete"
    );
    assert!(
        fx.store.note_list(p).unwrap().is_empty(),
        "row gone from the listing",
    );

    // The title is distinct from the index chrome ("# Notes", "_(no
    // notes)_") so this only trips when the deleted pad still appears.
    let index = fx.read(&root, ".panopt/notes.md");
    assert!(
        !index.contains("deletable-title"),
        "index no longer lists the pad\n{index}"
    );
}

#[test]
fn note_delete_errors_when_missing() {
    let mut fx = Fixture::new();
    let (p, _) = fx.project("proj");
    let err = fx.store.note_delete(p, 999, &fx.now).unwrap_err();
    assert!(matches!(err, CoreError::NoteNotFound(999)));
}

#[test]
fn note_append_rewrites_the_index_even_after_deletion() {
    let mut fx = Fixture::new();
    let (p, root) = fx.project("proj");
    let id = fx.store.note_create(p, "notes".into(), &fx.now).unwrap();
    // Remove the index to prove `note_append` rewrites it - this
    // is what guards against the pre-fix asymmetry where append skipped
    // the index reprojection entirely.
    fx.remove(&root, ".panopt/notes.md");
    fx.store.note_append(p, id, "more", &fx.now).unwrap();
    assert!(fx.is_file(&root, ".panopt/notes.md"));
}

#[test]
fn complete_flips_status_and_is_idempotent() {
    let mut fx = Fixture::new();
    let (p, _) = fx.project("proj");
    let id = fx.store.todo_create(p, "task".into(), &fx.now).unwrap();
    assert_eq!(fx.store.todo_list(p).unwrap()[0].status, TodoStatus::Open);
    fx.store.todo_complete(p, id, &fx.now).unwrap();
    let done = fx.store.todo_get(p, id).unwrap();
    assert_eq!(done.status, TodoStatus::Completed);
    assert!(done.completed_at.is_some());
    fx.store.todo_complete(p, id, &fx.now).unwrap(); // idempotent
    assert_eq!(
        fx.store.todo_get(p, id).unwrap().status,
        TodoStatus::Completed
    );
}

#[test]
fn todo_start_flips_status_and_rejects_terminal() {
    let mut fx = Fixture::new();
    let (p, _) = fx.project("proj");
    let id = fx.store.todo_create(p, "task".into(), &fx.now).unwrap();
    assert_eq!(fx.store.todo_get(p, id).unwrap().status, TodoStatus::Open);

    fx.store.todo_start(p, id, &fx.now).unwrap();
    assert_eq!(
        fx.store.todo_get(p, id).unwrap().status,
        TodoStatus::InProgress
    );
    // Idempotent on a todo already in progress.
    fx.store.todo_start(p, id, &fx.now).unwrap();
    assert_eq!(
        fx.store.todo_get(p, id).unwrap().status,
        TodoStatus::InProgress
    );

    // Backlog/draft start cleanly too.
    let backlog = fx.store.todo_create(p, "later".into(), &fx.now).unwrap();
    fx.store
        .todo_update(
            p,
            backlog,
            TodoPatch {
                status: Some(TodoStatus::Backlog),
                ..Default::default()
            },
            &fx.now,
        )
        .unwrap();
    fx.store.todo_start(p, backlog, &fx.now).unwrap();
    assert_eq!(
        fx.store.todo_get(p, backlog).unwrap().status,
        TodoStatus::InProgress
    );

    // Terminal states refuse to be silently reopened.
    fx.store.todo_complete(p, id, &fx.now).unwrap();
    let err = fx.store.todo_start(p, id, &fx.now).unwrap_err();
    assert!(matches!(err, CoreError::BadRequest(_)));
    assert_eq!(
        fx.store.todo_get(p, id).unwrap().status,
        TodoStatus::Completed
    );

    assert!(matches!(
        fx.store.todo_start(p, 9_999, &fx.now),
        Err(CoreError::TodoNotFound(_))
    ));
}

#[test]
fn todo_update_writes_only_the_some_fields() {
    let mut fx = Fixture::new();
    let (p, _) = fx.project("proj");
    let id = fx.store.todo_create(p, "draft".into(), &fx.now).unwrap();
    fx.store
        .todo_update(
            p,
            id,
            TodoPatch {
                body: Some("the description".into()),
                priority: Some(Priority::High),
                tags: Some(vec!["a".into(), "b".into()]),
                ..Default::default()
            },
            &fx.now,
        )
        .unwrap();
    let t = fx.store.todo_get(p, id).unwrap();
    assert_eq!(t.title, "draft"); // None field left untouched
    assert_eq!(t.body, "the description");
    assert_eq!(t.priority, Priority::High);
    assert_eq!(t.tags, vec!["a".to_string(), "b".to_string()]);
}

#[test]
fn completed_at_tracks_status_through_updates() {
    let mut fx = Fixture::new();
    let (p, _) = fx.project("proj");
    let id = fx.store.todo_create(p, "task".into(), &fx.now).unwrap();
    assert!(fx.store.todo_get(p, id).unwrap().completed_at.is_none());

    let to = |s| TodoPatch {
        status: Some(s),
        ..Default::default()
    };
    fx.store
        .todo_update(p, id, to(TodoStatus::Completed), &fx.now)
        .unwrap();
    assert!(fx.store.todo_get(p, id).unwrap().completed_at.is_some());
    fx.store
        .todo_update(p, id, to(TodoStatus::InProgress), &fx.now)
        .unwrap();
    assert!(fx.store.todo_get(p, id).unwrap().completed_at.is_none());
}

#[test]
fn blockers_record_list_and_reject_self_reference() {
    let mut fx = Fixture::new();
    let (p, _) = fx.project("proj");
    let a = fx.store.todo_create(p, "a".into(), &fx.now).unwrap();
    let b = fx.store.todo_create(p, "b".into(), &fx.now).unwrap();

    fx.store.todo_add_blocker(p, b, a, &fx.now).unwrap();
    assert_eq!(fx.store.todo_get(p, b).unwrap().blockers, vec![a]);
    // Re-adding is idempotent; removing clears it.
    fx.store.todo_add_blocker(p, b, a, &fx.now).unwrap();
    assert_eq!(fx.store.todo_get(p, b).unwrap().blockers, vec![a]);
    fx.store.todo_remove_blocker(p, b, a, &fx.now).unwrap();
    assert!(fx.store.todo_get(p, b).unwrap().blockers.is_empty());

    assert!(matches!(
        fx.store.todo_add_blocker(p, a, a, &fx.now),
        Err(CoreError::BadRequest(_))
    ));
    assert!(matches!(
        fx.store.todo_add_blocker(p, a, 999, &fx.now),
        Err(CoreError::TodoNotFound(999))
    ));
}

#[test]
fn deleting_a_todo_cascades_its_side_tables() {
    let mut fx = Fixture::new();
    let (p, _) = fx.project("proj");
    let a = fx.store.todo_create(p, "a".into(), &fx.now).unwrap();
    let b = fx.store.todo_create(p, "b".into(), &fx.now).unwrap();
    fx.store.todo_add_blocker(p, b, a, &fx.now).unwrap();
    fx.store
        .todo_comment_add(p, a, "me".into(), "note".into(), &fx.now)
        .unwrap();

    // Deleting a (the blocker) cascades away the (b blocked-by a) row.
    fx.store.todo_delete(p, a, &fx.now).unwrap();
    assert!(fx.store.todo_get(p, b).unwrap().blockers.is_empty());
    assert!(matches!(
        fx.store.todo_get(p, a),
        Err(CoreError::TodoNotFound(_))
    ));
}

#[test]
fn comment_update_replaces_body_and_keeps_metadata() {
    let mut fx = Fixture::new();
    let (p, _) = fx.project("proj");
    let id = fx.store.todo_create(p, "task".into(), &fx.now).unwrap();
    let cid = fx
        .store
        .todo_comment_add(p, id, "alice".into(), "first draft".into(), &fx.now)
        .unwrap();
    let original = fx.store.todo_get(p, id).unwrap().comments[0].copy();

    fx.store
        .todo_comment_update(p, id, cid, "polished".into(), &fx.now)
        .unwrap();
    let after = fx.store.todo_get(p, id).unwrap().comments[0].copy();
    assert_eq!(after.body, "polished");
    assert_eq!(after.author, original.author);
    assert_eq!(after.created_at, original.created_at);
}

#[test]
fn comment_delete_removes_it_and_does_not_reuse_the_id() {
    let mut fx = Fixture::new();
    let (p, _) = fx.project("proj");
    let id = fx.store.todo_create(p, "task".into(), &fx.now).unwrap();
    let c1 = fx
        .store
        .todo_comment_add(p, id, "a".into(), "1".into(), &fx.now)
        .unwrap();
    let _c2 = fx
        .store
        .todo_comment_add(p, id, "a".into(), "2".into(), &fx.now)
        .unwrap();

    fx.store.todo_comment_delete(p, id, c1, &fx.now).unwrap();
    let comments = fx.store.todo_get(p, id).unwrap().comments;
    assert_eq!(comments.len(), 1);
    assert_eq!(comments[0].body, "2");

    // The next add lands at 3, not 1: ids never recycle.
    let c3 = fx
        .store
        .todo_comment_add(p, id, "a".into(), "3".into(), &fx.now)
        .unwrap();
    assert_eq!(c3, 3);
}

#[test]
fn comment_update_and_delete_errors_on_missing_ids() {
    let mut fx = Fixture::new();
    let (p, _) = fx.project("proj");
    let id = fx.store.todo_create(p, "task".into(), &fx.now).unwrap();
    // No such comment on an existing todo.
    assert!(matches!(
        fx.store.todo_comment_update(p, id, 999, "x".into(), &fx.now),
        Err(CoreError::TodoCommentNotFound { todo_id, comment_id })
            if todo_id == id && comment_id == 999
    ));
    // No such todo at all.
    assert!(matches!(
        fx.store.todo_comment_delete(p, 999, 1, &fx.now),
        Err(CoreError::TodoNotFound(999))
    ));
}

#[test]
fn set_blockers_diffs_against_the_current_set() {
    let mut fx = Fixture::new();
    let (p, _) = fx.project("proj");
    let a = fx.store.todo_create(p, "a".into(), &fx.now).unwrap();
    let b = fx.store.todo_create(p, "b".into(), &fx.now).unwrap();
    let c = fx.store.todo_create(p, "c".into(), &fx.now).unwrap();
    let target = fx.store.todo_create(p, "t".into(), &fx.now).unwrap();

    // From empty -> {a, b}.
    fx.store.todo_set_blockers(p, target, vec![a, b], &fx.now).unwrap();
    assert_eq!(fx.store.todo_get(p, target).unwrap().blockers, vec![a, b]);

    // From {a, b} -> {b, c}: a removed, c added.
    fx.store.todo_set_blockers(p, target, vec![b, c], &fx.now).unwrap();
    assert_eq!(fx.store.todo_get(p, target).unwrap().blockers, vec![b, c]);

    // Empty clears.
    fx.store.todo_set_blockers(p, target, vec![], &fx.now).unwrap();
    assert!(fx.store.todo_get(p, target).unwrap().blockers.is_empty());

    // Self-blocking is rejected; a missing blocker errors before any write.
    assert!(matches!(
        fx.store.todo_set_blockers(p, target, vec![target], &fx.now),
        Err(CoreError::BadRequest(_))
    ));
    assert!(matches!(
        fx.store.todo_set_blockers(p, target, vec![a, 999], &fx.now),
        Err(CoreError::TodoNotFound(999))
    ));
    assert!(fx.store.todo_get(p, target).unwrap().blockers.is_empty());
}

#[test]
fn tags_list_unions_and_sorts_across_todos() {
    let mut fx = Fixture::new();
    let (p, _) = fx.project("proj");
    let a = fx.store.todo_create(p, "a".into(), &fx.now).unwrap();
    let b = fx.store.todo_create(p, "b".into(), &fx.now).unwrap();
    fx.store
        .todo_update(
            p,
            a,
            TodoPatch {
                tags: Some(vec!["zeta".into(), "alpha".into()]),
                ..Default::default()
            },
            &fx.now,
        )
        .unwrap();
    fx.store
        .todo_update(
            p,
            b,
            TodoPatch {
                tags: Some(vec!["beta".into(), "alpha".into()]),
                ..Default::default()
            },
            &fx.now,
        )
        .unwrap();
    assert_eq!(
        fx.store.todo_tags_list(p).unwrap(),
        vec!["alpha", "beta", "zeta"]
    );
}

#[test]
fn tags_list_unions_todos_and_notes() {
    let mut fx = Fixture::new();
    let (p, _) = fx.project("proj");
    let t = fx.store.todo_create(p, "t".into(), &fx.now).unwrap();
    let s = fx.store.note_create(p, "s".into(), &fx.now).unwrap();
    fx.store
        .todo_update(
            p,
            t,
            TodoPatch {
                tags: Some(vec!["x".into(), "y".into()]),
                ..Default::default()
            },
            &fx.now,
        )
        .unwrap();
    fx.store
        .note_update(
            p,
            s,
            NotePatch {
                tags: Some(vec!["y".into(), "z".into()]),
                ..Default::default()
            },
            &fx.now,
        )
        .unwrap();
    // Identical via both the unified core method and the back-compat alias,
    // and identical to the future `note_tags_list` MCP tool's source.
    assert_eq!(fx.store.tags_list(p).unwrap(), vec!["x", "y", "z"]);
    assert_eq!(fx.store.todo_tags_list(p).unwrap(), vec!["x", "y", "z"]);
}

#[test]
fn note_update_round_trips_tags() {
    let mut fx = Fixture::new();
    let (p, root) = fx.project("proj");
    let id = fx.store.note_create(p, "n".into(), &fx.now).unwrap();
    // Fresh pads start with empty tags.
    assert!(fx.store.note_get(p, id).unwrap().tags.is_empty());

    fx.store
        .note_update(
            p,
            id,
            NotePatch {
                tags: Some(vec!["foo".into(), "bar".into()]),
                ..Default::default()
            },
            &fx.now,
        )
        .unwrap();
    assert_eq!(
        fx.store.note_get(p, id).unwrap().tags,
        vec!["foo".to_string(), "bar".to_string()]
    );

    // Tags land in the per-pad projection frontmatter.
    let pad_file = fx.read(&root, ".panopt/note/1.md");
    assert!(
        pad_file.contains("\ntags: foo, bar\n"),
        "projection carries `tags: foo, bar`:\n{pad_file}"
    );

    // An empty list clears the tags.
    fx.store
        .note_update(
            p,
            id,
            NotePatch {
                tags: Some(vec![]),
                ..Default::default()
            },
            &fx.now,
        )
        .unwrap();
    assert!(fx.store.note_get(p, id).unwrap().tags.is_empty());
}

#[test]
fn comment_ids_restart_in_each_todo() {
    let mut fx = Fixture::new();
    let (p, _) = fx.project("proj");
    let a = fx.store.todo_create(p, "a".into(), &fx.now).unwrap();
    let b = fx.store.todo_create(p, "b".into(), &fx.now).unwrap();
    assert_eq!(
        fx.store
            .todo_comment_add(p, a, "x".into(), "1".into(), &fx.now)
            .unwrap(),
        1
    );
    assert_eq!(
        fx.store
            .todo_comment_add(p, a, "x".into(), "2".into(), &fx.now)
            .unwrap(),
        2
    );
    assert_eq!(
        fx.store
            .todo_comment_add(p, b, "y".into(), "1".into(), &fx.now)
            .unwrap(),
        1
    );
    let comments = fx.store.todo_get(p, a).unwrap().comments;
    assert_eq!(comments.len(), 2);
    assert_eq!(comments[0].body, "1");
    assert_eq!(comments[1].id, 2);
}

#[test]
fn missing_ids_error() {
    let mut fx = Fixture::new();
    let (p, _) = fx.project("proj");
    assert!(matches!(
        fx.store.todo_complete(p, 999, &fx.now),
        Err(CoreError::TodoNotFound(999))
    ));
    assert!(matches!(
        fx.store.note_append(p, 999, "x", &fx.now),
        Err(CoreError::NoteNotFound(999))
    ));
    assert!(matches!(
        fx.store.note_read(p, 999),
        Err(CoreError::NoteNotFound(999))
    ));
}

#[test]
fn todo_list_is_id_ascending() {
    let mut fx = Fixture::new();
    let (p, _) = fx.project("proj");
    for t in ["a", "b", "c"] {
        fx.store.todo_create(p, t.into(), &fx.now).unwrap();
    }
    let ids: Vec<u64> = fx
        .store
        .todo_list(p)
        .unwrap()
        .iter()
        .map(|t| t.id)
        .collect();
    assert_eq!(ids, vec![1, 2, 3]);
}

#[test]
fn projects_are_isolated() {
    let mut fx = Fixture::new();
    let (a, _) = fx.project("alpha");
    let (b, _) = fx.project("beta");

    // Ids restart at 1 in each project.
    assert_eq!(fx.store.todo_create(a, "alpha task".into(), &fx.now).unwrap(), 1);
    assert_eq!(fx.store.todo_create(b, "beta task".into(), &fx.now).unwrap(), 1);

    let alpha = fx.store.todo_list(a).unwrap();
    let beta = fx.store.todo_list(b).unwrap();
    assert_eq!(alpha.len(), 1);
    assert_eq!(beta.len(), 1);
    assert_eq!(alpha[0].title, "alpha task");
    assert_eq!(beta[0].title, "beta task");
}

#[test]
fn mutations_project_to_disk() {
    let mut fx = Fixture::new();
    let (p, root) = fx.project("proj");

    let tid = fx.store.todo_create(p, "wire up auth".into(), &fx.now).unwrap();
    let index = fx.read(&root, ".panopt/todos.md");
    assert!(
        index.contains("- [ ] [#1](todos/1.md) wire up auth"),
        "{index}"
    );
    let todo_md = fx.read(&root, ".panopt/todos/1.md");
    assert!(todo_md.contains("status: open"), "{todo_md}");
    assert!(todo_md.contains("# wire up auth"), "{todo_md}");

    fx.store.todo_complete(p, tid, &fx.now).unwrap();
    let index = fx.read(&root, ".panopt/todos.md");
    assert!(
        index.contains("- [x] [#1](todos/1.md) wire up auth"),
        "{index}"
    );
    let todo_md = fx.read(&root, ".panopt/todos/1.md");
    assert!(todo_md.contains("status: completed"), "{todo_md}");

    let sid = fx.store.note_create(p, "notes".into(), &fx.now).unwrap();
    fx.store.note_append(p, sid, "first", &fx.now).unwrap();
    fx.store.note_append(p, sid, "second", &fx.now).unwrap();
    let sp_md = fx.read(&root, &format!(".panopt/note/{sid}.md"));
    // Per-pad files now carry a `created`/`updated` frontmatter block;
    // the wall-clock timestamps inside are checked structurally rather
    // than by exact match.
    assert!(sp_md.starts_with("---\n"), "{sp_md}");
    assert!(sp_md.contains("created: "), "{sp_md}");
    assert!(sp_md.contains("updated: "), "{sp_md}");
    assert!(sp_md.contains("# notes\n\nfirst\nsecond\n"), "{sp_md}");
}

#[test]
fn agents_register_identify_and_project() {
    let mut fx = Fixture::new();
    let (p, root) = fx.project("proj");

    // A fresh project starts with an empty roster on disk.
    let agents_md = fx.read(&root, ".panopt/agents.md");
    assert!(agents_md.contains("_(no agents connected)_"), "{agents_md}");

    fx.store
        .agent_touch(p, "sess-1", KeySource::Session, &fx.now)
        .unwrap();
    fx.store
        .agent_identify(p, "sess-1", "backend".into(), Some("coding".into()))
        .unwrap();

    let me = fx.store.agent_whoami(p, "sess-1").unwrap();
    assert_eq!(me.name, "backend");
    assert_eq!(me.status, "coding");
    assert_eq!(fx.store.agent_list(p, &fx.now).unwrap().len(), 1);

    let agents_md = fx.read(&root, ".panopt/agents.md");
    assert!(
        agents_md.contains("- backend - coding (idle 0m)"),
        "{agents_md}"
    );

    // Backdate `last_seen` so the next projection shows ticking idle time.
    fx.store
        .test_backdate_last_seen(p, "sess-1", 900_000_000_000);
    fx.store
        .agent_identify(p, "sess-1", "backend".into(), Some("idle".into()))
        .unwrap();
    let agents_md = fx.read(&root, ".panopt/agents.md");
    assert!(
        agents_md.contains("- backend - idle (idle 15m)"),
        "{agents_md}"
    );
}

#[test]
fn agent_rosters_are_project_isolated() {
    let mut fx = Fixture::new();
    let (a, _) = fx.project("alpha");
    let (b, _) = fx.project("beta");

    fx.store.agent_touch(a, "s1", KeySource::Session, &fx.now).unwrap();
    fx.store.agent_touch(b, "s2", KeySource::Session, &fx.now).unwrap();
    fx.store.agent_touch(b, "s3", KeySource::Session, &fx.now).unwrap();

    assert_eq!(fx.store.agent_list(a, &fx.now).unwrap().len(), 1);
    assert_eq!(fx.store.agent_list(b, &fx.now).unwrap().len(), 2);
    assert!(fx.store.agent_whoami(a, "s2").is_none());
}

#[test]
fn sweep_keeps_fresh_agents() {
    let mut fx = Fixture::new();
    let (p, _) = fx.project("proj");
    fx.store
        .agent_touch(p, "fresh", KeySource::Session, &fx.now)
        .unwrap();
    // Nothing is stale, so the sweep removes nothing.
    assert!(fx.store.sweep_idle_agents(&fx.now).unwrap().is_empty());
    assert_eq!(fx.store.agent_list(p, &fx.now).unwrap().len(), 1);
}

#[test]
fn agent_leave_removes_entry_releases_locks_and_reprojects() {
    let mut fx = Fixture::new();
    let (p, root) = fx.project("proj");
    fx.store
        .agent_touch(p, "stable", KeySource::Declared, &fx.now)
        .unwrap();
    fx.store
        .agent_identify(p, "stable", "greg-main".into(), None)
        .unwrap();
    // A lock the agent will leave behind.
    fx.store
        .lock_acquire(p, "stable", "auth".into(), None, &fx.now)
        .unwrap();
    assert_eq!(fx.store.lock_list(p).len(), 1);

    assert!(fx.store.agent_leave(p, "stable").unwrap());

    assert!(fx.store.agent_list(p, &fx.now).unwrap().is_empty());
    assert!(fx.store.lock_list(p).is_empty());

    // Projection mirrors the departure.
    let agents_md = fx.read(&root, ".panopt/agents.md");
    assert!(agents_md.contains("_(no agents connected)_"), "{agents_md}");
    let locks_md = fx.read(&root, ".panopt/locks.md");
    assert!(locks_md.contains("_(no locks held)_"), "{locks_md}");

    // Idempotent: leaving again is a no-op.
    assert!(!fx.store.agent_leave(p, "stable").unwrap());
}

#[test]
fn sweep_keeps_declared_agents_even_when_idle() {
    let mut fx = Fixture::new();
    let (p, _) = fx.project("proj");
    fx.store
        .agent_touch(p, "stable", KeySource::Declared, &fx.now)
        .unwrap();
    // Backdate `last_seen` past AGENT_MAX_IDLE so a session-keyed peer
    // would have been pruned. The declared entry must still survive.
    fx.store
        .test_backdate_last_seen(p, "stable", AGENT_MAX_IDLE * 10);
    assert!(fx.store.sweep_idle_agents(&fx.now).unwrap().is_empty());
    assert_eq!(fx.store.agent_list(p, &fx.now).unwrap().len(), 1);
}

#[test]
fn empty_locks_md_after_bootstrap() {
    let mut fx = Fixture::new();
    let (_p, root) = fx.project("proj");
    let locks_md = fx.read(&root, ".panopt/locks.md");
    assert!(locks_md.contains("_(no locks held)_"), "{locks_md}");
}

#[test]
fn locks_acquire_release_and_project() {
    let mut fx = Fixture::new();
    let (p, root) = fx.project("proj");
    fx.store.agent_touch(p, "a", KeySource::Session, &fx.now).unwrap();
    fx.store
        .agent_identify(p, "a", "backend".into(), None)
        .unwrap();
    fx.store.agent_touch(p, "b", KeySource::Session, &fx.now).unwrap();

    // `a` acquires; `b` is denied and sees the holder's resolved name.
    assert_eq!(
        fx.store
            .lock_acquire(p, "a", "auth".into(), Some("token work".into()), &fx.now)
            .unwrap(),
        None
    );
    assert_eq!(
        fx.store.lock_acquire(p, "b", "auth".into(), None, &fx.now).unwrap(),
        Some("backend".to_string())
    );

    let locks_md = fx.read(&root, ".panopt/locks.md");
    assert!(
        locks_md.contains("- `auth` - held by backend - token work"),
        "{locks_md}"
    );

    // `a` releases; `b` can then take it.
    assert_eq!(fx.store.lock_release(p, "a", "auth").unwrap(), None);
    assert_eq!(
        fx.store.lock_acquire(p, "b", "auth".into(), None, &fx.now).unwrap(),
        None
    );

    let locks = fx.store.lock_list(p);
    assert_eq!(locks.len(), 1);
    assert_eq!(locks[0].holder_key, "b");
}

#[test]
fn state_locks_are_project_isolated() {
    let mut fx = Fixture::new();
    let (a, _) = fx.project("alpha");
    let (b, _) = fx.project("beta");

    assert_eq!(
        fx.store.lock_acquire(a, "x", "build".into(), None, &fx.now).unwrap(),
        None
    );
    // The same name in another project is unaffected.
    assert_eq!(
        fx.store.lock_acquire(b, "y", "build".into(), None, &fx.now).unwrap(),
        None
    );
    assert_eq!(fx.store.lock_list(a).len(), 1);
    assert_eq!(fx.store.lock_list(b).len(), 1);
}

#[test]
fn agent_tool_create_list_update_delete_and_project() {
    let mut fx = Fixture::new();
    let (p, root) = fx.project("proj");

    let id = fx
        .store
        .agent_tool_create(
            p,
            "coder".into(),
            "Mediator".into(),
            "coder --model sonnet".into(),
            String::new(),
            "coder-cli".into(),
            String::new(),
            true,
            &fx.now,
        )
        .unwrap();
    assert_eq!(id, 1);

    let entries = fx.store.agent_tool_list(p).unwrap();
    assert_eq!(entries.len(), 1);
    assert_eq!(entries[0].name, "coder");
    assert_eq!(entries[0].display_name, "Mediator");
    assert!(entries[0].enabled);

    // The tool projection is what the cockpit reads for the spawn picker.
    let tools_md = fx.read(&root, ".panopt/agent_tools.md");
    assert!(tools_md.contains("- #1 Mediator"), "{tools_md}");

    fx.store
        .agent_tool_update(
            p,
            id,
            AgentToolPatch {
                command: Some("coder".into()),
                enabled: Some(false),
                ..Default::default()
            },
        )
        .unwrap();
    let updated = fx.store.agent_tool_get(p, id).unwrap();
    assert_eq!(updated.command, "coder");
    assert!(!updated.enabled);

    fx.store.agent_tool_delete(p, id, &fx.now).unwrap();
    assert!(fx.store.agent_tool_list(p).unwrap().is_empty());
    assert!(matches!(
        fx.store.agent_tool_delete(p, id, &fx.now),
        Err(CoreError::AgentToolNotFound(_))
    ));
}

#[test]
fn agent_tool_create_validates_tool_type_against_the_registry() {
    let mut fx = Fixture::new();
    let (p, _root) = fx.project("proj");

    // A known profile key is accepted.
    assert!(fx
        .store
        .agent_tool_create(
            p,
            "ok".into(),
            String::new(),
            String::new(),
            String::new(),
            "coder-cli".into(),
            String::new(),
            true,
            &fx.now,
        )
        .is_ok());

    // An unknown key is rejected with a typed, caller-fixable error.
    let err = fx
        .store
        .agent_tool_create(
            p,
            "bad".into(),
            String::new(),
            String::new(),
            String::new(),
            "no-such-type".into(),
            String::new(),
            true,
            &fx.now,
        )
        .unwrap_err();
    assert!(matches!(err, CoreError::UnknownToolType(t) if t == "no-such-type"));
}

#[test]
fn agent_tool_update_validates_a_changed_tool_type() {
    let mut fx = Fixture::new();
    let (p, _root) = fx.project("proj");
    let id = fx
        .store
        .agent_tool_create(
            p,
            "t".into(),
            String::new(),
            String::new(),
            String::new(),
            "coder-cli".into(),
            String::new(),
            true,
            &fx.now,
        )
        .unwrap();

    // Retyping to an unknown profile is rejected...
    let err = fx
        .store
        .agent_tool_update(
            p,
            id,
            AgentToolPatch {
                tool_type: Some("ghost".into()),
                ..Default::default()
            },
        )
        .unwrap_err();
    assert!(matches!(err, CoreError::UnknownToolType(_)));

    // ...while a known retype, and a patch that leaves tool_type alone, both
    // succeed.
    assert!(fx
        .store
        .agent_tool_update(
            p,
            id,
            AgentToolPatch {
                tool_type: Some("coder-cli".into()),
                ..Default::default()
            },
        )
        .is_ok());
    assert!(fx
        .store
        .agent_tool_update(
            p,
            id,
            AgentToolPatch {
                enabled: Some(false),
                ..Default::default()
            },
        )
        .is_ok());
}

#[test]
fn process_create_list_update_delete_and_project() {
    let mut fx = Fixture::new();
    let (p, root) = fx.project("proj");

    let id = fx
        .store
        .process_create(
            p,
            ProcessKind::Command,
            "build".into(),
            "Build".into(),
            "cargo build".into(),
            "/tmp".into(),
            None,
            &fx.now,
        )
        .unwrap();
    assert_eq!(id, 1);

    let entries = fx.store.process_list(p).unwrap();
    assert_eq!(entries.len(), 1);
    assert_eq!(entries[0].kind, ProcessKind::Command);
    assert_eq!(entries[0].display_name, "Build");
    assert!(entries[0].agent_tool_id.is_none());

    let processes_md = fx.read(&root, ".panopt/processes.md");
    assert!(
        processes_md.contains("- [command] #1 Build"),
        "{processes_md}"
    );

    fx.store
        .process_update(
            p,
            id,
            ProcessPatch {
                command: Some("cargo test".into()),
                ..Default::default()
            },
        )
        .unwrap();
    assert_eq!(fx.store.process_get(p, id).unwrap().command, "cargo test");

    fx.store.process_delete(p, id, &fx.now).unwrap();
    assert!(fx.store.process_list(p).unwrap().is_empty());
    assert!(matches!(
        fx.store.process_delete(p, id, &fx.now),
        Err(CoreError::ProcessNotFound(_))
    ));
}

#[test]
fn process_start_report_stop_lifecycle() {
    let mut fx = Fixture::new();
    let (p, root) = fx.project("proj");
    let config = fx
        .store
        .agent_tool_create(
            p,
            "coder-a".into(),
            "Mediator".into(),
            "coder".into(),
            "/work".into(),
            "coder-cli".into(),
            String::new(),
            true,
            &fx.now,
        )
        .unwrap();

    // start writes a copy-on-spawn `starting` row.
    let started = fx.store.process_start(p, config, &fx.now).unwrap();
    assert_eq!(started.kind, ProcessKind::Agent);
    assert_eq!(started.agent_tool_id, Some(config));
    assert_eq!(started.command, "coder");
    assert_eq!(started.cwd, "/work");
    // Identity is uniquified with the instance id.
    assert_eq!(started.name, format!("coder-a-{}", started.id));
    assert_eq!(started.display_name, format!("Mediator #{}", started.id));
    assert_eq!(started.status.as_deref(), Some(STARTING));

    let md = fx.read(&root, ".panopt/processes.md");
    assert!(md.contains("· starting"), "{md}");

    // Pure factory: starting again spawns a second live instance, distinct
    // from the first (no focus-the-existing-one in the daemon).
    let again = fx.store.process_start(p, config, &fx.now).unwrap();
    assert_ne!(again.id, started.id);
    assert_eq!(fx.store.process_list(p).unwrap().len(), 2);

    // pid report flips to running and anchors liveness.
    fx.store
        .process_report(p, started.id, Some(4242), None, None, &fx.now)
        .unwrap();
    let row = fx.store.process_get(p, started.id).unwrap();
    assert_eq!(row.pid, Some(4242));
    assert_eq!(row.status.as_deref(), Some(RUNNING));
    assert!(row.last_seen.is_some());

    // pane-id report is independent and idempotent.
    fx.store
        .process_report(p, started.id, None, Some("17".into()), None, &fx.now)
        .unwrap();
    let row = fx.store.process_get(p, started.id).unwrap();
    assert_eq!(row.pane_id.as_deref(), Some("17"));
    assert_eq!(row.pid, Some(4242), "pane report must not clear the pid");

    // stop returns the pid to signal and leaves the row stopped.
    let killed = fx.store.process_stop(p, started.id).unwrap();
    assert_eq!(killed, Some(4242));
    let row = fx.store.process_get(p, started.id).unwrap();
    assert_eq!(row.status.as_deref(), Some(STOPPED));

    // each start is a fresh instance, stopped predecessors notwithstanding.
    let restarted = fx.store.process_start(p, config, &fx.now).unwrap();
    assert_ne!(restarted.id, started.id);
}

#[test]
fn process_start_with_records_overrides_without_mutating_the_config() {
    let mut fx = Fixture::new();
    let (p, _root) = fx.project("proj");
    let config = fx
        .store
        .agent_tool_create(
            p,
            "coder-a".into(),
            "Mediator".into(),
            "coder".into(),
            "/work".into(),
            "coder-cli".into(),
            String::new(),
            true,
            &fx.now,
        )
        .unwrap();

    // A per-launch name + extra_args land on the instance row.
    let started = fx
        .store
        .process_start_with(
            p,
            config,
            Some("Mediator (run 1)".into()),
            vec!["--model".into(), "opus".into()],
            &fx.now,
        )
        .unwrap();
    // The per-launch override is the friendly base, suffixed with the id.
    assert_eq!(
        started.display_name,
        format!("Mediator (run 1) #{}", started.id)
    );
    assert_eq!(started.extra_args, vec!["--model", "opus"]);

    // The durable config is untouched: name and (absence of) args both stay.
    let cfg = fx.store.agent_tool_get(p, config).unwrap();
    assert_eq!(cfg.display_name, "Mediator");

    // Stop it, then a second launch with different overrides proves no
    // mutation carried over from the first.
    fx.store.process_stop(p, started.id).unwrap();
    let second = fx
        .store
        .process_start_with(p, config, None, vec!["--resume".into()], &fx.now)
        .unwrap();
    assert_ne!(second.id, started.id);
    // No name override falls back to the config's display name, suffixed.
    assert_eq!(second.display_name, format!("Mediator #{}", second.id));
    assert_eq!(second.extra_args, vec!["--resume"]);
    // And the first instance still carries its own args, unchanged.
    let first = fx.store.process_get(p, started.id).unwrap();
    assert_eq!(first.extra_args, vec!["--model", "opus"]);
}

#[test]
fn process_start_is_a_factory_distinct_instances() {
    let mut fx = Fixture::new();
    let (p, _root) = fx.project("proj");
    let config = fx
        .store
        .agent_tool_create(
            p,
            "coder-a".into(),
            "Mediator".into(),
            "coder".into(),
            "/work".into(),
            "coder-cli".into(),
            String::new(),
            true,
            &fx.now,
        )
        .unwrap();

    // Two starts without stopping yield two distinct live instances of the
    // one config (the 1:N factory model).
    let first = fx.store.process_start(p, config, &fx.now).unwrap();
    let second = fx.store.process_start(p, config, &fx.now).unwrap();
    assert_ne!(first.id, second.id);
    assert_eq!(fx.store.process_list(p).unwrap().len(), 2);
    assert_eq!(first.agent_tool_id, Some(config));
    assert_eq!(second.agent_tool_id, Some(config));
    assert_eq!(
        first.status.as_deref(),
        Some(STARTING),
        "first stays live"
    );
    assert_eq!(second.status.as_deref(), Some(STARTING));
    // Identity is per-instance so the two never collide in the registry/locks.
    assert_ne!(first.name, second.name);
    assert_ne!(first.display_name, second.display_name);
    assert_eq!(first.name, format!("coder-a-{}", first.id));
    assert_eq!(second.name, format!("coder-a-{}", second.id));
}

#[test]
fn process_start_empty_config_name_falls_back_to_agent_id() {
    let mut fx = Fixture::new();
    let (p, _root) = fx.project("proj");
    // A config with no name and no display name still yields a unique,
    // non-empty instance identity (so the edge never collides in the registry).
    let config = fx
        .store
        .agent_tool_create(
            p,
            String::new(),
            String::new(),
            "coder".into(),
            "/work".into(),
            "coder-cli".into(),
            String::new(),
            true,
            &fx.now,
        )
        .unwrap();
    let started = fx.store.process_start(p, config, &fx.now).unwrap();
    assert_eq!(started.name, format!("agent-{}", started.id));
    // A blank friendly base falls back to the internal name, never " #id".
    assert_eq!(started.display_name, format!("agent-{}", started.id));
}

#[test]
fn process_start_with_name_override_is_suffixed() {
    let mut fx = Fixture::new();
    let (p, _root) = fx.project("proj");
    let config = fx
        .store
        .agent_tool_create(
            p,
            "coder-a".into(),
            "Mediator".into(),
            "coder".into(),
            "/work".into(),
            "coder-cli".into(),
            String::new(),
            true,
            &fx.now,
        )
        .unwrap();
    // Two spawns sharing one explicit override stay distinguishable: the id
    // suffix disambiguates them in the cockpit.
    let one = fx
        .store
        .process_start_with(p, config, Some("Tester".into()), Vec::new(), &fx.now)
        .unwrap();
    let two = fx
        .store
        .process_start_with(p, config, Some("Tester".into()), Vec::new(), &fx.now)
        .unwrap();
    assert_eq!(one.display_name, format!("Tester #{}", one.id));
    assert_eq!(two.display_name, format!("Tester #{}", two.id));
    assert_ne!(one.display_name, two.display_name);
}

#[test]
fn process_output_and_search_read_the_capture_file() {
    let mut fx = Fixture::new();
    let (p, root) = fx.project("proj");
    let config = fx
        .store
        .agent_tool_create(
            p,
            "coder-a".into(),
            "Mediator".into(),
            "coder".into(),
            "/work".into(),
            "coder-cli".into(),
            String::new(),
            true,
            &fx.now,
        )
        .unwrap();
    let started = fx.store.process_start(p, config, &fx.now).unwrap();

    // No capture written yet -> empty, not an error.
    assert_eq!(fx.store.process_output(p, started.id, None, None).unwrap(), "");
    assert!(fx
        .store
        .search_output(p, started.id, "anything", None)
        .unwrap()
        .is_empty());

    // The cockpit tees the pane viewport to the capture file.
    assert_eq!(
        fx.store.output_capture_path(p, started.id).unwrap(),
        format!("{root}/.panopt/.cockpit/output-{}.txt", started.id)
    );
    let body = Some("line one\nROUND 3 READY\nline three");

    // Full read, tail-by-lines, and substring search.
    assert!(fx
        .store
        .process_output(p, started.id, None, body)
        .unwrap()
        .contains("ROUND 3 READY"));
    assert_eq!(
        fx.store.process_output(p, started.id, Some(1), body).unwrap(),
        "line three"
    );
    assert_eq!(
        fx.store.search_output(p, started.id, "ROUND 3", body).unwrap(),
        vec!["ROUND 3 READY".to_string()]
    );

    // An unknown instance is rejected (the row must exist).
    assert!(fx.store.process_output(p, 9999, None, body).is_err());
}

#[test]
fn render_agent_instructions_substitutes_real_process_facts() {
    let mut fx = Fixture::new();
    let (p, _root) = fx.project("proj");
    let config = fx
        .store
        .agent_tool_create(
            p,
            "mediator-1".into(),
            "Mediator".into(),
            "coder".into(),
            "/work".into(),
            "coder-cli".into(),
            String::new(),
            true,
            &fx.now,
        )
        .unwrap();
    let started = fx.store.process_start(p, config, &fx.now).unwrap();

    let rendered = fx
        .store
        .render_agent_instructions(
            p,
            &started,
            "127.0.0.1",
            7600,
            "secret-token",
            "/abs/panopt",
        )
        .unwrap()
        .expect("coder-cli ships an instructions template");
    // The shipped template names the instance's real id and token, fully
    // substituted - no placeholders leak through.
    assert!(
        rendered.contains(&format!("process #{}", started.id)),
        "instructions name the process id:\n{rendered}"
    );
    assert!(rendered.contains("mediator-1"), "names the agent id");
    assert!(!rendered.contains("{{"), "no unrendered placeholder");
}

#[test]
fn send_input_queues_projects_and_acks() {
    let mut fx = Fixture::new();
    let (p, root) = fx.project("proj");
    let config = fx
        .store
        .agent_tool_create(
            p,
            "coder-a".into(),
            "Mediator".into(),
            "coder".into(),
            "/work".into(),
            "coder-cli".into(),
            String::new(),
            true,
            &fx.now,
        )
        .unwrap();
    let started = fx.store.process_start(p, config, &fx.now).unwrap();

    // Two inputs queue in order and project to the cockpit JSONL file.
    fx.store.send_input(p, started.id, "first\n", &fx.now).unwrap();
    fx.store.send_input(p, started.id, "second\n", &fx.now).unwrap();
    let pending = fx.store.pending_inputs(p).unwrap();
    assert_eq!(pending.len(), 2);
    assert_eq!(pending[0].content, "first\n");
    assert_eq!(pending[1].content, "second\n");
    assert!(pending[0].id < pending[1].id, "ordered by queue id");

    let inputs_file = ".panopt/.cockpit/inputs.jsonl";
    let body = fx.read(&root, inputs_file);
    assert_eq!(body.lines().count(), 2, "both rows projected:\n{body}");
    assert!(body.contains("\"content\":\"first\\n\""), "{body}");

    // Acking the first drops it from the queue and the projection; the
    // second remains.
    fx.store.ack_input(p, pending[0].id, &fx.now).unwrap();
    let remaining = fx.store.pending_inputs(p).unwrap();
    assert_eq!(remaining.len(), 1);
    assert_eq!(remaining[0].content, "second\n");
    let body = fx.read(&root, inputs_file);
    assert_eq!(body.lines().count(), 1, "acked row gone:\n{body}");

    // Acking is idempotent - a repeat or unknown id is a no-op.
    fx.store.ack_input(p, pending[0].id, &fx.now).unwrap();
    assert_eq!(fx.store.pending_inputs(p).unwrap().len(), 1);
}

#[test]
fn send_input_rejects_unknown_and_stopped_processes() {
    let mut fx = Fixture::new();
    let (p, _root) = fx.project("proj");
    // Unknown id.
    assert!(matches!(
        fx.store.send_input(p, 999, "x\n", &fx.now),
        Err(CoreError::ProcessNotFound(_))
    ));
    // A stopped instance is not live, so input is refused rather than queued
    // for a process that will never read it.
    let config = fx
        .store
        .agent_tool_create(
            p,
            "coder-a".into(),
            "Mediator".into(),
            "coder".into(),
            "/work".into(),
            "coder-cli".into(),
            String::new(),
            true,
            &fx.now,
        )
        .unwrap();
    let started = fx.store.process_start(p, config, &fx.now).unwrap();
    fx.store.process_stop(p, started.id).unwrap();
    assert!(matches!(
        fx.store.send_input(p, started.id, "x\n", &fx.now),
        Err(CoreError::BadRequest(_))
    ));
}

#[test]
fn sweep_dead_processes_reaps_only_gone_pids() {
    let mut fx = Fixture::new();
    let (p, root) = fx.project("proj");
    let config = fx
        .store
        .agent_tool_create(
            p,
            "coder-a".into(),
            "Mediator".into(),
            "coder".into(),
            "/work".into(),
            "coder-cli".into(),
            String::new(),
            true,
            &fx.now,
        )
        .unwrap();
    let started = fx.store.process_start(p, config, &fx.now).unwrap();
    fx.store
        .process_report(p, started.id, Some(4242), None, None, &fx.now)
        .unwrap();

    // A `starting` row (no pid) of a second config must never be probed or
    // reaped - liveness only applies once a pid is anchored.
    let cfg2 = fx
        .store
        .agent_tool_create(
            p,
            "coder-b".into(),
            "Worker".into(),
            "coder".into(),
            "/work".into(),
            "coder-cli".into(),
            String::new(),
            true,
            &fx.now,
        )
        .unwrap();
    let starting = fx.store.process_start(p, cfg2, &fx.now).unwrap();

    // Predicate reports the pid alive: nothing is reaped.
    let reaped = {
        let alive = fx.store.running_pids();
        fx.store.sweep_dead_processes(&alive)
    }.unwrap();
    assert!(reaped.is_empty());
    assert_eq!(
        fx.store
            .process_get(p, started.id)
            .unwrap()
            .status
            .as_deref(),
        Some(RUNNING)
    );

    // Predicate reports the pid gone: the running row flips to exited and
    // its line leaves the projection; the pid-less `starting` row is intact.
    let reaped = fx.store.sweep_dead_processes(&vec![]).unwrap();
    assert_eq!(reaped, vec![(p.0, started.id)]);
    let row = fx.store.process_get(p, started.id).unwrap();
    assert_eq!(row.status.as_deref(), Some(EXITED));
    assert_eq!(
        fx.store
            .process_get(p, starting.id)
            .unwrap()
            .status
            .as_deref(),
        Some(STARTING)
    );
    let md = fx.read(&root, ".panopt/processes.md");
    assert!(
        !md.contains("Mediator"),
        "reaped row still projected:\n{md}"
    );

    // A reaped (exited) row no longer blocks a fresh start of its config.
    let restarted = fx.store.process_start(p, config, &fx.now).unwrap();
    assert_ne!(restarted.id, started.id);
}

#[test]
fn tick_process_projections_refreshes_idle_for_active_agents() {
    let mut fx = Fixture::new();
    let (p, root) = fx.project("proj");
    let config = fx
        .store
        .agent_tool_create(
            p,
            "coder-a".into(),
            "Mediator".into(),
            "coder".into(),
            "/work".into(),
            "coder-cli".into(),
            String::new(),
            true,
            &fx.now,
        )
        .unwrap();
    let started = fx.store.process_start(p, config, &fx.now).unwrap();
    // Flip it to running, then report `idle` (which stamps `state_since`).
    fx.store
        .process_report(p, started.id, Some(4242), None, None, &fx.now)
        .unwrap();
    fx.store
        .process_report(p, started.id, None, None, Some("idle".into()), &fx.now)
        .unwrap();

    // Backdate `state_since` 180s so the next reproject renders a non-zero
    // whole-minute idle age. The reproject clock is `now`, so age >= 180s
    // -> `idle:3m`.
    fx.store
        .process_update(
            p,
            started.id,
            ProcessPatch {
                state_since: Some(Some(fx.now.secs - 180)),
                ..Default::default()
            },
        )
        .unwrap();

    let count = fx.store.tick_process_projections().unwrap();
    assert_eq!(count, 1, "one project has a live agent");
    let md = fx.read(&root, ".panopt/processes.md");
    assert!(md.contains("state:idle"), "state not idle:\n{md}");
    assert!(md.contains("idle:3m"), "idle age not refreshed:\n{md}");

    // A project with no live agent is skipped (no work, no panic).
    let (_q, _) = fx.project("empty");
    assert_eq!(fx.store.tick_process_projections().unwrap(), 1);
}

#[test]
fn process_start_rejects_disabled_config() {
    let mut fx = Fixture::new();
    let (p, _) = fx.project("proj");
    let config = fx
        .store
        .agent_tool_create(
            p,
            "coder-a".into(),
            String::new(),
            "coder".into(),
            String::new(),
            "coder-cli".into(),
            String::new(),
            false,
            &fx.now,
        )
        .unwrap();
    assert!(matches!(
        fx.store.process_start(p, config, &fx.now),
        Err(CoreError::BadRequest(_))
    ));
}

#[test]
fn note_create_projects_the_index() {
    let mut fx = Fixture::new();
    let (p, root) = fx.project("proj");
    fx.store.note_create(p, "design notes".into(), &fx.now).unwrap();
    fx.store.note_create(p, "scratch".into(), &fx.now).unwrap();
    let index = fx.read(&root, ".panopt/notes.md");
    assert!(index.contains("- [#1](note/1.md) design notes"), "{index}");
    assert!(index.contains("- [#2](note/2.md) scratch"), "{index}");
}

/// Soft delete keeps the row in SQLite but hides it from every live read
/// path: list, get, the projection. The row is the seed for a future
/// undelete surface; without it, recovery would have nothing to revive.
#[test]
fn soft_delete_keeps_the_row_but_hides_it_from_reads() {
    let mut fx = Fixture::new();
    let (p, _) = fx.project("proj");
    let id = fx.store.todo_create(p, "going away".into(), &fx.now).unwrap();
    fx.store.todo_delete(p, id, &fx.now).unwrap();

    assert!(fx.store.todo_list(p).unwrap().is_empty());
    assert!(matches!(
        fx.store.todo_get(p, id).unwrap_err(),
        CoreError::TodoNotFound(_)
    ));
    // A second delete on the same id reports NotFound because the live
    // row is gone from the deleter's point of view.
    assert!(matches!(
        fx.store.todo_delete(p, id, &fx.now).unwrap_err(),
        CoreError::TodoNotFound(_)
    ));

    let at = fx.store.find_project(p.0).unwrap();
    let surviving = fx.store.projects[at]
        .todos
        .rows
        .iter()
        .filter(|row| row.deleted_at.is_some())
        .count();
    assert_eq!(surviving, 1, "row stays behind for future undelete");
}

/// A blocker pointing at a soft-deleted todo must not surface in the
/// blocked todo's `blockers` list - otherwise the form / projection
/// shows a chip for a row the rest of the UI treats as gone.
#[test]
fn blocker_list_hides_soft_deleted_blockers() {
    let mut fx = Fixture::new();
    let (p, _) = fx.project("proj");
    let blocker = fx.store.todo_create(p, "upstream".into(), &fx.now).unwrap();
    let blocked = fx.store.todo_create(p, "downstream".into(), &fx.now).unwrap();
    fx.store.todo_add_blocker(p, blocked, blocker, &fx.now).unwrap();
    assert_eq!(
        fx.store.todo_get(p, blocked).unwrap().blockers,
        vec![blocker]
    );

    fx.store.todo_delete(p, blocker, &fx.now).unwrap();
    assert!(fx.store.todo_get(p, blocked).unwrap().blockers.is_empty());
}

/// A numeric query reaches the item by its `#N` id, even when no
/// title/body text mentions that number. The `#`-prefixed form works too.
#[test]
fn note_search_matches_exact_id() {
    let mut fx = Fixture::new();
    let (p, _) = fx.project("proj");
    let _a = fx.store.note_create(p, "alpha".into(), &fx.now).unwrap();
    let target = fx.store.note_create(p, "beta".into(), &fx.now).unwrap();
    let _c = fx.store.note_create(p, "gamma".into(), &fx.now).unwrap();

    let by_num: Vec<u64> = fx
        .store
        .note_search(p, Some(&target.to_string()), &vec![])
        .unwrap()
        .into_iter()
        .map(|(id, _)| id)
        .collect();
    assert!(by_num.contains(&target), "bare number finds #N: {by_num:?}");

    let by_hash: Vec<u64> = fx
        .store
        .note_search(p, Some(&format!("#{target}")), &vec![])
        .unwrap()
        .into_iter()
        .map(|(id, _)| id)
        .collect();
    assert!(
        by_hash.contains(&target),
        "#-prefixed form finds #N: {by_hash:?}"
    );
}

/// The id predicate is an exact match, not a digit substring: searching `2`
/// must not drag in `#20` (or `#12`), only `#2`. Titles carry no digits so
/// the only matches come from the id clause.
#[test]
fn note_search_id_match_is_exact_not_substring() {
    let mut fx = Fixture::new();
    let (p, _) = fx.project("proj");
    // ids 1..=20, all titled without digits so text matching can't fire.
    for _ in 0..20 {
        fx.store.note_create(p, "plain".into(), &fx.now).unwrap();
    }
    let ids: Vec<u64> = fx
        .store
        .note_search(p, Some("2"), &vec![])
        .unwrap()
        .into_iter()
        .map(|(id, _)| id)
        .collect();
    assert_eq!(
        ids,
        vec![2],
        "only the exact id #2, not #12 or #20: {ids:?}"
    );
}

/// The same exact-id reach applies to todos, alongside (not replacing) the
/// existing text and status/priority filters.
#[test]
fn todo_search_matches_exact_id() {
    let mut fx = Fixture::new();
    let (p, _) = fx.project("proj");
    let _first = fx.store.todo_create(p, "groceries".into(), &fx.now).unwrap();
    let target = fx.store.todo_create(p, "taxes".into(), &fx.now).unwrap();

    let hits: Vec<u64> = fx
        .store
        .todo_search(p, Some(&target.to_string()), None, None, None, &vec![])
        .unwrap()
        .into_iter()
        .map(|t| t.id)
        .collect();
    assert_eq!(
        hits,
        vec![target],
        "numeric query finds exactly #N: {hits:?}"
    );
}
