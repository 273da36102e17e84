use panopt::model::KeySource;
use panopt::registry::Registry;

#[test]
fn touch_registers_then_only_updates() {
    let mut r = Registry::default();
    assert!(r.touch(1, "a", KeySource::Session, 0)); // newly registered
    assert!(!r.touch(1, "a", KeySource::Session, 0)); // already present
    assert_eq!(r.list(1).len(), 1);
}

#[test]
fn touch_stamps_source_on_first_sight_only() {
    let mut r = Registry::default();
    r.touch(1, "a", KeySource::Declared, 0);
    // A later touch under a different source must not downgrade the entry:
    // a `?agent=` URL can't randomly forget itself, so if it ever did, the
    // declared identity wins by construction.
    r.touch(1, "a", KeySource::Session, 0);
    assert_eq!(r.get(1, "a").unwrap().key_source, KeySource::Declared);
}

#[test]
fn rosters_are_project_isolated() {
    let mut r = Registry::default();
    r.touch(1, "a", KeySource::Session, 0);
    r.touch(2, "b", KeySource::Session, 0);
    assert_eq!(r.list(1).len(), 1);
    assert_eq!(r.list(2).len(), 1);
    assert_eq!(r.list(1)[0].key, "a");
}

#[test]
fn identify_sets_name_and_status() {
    let mut r = Registry::default();
    r.touch(1, "a", KeySource::Session, 0);
    r.identify(1, "a", "coder".into(), Some("working".into()));
    let agent = r.get(1, "a").unwrap();
    assert_eq!(agent.name, "coder");
    assert_eq!(agent.status, "working");
}

#[test]
fn prune_all_sweeps_every_project() {
    let mut r = Registry::default();
    r.touch(1, "a", KeySource::Session, 0);
    r.touch(2, "b", KeySource::Session, 0);
    r.touch(2, "c", KeySource::Session, 0);
    let pruned = r.prune_all(0, 0);
    assert_eq!(pruned.len(), 3);
    assert!(r.list(1).is_empty());
    assert!(r.list(2).is_empty());
}

#[test]
fn prune_drops_only_idle_agents() {
    let mut r = Registry::default();
    r.touch(1, "a", KeySource::Session, 0);
    // Just touched: a generous window keeps it.
    assert!(r.prune(1, 3_600_000_000_000, 0).is_empty());
    // A zero window means nothing qualifies as recent.
    assert_eq!(r.prune(1, 0, 0), vec!["a".to_string()]);
    assert!(r.list(1).is_empty());
}

#[test]
fn prune_keeps_declared_agents() {
    let mut r = Registry::default();
    r.touch(1, "stable", KeySource::Declared, 0);
    r.touch(1, "ephemeral", KeySource::Session, 0);
    // Even with a zero idle window the declared entry survives; the
    // session entry goes.
    assert_eq!(r.prune(1, 0, 0), vec!["ephemeral".to_string()]);
    let keys: Vec<String> = r.list(1).into_iter().map(|a| a.key).collect();
    assert_eq!(keys, vec!["stable".to_string()]);
}

#[test]
fn remove_evicts_regardless_of_source() {
    let mut r = Registry::default();
    r.touch(1, "stable", KeySource::Declared, 0);
    let removed = r.remove(1, "stable").expect("entry was present");
    assert_eq!(removed.key, "stable");
    assert!(r.list(1).is_empty());
    // Idempotent: removing a missing key is a no-op.
    assert!(r.remove(1, "stable").is_none());
}

#[test]
fn touch_moves_the_last_moment_only() {
    let mut r = Registry::default();
    r.touch(1, "a", KeySource::Session, 5);
    r.touch(1, "a", KeySource::Session, 9);
    let a = r.get(1, "a").unwrap();
    assert_eq!((a.first_seen, a.last_seen), (5, 9));
    // Until it says who it is, an agent goes by its key.
    assert_eq!(a.name, "a");
}

#[test]
fn a_clock_that_went_back_prunes_nobody() {
    let mut r = Registry::default();
    r.touch(1, "a", KeySource::Session, 100);
    assert!(r.prune(1, 0, 50).is_empty());
    assert_eq!(r.prune(1, 10, 110), vec!["a".to_string()]);
}

#[test]
fn active_agents_are_counted_by_project() {
    let mut r = Registry::default();
    r.touch(2, "a", KeySource::Session, 0);
    r.touch(2, "b", KeySource::Session, 100);
    r.touch(1, "c", KeySource::Declared, 100);
    assert_eq!(r.active_total(10, 105), 2);
    assert_eq!(r.active_of(2, 10, 105), 1);
    assert_eq!(r.active_counts_by_project(10, 105), vec![(1, 1), (2, 1)]);
    // Exactly at the window still counts; one more does not.
    assert_eq!(r.active_total(5, 105), 2);
    assert_eq!(r.active_total(4, 105), 0);
}

#[test]
fn backdating_moves_an_agent_into_the_past() {
    let mut r = Registry::default();
    r.touch(1, "a", KeySource::Session, 100);
    r.backdate_last_seen(1, "a", 30);
    assert_eq!(r.get(1, "a").unwrap().last_seen, 70);
}

#[test]
fn the_counts_by_project_add_up() {
    let mut r = Registry::default();
    for (project, key, seen) in [(3, "a", 90), (1, "b", 95), (3, "c", 200), (2, "d", 10), (1, "b", 99)] {
        r.touch(project, key, KeySource::Session, seen);
    }
    let counts = r.active_counts_by_project(10, 100);
    // One that was seen later than now counts; one that is long gone does not.
    assert_eq!(counts, vec![(1, 1), (3, 2)]);
    let total: usize = counts.iter().map(|c| c.1).sum();
    assert_eq!(total, r.active_total(10, 100));
}
