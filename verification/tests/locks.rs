use panopt::locks::Locks;

#[test]
fn acquire_grants_then_blocks_others() {
    let mut l = Locks::default();
    assert_eq!(l.acquire(1, "a", "auth".into(), None, 0), None); // a takes it
    assert_eq!(l.acquire(1, "a", "auth".into(), None, 0), None); // a re-acquires
    assert_eq!(
        l.acquire(1, "b", "auth".into(), None, 0),
        Some("a".to_string())
    ); // b is denied
}

#[test]
fn release_frees_only_for_the_holder() {
    let mut l = Locks::default();
    l.acquire(1, "a", "auth".into(), None, 0);
    assert_eq!(l.release(1, "b", "auth"), Some("a".to_string())); // b cannot
    assert_eq!(l.release(1, "a", "auth"), None); // a can
    assert_eq!(l.acquire(1, "b", "auth".into(), None, 0), None); // now free for b
}

#[test]
fn release_of_a_free_lock_is_a_noop() {
    let mut l = Locks::default();
    assert_eq!(l.release(1, "a", "absent"), None);
}

#[test]
fn release_all_drops_one_holders_locks() {
    let mut l = Locks::default();
    l.acquire(1, "a", "one".into(), None, 0);
    l.acquire(1, "a", "two".into(), None, 0);
    l.acquire(1, "b", "three".into(), None, 0);
    assert_eq!(l.release_all(1, "a"), 2);
    assert_eq!(l.list(1).len(), 1);
    assert_eq!(l.list(1)[0].name, "three");
}

#[test]
fn re_acquire_updates_the_note() {
    let mut l = Locks::default();
    l.acquire(1, "a", "auth".into(), Some("first".into()), 0);
    l.acquire(1, "a", "auth".into(), Some("second".into()), 0);
    assert_eq!(l.list(1)[0].note, "second");
}

#[test]
fn locks_locks_are_project_isolated() {
    let mut l = Locks::default();
    l.acquire(1, "a", "auth".into(), None, 0);
    // The same name in another project is free.
    assert_eq!(l.acquire(2, "b", "auth".into(), None, 0), None);
}

#[test]
fn a_lock_records_who_took_it_and_when() {
    let mut l = Locks::default();
    l.acquire(1, "a", "auth".into(), Some("token work".into()), 17);
    // Taking it again keeps the first moment, and the note where none is given.
    l.acquire(1, "a", "auth".into(), None, 99);
    let held = l.list(1);
    assert_eq!(held[0].name, "auth");
    assert_eq!(held[0].holder_key, "a");
    assert_eq!(held[0].acquired_at, 17);
    assert_eq!(held[0].note, "token work");
}

#[test]
fn locks_are_listed_by_age() {
    let mut l = Locks::default();
    l.acquire(1, "a", "beta".into(), None, 7);
    l.acquire(1, "b", "zeta".into(), None, 3);
    l.acquire(1, "b", "alpha".into(), None, 7);
    l.acquire(2, "b", "other".into(), None, 1);
    let names: Vec<String> = l.list(1).into_iter().map(|x| x.name).collect();
    assert_eq!(names, vec!["zeta", "alpha", "beta"]);
}

#[test]
fn a_lock_is_listed_once_and_without_the_name_of_its_holder() {
    let mut l = Locks::default();
    assert!(l.list(1).is_empty());
    l.acquire(1, "a", "auth".into(), None, 5);
    l.acquire(1, "a", "auth".into(), Some("again".into()), 6);
    l.acquire(1, "b", "auth".into(), None, 7);
    l.acquire(1, "b", "deploy".into(), None, 5);
    l.acquire(2, "b", "auth".into(), None, 1);
    l.release(1, "c", "deploy");
    let held = l.list(1);
    let shown: Vec<(&str, &str, &str)> = held
        .iter()
        .map(|x| (x.name.as_str(), x.holder_key.as_str(), x.holder_name.as_str()))
        .collect();
    assert_eq!(shown, vec![("auth", "a", ""), ("deploy", "b", "")]);
}
