use minicon::session_store::SessionStore;
use minicon::tab::TabId;

#[test]
fn stable_ids_own_values_independently_of_storage_order() {
    let first = TabId::new(1);
    let middle = TabId::new(2);
    let last = TabId::new(3);
    let mut store = SessionStore::default();
    store.insert(first, "first".to_owned()).unwrap();
    store.insert(middle, "middle".to_owned()).unwrap();
    store.insert(last, "last".to_owned()).unwrap();

    store.get_mut(&last).unwrap().push('!');
    assert_eq!(store.remove(&middle).as_deref(), Some("middle"));
    assert_eq!(store.get(&first).map(String::as_str), Some("first"));
    assert_eq!(store.get(&last).map(String::as_str), Some("last!"));
    assert!(!store.contains_key(&middle));
}

#[test]
fn duplicate_id_is_rejected_without_replacing_the_live_session() {
    let id = TabId::new(1);
    let mut store = SessionStore::default();
    store.insert(id, "original").unwrap();

    assert_eq!(store.insert(id, "duplicate"), Err("duplicate"));
    assert_eq!(store.get(&id), Some(&"original"));
}

#[test]
fn unknown_ids_and_reinsertion_after_removal() {
    let id = TabId::new(1);
    let unknown = TabId::new(9);
    let mut store = SessionStore::default();
    store.insert(id, "live").unwrap();

    assert!(store.get(&unknown).is_none());
    assert!(store.get_mut(&unknown).is_none());
    assert!(store.remove(&unknown).is_none());
    assert_eq!(
        store.get(&id),
        Some(&"live"),
        "an unknown-id operation must not disturb a live entry"
    );

    assert_eq!(store.remove(&id), Some("live"));
    store
        .insert(id, "reopened")
        .expect("a closed id can be reused");
    assert_eq!(store.get(&id), Some(&"reopened"));
}

#[test]
fn entries_mut_exposes_every_stored_pair_in_order() {
    let mut store = SessionStore::default();
    store.insert(TabId::new(1), "a").unwrap();
    store.insert(TabId::new(2), "b").unwrap();
    let entries = store.entries_mut();
    assert_eq!(entries.len(), 2);
    assert_eq!(entries[0], (TabId::new(1), "a"));
    assert_eq!(entries[1], (TabId::new(2), "b"));
    entries[0].1 = "a2";
    assert_eq!(store.get(&TabId::new(1)), Some(&"a2"));
}

#[test]
fn swap_removal_keeps_every_survivor_reachable() {
    let mut store = SessionStore::default();
    for id in 1..=4 {
        store.insert(TabId::new(id), format!("s{id}")).unwrap();
    }
    assert_eq!(store.remove(&TabId::new(2)).as_deref(), Some("s2"));

    let mut seen: Vec<TabId> = store.entries_mut().iter().map(|(id, _)| *id).collect();
    seen.sort_by_key(|id| id.get());
    assert_eq!(
        seen,
        vec![TabId::new(1), TabId::new(3), TabId::new(4)],
        "removal must not lose, duplicate, or keep the removed id"
    );
    for id in [1, 3, 4] {
        let expected = format!("s{id}");
        assert_eq!(
            store.get(&TabId::new(id)).map(String::as_str),
            Some(expected.as_str()),
            "@{id} must survive the swap removal"
        );
    }
    assert!(store.get(&TabId::new(2)).is_none());
}

#[test]
fn removal_moves_the_last_entry_into_the_freed_slot() {
    let mut store = SessionStore::default();
    for id in 1..=3 {
        store.insert(TabId::new(id), id).unwrap();
    }
    assert_eq!(store.remove(&TabId::new(1)), Some(1));
    let order: Vec<u64> = store.entries_mut().iter().map(|(id, _)| id.get()).collect();
    assert_eq!(order, vec![3, 2]);
}
