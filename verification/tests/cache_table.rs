use std::collections::HashMap;
use std::sync::Arc;

use rtcache::cache::{
    begin_get, evict_all_step, finish_fetch, forget_key, prune_entry, prune_node, release_or_restore,
    snapshot_keys, store_value, try_evict_with_lock, CacheEntry, CacheNode, GetError, Lookup,
};

type Table = HashMap<u64, CacheEntry<String>>;

fn hello() -> Arc<String> {
    Arc::new(String::from("Hello"))
}

#[test]
fn absent_key_starts_a_fetch_and_others_wait() {
    let mut map: Table = HashMap::new();
    let (sender, mut first) = match begin_get(&mut map, 10) {
        Lookup::StartFetch { sender, receiver } => (sender, receiver),
        _ => panic!("expected a fetch to start"),
    };
    assert!(map.contains_key(&10));
    let mut second = match begin_get(&mut map, 10) {
        Lookup::Wait(receiver) => receiver,
        _ => panic!("expected to wait for the fetch"),
    };
    let outcome = finish_fetch(&mut map, 10, Ok(hello()));
    assert_eq!(*outcome.as_ref().unwrap().as_ref(), "Hello");
    sender.sender.send(outcome).unwrap();
    assert_eq!(*first.receiver.try_recv().unwrap().unwrap(), "Hello");
    assert_eq!(*second.receiver.try_recv().unwrap().unwrap(), "Hello");
    match begin_get(&mut map, 10) {
        Lookup::Hit(v) => assert_eq!(*v, "Hello"),
        _ => panic!("expected a hit"),
    }
}

#[test]
fn failed_fetch_is_remembered() {
    let mut map: Table = HashMap::new();
    assert!(matches!(begin_get(&mut map, 1), Lookup::StartFetch { .. }));
    let err = Arc::new(anyhow::Error::msg("Key not found"));
    let outcome = finish_fetch(&mut map, 1, Err(err.clone()));
    assert!(Arc::ptr_eq(outcome.as_ref().unwrap_err(), &err));
    match begin_get(&mut map, 1) {
        Lookup::Failed(GetError { fetch_error }) => {
            assert!(Arc::ptr_eq(&fetch_error, &err));
            assert_eq!(fetch_error.to_string(), "Key not found");
        }
        _ => panic!("expected the failure"),
    }
    // a failed entry is dropped by eviction, with nothing to hand back
    let (done, value) = try_evict_with_lock(&mut map, 1);
    assert!(done);
    assert!(value.is_none());
    assert!(map.is_empty());
}

#[test]
fn inserted_value_wins_over_fetch() {
    let mut map: Table = HashMap::new();
    assert!(matches!(begin_get(&mut map, 3), Lookup::StartFetch { .. }));
    store_value(&mut map, 3, Arc::new(String::from("inserted")));
    let outcome = finish_fetch(&mut map, 3, Ok(Arc::new(String::from("fetched"))));
    assert_eq!(*outcome.unwrap(), "inserted");
    match begin_get(&mut map, 3) {
        Lookup::Hit(v) => assert_eq!(*v, "inserted"),
        _ => panic!("expected a hit"),
    }
}

#[test]
fn fetch_after_removal_is_stored() {
    let mut map: Table = HashMap::new();
    assert!(matches!(begin_get(&mut map, 4), Lookup::StartFetch { .. }));
    forget_key(&mut map, 4);
    assert!(!map.contains_key(&4));
    let outcome = finish_fetch(&mut map, 4, Ok(hello()));
    assert_eq!(*outcome.unwrap(), "Hello");
    assert!(matches!(begin_get(&mut map, 4), Lookup::Hit(_)));
}

#[test]
fn shared_value_is_not_evicted() {
    let mut map: Table = HashMap::new();
    store_value(&mut map, 5, hello());
    let held = match begin_get(&mut map, 5) {
        Lookup::Hit(v) => v,
        _ => panic!("expected a hit"),
    };
    let (done, value) = try_evict_with_lock(&mut map, 5);
    assert!(!done);
    assert!(value.is_none());
    assert!(map.contains_key(&5));
    drop(held);
    let (done, value) = try_evict_with_lock(&mut map, 5);
    assert!(done);
    assert_eq!(value.as_deref(), Some("Hello"));
    assert!(!map.contains_key(&5));
    // evicting an absent key succeeds with nothing to do
    assert_eq!(try_evict_with_lock(&mut map, 5), (true, None));
}

#[test]
fn evict_all_step_stops_after_first_failure() {
    let mut map: Table = HashMap::new();
    store_value(&mut map, 1, hello());
    store_value(&mut map, 2, hello());
    assert_eq!(evict_all_step(false, &mut map, 1), (false, None));
    assert_eq!(map.len(), 2);
    let (done, value) = evict_all_step(true, &mut map, 1);
    assert!(done);
    assert_eq!(value.as_deref(), Some("Hello"));
    assert_eq!(map.len(), 1);
}

#[test]
fn prune_evicts_only_idle_unshared_values() {
    let mut map: Table = HashMap::new();
    store_value(&mut map, 1, hello());
    let later = tokio::time::Instant::now() + std::time::Duration::from_secs(120);
    let ttl = std::time::Duration::from_secs(60).as_nanos();
    // not idle long enough
    assert!(prune_entry(&mut map, 1, &tokio::time::Instant::now(), ttl).is_none());
    assert!(map.contains_key(&1));
    // idle, but shared
    let held = match begin_get(&mut map, 1) {
        Lookup::Hit(v) => v,
        _ => panic!("expected a hit"),
    };
    assert!(prune_entry(&mut map, 1, &later, ttl).is_none());
    assert!(map.contains_key(&1));
    drop(held);
    assert_eq!(prune_entry(&mut map, 1, &later, ttl).as_deref(), Some("Hello"));
    assert!(map.is_empty());
    // entries that hold no value are left alone
    assert!(matches!(begin_get(&mut map, 2), Lookup::StartFetch { .. }));
    assert!(prune_entry(&mut map, 2, &later, ttl).is_none());
    assert!(map.contains_key(&2));
}

#[test]
fn snapshot_lists_each_key_once() {
    let mut map: Table = HashMap::new();
    for k in 0..10 {
        store_value(&mut map, k, hello());
    }
    let mut keys = snapshot_keys(&map);
    keys.sort();
    assert_eq!(keys, (0..10).collect::<Vec<u64>>());
}

#[test]
fn get_error_keeps_the_fetch_error() {
    let err = Arc::new(anyhow::Error::msg("boom"));
    let e = GetError::new(err.clone());
    assert!(Arc::ptr_eq(&e.fetch_error, &err));
}

fn take_node(map: &mut Table, k: u64) -> CacheNode<String> {
    match map.remove(&k) {
        Some(CacheEntry::Node(node)) => node,
        _ => panic!("expected a node"),
    }
}

#[test]
fn release_or_restore_follows_the_unwrap_outcome() {
    let mut map: Table = HashMap::new();
    store_value(&mut map, 1, hello());
    let node = take_node(&mut map, 1);
    assert_eq!(release_or_restore(&mut map, 1, Err(node)), None);
    assert!(matches!(begin_get(&mut map, 1), Lookup::Hit(v) if *v == "Hello"));
    let _node = take_node(&mut map, 1);
    assert_eq!(
        release_or_restore(&mut map, 1, Ok(String::from("Hello"))).as_deref(),
        Some("Hello")
    );
    assert!(!map.contains_key(&1));
}

#[test]
fn prune_node_keeps_recent_and_releases_idle() {
    let mut map: Table = HashMap::new();
    store_value(&mut map, 1, hello());
    let node = take_node(&mut map, 1);
    assert_eq!(prune_node(&mut map, 1, node, 10, 20), None);
    assert!(map.contains_key(&1));
    let node = take_node(&mut map, 1);
    assert_eq!(prune_node(&mut map, 1, node, 20, 20).as_deref(), Some("Hello"));
    assert!(map.is_empty());
    // an idle but shared value goes back
    store_value(&mut map, 2, hello());
    let held = match begin_get(&mut map, 2) {
        Lookup::Hit(v) => v,
        _ => panic!("expected a hit"),
    };
    let node = take_node(&mut map, 2);
    assert_eq!(prune_node(&mut map, 2, node, 30, 20), None);
    assert!(map.contains_key(&2));
    drop(held);
}

#[test]
fn eviction_leaves_other_keys_alone() {
    let mut map: Table = HashMap::new();
    store_value(&mut map, 1, hello());
    store_value(&mut map, 2, Arc::new(String::from("other")));
    let (done, value) = try_evict_with_lock(&mut map, 1);
    assert!(done);
    assert_eq!(value.as_deref(), Some("Hello"));
    assert!(matches!(begin_get(&mut map, 2), Lookup::Hit(v) if *v == "other"));
    forget_key(&mut map, 2);
    assert!(map.is_empty());
}
