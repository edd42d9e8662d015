use std::collections::HashSet;

use update_store::common::get_time;
use update_store::record::record_fields;
use update_store::record::StoreError;
use update_store::store::collect_updates;
use update_store::store::MemoryStore;

#[test]
fn empty_store_lists_nothing() {
    let store = MemoryStore::new();
    let listed = store.list_chronological().unwrap();
    assert!(listed.is_empty());
}

#[test]
fn append_then_list_round_trip() {
    let before = get_time();
    let mut store = MemoryStore::new();
    let id = store.append(42, "hello").unwrap();
    assert!(id.starts_with("spiralbot:updates:"));
    let listed = store.list_chronological().unwrap();
    assert_eq!(listed.len(), 1);
    assert_eq!(listed[0].user_id, 42);
    assert_eq!(listed[0].message, "hello");
    assert!(listed[0].time >= before);
}

#[test]
fn scenario_two_appends_list_in_order() {
    let t = 1700000000;
    let mut store = MemoryStore::new();
    let a1 = store.append_at(42, "hi", t).unwrap();
    let a2 = store.append_at(7, "yo", t + 1).unwrap();
    assert_ne!(a1, a2);
    let listed = store.list_chronological().unwrap();
    assert_eq!(listed.len(), 2);
    assert_eq!(listed[0].user_id, 42);
    assert_eq!(listed[0].message, "hi");
    assert_eq!(listed[0].time, t);
    assert_eq!(listed[1].user_id, 7);
    assert_eq!(listed[1].message, "yo");
    assert_eq!(listed[1].time, t + 1);
}

#[test]
fn ascending_times_keep_call_order() {
    let mut store = MemoryStore::new();
    for i in 0..20u64 {
        store.append_at(i, &format!("m{}", i), 1000 + i).unwrap();
    }
    let listed = store.list_chronological().unwrap();
    assert_eq!(listed.len(), 20);
    for i in 0..20u64 {
        assert_eq!(listed[i as usize].user_id, i);
        assert_eq!(listed[i as usize].message, format!("m{}", i));
        assert_eq!(listed[i as usize].time, 1000 + i);
    }
}

#[test]
fn out_of_order_clock_still_lists_by_score() {
    let mut store = MemoryStore::new();
    store.append_at(1, "later", 200).unwrap();
    store.append_at(2, "earlier", 100).unwrap();
    let listed = store.list_chronological().unwrap();
    assert_eq!(listed.len(), 2);
    assert_eq!(listed[0].message, "earlier");
    assert_eq!(listed[1].message, "later");
}

#[test]
fn ten_thousand_appends_yield_distinct_ids() {
    let mut store = MemoryStore::new();
    let mut ids: HashSet<String> = HashSet::new();
    for i in 0..10000u64 {
        let id = store.append(i, "m").unwrap();
        ids.insert(id);
    }
    assert_eq!(ids.len(), 10000);
    assert_eq!(store.zrange_all().len(), 10000);
}

#[test]
fn records_are_immutable_under_later_operations() {
    let mut store = MemoryStore::new();
    let id = store.append_at(1, "hello", 10).unwrap();
    store.append_at(2, "world", 20).unwrap();
    store.append_at(3, "hello again", 30).unwrap();
    store.list_chronological().unwrap();
    let fields = store.hgetall(&id).unwrap();
    assert!(fields.contains(&("message".to_string(), "hello".to_string())));
    let listed = store.list_chronological().unwrap();
    assert_eq!(listed[0].message, "hello");
    assert_eq!(listed[0].user_id, 1);
}

#[test]
fn scenario_failed_index_insert_leaves_orphan_invisible() {
    let mut store = MemoryStore::new();
    store.append_at(42, "kept", 10).unwrap();
    store.fail_next_index_insert();
    let r = store.append_at(7, "orphaned", 20);
    match r {
        Err(StoreError::Command(_)) => {}
        other => panic!("expected a command failure, got {:?}", other),
    }
    let listed = store.list_chronological().unwrap();
    assert_eq!(listed.len(), 1);
    assert_eq!(listed[0].message, "kept");
    let next = store.append_at(9, "after", 30).unwrap();
    assert!(!next.is_empty());
    let listed = store.list_chronological().unwrap();
    assert_eq!(listed.len(), 2);
    assert!(listed.iter().all(|u| u.message != "orphaned"));
}

#[test]
fn indexed_key_without_record_poisons_listing() {
    let mut store = MemoryStore::new();
    store.append_at(1, "fine", 10).unwrap();
    store.zadd(20, "spiralbot:updates:missing".to_string());
    let e = store.list_chronological().unwrap_err();
    assert_eq!(
        e,
        StoreError::Deserialization("spiralbot:updates:missing".to_string())
    );
}

#[test]
fn malformed_record_poisons_listing() {
    let mut store = MemoryStore::new();
    store.append_at(1, "fine", 10).unwrap();
    let key = "spiralbot:updates:corrupt".to_string();
    store.hset(
        key.clone(),
        vec![
            ("user_id".to_string(), "not-a-number".to_string()),
            ("message".to_string(), "x".to_string()),
            ("time".to_string(), "20".to_string()),
        ],
    );
    store.zadd(20, key.clone());
    let e = store.list_chronological().unwrap_err();
    assert_eq!(e, StoreError::Deserialization(key));
}

#[test]
fn newer_binding_shadows_older() {
    let mut store = MemoryStore::new();
    let key = "spiralbot:updates:k".to_string();
    store.hset(key.clone(), record_fields(1, "old", 5));
    store.hset(key.clone(), record_fields(2, "new", 6));
    let fields = store.hgetall(&key).unwrap();
    assert!(fields.contains(&("message".to_string(), "new".to_string())));
}

#[test]
fn zrange_all_returns_members_ascending() {
    let mut store = MemoryStore::new();
    store.zadd(30, "c".to_string());
    store.zadd(10, "a".to_string());
    store.zadd(20, "b".to_string());
    assert_eq!(store.zrange_all(), vec!["a", "b", "c"]);
}

#[test]
fn zadd_keeps_equal_scores_in_insertion_order() {
    let mut store = MemoryStore::new();
    store.zadd(10, "first".to_string());
    store.zadd(10, "second".to_string());
    assert_eq!(store.zrange_all(), vec!["first", "second"]);
}

#[test]
fn collect_updates_rebuilds_rows_in_order() {
    let rows = vec![
        ("k1".to_string(), record_fields(42, "hi", 100)),
        ("k2".to_string(), record_fields(7, "yo", 101)),
    ];
    let listed = collect_updates(&rows).unwrap();
    assert_eq!(listed.len(), 2);
    assert_eq!(listed[0].user_id, 42);
    assert_eq!(listed[0].message, "hi");
    assert_eq!(listed[0].time, 100);
    assert_eq!(listed[1].user_id, 7);
    assert_eq!(listed[1].message, "yo");
    assert_eq!(listed[1].time, 101);
}

#[test]
fn collect_updates_names_first_bad_key() {
    let rows = vec![
        ("k1".to_string(), record_fields(42, "hi", 100)),
        ("k2".to_string(), Vec::new()),
        ("k3".to_string(), record_fields(7, "yo", 101)),
    ];
    let e = collect_updates(&rows).unwrap_err();
    assert_eq!(e, StoreError::Deserialization("k2".to_string()));
}

#[test]
fn collect_updates_of_no_rows_is_empty() {
    let rows: Vec<(String, Vec<(String, String)>)> = Vec::new();
    assert!(collect_updates(&rows).unwrap().is_empty());
}

#[test]
fn clock_reads_are_usable_times() {
    assert!(get_time() > 0);
}
