use kronical::config::{AppConfig, DatabaseBackendConfig, ONE_SECOND_BITS};
use kronical::events::{MouseButton, MouseEventKind};
use kronical::input::{
    button_from_hook, event_kind_from_hook, HookMouseButton, HookMouseEventType,
};
use kronical::interner::StringInterner;
use kronical::lru::LruCache;
use kronical::paths::{grpc_uds, http_uds, join_path, pid_file, run_id_file};
use kronical::threading::{spawn_failure, ThreadRegistry, ThreadStatus};
use std::path::Path;
use std::sync::Arc;
use std::time::{Duration, Instant};

fn pause(millis: u64) {
    let start = Instant::now();
    while start.elapsed() < Duration::from_millis(millis) {}
}

#[test]
fn reuses_existing_arc_for_same_string() {
    let mut interner = StringInterner::new();
    let first = interner.intern("terminal");
    let second = interner.intern("terminal");
    assert!(Arc::ptr_eq(&first, &second));
}

#[test]
fn cleans_dead_entries_and_resets_capacity_when_full() {
    let mut interner = StringInterner::with_max_entries(2);

    let first = interner.intern("one");
    let second = interner.intern("two");
    assert_eq!(interner.len(), 2);

    drop(first);
    drop(second);

    // This call should purge dead refs and then reuse capacity.
    let third = interner.intern("three");
    assert_eq!(interner.len(), 1);
    assert!(Arc::ptr_eq(&third, &interner.intern("three")));

    // Fill again to trigger force-clear path.
    let _ = interner.intern("alpha");
    let _ = interner.intern("beta");
    assert!(interner.len() <= 2);
}

#[test]
fn cleanup_clears_when_capacity_reached_with_live_entries() {
    let mut interner = StringInterner::with_max_entries(1);

    let one = interner.intern("one");
    let _two = interner.intern("two");

    assert_eq!(interner.len(), 1);
    assert!(interner.contains("two"));
    assert!(!interner.contains("one"));
    let _three = interner.intern("two");
    drop(one);
}

#[test]
fn evicts_least_recently_used_entry() {
    let mut cache = LruCache::with_capacity(2);
    let key_a = "a".to_string();
    let key_b = "b".to_string();
    let key_c = "c".to_string();

    cache.put(key_a.clone(), 1);
    pause(1);
    cache.put(key_b.clone(), 2);
    pause(1);

    // Refresh key_a so key_b becomes the oldest entry.
    assert_eq!(cache.get_cloned(&key_a), Some(1));
    pause(1);

    cache.put(key_c.clone(), 3);

    assert_eq!(cache.get_cloned(&key_b), None);
    assert_eq!(cache.get_cloned(&key_a), Some(1));
    assert_eq!(cache.get_cloned(&key_c), Some(3));
}

#[test]
fn ttl_expiration_removes_stale_entries() {
    let mut cache = LruCache::with_capacity_and_ttl(4, Duration::from_millis(20).as_nanos());
    let key = "ttl-key".to_string();

    cache.put(key.clone(), 5);
    assert_eq!(cache.get_cloned(&key), Some(5));

    pause(30);

    assert_eq!(cache.get_cloned(&key), None);
    assert_eq!(cache.len(), 0);
}

#[test]
fn cache_keeps_the_entry_at_the_end_of_its_time() {
    let mut cache: LruCache<u64, &str> = LruCache::with_capacity_and_ttl(4, 10);
    cache.put_at(1, "one", 5);
    assert_eq!(cache.get_cloned_at(&1, 15), Some("one"));
    assert_eq!(cache.get_cloned_at(&1, 25), Some("one"));
    assert_eq!(cache.get_cloned_at(&1, 36), None);
    assert_eq!(cache.len(), 0);
    assert_eq!(cache.get_cloned_at(&2, 36), None);
}

#[test]
fn cache_keeps_what_was_just_put() {
    let mut cache: LruCache<u64, &str> = LruCache::with_capacity(2);
    cache.put_at(1, "one", 5);
    cache.put_at(2, "two", 5);
    cache.put_at(3, "three", 5);
    assert_eq!(cache.len(), 2);
    assert_eq!(cache.get_cloned_at(&3, 5), Some("three"));

    let mut cache: LruCache<u64, &str> = LruCache::with_capacity(2);
    cache.put_at(1, "one", u128::MAX);
    cache.put_at(2, "two", 0);
    cache.put(3, "three");
    assert_eq!(cache.get_cloned(&3), Some("three"));
    assert_eq!(cache.get_cloned(&1), Some("one"));
    assert_eq!(cache.get_cloned(&2), None);
}

#[test]
fn cache_replaces_the_value_of_a_key() {
    let mut cache: LruCache<i32, i32> = LruCache::with_capacity(0);
    cache.put_at(7, 1, 1);
    cache.put_at(7, 2, 2);
    assert_eq!(cache.len(), 1);
    assert_eq!(cache.get_cloned_at(&7, 3), Some(2));
    cache.put_at(8, 3, 4);
    assert_eq!(cache.len(), 1);
    assert_eq!(cache.get_cloned_at(&7, 5), None);
    assert_eq!(cache.get_cloned_at(&8, 5), Some(3));
}

#[test]
fn pid_and_socket_paths_append_expected_names() {
    let base = Path::new("/tmp/workspace");
    let dir = base.to_str().unwrap();
    assert_eq!(Path::new(&pid_file(dir)), base.join("kronid.pid"));
    assert_eq!(Path::new(&run_id_file(dir)), base.join("kronid.run_id"));
    assert_eq!(Path::new(&grpc_uds(dir)), base.join("kronid.sock"));
    assert_eq!(Path::new(&http_uds(dir)), base.join("kronid.http.sock"));
}

#[test]
fn paths_join_as_the_platform_joins_them() {
    for dir in ["", ".", "/", "/tmp", "/tmp/", "a/b", "a//"] {
        assert_eq!(
            join_path(dir, "name.db"),
            Path::new(dir).join("name.db").to_str().unwrap()
        );
    }
}

#[test]
fn reserved_slots_show_as_reserved_until_spawned() {
    let registry = ThreadRegistry::with_slots(&["alpha", "beta"]);

    let snapshot = registry.snapshot();
    assert_eq!(snapshot.len(), 2);
    assert!(snapshot.iter().all(|s| s.status == ThreadStatus::Reserved));
}

#[test]
fn spawn_uses_reserved_slot_and_updates_status() {
    let mut registry = ThreadRegistry::with_slots(&["alpha", "beta"]);
    let handle = registry.started("alpha");

    let snapshot = registry.snapshot();
    assert_eq!(snapshot.len(), 2);
    let alpha_entry = snapshot
        .into_iter()
        .find(|s| s.name == "alpha")
        .expect("alpha slot present");
    assert_eq!(alpha_entry.status, ThreadStatus::Running);
    assert_eq!(registry.active_count(), 1);

    registry.joined(handle, false);

    let snapshot = registry.snapshot();
    let alpha_entry = snapshot
        .into_iter()
        .find(|s| s.name == "alpha")
        .expect("alpha slot present");
    assert_eq!(alpha_entry.status, ThreadStatus::Joined);
    assert_eq!(registry.active_count(), 0);
}

#[test]
fn joining_updates_status() {
    let mut registry = ThreadRegistry::new();
    let handle = registry.started("worker");
    assert_eq!(registry.active_count(), 1);

    registry.joined(handle, false);

    let snapshot = registry.snapshot();
    let worker = snapshot
        .into_iter()
        .find(|s| s.name == "worker")
        .expect("worker entry");
    assert_eq!(worker.status, ThreadStatus::Joined);
    assert_eq!(registry.active_count(), 0);
}

#[test]
fn drop_without_join_marks_detached() {
    let mut registry = ThreadRegistry::new();
    let handle = registry.started("detached");
    registry.detached(handle);

    let snapshot = registry.snapshot();
    let detached = snapshot
        .into_iter()
        .find(|s| s.name == "detached")
        .expect("detached entry");
    assert_eq!(detached.status, ThreadStatus::Detached);
    assert_eq!(registry.active_count(), 0);
}

#[test]
fn unreserved_spawn_gets_new_slot() {
    let mut registry = ThreadRegistry::with_slots(&["alpha"]);
    let handle = registry.started("gamma");
    registry.joined(handle, false);

    let snapshot = registry.snapshot();
    let gamma = snapshot
        .into_iter()
        .find(|s| s.name == "gamma")
        .expect("gamma entry");
    assert_eq!(gamma.status, ThreadStatus::Joined);
}

#[test]
fn panicked_thread_records_status() {
    let mut registry = ThreadRegistry::new();
    let handle = registry.started("panicker");
    registry.joined(handle, true);

    let snapshot = registry.snapshot();
    let entry = snapshot
        .into_iter()
        .find(|s| s.name == "panicker")
        .expect("panicker entry");
    assert_eq!(entry.status, ThreadStatus::Panicked);
}

#[test]
fn reserve_slots_deduplicates_entries() {
    let mut registry = ThreadRegistry::with_slots(&["alpha", "beta"]);
    // Attempt to reserve duplicates and a new slot.
    registry.reserve_slots(&["alpha", "gamma", "gamma"]);

    let snapshot = registry.snapshot();
    assert_eq!(
        snapshot.len(),
        3,
        "registry should only contain unique slots"
    );
    let alpha_count = snapshot.iter().filter(|s| s.name == "alpha").count();
    assert_eq!(alpha_count, 1, "duplicate reserve should be ignored");
}

#[test]
fn active_thread_names_reflect_running_threads() {
    let mut registry = ThreadRegistry::new();
    let handle = registry.started("active");
    let active = registry.active_thread_names();
    assert_eq!(active, vec!["active".to_string()]);

    registry.joined(handle, false);

    assert!(registry.active_thread_names().is_empty());
}

#[test]
fn thread_handle_name_exposes_label() {
    let mut registry = ThreadRegistry::new();
    let handle = registry.started("named");
    assert_eq!(handle.name(), "named");
    registry.joined(handle, false);
}

#[test]
fn threads_of_one_name_have_slots_of_their_own() {
    let mut registry = ThreadRegistry::with_slots(&["worker"]);
    let first = registry.started("worker");
    let second = registry.started("worker");
    assert_eq!(registry.active_count(), 2);
    registry.joined(first, false);
    assert_eq!(registry.active_thread_names(), vec!["worker".to_string()]);
    registry.detached(second);
    let statuses: Vec<ThreadStatus> = registry.snapshot().iter().map(|s| s.status).collect();
    assert_eq!(
        statuses,
        vec![ThreadStatus::Joined, ThreadStatus::Detached]
    );
    assert_eq!(
        spawn_failure("worker", "no memory"),
        "failed to spawn thread 'worker': no memory"
    );
}

#[test]
fn default_values_match_expected_profile() {
    let cfg = AppConfig::default_in(Some("/home/user".to_string()), None, None);
    assert!(Path::new(&cfg.workspace_dir).ends_with(".kronical"));
    assert_eq!(cfg.db_backend, DatabaseBackendConfig::Duckdb);
    assert_eq!(cfg.tracker_db_backend, DatabaseBackendConfig::Duckdb);
    assert!(!cfg.persist_raw_events);
    assert_eq!(cfg.retention_minutes, 72 * 60);
    assert_eq!(cfg.active_grace_secs, 30);
    assert_eq!(cfg.idle_threshold_secs, 300);
    assert_eq!(cfg.ephemeral_min_distinct_ids, 3);
    assert_eq!(cfg.max_windows_per_app, 30);
    assert!(!cfg.tracker_enabled);
    assert_eq!(cfg.tracker_batch_size, 60);
    assert_eq!(cfg.duckdb_memory_limit_mb_main, 10);
    assert_eq!(cfg.duckdb_memory_limit_mb_tracker, 10);
    assert_eq!(f64::from_bits(cfg.tracker_interval_secs_bits), 1.0);
    assert_eq!(f64::from_bits(ONE_SECOND_BITS), 1.0);
}

#[test]
fn workspace_lies_in_the_first_directory_known() {
    let dir = |s: &str| Some(s.to_string());
    let at = |h, v, c| AppConfig::default_in(h, v, c).workspace_dir;
    assert_eq!(at(dir("/h"), dir("/v"), dir("/c")), "/h/.kronical");
    assert_eq!(at(None, dir("/v"), dir("/c")), "/v/.kronical");
    assert_eq!(at(None, None, dir("/c")), "/c/.kronical");
    assert_eq!(at(None, None, None), "./.kronical");
}

#[test]
fn backends_have_files_of_their_own() {
    assert_eq!(DatabaseBackendConfig::Duckdb.data_file("/w"), "/w/data.duckdb");
    assert_eq!(DatabaseBackendConfig::Sqlite3.data_file("/w"), "/w/data.sqlite3");
    assert_eq!(DatabaseBackendConfig::Duckdb.name(), "duckdb");
    assert_eq!(DatabaseBackendConfig::Sqlite3.name(), "sqlite3");
}

#[test]
fn converts_mouse_buttons() {
    assert_eq!(button_from_hook(HookMouseButton::NoButton), None);
    assert_eq!(
        button_from_hook(HookMouseButton::Button1),
        Some(MouseButton::Primary)
    );
    assert_eq!(
        button_from_hook(HookMouseButton::Button2),
        Some(MouseButton::Secondary)
    );
    assert_eq!(
        button_from_hook(HookMouseButton::Button3),
        Some(MouseButton::Middle)
    );
    assert_eq!(
        button_from_hook(HookMouseButton::Button4),
        Some(MouseButton::Button4)
    );
    assert_eq!(
        button_from_hook(HookMouseButton::Button5),
        Some(MouseButton::Button5)
    );
}

#[test]
fn converts_mouse_event_kind() {
    assert_eq!(
        event_kind_from_hook(HookMouseEventType::Moved),
        MouseEventKind::Moved
    );
    assert_eq!(
        event_kind_from_hook(HookMouseEventType::Pressed),
        MouseEventKind::Pressed
    );
    assert_eq!(
        event_kind_from_hook(HookMouseEventType::Released),
        MouseEventKind::Released
    );
    assert_eq!(
        event_kind_from_hook(HookMouseEventType::Clicked),
        MouseEventKind::Clicked
    );
    assert_eq!(
        event_kind_from_hook(HookMouseEventType::Dragged),
        MouseEventKind::Dragged
    );
}
