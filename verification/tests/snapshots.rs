use chrono::{TimeZone, Utc};
use kronical::bus::SnapshotBus;
use kronical::events::{MousePosition, WindowFocusInfo};
use kronical::records::ActivityState;
use kronical::snapshot::{
    build_delta, monotonic_ns, ConfigSummary, Counts, DeltaReplayError, Snapshot, SnapshotDelta,
    StorageInfo, TitleRevisionRef, Transition,
};
use kronical::time::Timestamp;
use std::sync::Arc;

fn at(year: i32, month: u32, day: u32, hour: u32, minute: u32, second: u32) -> Timestamp {
    let t = Utc.with_ymd_and_hms(year, month, day, hour, minute, second).unwrap();
    Timestamp::from_timestamp(t.timestamp(), 0).unwrap()
}

fn sample_focus(window_id: u32) -> WindowFocusInfo {
    WindowFocusInfo {
        pid: 42,
        process_start_time: 1337,
        app_name: Arc::new("Terminal".to_string()),
        window_title: Arc::new(format!("tab-{window_id}")),
        window_id,
        window_instance_start: at(2024, 4, 22, 10, 0, window_id as u32 % 60),
        window_position: Some(MousePosition { x: 10, y: 20 }),
        window_size: Some((1440, 900)),
    }
}

fn sample_transition(seq: usize) -> Transition {
    Transition {
        from: ActivityState::Inactive,
        to: ActivityState::Active,
        at: at(2024, 4, 22, 10, 1, seq as u32 % 60),
        by_signal: Some(format!("signal-{seq}")),
        run_id: None,
    }
}

fn sample_title_revision(seq: usize) -> TitleRevisionRef {
    TitleRevisionRef {
        event_id: 1_000 + seq as u64,
        at: at(2024, 4, 22, 10, 4, seq as u32 % 60),
        window_id: 50 + seq as u32,
        title: format!("tab-{seq}"),
    }
}

#[test]
fn publish_basic_updates_snapshot_and_sequence() {
    let mut bus = SnapshotBus::new();
    let counts = Counts {
        signals_seen: 5,
        hints_seen: 3,
        records_emitted: 2,
    };
    let storage = StorageInfo {
        backlog_count: 7,
        last_flush_at: Some(at(2024, 4, 22, 10, 2, 0)),
    };
    let config = ConfigSummary {
        active_grace_secs: 15,
        idle_threshold_secs: 120,
        retention_minutes: 60,
        ephemeral_max_duration_secs: 45,
        ephemeral_min_distinct_ids: 2,
        ephemeral_app_max_duration_secs: 30,
        ephemeral_app_min_distinct_procs: 1,
    };

    let transition = sample_transition(1);
    bus.push_transition(transition.clone());
    let title_revision = sample_title_revision(1);
    bus.push_title_revision(title_revision.clone());

    bus.publish_basic(
        ActivityState::Active,
        Some(sample_focus(1)),
        Some(transition.clone()),
        Vec::new(),
        counts,
        1_000,
        "timer".to_string(),
        Some(at(2024, 4, 22, 10, 3, 0)),
        storage,
        config,
        vec!["healthy".to_string()],
        vec![],
    );

    let snap = bus.snapshot();
    assert_eq!(snap.seq, 1);
    assert_eq!(snap.activity_state, ActivityState::Active);
    assert_eq!(snap.counts.signals_seen, 5);
    assert_eq!(snap.cadence_ms, 1_000);
    assert_eq!(snap.cadence_reason, "timer");
    assert_eq!(snap.health, vec!["healthy".to_string()]);
    assert_eq!(snap.transitions_recent.len(), 1);
    assert_eq!(snap.title_revisions_recent.len(), 1);
    let recent = &snap.transitions_recent[0];
    assert_eq!(recent.by_signal.as_deref(), Some("signal-1"));
    assert_eq!(recent.to, ActivityState::Active);
    let recent_title = &snap.title_revisions_recent[0];
    assert_eq!(recent_title.event_id, title_revision.event_id);
    assert_eq!(recent_title.title, title_revision.title);

    // Second publish bumps the sequence counter.
    bus.publish_basic(
        ActivityState::Passive,
        None,
        None,
        Vec::new(),
        Counts::default(),
        500,
        "idle".to_string(),
        None,
        StorageInfo::default(),
        ConfigSummary::default(),
        vec![],
        vec![],
    );
    let snap_two = bus.snapshot();
    assert_eq!(snap_two.seq, 2);
    assert_eq!(snap_two.activity_state, ActivityState::Passive);
}

#[test]
fn transition_and_health_buffers_trim_to_capacity() {
    let mut bus = SnapshotBus::new();

    for i in 0..70 {
        bus.push_transition(sample_transition(i));
        bus.push_health(format!("health-{i}"));
    }

    let recent = bus.recent_transitions(10);
    assert_eq!(recent.len(), 10);
    assert_eq!(recent[0].by_signal.as_deref(), Some("signal-69"));
    assert_eq!(
        recent.last().unwrap().by_signal.as_deref(),
        Some("signal-60")
    );

    let health = bus.current_health();
    assert_eq!(health.len(), 64);
    assert_eq!(health.first().unwrap(), "health-6");
    assert_eq!(health.last().unwrap(), "health-69");
}

#[test]
fn title_revision_buffer_trims_to_capacity() {
    let mut bus = SnapshotBus::new();

    for i in 0..140 {
        bus.push_title_revision(sample_title_revision(i));
    }

    let recent = bus.recent_title_revisions(10);
    assert_eq!(recent.len(), 10);
    assert_eq!(recent[0].event_id, 1_139);
    assert_eq!(recent.last().unwrap().event_id, 1_130);
}

fn publish(bus: &mut SnapshotBus, state: ActivityState, reason: &str) -> Option<SnapshotDelta> {
    bus.publish_basic(
        state,
        None,
        None,
        Vec::new(),
        Counts::default(),
        500,
        reason.to_string(),
        None,
        StorageInfo::default(),
        ConfigSummary::default(),
        vec![],
        vec![],
    )
}

#[test]
fn replayed_differences_lead_to_the_snapshot() {
    let mut bus = SnapshotBus::new_with_run_id("run-7");
    assert_eq!(bus.run_id(), Some("run-7"));
    publish(&mut bus, ActivityState::Active, "a");
    let mut replica = Snapshot::empty_at(0);
    for d in bus.watch_deltas_after(0).unwrap() {
        replica.apply_delta(&d);
    }
    assert_eq!(replica.seq, 1);
    assert_eq!(replica.activity_state, ActivityState::Active);
    assert_eq!(replica.cadence_reason, "a");
    bus.push_transition(sample_transition(3));
    bus.push_title_revision(sample_title_revision(4));
    publish(&mut bus, ActivityState::Passive, "b");
    publish(&mut bus, ActivityState::Locked, "b");
    for d in bus.watch_deltas_after(1).unwrap() {
        replica.apply_delta(&d);
    }
    let now = bus.snapshot();
    assert_eq!(replica.seq, now.seq);
    assert_eq!(replica.activity_state, now.activity_state);
    assert_eq!(replica.cadence_reason, now.cadence_reason);
    assert_eq!(replica.transitions_recent.len(), now.transitions_recent.len());
    assert_eq!(
        replica.title_revisions_recent[0].event_id,
        now.title_revisions_recent[0].event_id
    );
    assert_eq!(replica.run_id, now.run_id);
    assert!(build_delta(now, &replica).is_none());
}

#[test]
fn differences_too_far_back_are_refused() {
    let mut bus = SnapshotBus::new();
    for i in 0..2_000 {
        publish(&mut bus, ActivityState::Active, &format!("{i}"));
    }
    assert_eq!(
        bus.watch_deltas_after(0).unwrap_err(),
        DeltaReplayError::AfterSeqTooOld
    );
    assert_eq!(bus.watch_deltas_after(1_999).unwrap().len(), 1);
    assert!(bus.watch_deltas_after(2_000).unwrap().is_empty());
    assert!(monotonic_ns() > 0);
}
