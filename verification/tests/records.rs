use chrono::{TimeZone, Utc};
use kronical::aggregate::aggregate_activities_since;
use kronical::events::model::{EventEnvelope, EventKind, EventPayload, EventSource, HintKind};
use kronical::events::WindowFocusInfo;
use kronical::records::{ActivityRecord, ActivityState, RecordBuilder};
use kronical::time::Timestamp;
use std::sync::Arc;

fn at(year: i32, month: u32, day: u32, hour: u32, minute: u32, second: u32) -> Timestamp {
    let t = Utc.with_ymd_and_hms(year, month, day, hour, minute, second).unwrap();
    Timestamp::from_timestamp(t.timestamp(), 0).unwrap()
}

fn later(t: Timestamp, secs: i64) -> Timestamp {
    Timestamp::from_timestamp(t.timestamp() + secs, t.subsec_nanos()).unwrap()
}

fn later_ms(t: Timestamp, millis: i64) -> Timestamp {
    let nanos = t.subsec_nanos() as i64 + millis * 1_000_000;
    Timestamp::from_timestamp(
        t.timestamp() + nanos.div_euclid(1_000_000_000),
        nanos.rem_euclid(1_000_000_000) as u32,
    )
    .unwrap()
}

fn make_focus(
    pid: i32,
    process_start: u64,
    app: &str,
    window_id: u32,
    title: &str,
    at: Timestamp,
) -> WindowFocusInfo {
    WindowFocusInfo {
        pid,
        process_start_time: process_start,
        app_name: Arc::new(app.to_string()),
        window_title: Arc::new(title.to_string()),
        window_id,
        window_instance_start: at,
        window_position: None,
        window_size: None,
    }
}

fn focus_hint(id: u64, focus: WindowFocusInfo, ts: Timestamp) -> EventEnvelope {
    EventEnvelope {
        id,
        timestamp: ts,
        source: EventSource::Hook,
        kind: EventKind::Hint(HintKind::FocusChanged),
        payload: EventPayload::Focus(focus),
        derived: false,
        polling: false,
        sensitive: false,
    }
}

fn title_hint(id: u64, window_id: u32, title: &str, ts: Timestamp) -> EventEnvelope {
    EventEnvelope {
        id,
        timestamp: ts,
        source: EventSource::Polling,
        kind: EventKind::Hint(HintKind::TitleChanged),
        payload: EventPayload::Title {
            window_id,
            title: title.to_string(),
        },
        derived: false,
        polling: true,
        sensitive: false,
    }
}

fn state_hint(
    id: u64,
    ts: Timestamp,
    from: ActivityState,
    to: ActivityState,
) -> EventEnvelope {
    EventEnvelope {
        id,
        timestamp: ts,
        source: EventSource::Derived,
        kind: EventKind::Hint(HintKind::StateChanged),
        payload: EventPayload::State { from, to },
        derived: true,
        polling: false,
        sensitive: false,
    }
}

fn make_record(
    record_id: u64,
    focus: WindowFocusInfo,
    start: Timestamp,
    duration_secs: i64,
) -> ActivityRecord {
    ActivityRecord {
        record_id,
        run_id: None,
        start_time: start,
        end_time: Some(later(start, duration_secs)),
        state: ActivityState::Active,
        focus_info: Some(focus),
        event_count: 1,
        triggering_events: Vec::new(),
    }
}

#[test]
fn record_builder_emits_previous_focus_on_switch() {
    let mut builder = RecordBuilder::new(ActivityState::Inactive);
    let now = Timestamp::now();
    let focus_a = make_focus(42, 1, "Vim", 100, "Alpha", now);
    let focus_b = make_focus(42, 1, "Vim", 101, "Beta", later_ms(now, 5));

    assert!(
        builder
            .on_hint(&focus_hint(1, focus_a.clone(), now))
            .is_none()
    );
    assert_eq!(
        builder
            .current_focus()
            .expect("focus tracked")
            .window_title
            .as_str(),
        "Alpha"
    );

    let first_record = builder
        .on_hint(&focus_hint(
            2,
            focus_b.clone(),
            later_ms(now, 10),
        ))
        .expect("previous focus should close");

    let first_focus = first_record.focus_info.expect("focus info present");
    assert_eq!(first_focus.window_id, 100);
    assert_eq!(first_focus.window_title.as_str(), "Alpha");
    assert!(!first_record.end_time.unwrap().is_before(&first_record.start_time));

    assert_eq!(
        builder
            .current_focus()
            .expect("new focus retained")
            .window_title
            .as_str(),
        "Beta"
    );
    assert_eq!(builder.current_state(), ActivityState::Inactive);

    let final_record = builder.finalize_all().expect("final record emitted");
    assert_eq!(
        final_record.focus_info.unwrap().window_title.as_str(),
        "Beta"
    );
}

#[test]
fn record_builder_updates_title_for_active_window() {
    let mut builder = RecordBuilder::new(ActivityState::Inactive);
    let now = Timestamp::now();
    let focus = make_focus(7, 2, "Browser", 200, "Inbox", now);

    builder.on_hint(&focus_hint(1, focus.clone(), now));

    let record = builder
        .on_hint(&title_hint(
            2,
            200,
            "Inbox – Reply",
            later_ms(now, 5),
        ))
        .expect("title change closes previous slice");

    assert_eq!(record.focus_info.unwrap().window_title.as_str(), "Inbox");
    assert_eq!(builder.current_state(), ActivityState::Inactive);

    let updated_focus = builder.current_focus().expect("focus retained");
    assert_eq!(updated_focus.window_id, 200);
    assert_eq!(updated_focus.window_title.as_str(), "Inbox – Reply");
}

#[test]
fn record_builder_ignores_title_change_for_non_focused_window() {
    let mut builder = RecordBuilder::new(ActivityState::Inactive);
    let now = Timestamp::now();
    let focus = make_focus(8, 2, "Editor", 210, "plan.rs", now);
    builder.on_hint(&focus_hint(1, focus.clone(), now));

    // Title change for another window id should be ignored.
    assert!(
        builder
            .on_hint(&title_hint(
                2,
                999,
                "release-notes",
                later(now, 1)
            ))
            .is_none()
    );
    assert_eq!(
        builder
            .current_focus()
            .expect("focus intact")
            .window_title
            .as_str(),
        "plan.rs"
    );
}

#[test]
fn record_builder_tracks_state_transitions() {
    let mut builder = RecordBuilder::new(ActivityState::Inactive);
    let now = Timestamp::now();
    let focus = make_focus(5, 3, "Editor", 300, "Doc", now);

    builder.on_hint(&focus_hint(1, focus, now));

    let to_active = state_hint(
        2,
        later_ms(now, 1),
        ActivityState::Inactive,
        ActivityState::Active,
    );
    let inactive_slice = builder
        .on_hint(&to_active)
        .expect("transition to active finalizes inactive slice");
    assert_eq!(inactive_slice.state, ActivityState::Inactive);
    assert_eq!(builder.current_state(), ActivityState::Active);

    let stay_active = state_hint(
        3,
        later_ms(now, 2),
        ActivityState::Active,
        ActivityState::Active,
    );
    assert!(builder.on_hint(&stay_active).is_none());

    let back_inactive = state_hint(
        4,
        later_ms(now, 3),
        ActivityState::Active,
        ActivityState::Inactive,
    );
    let active_slice = builder
        .on_hint(&back_inactive)
        .expect("transition back closes active slice");
    assert_eq!(active_slice.state, ActivityState::Active);
    assert_eq!(builder.current_state(), ActivityState::Inactive);
}

#[test]
fn record_builder_respects_next_record_id() {
    let mut builder = RecordBuilder::with_next_record_id(ActivityState::Inactive, 42);
    let now = Timestamp::now();
    let focus_a = make_focus(1, 10, "Editor", 1, "A", now);
    let focus_b = make_focus(1, 10, "Editor", 2, "B", later_ms(now, 10));

    assert!(builder.on_hint(&focus_hint(1, focus_a, now)).is_none());

    let record = builder
        .on_hint(&focus_hint(2, focus_b, later_ms(now, 20)))
        .expect("previous focus should close");

    assert_eq!(record.record_id, 42);
}

#[test]
fn aggregation_groups_ephemeral_and_temporal_windows() {
    let base = at(2024, 1, 1, 0, 0, 0);
    let since = later(base, -10);
    let now = later(base, 1_000);

    let focus_small_a = make_focus(10, 77, "Slack", 1, "Foo", base);
    let focus_small_b = make_focus(10, 77, "Slack", 2, "foo ", later(base, 40));
    let focus_meeting_a =
        make_focus(10, 77, "Slack", 3, "Meeting", later(base, 100));
    let focus_meeting_b =
        make_focus(10, 77, "Slack", 4, "Meeting", later(base, 360));
    let focus_solo = make_focus(10, 77, "Slack", 5, "Solo", later(base, 800));

    let records = vec![
        make_record(1, focus_small_a.clone(), base, 30),
        make_record(2, focus_small_b.clone(), later(base, 40), 30),
        make_record(
            3,
            focus_meeting_a.clone(),
            later(base, 100),
            200,
        ),
        make_record(
            4,
            focus_meeting_b.clone(),
            later(base, 360),
            150,
        ),
        make_record(5, focus_solo.clone(), later(base, 800), 100),
    ];

    let apps = aggregate_activities_since(&records, since, now, 60, 2, 10);
    assert_eq!(apps.len(), 1);
    let agg = &apps[0];
    assert_eq!(agg.pid, 10);
    assert_eq!(agg.total_duration_seconds, 30 + 30 + 200 + 150 + 100);
    assert_eq!(agg.first_seen, base);
    assert_eq!(agg.last_seen, later(base, 900));

    let eph = agg
        .ephemeral_groups
        .iter()
        .find(|g| g.title_key == "foo")
        .expect("ephemeral group created");
    assert_eq!(eph.distinct_ids.len(), 2);
    assert_eq!(eph.occurrence_count, 2);
    assert_eq!(eph.total_duration_seconds, 60);
    assert_eq!(eph.first_seen, base);
    assert_eq!(eph.last_seen, later(base, 70));

    assert_eq!(agg.temporal_groups.len(), 1);
    let temporal = &agg.temporal_groups[0];
    assert_eq!(temporal.title_key, "meeting");
    assert_eq!(temporal.distinct_ids.len(), 2);
    assert_eq!(temporal.total_duration_seconds, 200 + 150);
    assert_eq!(temporal.max_duration_seconds, 200);
    assert_eq!(temporal.first_seen, focus_meeting_a.window_instance_start);
    assert_eq!(
        temporal.last_seen,
        later(focus_meeting_b.window_instance_start, 150)
    );

    assert_eq!(agg.windows.len(), 1);
    let solo = agg.windows.iter().find(|w| w.window_id == 5).expect("solo window retained");
    assert_eq!(solo.window_title.as_str(), "Solo");
    assert_eq!(solo.duration_seconds, 100);
    assert_eq!(solo.record_count, 1);
}

#[test]
fn aggregation_trims_windows_by_recent_activity() {
    let base = at(2024, 2, 1, 12, 0, 0);
    let since = later(base, -1);
    let now = later(base, 1_000);

    let records = vec![
        make_record(1, make_focus(20, 99, "Editor", 10, "Spec", base), base, 30),
        make_record(
            2,
            make_focus(
                20,
                99,
                "Editor",
                11,
                "Review",
                later(base, 200),
            ),
            later(base, 200),
            120,
        ),
        make_record(
            3,
            make_focus(
                20,
                99,
                "Editor",
                12,
                "Summary",
                later(base, 600),
            ),
            later(base, 600),
            160,
        ),
    ];

    let apps = aggregate_activities_since(&records, since, now, 10, 10, 2);
    let agg = &apps[0];
    assert_eq!(agg.windows.len(), 2);
    assert!(agg.windows.iter().all(|w| w.window_id != 10));
    assert!(agg.windows.iter().any(|w| w.window_id == 11));
    assert!(agg.windows.iter().any(|w| w.window_id == 12));
}

#[test]
fn records_start_and_end_at_the_given_times() {
    let t = |s: i64| Timestamp::from_timestamp(s, 0).unwrap();
    let mut builder = RecordBuilder::with_next_record_id(ActivityState::Active, 7);
    assert_eq!(builder.next_record_id(), 7);
    let first = focus_hint(1, make_focus(1, 10, "Editor", 1, "A", t(0)), t(0));
    assert!(builder.on_hint_at(&first, t(99), t(100)).is_none());
    assert_eq!(builder.next_record_id(), 8);
    let state = state_hint(2, t(1), ActivityState::Active, ActivityState::Passive);
    let record = builder.on_hint_at(&state, t(110), t(111)).unwrap();
    assert_eq!(record.record_id, 7);
    assert_eq!(record.end_time, Some(t(110)));
    assert_eq!(record.state, ActivityState::Active);
    let last = builder.finalize_all_at(t(120)).unwrap();
    assert_eq!(last.record_id, 8);
    assert_eq!(last.start_time, t(111));
    assert_eq!(last.end_time, Some(t(120)));
    assert_eq!(last.state, ActivityState::Passive);
    assert!(builder.finalize_all_at(t(121)).is_none());
}

#[test]
fn a_record_without_an_end_lasts_until_now() {
    let base = at(2024, 1, 1, 0, 0, 0);
    let mut open = make_record(1, make_focus(1, 1, "Editor", 1, "A", base), base, 0);
    open.end_time = None;
    let apps = aggregate_activities_since(&[open], later(base, 10), later(base, 25), 5, 2, 10);
    assert_eq!(apps.len(), 1);
    assert_eq!(apps[0].total_duration_seconds, 15);
    assert_eq!(apps[0].first_seen, later(base, 10));
    assert_eq!(apps[0].last_seen, later(base, 25));
}
