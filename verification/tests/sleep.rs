use chrono::{DateTime, Local, TimeZone, Timelike, Utc};
use kronical::events::{MousePosition, WindowFocusInfo};
use kronical::records::{ActivityRecord, ActivityState};
use kronical::sleep::{
    best_period, midpoint_diff_secs, night_hours, overlap_seconds, period_of_sleep,
    period_since_midnight, sleep_candidates, window_shift_hours, Period, LOGINWINDOW_APP,
    MIDPOINT_MAX_DIFF_SECS, NIGHT_START_HOUR,
};
use kronical::time::Timestamp;
use std::sync::Arc;

fn stamp(t: DateTime<Utc>) -> Timestamp {
    Timestamp::from_timestamp(t.timestamp(), t.timestamp_subsec_nanos()).unwrap()
}

fn record_with_focus(app_name: &str, start: Timestamp, end: Timestamp) -> ActivityRecord {
    ActivityRecord {
        record_id: 0,
        run_id: None,
        start_time: start,
        end_time: Some(end),
        state: ActivityState::Active,
        focus_info: Some(WindowFocusInfo {
            pid: 1,
            process_start_time: 0,
            app_name: Arc::new(app_name.to_string()),
            window_title: Arc::new("title".to_string()),
            window_id: 1,
            window_instance_start: start,
            window_position: Some(MousePosition { x: 0, y: 0 }),
            window_size: Some((1, 1)),
        }),
        event_count: 0,
        triggering_events: Vec::new(),
    }
}

fn local(t: Timestamp) -> DateTime<Local> {
    Utc.timestamp_opt(t.timestamp(), t.subsec_nanos())
        .unwrap()
        .with_timezone(&Local)
}

/// Long stretches around the expected hour score high.
fn score(p: &Period) -> u64 {
    let secs = p.end.num_seconds_since(&p.start);
    let (start, end) = (local(p.start), local(p.end));
    let midpoint = start + (end - start) / 2;
    let duration_score = (secs as f64 / 3600.0).min(12.0) / 12.0;
    let diff = midpoint_diff_secs(midpoint.num_seconds_from_midnight());
    let midpoint_score = 1.0 - diff as f64 / MIDPOINT_MAX_DIFF_SECS as f64;
    let band = midpoint
        .date_naive()
        .and_hms_opt(NIGHT_START_HOUR, 0, 0)
        .unwrap();
    let band = Local.from_local_datetime(&band).earliest().unwrap_or(midpoint);
    let night = Period {
        start: stamp(band.with_timezone(&Utc)),
        end: stamp((band + chrono::Duration::hours(night_hours())).with_timezone(&Utc)),
    };
    let night_score = overlap_seconds(*p, night) as f64 / secs as f64;
    (0.5 * duration_score + 0.3 * midpoint_score + 0.2 * night_score).to_bits()
}

#[test]
fn find_sleep_period_prefers_best_midnight_window() {
    let base_local = Local.with_ymd_and_hms(2024, 1, 1, 21, 0, 0).unwrap();
    let t0 = base_local.with_timezone(&Utc);
    let after = |h: i64| stamp(t0 + chrono::Duration::hours(h));
    let records = vec![
        record_with_focus(LOGINWINDOW_APP, after(1), after(3)),
        record_with_focus("Terminal", after(3), after(4)),
        record_with_focus(LOGINWINDOW_APP, after(5), after(10)),
        record_with_focus("Browser", after(10), after(11)),
        record_with_focus(LOGINWINDOW_APP, after(12), after(15)),
    ];

    let window = Period {
        start: after(0),
        end: after(24),
    };
    let found = sleep_candidates(&records, after(24), window, 4 * 60 * 60);
    let scores = found.iter().map(score).collect();
    let period = best_period(&found, &scores).expect("expected long loginwindow period");

    assert_eq!(period.start, after(5));
    assert_eq!(period.end, after(10));
}

#[test]
fn find_sleep_period_merges_consecutive_records() {
    let base_local = Local.with_ymd_and_hms(2024, 1, 2, 21, 0, 0).unwrap();
    let t0 = base_local.with_timezone(&Utc);
    let after = |h: i64| stamp(t0 + chrono::Duration::hours(h));
    let records = vec![
        record_with_focus(LOGINWINDOW_APP, after(1), after(2)),
        record_with_focus(LOGINWINDOW_APP, after(2), after(4)),
        record_with_focus("Terminal", after(4), after(5)),
    ];

    let window = Period {
        start: after(0),
        end: after(24),
    };
    let found = sleep_candidates(&records, after(6), window, 2 * 60 * 60);
    let scores = found.iter().map(score).collect();
    let period = best_period(&found, &scores).expect("expected merged loginwindow period");

    assert_eq!(period.start, after(1));
    assert_eq!(period.end, after(4));
}

#[test]
fn sleep_is_cut_to_the_window() {
    let t = |s: i64| Timestamp::from_timestamp(s, 0).unwrap();
    let records = vec![record_with_focus("LoginWindow", t(0), t(50_000))];
    let window = Period {
        start: t(10_000),
        end: t(30_000),
    };
    let found = sleep_candidates(&records, t(60_000), window, 14_400);
    assert_eq!(
        found,
        vec![Period {
            start: t(10_000),
            end: t(30_000)
        }]
    );
    assert!(sleep_candidates(&records, t(60_000), window, 20_001).is_empty());
    assert!(best_period(&Vec::new(), &Vec::new()).is_none());
    assert_eq!(
        overlap_seconds(
            Period {
                start: t(0),
                end: t(9_000)
            },
            window
        ),
        0
    );
}

#[test]
fn stretches_an_hour_apart_are_one() {
    let t = |s: i64| Timestamp::from_timestamp(s, 0).unwrap();
    let window = Period {
        start: t(0),
        end: t(100_000),
    };
    let apart = |gap: i64| {
        let records = vec![
            record_with_focus(LOGINWINDOW_APP, t(0), t(10_000)),
            record_with_focus("Editor", t(10_000), t(10_000 + gap)),
            record_with_focus(LOGINWINDOW_APP, t(10_000 + gap), t(40_000)),
        ];
        sleep_candidates(&records, t(100_000), window, 1)
    };
    assert_eq!(
        apart(3600),
        vec![Period {
            start: t(0),
            end: t(40_000)
        }]
    );
    assert_eq!(apart(3601).len(), 2);
}

#[test]
fn listings_say_since_when() {
    let t = |s: i64| Timestamp::from_timestamp(s, 0).unwrap();
    let sleep = Period {
        start: t(0),
        end: t(3_660),
    };
    let p = period_of_sleep(sleep, "23:00", "00:01");
    assert_eq!(p.since_utc, t(0));
    assert_eq!(p.title, "Apps (since 23:00)");
    assert!(p.line.starts_with("Period: last loginwindow 23:00–00:01 ("));
    let p = period_since_midnight(t(5), "00:00");
    assert_eq!(p.since_utc, t(5));
    assert_eq!(p.line, "Period: since 00:00 (fallback: local midnight)");
}

#[test]
fn sleep_is_expected_at_night() {
    assert_eq!(window_shift_hours(20), -24);
    assert_eq!(window_shift_hours(21), 0);
    assert_eq!(midpoint_diff_secs(4 * 3600), 0);
    assert_eq!(midpoint_diff_secs(3 * 3600), 3600);
    assert_eq!(midpoint_diff_secs(5 * 3600 + 1), 3601);
    assert_eq!(midpoint_diff_secs(20 * 3600), 6 * 3600);
    assert_eq!(night_hours(), 12);
}
