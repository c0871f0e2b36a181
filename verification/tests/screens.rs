use kronical::app_tree::{build_app_tree, build_app_tree_at};
use kronical::aggregate::{aggregate_activities_since, totals_fit_counters};
use kronical::display::{group_label_for_display, pretty_duration, strip_group_prefix};
use kronical::events::WindowFocusInfo;
use kronical::monitor::{
    app_lines, detail_lines, fit_title, pad_columns, pid_text, stats_lines, text_of_counts,
    text_of_focus, text_of_run, text_of_time, ScreenLine, Tone,
};
use kronical::records::{ActivityRecord, ActivityState};
use kronical::report::{
    join, snapshot_in_line, snapshot_in_short_line, snapshot_lines, status_lines,
};
use kronical::rpc::{
    map_pb_snapshot, map_pb_snapshot_at, ReplyApp, ReplyCadence, ReplyConfig, ReplyFocus,
    ReplyRecord, ReplyStorage, ReplyTime, ReplyTransition, ReplyWindow, SnapshotReply,
};
use kronical::snapshot::{
    Counts, Snapshot, SnapshotApp, SnapshotWindow, StorageInfo, Transition,
};
use kronical::monitor_loop::{MonitorEvent, MonitorLoop, MonitorPhase, MonitorStep};
use kronical::stream::{http_body, EventStream};
use kronical::time::Timestamp;
use std::sync::Arc;

fn t(secs: i64) -> Timestamp {
    Timestamp::from_timestamp(secs, 0).unwrap()
}

fn focus(pid: i32, app: &str, window_id: u32, title: &str) -> WindowFocusInfo {
    WindowFocusInfo {
        pid,
        process_start_time: 7,
        app_name: Arc::new(app.to_string()),
        window_title: Arc::new(title.to_string()),
        window_id,
        window_instance_start: t(0),
        window_position: None,
        window_size: None,
    }
}

fn record(f: WindowFocusInfo, start: i64, end: i64) -> ActivityRecord {
    ActivityRecord {
        record_id: 1,
        run_id: None,
        start_time: t(start),
        end_time: Some(t(end)),
        state: ActivityState::Active,
        focus_info: Some(f),
        event_count: 0,
        triggering_events: vec![],
    }
}

fn snapshot() -> Snapshot {
    let mut s = Snapshot::empty_at(99);
    s.seq = 12;
    s.run_id = Some("run-1".to_string());
    s.activity_state = ActivityState::Active;
    s.focus = Some(focus(42, "Editor", 3, "notes"));
    s.last_transition = Some(Transition {
        from: ActivityState::Passive,
        to: ActivityState::Active,
        at: t(0),
        by_signal: Some("MouseInput".to_string()),
        run_id: None,
    });
    s.counts = Counts {
        signals_seen: 5,
        hints_seen: 3,
        records_emitted: 2,
    };
    s.cadence_ms = 500;
    s.cadence_reason = "timer".to_string();
    s.next_timeout = Some(t(60));
    s.storage = StorageInfo {
        backlog_count: 4,
        last_flush_at: Some(t(0)),
    };
    s.health = vec!["fine".to_string(), "slow".to_string()];
    s
}

fn flat(line: &ScreenLine) -> String {
    line.pieces.iter().map(|p| p.text.as_str()).collect()
}

#[test]
fn durations_leave_out_what_is_zero() {
    assert_eq!(pretty_duration(0), "0s");
    assert_eq!(pretty_duration(59), "59s");
    assert_eq!(pretty_duration(60), "1m");
    assert_eq!(pretty_duration(3_661), "1h1m1s");
    assert_eq!(pretty_duration(86_400), "1d");
    assert_eq!(pretty_duration(90_061), "1d1h1m1s");
    assert_eq!(pretty_duration(86_401), "1d1s");
}

#[test]
fn group_labels_leave_out_their_key() {
    assert_eq!(strip_group_prefix("inbox (3 windows)", "inbox"), Some("(3 windows)"));
    assert_eq!(strip_group_prefix("inbox (3 windows)", " "), None);
    assert_eq!(strip_group_prefix("outbox", "inbox"), None);
    assert_eq!(
        group_label_for_display("group:inbox", "inbox (3 windows)"),
        "(3 windows)"
    );
    assert_eq!(
        group_label_for_display("group-temporal:inbox:0", "inbox later"),
        "later"
    );
    assert_eq!(group_label_for_display("group:inbox", "inbox"), "inbox");
    assert_eq!(group_label_for_display("17", "inbox"), "inbox");
}

#[test]
fn titles_are_cut_to_their_columns() {
    let columns = vec![1usize; 10];
    assert_eq!(fit_title("0123456789", 10, &columns, 5, 5, 100), "0123456789");
    assert_eq!(fit_title("0123456789", 10, &columns, 5, 5, 17), "01234…");
    assert_eq!(fit_title("0123456789", 10, &columns, 5, 5, 10), "…");
    assert_eq!(fit_title("ab", 4, &vec![2, 2], 1, 1, 6), "a…");
    assert_eq!(pad_columns(10, 5, 20), 5);
    assert_eq!(pad_columns(10, 10, 20), 1);
    assert_eq!(pad_columns(30, 10, 20), 1);
}

#[test]
fn statistics_show_what_the_daemon_does() {
    let lines: Vec<String> = stats_lines(&snapshot(), "77").iter().map(flat).collect();
    assert_eq!(
        lines,
        vec![
            "Status: running",
            "PID: 77",
            "State: Active",
            "Run: run-1",
            "Cadence: 500ms (timer)",
            "Focus: Editor [42] - notes",
        ]
    );
    assert_eq!(pid_text(Some(" 123\n")), "123");
    assert_eq!(pid_text(Some("x")), "unknown");
    assert_eq!(pid_text(Some("4294967296")), "unknown");
    assert_eq!(pid_text(None), "unknown");
    assert_eq!(text_of_focus(&Snapshot::empty()), "-");
    assert_eq!(text_of_run(&None), "-");
    assert_eq!(text_of_counts(&snapshot()), "signals=5 hints=3 records=2");
    assert_eq!(text_of_time(&None), "");
    assert_eq!(text_of_time(&Some(t(0))), "1970-01-01T00:00:00+00:00");
}

#[test]
fn details_show_transitions_and_health() {
    let mut s = snapshot();
    s.transitions_recent = (0..7)
        .map(|_| Transition {
            from: ActivityState::Active,
            to: ActivityState::Locked,
            at: t(0),
            by_signal: Some("LockStart".to_string()),
            run_id: None,
        })
        .collect();
    let at: Vec<String> = (0..5).map(|i| format!("10:00:0{i}")).collect();
    let lines = detail_lines(&s, "09:00:00", &at);
    let texts: Vec<String> = lines.iter().map(flat).collect();
    assert_eq!(texts[0], "Counts: signals=5 hints=3 records=2");
    assert_eq!(
        texts[1],
        "Storage: backlog=4 last_flush=1970-01-01T00:00:00+00:00"
    );
    assert_eq!(
        texts[2],
        "Last transition: Passive → Active at 09:00:00  ● MouseInput"
    );
    assert_eq!(texts[3], "Transitions captured: 7");
    assert_eq!(texts[4], "Recent transitions:");
    assert_eq!(texts[5], "  ● Active → Locked at 10:00:00  LockStart");
    assert_eq!(texts[9], "  ● Active → Locked at 10:00:04  LockStart");
    assert_eq!(texts[10], "Health:");
    assert_eq!(texts[11], "- fine");
    assert_eq!(texts.len(), 13);
    assert_eq!(lines[5].pieces[0].tone, Tone::Red);
}

#[test]
fn applications_are_shown_with_their_windows() {
    let windows = (0..6)
        .map(|i| SnapshotWindow {
            window_id: format!("{i}"),
            window_title: format!("title {i}"),
            first_seen: t(0),
            last_seen: t(0),
            duration_seconds: 61,
            is_group: false,
        })
        .collect();
    let app = SnapshotApp {
        app_name: "Editor".to_string(),
        pid: 42,
        process_start_time: 0,
        windows,
        total_duration_secs: 366,
        total_duration_pretty: "6m6s".to_string(),
    };
    let since = vec![vec!["10:00:00".to_string(); 5]];
    let lines = app_lines(&vec![app], Some("since then"), 60, &since);
    let texts: Vec<String> = lines.iter().map(flat).collect();
    assert_eq!(texts.len(), 7);
    assert_eq!(texts[0], "since then");
    assert_eq!(texts[1], "[42] Editor • 6m6s");
    assert!(texts[2].starts_with("  ├── <#0> title 0   "));
    assert!(texts[2].ends_with("  1m1s • since 10:00:00"));
    assert_eq!(texts[2].chars().count(), 60);
    assert!(texts[6].starts_with("  └── <#4> title 4"));
    assert_eq!(
        flat(&app_lines(&vec![], None, 60, &vec![])[0]),
        "Apps: (no recent activity)"
    );
    assert_eq!(
        flat(&app_lines(&vec![], Some("x"), 60, &vec![])[1]),
        "Apps: (no activity in this period)"
    );
}

#[test]
fn wide_characters_take_two_columns() {
    let window = SnapshotWindow {
        window_id: "1".to_string(),
        window_title: "漢字漢字漢字".to_string(),
        first_seen: t(0),
        last_seen: t(0),
        duration_seconds: 0,
        is_group: false,
    };
    let app = SnapshotApp {
        app_name: "Editor".to_string(),
        pid: 1,
        process_start_time: 0,
        windows: vec![window],
        total_duration_secs: 0,
        total_duration_pretty: "0s".to_string(),
    };
    // 11 columns before the title, 19 after it, and 10 for the title itself.
    let lines = app_lines(&vec![app], None, 40, &vec![vec!["10:00:00".to_string()]]);
    assert_eq!(lines[1].pieces[3].text, "漢字漢字…");
}

#[test]
fn status_tells_whether_the_daemon_runs() {
    let none = status_lines("now", None);
    assert_eq!(none[0], "Kronical Status Snapshot - now");
    assert_eq!(none[3], "Kronical Daemon: Not running");
    assert_eq!(
        none.last().unwrap(),
        "Tip: Use 'kronictl monitor' for real-time updates"
    );
    let s = snapshot();
    let lines = status_lines("now", Some(&s));
    assert!(lines.contains(&"  Focus: Editor [42] - notes".to_string()));
    assert!(lines.contains(&"  Next timeout: 1970-01-01 00:01:00 UTC".to_string()));
    assert!(lines.contains(&"  Counts: signals=5 hints=3 records=2".to_string()));
}

#[test]
fn snapshots_are_printed() {
    let s = snapshot();
    assert_eq!(
        snapshot_in_line(&s),
        "seq=12 run=run-1 state=Active focus=notes cad=500ms backlog=4"
    );
    assert_eq!(
        snapshot_in_short_line(&s),
        "seq=12 state=Active focus=notes"
    );
    let lines = snapshot_lines(&s);
    assert_eq!(lines[0], "Kronical Snapshot");
    assert_eq!(lines[1], "- seq: 12");
    assert_eq!(lines[2], "- monoNs: 99");
    assert!(lines.contains(&"- health: fine, slow".to_string()));
    assert!(lines.contains(
        &"- lastTransition: Passive -> Active at 1970-01-01 00:00:00 UTC".to_string()
    ));
    assert_eq!(join(&vec!["a".to_string(), "b".to_string()], "-"), "a-b");
    assert_eq!(join(&vec![], "-"), "");
}

#[test]
fn replies_have_a_body() {
    assert_eq!(
        http_body("HTTP/1.1 200 OK\r\nA: b\r\n\r\n{}\r\n\r\nrest").as_deref(),
        Some("{}\r\n\r\nrest")
    );
    assert_eq!(http_body("HTTP/1.1 200 OK\r\n"), None);
}

#[test]
fn streams_yield_whole_events() {
    let mut stream = EventStream::new();
    for line in ["HTTP/1.1 200 OK\r\n", "data: no\r\n", "\n"] {
        assert_eq!(stream.feed(line, false), None);
        assert!(stream.in_head());
    }
    assert_eq!(stream.feed("\r\n", false), None);
    assert!(!stream.in_head());
    assert_eq!(stream.feed("\r\n", false), None);
    assert_eq!(stream.feed("data: {\"a\":1,  \r\n", false), None);
    assert_eq!(stream.feed("event: snapshot\r\n", false), None);
    assert_eq!(stream.feed("data: \"b\":2}\n", true), None);
    assert_eq!(
        stream.feed("\n", false).as_deref(),
        Some(" {\"a\":1,\n\"b\":2}")
    );
    assert_eq!(stream.feed("\n", false), None);
}

#[test]
fn streams_complain_when_their_head_does_not_end() {
    let mut stream = EventStream::new();
    assert_eq!(stream.complaint_at_end(), Some("closed before headers"));
    stream.end_head();
    assert!(!stream.in_head());
    assert_eq!(stream.complaint_at_end(), None);
}

#[test]
fn the_monitor_draws_events_and_connects_again() {
    let mut m = MonitorLoop::new();
    assert_eq!(m.phase(), MonitorPhase::Connecting);
    assert!(matches!(m.on_event(MonitorEvent::RequestFailed), MonitorStep::ConnectAfter(500)));
    assert!(matches!(m.on_event(MonitorEvent::Connected), MonitorStep::ReadLine));
    let line = |text: &str| MonitorEvent::Line(text.to_string());
    assert!(matches!(m.on_event(line("HTTP/1.1 200 OK\r\n")), MonitorStep::ReadLine));
    assert_eq!(m.phase(), MonitorPhase::Head);
    assert!(matches!(m.on_event(line("\r\n")), MonitorStep::WaitForKey(10)));
    assert_eq!(m.phase(), MonitorPhase::Body);
    assert!(matches!(m.on_event(MonitorEvent::Key(Some('x'))), MonitorStep::ReadLine));
    assert!(matches!(m.on_event(line("data: {}\n")), MonitorStep::WaitForKey(10)));
    assert!(matches!(m.on_event(MonitorEvent::Key(None)), MonitorStep::ReadLine));
    match m.on_event(line("\n")) {
        MonitorStep::Draw(text) => assert_eq!(text, " {}"),
        other => panic!("unexpected step: {:?}", other),
    }
    assert!(matches!(m.on_event(MonitorEvent::Drawn), MonitorStep::WaitForKey(10)));
    assert!(matches!(m.on_event(MonitorEvent::StreamEnded), MonitorStep::Connect));
    assert_eq!(m.phase(), MonitorPhase::Connecting);
    assert!(matches!(m.on_event(MonitorEvent::Connected), MonitorStep::ReadLine));
    assert!(matches!(m.on_event(MonitorEvent::StreamEnded), MonitorStep::WaitForKey(10)));
    assert!(matches!(m.on_event(MonitorEvent::Key(None)), MonitorStep::ReadLine));
    assert!(matches!(m.on_event(MonitorEvent::StreamEnded), MonitorStep::Connect));
    assert!(matches!(m.on_event(MonitorEvent::ConnectFailed), MonitorStep::ShowWaiting(1000)));
    assert_eq!(m.phase(), MonitorPhase::Waiting);
    assert!(matches!(m.on_event(MonitorEvent::Key(Some('Q'))), MonitorStep::ConnectAfter(500)));
    assert_eq!(m.phase(), MonitorPhase::Connecting);
}

#[test]
fn only_q_quits_the_monitor() {
    let mut waiting = MonitorLoop::new();
    let _ = waiting.on_event(MonitorEvent::ConnectFailed);
    assert!(matches!(waiting.on_event(MonitorEvent::Key(Some('q'))), MonitorStep::Quit));
    let mut reading = MonitorLoop::new();
    let _ = reading.on_event(MonitorEvent::Connected);
    let _ = reading.on_event(MonitorEvent::Line("\r\n".to_string()));
    assert!(matches!(reading.on_event(MonitorEvent::Key(Some('q'))), MonitorStep::Quit));
}

#[test]
fn each_window_stands_in_one_place() {
    let records = vec![
        record(focus(1, "Editor", 1, "tmp"), 0, 10),
        record(focus(1, "Editor", 2, " TMP "), 10, 20),
        record(focus(1, "Editor", 3, "tmp"), 20, 30),
        record(focus(1, "Editor", 4, "doc"), 30, 130),
        record(focus(1, "Editor", 5, "doc"), 130, 230),
        record(focus(1, "Editor", 7, "solo"), 230, 330),
        record(focus(1, "Editor", 6, "doc"), 9_000, 9_100),
    ];
    let apps = aggregate_activities_since(&records, t(0), t(10_000), 60, 3, 0);
    assert_eq!(apps.len(), 1);
    let app = &apps[0];
    assert_eq!(app.ephemeral_groups.len(), 1);
    assert_eq!(app.ephemeral_groups[0].distinct_ids, vec![1, 2, 3]);
    assert_eq!(app.temporal_groups.len(), 1);
    assert_eq!(app.temporal_groups[0].distinct_ids, vec![5, 4]);
    let mut left: Vec<u32> = app.windows.iter().map(|w| w.window_id).collect();
    left.sort();
    assert_eq!(left, vec![6, 7]);
}

#[test]
fn the_tree_gathers_brief_processes() {
    let records = vec![
        record(focus(1, "Editor", 5, "main"), 0, 500),
        record(focus(2, "Helper", 6, "a"), 500, 510),
        record(focus(3, "Helper", 7, "b"), 510, 520),
        record(focus(4, "Helper", 8, "c"), 520, 530),
        record(focus(5, "Single", 9, "d"), 530, 540),
    ];
    assert!(totals_fit_counters(&records, t(0), t(1_000)));
    let apps = aggregate_activities_since(&records, t(0), t(1_000), 60, 3, 30);
    assert_eq!(apps.len(), 5);
    assert_eq!(apps[0].pid, 5);
    assert_eq!(apps[4].pid, 1);
    let tree = build_app_tree_at(&apps, 60, 3, t(1_000));
    let names: Vec<&str> = tree.iter().map(|a| a.app_name.as_str()).collect();
    assert_eq!(names, vec!["Helper", "Editor"]);
    assert_eq!(tree[0].pid, 4);
    assert_eq!(tree[0].total_duration_secs, 30);
    assert_eq!(tree[0].windows[0].window_id, "app-group:Helper");
    assert_eq!(tree[0].windows[0].window_title, "×3 avg 10s");
    assert_eq!(tree[0].windows[0].first_seen, t(500));
    assert_eq!(tree[0].windows[0].last_seen, t(1_000));
    let editor = tree.iter().find(|a| a.app_name == "Editor").unwrap();
    assert_eq!(editor.total_duration_pretty, "8m20s");
    assert_eq!(editor.windows.len(), 1);
    assert_eq!(build_app_tree(&apps, 60, 3).len(), tree.len());
}

fn reply() -> SnapshotReply {
    SnapshotReply {
        seq: 1,
        mono_ns: 2,
        run_id: String::new(),
        activity_state: 4,
        focus: Some(ReplyFocus {
            app_name: "Editor".to_string(),
            pid: 9,
            process_start_time: 8,
            window_id: "12".to_string(),
            window_title: "notes".to_string(),
            window_instance_start: None,
            window_position: Some((1, 2)),
            window_size: Some((3, 4)),
        }),
        last_transition: Some(ReplyTransition {
            from: 1,
            to: 2,
            at: Some(ReplyTime {
                seconds: 10,
                nanos: 5,
            }),
            run_id: "r".to_string(),
        }),
        counts: None,
        cadence: Some(ReplyCadence {
            current_ms: 250,
            reason: "tick".to_string(),
        }),
        next_timeout: Some(ReplyTime {
            seconds: 10,
            nanos: -1,
        }),
        storage: Some(ReplyStorage {
            backlog_count: 3,
            last_flush: Some(ReplyTime {
                seconds: 11,
                nanos: 0,
            }),
        }),
        config: Some(ReplyConfig {
            active_grace_secs: 1,
            idle_threshold_secs: 2,
            retention_minutes: 3,
            ephemeral_max_duration_secs: 4,
            ephemeral_min_distinct_ids: 5,
            ephemeral_app_max_duration_secs: 6,
            ephemeral_app_min_distinct_procs: 7,
        }),
        health: vec!["ok".to_string()],
        aggregated_apps: vec![ReplyApp {
            app_name: "Editor".to_string(),
            pid: 9,
            process_start_time: 8,
            windows: vec![ReplyWindow {
                window_id: "12".to_string(),
                window_title: "notes".to_string(),
                first_seen: Some(ReplyTime {
                    seconds: 1,
                    nanos: 0,
                }),
                last_seen: None,
                duration_seconds: 61,
                is_group: true,
            }],
            total_duration_secs: 61,
            total_duration_pretty: String::new(),
        }],
        records: vec![ReplyRecord {
            record_id: 77,
            run_id: "r".to_string(),
            start_time: None,
            end_time: None,
            state: 9,
            focus: None,
            event_count: 2,
            triggering_events: vec![4, 5],
        }],
    }
}

#[test]
fn replies_become_snapshots() {
    let s = map_pb_snapshot_at(&reply(), t(1_000));
    assert_eq!(s.seq, 1);
    assert_eq!(s.run_id, None);
    assert_eq!(s.activity_state, ActivityState::Locked);
    let f = s.focus.unwrap();
    assert_eq!((f.pid, f.window_id), (9, 12));
    assert_eq!(f.window_instance_start, t(1_000));
    assert_eq!(f.window_size, Some((3, 4)));
    let tr = s.last_transition.unwrap();
    assert_eq!(tr.from, ActivityState::Active);
    assert_eq!(tr.to, ActivityState::Passive);
    assert_eq!(tr.at, Timestamp::from_timestamp(10, 5).unwrap());
    assert_eq!(tr.run_id.as_deref(), Some("r"));
    assert_eq!(s.counts, Counts::default());
    assert_eq!((s.cadence_ms, s.cadence_reason.as_str()), (250, "tick"));
    assert_eq!(s.next_timeout, None);
    assert_eq!(s.storage.last_flush_at, Some(t(11)));
    assert_eq!(s.config.ephemeral_app_min_distinct_procs, 7);
    assert_eq!(s.health, vec!["ok".to_string()]);
    let app = &s.aggregated_apps[0];
    assert_eq!(app.total_duration_pretty, "1m1s");
    assert_eq!(app.windows[0].first_seen, t(1));
    assert_eq!(app.windows[0].last_seen, t(1_000));
    let r = &s.records[0];
    assert_eq!(r.state, ActivityState::Inactive);
    assert_eq!(r.start_time, t(1_000));
    assert_eq!(r.end_time, None);
    assert_eq!(r.triggering_events, vec![4, 5]);
    assert!(s.transitions_recent.is_empty());
    assert_eq!(map_pb_snapshot(&reply()).seq, 1);
}
