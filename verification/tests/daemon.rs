use kronical::aggregation_manager::AggregationManager;
use kronical::coordinator::{
    event_of_report, ChronicleEvent, DataLoop, EventCoordinator, HookReport, LoopStep, Wait,
};
use kronical::daemon::{
    before_write, cleanup_pid_file, log_level, parse_pid, pid_text, plan_start, plan_stop,
    read_pid_file, run_after_restart, run_args, run_id_in_file, start_line, stop_line,
    stopped_line, take_over, verify_pid_file, BeforeWrite, InvalidPid, LogLevel, PidFile,
    PidFileGuard, StopPlan,
};
use kronical::events::{RawEvent, WindowFocusInfo};
use kronical::records::{ActivityRecord, ActivityState};
use kronical::time::Timestamp;
use std::sync::Arc;

fn t(secs: i64) -> Timestamp {
    Timestamp::from_timestamp(secs, 0).unwrap()
}

fn focus(pid: i32, window_id: u32, title: &str) -> WindowFocusInfo {
    WindowFocusInfo {
        pid,
        process_start_time: 7,
        app_name: Arc::new("Editor".to_string()),
        window_title: Arc::new(title.to_string()),
        window_id,
        window_instance_start: t(0),
        window_position: None,
        window_size: None,
    }
}

fn record(f: Option<WindowFocusInfo>, start: i64, end: Option<i64>) -> ActivityRecord {
    ActivityRecord {
        record_id: 1,
        run_id: None,
        start_time: t(start),
        end_time: end.map(t),
        state: ActivityState::Active,
        focus_info: f,
        event_count: 0,
        triggering_events: vec![],
    }
}

#[test]
fn pid_files_name_a_process() {
    assert_eq!(parse_pid(" 42\n"), Some(42));
    assert_eq!(parse_pid("4294967295"), Some(u32::MAX));
    assert_eq!(parse_pid("4294967296"), None);
    assert_eq!(parse_pid("-1"), None);
    assert_eq!(parse_pid(""), None);
    assert_eq!(parse_pid(&pid_text(77)), Some(77));
    assert_eq!(read_pid_file(None), Ok(None));
    assert_eq!(read_pid_file(Some("5")), Ok(Some(5)));
    assert_eq!(read_pid_file(Some("five")), Err(InvalidPid));
    assert_eq!(InvalidPid.message(), "Invalid PID in file");
}

#[test]
fn the_daemon_does_not_start_twice() {
    assert_eq!(before_write(&PidFile::Missing), BeforeWrite::Write);
    assert_eq!(before_write(&PidFile::Unreadable), BeforeWrite::RemoveFirst);
    assert_eq!(
        before_write(&PidFile::Text("junk".to_string())),
        BeforeWrite::RemoveFirst
    );
    assert_eq!(
        before_write(&PidFile::Text("12\n".to_string())),
        BeforeWrite::AskFor(12)
    );
    assert_eq!(take_over(12, false), Ok(()));
    assert_eq!(
        take_over(12, true),
        Err("Kronical daemon is already running (PID: 12)".to_string())
    );
}

#[test]
fn a_process_removes_only_its_own_file() {
    assert_eq!(verify_pid_file("12\n", 12), Ok(()));
    assert_eq!(
        verify_pid_file("13", 12),
        Err("PID file verification failed: expected 12, found 13".to_string())
    );
    assert_eq!(
        verify_pid_file("x", 12),
        Err("parsing pid from x".to_string())
    );
    assert_eq!(cleanup_pid_file("12", 12, ""), Ok(()));
    assert_eq!(
        cleanup_pid_file("13", 12, ""),
        Err("PID file belongs to a different process (13), current is 12".to_string())
    );
    assert_eq!(
        cleanup_pid_file("x", 12, "invalid digit found in string"),
        Err("PID file contains invalid PID 'x': invalid digit found in string".to_string())
    );
    let mut guard = PidFileGuard::new("/w/kronid.pid".to_string());
    assert!(guard.removes(Some("12"), 12));
    assert!(!guard.removes(Some("13"), 12));
    assert!(!guard.removes(None, 12));
    guard.disarm();
    assert!(!guard.removes(Some("12"), 12));
    assert_eq!(guard.path, "/w/kronid.pid");
}

#[test]
fn stopping_says_what_it_did() {
    let run = Some("r1".to_string());
    assert!(matches!(plan_stop(None, false), StopPlan::NotRunning));
    assert!(matches!(plan_stop(Some(3), false), StopPlan::Stale));
    assert!(matches!(plan_stop(Some(3), true), StopPlan::Signal(3)));
    assert_eq!(
        stop_line(&StopPlan::NotRunning, &run),
        "Kronical daemon is not running"
    );
    assert_eq!(
        stop_line(&StopPlan::Stale, &run),
        "Kronical daemon is not running (stale PID file)"
    );
    assert_eq!(
        stop_line(&StopPlan::Signal(3), &run),
        "Stopping Kronical daemon (PID: 3, run_id: r1)..."
    );
    assert_eq!(
        stopped_line(false, &None),
        "Kronical daemon stopped successfully (run_id: null)"
    );
    assert_eq!(
        stopped_line(true, &None),
        "Kronical daemon did not stop gracefully, you may need to kill it manually"
    );
}

#[test]
fn starting_needs_a_free_place() {
    assert_eq!(plan_start(None, false), Ok(false));
    assert_eq!(plan_start(Some(3), false), Ok(true));
    assert_eq!(
        plan_start(Some(3), true),
        Err(
            "Kronical daemon is already running (PID: 3). Use 'kronictl stop' first.".to_string()
        )
    );
    assert_eq!(
        start_line(&None),
        "Starting Kronical daemon in background (run_id: null)..."
    );
    assert_eq!(run_args(&None), Vec::<String>::new());
    assert_eq!(
        run_args(&Some("r".to_string())),
        vec!["--run".to_string(), "r".to_string()]
    );
    assert_eq!(run_id_in_file(" \n"), None);
    assert_eq!(run_id_in_file("r1\n").as_deref(), Some("r1"));
    let (a, b) = (Some("a".to_string()), Some("b".to_string()));
    assert_eq!(run_after_restart(a.clone(), b.clone()), a);
    assert_eq!(run_after_restart(None, b.clone()), b);
}

#[test]
fn more_is_logged_when_asked() {
    let levels: Vec<LogLevel> = (0..5).map(log_level).collect();
    assert_eq!(
        levels,
        vec![
            LogLevel::Warn,
            LogLevel::Info,
            LogLevel::Debug,
            LogLevel::Trace,
            LogLevel::Trace
        ]
    );
}

#[test]
fn hook_reports_become_events() {
    assert!(matches!(
        event_of_report(HookReport::Keyboard),
        Some(ChronicleEvent::KeyboardInput)
    ));
    for r in [HookReport::Mouse, HookReport::Wheel] {
        assert!(matches!(
            event_of_report(r),
            Some(ChronicleEvent::MouseInput)
        ));
    }
    assert!(event_of_report(HookReport::HookEnabled).is_none());
    assert!(event_of_report(HookReport::HookDisabled).is_none());
}

#[test]
fn events_are_numbered_by_their_time() {
    let raw = EventCoordinator::convert_chronicle_to_raw_at(
        ChronicleEvent::MouseInput,
        t(5),
        Timestamp::from_timestamp(6, 7_000_000).unwrap(),
    )
    .unwrap();
    assert_eq!(raw.timestamp(), t(5));
    assert_eq!(raw.event_id(), 6_007);
    assert!(matches!(raw, RawEvent::MouseInput { data, .. } if data.button.is_none()));
    let early =
        EventCoordinator::convert_chronicle_to_raw_at(ChronicleEvent::KeyboardInput, t(5), t(-1))
            .unwrap();
    assert_eq!(early.event_id(), (-1_000i64) as u64);
    let error = EventCoordinator::convert_chronicle_to_raw(ChronicleEvent::Shutdown).unwrap_err();
    assert_eq!(error.message(), "Cannot convert Shutdown event to RawEvent");
    let now = EventCoordinator::convert_chronicle_to_raw(ChronicleEvent::WindowFocusChange {
        focus_info: focus(1, 2, "x"),
    })
    .unwrap();
    assert!(t(1_600_000_000).is_before(&now.timestamp()));
    let _ = EventCoordinator::new();
}

#[test]
fn events_are_gathered_until_a_pause() {
    let mut data = DataLoop::new();
    let step = data.on_wait(Wait::Timeout, t(0), t(0));
    assert!(matches!(step, LoopStep::CheckTimeouts));
    for i in 1..=3 {
        let step = data.on_wait(Wait::Event(ChronicleEvent::KeyboardInput), t(i), t(i));
        assert!(matches!(step, LoopStep::CheckTimeouts));
    }
    match data.on_wait(Wait::Timeout, t(9), t(9)) {
        LoopStep::Process(batch) => {
            let times: Vec<Timestamp> = batch.iter().map(|e| e.timestamp()).collect();
            assert_eq!(times, vec![t(1), t(2), t(3)]);
        }
        other => panic!("unexpected step: {:?}", other),
    }
    assert!(data.pending.is_empty());
    assert!(matches!(
        data.on_wait(Wait::Disconnected, t(9), t(9)),
        LoopStep::Finish
    ));
    assert!(matches!(
        data.on_wait(Wait::Event(ChronicleEvent::Shutdown), t(9), t(9)),
        LoopStep::Finish
    ));
}

#[test]
fn records_are_shown_once_stored() {
    let mut data = DataLoop::new();
    assert!(!data.on_records(&vec![]));
    assert!(data.on_records(&vec![record(None, 0, None), record(None, 1, None)]));
    assert!(data.after_store(false).is_none());
    assert_eq!(data.after_store(true).unwrap().len(), 2);
    assert!(data.on_timed_out(None).is_none());
    let stored = data.on_timed_out(Some(record(None, 2, Some(3)))).unwrap();
    assert_eq!(stored.len(), 1);
    assert_eq!(data.after_store(true).unwrap()[2].start_time, t(2));
    assert!(DataLoop::on_finish(None).is_none());
    assert_eq!(DataLoop::on_finish(Some(record(None, 4, None))).unwrap().len(), 1);
    assert!(DataLoop::on_compressed(None).is_none());
    assert!(DataLoop::on_compressed(Some(vec![])).is_none());
}

#[test]
fn totals_grow_record_by_record() {
    let mut m = AggregationManager::new();
    assert!(m.is_empty());
    let records = vec![
        record(Some(focus(1, 5, "a")), 100, Some(160)),
        record(Some(focus(2, 6, "b")), 50, Some(60)),
        record(None, 0, Some(1_000)),
        record(Some(focus(1, 5, "c")), 90, Some(95)),
        record(Some(focus(1, 0, "no number")), 95, None),
    ];
    for r in &records {
        assert!(m.has_room_for(r));
        m.update_with_record(r);
    }
    assert_eq!(m.len(), 2);
    let apps = m.get_aggregated_activities();
    assert_eq!(apps[0].pid, 1);
    assert_eq!(apps[0].total_duration_seconds, 65);
    assert_eq!(apps[0].first_seen, t(90));
    assert_eq!(apps[0].last_seen, t(100));
    assert_eq!(apps[0].windows.len(), 1);
    let w = &apps[0].windows[0];
    assert_eq!(w.window_title.as_str(), "c");
    assert_eq!((w.duration_seconds, w.record_count), (65, 2));
    assert_eq!(apps[1].total_duration_seconds, 10);
    m.clear();
    assert!(m.is_empty());
    assert_eq!(m.len(), 0);
}

#[test]
fn totals_that_do_not_fit_are_refused() {
    let mut m = AggregationManager::new();
    // A record that ends before it starts lasts almost 2^64 seconds.
    let odd = record(Some(focus(1, 5, "a")), 100, Some(90));
    assert!(m.has_room_for(&odd));
    m.update_with_record(&odd);
    assert_eq!(
        m.get_aggregated_activities()[0].total_duration_seconds,
        (-10i64) as u64
    );
    assert!(m.has_room_for(&record(Some(focus(1, 5, "a")), 0, Some(9))));
    assert!(!m.has_room_for(&record(Some(focus(1, 5, "a")), 0, Some(10))));
    assert!(m.has_room_for(&record(Some(focus(2, 5, "a")), 0, Some(10))));
}
