use kronical::aggregate::{aggregate_activities_since, AggregatedActivity};
use kronical::display::pretty_duration;
use kronical::events::adapter::EventAdapter;
use kronical::events::derive_signal::LockDeriver;
use kronical::events::model::{
    DefaultStateEngine, EventEnvelope, EventKind, EventPayload, EventSource, HintKind, SignalKind,
    StateEngine,
};
use kronical::events::{KeyboardEventData, RawEvent, WindowFocusInfo};
use kronical::interner::StringInterner;
use kronical::log_cli::parse_selection;
use kronical::log_files::{order_entries, LogEntry};
use kronical::numbers::{number_text, parse_number};
use kronical::paths::{grpc_uds, http_uds, pid_file, run_id_file};
use kronical::record_processor::RecordProcessor;
use kronical::records::{ActivityRecord, ActivityState, RecordBuilder};
use kronical::stream::EventStream;
use kronical::time::Timestamp;
use std::sync::Arc;

fn t(secs: i64) -> Timestamp {
    Timestamp::from_timestamp(secs, 0).unwrap()
}

fn focus(pid: i32, app: &str, window_id: u32, title: &str) -> WindowFocusInfo {
    WindowFocusInfo {
        pid,
        process_start_time: 7,
        app_name: Arc::new(app.to_string()),
        window_title: Arc::new(title.to_string()),
        window_id,
        window_instance_start: t(0),
        window_position: None,
        window_size: None,
    }
}

fn envelope(id: u64, secs: i64, kind: EventKind, payload: EventPayload) -> EventEnvelope {
    EventEnvelope {
        id,
        timestamp: t(secs),
        source: EventSource::Hook,
        kind,
        payload,
        derived: false,
        polling: false,
        sensitive: false,
    }
}

fn signal(kind: SignalKind, secs: i64) -> EventEnvelope {
    envelope(1, secs, EventKind::Signal(kind), EventPayload::Empty)
}

fn raw_focus(id: u64, f: WindowFocusInfo) -> RawEvent {
    RawEvent::WindowFocusChange {
        timestamp: t(id as i64),
        event_id: id,
        focus_info: f,
    }
}

fn raw_key(id: u64) -> RawEvent {
    RawEvent::KeyboardInput {
        timestamp: t(id as i64),
        event_id: id,
        data: KeyboardEventData {
            key_code: None,
            key_char: None,
            modifiers: vec![],
        },
    }
}

#[test]
fn time_and_signals_move_the_engine() {
    let mut engine = DefaultStateEngine::new(t(0), 30, 120);
    assert!(engine
        .on_signal(&signal(SignalKind::MouseInput, 0), t(0))
        .is_some());
    let mut states = Vec::new();
    for now in [0, 30, 31, 31, 120, 121, 500] {
        let _ = engine.on_tick(t(now));
        states.push(engine.current());
    }
    assert_eq!(
        states,
        vec![
            ActivityState::Active,
            ActivityState::Active,
            ActivityState::Passive,
            ActivityState::Passive,
            ActivityState::Passive,
            ActivityState::Inactive,
            ActivityState::Inactive
        ]
    );
    let hint = envelope(
        2,
        600,
        EventKind::Hint(HintKind::FocusChanged),
        EventPayload::Empty,
    );
    assert!(engine.on_signal(&hint, t(600)).is_none());
    assert_eq!(engine.current(), ActivityState::Inactive);
    assert!(engine
        .on_signal(&signal(SignalKind::LockStart, 700), t(700))
        .is_some());
    for kind in [
        SignalKind::KeyboardInput,
        SignalKind::AppChanged,
        SignalKind::LockStart,
    ] {
        assert!(engine.on_signal(&signal(kind, 800), t(800)).is_none());
        assert!(engine.on_tick(t(900)).is_none());
        assert_eq!(engine.current(), ActivityState::Locked);
    }
    let unlocked = engine
        .on_signal(&signal(SignalKind::LockEnd, 901), t(901))
        .unwrap();
    assert_eq!(unlocked.from, ActivityState::Locked);
}

#[test]
fn batches_can_be_cut_anywhere() {
    let events = || {
        vec![
            raw_focus(1, focus(1, "Editor", 1, "a")),
            raw_key(2),
            raw_focus(3, focus(1, "Editor", 1, "a")),
            raw_focus(4, focus(1, "Editor", 1, "b")),
            raw_focus(5, focus(2, "LoginWindow", 9, "")),
            raw_key(6),
            raw_focus(7, focus(1, "Editor", 2, "c")),
        ]
    };
    let kinds = |cuts: &[usize]| {
        let mut adapter = EventAdapter::new();
        let mut locks = LockDeriver::new();
        let mut out = Vec::new();
        let mut rest = events();
        for &n in cuts {
            let tail = rest.split_off(n.min(rest.len()));
            let adapted = adapter.adapt_batch(&rest);
            for env in locks.derive(&adapted) {
                out.push((env.id, env.kind, env.derived));
            }
            rest = tail;
        }
        out
    };
    let whole = kinds(&[7]);
    assert_eq!(whole, kinds(&[1, 1, 1, 1, 1, 1, 1]));
    assert_eq!(whole, kinds(&[3, 0, 4]));
    assert!(whole.iter().all(|(id, _, _)| (1..=7).contains(id)));
    // The repeated focus says nothing, and no key gets through the lock.
    assert!(whole.iter().all(|(id, _, _)| *id != 3 && *id != 6));
    assert!(whole
        .iter()
        .any(|(_, kind, _)| *kind == EventKind::Signal(SignalKind::LockStart)));
    assert!(whole
        .iter()
        .any(|(_, kind, _)| *kind == EventKind::Signal(SignalKind::LockEnd)));
}

#[test]
fn interned_strings_stay_few_and_distinct() {
    let mut interner = StringInterner::with_max_entries(3);
    let mut held = Vec::new();
    for i in 0..20 {
        held.push(interner.intern(&format!("s{}", i % 5)));
        assert!(interner.len() <= 3);
        assert!(interner.contains(&format!("s{}", i % 5)));
    }
    let before = interner.len();
    let _ = interner.intern("s4");
    assert_eq!(interner.len(), before);
}

#[test]
fn signals_cut_no_record() {
    let mut builder = RecordBuilder::new(ActivityState::Active);
    let hint = |id, title: &str| {
        envelope(
            id,
            id as i64,
            EventKind::Hint(HintKind::FocusChanged),
            EventPayload::Focus(focus(1, "Editor", id as u32, title)),
        )
    };
    assert!(builder.on_hint(&hint(1, "a")).is_none());
    assert!(builder
        .on_hint(&signal(SignalKind::KeyboardInput, 2))
        .is_none());
    assert!(builder.on_hint(&signal(SignalKind::LockStart, 3)).is_none());
    let mut ids = Vec::new();
    for i in 2..6 {
        ids.push(builder.on_hint(&hint(i, "b")).unwrap().record_id);
    }
    assert!(ids.windows(2).all(|w| w[1] == w[0] + 1));
    assert_eq!(builder.current_focus().unwrap().window_id, 5);
}

#[test]
fn applications_share_out_the_time() {
    let records: Vec<ActivityRecord> = (0..30)
        .map(|i| ActivityRecord {
            record_id: i,
            run_id: None,
            start_time: t(i as i64 * 10),
            end_time: Some(t(i as i64 * 10 + (i as i64 % 4) * 3)),
            state: ActivityState::Active,
            focus_info: Some(focus(
                (i % 3) as i32,
                "Editor",
                (i % 7) as u32,
                &format!("t{}", i % 2),
            )),
            event_count: 0,
            triggering_events: vec![],
        })
        .collect();
    let apps: Vec<AggregatedActivity> =
        aggregate_activities_since(&records, t(55), t(1_000), 0, 100, 100);
    let total: u64 = apps.iter().map(|a| a.total_duration_seconds).sum();
    let expected: i64 = records
        .iter()
        .map(|r| {
            let start = r.start_time.max_with(&t(55));
            r.end_time.unwrap().num_seconds_since(&start).max(0)
        })
        .sum();
    assert_eq!(total as i64, expected);
    for (i, a) in apps.iter().enumerate() {
        assert!(apps[i + 1..].iter().all(|b| a.pid != b.pid));
        assert!(apps[i + 1..]
            .iter()
            .all(|b| !a.last_seen.is_before(&b.last_seen)));
    }
}

#[test]
fn duration_parts_add_up() {
    for secs in [1u64, 59, 60, 61, 3_599, 3_600, 86_399, 86_400, 1_000_000, u64::MAX] {
        let text = pretty_duration(secs);
        let mut total: u128 = 0;
        let mut n: u128 = 0;
        for c in text.chars() {
            match c.to_digit(10) {
                Some(d) => n = n * 10 + d as u128,
                None => {
                    total += n * match c {
                        'd' => 86_400,
                        'h' => 3_600,
                        'm' => 60,
                        _ => 1,
                    };
                    n = 0;
                }
            }
        }
        assert_eq!(total, secs as u128);
    }
}

#[test]
fn selections_stay_in_bounds_and_repeat_nothing() {
    for text in ["0", "-1", "0-4", "4-0", "-1-(-5)", "0,0,1-3,-1,2", "(1)-(2)"] {
        let places = parse_selection(text, 5).unwrap();
        for (i, p) in places.iter().enumerate() {
            assert!(*p < 5);
            assert!(!places[i + 1..].contains(p));
        }
    }
}

#[test]
fn ordering_files_loses_none() {
    let entries: Vec<LogEntry> = (0..20)
        .map(|i| LogEntry {
            index: 0,
            path: format!("f{i}"),
            modified: (i * 7 % 11) as i128,
            modified_text: String::new(),
            size: 0,
        })
        .collect();
    let ordered = order_entries(entries);
    assert!(ordered
        .windows(2)
        .all(|w| (w[0].modified, &w[0].path) < (w[1].modified, &w[1].path)));
    let mut names: Vec<String> = ordered.iter().map(|e| e.path.clone()).collect();
    names.sort();
    names.dedup();
    assert_eq!(names.len(), 20);
    assert!(ordered.iter().enumerate().all(|(i, e)| e.index == i));
}

#[test]
fn numbers_are_read_back() {
    for n in [0, 7, 10, 4_294_967_295, u64::MAX] {
        assert_eq!(parse_number(&number_text(n), u64::MAX), Some(n));
    }
}

#[test]
fn files_of_the_daemon_do_not_collide() {
    for dir in ["", "/w", "/w/"] {
        let mut all = vec![pid_file(dir), run_id_file(dir), grpc_uds(dir), http_uds(dir)];
        all.sort();
        all.dedup();
        assert_eq!(all.len(), 4);
    }
}

#[test]
fn blank_lines_are_idle() {
    let mut stream = EventStream::new();
    let _ = stream.feed("\r\n", true);
    for _ in 0..3 {
        assert_eq!(stream.feed("\n", true), None);
        assert!(!stream.in_head());
    }
}

fn shown(records: &[ActivityRecord]) -> Vec<(u64, ActivityState, Option<u32>)> {
    records
        .iter()
        .map(|r| {
            (
                r.record_id,
                r.state,
                r.focus_info.as_ref().map(|f| f.window_id),
            )
        })
        .collect()
}

#[test]
fn raw_input_becomes_records() {
    let mut p = RecordProcessor::new(t(0), 30, 120);
    let made = p.process_events_at(
        &vec![raw_focus(1, focus(1, "Editor", 1, "a")), raw_key(2)],
        t(100),
        t(100),
    );
    // The change of application makes the state active; the focus hint cuts once more.
    assert_eq!(shown(&made), vec![(0, ActivityState::Active, None)]);
    assert_eq!(p.current_state(), ActivityState::Active);
    let made = p.process_events_at(
        &vec![raw_focus(3, focus(1, "Editor", 1, "b"))],
        t(110),
        t(110),
    );
    assert_eq!(shown(&made), vec![(1, ActivityState::Active, Some(1))]);
    assert_eq!(made[0].end_time, Some(t(110)));
    let timed_out = p.check_timeouts_at(t(60), t(160), t(161)).unwrap();
    assert_eq!(timed_out.record_id, 2);
    assert_eq!(timed_out.end_time, Some(t(160)));
    assert_eq!(p.current_state(), ActivityState::Passive);
    assert!(p.check_timeouts_at(t(60), t(160), t(161)).is_none());
    let last = p.finalize_all_at(t(200)).unwrap();
    assert_eq!(last.start_time, t(161));
    assert_eq!(p.next_record_id(), 4);
    assert!(p.finalize_all_at(t(200)).is_none());
}

#[test]
fn locked_input_leaves_no_trace() {
    let mut p = RecordProcessor::new(t(0), 30, 120);
    let _ = p.process_events_at(
        &vec![raw_focus(1, focus(9, "loginwindow", 1, ""))],
        t(10),
        t(10),
    );
    assert_eq!(p.current_state(), ActivityState::Locked);
    let next = p.next_record_id();
    let made = p.process_events_at(&vec![raw_key(2), raw_key(3)], t(20), t(20));
    assert!(made.is_empty());
    assert_eq!(p.next_record_id(), next);
    assert_eq!(p.current_state(), ActivityState::Locked);
}

#[test]
fn cutting_batches_changes_no_record() {
    let events = || {
        vec![
            raw_focus(1, focus(1, "Editor", 1, "a")),
            raw_key(2),
            raw_focus(3, focus(1, "Editor", 2, "b")),
            raw_focus(4, focus(2, "loginwindow", 9, "")),
            raw_key(5),
            raw_focus(6, focus(1, "Editor", 2, "b")),
        ]
    };
    let run = |cut: usize| {
        let mut p = RecordProcessor::new(t(0), 30, 120);
        let mut first = events();
        let second = first.split_off(cut);
        let mut made = p.process_events_at(&first, t(50), t(51));
        made.extend(p.process_events_at(&second, t(50), t(51)));
        (shown(&made), p.next_record_id())
    };
    let whole = run(6);
    for cut in 0..6 {
        assert_eq!(run(cut), whole);
    }
}

#[test]
fn lock_signals_alternate_over_batches() {
    let changed = |id: u64, app: &str| {
        envelope(
            id,
            id as i64,
            EventKind::Signal(SignalKind::AppChanged),
            EventPayload::Focus(focus(id as i32, app, id as u32, "")),
        )
    };
    let hint = |id: u64, kind: HintKind| {
        envelope(id, id as i64, EventKind::Hint(kind), EventPayload::Empty)
    };
    let key = |id: u64| {
        envelope(
            id,
            id as i64,
            EventKind::Signal(SignalKind::KeyboardInput),
            EventPayload::Empty,
        )
    };
    let batches = vec![
        vec![key(1), changed(2, "Editor"), hint(3, HintKind::TitleChanged)],
        vec![changed(4, "loginwindow"), key(5)],
        vec![],
        vec![
            changed(6, "LOGINWINDOW"),
            hint(7, HintKind::FocusChanged),
            hint(8, HintKind::TitleChanged),
        ],
        vec![key(9), changed(10, "Editor"), key(11)],
        vec![changed(12, "loginwindow"), changed(13, "Editor")],
    ];
    let mut locks = LockDeriver::new();
    let mut out = Vec::new();
    for batch in &batches {
        out.extend(locks.derive(batch));
    }
    let mut open = false;
    let mut forwarded = Vec::new();
    for e in &out {
        match e.kind {
            EventKind::Signal(SignalKind::LockStart) => {
                assert!(!open);
                open = true;
            }
            EventKind::Signal(SignalKind::LockEnd) => {
                assert!(open);
                open = false;
            }
            kind => {
                assert!(!open || kind == EventKind::Hint(HintKind::FocusChanged));
                forwarded.push(e.id);
            }
        }
    }
    assert_eq!(forwarded, vec![1, 2, 3, 7, 10, 11, 13]);
    let starts = |kind: SignalKind| {
        out.iter()
            .filter(|e| e.kind == EventKind::Signal(kind))
            .count()
    };
    assert_eq!(starts(SignalKind::LockStart), 2);
    assert_eq!(starts(SignalKind::LockEnd), 2);
}
