use chrono::{TimeZone, Utc};
use kronical::compression::{
    CompactEvent, CompactFocusEvent, CompactKeyboardActivity, CompactMouseTrajectory,
    CompactScrollSequence, MouseTrajectoryType, RawEventPointer, ScrollDirection,
    DEFAULT_RAW_EVENT_TABLE,
};
use kronical::events::model::{
    EventEnvelope, EventKind, EventPayload, EventSource, HintKind, SignalKind,
};
use kronical::events::{KeyboardEventData, MousePosition, RawEvent, WindowFocusInfo};
use kronical::records::{ActivityRecord, ActivityState};
use kronical::snapshot::Transition;
use kronical::storage::compact::{
    commit_failure, plan_insert, write_failure, CompactCommand, CompactInsert,
};
use kronical::storage::labels::{
    label_of_kind, label_of_source, label_of_state, parse_kind_label, parse_source_label,
    parse_state_label,
};
use kronical::storage::metrics::{
    insert_statement, limit_statement, read_metrics, recent_query, write_metrics, MetricsRow,
    SystemMetrics, DEFAULT_LIMIT_MB,
};
use kronical::storage::plan::{plan_command, stops_at_error, CompactText, Statement, Value};
use kronical::storage::rows::{
    envelope_from_columns, payload_of, plan_payload, read_envelope, read_envelopes, read_record,
    read_transition, record_from_columns, write_record, write_transition, EnvelopeRow,
    ParsedPayload, PayloadText, ReadError, RecordRow, TransitionRow,
};
use kronical::storage::schema::{
    ENVELOPES_QUERY, METRICS_COUNT_QUERY, METRICS_RANGE_QUERY, SQLITE_METRICS_SCHEMA,
    SQLITE_RECORDS_QUERY, SQLITE_SCHEMA,
};
use kronical::storage::{
    compact_commands, dec_backlog, inc_backlog, set_last_flush, Backend, StorageCommand,
    StorageGauge, Writer,
};
use kronical::time::Timestamp;
use rusqlite::types::Value as Sql;
use rusqlite::{params_from_iter, Connection};
use serde_json::Value as Json;
use std::sync::Arc;

fn at(year: i32, month: u32, day: u32, hour: u32, minute: u32, second: u32) -> Timestamp {
    let t = Utc
        .with_ymd_and_hms(year, month, day, hour, minute, second)
        .unwrap();
    Timestamp::from_timestamp(t.timestamp(), 0).unwrap()
}

fn later(t: Timestamp, secs: i64) -> Timestamp {
    Timestamp::from_timestamp(t.timestamp() + secs, t.subsec_nanos()).unwrap()
}

/// The words in which chrono refuses a text.
fn refusal(text: &str) -> String {
    chrono::DateTime::parse_from_rfc3339(text)
        .unwrap_err()
        .to_string()
}

struct SampleData {
    base_ts: Timestamp,
    focus_info: WindowFocusInfo,
    raw_event: RawEvent,
    keyboard_env: EventEnvelope,
    state_env: EventEnvelope,
    record: ActivityRecord,
}

fn build_sample_data() -> SampleData {
    let base_ts = at(2024, 6, 1, 12, 0, 0);
    let focus_info = WindowFocusInfo {
        pid: 42,
        process_start_time: 123_456,
        app_name: Arc::new("Chronicle".to_string()),
        window_title: Arc::new("Coverage".to_string()),
        window_id: 777,
        window_instance_start: base_ts,
        window_position: Some(MousePosition { x: 10, y: 20 }),
        window_size: Some((1280, 720)),
    };
    let raw_event = RawEvent::KeyboardInput {
        timestamp: base_ts,
        event_id: 1,
        data: KeyboardEventData {
            key_code: Some(13),
            key_char: Some('\n'),
            modifiers: vec!["cmd".into()],
        },
    };
    let keyboard_env = EventEnvelope {
        id: 10,
        timestamp: later(base_ts, 1),
        source: EventSource::Hook,
        kind: EventKind::Signal(SignalKind::KeyboardInput),
        payload: EventPayload::Keyboard(KeyboardEventData {
            key_code: Some(42),
            key_char: Some('*'),
            modifiers: vec!["shift".into()],
        }),
        derived: false,
        polling: false,
        sensitive: false,
    };
    let state_env = EventEnvelope {
        id: 11,
        timestamp: later(base_ts, 2),
        source: EventSource::Derived,
        kind: EventKind::Hint(HintKind::StateChanged),
        payload: EventPayload::State {
            from: ActivityState::Inactive,
            to: ActivityState::Active,
        },
        derived: true,
        polling: false,
        sensitive: false,
    };
    let record = ActivityRecord {
        record_id: 5,
        run_id: None,
        start_time: base_ts,
        end_time: Some(later(base_ts, 5)),
        state: ActivityState::Active,
        focus_info: Some(focus_info.clone()),
        event_count: 3,
        triggering_events: vec![1, 2, 3],
    };
    SampleData {
        base_ts,
        focus_info,
        raw_event,
        keyboard_env,
        state_env,
        record,
    }
}

fn compact_events(base_ts: Timestamp) -> Vec<CompactEvent> {
    vec![
        CompactEvent::Scroll(CompactScrollSequence {
            start_time: base_ts,
            end_time: later(base_ts, 1),
            direction: ScrollDirection::VerticalDown,
            total_amount: -10,
            total_rotation: -10,
            scroll_count: 2,
            position: MousePosition { x: 0, y: 0 },
            raw_event_ids: RawEventPointer::new(DEFAULT_RAW_EVENT_TABLE, vec![1]),
        }),
        CompactEvent::Keyboard(CompactKeyboardActivity {
            start_time: base_ts,
            end_time: later(base_ts, 1),
            keystrokes: 4,
            keys_per_minute_bits: 240.0f32.to_bits(),
            density_per_sec_bits: 4.0f32.to_bits(),
            raw_event_ids: RawEventPointer::new(DEFAULT_RAW_EVENT_TABLE, vec![1]),
        }),
        CompactEvent::MouseTrajectory(CompactMouseTrajectory {
            start_time: later(base_ts, 2),
            end_time: later(base_ts, 3),
            event_type: MouseTrajectoryType::Movement,
            start_position: MousePosition { x: 10, y: 10 },
            end_position: MousePosition { x: 20, y: 20 },
            simplified_path: vec![
                MousePosition { x: 10, y: 10 },
                MousePosition { x: 20, y: 20 },
            ],
            total_distance_bits: 28.0f32.to_bits(),
            max_velocity_bits: 14.0f32.to_bits(),
            raw_event_ids: RawEventPointer::new(DEFAULT_RAW_EVENT_TABLE, vec![2, 3]),
        }),
        CompactEvent::Focus(CompactFocusEvent {
            timestamp: later(base_ts, 4),
            app_name_id: 1,
            window_title_id: 2,
            pid: 42,
            window_position: Some(MousePosition { x: 50, y: 60 }),
            raw_event_ids: RawEventPointer::new(DEFAULT_RAW_EVENT_TABLE, vec![99]),
        }),
    ]
}

fn object(pairs: Vec<(&str, Json)>) -> Json {
    Json::Object(pairs.into_iter().map(|(k, v)| (k.to_string(), v)).collect())
}

fn keyboard_json(code: u16) -> String {
    object(vec![("key_code", Json::from(code))]).to_string()
}

fn keyboard_of_json(text: &str) -> Option<KeyboardEventData> {
    let v: Json = serde_json::from_str(text).ok()?;
    Some(KeyboardEventData {
        key_code: Some(v.get("key_code")?.as_u64()? as u16),
        key_char: None,
        modifiers: vec![],
    })
}

fn focus_json(f: &WindowFocusInfo) -> String {
    object(vec![
        ("pid", Json::from(f.pid)),
        ("app_name", Json::from(f.app_name.as_str())),
        ("window_id", Json::from(f.window_id)),
    ])
    .to_string()
}

fn focus_of_json(text: &str) -> Option<WindowFocusInfo> {
    let v: Json = serde_json::from_str(text).ok()?;
    Some(WindowFocusInfo {
        pid: v.get("pid")?.as_i64()? as i32,
        process_start_time: 0,
        app_name: Arc::new(v.get("app_name")?.as_str()?.to_string()),
        window_title: Arc::new(String::new()),
        window_id: v.get("window_id")?.as_u64()? as u32,
        window_instance_start: Timestamp::epoch(),
        window_position: None,
        window_size: None,
    })
}

fn parsed(text: PayloadText) -> ParsedPayload {
    match text {
        PayloadText::Keyboard(t) => ParsedPayload::Keyboard(keyboard_of_json(&t)),
        PayloadText::Mouse(_) => ParsedPayload::Mouse(None),
        PayloadText::Focus(t) => ParsedPayload::Focus(focus_of_json(&t)),
        PayloadText::Known(p) => ParsedPayload::Known(p),
    }
}

fn open_store() -> Connection {
    let conn = Connection::open_in_memory().expect("open sqlite");
    conn.execute_batch(SQLITE_SCHEMA).expect("create tables");
    conn.execute_batch(SQLITE_METRICS_SCHEMA)
    .expect("create tables");
    conn
}

fn sql_value(v: Value) -> Sql {
    match v {
        Value::Null => Sql::Null,
        Value::Text(t) => Sql::Text(t),
        Value::Int(n) => Sql::Integer(n),
        Value::Bool(b) => Sql::Integer(b as i64),
        Value::Time(t) => Sql::Text(t.to_rfc3339()),
    }
}

fn run(conn: &Connection, command: StorageCommand, data: Option<String>, texts: Vec<CompactText>) {
    for s in plan_command(Backend::Sqlite, &command, data, &texts) {
        let values: Vec<Sql> = s.values.into_iter().map(sql_value).collect();
        conn.execute(s.sql, params_from_iter(values)).expect(s.sql);
    }
}

fn count(conn: &Connection, table: &str) -> i64 {
    conn.query_row(&format!("SELECT COUNT(*) FROM {table}"), [], |row| row.get(0))
        .expect("count")
}

fn fetch_envelopes(conn: &Connection, since: Timestamp, until: Timestamp) -> Vec<EventEnvelope> {
    let mut stmt = conn.prepare(ENVELOPES_QUERY).unwrap();
    let rows: Vec<EnvelopeRow> = stmt
        .query_map([since.to_rfc3339(), until.to_rfc3339()], |row| {
            Ok(EnvelopeRow {
                event_id: row.get(0)?,
                timestamp: row.get(1)?,
                source: row.get(2)?,
                kind: row.get(3)?,
                payload: row.get(4)?,
                derived: row.get(5)?,
                polling: row.get(6)?,
                sensitive: row.get(7)?,
            })
        })
        .unwrap()
        .map(|r| r.unwrap())
        .collect();
    let payloads = rows
        .iter()
        .map(|r| parsed(plan_payload(&r.kind, r.payload.clone())))
        .collect();
    read_envelopes(&rows, payloads).expect("envelope fetch succeeds")
}

fn fetch_records(conn: &Connection, since: Timestamp) -> Vec<ActivityRecord> {
    let mut stmt = conn.prepare(SQLITE_RECORDS_QUERY).unwrap();
    stmt.query_map([since.to_rfc3339()], |row| {
        Ok(RecordRow {
            id: row.get(0)?,
            start_time: row.get(1)?,
            end_time: row.get(2)?,
            state: row.get(3)?,
            focus_info: row.get(4)?,
            run_id: row.get(5)?,
        })
    })
    .unwrap()
    .map(|row| {
        let row = row.unwrap();
        let focus = row.focus_info.as_deref().and_then(focus_of_json);
        read_record(&row, focus).expect("record fetch succeeds")
    })
    .collect()
}

#[test]
fn metrics_watch_tracks_backlog_changes() {
    let mut gauge = StorageGauge::new();
    assert_eq!(gauge.storage_metrics_snapshot().backlog_count, 0);

    inc_backlog(&mut gauge);
    assert_eq!(gauge.storage_metrics_snapshot().backlog_count, 1);

    inc_backlog(&mut gauge);
    assert_eq!(gauge.storage_metrics_snapshot().backlog_count, 2);

    dec_backlog(&mut gauge);
    assert_eq!(gauge.storage_metrics_snapshot().backlog_count, 1);
}

#[test]
fn metrics_watch_updates_last_flush_timestamp() {
    let mut gauge = StorageGauge::new();
    assert!(gauge.storage_metrics_snapshot().last_flush_at.is_none());

    let timestamp = at(2024, 5, 1, 12, 30, 45);
    set_last_flush(&mut gauge, timestamp);
    assert_eq!(gauge.storage_metrics_snapshot().last_flush_at, Some(timestamp));

    gauge.last_flush_epoch = 0;
    assert!(gauge.storage_metrics_snapshot().last_flush_at.is_none());
}

#[test]
fn metrics_channel_reflects_backlog_and_flush_updates() {
    let mut gauge = StorageGauge::new();
    let baseline = gauge.storage_metrics_snapshot();

    inc_backlog(&mut gauge);
    let after_inc = gauge.storage_metrics_snapshot();
    assert_eq!(after_inc.backlog_count, baseline.backlog_count + 1);

    dec_backlog(&mut gauge);
    let after_dec = gauge.storage_metrics_snapshot();
    assert_eq!(after_dec.backlog_count, baseline.backlog_count);

    let flush_time = at(2024, 4, 22, 12, 0, 0);
    set_last_flush(&mut gauge, flush_time);
    let after_flush = gauge.storage_metrics_snapshot();
    assert_eq!(after_flush.last_flush_at, Some(flush_time));
}

#[test]
fn new_subscribers_observe_latest_metrics_snapshot() {
    let mut gauge = StorageGauge::new();
    let baseline = gauge.storage_metrics_snapshot();

    inc_backlog(&mut gauge);
    let after_inc = gauge.storage_metrics_snapshot();
    assert_eq!(after_inc.backlog_count, baseline.backlog_count + 1);

    let snapshot = gauge.storage_metrics_snapshot();
    assert_eq!(snapshot.backlog_count, after_inc.backlog_count);
    assert_eq!(snapshot.last_flush_at, after_inc.last_flush_at);
}

#[test]
fn sqlite_storage_persists_and_fetches_data() {
    let sample = build_sample_data();
    let conn = open_store();
    assert!(compact_commands(Vec::new()).is_none());

    let s = build_sample_data();
    run(&conn, StorageCommand::RawEvent(s.raw_event), Some("{}".to_string()), vec![]);
    run(
        &conn,
        StorageCommand::Envelope(s.keyboard_env),
        Some(keyboard_json(42)),
        vec![],
    );
    run(&conn, StorageCommand::Envelope(s.state_env), None, vec![]);
    let focus = focus_json(&s.focus_info);
    run(&conn, StorageCommand::Record(s.record), Some(focus), vec![]);
    let texts = (0..4)
        .map(|_| CompactText {
            payload: Some("{}".to_string()),
            pointer: Some("[1]".to_string()),
        })
        .collect();
    let command = compact_commands(compact_events(s.base_ts)).expect("a command");
    run(&conn, command, None, texts);

    assert_eq!(count(&conn, "raw_events"), 1);
    assert_eq!(count(&conn, "raw_envelopes"), 2);
    assert_eq!(count(&conn, "activity_records"), 1);
    assert_eq!(count(&conn, "compact_events"), 4);

    let since = later(sample.base_ts, -10);
    let records = fetch_records(&conn, since);
    assert_eq!(records.len(), 1);
    let fetched = &records[0];
    assert_eq!(fetched.state, sample.record.state);
    assert!(fetched.end_time.is_some());
    let fetched_focus = fetched.focus_info.as_ref().expect("focus info fetched");
    assert_eq!(fetched_focus.window_id, sample.focus_info.window_id);
    assert_eq!(&*fetched_focus.app_name, &*sample.focus_info.app_name);
    assert_eq!(fetched.event_count, 0);
    assert!(fetched.triggering_events.is_empty());

    let envelopes = fetch_envelopes(&conn, since, later(sample.base_ts, 10));
    assert_eq!(envelopes.len(), 2);

    let mut saw_keyboard = false;
    let mut saw_state = false;
    for env in envelopes {
        match env.kind {
            EventKind::Signal(SignalKind::KeyboardInput) => {
                if let EventPayload::Keyboard(data) = env.payload {
                    assert_eq!(data.key_code, Some(42));
                    saw_keyboard = true;
                }
            }
            EventKind::Hint(HintKind::StateChanged) => {
                if let EventPayload::State { from, to } = env.payload {
                    assert_eq!(from, ActivityState::Inactive);
                    assert_eq!(to, ActivityState::Active);
                    saw_state = true;
                }
            }
            _ => {}
        }
    }
    assert!(saw_keyboard && saw_state);
}

/// The rows that the statements for the DuckDB store put into its tables.
struct DuckRows {
    rows: Vec<(String, Vec<Value>)>,
}

impl DuckRows {
    fn run(&mut self, command: StorageCommand, data: Option<String>, texts: Vec<CompactText>) {
        for s in plan_command(Backend::DuckDb, &command, data, &texts) {
            let table = s
                .sql
                .strip_prefix("INSERT INTO ")
                .and_then(|rest| rest.split(' ').next())
                .expect(s.sql);
            let marks = s.sql.matches('?').count();
            assert_eq!(s.values.len(), marks);
            self.rows.push((table.to_string(), s.values));
        }
    }

    fn of(&self, table: &str) -> Vec<&Vec<Value>> {
        self.rows
            .iter()
            .filter(|(t, _)| t == table)
            .map(|(_, values)| values)
            .collect()
    }

    fn fetch_records_since(&self, since: Timestamp) -> Vec<ActivityRecord> {
        self.of("activity_records")
            .into_iter()
            .zip(1i64..)
            .filter(|(row, _)| time_in(&row[1]).map_or(true, |end| key(end) >= key(since)))
            .map(|(row, id)| {
                record_from_columns(
                    Some(id),
                    time_in(&row[0]).expect("a start"),
                    time_in(&row[1]),
                    &text_in(&row[2]).expect("a state"),
                    text_in(&row[3]).as_deref().and_then(focus_of_json),
                    None,
                )
            })
            .collect()
    }

    fn fetch_envelopes_between(&self, since: Timestamp, until: Timestamp) -> Vec<EventEnvelope> {
        self.of("raw_envelopes")
            .into_iter()
            .filter(|row| time_in(&row[1]).map_or(false, |t| key(since) <= key(t) && key(t) <= key(until)))
            .map(|row| {
                let id = match row[0] {
                    Value::Int(n) => Some(n),
                    _ => None,
                };
                let flag = |i: usize| matches!(row[i], Value::Bool(true));
                let kind = text_in(&row[3]).expect("a kind");
                let payload = parsed(plan_payload(&kind, text_in(&row[4])));
                envelope_from_columns(
                    id,
                    time_in(&row[1]).expect("a time"),
                    &text_in(&row[2]).expect("a source"),
                    &kind,
                    payload,
                    flag(5),
                    flag(6),
                    flag(7),
                )
            })
            .collect()
    }
}

fn key(t: Timestamp) -> (i64, u32) {
    (t.timestamp(), t.subsec_nanos())
}

fn time_in(v: &Value) -> Option<Timestamp> {
    match v {
        Value::Time(t) => Some(*t),
        _ => None,
    }
}

fn text_in(v: &Value) -> Option<String> {
    match v {
        Value::Text(t) => Some(t.clone()),
        _ => None,
    }
}

#[test]
fn duckdb_storage_persists_and_fetches_data() {
    let sample = build_sample_data();
    let mut gauge = StorageGauge::new();
    let mut writer = Writer::new(Backend::DuckDb);
    let mut store = DuckRows { rows: Vec::new() };
    assert_eq!(gauge.storage_metrics_snapshot().backlog_count, 0);
    assert!(compact_commands(Vec::new()).is_none());
    assert_eq!(gauge.storage_metrics_snapshot().backlog_count, 0);

    let s = build_sample_data();
    let focus = focus_json(&s.focus_info);
    let texts: Vec<CompactText> = (0..4)
        .map(|_| CompactText {
            payload: Some("{}".to_string()),
            pointer: Some("[1]".to_string()),
        })
        .collect();
    let compact = compact_commands(compact_events(s.base_ts)).expect("a command");
    let commands = vec![
        (StorageCommand::RawEvent(s.raw_event), Some("{}".to_string()), vec![]),
        (StorageCommand::Envelope(s.keyboard_env), Some(keyboard_json(42)), vec![]),
        (StorageCommand::Envelope(s.state_env), None, vec![]),
        (StorageCommand::Record(s.record), Some(focus), vec![]),
        (compact, None, texts),
    ];
    for _ in &commands {
        inc_backlog(&mut gauge);
    }
    assert_eq!(gauge.storage_metrics_snapshot().backlog_count, 5);
    for (command, data, texts) in commands {
        store.run(command, data, texts);
        let after = writer.wrote(None);
        assert!(after.health.is_none());
        dec_backlog(&mut gauge);
    }
    assert_eq!(gauge.storage_metrics_snapshot().backlog_count, 0);
    assert!(writer.finished(None).is_none());
    set_last_flush(&mut gauge, later(sample.base_ts, 6));
    assert!(gauge.storage_metrics_snapshot().last_flush_at.is_some());

    assert_eq!(store.of("raw_events").len(), 1);
    assert_eq!(store.of("raw_envelopes").len(), 2);
    assert_eq!(store.of("activity_records").len(), 1);
    assert_eq!(store.of("compact_events").len(), 4);

    let since = later(sample.base_ts, -10);
    let records = store.fetch_records_since(since);
    assert_eq!(records.len(), 1);
    let fetched = &records[0];
    assert_eq!(fetched.state, sample.record.state);
    assert!(fetched.end_time.is_some());
    let fetched_focus = fetched.focus_info.as_ref().expect("focus info fetched");
    assert_eq!(fetched_focus.window_id, sample.focus_info.window_id);
    assert_eq!(&*fetched_focus.app_name, &*sample.focus_info.app_name);
    assert_eq!(fetched.event_count, 0);
    assert!(fetched.triggering_events.is_empty());

    let envelopes = store.fetch_envelopes_between(since, later(sample.base_ts, 10));
    assert_eq!(envelopes.len(), 2);

    let mut saw_keyboard = false;
    let mut saw_state = false;
    for env in envelopes {
        match env.kind {
            EventKind::Signal(SignalKind::KeyboardInput) => {
                if let EventPayload::Keyboard(data) = env.payload {
                    assert_eq!(data.key_code, Some(42));
                    saw_keyboard = true;
                }
            }
            EventKind::Hint(HintKind::StateChanged) => {
                if let EventPayload::State { from, to } = env.payload {
                    assert_eq!(from, ActivityState::Inactive);
                    assert_eq!(to, ActivityState::Active);
                    saw_state = true;
                }
            }
            _ => {}
        }
    }
    assert!(saw_keyboard && saw_state);
}

#[test]
fn sqlite_writer_commits_every_hundred_commands() {
    let mut writer = Writer::new(Backend::Sqlite);
    for i in 0..300 {
        let after = writer.wrote(None);
        assert_eq!(after.commit, (i + 1) % 100 == 0);
        assert!(after.health.is_none());
        assert!(!after.restart);
    }
}

#[test]
fn duckdb_writer_commits_every_hundred_commands() {
    let mut writer = Writer::new(Backend::DuckDb);
    for i in 0..100 {
        let after = writer.wrote(None);
        assert_eq!(after.commit, i == 99);
        assert!(after.health.is_none());
        assert!(!after.restart);
    }
}

#[test]
fn writer_reports_what_failed() {
    let mut writer = Writer::new(Backend::DuckDb);
    let after = writer.wrote(Some("full".to_string()));
    assert_eq!(after.health.as_deref(), Some("duckdb write error: full"));
    assert!(after.restart);
    assert_eq!(
        writer.committed(Some("x".to_string())).as_deref(),
        Some("duckdb commit error: x")
    );
    let mut writer = Writer::new(Backend::Sqlite);
    let after = writer.wrote(Some("full".to_string()));
    assert_eq!(after.health.as_deref(), Some("db write error: full"));
    assert!(!after.restart);
    assert_eq!(
        writer.finished(Some("x".to_string())).as_deref(),
        Some("db final commit error: x")
    );
    assert!(writer.finished(None).is_none());
    assert!(stops_at_error(
        Backend::Sqlite,
        &StorageCommand::CompactEvents(vec![])
    ));
    assert!(!stops_at_error(
        Backend::DuckDb,
        &StorageCommand::CompactEvents(vec![])
    ));
    assert!(stops_at_error(Backend::DuckDb, &StorageCommand::Shutdown));
}

#[test]
fn sqlite_fetch_envelopes_decode_variant_payloads() {
    let sample = build_sample_data();
    let conn = open_store();

    let focus_env = EventEnvelope {
        id: 150,
        timestamp: later(sample.base_ts, 3),
        source: EventSource::Hook,
        kind: EventKind::Signal(SignalKind::WindowChanged),
        payload: EventPayload::Focus(sample.focus_info.clone()),
        derived: false,
        polling: false,
        sensitive: true,
    };
    let lock_env = EventEnvelope {
        id: 151,
        timestamp: later(sample.base_ts, 4),
        source: EventSource::Derived,
        kind: EventKind::Signal(SignalKind::LockEnd),
        payload: EventPayload::Lock {
            reason: "unlock".to_string(),
        },
        derived: true,
        polling: false,
        sensitive: false,
    };
    let title_env = EventEnvelope {
        id: 152,
        timestamp: later(sample.base_ts, 5),
        source: EventSource::Polling,
        kind: EventKind::Hint(HintKind::TitleChanged),
        payload: EventPayload::Title {
            window_id: 123,
            title: "Panel".to_string(),
        },
        derived: true,
        polling: true,
        sensitive: false,
    };
    let data = focus_json(&sample.focus_info);
    run(&conn, StorageCommand::Envelope(focus_env), Some(data), vec![]);
    run(&conn, StorageCommand::Envelope(lock_env), None, vec![]);
    run(&conn, StorageCommand::Envelope(title_env), None, vec![]);
    let manual = vec![
        Sql::Null,
        Sql::Text(later(sample.base_ts, 6).to_rfc3339()),
        Sql::Text("derived".to_string()),
        Sql::Text("hint:focus_changed".to_string()),
        Sql::Null,
        Sql::Integer(0),
        Sql::Integer(0),
        Sql::Integer(0),
    ];
    conn.execute(
        "INSERT INTO raw_envelopes (event_id, timestamp, source, kind, payload, derived, polling, sensitive) VALUES (?, ?, ?, ?, ?, ?, ?, ?)",
        params_from_iter(manual),
    )
    .expect("insert manual row");

    let envelopes = fetch_envelopes(&conn, sample.base_ts, later(sample.base_ts, 10));
    assert_eq!(envelopes.len(), 4);

    let mut saw_focus = false;
    let mut saw_lock = false;
    let mut saw_title = false;
    let mut saw_empty = false;
    for env in envelopes {
        match env.kind {
            EventKind::Signal(SignalKind::WindowChanged) => {
                if let EventPayload::Focus(focus) = env.payload {
                    assert_eq!(focus.window_id, sample.focus_info.window_id);
                    assert!(env.sensitive);
                    saw_focus = true;
                }
            }
            EventKind::Signal(SignalKind::LockEnd) => {
                if let EventPayload::Lock { reason } = env.payload {
                    assert_eq!(reason, "\"unlock\"");
                    saw_lock = true;
                }
            }
            EventKind::Hint(HintKind::TitleChanged) => {
                if let EventPayload::Title { window_id, title } = env.payload {
                    assert_eq!(window_id, 123);
                    assert_eq!(title, "Panel");
                    saw_title = true;
                }
            }
            EventKind::Hint(HintKind::FocusChanged) => {
                assert_eq!(env.id, 0);
                assert!(matches!(env.payload, EventPayload::Empty));
                saw_empty = true;
            }
            other => panic!("unexpected kind: {:?}", other),
        }
    }
    assert!(saw_focus && saw_lock && saw_title && saw_empty);
}

#[test]
fn duckdb_fetch_envelopes_decode_variant_payloads() {
    let sample = build_sample_data();
    let value_text = |s: &Statement, i: usize| match &s.values[i] {
        Value::Text(t) => Some(t.clone()),
        _ => None,
    };
    let back = |env: EventEnvelope, data: Option<String>| {
        let (t, d, p, s) = (env.timestamp, env.derived, env.polling, env.sensitive);
        let plan = plan_command(Backend::DuckDb, &StorageCommand::Envelope(env), data, &vec![]);
        let row = &plan[0];
        assert!(matches!(row.values[1], Value::Time(at) if at == t));
        assert!(matches!(row.values[5], Value::Bool(b) if b == d));
        assert!(matches!(row.values[6], Value::Bool(b) if b == p));
        assert!(matches!(row.values[7], Value::Bool(b) if b == s));
        let id = match row.values[0] {
            Value::Int(n) => Some(n),
            _ => None,
        };
        let kind = value_text(row, 3).unwrap();
        let payload = parsed(plan_payload(&kind, value_text(row, 4)));
        envelope_from_columns(id, t, &value_text(row, 2).unwrap(), &kind, payload, d, p, s)
    };

    let focus = back(
        EventEnvelope {
            id: 50,
            timestamp: later(sample.base_ts, 3),
            source: EventSource::Hook,
            kind: EventKind::Signal(SignalKind::AppChanged),
            payload: EventPayload::Focus(sample.focus_info.clone()),
            derived: false,
            polling: false,
            sensitive: true,
        },
        Some(focus_json(&sample.focus_info)),
    );
    assert_eq!(focus.id, 50);
    assert!(focus.sensitive);
    match focus.payload {
        EventPayload::Focus(f) => assert_eq!(f.window_id, sample.focus_info.window_id),
        other => panic!("expected focus payload, got {:?}", other),
    }

    let lock = back(
        EventEnvelope {
            id: 51,
            timestamp: later(sample.base_ts, 4),
            source: EventSource::Derived,
            kind: EventKind::Signal(SignalKind::LockStart),
            payload: EventPayload::Lock {
                reason: "manual lock".to_string(),
            },
            derived: true,
            polling: false,
            sensitive: false,
        },
        None,
    );
    assert!(lock.derived);
    match lock.payload {
        EventPayload::Lock { reason } => assert_eq!(reason, "\"manual lock\""),
        other => panic!("expected lock payload, got {:?}", other),
    }

    let title = back(
        EventEnvelope {
            id: 52,
            timestamp: later(sample.base_ts, 5),
            source: EventSource::Polling,
            kind: EventKind::Hint(HintKind::TitleChanged),
            payload: EventPayload::Title {
                window_id: 999,
                title: "New Title".to_string(),
            },
            derived: true,
            polling: true,
            sensitive: false,
        },
        None,
    );
    assert!(title.polling);
    match title.payload {
        EventPayload::Title { window_id, title } => {
            assert_eq!(window_id, 999);
            assert_eq!(title, "New Title");
        }
        other => panic!("expected title payload, got {:?}", other),
    }

    let empty = envelope_from_columns(
        None,
        later(sample.base_ts, 6),
        "derived",
        "hint:focus_changed",
        parsed(plan_payload("hint:focus_changed", None)),
        false,
        false,
        false,
    );
    assert_eq!(empty.id, 0);
    assert_eq!(empty.kind, EventKind::Hint(HintKind::FocusChanged));
    assert!(matches!(empty.payload, EventPayload::Empty));
}

#[test]
fn sqlite_fetch_records_unknown_state_defaults_to_inactive() {
    let sample = build_sample_data();
    let conn = open_store();
    let manual = vec![
        Sql::Integer(501),
        Sql::Text(sample.base_ts.to_rfc3339()),
        Sql::Text(later(sample.base_ts, 5).to_rfc3339()),
        Sql::Text("Unknown".to_string()),
        Sql::Text(focus_json(&sample.focus_info)),
    ];
    conn.execute(
        "INSERT INTO activity_records (id, start_time, end_time, state, focus_info) VALUES (?, ?, ?, ?, ?)",
        params_from_iter(manual),
    )
    .expect("insert manual record");
    let records = fetch_records(&conn, later(sample.base_ts, -1));
    assert_eq!(records.len(), 1);
    assert_eq!(records[0].state, ActivityState::Inactive);
    assert_eq!(records[0].record_id, 501);
}

#[test]
fn duckdb_fetch_records_unknown_state_defaults_to_inactive() {
    let sample = build_sample_data();
    let record = record_from_columns(
        Some(900),
        sample.base_ts,
        Some(later(sample.base_ts, 2)),
        "Mystery",
        focus_of_json(&focus_json(&sample.focus_info)),
        None,
    );
    assert_eq!(record.state, ActivityState::Inactive);
    assert_eq!(record.record_id, 900);
    assert!(record.end_time.is_some());
}

fn metrics(count: usize, start: Timestamp) -> Vec<SystemMetrics> {
    (0..count)
        .map(|i| SystemMetrics {
            timestamp: later(start, i as i64),
            cpu_percent_bits: (10.0 + i as f64 * 0.5).to_bits(),
            memory_bytes: 1024 * 1024 * (100 + i as u64),
            disk_io_bytes: 4096 * (10 + i as u64),
        })
        .collect()
}

fn insert_metrics(conn: &Connection, all: &[SystemMetrics], pid: u32) {
    for m in all {
        let row = write_metrics(m, pid);
        let values = vec![
            Sql::Text(row.timestamp),
            Sql::Integer(row.pid),
            Sql::Real(f64::from_bits(row.cpu_percent_bits)),
            Sql::Integer(row.memory_bytes),
            Sql::Integer(row.disk_io_bytes),
        ];
        conn.execute(insert_statement(Backend::Sqlite), params_from_iter(values))
            .expect("insert");
    }
}

fn query_metrics(conn: &Connection, sql: &str, values: Vec<Sql>) -> Vec<SystemMetrics> {
    let mut stmt = conn.prepare(sql).unwrap();
    stmt.query_map(params_from_iter(values), |row| {
        Ok(MetricsRow {
            timestamp: row.get(0)?,
            pid: 0,
            cpu_percent_bits: row.get::<_, f64>(1)?.to_bits(),
            memory_bytes: row.get(2)?,
            disk_io_bytes: row.get(3)?,
        })
    })
    .unwrap()
    .map(|row| read_metrics(&row.unwrap()).unwrap())
    .collect()
}

#[test]
fn test_sqlite_store_basic_flow() {
    let conn = open_store();
    let test_pid = 42u32;
    let start_time = at(2024, 2, 1, 12, 0, 0);
    insert_metrics(&conn, &metrics(4, start_time), test_pid);
    let total: i64 = conn
        .query_row(METRICS_COUNT_QUERY, [], |row| row.get(0))
        .unwrap();
    assert_eq!(total, 4);

    let fetched = query_metrics(&conn, &recent_query(None), vec![Sql::Integer(42)]);
    assert_eq!(fetched.len(), 4);
    assert_eq!(fetched[0].timestamp, later(start_time, 3));
    assert_eq!(fetched[3].memory_bytes, 1024 * 1024 * 100);
    assert_eq!(f64::from_bits(fetched[1].cpu_percent_bits), 11.0);

    let limited = query_metrics(&conn, &recent_query(Some(2)), vec![Sql::Integer(42)]);
    assert_eq!(limited.len(), 2);
    assert_eq!(limited[0].timestamp, later(start_time, 3));

    let range = query_metrics(
        &conn,
        METRICS_RANGE_QUERY,
        vec![
            Sql::Integer(42),
            Sql::Text(later(start_time, 1).to_rfc3339()),
            Sql::Text(later(start_time, 2).to_rfc3339()),
        ],
    );
    assert_eq!(range.len(), 2);
}

#[test]
fn metrics_survive_their_row() {
    let m = SystemMetrics {
        timestamp: Timestamp::from_timestamp(1_700_000_000, 123_456_789).unwrap(),
        cpu_percent_bits: 99.5f64.to_bits(),
        memory_bytes: u64::MAX,
        disk_io_bytes: 1 << 63,
    };
    let row = write_metrics(&m, u32::MAX);
    assert_eq!(row.pid, 4_294_967_295);
    assert_eq!(row.memory_bytes, -1);
    assert_eq!(row.disk_io_bytes, i64::MIN);
    let back = read_metrics(&row).unwrap();
    assert_eq!(back.timestamp, m.timestamp);
    assert_eq!(back.cpu_percent_bits, m.cpu_percent_bits);
    assert_eq!(back.memory_bytes, m.memory_bytes);
    assert_eq!(back.disk_io_bytes, m.disk_io_bytes);
    let bad = MetricsRow {
        timestamp: "yesterday".to_string(),
        ..row
    };
    let error = read_metrics(&bad).unwrap_err();
    assert!(matches!(error, ReadError::InvalidTimestamp(_)));
    assert_eq!(error.message(), refusal("yesterday"));
    assert_eq!(
        limit_statement(DEFAULT_LIMIT_MB),
        "PRAGMA memory_limit='10MB'; PRAGMA threads=2;"
    );
    assert!(insert_statement(Backend::DuckDb).starts_with("INSERT INTO system_metrics"));
}

#[test]
fn rows_that_cannot_be_read_say_why() {
    let sample = build_sample_data();
    let mut row = write_record(&sample.record, None);
    assert!(read_record(&row, None).is_ok());
    row.end_time = Some("never".to_string());
    assert_eq!(
        read_record(&row, None).unwrap_err().message(),
        "Invalid end_time in DB"
    );
    assert_eq!(read_record(&row, None).unwrap_err().cause(), refusal("never"));
    row.start_time = "never".to_string();
    assert_eq!(
        read_record(&row, None).unwrap_err().message(),
        "Invalid start_time in DB"
    );
    assert_eq!(read_record(&row, None).unwrap_err().cause(), refusal("never"));
    let bad = EnvelopeRow {
        event_id: Some(-1),
        timestamp: "2024-06-01".to_string(),
        source: "hook".to_string(),
        kind: "signal:mouse".to_string(),
        payload: None,
        derived: 0,
        polling: 1,
        sensitive: 2,
    };
    assert_eq!(
        read_envelope(&bad, ParsedPayload::Mouse(None))
            .unwrap_err()
            .message(),
        refusal("2024-06-01")
    );
    let good = EnvelopeRow {
        timestamp: "2024-06-01T12:00:00+02:00".to_string(),
        ..bad
    };
    let env = read_envelope(&good, ParsedPayload::Mouse(None)).unwrap();
    assert_eq!(env.id, u64::MAX);
    assert_eq!(env.timestamp, at(2024, 6, 1, 10, 0, 0));
    assert!(!env.derived && env.polling && env.sensitive);
    assert!(matches!(env.payload, EventPayload::Empty));
}

#[test]
fn transitions_survive_their_row() {
    let t = Transition {
        from: ActivityState::Locked,
        to: ActivityState::Passive,
        at: at(2024, 6, 1, 12, 0, 0),
        by_signal: Some("x".to_string()),
        run_id: None,
    };
    let row = write_transition(&t);
    let back = read_transition(&row).unwrap();
    assert_eq!(back.from, t.from);
    assert_eq!(back.to, t.to);
    assert_eq!(back.at, t.at);
    assert_eq!(back.by_signal, t.by_signal);
    assert_eq!(back.run_id, None);
    let bad = TransitionRow {
        at: String::new(),
        ..row
    };
    let error = read_transition(&bad).unwrap_err();
    assert!(matches!(error, ReadError::InvalidTimestamp(_)));
    assert_eq!(error.message(), refusal(""));

    let conn = open_store();
    run(&conn, StorageCommand::Transition(t), None, vec![]);
    run(&conn, StorageCommand::Shutdown, None, vec![]);
    assert_eq!(count(&conn, "recent_transitions"), 1);
}

#[test]
fn names_are_read_back() {
    for s in [EventSource::Hook, EventSource::Derived, EventSource::Polling] {
        assert_eq!(parse_source_label(label_of_source(s)), s);
    }
    for s in [
        ActivityState::Active,
        ActivityState::Passive,
        ActivityState::Inactive,
        ActivityState::Locked,
    ] {
        assert_eq!(parse_state_label(label_of_state(s)), s);
    }
    for k in [
        EventKind::Signal(SignalKind::KeyboardInput),
        EventKind::Signal(SignalKind::LockEnd),
        EventKind::Hint(HintKind::SizeChanged),
        EventKind::Hint(HintKind::PositionChanged),
    ] {
        assert_eq!(parse_kind_label(label_of_kind(k)), k);
    }
    assert!(matches!(
        payload_of(ParsedPayload::Keyboard(None)),
        EventPayload::Empty
    ));
}

#[test]
fn compacted_input_goes_to_tables_of_its_own() {
    let base = at(2024, 6, 1, 12, 0, 0);
    let text = "2024-06-01T12:00:00+00:00";
    let mut tables = Vec::new();
    for e in compact_events(base) {
        let plan = plan_insert(&CompactCommand::Event(e));
        if let CompactInsert::Focus { pid, app_name_id, window_title_id, .. } = &plan {
            assert_eq!((*pid, *app_name_id, *window_title_id), (42, 1, 2));
        }
        if let CompactInsert::Scroll(t) = &plan {
            assert_eq!(t, text);
        }
        let sql = plan.statement().unwrap();
        tables.push(sql.split(' ').nth(2).unwrap().to_string());
    }
    assert_eq!(
        tables,
        vec![
            "scroll_events",
            "keyboard_events",
            "mouse_trajectory_events",
            "focus_events"
        ]
    );
    let plan = plan_insert(&CompactCommand::Record(build_sample_data().record));
    match &plan {
        CompactInsert::Record {
            start_time,
            end_time,
            state,
        } => {
            assert_eq!(start_time, text);
            assert_eq!(end_time.as_deref(), Some("2024-06-01T12:00:05+00:00"));
            assert_eq!(state, "Active");
        }
        other => panic!("unexpected plan: {:?}", other),
    }
    assert!(plan_insert(&CompactCommand::Shutdown).statement().is_none());
    assert_eq!(write_failure("x"), "Failed to write to DB: x");
    assert_eq!(commit_failure("x"), "Failed to commit transaction: x");
}
