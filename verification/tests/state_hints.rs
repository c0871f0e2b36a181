use chrono::{TimeZone, Utc};
use kronical::events::derive_hint::StateDeriver;
use kronical::events::model::{EventEnvelope, EventKind, EventPayload, EventSource, SignalKind};
use kronical::events::{KeyboardEventData, MouseButton, MouseEventData, MouseEventKind, MousePosition};
use kronical::records::ActivityState;
use kronical::time::Timestamp;

fn at(year: i32, month: u32, day: u32, hour: u32, minute: u32, second: u32) -> Timestamp {
    let t = Utc.with_ymd_and_hms(year, month, day, hour, minute, second).unwrap();
    Timestamp::from_timestamp(t.timestamp(), 0).unwrap()
}

fn later(t: Timestamp, secs: i64) -> Timestamp {
    Timestamp::from_timestamp(t.timestamp() + secs, t.subsec_nanos()).unwrap()
}

fn keyboard_event(id: u64, ts: Timestamp) -> EventEnvelope {
    EventEnvelope {
        id,
        timestamp: ts,
        source: EventSource::Hook,
        kind: EventKind::Signal(SignalKind::KeyboardInput),
        payload: EventPayload::Keyboard(KeyboardEventData {
            key_code: Some(40),
            key_char: None,
            modifiers: vec![],
        }),
        derived: false,
        polling: false,
        sensitive: false,
    }
}

fn mouse_event(id: u64, ts: Timestamp) -> EventEnvelope {
    EventEnvelope {
        id,
        timestamp: ts,
        source: EventSource::Hook,
        kind: EventKind::Signal(SignalKind::MouseInput),
        payload: EventPayload::Mouse(MouseEventData {
            position: MousePosition { x: 0, y: 0 },
            button: Some(MouseButton::Primary),
            click_count: Some(1),
            event_type: Some(MouseEventKind::Clicked),
            wheel_amount: None,
            wheel_rotation: None,
            wheel_axis: None,
        }),
        derived: false,
        polling: false,
        sensitive: false,
    }
}

fn activity_hint(state_env: EventEnvelope) -> (ActivityState, ActivityState) {
    if let EventPayload::State { from, to } = state_env.payload {
        (from, to)
    } else {
        panic!("expected state payload");
    }
}

#[test]
fn emits_state_changes_for_activity_and_timeout() {
    let start = at(2024, 4, 22, 10, 0, 0);
    let mut deriver = StateDeriver::new(start, 30, 120);

    let first = deriver
        .on_signal(&keyboard_event(1, start))
        .expect("first signal should transition to active");
    assert!(first.derived);
    let (from, to) = activity_hint(first);
    assert_eq!(from, ActivityState::Inactive);
    assert_eq!(to, ActivityState::Active);

    // A second signal within the active grace interval should not emit another hint.
    let second = deriver.on_signal(&keyboard_event(2, later(start, 5)));
    assert!(second.is_none());

    // Advance beyond active grace but before idle threshold via tick.
    let tick = deriver
        .on_tick(later(start, 45))
        .expect("tick should downgrade to passive");
    let (from, to) = activity_hint(tick);
    assert_eq!(from, ActivityState::Active);
    assert_eq!(to, ActivityState::Passive);

    // Another tick past idle threshold moves to inactive.
    let second_tick = deriver
        .on_tick(later(start, 200))
        .expect("tick should downgrade to inactive");
    let (from, to) = activity_hint(second_tick);
    assert_eq!(from, ActivityState::Passive);
    assert_eq!(to, ActivityState::Inactive);
}

#[test]
fn handles_lock_cycle_with_state_hints() {
    let start = at(2024, 4, 22, 11, 0, 0);
    let mut deriver = StateDeriver::new(start, 60, 300);

    // Begin with activity to bump into Active.
    deriver.on_signal(&keyboard_event(10, start));

    let lock_start = EventEnvelope {
        id: 20,
        timestamp: later(start, 1),
        source: EventSource::Hook,
        kind: EventKind::Signal(SignalKind::LockStart),
        payload: EventPayload::Empty,
        derived: false,
        polling: false,
        sensitive: false,
    };

    let lock_hint = deriver
        .on_signal(&lock_start)
        .expect("lock start should emit state change");
    let (_, to) = activity_hint(lock_hint);
    assert_eq!(to, ActivityState::Locked);

    let lock_end = EventEnvelope {
        id: 21,
        timestamp: later(start, 10),
        source: EventSource::Hook,
        kind: EventKind::Signal(SignalKind::LockEnd),
        payload: EventPayload::Empty,
        derived: false,
        polling: false,
        sensitive: false,
    };

    let unlock_hint = deriver
        .on_signal(&lock_end)
        .expect("lock end should emit state change");
    let (from, to) = activity_hint(unlock_hint);
    assert_eq!(from, ActivityState::Locked);
    assert_eq!(to, ActivityState::Active);

    // In absence of further signals, a later tick should drop back to passive.
    let tick = deriver
        .on_tick(later(start, 100))
        .expect("should degrade after unlock");
    let (from, to) = activity_hint(tick);
    assert_eq!(from, ActivityState::Active);
    assert_eq!(to, ActivityState::Passive);
}

#[test]
fn ignores_activity_signals_while_locked() {
    let start = at(2024, 4, 22, 12, 0, 0);
    let mut deriver = StateDeriver::new(start, 30, 120);
    let lock_start = EventEnvelope {
        id: 50,
        timestamp: start,
        source: EventSource::Hook,
        kind: EventKind::Signal(SignalKind::LockStart),
        payload: EventPayload::Empty,
        derived: false,
        polling: false,
        sensitive: false,
    };
    deriver.on_signal(&lock_start);

    let mouse = mouse_event(51, later(start, 10));
    assert!(deriver.on_signal(&mouse).is_none());
}

#[test]
fn on_tick_returns_none_while_locked() {
    let start = at(2024, 4, 22, 12, 30, 0);
    let mut deriver = StateDeriver::new(start, 30, 120);
    let lock_start = EventEnvelope {
        id: 60,
        timestamp: start,
        source: EventSource::Hook,
        kind: EventKind::Signal(SignalKind::LockStart),
        payload: EventPayload::Empty,
        derived: false,
        polling: false,
        sensitive: false,
    };
    deriver.on_signal(&lock_start);

    assert!(deriver.on_tick(later(start, 10)).is_none());
}
