use chrono::{TimeZone, Utc};
use kronical::compression::{
    infer_scroll_direction, CompactEvent, CompactFocusEvent, CompactKeyboardActivity,
    CompactMouseTrajectory, CompactScrollSequence, MouseTrajectoryType, RawEventPointer,
    ScrollDirection, DEFAULT_RAW_EVENT_TABLE,
};
use kronical::events::{MousePosition, WheelAxis};
use kronical::time::Timestamp;

fn at(year: i32, month: u32, day: u32, hour: u32, minute: u32, second: u32) -> Timestamp {
    let t = Utc.with_ymd_and_hms(year, month, day, hour, minute, second).unwrap();
    Timestamp::from_timestamp(t.timestamp(), 0).unwrap()
}

fn ts(sec: u32) -> Timestamp {
    at(2024, 4, 22, 12, 0, sec)
}

#[test]
fn memory_size_accounts_for_dynamic_path_length() {
    let trajectory = CompactMouseTrajectory {
        start_time: ts(0),
        end_time: ts(1),
        event_type: MouseTrajectoryType::Movement,
        start_position: MousePosition { x: 0, y: 0 },
        end_position: MousePosition { x: 10, y: 10 },
        simplified_path: vec![MousePosition { x: 2, y: 2 }, MousePosition { x: 5, y: 5 }],
        total_distance_bits: 14.1f32.to_bits(),
        max_velocity_bits: 7.0f32.to_bits(),
        raw_event_ids: RawEventPointer::new(DEFAULT_RAW_EVENT_TABLE, vec![1, 2, 3]),
    };

    let evt = CompactEvent::MouseTrajectory(trajectory);
    let base = std::mem::size_of::<CompactMouseTrajectory>();
    let per_point = std::mem::size_of::<MousePosition>();
    assert_eq!(
        evt.memory_size(),
        base + 2 * per_point
    );

    let keyboard = CompactEvent::Keyboard(CompactKeyboardActivity {
        start_time: ts(0),
        end_time: ts(5),
        keystrokes: 10,
        keys_per_minute_bits: 120.0f32.to_bits(),
        density_per_sec_bits: 2.0f32.to_bits(),
        raw_event_ids: RawEventPointer::new(DEFAULT_RAW_EVENT_TABLE, vec![10, 11]),
    });
    assert_eq!(
        keyboard.memory_size(),
        std::mem::size_of::<CompactKeyboardActivity>()
    );

    let focus = CompactEvent::Focus(CompactFocusEvent {
        timestamp: ts(2),
        app_name_id: 1,
        window_title_id: 2,
        pid: 4242,
        window_position: Some(MousePosition { x: 20, y: 30 }),
        raw_event_ids: RawEventPointer::new(DEFAULT_RAW_EVENT_TABLE, vec![9]),
    });
    assert_eq!(
        focus.memory_size(),
        std::mem::size_of::<CompactFocusEvent>()
    );
}

#[test]
fn scroll_memory_size_matches_struct_size() {
    let scroll = CompactScrollSequence {
        start_time: ts(0),
        end_time: ts(1),
        direction: ScrollDirection::VerticalDown,
        total_amount: -5,
        total_rotation: -5,
        scroll_count: 3,
        position: MousePosition { x: 10, y: 20 },
        raw_event_ids: RawEventPointer::new(DEFAULT_RAW_EVENT_TABLE, vec![10, 11]),
    };
    let event = CompactEvent::Scroll(scroll);
    assert_eq!(
        event.memory_size(),
        std::mem::size_of::<CompactScrollSequence>()
    );
}

#[test]
fn infers_scroll_direction_for_axis_and_sign() {
    assert_eq!(
        infer_scroll_direction(4, WheelAxis::Vertical),
        ScrollDirection::VerticalUp
    );
    assert_eq!(
        infer_scroll_direction(-3, WheelAxis::Vertical),
        ScrollDirection::VerticalDown
    );
    assert_eq!(
        infer_scroll_direction(2, WheelAxis::Horizontal),
        ScrollDirection::HorizontalRight
    );
    assert_eq!(
        infer_scroll_direction(-1, WheelAxis::Horizontal),
        ScrollDirection::HorizontalLeft
    );
}
