//! What the input hooks report: key presses, pointer movement and window focus.

use crate::time::Timestamp;
use crate::views::views;
use std::sync::Arc;
use vstd::prelude::*;

pub mod adapter;
pub mod derive_hint;
pub mod derive_signal;
pub mod model;

verus! {

#[derive(Clone, Copy, Debug, PartialEq, Eq, Structural)]
pub struct MousePosition {
    pub x: i32,
    pub y: i32,
}

#[derive(Debug)]
pub struct KeyboardEventData {
    pub key_code: Option<u16>,
    pub key_char: Option<char>,
    pub modifiers: Vec<String>,
}

/// A mouse event. The wheel fields are set for wheel events only: the amount is the magnitude of
/// the scroll in units of the platform, the rotation its signed step.
#[derive(Clone, Copy, Debug)]
pub struct MouseEventData {
    pub position: MousePosition,
    pub button: Option<MouseButton>,
    pub click_count: Option<u16>,
    pub event_type: Option<MouseEventKind>,
    pub wheel_amount: Option<i32>,
    pub wheel_rotation: Option<i32>,
    pub wheel_axis: Option<WheelAxis>,
}

#[derive(Clone, Copy, Debug, PartialEq, Eq, Structural)]
pub enum MouseButton {
    Primary,
    Secondary,
    Middle,
    Button4,
    Button5,
    Other(u8),
}

#[derive(Clone, Copy, Debug, PartialEq, Eq, Structural)]
pub enum MouseEventKind {
    Moved,
    Pressed,
    Released,
    Clicked,
    Dragged,
}

#[derive(Clone, Copy, Debug, PartialEq, Eq, Structural)]
pub enum WheelAxis {
    Vertical,
    Horizontal,
}

/// The window that has the focus, and the process that owns it.
#[derive(Debug)]
pub struct WindowFocusInfo {
    pub pid: i32,
    pub process_start_time: u64,
    pub app_name: Arc<String>,
    pub window_title: Arc<String>,
    pub window_id: u32,
    pub window_instance_start: Timestamp,
    pub window_position: Option<MousePosition>,
    pub window_size: Option<(u32, u32)>,
}

#[allow(inconsistent_fields)]
#[derive(Debug)]
pub enum RawEvent {
    KeyboardInput { timestamp: Timestamp, event_id: u64, data: KeyboardEventData },
    MouseInput { timestamp: Timestamp, event_id: u64, data: MouseEventData },
    WindowFocusChange { timestamp: Timestamp, event_id: u64, focus_info: WindowFocusInfo },
}

/// A key press as a mathematical value.
#[verifier::ext_equal]
pub struct KeyboardView {
    pub key_code: Option<u16>,
    pub key_char: Option<char>,
    pub modifiers: Seq<Seq<char>>,
}

/// A focused window as a mathematical value.
#[verifier::ext_equal]
pub struct FocusView {
    pub pid: i32,
    pub process_start_time: u64,
    pub app_name: Seq<char>,
    pub window_title: Seq<char>,
    pub window_id: u32,
    pub window_instance_start: Timestamp,
    pub window_position: Option<MousePosition>,
    pub window_size: Option<(u32, u32)>,
}

/// What a raw event reports, apart from when and under which number.
#[verifier::ext_equal]
pub enum Report {
    Keyboard(KeyboardView),
    Mouse(MouseEventData),
    Focus(FocusView),
}

/// A raw event as a mathematical value.
#[verifier::ext_equal]
pub struct RawEventView {
    pub timestamp: Timestamp,
    pub event_id: u64,
    pub report: Report,
}

impl View for KeyboardEventData {
    type V = KeyboardView;

    open spec fn view(&self) -> KeyboardView {
        KeyboardView {
            key_code: self.key_code,
            key_char: self.key_char,
            modifiers: views(self.modifiers@),
        }
    }
}

impl View for WindowFocusInfo {
    type V = FocusView;

    open spec fn view(&self) -> FocusView {
        FocusView {
            pid: self.pid,
            process_start_time: self.process_start_time,
            app_name: self.app_name@,
            window_title: self.window_title@,
            window_id: self.window_id,
            window_instance_start: self.window_instance_start,
            window_position: self.window_position,
            window_size: self.window_size,
        }
    }
}

impl View for RawEvent {
    type V = RawEventView;

    open spec fn view(&self) -> RawEventView {
        match self {
            RawEvent::KeyboardInput { timestamp, event_id, data } => RawEventView {
                timestamp: *timestamp,
                event_id: *event_id,
                report: Report::Keyboard(data@),
            },
            RawEvent::MouseInput { timestamp, event_id, data } => RawEventView {
                timestamp: *timestamp,
                event_id: *event_id,
                report: Report::Mouse(*data),
            },
            RawEvent::WindowFocusChange { timestamp, event_id, focus_info } => RawEventView {
                timestamp: *timestamp,
                event_id: *event_id,
                report: Report::Focus(focus_info@),
            },
        }
    }
}

impl Clone for KeyboardEventData {
    fn clone(&self) -> (res: Self)
        ensures
            res@ == self@,
    {
        let modifiers = self.modifiers.clone();
        assert(views(modifiers@) =~= views(self.modifiers@));
        KeyboardEventData { key_code: self.key_code, key_char: self.key_char, modifiers }
    }
}

impl Clone for WindowFocusInfo {
    fn clone(&self) -> (res: Self)
        ensures
            res@ == self@,
    {
        WindowFocusInfo {
            pid: self.pid,
            process_start_time: self.process_start_time,
            app_name: self.app_name.clone(),
            window_title: self.window_title.clone(),
            window_id: self.window_id,
            window_instance_start: self.window_instance_start,
            window_position: self.window_position,
            window_size: self.window_size,
        }
    }
}

impl Clone for RawEvent {
    fn clone(&self) -> (res: Self)
        ensures
            res@ == self@,
    {
        match self {
            RawEvent::KeyboardInput { timestamp, event_id, data } => RawEvent::KeyboardInput {
                timestamp: *timestamp,
                event_id: *event_id,
                data: data.clone(),
            },
            RawEvent::MouseInput { timestamp, event_id, data } => RawEvent::MouseInput {
                timestamp: *timestamp,
                event_id: *event_id,
                data: *data,
            },
            RawEvent::WindowFocusChange { timestamp, event_id, focus_info } => {
                RawEvent::WindowFocusChange {
                    timestamp: *timestamp,
                    event_id: *event_id,
                    focus_info: focus_info.clone(),
                }
            },
        }
    }
}

impl WindowFocusInfo {
    /// Whether the two describe the same focus in every respect.
    pub fn same_as(&self, other: &WindowFocusInfo) -> (r: bool)
        ensures
            r == (self@ == other@),
    {
        let position = match (&self.window_position, &other.window_position) {
            (Some(a), Some(b)) => a.x == b.x && a.y == b.y,
            (None, None) => true,
            _ => false,
        };
        let size = match (&self.window_size, &other.window_size) {
            (Some(a), Some(b)) => a.0 == b.0 && a.1 == b.1,
            (None, None) => true,
            _ => false,
        };
        self.pid == other.pid && self.process_start_time == other.process_start_time
            && *self.app_name == *other.app_name && *self.window_title == *other.window_title
            && self.window_id == other.window_id && self.window_instance_start
            == other.window_instance_start && position && size
    }
}

impl RawEvent {
    pub fn timestamp(&self) -> (r: Timestamp)
        ensures
            r == self@.timestamp,
    {
        match self {
            RawEvent::KeyboardInput { timestamp, .. } => *timestamp,
            RawEvent::MouseInput { timestamp, .. } => *timestamp,
            RawEvent::WindowFocusChange { timestamp, .. } => *timestamp,
        }
    }

    pub fn event_id(&self) -> (r: u64)
        ensures
            r == self@.event_id,
    {
        match self {
            RawEvent::KeyboardInput { event_id, .. } => *event_id,
            RawEvent::MouseInput { event_id, .. } => *event_id,
            RawEvent::WindowFocusChange { event_id, .. } => *event_id,
        }
    }

    /// The name under which events of this kind are stored.
    pub fn event_type(&self) -> (r: &'static str)
        ensures
            r@ == match self@.report {
                Report::Keyboard(_) => "keyboard"@,
                Report::Mouse(_) => "mouse"@,
                Report::Focus(_) => "window_focus_change"@,
            },
    {
        match self {
            RawEvent::KeyboardInput { .. } => "keyboard",
            RawEvent::MouseInput { .. } => "mouse",
            RawEvent::WindowFocusChange { .. } => "window_focus_change",
        }
    }
}

} // verus!
