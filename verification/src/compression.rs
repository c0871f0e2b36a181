//! Condensed forms of input: scrolling, pointer movement, typing and focus.

use crate::events::{MousePosition, WheelAxis};
use crate::time::Timestamp;
use vstd::layout::size_of;
use vstd::prelude::*;

verus! {

pub type StringId = u16;

pub const DEFAULT_RAW_EVENT_TABLE: &'static str = "raw_events";

/// Where the raw events are that a condensed one stands for.
#[derive(Debug)]
pub struct RawEventPointer {
    pub table: String,
    pub ids: Vec<u64>,
}

impl RawEventPointer {
    /// A pointer to the given rows, if there are any.
    pub fn new(table: &str, ids: Vec<u64>) -> (r: Option<Self>)
        ensures
            match r {
                Some(p) => ids@.len() > 0 && p.table@ == table@ && p.ids == ids,
                None => ids@.len() == 0,
            },
    {
        if ids.len() == 0 {
            None
        } else {
            Some(RawEventPointer { table: table.to_string(), ids })
        }
    }
}

impl Clone for RawEventPointer {
    fn clone(&self) -> (res: Self)
        ensures
            res.table == self.table,
            res.ids@ == self.ids@,
    {
        let ids = self.ids.clone();
        assert(ids@ =~= self.ids@);
        RawEventPointer { table: self.table.clone(), ids }
    }
}

#[derive(Clone, Debug)]
pub struct CompactScrollSequence {
    pub start_time: Timestamp,
    pub end_time: Timestamp,
    pub direction: ScrollDirection,
    pub total_amount: i32,
    pub total_rotation: i32,
    pub scroll_count: u32,
    pub position: MousePosition,
    pub raw_event_ids: Option<RawEventPointer>,
}

#[derive(Clone, Copy, Debug, PartialEq, Eq, Structural)]
pub enum ScrollDirection {
    VerticalUp,
    VerticalDown,
    HorizontalLeft,
    HorizontalRight,
}

/// A path of the pointer. The distance and the velocity are held by the bits of their
/// single-precision values.
#[derive(Clone, Debug)]
pub struct CompactMouseTrajectory {
    pub start_time: Timestamp,
    pub end_time: Timestamp,
    pub event_type: MouseTrajectoryType,
    pub start_position: MousePosition,
    pub end_position: MousePosition,
    pub simplified_path: Vec<MousePosition>,
    pub total_distance_bits: u32,
    pub max_velocity_bits: u32,
    pub raw_event_ids: Option<RawEventPointer>,
}

#[derive(Clone, Copy, Debug, PartialEq, Eq, Structural)]
pub enum MouseTrajectoryType {
    Movement,
    Drag,
}

/// A stretch of typing. The rates are held by the bits of their single-precision values.
#[derive(Clone, Debug)]
pub struct CompactKeyboardActivity {
    pub start_time: Timestamp,
    pub end_time: Timestamp,
    pub keystrokes: u32,
    pub keys_per_minute_bits: u32,
    pub density_per_sec_bits: u32,
    pub raw_event_ids: Option<RawEventPointer>,
}

#[derive(Clone, Debug)]
pub struct CompactFocusEvent {
    pub timestamp: Timestamp,
    pub app_name_id: StringId,
    pub window_title_id: StringId,
    pub pid: i32,
    pub window_position: Option<MousePosition>,
    pub raw_event_ids: Option<RawEventPointer>,
}

#[derive(Clone, Debug)]
pub enum CompactEvent {
    Scroll(CompactScrollSequence),
    MouseTrajectory(CompactMouseTrajectory),
    Keyboard(CompactKeyboardActivity),
    Focus(CompactFocusEvent),
}

/// The bytes of a condensed event: its own, and those of the points of a path.
pub open spec fn event_bytes(e: CompactEvent) -> nat {
    match e {
        CompactEvent::Scroll(_) => size_of::<CompactScrollSequence>(),
        CompactEvent::MouseTrajectory(t) => size_of::<CompactMouseTrajectory>()
            + t.simplified_path@.len() * size_of::<MousePosition>(),
        CompactEvent::Keyboard(_) => size_of::<CompactKeyboardActivity>(),
        CompactEvent::Focus(_) => size_of::<CompactFocusEvent>(),
    }
}

impl CompactEvent {
    /// How much memory the event takes, in bytes.
    pub fn memory_size(&self) -> (r: usize)
        requires
            event_bytes(*self) <= usize::MAX,
        ensures
            r == event_bytes(*self),
    {
        match self {
            CompactEvent::Scroll(_) => std::mem::size_of::<CompactScrollSequence>(),
            CompactEvent::MouseTrajectory(t) => {
                assert(t.simplified_path@.len() * size_of::<MousePosition>() >= 0)
                    by (nonlinear_arith);
                std::mem::size_of::<CompactMouseTrajectory>() + t.simplified_path.len()
                    * std::mem::size_of::<MousePosition>()
            },
            CompactEvent::Keyboard(_) => std::mem::size_of::<CompactKeyboardActivity>(),
            CompactEvent::Focus(_) => std::mem::size_of::<CompactFocusEvent>(),
        }
    }
}

/// The direction of a scroll along an axis. No movement counts as down, or as left.
pub open spec fn scroll_direction(amount: int, axis: WheelAxis) -> ScrollDirection {
    match axis {
        WheelAxis::Vertical => if amount > 0 {
            ScrollDirection::VerticalUp
        } else {
            ScrollDirection::VerticalDown
        },
        WheelAxis::Horizontal => if amount > 0 {
            ScrollDirection::HorizontalRight
        } else {
            ScrollDirection::HorizontalLeft
        },
    }
}

pub fn infer_scroll_direction(amount: i32, axis: WheelAxis) -> (r: ScrollDirection)
    ensures
        r == scroll_direction(amount as int, axis),
{
    match axis {
        WheelAxis::Vertical => {
            if amount > 0 {
                ScrollDirection::VerticalUp
            } else {
                ScrollDirection::VerticalDown
            }
        },
        WheelAxis::Horizontal => {
            if amount > 0 {
                ScrollDirection::HorizontalRight
            } else {
                ScrollDirection::HorizontalLeft
            }
        },
    }
}

/// The direction tells the axis and the sign: up and right for positive amounts, and the opposite
/// direction on the same axis for the opposite amount.
pub proof fn law_direction_tells_axis_and_sign(amount: int, axis: WheelAxis)
    ensures
        amount > 0 && axis == WheelAxis::Vertical ==> scroll_direction(amount, axis)
            == ScrollDirection::VerticalUp,
        amount <= 0 && axis == WheelAxis::Vertical ==> scroll_direction(amount, axis)
            == ScrollDirection::VerticalDown,
        amount > 0 && axis == WheelAxis::Horizontal ==> scroll_direction(amount, axis)
            == ScrollDirection::HorizontalRight,
        amount <= 0 && axis == WheelAxis::Horizontal ==> scroll_direction(amount, axis)
            == ScrollDirection::HorizontalLeft,
{
}

} // verus!
