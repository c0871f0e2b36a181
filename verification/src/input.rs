//! What the input hook calls the buttons and motions of the mouse.

use crate::events::{MouseButton, MouseEventKind};
use vstd::prelude::*;

verus! {

/// A button as the hook reports it.
#[derive(Clone, Copy, Debug, PartialEq, Eq, Structural)]
pub enum HookMouseButton {
    NoButton,
    Button1,
    Button2,
    Button3,
    Button4,
    Button5,
}

/// A motion as the hook reports it.
#[derive(Clone, Copy, Debug, PartialEq, Eq, Structural)]
pub enum HookMouseEventType {
    Moved,
    Pressed,
    Released,
    Clicked,
    Dragged,
}

/// The button that the hook reports.
pub fn button_from_hook(button: HookMouseButton) -> (r: Option<MouseButton>)
    ensures
        r == match button {
            HookMouseButton::NoButton => None,
            HookMouseButton::Button1 => Some(MouseButton::Primary),
            HookMouseButton::Button2 => Some(MouseButton::Secondary),
            HookMouseButton::Button3 => Some(MouseButton::Middle),
            HookMouseButton::Button4 => Some(MouseButton::Button4),
            HookMouseButton::Button5 => Some(MouseButton::Button5),
        },
{
    match button {
        HookMouseButton::NoButton => None,
        HookMouseButton::Button1 => Some(MouseButton::Primary),
        HookMouseButton::Button2 => Some(MouseButton::Secondary),
        HookMouseButton::Button3 => Some(MouseButton::Middle),
        HookMouseButton::Button4 => Some(MouseButton::Button4),
        HookMouseButton::Button5 => Some(MouseButton::Button5),
    }
}

/// The motion that the hook reports.
pub fn event_kind_from_hook(event_type: HookMouseEventType) -> (r: MouseEventKind)
    ensures
        r == match event_type {
            HookMouseEventType::Moved => MouseEventKind::Moved,
            HookMouseEventType::Pressed => MouseEventKind::Pressed,
            HookMouseEventType::Released => MouseEventKind::Released,
            HookMouseEventType::Clicked => MouseEventKind::Clicked,
            HookMouseEventType::Dragged => MouseEventKind::Dragged,
        },
{
    match event_type {
        HookMouseEventType::Moved => MouseEventKind::Moved,
        HookMouseEventType::Pressed => MouseEventKind::Pressed,
        HookMouseEventType::Released => MouseEventKind::Released,
        HookMouseEventType::Clicked => MouseEventKind::Clicked,
        HookMouseEventType::Dragged => MouseEventKind::Dragged,
    }
}

} // verus!
