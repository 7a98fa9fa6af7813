//! Telling apart the messages that a low-level mouse hook receives.

use vstd::prelude::*;

use crate::mouse_event::MouseButton;

verus! {

/// A mouse button event that a hook may intercept.
#[derive(Clone, Copy, Debug, PartialEq, Eq, Structural)]
pub struct MouseButtonEvent {
    /// The button that was pressed or released.
    pub button: MouseButton,
    /// Whether the button was pressed rather than released.
    pub is_press: bool,
}

/// Message for a press of the left button.
pub const WM_LBUTTONDOWN: u32 = 0x0201;

/// Message for a release of the left button.
pub const WM_LBUTTONUP: u32 = 0x0202;

/// Message for a press of the right button.
pub const WM_RBUTTONDOWN: u32 = 0x0204;

/// Message for a release of the right button.
pub const WM_RBUTTONUP: u32 = 0x0205;

/// The button event that a message stands for. Mouse moves and wheel events
/// stand for none.
pub open spec fn button_event(message: u32) -> Option<MouseButtonEvent> {
    if message == WM_LBUTTONDOWN {
        Some(MouseButtonEvent { button: MouseButton::Left, is_press: true })
    } else if message == WM_LBUTTONUP {
        Some(MouseButtonEvent { button: MouseButton::Left, is_press: false })
    } else if message == WM_RBUTTONDOWN {
        Some(MouseButtonEvent { button: MouseButton::Right, is_press: true })
    } else if message == WM_RBUTTONUP {
        Some(MouseButtonEvent { button: MouseButton::Right, is_press: false })
    } else {
        None
    }
}

/// The event to ask a hook's callback about, if there is one.
pub open spec fn intercepted(
    code: i32,
    message: u32,
    extra_info: u32,
    own_identifier: u32,
) -> Option<MouseButtonEvent> {
    if code != 0 || extra_info == own_identifier {
        None
    } else {
        button_event(message)
    }
}

/// Gets the event to ask the hook's callback about, if the message is one
/// that may be intercepted at all.
///
/// Notifications with a code other than zero have to be passed on. So does
/// input that this process has synthesized itself, which carries
/// `own_identifier` as its extra information.
pub fn interceptable_event(code: i32, message: u32, extra_info: u32, own_identifier: u32) -> (r:
    Option<MouseButtonEvent>)
    ensures
        r == intercepted(code, message, extra_info, own_identifier),
{
    if code != 0 {
        return None;
    }
    let event = match message {
        WM_LBUTTONDOWN => MouseButtonEvent { button: MouseButton::Left, is_press: true },
        WM_LBUTTONUP => MouseButtonEvent { button: MouseButton::Left, is_press: false },
        WM_RBUTTONDOWN => MouseButtonEvent { button: MouseButton::Right, is_press: true },
        WM_RBUTTONUP => MouseButtonEvent { button: MouseButton::Right, is_press: false },
        // Mouse moves and wheel events are never intercepted.
        _ => {
            return None;
        },
    };
    if extra_info == own_identifier {
        None
    } else {
        Some(event)
    }
}

/// A message stands for a press or a release of the left or the right button,
/// or for none of these.
pub proof fn law_messages(message: u32)
    ensures
        match button_event(message) {
            Some(event) => message == match (event.button, event.is_press) {
                (MouseButton::Left, true) => 0x0201u32,
                (MouseButton::Left, false) => 0x0202u32,
                (MouseButton::Right, true) => 0x0204u32,
                (MouseButton::Right, false) => 0x0205u32,
            },
            None => message != 0x0201 && message != 0x0202 && message != 0x0204 && message
                != 0x0205,
        },
{
}

/// Only events of buttons are intercepted, and neither those that have to be
/// passed on nor those that this process has made up itself.
pub proof fn law_interception(code: i32, message: u32, extra_info: u32, own_identifier: u32)
    ensures
        ({
            let r = intercepted(code, message, extra_info, own_identifier);
            &&& r is Some <==> code == 0 && extra_info != own_identifier && (message == 0x0201
                || message == 0x0202 || message == 0x0204 || message == 0x0205)
            &&& r matches Some(event) ==> button_event(message) == Some(event)
        }),
{
}

} // verus!
