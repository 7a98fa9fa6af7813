//! Mouse input.

use vstd::prelude::*;

use crate::container::WindowId;
use crate::geometry::Point;

verus! {

/// A button of the mouse.
#[derive(Clone, Copy, Debug, PartialEq, Eq, Structural)]
pub enum MouseButton {
    Left,
    Right,
}

/// Something that the mouse did.
#[derive(Debug)]
pub enum MouseEvent {
    Move {
        position: Point,
        pressed_buttons: Vec<MouseButton>,
        /// The native window below the cursor, where the platform reports it
        /// along with the event.
        window_below_cursor: Option<WindowId>,
    },
    ButtonDown { position: Point, button: MouseButton, pressed_buttons: Vec<MouseButton> },
    ButtonUp { position: Point, button: MouseButton, pressed_buttons: Vec<MouseButton> },
}

/// Whether a button is amongst the pressed ones.
pub fn is_pressed(pressed_buttons: &Vec<MouseButton>, button: MouseButton) -> (r: bool)
    ensures
        r == pressed_buttons@.contains(button),
{
    let mut i: usize = 0;
    while i < pressed_buttons.len()
        invariant
            i <= pressed_buttons.len(),
            forall|k: int| 0 <= k < i ==> pressed_buttons@[k] != button,
        decreases pressed_buttons.len() - i,
    {
        if pressed_buttons[i] == button {
            return true;
        }
        i += 1;
    }
    false
}

} // verus!
