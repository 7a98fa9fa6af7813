//! Checking that mouse events stay within the range of coordinates.

use vstd::prelude::*;

use crate::container::{ContainerId, ContainerKind, WindowState};
use crate::drag_geometry;
use crate::geometry::{self, Point, Rect};
use crate::handle_mouse_move::{
    self, Platform, PointerContext, MIN_FLOATING_HEIGHT, MIN_FLOATING_WIDTH,
};
use crate::mouse_event::{is_pressed, MouseButton, MouseEvent};
use crate::wm_state::WmState;

verus! {

/// Whether a number is a coordinate.
fn fits(value: i64) -> (r: bool)
    ensures
        r == geometry::fits_i32(value as int),
{
    i32::MIN as i64 <= value && value <= i32::MAX as i64
}

/// Whether the width and the height of a rectangle are in range.
fn is_measurable(rect: &Rect) -> (r: bool)
    ensures
        r == rect.measurable(),
{
    fits(rect.right as i64 - rect.left as i64) && fits(rect.bottom as i64 - rect.top as i64)
}

/// Whether a clamped range of coordinates starts and ends in range.
fn is_span_in_range(start: i64, size: i64, area_start: i64, area_end: i64) -> (r: bool)
    requires
        geometry::fits_i32(start as int),
        geometry::fits_i32(size as int),
        geometry::fits_i32(area_start as int),
        geometry::fits_i32(area_end as int),
    ensures
        r == (geometry::fits_i32(area_end - size) && geometry::fits_i32(
            drag_geometry::between(start as int, area_start as int, area_end - size) + size,
        )),
{
    let last = area_end - size;
    let clamped = if start < area_start {
        area_start
    } else if start > last {
        last
    } else {
        start
    };
    fits(last) && fits(clamped + size)
}

/// Whether a rectangle can be clamped to an area.
fn is_clamp_in_range(rect: &Rect, area: &Rect) -> (r: bool)
    ensures
        r == drag_geometry::clamp_in_range(*rect, *area),
{
    if !is_measurable(rect) || !is_measurable(area) {
        return false;
    }
    let width = if rect.width() <= area.width() {
        rect.width()
    } else {
        area.width()
    };
    let height = if rect.height() <= area.height() {
        rect.height()
    } else {
        area.height()
    };
    is_span_in_range(rect.left as i64, width as i64, area.left as i64, area.right as i64)
        && is_span_in_range(rect.top as i64, height as i64, area.top as i64, area.bottom as i64)
}

/// Whether the dragged window, if there is one, can be moved.
fn is_drag_move_in_range(position: &Point, state: &WmState, monitor: Option<ContainerId>) -> (r:
    bool)
    requires
        state.wf(),
        monitor matches Some(m) ==> m < state.tree@.len(),
    ensures
        r == handle_mouse_move::drag_move_in_range(state@, *position, monitor),
{
    let drag = match state.drag_move {
        Some(drag) => drag,
        None => {
            return true;
        },
    };
    if !state.has_window(drag.window_id) {
        return true;
    }
    let frame = state.tree.container(drag.window_id).props.window.frame;
    if !is_measurable(&frame) {
        return false;
    }
    let x = position.x as i64 - drag.grab_offset.x as i64;
    let y = position.y as i64 - drag.grab_offset.y as i64;
    if !fits(x) || !fits(y) || !fits(x + frame.width() as i64) || !fits(y + frame.height() as i64) {
        return false;
    }
    match monitor {
        Some(m) => is_clamp_in_range(
            &Rect::from_xy(
                position.x - drag.grab_offset.x,
                position.y - drag.grab_offset.y,
                frame.width(),
                frame.height(),
            ),
            &state.tree.container(m).props.working_area,
        ),
        None => true,
    }
}

/// Whether a resized range of coordinates starts and ends in range.
fn is_anchor_in_range(start: i32, end: i32, is_end_dragged: bool, size: i64) -> (r: bool)
    requires
        geometry::fits_i32(size as int),
    ensures
        r == ({
            let first = if is_end_dragged {
                start as int
            } else {
                end - size
            };
            geometry::fits_i32(first) && geometry::fits_i32(first + size)
        }),
{
    let first: i64 = if is_end_dragged {
        start as i64
    } else {
        end as i64 - size
    };
    fits(first) && fits(first + size)
}

/// Whether the window that is being resized, if there is one, can be resized.
fn is_resize_move_in_range(position: &Point, state: &WmState) -> (r: bool)
    requires
        state.wf(),
    ensures
        r == handle_mouse_move::resize_move_in_range(state@, *position),
{
    let drag = match state.drag_resize {
        Some(drag) => drag,
        None => {
            return true;
        },
    };
    if !state.has_window(drag.window_id) {
        return true;
    }
    if !is_measurable(&drag.initial_rect) {
        return false;
    }
    let delta_x = position.x as i64 - drag.initial_position.x as i64;
    let delta_y = position.y as i64 - drag.initial_position.y as i64;
    let width_delta = if drag.edges.is_right {
        delta_x
    } else {
        -delta_x
    };
    let height_delta = if drag.edges.is_bottom {
        delta_y
    } else {
        -delta_y
    };
    let width = drag.initial_rect.width() as i64 + width_delta;
    let height = drag.initial_rect.height() as i64 + height_delta;
    if !fits(delta_x) || !fits(delta_y) || !fits(width_delta) || !fits(height_delta) || !fits(width)
        || !fits(height) {
        return false;
    }
    let props = state.tree.container(drag.window_id).props;
    if props.kind != ContainerKind::NonTilingWindow || props.window.state != WindowState::Floating {
        return true;
    }
    let floating_width: i64 = if width >= MIN_FLOATING_WIDTH as i64 {
        width
    } else {
        MIN_FLOATING_WIDTH as i64
    };
    let floating_height: i64 = if height >= MIN_FLOATING_HEIGHT as i64 {
        height
    } else {
        MIN_FLOATING_HEIGHT as i64
    };
    is_anchor_in_range(
        drag.initial_rect.left,
        drag.initial_rect.right,
        drag.edges.is_right,
        floating_width,
    ) && is_anchor_in_range(
        drag.initial_rect.top,
        drag.initial_rect.bottom,
        drag.edges.is_bottom,
        floating_height,
    )
}

/// Whether an event can be handled without leaving the range of coordinates.
pub fn is_mouse_in_range(event: &MouseEvent, state: &WmState, context: &PointerContext) -> (r: bool)
    requires
        state.wf(),
        context.monitor_at_cursor matches Some(m) ==> m < state.tree@.len(),
    ensures
        r == handle_mouse_move::mouse_in_range(state@, *event, *context),
{
    if state.is_paused {
        return true;
    }
    match event {
        MouseEvent::ButtonUp { position, button, .. } => {
            if context.platform != Platform::MacOs && *button == MouseButton::Right {
                is_resize_move_in_range(position, state)
            } else {
                true
            }
        },
        MouseEvent::ButtonDown { button, .. } => match &context.window_rect {
            Some(rect) => {
                if *button == MouseButton::Right {
                    is_measurable(rect)
                } else {
                    true
                }
            },
            None => true,
        },
        MouseEvent::Move { position, pressed_buttons, .. } => {
            if state.drag_move.is_some() {
                is_drag_move_in_range(position, state, context.monitor_at_cursor)
            } else if is_pressed(pressed_buttons, MouseButton::Right) {
                is_resize_move_in_range(position, state)
            } else {
                true
            }
        },
    }
}

} // verus!
