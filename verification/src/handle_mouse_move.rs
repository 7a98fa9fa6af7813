//! Reactions to the mouse: focus that follows the cursor, and windows that
//! are moved or resized by dragging them with a modifier held.

use vstd::prelude::*;

use crate::container::{
    ActiveDrag, ActiveDragOperation, ContainerId, ContainerKind, ContainerProps, Node, WindowId,
    WindowProps, WindowState,
};
use crate::drag_geometry::{self, anchored_rect, clamp_rect_to_area};
use crate::error::CommandError;
use crate::focus::{self, Role};
use crate::forest::{self, Forest};
use crate::geometry::{self, Point, Rect, ResizeEdges};
use crate::mouse_event::{is_pressed, MouseButton, MouseEvent};
use crate::user_config::UserConfig;
use crate::wm_state::{self, DragMove, DragResize, StateModel, WmState};

verus! {

/// Least width that a floating window is resized to.
pub const MIN_FLOATING_WIDTH: i32 = 250;

/// Least height that a floating window is resized to.
pub const MIN_FLOATING_HEIGHT: i32 = 140;

/// The platform that the events come from.
#[derive(Clone, Copy, Debug, PartialEq, Eq, Structural)]
pub enum Platform {
    Windows,
    MacOs,
    Other,
}

/// The platform's answer to which native window is at a point.
#[derive(Clone, Copy, Debug, PartialEq, Eq, Structural)]
pub enum WindowLookup {
    Found(WindowId),
    Nothing,
    Failed,
}

/// What the platform knows about the place where the cursor is.
#[derive(Clone, Copy, Debug, PartialEq, Eq, Structural)]
pub struct PointerContext {
    pub platform: Platform,
    pub is_win_key_down: bool,
    pub window_at_cursor: WindowLookup,
    /// Where the managed window at the cursor is, if that can be told.
    pub window_rect: Option<Rect>,
    pub monitor_at_cursor: Option<ContainerId>,
}

/// What is left to be done by the platform after an event was handled.
#[derive(Clone, Copy, Debug, PartialEq, Eq, Structural)]
pub enum MouseAction {
    Nothing,
    /// The native drags have ended: read the frame of every window that is
    /// actively dragged, and drop it.
    FinishDrags,
    /// Make the window float, either centered or where it is, and then record
    /// the drag. The frame is where the window was grabbed.
    StartDrag { window: ContainerId, frame: Rect, is_centered: bool },
    /// Move the native window, and then record its frame.
    MoveWindow { window: ContainerId, rect: Rect },
    /// Drop the window into the layout.
    EndDrag { window: ContainerId },
    /// Resize the window within the layout.
    ResizeWindow { window: ContainerId, width: i32, height: i32 },
}

/// The tree in which the window of a container has other properties.
pub open spec fn with_window(t: Forest, x: ContainerId, window: WindowProps) -> Forest {
    t.update(
        x as int,
        Node { props: ContainerProps { window, ..t[x as int].props }, ..t[x as int] },
    )
}

/// The tree in which a window is known to have another frame.
pub open spec fn framed(t: Forest, x: ContainerId, frame: Rect) -> Forest {
    with_window(t, x, WindowProps { frame, ..t[x as int].props.window })
}

/// The tree in which a window floats at another place.
pub open spec fn placed(t: Forest, x: ContainerId, floating_placement: Rect) -> Forest {
    with_window(t, x, WindowProps { floating_placement, ..t[x as int].props.window })
}

/// The tree in which a window goes through a drag.
pub open spec fn with_drag(t: Forest, x: ContainerId, active_drag: Option<ActiveDrag>) -> Forest {
    with_window(t, x, WindowProps { active_drag, ..t[x as int].props.window })
}

/// Replaces the window properties of a container.
fn put_window(state: &mut WmState, id: ContainerId, window: WindowProps)
    requires
        old(state).wf(),
        id < old(state).tree@.len(),
    ensures
        final(state).wf(),
        final(state)@ == (StateModel {
            tree: with_window(old(state)@.tree, id, window),
            ..old(state)@
        }),
{
    let props = state.tree.container(id).props;
    state.tree.put_props(id, ContainerProps { window, ..props });
    proof {
        forest::lemma_same_links(old(state).tree@, state.tree@);
    }
}

/// The managed window at the cursor.
pub open spec fn window_at(s: StateModel, lookup: WindowLookup) -> Option<ContainerId> {
    match lookup {
        WindowLookup::Found(native_id) => wm_state::window_from_native(
            s.tree,
            s.root,
            native_id,
        ),
        _ => None,
    }
}

/// Gets the managed window at the cursor.
fn find_window_at(state: &WmState, lookup: WindowLookup) -> (r: Option<ContainerId>)
    requires
        state.wf(),
    ensures
        r == window_at(state@, lookup),
        r matches Some(x) ==> wm_state::is_window_of(state.tree@, state.root, x),
{
    match lookup {
        WindowLookup::Found(native_id) => state.window_from_native(native_id),
        _ => None,
    }
}

/// The state after `x` has been focused, unless it is focused already.
pub open spec fn focus_moved(s: StateModel, x: ContainerId) -> StateModel {
    StateModel { tree: forest::raised(s.tree, x), has_focus_change: true, ..s }
}

/// Focuses a container, and queues the change of the native focus.
fn move_focus(state: &mut WmState, id: ContainerId)
    requires
        old(state).wf(),
        id < old(state).tree@.len(),
    ensures
        final(state).wf(),
        final(state)@ == focus_moved(old(state)@, id),
{
    state.tree.set_focused_descendant(id);
    state.pending_sync.queue_focus_change();
}

/// Starting to drag takes a tiling window at the cursor, and the modifier.
pub open spec fn drag_start_outcome(s: StateModel, context: PointerContext) -> Result<
    MouseAction,
    CommandError,
> {
    if context.platform != Platform::Windows || !context.is_win_key_down {
        Ok(MouseAction::Nothing)
    } else if context.window_at_cursor == WindowLookup::Failed {
        Err(CommandError::WindowLookupFailed)
    } else {
        match window_at(s, context.window_at_cursor) {
            Some(window) => if s.tree[window as int].props.window.state == WindowState::Tiling {
                Ok(
                    MouseAction::StartDrag {
                        window,
                        frame: s.tree[window as int].props.window.frame,
                        is_centered: false,
                    },
                )
            } else {
                Ok(MouseAction::Nothing)
            },
            None => Ok(MouseAction::Nothing),
        }
    }
}

/// Starts to drag the tiling window at the cursor.
///
/// The window has to be made floating first, so that it can follow the
/// cursor. It stays where it is, and is not centered. After that, [`record_drag_start`] has to be called.
pub fn handle_drag_start(state: &WmState, context: &PointerContext) -> (r: Result<
    MouseAction,
    CommandError,
>)
    requires
        state.wf(),
    ensures
        r == drag_start_outcome(state@, *context),
{
    // Only with the modifier held, and only where windows can be looked up.
    if context.platform != Platform::Windows || !context.is_win_key_down {
        return Ok(MouseAction::Nothing);
    }
    if context.window_at_cursor == WindowLookup::Failed {
        return Err(CommandError::WindowLookupFailed);
    }
    match find_window_at(state, context.window_at_cursor) {
        Some(window) => {
            let props = state.tree.container(window).props.window;
            if props.state == WindowState::Tiling {
                Ok(MouseAction::StartDrag { window, frame: props.frame, is_centered: false })
            } else {
                Ok(MouseAction::Nothing)
            }
        },
        None => Ok(MouseAction::Nothing),
    }
}

/// The state in which a window follows the cursor, which has grabbed it at
/// the given position.
pub open spec fn drag_started(
    s: StateModel,
    window: ContainerId,
    position: Point,
    frame: Rect,
) -> StateModel {
    StateModel {
        tree: with_drag(
            s.tree,
            window,
            Some(
                ActiveDrag {
                    operation: Some(ActiveDragOperation::Move),
                    is_from_floating: false,
                    initial_position: frame,
                },
            ),
        ),
        drag_move: Some(
            DragMove {
                window_id: window,
                grab_offset: Point {
                    x: (position.x - frame.left) as i32,
                    y: (position.y - frame.top) as i32,
                },
            },
        ),
        ..s
    }
}

/// Records that a window follows the cursor from now on.
///
/// The window was tiling before, so that it is tiled again when it is
/// dropped. `frame` is where it was when the cursor grabbed it.
pub fn record_drag_start(
    state: &mut WmState,
    window: ContainerId,
    position: &Point,
    frame: &Rect,
)
    requires
        old(state).wf(),
        window < old(state).tree@.len(),
        geometry::fits_i32(position.x - frame.left),
        geometry::fits_i32(position.y - frame.top),
    ensures
        final(state).wf(),
        final(state)@ == drag_started(old(state)@, window, *position, *frame),
{
    let props = state.tree.container(window).props.window;
    put_window(
        state,
        window,
        WindowProps {
            active_drag: Some(
                ActiveDrag {
                    operation: Some(ActiveDragOperation::Move),
                    is_from_floating: false,
                    initial_position: *frame,
                },
            ),
            ..props
        },
    );
    state.drag_move = Some(
        DragMove {
            window_id: window,
            grab_offset: Point { x: position.x - frame.x(), y: position.y - frame.y() },
        },
    );
}

/// Where a dragged window belongs, before it is kept on the screen.
pub open spec fn dragged_rect(frame: Rect, grab_offset: Point, position: Point) -> Rect {
    drag_geometry::rect_at(
        position.x - grab_offset.x,
        position.y - grab_offset.y,
        frame.right - frame.left,
        frame.bottom - frame.top,
    )
}

/// Where a dragged window is put: it stays on the monitor under the cursor.
pub open spec fn drag_target(t: Forest, drag: DragMove, position: Point, monitor: Option<
    ContainerId,
>) -> Rect {
    let rect = dragged_rect(
        t[drag.window_id as int].props.window.frame,
        drag.grab_offset,
        position,
    );
    match monitor {
        Some(m) => drag_geometry::clamped(rect, t[m as int].props.working_area),
        None => rect,
    }
}

/// Whether a drag stays within the range of coordinates.
pub open spec fn drag_in_range(t: Forest, drag: DragMove, position: Point, monitor: Option<
    ContainerId,
>) -> bool {
    let frame = t[drag.window_id as int].props.window.frame;
    let x = position.x - drag.grab_offset.x;
    let y = position.y - drag.grab_offset.y;
    &&& frame.measurable()
    &&& geometry::fits_i32(x)
    &&& geometry::fits_i32(y)
    &&& geometry::fits_i32(x + (frame.right - frame.left))
    &&& geometry::fits_i32(y + (frame.bottom - frame.top))
    &&& monitor matches Some(m) ==> drag_geometry::clamp_in_range(
        dragged_rect(frame, drag.grab_offset, position),
        t[m as int].props.working_area,
    )
}

/// Whether moving the cursor during a drag stays within the range of
/// coordinates.
pub open spec fn drag_move_in_range(
    s: StateModel,
    position: Point,
    monitor: Option<ContainerId>,
) -> bool {
    match s.drag_move {
        Some(drag) => wm_state::is_window_of(s.tree, s.root, drag.window_id) ==> drag_in_range(
            s.tree,
            drag,
            position,
            monitor,
        ),
        None => true,
    }
}

/// What moving the cursor during a drag leads to.
pub open spec fn drag_move_outcome(s: StateModel, position: Point, context: PointerContext) -> (
    StateModel,
    Result<MouseAction, CommandError>,
) {
    match s.drag_move {
        None => (s, Err(CommandError::NoActiveDrag)),
        Some(drag) => if !wm_state::is_window_of(s.tree, s.root, drag.window_id) {
            (s, Err(CommandError::DraggedWindowGone))
        } else {
            let rect = drag_target(s.tree, drag, position, context.monitor_at_cursor);
            if context.platform == Platform::Windows {
                (s, Ok(MouseAction::MoveWindow { window: drag.window_id, rect }))
            } else {
                (
                    StateModel { tree: framed(s.tree, drag.window_id, rect), ..s },
                    Ok(MouseAction::Nothing),
                )
            }
        },
    }
}

/// Moves the dragged window along with the cursor, within the work area of
/// the monitor under the cursor.
///
/// Where the native window has to be moved explicitly, [`record_frame`] has
/// to be called after that.
pub fn handle_drag_move(position: &Point, state: &mut WmState, context: &PointerContext) -> (r:
    Result<MouseAction, CommandError>)
    requires
        old(state).wf(),
        context.monitor_at_cursor matches Some(m) ==> m < old(state).tree@.len(),
        drag_move_in_range(old(state)@, *position, context.monitor_at_cursor),
    ensures
        final(state).wf(),
        (final(state)@, r) == drag_move_outcome(old(state)@, *position, *context),
{
    let drag_move = match state.drag_move {
        Some(drag_move) => drag_move,
        None => {
            return Err(CommandError::NoActiveDrag);
        },
    };
    let window = drag_move.window_id;
    if !state.has_window(window) {
        return Err(CommandError::DraggedWindowGone);
    }
    let frame = state.tree.container(window).props.window.frame;
    let target_x = position.x - drag_move.grab_offset.x;
    let target_y = position.y - drag_move.grab_offset.y;
    let rect = Rect::from_xy(target_x, target_y, frame.width(), frame.height());
    let target_rect = match context.monitor_at_cursor {
        Some(monitor) => clamp_rect_to_area(
            &rect,
            &state.tree.container(monitor).props.working_area,
        ),
        None => rect,
    };
    if context.platform == Platform::Windows {
        Ok(MouseAction::MoveWindow { window, rect: target_rect })
    } else {
        record_frame(state, window, &target_rect);
        Ok(MouseAction::Nothing)
    }
}

/// Records the frame that a native window has.
pub fn record_frame(state: &mut WmState, window: ContainerId, frame: &Rect)
    requires
        old(state).wf(),
        window < old(state).tree@.len(),
    ensures
        final(state).wf(),
        final(state)@ == (StateModel {
            tree: framed(old(state)@.tree, window, *frame),
            ..old(state)@
        }),
{
    let props = state.tree.container(window).props.window;
    put_window(state, window, WindowProps { frame: *frame, ..props });
}

/// What releasing the button during a drag leads to.
pub open spec fn drag_end_outcome(s: StateModel, platform: Platform) -> (
    StateModel,
    Result<MouseAction, CommandError>,
) {
    match s.drag_move {
        None => (s, Err(CommandError::NoActiveDrag)),
        Some(drag) => if !wm_state::is_window_of(s.tree, s.root, drag.window_id) {
            (s, Err(CommandError::DraggedWindowGone))
        } else {
            (
                StateModel { drag_move: None, ..s },
                Ok(
                    if platform == Platform::Windows {
                        MouseAction::EndDrag { window: drag.window_id }
                    } else {
                        MouseAction::Nothing
                    },
                ),
            )
        },
    }
}

/// Ends a drag, so that the window is dropped into the layout where the
/// cursor is.
pub fn handle_drag_end(state: &mut WmState, context: &PointerContext) -> (r: Result<
    MouseAction,
    CommandError,
>)
    requires
        old(state).wf(),
    ensures
        final(state).wf(),
        (final(state)@, r) == drag_end_outcome(old(state)@, context.platform),
{
    let drag_move = match state.drag_move {
        Some(drag_move) => drag_move,
        None => {
            return Err(CommandError::NoActiveDrag);
        },
    };
    if !state.has_window(drag_move.window_id) {
        return Err(CommandError::DraggedWindowGone);
    }
    state.drag_move = None;
    if context.platform == Platform::Windows {
        Ok(MouseAction::EndDrag { window: drag_move.window_id })
    } else {
        Ok(MouseAction::Nothing)
    }
}

/// Whether a window in the given state has a size of its own.
pub open spec fn is_resizable(state: WindowState) -> bool {
    state == WindowState::Tiling || state == WindowState::Floating
}

/// What pressing the button for a resize leads to.
pub open spec fn resize_start_outcome(
    s: StateModel,
    position: Point,
    context: PointerContext,
) -> (StateModel, Result<MouseAction, CommandError>) {
    if context.platform != Platform::Windows || !context.is_win_key_down {
        (s, Ok(MouseAction::Nothing))
    } else if context.window_at_cursor == WindowLookup::Failed {
        (s, Err(CommandError::WindowLookupFailed))
    } else {
        match window_at(s, context.window_at_cursor) {
            Some(window) => if is_resizable(s.tree[window as int].props.window.state) {
                resize_window_start_outcome(s, position, window, context.window_rect)
            } else {
                (s, Ok(MouseAction::Nothing))
            },
            None => (s, Ok(MouseAction::Nothing)),
        }
    }
}

/// Starting to resize a window focuses it, and remembers where it was grabbed.
pub open spec fn resize_window_start_outcome(
    s: StateModel,
    position: Point,
    window: ContainerId,
    window_rect: Option<Rect>,
) -> (StateModel, Result<MouseAction, CommandError>) {
    match focus::focused_container(s.tree, s.root) {
        None => (s, Err(CommandError::NoFocusedContainer)),
        Some(focused) => {
            let r = if focused == window {
                s
            } else {
                focus_moved(s, window)
            };
            match window_rect {
                None => (r, Err(CommandError::NoRect)),
                Some(rect) => (
                    StateModel {
                        drag_resize: Some(
                            DragResize {
                                window_id: window,
                                initial_position: position,
                                edges: ResizeEdges::spec_from_grab_point(rect, position),
                                initial_rect: rect,
                            },
                        ),
                        ..r
                    },
                    Ok(MouseAction::Nothing),
                ),
            }
        },
    }
}

/// Starts to resize the window at the cursor.
///
/// The quadrant in which the window is grabbed decides which edges follow
/// the cursor, so that the window always grows in the direction in which it
/// is dragged.
pub fn handle_resize_start(position: &Point, state: &mut WmState, context: &PointerContext) -> (r:
    Result<MouseAction, CommandError>)
    requires
        old(state).wf(),
        context.window_rect matches Some(rect) ==> rect.measurable(),
    ensures
        final(state).wf(),
        (final(state)@, r) == resize_start_outcome(old(state)@, *position, *context),
{
    // Only with the modifier held, and only where windows can be looked up.
    if context.platform != Platform::Windows || !context.is_win_key_down {
        return Ok(MouseAction::Nothing);
    }
    if context.window_at_cursor == WindowLookup::Failed {
        return Err(CommandError::WindowLookupFailed);
    }
    let window = match find_window_at(state, context.window_at_cursor) {
        Some(window) => window,
        None => {
            return Ok(MouseAction::Nothing);
        },
    };
    let window_state = state.tree.container(window).props.window.state;
    if window_state != WindowState::Tiling && window_state != WindowState::Floating {
        return Ok(MouseAction::Nothing);
    }
    let focused_container = match state.focused_container() {
        Some(focused_container) => focused_container,
        None => {
            return Err(CommandError::NoFocusedContainer);
        },
    };
    if focused_container != window {
        move_focus(state, window);
    }
    let initial_rect = match context.window_rect {
        Some(rect) => rect,
        None => {
            return Err(CommandError::NoRect);
        },
    };
    state.drag_resize = Some(
        DragResize {
            window_id: window,
            initial_position: *position,
            edges: ResizeEdges::from_grab_point(&initial_rect, position),
            initial_rect,
        },
    );
    Ok(MouseAction::Nothing)
}

/// The width that a resize has led to.
pub open spec fn target_width(drag: DragResize, position: Point) -> int {
    drag.initial_rect.right - drag.initial_rect.left + drag.edges.width_delta(
        position.x - drag.initial_position.x,
    )
}

/// The height that a resize has led to.
pub open spec fn target_height(drag: DragResize, position: Point) -> int {
    drag.initial_rect.bottom - drag.initial_rect.top + drag.edges.height_delta(
        position.y - drag.initial_position.y,
    )
}

/// Whether a container is a floating window.
pub open spec fn is_floating(t: Forest, x: ContainerId) -> bool {
    &&& t[x as int].props.kind == ContainerKind::NonTilingWindow
    &&& t[x as int].props.window.state == WindowState::Floating
}

/// The width of a floating window that is resized.
pub open spec fn floating_width(drag: DragResize, position: Point) -> int {
    drag_geometry::greatest(target_width(drag, position), MIN_FLOATING_WIDTH as int)
}

/// The height of a floating window that is resized.
pub open spec fn floating_height(drag: DragResize, position: Point) -> int {
    drag_geometry::greatest(target_height(drag, position), MIN_FLOATING_HEIGHT as int)
}

/// Whether a resize stays within the range of coordinates.
pub open spec fn resize_in_range(t: Forest, drag: DragResize, position: Point) -> bool {
    let delta_x = position.x - drag.initial_position.x;
    let delta_y = position.y - drag.initial_position.y;
    &&& drag.initial_rect.measurable()
    &&& geometry::fits_i32(delta_x)
    &&& geometry::fits_i32(delta_y)
    &&& geometry::fits_i32(drag.edges.width_delta(delta_x))
    &&& geometry::fits_i32(drag.edges.height_delta(delta_y))
    &&& geometry::fits_i32(target_width(drag, position))
    &&& geometry::fits_i32(target_height(drag, position))
    &&& is_floating(t, drag.window_id) ==> drag_geometry::anchor_in_range(
        drag.initial_rect,
        drag.edges,
        floating_width(drag, position),
        floating_height(drag, position),
    )
}

/// Whether moving the cursor during a resize stays within the range of
/// coordinates.
pub open spec fn resize_move_in_range(s: StateModel, position: Point) -> bool {
    match s.drag_resize {
        Some(drag) => wm_state::is_window_of(s.tree, s.root, drag.window_id) ==> resize_in_range(
            s.tree,
            drag,
            position,
        ),
        None => true,
    }
}

/// What moving the cursor during a resize leads to.
pub open spec fn resize_move_outcome(s: StateModel, position: Point) -> (
    StateModel,
    Result<MouseAction, CommandError>,
) {
    match s.drag_resize {
        None => (s, Err(CommandError::NoActiveResize)),
        Some(drag) => if !wm_state::is_window_of(s.tree, s.root, drag.window_id) {
            (StateModel { drag_resize: None, ..s }, Ok(MouseAction::Nothing))
        } else if is_floating(s.tree, drag.window_id) {
            (
                StateModel {
                    tree: placed(
                        s.tree,
                        drag.window_id,
                        drag_geometry::anchored(
                            drag.initial_rect,
                            drag.edges,
                            floating_width(drag, position),
                            floating_height(drag, position),
                        ),
                    ),
                    redraw: wm_state::queued(s.redraw, drag.window_id),
                    ..s
                },
                Ok(MouseAction::Nothing),
            )
        } else {
            (
                s,
                Ok(
                    MouseAction::ResizeWindow {
                        window: drag.window_id,
                        width: target_width(drag, position) as i32,
                        height: target_height(drag, position) as i32,
                    },
                ),
            )
        },
    }
}

/// Resizes the grabbed window by as much as the cursor has moved since then.
///
/// The size is always derived from the one at the start, so that the window
/// does not drift away from the cursor when its size is limited. Floating
/// windows are moved as well, so that the edges that are not dragged stay.
pub fn handle_resize_move(position: &Point, state: &mut WmState) -> (r: Result<
    MouseAction,
    CommandError,
>)
    requires
        old(state).wf(),
        resize_move_in_range(old(state)@, *position),
    ensures
        final(state).wf(),
        (final(state)@, r) == resize_move_outcome(old(state)@, *position),
{
    let drag_resize = match state.drag_resize {
        Some(drag_resize) => drag_resize,
        None => {
            return Err(CommandError::NoActiveResize);
        },
    };
    let window = drag_resize.window_id;
    if !state.has_window(window) {
        state.drag_resize = None;
        return Ok(MouseAction::Nothing);
    }
    let (width_delta, height_delta) = drag_resize.edges.size_delta(
        position.x - drag_resize.initial_position.x,
        position.y - drag_resize.initial_position.y,
    );
    let target_width = drag_resize.initial_rect.width() + width_delta;
    let target_height = drag_resize.initial_rect.height() + height_delta;
    let props = state.tree.container(window).props;
    if props.kind == ContainerKind::NonTilingWindow && props.window.state == WindowState::Floating {
        let width = if target_width >= MIN_FLOATING_WIDTH {
            target_width
        } else {
            MIN_FLOATING_WIDTH
        };
        let height = if target_height >= MIN_FLOATING_HEIGHT {
            target_height
        } else {
            MIN_FLOATING_HEIGHT
        };
        let rect = anchored_rect(&drag_resize.initial_rect, drag_resize.edges, width, height);
        put_window(state, window, WindowProps { floating_placement: rect, ..props.window });
        state.pending_sync.queue_container_to_redraw(window);
        Ok(MouseAction::Nothing)
    } else {
        Ok(MouseAction::ResizeWindow { window, width: target_width, height: target_height })
    }
}

/// What focusing the window at the cursor, or else the monitor, leads to.
pub open spec fn focus_outcome(
    s: StateModel,
    window: Option<ContainerId>,
    monitor: Option<ContainerId>,
) -> (StateModel, Result<(), CommandError>) {
    let focused = focus::focused_container(s.tree, s.root);
    match window {
        Some(window) => match focused {
            None => (s, Err(CommandError::NoFocusedContainer)),
            Some(focused) => if focused == window {
                (s, Ok(()))
            } else {
                (focus_moved(s, window), Ok(()))
            },
        },
        None => match monitor {
            None => (s, Err(CommandError::NoMonitorUnderCursor)),
            Some(monitor) => match focused {
                None => (s, Err(CommandError::NoFocusedContainer)),
                Some(focused) => match focus::nearest(s.tree, focused, Role::Monitor) {
                    None => (s, Err(CommandError::NoFocusedMonitor)),
                    Some(focused_monitor) => if focused_monitor == monitor {
                        (s, Ok(()))
                    } else {
                        (focus_moved(s, monitor), Ok(()))
                    },
                },
            },
        },
    }
}

/// Focuses the managed window at the cursor, or the monitor if there is none.
pub fn focus_window_or_monitor(
    window_under_cursor: Option<ContainerId>,
    state: &mut WmState,
    context: &PointerContext,
) -> (r: Result<(), CommandError>)
    requires
        old(state).wf(),
        window_under_cursor matches Some(window) ==> window < old(state).tree@.len(),
        context.monitor_at_cursor matches Some(m) ==> m < old(state).tree@.len(),
    ensures
        final(state).wf(),
        (final(state)@, r) == focus_outcome(
            old(state)@,
            window_under_cursor,
            context.monitor_at_cursor,
        ),
{
    match window_under_cursor {
        Some(window) => {
            let focused_container = match state.focused_container() {
                Some(focused_container) => focused_container,
                None => {
                    return Err(CommandError::NoFocusedContainer);
                },
            };
            if focused_container != window {
                move_focus(state, window);
            }
        },
        None => {
            let cursor_monitor = match context.monitor_at_cursor {
                Some(cursor_monitor) => cursor_monitor,
                None => {
                    return Err(CommandError::NoMonitorUnderCursor);
                },
            };
            let focused_container = match state.focused_container() {
                Some(focused_container) => focused_container,
                None => {
                    return Err(CommandError::NoFocusedContainer);
                },
            };
            let focused_monitor = match focus::find_nearest(
                &state.tree,
                focused_container,
                Role::Monitor,
            ) {
                Some(focused_monitor) => focused_monitor,
                None => {
                    return Err(CommandError::NoFocusedMonitor);
                },
            };
            // Avoid setting focus to the same monitor.
            if focused_monitor != cursor_monitor {
                move_focus(state, cursor_monitor);
            }
        },
    }
    Ok(())
}

/// The window at the cursor that focus follows to.
pub open spec fn window_to_focus(
    s: StateModel,
    window_below_cursor: Option<WindowId>,
    context: PointerContext,
) -> Option<ContainerId> {
    if context.platform == Platform::MacOs {
        match window_below_cursor {
            Some(native_id) => wm_state::window_from_native(s.tree, s.root, native_id),
            None => None,
        }
    } else {
        window_at(s, context.window_at_cursor)
    }
}

/// Whether focus follows the cursor at the moment.
pub open spec fn is_following(
    s: StateModel,
    pressed_buttons: Seq<MouseButton>,
    config: UserConfig,
    platform: Platform,
) -> bool {
    &&& !pressed_buttons.contains(MouseButton::Left)
    &&& !pressed_buttons.contains(MouseButton::Right)
    &&& s.is_focus_synced
    &&& config.focus_follows_cursor
    &&& platform != Platform::Other
}

/// What moving the cursor leads to.
pub open spec fn move_outcome(
    s: StateModel,
    position: Point,
    pressed_buttons: Seq<MouseButton>,
    window_below_cursor: Option<WindowId>,
    config: UserConfig,
    context: PointerContext,
) -> (StateModel, Result<MouseAction, CommandError>) {
    if s.drag_move is Some {
        drag_move_outcome(s, position, context)
    } else if s.drag_resize is Some {
        if pressed_buttons.contains(MouseButton::Right) {
            resize_move_outcome(s, position)
        } else {
            // The release of the button was missed.
            (StateModel { drag_resize: None, ..s }, Ok(MouseAction::Nothing))
        }
    } else if is_following(s, pressed_buttons, config, context.platform) {
        let (r, outcome) = focus_outcome(
            s,
            window_to_focus(s, window_below_cursor, context),
            context.monitor_at_cursor,
        );
        (
            r,
            match outcome {
                Ok(_) => Ok(MouseAction::Nothing),
                Err(e) => Err(e),
            },
        )
    } else {
        (s, Ok(MouseAction::Nothing))
    }
}

/// What releasing a button leads to.
pub open spec fn button_up_outcome(
    s: StateModel,
    position: Point,
    button: MouseButton,
    platform: Platform,
) -> (StateModel, Result<MouseAction, CommandError>) {
    if platform == Platform::MacOs {
        (
            s,
            Ok(
                if button == MouseButton::Left {
                    MouseAction::FinishDrags
                } else {
                    MouseAction::Nothing
                },
            ),
        )
    } else if s.drag_move is Some && button == MouseButton::Left {
        drag_end_outcome(s, platform)
    } else if s.drag_resize is Some && button == MouseButton::Right {
        let (r, outcome) = resize_move_outcome(s, position);
        (StateModel { drag_resize: None, ..r }, outcome)
    } else {
        (s, Ok(MouseAction::Nothing))
    }
}

/// What an event of the mouse leads to.
pub open spec fn mouse_outcome(
    s: StateModel,
    event: MouseEvent,
    config: UserConfig,
    context: PointerContext,
) -> (StateModel, Result<MouseAction, CommandError>) {
    if s.is_paused {
        (s, Ok(MouseAction::Nothing))
    } else {
        match event {
            MouseEvent::ButtonUp { position, button, .. } => button_up_outcome(
                s,
                position,
                button,
                context.platform,
            ),
            MouseEvent::ButtonDown { position, button, .. } => match button {
                MouseButton::Left => (s, drag_start_outcome(s, context)),
                MouseButton::Right => resize_start_outcome(s, position, context),
            },
            MouseEvent::Move { position, pressed_buttons, window_below_cursor } => move_outcome(
                s,
                position,
                pressed_buttons@,
                window_below_cursor,
                config,
                context,
            ),
        }
    }
}

/// Whether an event can be handled within the range of coordinates.
pub open spec fn mouse_in_range(s: StateModel, event: MouseEvent, context: PointerContext) -> bool {
    s.is_paused || match event {
        MouseEvent::ButtonUp { position, button, .. } => context.platform != Platform::MacOs
            && button == MouseButton::Right ==> resize_move_in_range(s, position),
        MouseEvent::ButtonDown { button, .. } => match context.window_rect {
            Some(rect) => button == MouseButton::Right ==> rect.measurable(),
            None => true,
        },
        MouseEvent::Move { position, pressed_buttons, .. } => if s.drag_move is Some {
            drag_move_in_range(s, position, context.monitor_at_cursor)
        } else {
            pressed_buttons@.contains(MouseButton::Right) ==> resize_move_in_range(s, position)
        },
    }
}

/// Handles an event of the mouse.
///
/// `context` tells what is at the cursor. What is left to be done by the
/// platform is returned.
pub fn handle_mouse_move(
    event: &MouseEvent,
    state: &mut WmState,
    config: &UserConfig,
    context: &PointerContext,
) -> (r: Result<MouseAction, CommandError>)
    requires
        old(state).wf(),
        context.monitor_at_cursor matches Some(m) ==> m < old(state).tree@.len(),
        mouse_in_range(old(state)@, *event, *context),
    ensures
        final(state).wf(),
        (final(state)@, r) == mouse_outcome(old(state)@, *event, *config, *context),
{
    // The mouse listener should be disabled in the meantime, but some events
    // might slip through.
    if state.is_paused {
        return Ok(MouseAction::Nothing);
    }
    match event {
        MouseEvent::ButtonUp { position, button, .. } => {
            if context.platform == Platform::MacOs {
                if *button == MouseButton::Left {
                    Ok(MouseAction::FinishDrags)
                } else {
                    Ok(MouseAction::Nothing)
                }
            } else if state.drag_move.is_some() && *button == MouseButton::Left {
                handle_drag_end(state, context)
            } else if state.drag_resize.is_some() && *button == MouseButton::Right {
                // Apply the position of the release, in case the last move
                // was skipped. The resize is over even if that fails.
                let result = handle_resize_move(position, state);
                state.drag_resize = None;
                result
            } else {
                Ok(MouseAction::Nothing)
            }
        },
        MouseEvent::ButtonDown { position, button, .. } => match button {
            MouseButton::Left => handle_drag_start(state, context),
            MouseButton::Right => handle_resize_start(position, state, context),
        },
        MouseEvent::Move { position, pressed_buttons, window_below_cursor } => {
            if state.drag_move.is_some() {
                return handle_drag_move(position, state, context);
            }
            if state.drag_resize.is_some() {
                // Guard against a release that was missed, e.g. because
                // another process held the mouse capture.
                if is_pressed(pressed_buttons, MouseButton::Right) {
                    return handle_resize_move(position, state);
                }
                state.drag_resize = None;
                return Ok(MouseAction::Nothing);
            }
            if is_pressed(pressed_buttons, MouseButton::Left) || is_pressed(
                pressed_buttons,
                MouseButton::Right,
            ) || !state.is_focus_synced || !config.focus_follows_cursor || context.platform
                == Platform::Other {
                return Ok(MouseAction::Nothing);
            }
            let window_under_cursor = if context.platform == Platform::MacOs {
                match window_below_cursor {
                    Some(native_id) => state.window_from_native(*native_id),
                    None => None,
                }
            } else {
                find_window_at(state, context.window_at_cursor)
            };
            match focus_window_or_monitor(window_under_cursor, state, context) {
                Ok(_) => Ok(MouseAction::Nothing),
                Err(e) => Err(e),
            }
        },
    }
}

/// What has to be looked up before an event can be handled.
#[derive(Clone, Copy, Debug, PartialEq, Eq, Structural)]
pub enum PointerQuery {
    Nothing,
    /// The modifier, the window at the cursor and where it is.
    GrabbedWindow,
    /// The monitor at the cursor.
    Monitor,
    /// The window and the monitor at the cursor.
    WindowAndMonitor,
}

/// What has to be looked up for an event.
pub open spec fn spec_required_lookup(
    s: StateModel,
    event: MouseEvent,
    config: UserConfig,
    platform: Platform,
) -> PointerQuery {
    if s.is_paused {
        PointerQuery::Nothing
    } else {
        match event {
            MouseEvent::ButtonUp { .. } => PointerQuery::Nothing,
            MouseEvent::ButtonDown { .. } => if platform == Platform::Windows {
                PointerQuery::GrabbedWindow
            } else {
                PointerQuery::Nothing
            },
            MouseEvent::Move { pressed_buttons, .. } => if s.drag_move is Some {
                PointerQuery::Monitor
            } else if s.drag_resize is None && is_following(
                s,
                pressed_buttons@,
                config,
                platform,
            ) {
                PointerQuery::WindowAndMonitor
            } else {
                PointerQuery::Nothing
            },
        }
    }
}

/// Tells what has to be looked up before an event can be handled, so that
/// nothing is looked up in vain.
pub fn required_lookup(
    event: &MouseEvent,
    state: &WmState,
    config: &UserConfig,
    platform: Platform,
) -> (query: PointerQuery)
    ensures
        query == spec_required_lookup(state@, *event, *config, platform),
{
    if state.is_paused {
        return PointerQuery::Nothing;
    }
    match event {
        MouseEvent::ButtonUp { .. } => PointerQuery::Nothing,
        MouseEvent::ButtonDown { .. } => {
            if platform == Platform::Windows {
                PointerQuery::GrabbedWindow
            } else {
                PointerQuery::Nothing
            }
        },
        MouseEvent::Move { pressed_buttons, .. } => {
            if state.drag_move.is_some() {
                PointerQuery::Monitor
            } else if state.drag_resize.is_none() && !is_pressed(
                pressed_buttons,
                MouseButton::Left,
            ) && !is_pressed(pressed_buttons, MouseButton::Right) && state.is_focus_synced
                && config.focus_follows_cursor && platform != Platform::Other {
                PointerQuery::WindowAndMonitor
            } else {
                PointerQuery::Nothing
            }
        },
    }
}

/// Whether two contexts agree on everything that a query asks for.
pub open spec fn agree_on(query: PointerQuery, c: PointerContext, d: PointerContext) -> bool {
    &&& c.platform == d.platform
    &&& query == PointerQuery::GrabbedWindow ==> c.is_win_key_down == d.is_win_key_down
        && c.window_at_cursor == d.window_at_cursor && c.window_rect == d.window_rect
    &&& query == PointerQuery::Monitor ==> c.monitor_at_cursor == d.monitor_at_cursor
    &&& query == PointerQuery::WindowAndMonitor ==> c.window_at_cursor == d.window_at_cursor
        && c.monitor_at_cursor == d.monitor_at_cursor
}

/// How an event is handled depends only on what has to be looked up for it.
pub proof fn law_only_required_lookups_matter(
    s: StateModel,
    event: MouseEvent,
    config: UserConfig,
    c: PointerContext,
    d: PointerContext,
)
    requires
        agree_on(spec_required_lookup(s, event, config, c.platform), c, d),
    ensures
        mouse_outcome(s, event, config, c) == mouse_outcome(s, event, config, d),
{
}

/// While the window manager is paused, the mouse has no effect.
pub proof fn law_paused_state_ignores_the_mouse(
    s: StateModel,
    event: MouseEvent,
    config: UserConfig,
    context: PointerContext,
)
    requires
        s.is_paused,
    ensures
        mouse_outcome(s, event, config, context) == (
            s,
            Ok::<MouseAction, CommandError>(MouseAction::Nothing),
        ),
{
}

/// A dragged window tracks the cursor exactly: wherever the cursor goes, the
/// window is as far from where it was grabbed as the cursor is, unless it
/// has to be kept on a monitor.
pub proof fn law_dragged_window_tracks_the_cursor(
    s: StateModel,
    window: ContainerId,
    start: Point,
    position: Point,
    frame: Rect,
)
    requires
        window < s.tree.len(),
        s.tree[window as int].props.window.frame == frame,
        frame.measurable(),
        geometry::fits_i32(start.x - frame.left),
        geometry::fits_i32(start.y - frame.top),
        geometry::fits_i32(frame.left + (position.x - start.x)),
        geometry::fits_i32(frame.top + (position.y - start.y)),
        geometry::fits_i32(frame.right + (position.x - start.x)),
        geometry::fits_i32(frame.bottom + (position.y - start.y)),
    ensures
        ({
            let r = drag_started(s, window, start, frame);
            let target = drag_target(r.tree, r.drag_move->0, position, None);
            &&& target.left == frame.left + (position.x - start.x)
            &&& target.top == frame.top + (position.y - start.y)
            &&& target.right == frame.right + (position.x - start.x)
            &&& target.bottom == frame.bottom + (position.y - start.y)
        }),
{
}

/// A dragged window stays on the monitor under the cursor.
pub proof fn law_dragged_window_stays_on_the_monitor(
    t: Forest,
    drag: DragMove,
    position: Point,
    monitor: ContainerId,
)
    requires
        drag_in_range(t, drag, position, Some(monitor)),
        drag_geometry::is_upright(t[drag.window_id as int].props.window.frame),
        drag_geometry::is_upright(t[monitor as int].props.working_area),
    ensures
        drag_geometry::is_inside(
            drag_target(t, drag, position, Some(monitor)),
            t[monitor as int].props.working_area,
        ),
{
    drag_geometry::law_clamped_rect_is_inside(
        dragged_rect(
            t[drag.window_id as int].props.window.frame,
            drag.grab_offset,
            position,
        ),
        t[monitor as int].props.working_area,
    );
}

/// A resize does not drift: with the cursor back where it started, the
/// window has its initial size, and a floating one that is not too small its
/// initial place.
pub proof fn law_resize_does_not_drift(drag: DragResize)
    requires
        drag.initial_rect.measurable(),
    ensures
        target_width(drag, drag.initial_position) == drag.initial_rect.right
            - drag.initial_rect.left,
        target_height(drag, drag.initial_position) == drag.initial_rect.bottom
            - drag.initial_rect.top,
        drag.initial_rect.right - drag.initial_rect.left >= MIN_FLOATING_WIDTH
            && drag.initial_rect.bottom - drag.initial_rect.top >= MIN_FLOATING_HEIGHT
            ==> drag_geometry::anchored(
            drag.initial_rect,
            drag.edges,
            floating_width(drag, drag.initial_position),
            floating_height(drag, drag.initial_position),
        ) == drag.initial_rect,
{
}

/// The window grows in the direction in which it is dragged: the edge in the
/// grabbed half follows the cursor.
pub proof fn law_grabbed_edge_follows_the_cursor(drag: DragResize, position: Point)
    requires
        drag_geometry::anchor_in_range(
            drag.initial_rect,
            drag.edges,
            target_width(drag, position),
            target_height(drag, position),
        ),
    ensures
        ({
            let r = drag_geometry::anchored(
                drag.initial_rect,
                drag.edges,
                target_width(drag, position),
                target_height(drag, position),
            );
            let delta_x = position.x - drag.initial_position.x;
            let delta_y = position.y - drag.initial_position.y;
            &&& drag.edges.is_right ==> r.right == drag.initial_rect.right + delta_x
            &&& !drag.edges.is_right ==> r.left == drag.initial_rect.left + delta_x
            &&& drag.edges.is_bottom ==> r.bottom == drag.initial_rect.bottom + delta_y
            &&& !drag.edges.is_bottom ==> r.top == drag.initial_rect.top + delta_y
        }),
{
}

/// Releasing the button applies the position of the release, and ends the
/// resize whatever comes of that.
pub proof fn law_release_applies_its_position_and_ends_the_resize(
    s: StateModel,
    position: Point,
    platform: Platform,
)
    requires
        platform != Platform::MacOs,
        s.drag_resize is Some,
    ensures
        ({
            let (moved, outcome) = resize_move_outcome(s, position);
            button_up_outcome(s, position, MouseButton::Right, platform) == (
                StateModel { drag_resize: None, ..moved },
                outcome,
            )
        }),
{
}

/// A floating window never gets smaller than the least size.
pub proof fn law_floating_size_is_limited(drag: DragResize, position: Point)
    requires
        drag_geometry::anchor_in_range(
            drag.initial_rect,
            drag.edges,
            floating_width(drag, position),
            floating_height(drag, position),
        ),
    ensures
        ({
            let r = drag_geometry::anchored(
                drag.initial_rect,
                drag.edges,
                floating_width(drag, position),
                floating_height(drag, position),
            );
            &&& r.right - r.left >= MIN_FLOATING_WIDTH
            &&& r.bottom - r.top >= MIN_FLOATING_HEIGHT
        }),
{
}

/// Without the modifier, pressing a button has no effect.
pub proof fn law_pressing_a_button_takes_the_modifier(
    s: StateModel,
    position: Point,
    context: PointerContext,
)
    requires
        !context.is_win_key_down,
    ensures
        drag_start_outcome(s, context) == Ok::<MouseAction, CommandError>(MouseAction::Nothing),
        resize_start_outcome(s, position, context) == (
            s,
            Ok::<MouseAction, CommandError>(MouseAction::Nothing),
        ),
{
}

/// After focus has followed the cursor onto a window, that window is the
/// focused container.
pub proof fn law_focus_follows_onto_the_window(
    s: StateModel,
    window: ContainerId,
    monitor: Option<ContainerId>,
)
    requires
        forest::well_formed(s.tree),
        s.root < s.tree.len(),
        window != s.root,
        wm_state::is_window_of(s.tree, s.root, window),
        focus::focused_container(s.tree, s.root) is Some,
    ensures
        ({
            let (r, outcome) = focus_outcome(s, Some(window), monitor);
            &&& outcome is Ok
            &&& focus::focused_container(r.tree, r.root) == Some(window)
        }),
{
    assert(s.tree[window as int].props.kind.spec_is_window());
    focus::law_focusing_a_leaf_makes_it_the_focused_container(s.tree, s.root, window);
}

/// Whether a window is going through an interactive drag.
pub open spec fn is_dragged(t: Forest, root: ContainerId, x: ContainerId) -> bool {
    wm_state::is_window_of(t, root, x) && t[x as int].props.window.active_drag is Some
}

/// Gets all windows that are going through an interactive drag.
pub fn active_drag_windows(state: &WmState) -> (windows: Vec<ContainerId>)
    requires
        state.wf(),
    ensures
        forall|x: ContainerId| #[trigger]
            windows@.contains(x) <==> is_dragged(state.tree@, state.root, x),
        forall|i: int, j: int| 0 <= i < j < windows@.len() ==> windows@[i] < windows@[j],
{
    let len = state.tree.len();
    let mut windows: Vec<ContainerId> = Vec::new();
    let mut id: ContainerId = 0;
    while id < len
        invariant
            state.wf(),
            len == state.tree@.len(),
            id <= len,
            forall|x: ContainerId| #[trigger]
                windows@.contains(x) <==> x < id && is_dragged(state.tree@, state.root, x),
            forall|i: int| 0 <= i < windows@.len() ==> windows@[i] < id,
            forall|i: int, j: int| 0 <= i < j < windows@.len() ==> windows@[i] < windows@[j],
        decreases len - id,
    {
        let ghost before = windows@;
        if state.tree.container(id).props.window.active_drag.is_some() && state.has_window(id) {
            windows.push(id);
            proof {
                assert forall|x: ContainerId| #[trigger] windows@.contains(x) <==> before.contains(
                    x,
                ) || x == id by {
                    if before.contains(x) {
                        let i = choose|i: int| 0 <= i < before.len() && before[i] == x;
                        assert(windows@[i] == x);
                    }
                    if x == id {
                        assert(windows@[before.len() as int] == x);
                    }
                }
            }
        }
        id += 1;
    }
    windows
}

/// The size that is asked for of a window that does not float differs from the
/// initial one by exactly the distance that the cursor was dragged outwards:
/// the width grows by as much as the cursor has moved to the right if the right
/// half was grabbed, and to the left otherwise, and the height by as much as it
/// has moved down if the lower half was grabbed, and up otherwise.
pub proof fn law_resize_asks_for_the_dragged_size(s: StateModel, position: Point)
    requires
        s.drag_resize is Some,
        wm_state::is_window_of(s.tree, s.root, (s.drag_resize->0).window_id),
        !(s.tree[(s.drag_resize->0).window_id as int].props.kind == ContainerKind::NonTilingWindow
            && s.tree[(s.drag_resize->0).window_id as int].props.window.state
            == WindowState::Floating),
        resize_in_range(s.tree, s.drag_resize->0, position),
    ensures
        ({
            let drag = s.drag_resize->0;
            let (r, outcome) = resize_move_outcome(s, position);
            &&& r == s
            &&& outcome matches Ok(MouseAction::ResizeWindow { window, width, height }) && {
                let wider = width - (drag.initial_rect.right - drag.initial_rect.left);
                let higher = height - (drag.initial_rect.bottom - drag.initial_rect.top);
                &&& window == drag.window_id
                &&& drag.edges.is_right ==> wider == position.x - drag.initial_position.x
                &&& !drag.edges.is_right ==> wider == drag.initial_position.x - position.x
                &&& drag.edges.is_bottom ==> higher == position.y - drag.initial_position.y
                &&& !drag.edges.is_bottom ==> higher == drag.initial_position.y - position.y
            }
        }),
{
}

/// A floating window is placed such that the grabbed edges have moved by as
/// much as the cursor and the other ones have stayed, unless the window would
/// get too small: then it is as small as it may be, and the other edges still
/// stay. It is redrawn once, and the rest of the state stays.
pub proof fn law_resize_moves_the_grabbed_edges(s: StateModel, position: Point)
    requires
        s.drag_resize is Some,
        wm_state::is_window_of(s.tree, s.root, (s.drag_resize->0).window_id),
        s.tree[(s.drag_resize->0).window_id as int].props.kind == ContainerKind::NonTilingWindow,
        s.tree[(s.drag_resize->0).window_id as int].props.window.state == WindowState::Floating,
        resize_in_range(s.tree, s.drag_resize->0, position),
    ensures
        ({
            let drag = s.drag_resize->0;
            let x = drag.window_id;
            let from = drag.initial_rect;
            let (r, outcome) = resize_move_outcome(s, position);
            let to = r.tree[x as int].props.window.floating_placement;
            let delta_x = position.x - drag.initial_position.x;
            let delta_y = position.y - drag.initial_position.y;
            &&& outcome == Ok::<MouseAction, CommandError>(MouseAction::Nothing)
            &&& drag.edges.is_right ==> to.left == from.left && to.right == if from.right + delta_x
                - from.left >= MIN_FLOATING_WIDTH {
                from.right + delta_x
            } else {
                from.left + MIN_FLOATING_WIDTH
            }
            &&& !drag.edges.is_right ==> to.right == from.right && to.left == if from.right - (
            from.left + delta_x) >= MIN_FLOATING_WIDTH {
                from.left + delta_x
            } else {
                from.right - MIN_FLOATING_WIDTH
            }
            &&& drag.edges.is_bottom ==> to.top == from.top && to.bottom == if from.bottom + delta_y
                - from.top >= MIN_FLOATING_HEIGHT {
                from.bottom + delta_y
            } else {
                from.top + MIN_FLOATING_HEIGHT
            }
            &&& !drag.edges.is_bottom ==> to.bottom == from.bottom && to.top == if from.bottom - (
            from.top + delta_y) >= MIN_FLOATING_HEIGHT {
                from.top + delta_y
            } else {
                from.bottom - MIN_FLOATING_HEIGHT
            }
            &&& r.redraw.contains(x)
            &&& s.redraw.contains(x) ==> r.redraw == s.redraw
            &&& !s.redraw.contains(x) ==> r.redraw.drop_last() == s.redraw
            &&& r == (StateModel { tree: r.tree, redraw: r.redraw, ..s })
            &&& r.tree.len() == s.tree.len()
            &&& forall|y: ContainerId|
                y < s.tree.len() && y != x ==> #[trigger] r.tree[y as int] == s.tree[y as int]
            &&& r.tree[x as int].parent == s.tree[x as int].parent
            &&& r.tree[x as int].children == s.tree[x as int].children
            &&& r.tree[x as int].focus == s.tree[x as int].focus
            &&& r.tree[x as int].props == (ContainerProps {
                window: WindowProps { floating_placement: to, ..s.tree[x as int].props.window },
                ..s.tree[x as int].props
            })
        }),
{
    let drag = s.drag_resize->0;
    let x = drag.window_id;
    let r = resize_move_outcome(s, position).0;
    if !s.redraw.contains(x) {
        assert(r.redraw[s.redraw.len() as int] == x);
        assert(r.redraw.drop_last() =~= s.redraw);
    }
}

} // verus!
