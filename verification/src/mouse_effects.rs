//! What each event of the mouse does.

use vstd::prelude::*;

use crate::container::{
    ActiveDrag, ActiveDragOperation, ContainerId, ContainerKind, ContainerProps, WindowId,
    WindowProps, WindowState,
};
use crate::drag_moves;
use crate::error::CommandError;
use crate::focus::{self, Role};
use crate::forest::{self, Forest};
use crate::geometry::{self, Point, Rect};
use crate::handle_mouse_move::{
    self, MouseAction, Platform, PointerContext, PointerQuery, WindowLookup,
};
use crate::mouse_event::{MouseButton, MouseEvent};
use crate::user_config::UserConfig;
use crate::wm_state::{self, StateModel};

verus! {

/// Whether `x` is a window below the root of a state.
pub open spec fn is_managed(s: StateModel, x: ContainerId) -> bool {
    &&& x < s.tree.len()
    &&& s.tree[x as int].props.kind == ContainerKind::TilingWindow || s.tree[x as int].props.kind
        == ContainerKind::NonTilingWindow
    &&& forest::within(s.tree, x, s.root)
}

/// Whether `x` is the one window that stands for a native window.
pub open spec fn stands_for(s: StateModel, x: ContainerId, native_id: WindowId) -> bool {
    &&& is_managed(s, x)
    &&& s.tree[x as int].props.window.native_id == native_id
    &&& forall|y: ContainerId| #[trigger]
        is_managed(s, y) && s.tree[y as int].props.window.native_id == native_id ==> y == x
}

/// Whether no window stands for a native window.
pub open spec fn is_unmanaged(s: StateModel, native_id: WindowId) -> bool {
    forall|y: ContainerId|
        is_managed(s, y) ==> (#[trigger] s.tree[y as int]).props.window.native_id != native_id
}

/// A native window is looked up by its identity.
pub proof fn law_native_windows_are_looked_up(s: StateModel, x: ContainerId, native_id: WindowId)
    ensures
        stands_for(s, x, native_id) ==> wm_state::window_from_native(s.tree, s.root, native_id)
            == Some(x) && handle_mouse_move::window_at(s, WindowLookup::Found(native_id)) == Some(x),
        is_unmanaged(s, native_id) ==> wm_state::window_from_native(s.tree, s.root, native_id)
            is None && handle_mouse_move::window_at(s, WindowLookup::Found(native_id)) is None,
        handle_mouse_move::window_at(s, WindowLookup::Nothing) is None,
        handle_mouse_move::window_at(s, WindowLookup::Failed) is None,
{
    if stands_for(s, x, native_id) {
        assert(wm_state::has_native_id(s.tree, s.root, native_id, x));
        assert forall|y: ContainerId| #[trigger]
            wm_state::has_native_id(s.tree, s.root, native_id, y) implies y == x by {
            assert(is_managed(s, y));
        }
    }
    if is_unmanaged(s, native_id) {
        assert forall|y: ContainerId| !#[trigger] wm_state::has_native_id(
            s.tree,
            s.root,
            native_id,
            y,
        ) by {
            if wm_state::has_native_id(s.tree, s.root, native_id, y) {
                assert(is_managed(s, y));
                assert(s.tree[y as int].props.window.native_id != native_id);
            }
        }
    }
}

/// While nothing is paused, the left button starts and ends drags, the right
/// button starts and ends resizes, and moving the cursor drags, resizes or
/// moves focus.
pub proof fn law_pressing_starts(
    s: StateModel,
    position: Point,
    button: MouseButton,
    pressed_buttons: Vec<MouseButton>,
    config: UserConfig,
    context: PointerContext,
)
    requires
        !s.is_paused,
    ensures
        handle_mouse_move::mouse_outcome(
            s,
            MouseEvent::ButtonDown { position, button, pressed_buttons },
            config,
            context,
        ) == if button == MouseButton::Left {
            (s, handle_mouse_move::drag_start_outcome(s, context))
        } else {
            handle_mouse_move::resize_start_outcome(s, position, context)
        },
{
}

/// Moving the cursor drags a window as long as there is a drag. Otherwise it
/// resizes one as long as there is a resize and the right button is held, and
/// ends a resize whose button was released unnoticed. Otherwise focus follows
/// the cursor, if it may, and nothing else happens.
pub proof fn law_moving(
    s: StateModel,
    position: Point,
    pressed_buttons: Vec<MouseButton>,
    window_below_cursor: Option<WindowId>,
    config: UserConfig,
    context: PointerContext,
)
    requires
        !s.is_paused,
    ensures
        ({
            let (r, outcome) = handle_mouse_move::mouse_outcome(
                s,
                MouseEvent::Move { position, pressed_buttons, window_below_cursor },
                config,
                context,
            );
            let is_left = pressed_buttons@.contains(MouseButton::Left);
            let is_right = pressed_buttons@.contains(MouseButton::Right);
            let follows = !is_left && !is_right && s.is_focus_synced && config.focus_follows_cursor
                && (context.platform == Platform::Windows || context.platform == Platform::MacOs);
            if s.drag_move is Some {
                (r, outcome) == handle_mouse_move::drag_move_outcome(s, position, context)
            } else if s.drag_resize is Some && is_right {
                (r, outcome) == handle_mouse_move::resize_move_outcome(s, position)
            } else if s.drag_resize is Some {
                &&& r == (StateModel { drag_resize: None, ..s })
                &&& outcome == Ok::<MouseAction, CommandError>(MouseAction::Nothing)
            } else if !follows {
                &&& r == s
                &&& outcome == Ok::<MouseAction, CommandError>(MouseAction::Nothing)
            } else {
                let window = if context.platform == Platform::MacOs {
                    match window_below_cursor {
                        Some(native_id) => handle_mouse_move::window_at(
                            s,
                            WindowLookup::Found(native_id),
                        ),
                        None => None,
                    }
                } else {
                    handle_mouse_move::window_at(s, context.window_at_cursor)
                };
                let (t, result) = handle_mouse_move::focus_outcome(
                    s,
                    window,
                    context.monitor_at_cursor,
                );
                &&& r == t
                &&& result is Ok ==> outcome == Ok::<MouseAction, CommandError>(MouseAction::Nothing)
                &&& result is Err ==> outcome == Err::<MouseAction, CommandError>(result->Err_0)
            }
        }),
{
}

/// Releasing a button ends what it has started: the left button a drag, and the
/// right button a resize, after the position of the release was applied. Where
/// windows are dragged natively, the left button finishes these drags.
pub proof fn law_releasing_ends(
    s: StateModel,
    position: Point,
    button: MouseButton,
    pressed_buttons: Vec<MouseButton>,
    config: UserConfig,
    context: PointerContext,
)
    requires
        !s.is_paused,
    ensures
        ({
            let (r, outcome) = handle_mouse_move::mouse_outcome(
                s,
                MouseEvent::ButtonUp { position, button, pressed_buttons },
                config,
                context,
            );
            if context.platform == Platform::MacOs {
                &&& r == s
                &&& outcome == Ok::<MouseAction, CommandError>(
                    if button == MouseButton::Left {
                        MouseAction::FinishDrags
                    } else {
                        MouseAction::Nothing
                    },
                )
            } else if button == MouseButton::Left && s.drag_move is Some {
                (r, outcome) == handle_mouse_move::drag_end_outcome(s, context.platform)
            } else if button == MouseButton::Right && s.drag_resize is Some {
                let (t, result) = handle_mouse_move::resize_move_outcome(s, position);
                &&& r == (StateModel { drag_resize: None, ..t })
                &&& outcome == result
            } else {
                &&& r == s
                &&& outcome == Ok::<MouseAction, CommandError>(MouseAction::Nothing)
            }
        }),
{
}

/// A drag starts exactly where the modifier is held over a tiling window, on a
/// platform where windows can be looked up: with that window, where it was
/// grabbed, and not centered.
pub proof fn law_drag_starts_with_a_tiling_window(
    s: StateModel,
    context: PointerContext,
    x: ContainerId,
    native_id: WindowId,
)
    requires
        stands_for(s, x, native_id),
        context.window_at_cursor == WindowLookup::Found(native_id),
    ensures
        handle_mouse_move::drag_start_outcome(s, context) == Ok::<MouseAction, CommandError>(
            if context.platform == Platform::Windows && context.is_win_key_down
                && s.tree[x as int].props.window.state == WindowState::Tiling {
                MouseAction::StartDrag {
                    window: x,
                    frame: s.tree[x as int].props.window.frame,
                    is_centered: false,
                }
            } else {
                MouseAction::Nothing
            },
        ),
{
    law_native_windows_are_looked_up(s, x, native_id);
}

/// Without a managed window at the cursor, no drag and no resize starts. Both
/// are refused if it cannot be told which window is there.
pub proof fn law_grabbing_takes_a_window(s: StateModel, position: Point, context: PointerContext)
    requires
        match context.window_at_cursor {
            WindowLookup::Found(native_id) => is_unmanaged(s, native_id),
            _ => true,
        },
    ensures
        ({
            let is_refused = context.platform == Platform::Windows && context.is_win_key_down
                && context.window_at_cursor == WindowLookup::Failed;
            let expected = if is_refused {
                Err::<MouseAction, CommandError>(CommandError::WindowLookupFailed)
            } else {
                Ok(MouseAction::Nothing)
            };
            &&& handle_mouse_move::drag_start_outcome(s, context) == expected
            &&& handle_mouse_move::resize_start_outcome(s, position, context) == (s, expected)
        }),
{
    if let WindowLookup::Found(native_id) = context.window_at_cursor {
        law_native_windows_are_looked_up(s, 0, native_id);
    }
}

/// Whether nothing but the properties of the window `x` differs between two
/// trees.
pub open spec fn differs_in_window(t: Forest, r: Forest, x: ContainerId) -> bool {
    &&& r.len() == t.len()
    &&& forall|y: ContainerId| y < t.len() && y != x ==> #[trigger] r[y as int] == t[y as int]
    &&& r[x as int].parent == t[x as int].parent
    &&& r[x as int].children == t[x as int].children
    &&& r[x as int].focus == t[x as int].focus
    &&& r[x as int].props == (ContainerProps {
        window: r[x as int].props.window,
        ..t[x as int].props
    })
}

/// A drag remembers the window, and where in it the cursor is. The window is
/// moved, comes from the layout, and remembers where it was grabbed. Nothing
/// else changes.
pub proof fn law_started_drag_remembers_the_grab(
    s: StateModel,
    x: ContainerId,
    position: Point,
    frame: Rect,
)
    requires
        x < s.tree.len(),
        geometry::fits_i32(position.x - frame.left),
        geometry::fits_i32(position.y - frame.top),
    ensures
        ({
            let r = handle_mouse_move::drag_started(s, x, position, frame);
            &&& r.drag_move matches Some(drag) && drag.window_id == x && drag.grab_offset.x
                == position.x - frame.left && drag.grab_offset.y == position.y - frame.top
            &&& r == (StateModel { tree: r.tree, drag_move: r.drag_move, ..s })
            &&& differs_in_window(s.tree, r.tree, x)
            &&& r.tree[x as int].props.window == (WindowProps {
                active_drag: Some(
                    ActiveDrag {
                        operation: Some(ActiveDragOperation::Move),
                        is_from_floating: false,
                        initial_position: frame,
                    },
                ),
                ..s.tree[x as int].props.window
            })
        }),
{
}

/// A dragged window is moved natively on Windows, and is known to be there on
/// other platforms. Either way, it is the dragged window, and nothing else
/// changes. Without the window, the drag is refused and goes on.
pub proof fn law_dragged_window_is_moved(
    s: StateModel,
    position: Point,
    context: PointerContext,
    start: Point,
    frame: Rect,
)
    requires
        s.drag_move is Some,
        frame.measurable(),
        geometry::fits_i32(start.x - frame.left),
        geometry::fits_i32(start.y - frame.top),
        s.drag_move == handle_mouse_move::drag_started(
            s,
            (s.drag_move->0).window_id,
            start,
            frame,
        ).drag_move,
        drag_moves::same_size(
            s.tree[(s.drag_move->0).window_id as int].props.window.frame,
            frame,
        ),
        drag_moves::is_trackable(s.tree, frame, start, position, context.monitor_at_cursor),
    ensures
        ({
            let x = (s.drag_move->0).window_id;
            let target = drag_moves::following(
                s.tree,
                frame,
                start,
                position,
                context.monitor_at_cursor,
            );
            let (r, outcome) = handle_mouse_move::drag_move_outcome(s, position, context);
            if !is_managed(s, x) {
                &&& r == s
                &&& outcome == Err::<MouseAction, CommandError>(CommandError::DraggedWindowGone)
            } else if context.platform == Platform::Windows {
                &&& r == s
                &&& outcome == Ok::<MouseAction, CommandError>(
                    MouseAction::MoveWindow { window: x, rect: target },
                )
            } else {
                &&& outcome == Ok::<MouseAction, CommandError>(MouseAction::Nothing)
                &&& r == (StateModel { tree: r.tree, ..s })
                &&& differs_in_window(s.tree, r.tree, x)
                &&& r.tree[x as int].props.window == (WindowProps {
                    frame: target,
                    ..s.tree[x as int].props.window
                })
            }
        }),
{
    let x = (s.drag_move->0).window_id;
    drag_moves::law_drag_target_depends_on_the_size_alone(
        s,
        x,
        start,
        frame,
        position,
        context.monitor_at_cursor,
    );
    assert(is_managed(s, x) == wm_state::is_window_of(s.tree, s.root, x));
}

/// Ending a drag leaves no drag, and drops the window where it was moved
/// natively. Without the window, that is refused, and without a drag as well.
pub proof fn law_ended_drag_drops_the_window(s: StateModel, platform: Platform)
    ensures
        ({
            let (r, outcome) = handle_mouse_move::drag_end_outcome(s, platform);
            match s.drag_move {
                None => r == s && outcome == Err::<MouseAction, CommandError>(
                    CommandError::NoActiveDrag,
                ),
                Some(drag) => if is_managed(s, drag.window_id) {
                    &&& r == (StateModel { drag_move: None, ..s })
                    &&& outcome == Ok::<MouseAction, CommandError>(
                        if platform == Platform::Windows {
                            MouseAction::EndDrag { window: drag.window_id }
                        } else {
                            MouseAction::Nothing
                        },
                    )
                } else {
                    &&& r == s
                    &&& outcome == Err::<MouseAction, CommandError>(CommandError::DraggedWindowGone)
                },
            }
        }),
{
    if let Some(drag) = s.drag_move {
        assert(is_managed(s, drag.window_id) == wm_state::is_window_of(
            s.tree,
            s.root,
            drag.window_id,
        ));
    }
}

/// A resize starts where the modifier is held over a tiling or floating window
/// whose place is known. It remembers where the cursor and the window were,
/// and which quadrant was grabbed: the right half or the left one, and the
/// lower half or the upper one. The window is focused, if it was not.
pub proof fn law_resize_starts_in_the_grabbed_quadrant(
    s: StateModel,
    position: Point,
    context: PointerContext,
    x: ContainerId,
    native_id: WindowId,
    focused: ContainerId,
)
    requires
        stands_for(s, x, native_id),
        context.window_at_cursor == WindowLookup::Found(native_id),
        focus::focused_container(s.tree, s.root) == Some(focused),
    ensures
        ({
            let (r, outcome) = handle_mouse_move::resize_start_outcome(s, position, context);
            let state = s.tree[x as int].props.window.state;
            let starts = context.platform == Platform::Windows && context.is_win_key_down && (state
                == WindowState::Tiling || state == WindowState::Floating);
            &&& !starts ==> r == s && outcome == Ok::<MouseAction, CommandError>(
                MouseAction::Nothing,
            )
            &&& starts ==> {
                &&& r.has_focus_change == (s.has_focus_change || focused != x)
                &&& r.tree == if focused == x {
                    s.tree
                } else {
                    forest::raised(s.tree, x)
                }
                &&& r == (StateModel {
                    tree: r.tree,
                    has_focus_change: r.has_focus_change,
                    drag_resize: r.drag_resize,
                    ..s
                })
            }
            &&& starts && context.window_rect is None ==> r.drag_resize == s.drag_resize && outcome
                == Err::<MouseAction, CommandError>(CommandError::NoRect)
            &&& starts && context.window_rect is Some ==> {
                let rect = context.window_rect->0;
                &&& outcome == Ok::<MouseAction, CommandError>(MouseAction::Nothing)
                &&& r.drag_resize matches Some(drag) && {
                    &&& drag.window_id == x
                    &&& drag.initial_position == position
                    &&& drag.initial_rect == rect
                    &&& rect.left <= rect.right ==> (drag.edges.is_right <==> position.x - rect.left
                        >= (rect.right - rect.left) / 2)
                    &&& rect.top <= rect.bottom ==> (drag.edges.is_bottom <==> position.y - rect.top
                        >= (rect.bottom - rect.top) / 2)
                }
            }
        }),
{
    law_native_windows_are_looked_up(s, x, native_id);
}

/// Focus moves to the window at the cursor unless it is there already. Without
/// a window, it moves to the monitor at the cursor, unless something on that
/// monitor is focused already. Only the focus changes.
pub proof fn law_focus_moves_to_the_cursor(
    s: StateModel,
    window: Option<ContainerId>,
    monitor: Option<ContainerId>,
    focused: ContainerId,
)
    requires
        focus::focused_container(s.tree, s.root) == Some(focused),
    ensures
        ({
            let (r, outcome) = handle_mouse_move::focus_outcome(s, window, monitor);
            let current = focus::nearest(s.tree, focused, Role::Monitor);
            &&& window matches Some(x) ==> {
                &&& outcome == Ok::<(), CommandError>(())
                &&& focused == x ==> r == s
                &&& focused != x ==> r == (StateModel {
                    tree: forest::raised(s.tree, x),
                    has_focus_change: true,
                    ..s
                })
            }
            &&& window is None && monitor is None ==> r == s && outcome == Err::<(), CommandError>(
                CommandError::NoMonitorUnderCursor,
            )
            &&& window is None && monitor is Some && current is None ==> r == s && outcome == Err::<
                (),
                CommandError,
            >(CommandError::NoFocusedMonitor)
            &&& window is None && monitor is Some && current is Some ==> {
                &&& outcome == Ok::<(), CommandError>(())
                &&& current == monitor ==> r == s
                &&& current != monitor ==> r == (StateModel {
                    tree: forest::raised(s.tree, monitor->0),
                    has_focus_change: true,
                    ..s
                })
            }
        }),
{
}

/// Nothing can be focused where nothing is focused.
pub proof fn law_focus_needs_something_focused(
    s: StateModel,
    window: Option<ContainerId>,
    monitor: Option<ContainerId>,
)
    requires
        focus::focused_container(s.tree, s.root) is None,
        window is Some || monitor is Some,
    ensures
        handle_mouse_move::focus_outcome(s, window, monitor) == (
            s,
            Err::<(), CommandError>(CommandError::NoFocusedContainer),
        ),
{
}

/// No more is looked up than is needed: nothing for a release, or while paused.
/// The grabbed window for a press on Windows, the monitor during a drag, and
/// both the window and the monitor where focus follows the cursor.
pub proof fn law_lookups(
    s: StateModel,
    position: Point,
    button: MouseButton,
    pressed_buttons: Vec<MouseButton>,
    window_below_cursor: Option<WindowId>,
    config: UserConfig,
    platform: Platform,
)
    ensures
        ({
            let moved = MouseEvent::Move { position, pressed_buttons, window_below_cursor };
            let pressed = MouseEvent::ButtonDown { position, button, pressed_buttons };
            let released = MouseEvent::ButtonUp { position, button, pressed_buttons };
            let follows = s.drag_resize is None && !pressed_buttons@.contains(MouseButton::Left)
                && !pressed_buttons@.contains(MouseButton::Right) && s.is_focus_synced
                && config.focus_follows_cursor && (platform == Platform::Windows || platform
                == Platform::MacOs);
            &&& handle_mouse_move::spec_required_lookup(s, released, config, platform)
                == PointerQuery::Nothing
            &&& handle_mouse_move::spec_required_lookup(s, pressed, config, platform)
                == if !s.is_paused && platform == Platform::Windows {
                PointerQuery::GrabbedWindow
            } else {
                PointerQuery::Nothing
            }
            &&& handle_mouse_move::spec_required_lookup(s, moved, config, platform)
                == if s.is_paused {
                PointerQuery::Nothing
            } else if s.drag_move is Some {
                PointerQuery::Monitor
            } else if follows {
                PointerQuery::WindowAndMonitor
            } else {
                PointerQuery::Nothing
            }
        }),
{
}

/// The windows that are dragged are the managed ones with a drag.
pub proof fn law_dragged_windows(s: StateModel, x: ContainerId)
    ensures
        handle_mouse_move::is_dragged(s.tree, s.root, x) <==> is_managed(s, x)
            && s.tree[x as int].props.window.active_drag is Some,
{
}

/// Whether a coordinate is one that a screen may have.
pub open spec fn is_ordinary(value: int) -> bool {
    -0x1000_0000 <= value <= 0x1000_0000
}

/// Whether all coordinates of a rectangle are ordinary ones.
pub open spec fn is_ordinary_rect(rect: Rect) -> bool {
    is_ordinary(rect.left as int) && is_ordinary(rect.top as int) && is_ordinary(rect.right as int)
        && is_ordinary(rect.bottom as int)
}

/// Whether all coordinates of a state are ordinary ones.
pub open spec fn is_ordinary_state(s: StateModel) -> bool {
    &&& forall|x: ContainerId|
        x < s.tree.len() ==> is_ordinary_rect((#[trigger] s.tree[x as int]).props.window.frame)
            && is_ordinary_rect(s.tree[x as int].props.working_area)
    &&& s.drag_move matches Some(drag) ==> is_ordinary(drag.grab_offset.x as int) && is_ordinary(
        drag.grab_offset.y as int,
    )
    &&& s.drag_resize matches Some(drag) ==> is_ordinary_rect(drag.initial_rect) && is_ordinary(
        drag.initial_position.x as int,
    ) && is_ordinary(drag.initial_position.y as int)
}

/// Every event can be handled that happens amongst ordinary coordinates.
pub proof fn law_ordinary_events_can_be_handled(
    s: StateModel,
    event: MouseEvent,
    context: PointerContext,
)
    requires
        is_ordinary_state(s),
        context.window_rect matches Some(rect) ==> is_ordinary_rect(rect),
        context.monitor_at_cursor matches Some(m) ==> m < s.tree.len(),
        match event {
            MouseEvent::Move { position, .. } => is_ordinary(position.x as int) && is_ordinary(
                position.y as int,
            ),
            MouseEvent::ButtonDown { position, .. } => is_ordinary(position.x as int)
                && is_ordinary(position.y as int),
            MouseEvent::ButtonUp { position, .. } => is_ordinary(position.x as int) && is_ordinary(
                position.y as int,
            ),
        },
    ensures
        handle_mouse_move::mouse_in_range(s, event, context),
{
    if let Some(drag) = s.drag_move {
        if drag.window_id < s.tree.len() {
            assert(is_ordinary_rect(s.tree[drag.window_id as int].props.window.frame));
        }
    }
    if let Some(m) = context.monitor_at_cursor {
        assert(is_ordinary_rect(s.tree[m as int].props.working_area));
    }
}

/// Recording the frame of a window changes that, and nothing else.
pub proof fn law_recorded_frame(t: Forest, x: ContainerId, frame: Rect)
    requires
        x < t.len(),
    ensures
        differs_in_window(t, handle_mouse_move::framed(t, x, frame), x),
        handle_mouse_move::framed(t, x, frame)[x as int].props.window == (WindowProps {
            frame,
            ..t[x as int].props.window
        }),
{
}

} // verus!
