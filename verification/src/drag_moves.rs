//! Several moves of the cursor in a row, during a drag or a resize.

use vstd::prelude::*;

use crate::container::ContainerId;
use crate::drag_geometry;
use crate::error::CommandError;
use crate::forest::{self, Forest};
use crate::geometry::{self, Point, Rect};
use crate::handle_mouse_move::{self, MouseAction, PointerContext};
use crate::wm_state::{self, StateModel};

verus! {

/// The state after the cursor has been moved during a drag, and the native
/// window along with it.
pub open spec fn after_drag_move(
    s: StateModel,
    position: Point,
    context: PointerContext,
) -> StateModel {
    let (r, outcome) = handle_mouse_move::drag_move_outcome(s, position, context);
    match outcome {
        Ok(MouseAction::MoveWindow { window, rect }) => StateModel {
            tree: handle_mouse_move::framed(r.tree, window, rect),
            ..r
        },
        _ => r,
    }
}

/// The state after the cursor has been moved several times during a drag.
pub open spec fn after_drag_moves(
    s: StateModel,
    moves: Seq<(Point, PointerContext)>,
) -> StateModel
    decreases moves.len(),
{
    if moves.len() == 0 {
        s
    } else {
        after_drag_move(
            after_drag_moves(s, moves.drop_last()),
            moves.last().0,
            moves.last().1,
        )
    }
}

/// A rectangle that was moved by as much as the cursor, from `start` to
/// `position`.
pub open spec fn shifted(rect: Rect, start: Point, position: Point) -> Rect {
    Rect {
        left: (rect.left + (position.x - start.x)) as i32,
        top: (rect.top + (position.y - start.y)) as i32,
        right: (rect.right + (position.x - start.x)) as i32,
        bottom: (rect.bottom + (position.y - start.y)) as i32,
    }
}

/// Where a window belongs that the cursor has grabbed at `start`: it is moved
/// by as much as the cursor, and kept on the monitor under it.
pub open spec fn following(
    t: Forest,
    frame: Rect,
    start: Point,
    position: Point,
    monitor: Option<ContainerId>,
) -> Rect {
    match monitor {
        Some(m) => drag_geometry::clamped(
            shifted(frame, start, position),
            t[m as int].props.working_area,
        ),
        None => shifted(frame, start, position),
    }
}

/// Whether two rectangles have the same size.
pub open spec fn same_size(a: Rect, b: Rect) -> bool {
    &&& a.right - a.left == b.right - b.left
    &&& a.bottom - a.top == b.bottom - b.top
}

/// Whether a window is no larger than the work area of the monitor.
pub open spec fn fits_monitor(t: Forest, frame: Rect, monitor: Option<ContainerId>) -> bool {
    monitor matches Some(m) ==> {
        let area = t[m as int].props.working_area;
        &&& frame.right - frame.left <= area.right - area.left
        &&& frame.bottom - frame.top <= area.bottom - area.top
    }
}

/// Whether a window that the cursor has grabbed at `start` can be dragged to
/// a position within the range of coordinates.
pub open spec fn is_trackable(
    t: Forest,
    frame: Rect,
    start: Point,
    position: Point,
    monitor: Option<ContainerId>,
) -> bool {
    &&& geometry::fits_i32(frame.left + (position.x - start.x))
    &&& geometry::fits_i32(frame.top + (position.y - start.y))
    &&& geometry::fits_i32(frame.right + (position.x - start.x))
    &&& geometry::fits_i32(frame.bottom + (position.y - start.y))
    &&& monitor matches Some(m) ==> m < t.len() && drag_geometry::clamp_in_range(
        shifted(frame, start, position),
        t[m as int].props.working_area,
    )
}

/// Where a dragged window goes depends on the size of its frame, and not on
/// where the frame is by then.
pub proof fn law_drag_target_depends_on_the_size_alone(
    s: StateModel,
    window: ContainerId,
    start: Point,
    frame: Rect,
    position: Point,
    monitor: Option<ContainerId>,
)
    requires
        frame.measurable(),
        geometry::fits_i32(start.x - frame.left),
        geometry::fits_i32(start.y - frame.top),
        s.drag_move == handle_mouse_move::drag_started(s, window, start, frame).drag_move,
        same_size(s.tree[window as int].props.window.frame, frame),
        is_trackable(s.tree, frame, start, position, monitor),
    ensures
        handle_mouse_move::drag_in_range(s.tree, s.drag_move->0, position, monitor),
        handle_mouse_move::drag_target(s.tree, s.drag_move->0, position, monitor) == following(
            s.tree,
            frame,
            start,
            position,
            monitor,
        ),
        fits_monitor(s.tree, frame, monitor) ==> same_size(
            following(s.tree, frame, start, position, monitor),
            frame,
        ),
{
}

/// A window that was grabbed at `start` follows the cursor whatever the moves
/// of the cursor were before: after the last one it is where it was grabbed,
/// shifted by as much as the cursor has moved since then, and kept on the
/// monitor under the cursor. Its size stays the same, and so does everything
/// else, the drag included. The window must be no larger than the monitors.
pub proof fn law_earlier_drag_moves_do_not_matter(
    s: StateModel,
    window: ContainerId,
    start: Point,
    frame: Rect,
    moves: Seq<(Point, PointerContext)>,
)
    requires
        frame.measurable(),
        geometry::fits_i32(start.x - frame.left),
        geometry::fits_i32(start.y - frame.top),
        wm_state::is_window_of(s.tree, s.root, window),
        same_size(s.tree[window as int].props.window.frame, frame),
        moves.len() > 0,
        forall|i: int|
            0 <= i < moves.len() ==> {
                &&& is_trackable(
                    s.tree,
                    frame,
                    start,
                    (#[trigger] moves[i]).0,
                    moves[i].1.monitor_at_cursor,
                )
                &&& fits_monitor(s.tree, frame, moves[i].1.monitor_at_cursor)
            },
    ensures
        ({
            let grabbed = handle_mouse_move::drag_started(s, window, start, frame);
            let before = after_drag_moves(grabbed, moves.drop_last());
            let after = after_drag_moves(grabbed, moves);
            let position = moves.last().0;
            let context = moves.last().1;
            let target = following(s.tree, frame, start, position, context.monitor_at_cursor);
            &&& handle_mouse_move::drag_move_in_range(before, position, context.monitor_at_cursor)
            &&& handle_mouse_move::drag_move_outcome(before, position, context).1 is Ok
            &&& after == StateModel {
                tree: handle_mouse_move::framed(grabbed.tree, window, target),
                ..grabbed
            }
            &&& after.tree[window as int].props.window.frame == target
            &&& same_size(target, frame)
            &&& after.drag_move == grabbed.drag_move
        }),
    decreases moves.len(),
{
    let grabbed = handle_mouse_move::drag_started(s, window, start, frame);
    let init = moves.drop_last();
    let before = after_drag_moves(grabbed, init);
    let position = moves.last().0;
    let context = moves.last().1;
    let monitor = context.monitor_at_cursor;
    if init.len() > 0 {
        assert forall|i: int| 0 <= i < init.len() implies is_trackable(
            s.tree,
            frame,
            start,
            (#[trigger] init[i]).0,
            init[i].1.monitor_at_cursor,
        ) && fits_monitor(s.tree, frame, init[i].1.monitor_at_cursor) by {
            assert(init[i] == moves[i]);
        }
        law_earlier_drag_moves_do_not_matter(s, window, start, frame, init);
    }
    assert(moves[moves.len() - 1] == moves.last());
    forest::lemma_same_parents(s.tree, before.tree);
    assert(wm_state::is_window_of(before.tree, before.root, window));
    if let Some(m) = monitor {
        assert(before.tree[m as int].props.working_area == s.tree[m as int].props.working_area);
    }
    law_drag_target_depends_on_the_size_alone(before, window, start, frame, position, monitor);
    let target = following(s.tree, frame, start, position, monitor);
    assert(handle_mouse_move::framed(before.tree, window, target)
        =~= handle_mouse_move::framed(grabbed.tree, window, target));
}

/// Nothing is dragged without a drag.
pub proof fn law_moving_takes_a_drag(s: StateModel, position: Point, context: PointerContext)
    requires
        s.drag_move is None,
    ensures
        handle_mouse_move::drag_move_outcome(s, position, context) == (
            s,
            Err::<MouseAction, CommandError>(CommandError::NoActiveDrag),
        ),
{
}

/// The state after the cursor has been moved several times during a resize.
pub open spec fn after_resize_moves(s: StateModel, positions: Seq<Point>) -> StateModel
    decreases positions.len(),
{
    if positions.len() == 0 {
        s
    } else {
        handle_mouse_move::resize_move_outcome(
            after_resize_moves(s, positions.drop_last()),
            positions.last(),
        ).0
    }
}

/// A floating window is resized by as much as the cursor has moved since it
/// was grabbed, whatever the moves of the cursor were before: its place after
/// the last one follows from where it was grabbed. The resize goes on as it
/// was.
pub proof fn law_earlier_resize_moves_do_not_matter(s: StateModel, positions: Seq<Point>)
    requires
        s.drag_resize is Some,
        wm_state::is_window_of(s.tree, s.root, (s.drag_resize->0).window_id),
        handle_mouse_move::is_floating(s.tree, (s.drag_resize->0).window_id),
        positions.len() > 0,
    ensures
        ({
            let drag = s.drag_resize->0;
            let before = after_resize_moves(s, positions.drop_last());
            let after = after_resize_moves(s, positions);
            let position = positions.last();
            let target = drag_geometry::anchored(
                drag.initial_rect,
                drag.edges,
                handle_mouse_move::floating_width(drag, position),
                handle_mouse_move::floating_height(drag, position),
            );
            &&& handle_mouse_move::resize_move_in_range(s, position)
                == handle_mouse_move::resize_move_in_range(before, position)
            &&& handle_mouse_move::resize_move_outcome(before, position).1 == Ok::<
                MouseAction,
                CommandError,
            >(MouseAction::Nothing)
            &&& after == StateModel {
                tree: handle_mouse_move::placed(s.tree, drag.window_id, target),
                redraw: wm_state::queued(s.redraw, drag.window_id),
                ..s
            }
            &&& after.tree[drag.window_id as int].props.window.floating_placement == target
            &&& after.drag_resize == s.drag_resize
        }),
    decreases positions.len(),
{
    let drag = s.drag_resize->0;
    let init = positions.drop_last();
    let before = after_resize_moves(s, init);
    let position = positions.last();
    if init.len() > 0 {
        law_earlier_resize_moves_do_not_matter(s, init);
    }
    forest::lemma_same_parents(s.tree, before.tree);
    assert(wm_state::is_window_of(before.tree, before.root, drag.window_id));
    let target = drag_geometry::anchored(
        drag.initial_rect,
        drag.edges,
        handle_mouse_move::floating_width(drag, position),
        handle_mouse_move::floating_height(drag, position),
    );
    assert(handle_mouse_move::placed(before.tree, drag.window_id, target)
        =~= handle_mouse_move::placed(s.tree, drag.window_id, target));
    if init.len() > 0 && !s.redraw.contains(drag.window_id) {
        assert(before.redraw.last() == drag.window_id);
    }
}

/// A resize ends when its window is gone.
pub proof fn law_resize_ends_with_its_window(s: StateModel, position: Point)
    requires
        s.drag_resize is Some,
        !wm_state::is_window_of(s.tree, s.root, (s.drag_resize->0).window_id),
    ensures
        handle_mouse_move::resize_move_outcome(s, position) == (
            StateModel { drag_resize: None, ..s },
            Ok::<MouseAction, CommandError>(MouseAction::Nothing),
        ),
{
}

} // verus!
