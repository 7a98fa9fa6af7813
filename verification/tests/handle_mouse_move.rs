//! Reactions to the mouse.

use glazewm::container::{
    ActiveDrag, ActiveDragOperation, ContainerId, ContainerKind, ContainerProps, GapsConfig,
    WindowProps, WindowState,
};
use glazewm::drag_geometry::{anchored_rect, clamp_rect_to_area};
use glazewm::error::CommandError;
use glazewm::geometry::{Point, Rect, ResizeEdges, TilingDirection};
use glazewm::handle_mouse_move::{
    active_drag_windows, handle_drag_end, handle_drag_move, handle_mouse_move, handle_resize_move,
    record_drag_start, record_frame, required_lookup, MouseAction, Platform, PointerContext,
    PointerQuery, WindowLookup,
};
use glazewm::mouse_event::{MouseButton, MouseEvent};
use glazewm::mouse_hook::{
    interceptable_event, MouseButtonEvent, WM_LBUTTONDOWN, WM_LBUTTONUP, WM_RBUTTONDOWN,
    WM_RBUTTONUP,
};
use glazewm::mouse_range::is_mouse_in_range;
use glazewm::tree::Tree;
use glazewm::user_config::UserConfig;
use glazewm::wm_state::{DragMove, DragResize, WmState};

#[test]
fn resize_edges_from_grab_point() {
    let rect = Rect::from_xy(100, 100, 400, 200);

    // Top-left quadrant.
    let edges = ResizeEdges::from_grab_point(&rect, &Point { x: 150, y: 150 });
    assert!(!edges.is_right);
    assert!(!edges.is_bottom);

    // Bottom-right quadrant.
    let edges = ResizeEdges::from_grab_point(&rect, &Point { x: 450, y: 250 });
    assert!(edges.is_right);
    assert!(edges.is_bottom);

    // Top-right quadrant.
    let edges = ResizeEdges::from_grab_point(&rect, &Point { x: 450, y: 150 });
    assert!(edges.is_right);
    assert!(!edges.is_bottom);
}

#[test]
fn size_delta_follows_grabbed_edges() {
    let bottom_right = ResizeEdges { is_right: true, is_bottom: true };

    // Dragging away from the top-left grows the window.
    assert_eq!(bottom_right.size_delta(30, 20), (30, 20));

    let top_left = ResizeEdges { is_right: false, is_bottom: false };

    // Dragging away from the bottom-right grows the window.
    assert_eq!(top_left.size_delta(-30, -20), (30, 20));
}

#[test]
fn anchors_rect_to_opposite_edges() {
    let rect = Rect::from_xy(100, 100, 400, 200);

    // Dragging the bottom-right edges keeps the top-left in place.
    let resized = anchored_rect(&rect, ResizeEdges { is_right: true, is_bottom: true }, 500, 300);
    assert_eq!(resized, Rect::from_xy(100, 100, 500, 300));

    // Dragging the top-left edges keeps the bottom-right in place.
    let resized =
        anchored_rect(&rect, ResizeEdges { is_right: false, is_bottom: false }, 500, 300);
    assert_eq!(resized, Rect::from_xy(0, 0, 500, 300));
    assert_eq!(resized.right, rect.right);
    assert_eq!(resized.bottom, rect.bottom);
}

#[test]
fn clamps_rect_within_area() {
    let area = Rect::from_xy(100, 100, 1920, 1080);
    // Window dragged far to the right/bottom.
    let rect = Rect::from_xy(5000, 5000, 800, 600);

    let clamped = clamp_rect_to_area(&rect, &area);

    // Right/bottom edge should align with the area.
    assert_eq!(clamped.right, 100 + 1920);
    assert_eq!(clamped.bottom, 100 + 1080);
}

#[test]
fn clamps_rect_to_negative_edge() {
    let area = Rect::from_xy(100, 100, 1920, 1080);
    // Window dragged far off the top-left.
    let rect = Rect::from_xy(-5000, -5000, 800, 600);

    let clamped = clamp_rect_to_area(&rect, &area);

    // Top-left edge should align with the area.
    assert_eq!(clamped.x(), 100);
    assert_eq!(clamped.y(), 100);
}

#[test]
fn keeps_rect_unchanged_when_inside() {
    let area = Rect::from_xy(100, 100, 1920, 1080);
    let rect = Rect::from_xy(200, 200, 800, 600);

    let clamped = clamp_rect_to_area(&rect, &area);

    assert_eq!(clamped, rect);
}

#[test]
fn shrinks_rect_if_larger_than_area() {
    let area = Rect::from_xy(0, 0, 1000, 1000);
    let rect = Rect::from_xy(-50, -50, 3000, 3000);

    let clamped = clamp_rect_to_area(&rect, &area);

    assert_eq!(clamped.width(), 1000);
    assert_eq!(clamped.height(), 1000);
    assert_eq!(clamped.x(), 0);
    assert_eq!(clamped.y(), 0);
}

const FRAME: Rect = Rect { left: 100, top: 50, right: 500, bottom: 350 };

fn props(kind: ContainerKind, native_id: u64, state: WindowState) -> ContainerProps {
    ContainerProps {
        kind,
        tiling_direction: TilingDirection::Horizontal,
        tiling_size: 1.0f32.to_bits(),
        gaps: GapsConfig { inner_gap: 0, outer_gap: 0 },
        working_area: Rect { left: 0, top: 0, right: 1920, bottom: 1080 },
        window: WindowProps {
            native_id,
            state,
            frame: FRAME,
            floating_placement: FRAME,
            active_drag: None,
        },
    }
}

struct Desk {
    state: WmState,
    tiling: ContainerId,
    floating: ContainerId,
    monitor: ContainerId,
    other_monitor: ContainerId,
}

/// Two monitors, the first of which has a workspace with a tiling and a
/// floating window.
fn desk() -> Desk {
    let mut tree = Tree::new();
    let root = tree.add(props(ContainerKind::Root, 0, WindowState::Tiling));
    let monitor = tree.add(props(ContainerKind::Monitor, 0, WindowState::Tiling));
    let other_monitor = tree.add(props(ContainerKind::Monitor, 0, WindowState::Tiling));
    let workspace = tree.add(props(ContainerKind::Workspace, 0, WindowState::Tiling));
    let tiling = tree.add(props(ContainerKind::TilingWindow, 71, WindowState::Tiling));
    let floating = tree.add(props(ContainerKind::NonTilingWindow, 72, WindowState::Floating));
    tree.attach(monitor, root, 0);
    tree.attach(other_monitor, root, 1);
    tree.attach(workspace, monitor, 0);
    tree.attach(tiling, workspace, 0);
    tree.attach(floating, workspace, 1);
    Desk { state: WmState::new(tree, root), tiling, floating, monitor, other_monitor }
}

fn context(platform: Platform) -> PointerContext {
    PointerContext {
        platform,
        is_win_key_down: true,
        window_at_cursor: WindowLookup::Nothing,
        window_rect: None,
        monitor_at_cursor: None,
    }
}

fn moved(x: i32, y: i32, pressed_buttons: Vec<MouseButton>) -> MouseEvent {
    MouseEvent::Move { position: Point { x, y }, pressed_buttons, window_below_cursor: None }
}

fn pressed(x: i32, y: i32, button: MouseButton) -> MouseEvent {
    MouseEvent::ButtonDown { position: Point { x, y }, button, pressed_buttons: vec![button] }
}

fn released(x: i32, y: i32, button: MouseButton) -> MouseEvent {
    MouseEvent::ButtonUp { position: Point { x, y }, button, pressed_buttons: vec![] }
}

const FOLLOWING: UserConfig = UserConfig { focus_follows_cursor: true };

#[test]
fn paused_manager_ignores_the_mouse() {
    let mut desk = desk();
    desk.state.is_paused = true;
    let context =
        PointerContext { window_at_cursor: WindowLookup::Failed, ..context(Platform::Windows) };

    let result = handle_mouse_move(
        &pressed(150, 100, MouseButton::Right),
        &mut desk.state,
        &FOLLOWING,
        &context,
    );

    assert_eq!(result, Ok(MouseAction::Nothing));
    assert_eq!(
        required_lookup(&moved(0, 0, vec![]), &desk.state, &FOLLOWING, Platform::Windows),
        PointerQuery::Nothing
    );
}

#[test]
fn drag_moves_a_tiling_window_with_the_cursor() {
    let mut desk = desk();
    let context = PointerContext {
        window_at_cursor: WindowLookup::Found(71),
        ..context(Platform::Windows)
    };

    let start = handle_mouse_move(
        &pressed(150, 100, MouseButton::Left),
        &mut desk.state,
        &FOLLOWING,
        &context,
    );
    assert_eq!(
        start,
        Ok(MouseAction::StartDrag { window: desk.tiling, frame: FRAME, is_centered: false })
    );

    record_drag_start(&mut desk.state, desk.tiling, &Point { x: 150, y: 100 }, &FRAME);
    assert_eq!(
        desk.state.drag_move,
        Some(DragMove { window_id: desk.tiling, grab_offset: Point { x: 50, y: 50 } })
    );
    assert_eq!(
        desk.state.tree.container(desk.tiling).props.window.active_drag,
        Some(ActiveDrag {
            operation: Some(ActiveDragOperation::Move),
            is_from_floating: false,
            initial_position: FRAME,
        })
    );
    assert_eq!(active_drag_windows(&desk.state), vec![desk.tiling]);

    // The window is as far from where it was as the cursor.
    let action = handle_mouse_move(
        &moved(170, 130, vec![MouseButton::Left]),
        &mut desk.state,
        &FOLLOWING,
        &context,
    );
    let rect = Rect::from_xy(120, 80, 400, 300);
    assert_eq!(action, Ok(MouseAction::MoveWindow { window: desk.tiling, rect }));
    record_frame(&mut desk.state, desk.tiling, &rect);
    assert_eq!(desk.state.tree.container(desk.tiling).props.window.frame, rect);

    let end = handle_mouse_move(
        &released(170, 130, MouseButton::Left),
        &mut desk.state,
        &FOLLOWING,
        &context,
    );
    assert_eq!(end, Ok(MouseAction::EndDrag { window: desk.tiling }));
    assert_eq!(desk.state.drag_move, None);
}

#[test]
fn dragged_window_stays_on_the_monitor() {
    let mut desk = desk();
    record_drag_start(&mut desk.state, desk.tiling, &Point { x: 150, y: 100 }, &FRAME);
    let context = PointerContext {
        monitor_at_cursor: Some(desk.monitor),
        ..context(Platform::Windows)
    };

    let action = handle_drag_move(&Point { x: 1900, y: 20 }, &mut desk.state, &context);

    assert_eq!(
        action,
        Ok(MouseAction::MoveWindow {
            window: desk.tiling,
            rect: Rect::from_xy(1520, 0, 400, 300),
        })
    );
}

#[test]
fn frame_is_tracked_where_windows_are_not_moved() {
    let mut desk = desk();
    record_drag_start(&mut desk.state, desk.tiling, &Point { x: 150, y: 100 }, &FRAME);

    let action =
        handle_drag_move(&Point { x: 151, y: 102 }, &mut desk.state, &context(Platform::Other));

    assert_eq!(action, Ok(MouseAction::Nothing));
    assert_eq!(
        desk.state.tree.container(desk.tiling).props.window.frame,
        Rect::from_xy(101, 52, 400, 300)
    );
    assert_eq!(handle_drag_end(&mut desk.state, &context(Platform::Other)), Ok(MouseAction::Nothing));
}

#[test]
fn tells_why_a_drag_is_refused() {
    let mut desk = desk();
    let at = Point { x: 0, y: 0 };
    let windows = context(Platform::Windows);
    assert_eq!(handle_drag_move(&at, &mut desk.state, &windows), Err(CommandError::NoActiveDrag));
    assert_eq!(handle_drag_end(&mut desk.state, &windows), Err(CommandError::NoActiveDrag));
    assert_eq!(handle_resize_move(&at, &mut desk.state), Err(CommandError::NoActiveResize));

    let gone = DragMove { window_id: desk.monitor, grab_offset: at };
    desk.state.drag_move = Some(gone);
    assert_eq!(
        handle_drag_move(&at, &mut desk.state, &windows),
        Err(CommandError::DraggedWindowGone)
    );
    assert_eq!(handle_drag_end(&mut desk.state, &windows), Err(CommandError::DraggedWindowGone));
    assert_eq!(desk.state.drag_move, Some(gone));
}

#[test]
fn drag_takes_a_tiling_window_and_the_modifier() {
    let mut desk = desk();
    let event = pressed(150, 100, MouseButton::Left);
    let nothing = Ok(MouseAction::Nothing);

    for context in [
        PointerContext { is_win_key_down: false, ..context(Platform::Windows) },
        PointerContext {
            window_at_cursor: WindowLookup::Found(71),
            ..context(Platform::MacOs)
        },
        PointerContext {
            window_at_cursor: WindowLookup::Found(72),
            ..context(Platform::Windows)
        },
        PointerContext {
            window_at_cursor: WindowLookup::Found(1),
            ..context(Platform::Windows)
        },
        context(Platform::Windows),
    ] {
        assert_eq!(handle_mouse_move(&event, &mut desk.state, &FOLLOWING, &context), nothing);
    }

    let failed =
        PointerContext { window_at_cursor: WindowLookup::Failed, ..context(Platform::Windows) };
    assert_eq!(
        handle_mouse_move(&event, &mut desk.state, &FOLLOWING, &failed),
        Err(CommandError::WindowLookupFailed)
    );
}

#[test]
fn resize_focuses_and_moves_a_floating_window() {
    let mut desk = desk();
    let context = PointerContext {
        window_at_cursor: WindowLookup::Found(72),
        window_rect: Some(FRAME),
        ..context(Platform::Windows)
    };

    let start = handle_mouse_move(
        &pressed(150, 300, MouseButton::Right),
        &mut desk.state,
        &FOLLOWING,
        &context,
    );
    assert_eq!(start, Ok(MouseAction::Nothing));
    assert!(desk.state.tree.has_focus(desk.floating));
    assert!(desk.state.pending_sync.has_focus_change);
    assert_eq!(
        desk.state.drag_resize,
        Some(DragResize {
            window_id: desk.floating,
            initial_position: Point { x: 150, y: 300 },
            edges: ResizeEdges { is_right: false, is_bottom: true },
            initial_rect: FRAME,
        })
    );

    // The left and the bottom edge follow the cursor.
    let event = moved(140, 325, vec![MouseButton::Right]);
    assert_eq!(
        handle_mouse_move(&event, &mut desk.state, &FOLLOWING, &context),
        Ok(MouseAction::Nothing)
    );
    assert_eq!(
        desk.state.tree.container(desk.floating).props.window.floating_placement,
        Rect { left: 90, top: 50, right: 500, bottom: 375 }
    );
    assert_eq!(desk.state.pending_sync.containers_to_redraw, vec![desk.floating]);

    // The release counts as a move, and ends the resize.
    let event = released(1000, -1000, MouseButton::Right);
    assert_eq!(
        handle_mouse_move(&event, &mut desk.state, &FOLLOWING, &context),
        Ok(MouseAction::Nothing)
    );
    assert_eq!(
        desk.state.tree.container(desk.floating).props.window.floating_placement,
        Rect { left: 250, top: 50, right: 500, bottom: 190 }
    );
    assert_eq!(desk.state.drag_resize, None);
}

#[test]
fn resize_of_a_tiling_window_is_left_to_the_layout() {
    let mut desk = desk();
    desk.state.drag_resize = Some(DragResize {
        window_id: desk.tiling,
        initial_position: Point { x: 450, y: 300 },
        edges: ResizeEdges { is_right: true, is_bottom: true },
        initial_rect: FRAME,
    });

    assert_eq!(
        handle_resize_move(&Point { x: 470, y: 290 }, &mut desk.state),
        Ok(MouseAction::ResizeWindow { window: desk.tiling, width: 420, height: 290 })
    );
    // Back at the start, the size is the initial one.
    assert_eq!(
        handle_resize_move(&Point { x: 450, y: 300 }, &mut desk.state),
        Ok(MouseAction::ResizeWindow { window: desk.tiling, width: 400, height: 300 })
    );
}

#[test]
fn resize_ends_when_the_release_was_missed() {
    let mut desk = desk();
    let resize = DragResize {
        window_id: desk.tiling,
        initial_position: Point { x: 0, y: 0 },
        edges: ResizeEdges { is_right: true, is_bottom: true },
        initial_rect: FRAME,
    };
    desk.state.drag_resize = Some(resize);
    let result = handle_mouse_move(
        &moved(10, 10, vec![]),
        &mut desk.state,
        &FOLLOWING,
        &context(Platform::Windows),
    );
    assert_eq!(result, Ok(MouseAction::Nothing));
    assert_eq!(desk.state.drag_resize, None);

    // So it does when the window is gone.
    desk.state.drag_resize = Some(DragResize { window_id: 1_000_000, ..resize });
    assert_eq!(
        handle_resize_move(&Point { x: 0, y: 0 }, &mut desk.state),
        Ok(MouseAction::Nothing)
    );
    assert_eq!(desk.state.drag_resize, None);
}

#[test]
fn resize_without_a_rect_still_focuses() {
    let mut desk = desk();
    let context = PointerContext {
        window_at_cursor: WindowLookup::Found(72),
        ..context(Platform::Windows)
    };

    let result = handle_mouse_move(
        &pressed(150, 300, MouseButton::Right),
        &mut desk.state,
        &FOLLOWING,
        &context,
    );

    assert_eq!(result, Err(CommandError::NoRect));
    assert!(desk.state.tree.has_focus(desk.floating));
    assert_eq!(desk.state.drag_resize, None);
}

#[test]
fn focus_follows_the_cursor_onto_windows() {
    let mut desk = desk();
    let on_floating = PointerContext {
        window_at_cursor: WindowLookup::Found(72),
        ..context(Platform::Windows)
    };
    let event = moved(200, 200, vec![]);
    assert_eq!(
        required_lookup(&event, &desk.state, &FOLLOWING, Platform::Windows),
        PointerQuery::WindowAndMonitor
    );

    // Not while a button is down, out of sync, or disabled.
    let with_button = moved(200, 200, vec![MouseButton::Left]);
    let disabled = UserConfig { focus_follows_cursor: false };
    handle_mouse_move(&with_button, &mut desk.state, &FOLLOWING, &on_floating).unwrap();
    handle_mouse_move(&event, &mut desk.state, &disabled, &on_floating).unwrap();
    desk.state.is_focus_synced = false;
    handle_mouse_move(&event, &mut desk.state, &FOLLOWING, &on_floating).unwrap();
    assert!(desk.state.tree.has_focus(desk.tiling));
    assert!(!desk.state.pending_sync.has_focus_change);

    desk.state.is_focus_synced = true;
    handle_mouse_move(&event, &mut desk.state, &FOLLOWING, &on_floating).unwrap();
    assert!(desk.state.tree.has_focus(desk.floating));
    assert!(desk.state.pending_sync.has_focus_change);
}

#[test]
fn focus_follows_what_the_event_reports_on_mac() {
    let mut desk = desk();
    let event = MouseEvent::Move {
        position: Point { x: 0, y: 0 },
        pressed_buttons: vec![],
        window_below_cursor: Some(72),
    };

    handle_mouse_move(&event, &mut desk.state, &FOLLOWING, &context(Platform::MacOs)).unwrap();

    assert!(desk.state.tree.has_focus(desk.floating));
}

#[test]
fn focus_follows_the_cursor_onto_monitors() {
    let mut desk = desk();
    let event = moved(3000, 200, vec![]);

    let same = PointerContext {
        monitor_at_cursor: Some(desk.monitor),
        ..context(Platform::Windows)
    };
    handle_mouse_move(&event, &mut desk.state, &FOLLOWING, &same).unwrap();
    assert!(!desk.state.pending_sync.has_focus_change);

    let other = PointerContext { monitor_at_cursor: Some(desk.other_monitor), ..same };
    handle_mouse_move(&event, &mut desk.state, &FOLLOWING, &other).unwrap();
    assert_eq!(desk.state.focused_container(), Some(desk.other_monitor));
    assert!(desk.state.pending_sync.has_focus_change);

    assert_eq!(
        handle_mouse_move(&event, &mut desk.state, &FOLLOWING, &context(Platform::Windows)),
        Err(CommandError::NoMonitorUnderCursor)
    );
}

#[test]
fn focus_needs_something_focused() {
    let mut tree = Tree::new();
    let root = tree.add(props(ContainerKind::Root, 0, WindowState::Tiling));
    let monitor = tree.add(props(ContainerKind::Monitor, 0, WindowState::Tiling));
    let mut state = WmState::new(tree, root);
    let at_monitor =
        PointerContext { monitor_at_cursor: Some(monitor), ..context(Platform::Windows) };
    assert_eq!(
        handle_mouse_move(&moved(0, 0, vec![]), &mut state, &FOLLOWING, &at_monitor),
        Err(CommandError::NoFocusedContainer)
    );

    let mut tree = Tree::new();
    let root = tree.add(props(ContainerKind::Root, 0, WindowState::Tiling));
    let workspace = tree.add(props(ContainerKind::Workspace, 0, WindowState::Tiling));
    tree.attach(workspace, root, 0);
    let monitor = tree.add(props(ContainerKind::Monitor, 0, WindowState::Tiling));
    let mut state = WmState::new(tree, root);
    let at_monitor = PointerContext { monitor_at_cursor: Some(monitor), ..at_monitor };
    assert_eq!(
        handle_mouse_move(&moved(0, 0, vec![]), &mut state, &FOLLOWING, &at_monitor),
        Err(CommandError::NoFocusedMonitor)
    );
}

#[test]
fn drags_are_finished_on_release_on_mac() {
    let mut desk = desk();
    let mac = context(Platform::MacOs);
    let left = released(0, 0, MouseButton::Left);
    let right = released(0, 0, MouseButton::Right);
    assert_eq!(
        handle_mouse_move(&left, &mut desk.state, &FOLLOWING, &mac),
        Ok(MouseAction::FinishDrags)
    );
    assert_eq!(
        handle_mouse_move(&right, &mut desk.state, &FOLLOWING, &mac),
        Ok(MouseAction::Nothing)
    );
}

#[test]
fn range_of_coordinates_is_checked() {
    let mut desk = desk();
    record_drag_start(&mut desk.state, desk.tiling, &Point { x: 150, y: 100 }, &FRAME);
    let windows = context(Platform::Windows);
    assert!(is_mouse_in_range(&moved(1000, 0, vec![]), &desk.state, &windows));
    assert!(!is_mouse_in_range(&moved(i32::MAX, 0, vec![]), &desk.state, &windows));
    assert!(!is_mouse_in_range(&moved(0, i32::MIN, vec![]), &desk.state, &windows));

    desk.state.drag_move = None;
    desk.state.drag_resize = Some(DragResize {
        window_id: desk.floating,
        initial_position: Point { x: -10, y: 0 },
        edges: ResizeEdges { is_right: true, is_bottom: true },
        initial_rect: FRAME,
    });
    let held = vec![MouseButton::Right];
    assert!(is_mouse_in_range(&moved(900, 0, held.clone()), &desk.state, &windows));
    assert!(!is_mouse_in_range(&moved(i32::MAX, 0, held), &desk.state, &windows));
}

#[test]
fn hook_asks_about_buttons_only() {
    let event = |button, is_press| Some(MouseButtonEvent { button, is_press });
    assert_eq!(interceptable_event(0, WM_LBUTTONDOWN, 0, 9), event(MouseButton::Left, true));
    assert_eq!(interceptable_event(0, WM_LBUTTONUP, 0, 9), event(MouseButton::Left, false));
    assert_eq!(interceptable_event(0, WM_RBUTTONDOWN, 0, 9), event(MouseButton::Right, true));
    assert_eq!(interceptable_event(0, WM_RBUTTONUP, 0, 9), event(MouseButton::Right, false));

    // Moves, other codes, and synthesized input are passed on.
    assert_eq!(interceptable_event(0, 0x0200, 0, 9), None);
    assert_eq!(interceptable_event(-1, WM_LBUTTONDOWN, 0, 9), None);
    assert_eq!(interceptable_event(0, WM_LBUTTONDOWN, 9, 9), None);
}

#[test]
fn earlier_drag_moves_do_not_matter() {
    for platform in [Platform::Windows, Platform::Other] {
        let mut desk = desk();
        let start = Point { x: 150, y: 100 };
        record_drag_start(&mut desk.state, desk.tiling, &start, &FRAME);
        let drag_move = desk.state.drag_move;

        for (x, y, monitor, expected) in [
            (-4000, 20, Some(desk.monitor), Rect::from_xy(0, 0, 400, 300)),
            (5000, 5000, Some(desk.other_monitor), Rect::from_xy(1520, 780, 400, 300)),
            (-4000, 20, None, Rect::from_xy(-4050, -30, 400, 300)),
            (153, 104, Some(desk.monitor), Rect::from_xy(103, 54, 400, 300)),
        ] {
            let context = PointerContext { monitor_at_cursor: monitor, ..context(platform) };
            let action = handle_drag_move(&Point { x, y }, &mut desk.state, &context).unwrap();
            if let MouseAction::MoveWindow { window, rect } = action {
                record_frame(&mut desk.state, window, &rect);
            }
            assert_eq!(desk.state.tree.container(desk.tiling).props.window.frame, expected);
            assert_eq!(desk.state.drag_move, drag_move);
        }
    }
}

#[test]
fn earlier_resize_moves_do_not_matter() {
    let mut desk = desk();
    let drag = DragResize {
        window_id: desk.floating,
        initial_position: Point { x: 450, y: 300 },
        edges: ResizeEdges { is_right: true, is_bottom: true },
        initial_rect: FRAME,
    };
    desk.state.drag_resize = Some(drag);

    for (x, y) in [(-900, -900), (700, 310), (460, 280)] {
        let outcome = handle_resize_move(&Point { x, y }, &mut desk.state);
        assert_eq!(outcome, Ok(MouseAction::Nothing));
        assert_eq!(desk.state.drag_resize, Some(drag));
    }

    assert_eq!(
        desk.state.tree.container(desk.floating).props.window.floating_placement,
        Rect::from_xy(100, 50, 410, 280)
    );
    assert_eq!(desk.state.pending_sync.containers_to_redraw, vec![desk.floating]);
}

#[test]
fn resize_ends_with_its_window() {
    let mut desk = desk();
    desk.state.drag_resize = Some(DragResize {
        window_id: desk.monitor,
        initial_position: Point { x: 0, y: 0 },
        edges: ResizeEdges { is_right: true, is_bottom: true },
        initial_rect: FRAME,
    });

    let outcome = handle_resize_move(&Point { x: 5, y: 5 }, &mut desk.state);

    assert_eq!(outcome, Ok(MouseAction::Nothing));
    assert_eq!(desk.state.drag_resize, None);
}

#[test]
fn validity_of_a_state_is_checked() {
    let mut desk = desk();
    assert!(desk.state.is_valid());

    let root = desk.state.root;
    desk.state.root = desk.monitor;
    assert!(!desk.state.is_valid());
    desk.state.root = desk.state.tree.len();
    assert!(!desk.state.is_valid());
    desk.state.root = root;
    assert!(desk.state.is_valid());

    desk.state.pending_sync.containers_to_redraw = vec![desk.tiling, desk.floating];
    assert!(desk.state.is_valid());
    desk.state.pending_sync.containers_to_redraw.push(desk.tiling);
    assert!(!desk.state.is_valid());
}
