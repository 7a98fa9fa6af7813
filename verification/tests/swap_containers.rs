//! Swapping containers.

use glazewm::container::{
    ContainerId, ContainerKind, ContainerProps, GapsConfig, WindowProps, WindowState,
};
use glazewm::error::CommandError;
use glazewm::geometry::{Direction, Rect, TilingDirection};
use glazewm::swap_containers::swap_containers;
use glazewm::swap_window_in_direction::swap_window_in_direction;
use glazewm::tree::Tree;
use glazewm::wm_state::{WmEvent, WmState};

fn props(kind: ContainerKind, tiling_direction: TilingDirection) -> ContainerProps {
    let rect = Rect { left: 0, top: 0, right: 0, bottom: 0 };
    ContainerProps {
        kind,
        tiling_direction,
        tiling_size: 1.0f32.to_bits(),
        gaps: GapsConfig { inner_gap: 0, outer_gap: 0 },
        working_area: rect,
        window: WindowProps {
            native_id: 0,
            state: WindowState::Tiling,
            frame: rect,
            floating_placement: rect,
            active_drag: None,
        },
    }
}

fn window(tree: &mut Tree) -> ContainerId {
    tree.add(props(ContainerKind::TilingWindow, TilingDirection::Horizontal))
}

fn parent_of(
    tree: &mut Tree,
    kind: ContainerKind,
    direction: TilingDirection,
    children: &[ContainerId],
) -> ContainerId {
    let id = tree.add(props(kind, direction));
    for (index, child) in children.iter().enumerate() {
        tree.attach(*child, id, index);
    }
    id
}

fn tiling_size(tree: &Tree, id: ContainerId) -> f32 {
    f32::from_bits(tree.container(id).props.tiling_size)
}

#[test]
fn swaps_siblings_and_keeps_slot_sizes() {
    let mut tree = Tree::new();
    let window_a = window(&mut tree);
    let window_b = window(&mut tree);
    let workspace = parent_of(
        &mut tree,
        ContainerKind::Workspace,
        TilingDirection::Horizontal,
        &[window_a, window_b],
    );

    tree.set_tiling_size(window_a, 0.7f32.to_bits());
    tree.set_tiling_size(window_b, 0.3f32.to_bits());

    swap_containers(&mut tree, window_a, window_b).unwrap();

    let children = &tree.container(workspace).children;
    assert_eq!(children[0], window_b);
    assert_eq!(children[1], window_a);

    // The first slot should still take up 70% of the workspace.
    assert!((tiling_size(&tree, window_b) - 0.7).abs() < f32::EPSILON);
    assert!((tiling_size(&tree, window_a) - 0.3).abs() < f32::EPSILON);
}

#[test]
fn swaps_containers_across_parents() {
    let mut tree = Tree::new();
    let window_a = window(&mut tree);
    let window_b = window(&mut tree);
    let window_c = window(&mut tree);
    let split = parent_of(
        &mut tree,
        ContainerKind::Split,
        TilingDirection::Vertical,
        &[window_b, window_c],
    );
    let workspace = parent_of(
        &mut tree,
        ContainerKind::Workspace,
        TilingDirection::Horizontal,
        &[window_a, split],
    );

    tree.set_tiling_size(window_a, 0.6f32.to_bits());
    tree.set_tiling_size(window_b, 0.4f32.to_bits());

    swap_containers(&mut tree, window_a, window_b).unwrap();

    assert_eq!(tree.container(workspace).children[0], window_b);
    assert_eq!(tree.container(split).children[0], window_a);
    assert_eq!(tree.container(window_a).parent.unwrap(), split);
    assert_eq!(tree.container(window_b).parent.unwrap(), workspace);

    // Sizes stay with the slot, not with the window.
    assert!((tiling_size(&tree, window_b) - 0.6).abs() < f32::EPSILON);
    assert!((tiling_size(&tree, window_a) - 0.4).abs() < f32::EPSILON);

    // The untouched sibling should keep its position.
    assert_eq!(tree.container(split).children[1], window_c);
}

#[test]
fn preserves_focus_of_the_focused_container() {
    let mut tree = Tree::new();
    let window_a = window(&mut tree);
    let window_b = window(&mut tree);
    let window_c = window(&mut tree);
    let split = parent_of(
        &mut tree,
        ContainerKind::Split,
        TilingDirection::Vertical,
        &[window_b, window_c],
    );
    let _workspace = parent_of(
        &mut tree,
        ContainerKind::Workspace,
        TilingDirection::Horizontal,
        &[window_a, split],
    );

    tree.set_focused_descendant(window_a);
    assert!(tree.has_focus(window_a));

    swap_containers(&mut tree, window_a, window_b).unwrap();

    // Focus should follow the window into its new parent.
    assert!(tree.has_focus(window_a));
    assert!(!tree.has_focus(window_b));
}

#[test]
fn rejects_swapping_a_container_with_its_ancestor() {
    let mut tree = Tree::new();
    let window_a = window(&mut tree);
    let other = window(&mut tree);
    let split = parent_of(
        &mut tree,
        ContainerKind::Split,
        TilingDirection::Horizontal,
        &[window_a, other],
    );
    let _workspace = parent_of(
        &mut tree,
        ContainerKind::Workspace,
        TilingDirection::Horizontal,
        &[split],
    );

    assert!(swap_containers(&mut tree, window_a, split).is_err());
    assert!(swap_containers(&mut tree, window_a, window_a).is_err());
}

#[test]
fn tells_why_a_swap_is_refused() {
    let mut tree = Tree::new();
    let window_a = window(&mut tree);
    let window_b = window(&mut tree);
    let split = parent_of(
        &mut tree,
        ContainerKind::Split,
        TilingDirection::Horizontal,
        &[window_a],
    );

    assert_eq!(
        swap_containers(&mut tree, window_a, window_a),
        Err(CommandError::SwapWithSelf)
    );
    assert_eq!(
        swap_containers(&mut tree, window_a, split),
        Err(CommandError::SwapWithAncestor)
    );
    assert_eq!(
        swap_containers(&mut tree, split, window_a),
        Err(CommandError::SwapWithAncestor)
    );
    assert_eq!(
        swap_containers(&mut tree, window_a, window_b),
        Err(CommandError::NoParent)
    );
    assert_eq!(
        CommandError::SwapWithSelf.message(),
        "Cannot swap a container with itself."
    );
}

#[test]
fn swapping_siblings_trades_their_focus_order() {
    let mut tree = Tree::new();
    let window_a = window(&mut tree);
    let window_b = window(&mut tree);
    let window_c = window(&mut tree);
    let workspace = parent_of(
        &mut tree,
        ContainerKind::Workspace,
        TilingDirection::Horizontal,
        &[window_a, window_b, window_c],
    );

    swap_containers(&mut tree, window_b, window_c).unwrap();
    assert_eq!(tree.container(workspace).children, vec![window_a, window_c, window_b]);
    assert_eq!(tree.container(workspace).focus_order, vec![window_a, window_c, window_b]);
}

#[test]
fn swapping_twice_restores_the_tree() {
    let mut tree = Tree::new();
    let focused = window(&mut tree);
    let window_a = window(&mut tree);
    let window_b = window(&mut tree);
    let window_c = window(&mut tree);
    let split = parent_of(
        &mut tree,
        ContainerKind::Split,
        TilingDirection::Vertical,
        &[window_b, window_c],
    );
    let workspace = parent_of(
        &mut tree,
        ContainerKind::Workspace,
        TilingDirection::Horizontal,
        &[focused, window_a, split],
    );

    swap_containers(&mut tree, window_a, window_c).unwrap();
    assert_eq!(tree.container(workspace).children, vec![focused, window_c, split]);
    assert_eq!(tree.container(split).children, vec![window_b, window_a]);

    swap_containers(&mut tree, window_a, window_c).unwrap();
    assert_eq!(tree.container(workspace).children, vec![focused, window_a, split]);
    assert_eq!(tree.container(workspace).focus_order, vec![focused, window_a, split]);
    assert_eq!(tree.container(split).children, vec![window_b, window_c]);
    assert_eq!(tree.container(window_a).parent, Some(workspace));
}

fn state_with(tree: Tree, root: ContainerId) -> WmState {
    WmState::new(tree, root)
}

#[test]
fn swaps_a_window_with_its_neighbor() {
    let mut tree = Tree::new();
    let window_a = window(&mut tree);
    let window_b = window(&mut tree);
    let workspace = parent_of(
        &mut tree,
        ContainerKind::Workspace,
        TilingDirection::Horizontal,
        &[window_a, window_b],
    );
    let mut state = state_with(tree, workspace);

    swap_window_in_direction(window_a, &Direction::Right, &mut state).unwrap();

    assert_eq!(state.tree.container(workspace).children, vec![window_b, window_a]);
    assert_eq!(state.pending_sync.containers_to_redraw, vec![window_a, window_b]);
    assert!(state.tree.has_focus(window_a));
    assert_eq!(
        state.events,
        vec![WmEvent::FocusedContainerMoved { focused_container: window_a }]
    );

    // There is nothing further to the right.
    swap_window_in_direction(window_a, &Direction::Right, &mut state).unwrap();
    assert_eq!(state.tree.container(workspace).children, vec![window_b, window_a]);
    assert_eq!(state.events.len(), 1);
}

#[test]
fn swap_reports_a_focused_target() {
    let mut tree = Tree::new();
    let window_a = window(&mut tree);
    let window_b = window(&mut tree);
    let workspace = parent_of(
        &mut tree,
        ContainerKind::Workspace,
        TilingDirection::Vertical,
        &[window_a, window_b],
    );
    let mut state = state_with(tree, workspace);

    // The first window is focused, but the second one is swapped.
    swap_window_in_direction(window_b, &Direction::Up, &mut state).unwrap();

    assert_eq!(state.tree.container(workspace).children, vec![window_b, window_a]);
    assert!(state.tree.has_focus(window_a));
    assert_eq!(
        state.events,
        vec![WmEvent::FocusedContainerMoved { focused_container: window_a }]
    );
}

#[test]
fn swap_ignores_windows_that_do_not_tile() {
    let mut tree = Tree::new();
    let window_a = window(&mut tree);
    let floating = tree.add(props(
        ContainerKind::NonTilingWindow,
        TilingDirection::Horizontal,
    ));
    let workspace = parent_of(
        &mut tree,
        ContainerKind::Workspace,
        TilingDirection::Horizontal,
        &[floating, window_a],
    );
    let mut state = state_with(tree, workspace);

    swap_window_in_direction(floating, &Direction::Right, &mut state).unwrap();

    assert_eq!(state.tree.container(workspace).children, vec![floating, window_a]);
    assert!(state.pending_sync.containers_to_redraw.is_empty());
}

#[test]
fn swap_of_a_detached_window_is_refused() {
    let mut tree = Tree::new();
    let window_a = window(&mut tree);
    let workspace =
        parent_of(&mut tree, ContainerKind::Workspace, TilingDirection::Horizontal, &[]);
    let mut state = state_with(tree, workspace);

    assert_eq!(
        swap_window_in_direction(window_a, &Direction::Left, &mut state),
        Err(CommandError::NoDirectionContainer)
    );
}

#[test]
fn swapping_a_focused_window_twice_restores_the_layout() {
    let mut tree = Tree::new();
    let window_a = window(&mut tree);
    let window_b = window(&mut tree);
    let window_c = window(&mut tree);
    let workspace = parent_of(
        &mut tree,
        ContainerKind::Workspace,
        TilingDirection::Horizontal,
        &[window_a, window_b, window_c],
    );

    swap_containers(&mut tree, window_a, window_c).unwrap();
    assert_eq!(tree.container(workspace).children, vec![window_c, window_b, window_a]);
    swap_containers(&mut tree, window_a, window_c).unwrap();
    assert_eq!(tree.container(workspace).children, vec![window_a, window_b, window_c]);
    assert!(tree.has_focus(window_a));

    // The focus order is another one than before.
    assert_eq!(tree.container(workspace).focus_order, vec![window_a, window_c, window_b]);
}
