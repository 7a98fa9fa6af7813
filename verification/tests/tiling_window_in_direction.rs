//! Finding the tiling window next to a container.

use glazewm::container::{
    ContainerId, ContainerKind, ContainerProps, GapsConfig, WindowProps, WindowState,
};
use glazewm::error::CommandError;
use glazewm::geometry::{Direction, Rect, TilingDirection};
use glazewm::tiling_window_in_direction::tiling_window_in_direction;
use glazewm::tree::Tree;

fn props(kind: ContainerKind, tiling_direction: TilingDirection) -> ContainerProps {
    let rect = Rect { left: 0, top: 0, right: 0, bottom: 0 };
    ContainerProps {
        kind,
        tiling_direction,
        tiling_size: 1.0f32.to_bits(),
        gaps: GapsConfig { inner_gap: 0, outer_gap: 0 },
        working_area: rect,
        window: WindowProps {
            native_id: 0,
            state: WindowState::Tiling,
            frame: rect,
            floating_placement: rect,
            active_drag: None,
        },
    }
}

fn window(tree: &mut Tree) -> ContainerId {
    tree.add(props(ContainerKind::TilingWindow, TilingDirection::Horizontal))
}

fn parent_of(
    tree: &mut Tree,
    kind: ContainerKind,
    direction: TilingDirection,
    children: &[ContainerId],
) -> ContainerId {
    let id = tree.add(props(kind, direction));
    for (index, child) in children.iter().enumerate() {
        tree.attach(*child, id, index);
    }
    id
}

#[test]
fn finds_the_adjacent_sibling() {
    let mut tree = Tree::new();
    let window_a = window(&mut tree);
    let window_b = window(&mut tree);
    let _workspace = parent_of(
        &mut tree,
        ContainerKind::Workspace,
        TilingDirection::Horizontal,
        &[window_a, window_b],
    );

    let target = tiling_window_in_direction(&tree, window_a, &Direction::Right).unwrap();
    assert_eq!(target, Some(window_b));

    // There is nothing to the left of the first window.
    let target = tiling_window_in_direction(&tree, window_a, &Direction::Left).unwrap();
    assert!(target.is_none());
}

#[test]
fn descends_into_an_adjacent_split() {
    let mut tree = Tree::new();
    let window_a = window(&mut tree);
    let window_b = window(&mut tree);
    let window_c = window(&mut tree);
    let split = parent_of(
        &mut tree,
        ContainerKind::Split,
        TilingDirection::Vertical,
        &[window_b, window_c],
    );
    let _workspace = parent_of(
        &mut tree,
        ContainerKind::Workspace,
        TilingDirection::Horizontal,
        &[window_a, split],
    );

    // The topmost window of the split is closest to the origin.
    let target = tiling_window_in_direction(&tree, window_a, &Direction::Right).unwrap();
    assert_eq!(target, Some(window_b));
}

#[test]
fn traverses_upwards_when_the_direction_doesnt_match() {
    let mut tree = Tree::new();
    let window_a = window(&mut tree);
    let window_b = window(&mut tree);
    let window_c = window(&mut tree);
    let split = parent_of(
        &mut tree,
        ContainerKind::Split,
        TilingDirection::Vertical,
        &[window_b, window_c],
    );
    let _workspace = parent_of(
        &mut tree,
        ContainerKind::Workspace,
        TilingDirection::Horizontal,
        &[window_a, split],
    );

    // A horizontal move from within the vertical split has to escape it.
    let target = tiling_window_in_direction(&tree, window_c, &Direction::Left).unwrap();
    assert_eq!(target, Some(window_a));
}

#[test]
fn takes_the_side_of_a_split_that_faces_the_origin() {
    let mut tree = Tree::new();
    let window_a = window(&mut tree);
    let window_b = window(&mut tree);
    let window_c = window(&mut tree);
    let split = parent_of(
        &mut tree,
        ContainerKind::Split,
        TilingDirection::Horizontal,
        &[window_a, window_b],
    );
    let _workspace = parent_of(
        &mut tree,
        ContainerKind::Workspace,
        TilingDirection::Horizontal,
        &[split, window_c],
    );

    let target = tiling_window_in_direction(&tree, window_c, &Direction::Left).unwrap();
    assert_eq!(target, Some(window_b));
}

#[test]
fn skips_siblings_that_do_not_tile() {
    let mut tree = Tree::new();
    let window_a = window(&mut tree);
    let floating = tree.add(props(
        ContainerKind::NonTilingWindow,
        TilingDirection::Horizontal,
    ));
    let window_b = window(&mut tree);
    let _workspace = parent_of(
        &mut tree,
        ContainerKind::Workspace,
        TilingDirection::Vertical,
        &[window_a, floating, window_b],
    );

    let target = tiling_window_in_direction(&tree, window_a, &Direction::Down).unwrap();
    assert_eq!(target, Some(window_b));
}

#[test]
fn never_leaves_the_workspace() {
    let mut tree = Tree::new();
    let window_a = window(&mut tree);
    let window_b = window(&mut tree);
    let workspace_a = parent_of(
        &mut tree,
        ContainerKind::Workspace,
        TilingDirection::Horizontal,
        &[window_a],
    );
    let workspace_b = parent_of(
        &mut tree,
        ContainerKind::Workspace,
        TilingDirection::Horizontal,
        &[window_b],
    );
    let _monitor = parent_of(
        &mut tree,
        ContainerKind::Monitor,
        TilingDirection::Horizontal,
        &[workspace_a, workspace_b],
    );

    let target = tiling_window_in_direction(&tree, window_a, &Direction::Right).unwrap();
    assert!(target.is_none());
}

#[test]
fn finds_nothing_in_an_empty_split() {
    let mut tree = Tree::new();
    let window_a = window(&mut tree);
    let split = parent_of(&mut tree, ContainerKind::Split, TilingDirection::Vertical, &[]);
    let _workspace = parent_of(
        &mut tree,
        ContainerKind::Workspace,
        TilingDirection::Horizontal,
        &[window_a, split],
    );

    let target = tiling_window_in_direction(&tree, window_a, &Direction::Right).unwrap();
    assert!(target.is_none());
}

#[test]
fn search_needs_a_direction_container() {
    let mut tree = Tree::new();
    let detached = window(&mut tree);
    let misplaced = window(&mut tree);
    let _monitor = parent_of(
        &mut tree,
        ContainerKind::Monitor,
        TilingDirection::Horizontal,
        &[misplaced],
    );

    assert_eq!(
        tiling_window_in_direction(&tree, detached, &Direction::Up),
        Err(CommandError::NoDirectionContainer)
    );
    assert_eq!(
        tiling_window_in_direction(&tree, misplaced, &Direction::Up),
        Err(CommandError::NoDirectionContainer)
    );
}

#[test]
fn neighboring_windows_find_each_other() {
    let mut tree = Tree::new();
    let windows = [window(&mut tree), window(&mut tree), window(&mut tree)];
    let _workspace = parent_of(
        &mut tree,
        ContainerKind::Workspace,
        TilingDirection::Vertical,
        &windows,
    );

    for pair in windows.windows(2) {
        assert_eq!(
            tiling_window_in_direction(&tree, pair[0], &Direction::Down),
            Ok(Some(pair[1]))
        );
        assert_eq!(
            tiling_window_in_direction(&tree, pair[1], &Direction::Up),
            Ok(Some(pair[0]))
        );
    }
}
