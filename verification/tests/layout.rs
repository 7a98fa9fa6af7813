//! Inserting windows, and toggling the axes of the layout.

use glazewm::container::{
    ContainerId, ContainerKind, ContainerProps, GapsConfig, WindowProps, WindowState,
};
use glazewm::dwindle_insertion::{dwindle_insert, dwindle_split_target, FULL_SIZE, HALF_SIZE};
use glazewm::error::CommandError;
use glazewm::focus::{find_nearest, Role};
use glazewm::geometry::{rect_center, Point, Rect, TilingDirection};
use glazewm::split_container::{flatten_split_container, wrap_in_split_container};
use glazewm::toggle_tiling_direction::{
    nearest_adjacent_sibling, set_tiling_direction, toggle_tiling_direction,
    toggle_window_direction, PairSizes, SiblingDistances, ToggleMeasures,
};
use glazewm::tree::Tree;
use glazewm::user_config::UserConfig;
use glazewm::wm_state::{WmEvent, WmState};

fn props(kind: ContainerKind, tiling_direction: TilingDirection) -> ContainerProps {
    let rect = Rect { left: 0, top: 0, right: 0, bottom: 0 };
    ContainerProps {
        kind,
        tiling_direction,
        tiling_size: 1.0f32.to_bits(),
        gaps: GapsConfig { inner_gap: 0, outer_gap: 0 },
        working_area: rect,
        window: WindowProps {
            native_id: 0,
            state: WindowState::Tiling,
            frame: rect,
            floating_placement: rect,
            active_drag: None,
        },
    }
}

fn window(tree: &mut Tree) -> ContainerId {
    tree.add(props(ContainerKind::TilingWindow, TilingDirection::Horizontal))
}

fn parent_of(
    tree: &mut Tree,
    kind: ContainerKind,
    direction: TilingDirection,
    children: &[ContainerId],
) -> ContainerId {
    let id = tree.add(props(kind, direction));
    for (index, child) in children.iter().enumerate() {
        tree.attach(*child, id, index);
    }
    id
}

fn measures(previous: f32, next: f32) -> ToggleMeasures {
    let sizes = PairSizes {
        split: (2.0f32 / 3.0).to_bits(),
        window: 0.5f32.to_bits(),
        neighbor: 0.5f32.to_bits(),
    };
    ToggleMeasures {
        distances: Some(SiblingDistances { previous: previous.to_bits(), next: next.to_bits() }),
        with_previous: sizes,
        with_next: sizes,
        flattened_size: 0.25f32.to_bits(),
    }
}

fn config() -> UserConfig {
    UserConfig { focus_follows_cursor: false }
}

fn direction(tree: &Tree, id: ContainerId) -> TilingDirection {
    tree.container(id).props.tiling_direction
}

/// Toggling a window whose only sibling is a nested split must rotate
/// the enclosing split, rather than failing to find a window sibling.
#[test]
fn toggles_split_with_nested_sibling() {
    let mut tree = Tree::new();
    let window_a = window(&mut tree);
    let inner_a = window(&mut tree);
    let inner_b = window(&mut tree);
    let nested = parent_of(
        &mut tree,
        ContainerKind::Split,
        TilingDirection::Vertical,
        &[inner_a, inner_b],
    );
    let parent = parent_of(
        &mut tree,
        ContainerKind::Split,
        TilingDirection::Horizontal,
        &[window_a, nested],
    );
    let _workspace = parent_of(
        &mut tree,
        ContainerKind::Workspace,
        TilingDirection::Horizontal,
        &[parent],
    );

    let result = toggle_window_direction(&mut tree, window_a, measures(1.0, 1.0)).unwrap();

    assert_eq!(direction(&tree, parent), TilingDirection::Vertical);
    assert_eq!(result, parent);
}

#[test]
fn toggles_split_of_a_window_pair() {
    let mut tree = Tree::new();
    let window_a = window(&mut tree);
    let other = window(&mut tree);
    let parent = parent_of(
        &mut tree,
        ContainerKind::Split,
        TilingDirection::Horizontal,
        &[window_a, other],
    );
    let _workspace = parent_of(
        &mut tree,
        ContainerKind::Workspace,
        TilingDirection::Horizontal,
        &[parent],
    );
    tree.set_tiling_size(window_a, 0.5f32.to_bits());
    tree.set_tiling_size(other, 0.5f32.to_bits());

    toggle_window_direction(&mut tree, window_a, measures(1.0, 1.0)).unwrap();

    assert_eq!(direction(&tree, parent), TilingDirection::Vertical);
}

#[test]
fn toggles_workspace_direction_for_an_only_child() {
    let mut tree = Tree::new();
    let window_a = window(&mut tree);
    let workspace = parent_of(
        &mut tree,
        ContainerKind::Workspace,
        TilingDirection::Horizontal,
        &[window_a],
    );

    let result = toggle_window_direction(&mut tree, window_a, measures(1.0, 1.0)).unwrap();

    assert_eq!(direction(&tree, workspace), TilingDirection::Vertical);
    assert_eq!(result, workspace);
}

/// Splits with more than two children isolate the focused window and an
/// adjacent sibling into a new perpendicular split.
#[test]
fn isolates_a_pair_out_of_a_larger_split() {
    let mut tree = Tree::new();
    let first = window(&mut tree);
    let window_a = window(&mut tree);
    let last = window(&mut tree);
    let workspace = parent_of(
        &mut tree,
        ContainerKind::Workspace,
        TilingDirection::Horizontal,
        &[first, window_a, last],
    );
    for id in [first, window_a, last] {
        tree.set_tiling_size(id, (1.0f32 / 3.0).to_bits());
    }

    let result = toggle_window_direction(&mut tree, window_a, measures(1.0, 1.0)).unwrap();

    assert_eq!(direction(&tree, result), TilingDirection::Vertical);
    assert_eq!(tree.tiling_children(result).len(), 2);

    // The workspace keeps its direction and is left with the new split
    // plus the remaining window.
    assert_eq!(direction(&tree, workspace), TilingDirection::Horizontal);
    assert_eq!(tree.tiling_children(workspace).len(), 2);

    let new_parent = tree.container(window_a).parent.unwrap();
    assert_eq!(new_parent, result);

    // A tie goes to the sibling before the window.
    assert_eq!(tree.container(result).children, vec![first, window_a]);
    assert_eq!(tree.container(workspace).children, vec![result, last]);
    assert_eq!(tree.container(result).props.tiling_size, (2.0f32 / 3.0).to_bits());
    assert_eq!(tree.container(window_a).props.tiling_size, 0.5f32.to_bits());

    // Toggling again turns just the pair.
    let again = toggle_window_direction(&mut tree, window_a, measures(1.0, 1.0)).unwrap();
    assert_eq!(again, result);
    assert_eq!(direction(&tree, result), TilingDirection::Horizontal);
    assert_eq!(direction(&tree, workspace), TilingDirection::Horizontal);
}

#[test]
fn isolates_the_closer_neighbor() {
    let mut tree = Tree::new();
    let first = window(&mut tree);
    let window_a = window(&mut tree);
    let last = window(&mut tree);
    let workspace = parent_of(
        &mut tree,
        ContainerKind::Workspace,
        TilingDirection::Vertical,
        &[first, window_a, last],
    );

    let result = toggle_window_direction(&mut tree, window_a, measures(4.0, 3.5)).unwrap();

    assert_eq!(tree.container(result).children, vec![window_a, last]);
    assert_eq!(tree.container(workspace).children, vec![first, result]);
    assert_eq!(direction(&tree, result), TilingDirection::Horizontal);
}

#[test]
fn flattens_the_split_of_an_only_child() {
    let mut tree = Tree::new();
    let window_a = window(&mut tree);
    let other = window(&mut tree);
    let split =
        parent_of(&mut tree, ContainerKind::Split, TilingDirection::Vertical, &[window_a]);
    let workspace = parent_of(
        &mut tree,
        ContainerKind::Workspace,
        TilingDirection::Horizontal,
        &[other, split],
    );

    let result = toggle_window_direction(&mut tree, window_a, measures(1.0, 1.0)).unwrap();

    assert_eq!(result, workspace);
    assert_eq!(direction(&tree, workspace), TilingDirection::Horizontal);
    assert_eq!(tree.container(workspace).children, vec![other, window_a]);
    assert_eq!(tree.container(split).parent, None);
    assert_eq!(tree.container(window_a).props.tiling_size, 0.25f32.to_bits());
}

#[test]
fn tells_why_a_toggle_is_refused() {
    let mut tree = Tree::new();
    let detached = window(&mut tree);
    let only_child = window(&mut tree);
    let _split =
        parent_of(&mut tree, ContainerKind::Split, TilingDirection::Vertical, &[only_child]);
    assert_eq!(
        toggle_window_direction(&mut tree, detached, measures(1.0, 1.0)),
        Err(CommandError::NoDirectionContainer)
    );
    assert_eq!(
        toggle_window_direction(&mut tree, only_child, measures(1.0, 1.0)),
        Err(CommandError::NoParent)
    );

    let windows = [window(&mut tree), window(&mut tree), window(&mut tree)];
    let _workspace = parent_of(
        &mut tree,
        ContainerKind::Workspace,
        TilingDirection::Vertical,
        &windows,
    );
    let unmeasured = ToggleMeasures { distances: None, ..measures(1.0, 1.0) };
    assert_eq!(
        toggle_window_direction(&mut tree, windows[1], unmeasured),
        Err(CommandError::NoRect)
    );
}

#[test]
fn toggle_needs_to_be_a_child_of_the_direction_container() {
    let mut tree = Tree::new();
    let window_a = window(&mut tree);
    let sibling = window(&mut tree);
    let monitor = parent_of(
        &mut tree,
        ContainerKind::Monitor,
        TilingDirection::Horizontal,
        &[window_a, sibling],
    );
    let _workspace = parent_of(
        &mut tree,
        ContainerKind::Workspace,
        TilingDirection::Horizontal,
        &[monitor],
    );

    assert_eq!(
        toggle_window_direction(&mut tree, window_a, measures(1.0, 1.0)),
        Err(CommandError::NotAChildOfOwnParent)
    );
}

#[test]
fn toggling_twice_restores_the_axis() {
    let mut tree = Tree::new();
    let window_a = window(&mut tree);
    let other = window(&mut tree);
    let workspace = parent_of(
        &mut tree,
        ContainerKind::Workspace,
        TilingDirection::Horizontal,
        &[window_a, other],
    );

    toggle_window_direction(&mut tree, window_a, measures(1.0, 1.0)).unwrap();
    assert_eq!(direction(&tree, workspace), TilingDirection::Vertical);
    toggle_window_direction(&mut tree, window_a, measures(1.0, 1.0)).unwrap();
    assert_eq!(direction(&tree, workspace), TilingDirection::Horizontal);
    assert_eq!(tree.container(workspace).children, vec![window_a, other]);
}

#[test]
fn toggling_redraws_and_tells_subscribers() {
    let mut tree = Tree::new();
    let window_a = window(&mut tree);
    let other = window(&mut tree);
    let workspace = parent_of(
        &mut tree,
        ContainerKind::Workspace,
        TilingDirection::Horizontal,
        &[window_a, other],
    );
    let mut state = WmState::new(tree, workspace);

    toggle_tiling_direction(workspace, &mut state, &config(), measures(1.0, 1.0)).unwrap();
    toggle_tiling_direction(window_a, &mut state, &config(), measures(1.0, 1.0)).unwrap();

    assert_eq!(state.pending_sync.containers_to_redraw, vec![window_a, other]);
    assert_eq!(
        state.events,
        vec![
            WmEvent::TilingDirectionChanged {
                direction_container: workspace,
                new_tiling_direction: TilingDirection::Vertical,
            },
            WmEvent::TilingDirectionChanged {
                direction_container: workspace,
                new_tiling_direction: TilingDirection::Horizontal,
            },
        ]
    );
}

#[test]
fn only_windows_and_workspaces_toggle() {
    let mut tree = Tree::new();
    let window_a = window(&mut tree);
    let split =
        parent_of(&mut tree, ContainerKind::Split, TilingDirection::Vertical, &[window_a]);
    let workspace = parent_of(
        &mut tree,
        ContainerKind::Workspace,
        TilingDirection::Horizontal,
        &[split],
    );
    let mut state = WmState::new(tree, workspace);

    toggle_tiling_direction(split, &mut state, &config(), measures(1.0, 1.0)).unwrap();

    assert_eq!(direction(&state.tree, split), TilingDirection::Vertical);
    assert!(state.events.is_empty());
}

#[test]
fn sets_an_axis_only_if_it_differs() {
    let mut tree = Tree::new();
    let window_a = window(&mut tree);
    let other = window(&mut tree);
    let workspace = parent_of(
        &mut tree,
        ContainerKind::Workspace,
        TilingDirection::Horizontal,
        &[window_a, other],
    );
    let detached = window(&mut tree);
    let mut state = WmState::new(tree, workspace);

    set_tiling_direction(
        window_a,
        &mut state,
        &config(),
        &TilingDirection::Horizontal,
        measures(1.0, 1.0),
    )
    .unwrap();
    assert!(state.events.is_empty());

    set_tiling_direction(
        window_a,
        &mut state,
        &config(),
        &TilingDirection::Vertical,
        measures(1.0, 1.0),
    )
    .unwrap();
    assert_eq!(direction(&state.tree, workspace), TilingDirection::Vertical);
    assert_eq!(state.events.len(), 1);

    assert_eq!(
        set_tiling_direction(
            detached,
            &mut state,
            &config(),
            &TilingDirection::Vertical,
            measures(1.0, 1.0),
        ),
        Err(CommandError::NoDirectionContainer)
    );
}

#[test]
fn nearest_sibling_is_adjacent() {
    let distances = |previous: f32, next: f32| {
        Some(SiblingDistances { previous: previous.to_bits(), next: next.to_bits() })
    };
    let siblings = vec![10, 11, 12];

    assert_eq!(nearest_adjacent_sibling(&siblings, 1, distances(2.0, 1.0)), Ok(Some((12, 2))));
    assert_eq!(nearest_adjacent_sibling(&siblings, 1, distances(1.0, 2.0)), Ok(Some((10, 0))));
    assert_eq!(nearest_adjacent_sibling(&siblings, 0, distances(0.0, 9.0)), Ok(Some((11, 1))));
    assert_eq!(nearest_adjacent_sibling(&siblings, 2, distances(9.0, 0.0)), Ok(Some((11, 1))));
    assert_eq!(nearest_adjacent_sibling(&vec![10], 0, distances(1.0, 1.0)), Ok(None));
    assert_eq!(nearest_adjacent_sibling(&siblings, 1, None), Err(CommandError::NoRect));
}

#[test]
fn center_is_rounded_towards_the_corner() {
    let rect = Rect::from_xy(100, 100, 401, 200);
    assert_eq!(rect_center(&rect), Point { x: 300, y: 200 });
    let reversed = Rect { left: 10, top: 0, right: 7, bottom: 0 };
    assert_eq!(rect_center(&reversed), Point { x: 9, y: 0 });
}

#[test]
fn wrapping_keeps_order_and_flattening_undoes_it() {
    let mut tree = Tree::new();
    let windows = [window(&mut tree), window(&mut tree), window(&mut tree), window(&mut tree)];
    let workspace = parent_of(
        &mut tree,
        ContainerKind::Workspace,
        TilingDirection::Horizontal,
        &windows,
    );
    tree.set_focused_descendant(windows[2]);
    let split = tree.add(props(ContainerKind::Split, TilingDirection::Vertical));

    wrap_in_split_container(&mut tree, split, workspace, &vec![windows[1], windows[2]]);
    assert_eq!(tree.container(workspace).children, vec![windows[0], split, windows[3]]);
    assert_eq!(tree.container(workspace).focus_order, vec![split, windows[0], windows[3]]);
    assert_eq!(tree.container(split).children, vec![windows[1], windows[2]]);
    assert_eq!(tree.container(split).focus_order, vec![windows[2], windows[1]]);
    assert!(tree.has_focus(windows[2]));

    flatten_split_container(&mut tree, split).unwrap();
    assert_eq!(tree.container(workspace).children, windows.to_vec());
    assert_eq!(tree.container(windows[1]).parent, Some(workspace));
    assert_eq!(
        flatten_split_container(&mut tree, split),
        Err(CommandError::NoParent)
    );
}

#[test]
fn insertion_splits_a_wide_anchor_side_by_side() {
    let mut tree = Tree::new();
    let anchor = window(&mut tree);
    let other = window(&mut tree);
    let workspace = parent_of(
        &mut tree,
        ContainerKind::Workspace,
        TilingDirection::Vertical,
        &[anchor, other],
    );
    tree.set_tiling_size(anchor, 0.75f32.to_bits());
    let new_window = window(&mut tree);

    let rect = Rect::from_xy(0, 0, 800, 800);
    dwindle_insert(&mut tree, anchor, new_window, Some(rect)).unwrap();

    let split = tree.container(anchor).parent.unwrap();
    assert_eq!(tree.container(split).props.kind, ContainerKind::Split);
    assert_eq!(direction(&tree, split), TilingDirection::Horizontal);
    assert_eq!(tree.container(split).children, vec![anchor, new_window]);
    assert_eq!(tree.container(split).props.tiling_size, 0.75f32.to_bits());
    assert_eq!(tree.container(workspace).children, vec![split, other]);
    assert_eq!(tree.container(workspace).focus_order, vec![split, other]);
    assert_eq!(tree.container(anchor).props.tiling_size, 0.5f32.to_bits());
    assert_eq!(tree.container(new_window).props.tiling_size, 0.5f32.to_bits());
}

#[test]
fn insertion_stacks_a_tall_anchor() {
    let mut tree = Tree::new();
    let anchor = window(&mut tree);
    let _workspace = parent_of(
        &mut tree,
        ContainerKind::Workspace,
        TilingDirection::Horizontal,
        &[anchor],
    );
    let floating = tree.add(props(
        ContainerKind::NonTilingWindow,
        TilingDirection::Horizontal,
    ));

    let rect = Rect::from_xy(0, 0, 799, 800);
    dwindle_insert(&mut tree, anchor, floating, Some(rect)).unwrap();

    let split = tree.container(anchor).parent.unwrap();
    assert_eq!(direction(&tree, split), TilingDirection::Vertical);
    assert_eq!(tree.container(anchor).props.tiling_size, FULL_SIZE);
}

#[test]
fn tells_why_an_insertion_is_refused() {
    let mut tree = Tree::new();
    let anchor = window(&mut tree);
    let new_window = window(&mut tree);
    let rect = Rect::from_xy(0, 0, 800, 600);

    assert_eq!(
        dwindle_insert(&mut tree, anchor, new_window, None),
        Err(CommandError::NoRect)
    );
    assert_eq!(
        dwindle_insert(&mut tree, anchor, new_window, Some(rect)),
        Err(CommandError::NoParent)
    );
    let workspace = parent_of(
        &mut tree,
        ContainerKind::Workspace,
        TilingDirection::Horizontal,
        &[anchor, new_window],
    );
    assert_eq!(
        dwindle_insert(&mut tree, anchor, new_window, Some(rect)),
        Err(CommandError::AlreadyAttached)
    );

    // The anchor has been wrapped by then.
    let split = tree.container(anchor).parent.unwrap();
    assert_eq!(tree.container(split).children, vec![anchor]);
    assert_eq!(tree.container(split).parent, Some(workspace));
    assert_eq!(tree.container(anchor).props.tiling_size, FULL_SIZE);
    assert_eq!(tree.container(workspace).children, vec![split, new_window]);
}

#[test]
fn tiling_sizes_are_the_bits_of_numbers() {
    assert_eq!(FULL_SIZE, 1.0f32.to_bits());
    assert_eq!(HALF_SIZE, 0.5f32.to_bits());
}

#[test]
fn focused_tiling_window_is_split() {
    let mut tree = Tree::new();
    let window_a = window(&mut tree);
    let window_b = window(&mut tree);
    let workspace = parent_of(
        &mut tree,
        ContainerKind::Workspace,
        TilingDirection::Horizontal,
        &[window_a, window_b],
    );
    let monitor =
        parent_of(&mut tree, ContainerKind::Monitor, TilingDirection::Horizontal, &[workspace]);
    let root = parent_of(&mut tree, ContainerKind::Root, TilingDirection::Horizontal, &[monitor]);
    tree.set_focused_descendant(window_b);
    let state = WmState::new(tree, root);

    assert_eq!(state.focused_container(), Some(window_b));
    assert_eq!(dwindle_split_target(&state), Ok(Some(window_b)));
    assert_eq!(find_nearest(&state.tree, window_b, Role::Monitor), Some(monitor));
}

#[test]
fn latest_tiling_window_is_split_otherwise() {
    let mut tree = Tree::new();
    let window_a = window(&mut tree);
    let window_b = window(&mut tree);
    let split = parent_of(
        &mut tree,
        ContainerKind::Split,
        TilingDirection::Vertical,
        &[window_a, window_b],
    );
    let floating = tree.add(props(
        ContainerKind::NonTilingWindow,
        TilingDirection::Horizontal,
    ));
    let window_c = window(&mut tree);
    let workspace = parent_of(
        &mut tree,
        ContainerKind::Workspace,
        TilingDirection::Horizontal,
        &[split, floating, window_c],
    );
    let root = parent_of(&mut tree, ContainerKind::Root, TilingDirection::Horizontal, &[workspace]);
    tree.set_focused_descendant(window_c);
    tree.set_focused_descendant(window_b);
    tree.set_focused_descendant(floating);
    let state = WmState::new(tree, root);

    assert_eq!(dwindle_split_target(&state), Ok(Some(window_b)));
}

#[test]
fn empty_workspace_has_nothing_to_split() {
    let mut tree = Tree::new();
    let workspace =
        parent_of(&mut tree, ContainerKind::Workspace, TilingDirection::Horizontal, &[]);
    let root = parent_of(&mut tree, ContainerKind::Root, TilingDirection::Horizontal, &[workspace]);
    assert_eq!(dwindle_split_target(&WmState::new(tree, root)), Ok(None));

    let mut tree = Tree::new();
    let monitor = parent_of(&mut tree, ContainerKind::Monitor, TilingDirection::Horizontal, &[]);
    let root = parent_of(&mut tree, ContainerKind::Root, TilingDirection::Horizontal, &[monitor]);
    assert_eq!(
        dwindle_split_target(&WmState::new(tree, root)),
        Err(CommandError::NoWorkspace)
    );

    let mut tree = Tree::new();
    let root = parent_of(&mut tree, ContainerKind::Root, TilingDirection::Horizontal, &[]);
    assert_eq!(
        dwindle_split_target(&WmState::new(tree, root)),
        Err(CommandError::NoFocusedContainer)
    );
}

#[test]
fn toggling_keeps_the_focused_window() {
    let mut tree = Tree::new();
    let windows = [window(&mut tree), window(&mut tree), window(&mut tree)];
    let _workspace = parent_of(
        &mut tree,
        ContainerKind::Workspace,
        TilingDirection::Horizontal,
        &windows,
    );

    for focused in windows {
        tree.set_focused_descendant(focused);
        toggle_window_direction(&mut tree, windows[1], measures(2.0, 1.0)).unwrap();
        assert!(tree.has_focus(focused));
    }
}

#[test]
fn insertion_keeps_the_focused_window() {
    let mut tree = Tree::new();
    let anchor = window(&mut tree);
    let other = window(&mut tree);
    let _workspace = parent_of(
        &mut tree,
        ContainerKind::Workspace,
        TilingDirection::Horizontal,
        &[anchor, other],
    );
    let rect = Rect::from_xy(0, 0, 800, 600);

    for focused in [anchor, other] {
        tree.set_focused_descendant(focused);
        let new_window = window(&mut tree);
        dwindle_insert(&mut tree, anchor, new_window, Some(rect)).unwrap();
        assert!(tree.has_focus(focused));
        assert!(!tree.has_focus(new_window));
    }
}

/// The windows below a container, in the order in which they are laid out.
fn windows_in_order(tree: &Tree, id: ContainerId) -> Vec<ContainerId> {
    let container = tree.container(id);
    if container.props.kind.is_window() {
        return vec![id];
    }
    container.children.iter().flat_map(|child| windows_in_order(tree, *child)).collect()
}

#[test]
fn toggling_keeps_the_order_of_windows() {
    let mut tree = Tree::new();
    let windows: Vec<ContainerId> = (0..6).map(|_| window(&mut tree)).collect();
    let inner = parent_of(
        &mut tree,
        ContainerKind::Split,
        TilingDirection::Vertical,
        &[windows[1], windows[2]],
    );
    let alone = parent_of(
        &mut tree,
        ContainerKind::Split,
        TilingDirection::Vertical,
        &[windows[3]],
    );
    let workspace = parent_of(
        &mut tree,
        ContainerKind::Workspace,
        TilingDirection::Horizontal,
        &[windows[0], inner, alone, windows[4], windows[5]],
    );
    assert_eq!(windows_in_order(&tree, workspace), windows);

    for (window, distances) in [(2, (1.0, 1.0)), (3, (1.0, 1.0)), (4, (2.0, 1.0)), (0, (1.0, 1.0))] {
        let measures = measures(distances.0, distances.1);
        toggle_window_direction(&mut tree, windows[window], measures).unwrap();
        assert_eq!(windows_in_order(&tree, workspace), windows);
    }
}

#[test]
fn isolated_pair_passes_what_does_not_tile() {
    let mut tree = Tree::new();
    let first = window(&mut tree);
    let floating = tree.add(props(ContainerKind::NonTilingWindow, TilingDirection::Horizontal));
    let second = window(&mut tree);
    let third = window(&mut tree);
    let workspace = parent_of(
        &mut tree,
        ContainerKind::Workspace,
        TilingDirection::Horizontal,
        &[first, floating, second, third],
    );

    toggle_window_direction(&mut tree, first, measures(1.0, 1.0)).unwrap();

    assert_eq!(windows_in_order(&tree, workspace), vec![first, second, floating, third]);
}

#[test]
fn setting_an_axis_takes_effect_once() {
    let mut tree = Tree::new();
    let windows: Vec<ContainerId> = (0..3).map(|_| window(&mut tree)).collect();
    let workspace = parent_of(
        &mut tree,
        ContainerKind::Workspace,
        TilingDirection::Horizontal,
        &windows,
    );
    let mut state = WmState::new(tree, workspace);

    for container in [windows[1], workspace] {
        let vertical = TilingDirection::Vertical;
        let measures = measures(1.0, 1.0);
        set_tiling_direction(container, &mut state, &config(), &vertical, measures).unwrap();
        let nearest = find_nearest(&state.tree, container, Role::DirectionContainer).unwrap();
        assert_eq!(direction(&state.tree, nearest), vertical);

        let len = state.tree.len();
        let events = state.events.len();
        let redraw = state.pending_sync.containers_to_redraw.clone();
        set_tiling_direction(container, &mut state, &config(), &vertical, measures).unwrap();
        assert_eq!(state.tree.len(), len);
        assert_eq!(direction(&state.tree, nearest), vertical);
        assert_eq!(state.events.len(), events);
        assert_eq!(state.pending_sync.containers_to_redraw, redraw);
    }
}
