//! Turning the axis along which containers are laid out.

use vstd::prelude::*;

use crate::container::{ContainerId, ContainerKind, ContainerProps, Node};
use crate::error::CommandError;
use crate::focus::{self, Role};
use crate::forest::{self, Forest};
use crate::geometry::TilingDirection;
use crate::lists::position;
use crate::split_container::{self, flatten_split_container, wrap_in_split_container};
use crate::tree::Tree;
use crate::user_config::UserConfig;
use crate::visual_order;
use crate::wm_state::{self, StateModel, WmEvent, WmState};

verus! {

/// How far a window is from the tiling siblings before and after it.
///
/// Both are the bits of squared distances between the centers, in single
/// precision, and so are ordered like the distances. A distance to a sibling
/// that does not exist means nothing.
#[derive(Clone, Copy, Debug, PartialEq, Eq, Structural)]
pub struct SiblingDistances {
    pub previous: u32,
    pub next: u32,
}

/// The tiling sizes that result from pairing a window with a neighbor.
#[derive(Clone, Copy, Debug, PartialEq, Eq, Structural)]
pub struct PairSizes {
    pub split: u32,
    pub window: u32,
    pub neighbor: u32,
}

/// What is measured on the screen for a window whose axis is toggled.
#[derive(Clone, Copy, Debug, PartialEq, Eq, Structural)]
pub struct ToggleMeasures {
    /// Missing if the place of the window itself cannot be told.
    pub distances: Option<SiblingDistances>,
    /// Sizes when paired with the tiling sibling before the window.
    pub with_previous: PairSizes,
    /// Sizes when paired with the tiling sibling after the window.
    pub with_next: PairSizes,
    /// Size of the window once its parent split is flattened.
    pub flattened_size: u32,
}

/// The tree in which the axis of `x` is turned.
pub open spec fn turned(t: Forest, x: ContainerId) -> Forest {
    t.update(
        x as int,
        Node {
            props: ContainerProps {
                tiling_direction: t[x as int].props.tiling_direction.spec_inverse(),
                ..t[x as int].props
            },
            ..t[x as int]
        },
    )
}

/// The sibling next to the given position that is closest to the window, along
/// with its own position. A tie goes to the one before the window.
pub open spec fn closest_adjacent(
    siblings: Seq<ContainerId>,
    position: int,
    distances: SiblingDistances,
) -> Option<(ContainerId, int)> {
    let has_previous = 0 < position <= siblings.len();
    let has_next = position + 1 < siblings.len();
    if has_previous && (!has_next || distances.previous <= distances.next) {
        Some((siblings[position - 1], position - 1))
    } else if has_next {
        Some((siblings[position + 1], position + 1))
    } else {
        None
    }
}

/// Gets the sibling immediately before or after a window, whichever is
/// closer, along with its position. `position` is that of the window itself.
///
/// Only adjacent siblings are considered, so that the window and its
/// neighbor can be wrapped in a split without any reordering. There is none
/// if the window has no siblings at all.
pub fn nearest_adjacent_sibling(
    siblings: &Vec<ContainerId>,
    position: usize,
    distances: Option<SiblingDistances>,
) -> (r: Result<Option<(ContainerId, usize)>, CommandError>)
    ensures
        match distances {
            None => r == Err::<Option<(ContainerId, usize)>, CommandError>(CommandError::NoRect),
            Some(distances) => match closest_adjacent(siblings@, position as int, distances) {
                None => r == Ok::<Option<(ContainerId, usize)>, CommandError>(None),
                Some((sibling, index)) => r matches Ok(Some((s, i))) && s == sibling && i == index,
            },
        },
{
    let distances = match distances {
        Some(distances) => distances,
        None => {
            return Err(CommandError::NoRect);
        },
    };
    let has_previous = 0 < position && position <= siblings.len();
    let has_next = position < siblings.len() && position + 1 < siblings.len();
    if has_previous && (!has_next || distances.previous <= distances.next) {
        Ok(Some((siblings[position - 1], position - 1)))
    } else if has_next {
        Ok(Some((siblings[position + 1], position + 1)))
    } else {
        Ok(None)
    }
}

/// The tiling containers that share their parent with `x`.
pub open spec fn tiling_siblings(t: Forest, x: ContainerId) -> Seq<ContainerId> {
    match t[x as int].parent {
        Some(p) => forest::tiling_of(t, forest::without(t[p as int].children, x)),
        None => Seq::empty(),
    }
}

/// The properties of the split that holds a window and its neighbor.
pub open spec fn pair_props(
    t: Forest,
    window: ContainerId,
    p: ContainerId,
    sizes: PairSizes,
) -> ContainerProps {
    ContainerProps {
        kind: ContainerKind::Split,
        tiling_direction: t[p as int].props.tiling_direction.spec_inverse(),
        tiling_size: sizes.split,
        ..t[window as int].props
    }
}

/// The tree in which `first` and `second`, two children of `p`, are the
/// children of a new split that is perpendicular to `p`. One of them is
/// `window`, the other one is `neighbor`.
pub open spec fn paired(
    t: Forest,
    window: ContainerId,
    neighbor: ContainerId,
    p: ContainerId,
    pair: Seq<ContainerId>,
    sizes: PairSizes,
) -> Forest {
    let split = t.len() as usize;
    let with_split = forest::added(t, pair_props(t, window, p, sizes));
    forest::resized(
        forest::resized(
            split_container::wrapped(with_split, split, p, pair),
            window,
            sizes.window,
        ),
        neighbor,
        sizes.neighbor,
    )
}

/// The tree that toggling from `window` leads to, and either the container
/// whose axis is new or the reason for a failure.
pub open spec fn toggle_window_outcome(
    t: Forest,
    window: ContainerId,
    measures: ToggleMeasures,
) -> (Forest, Result<ContainerId, CommandError>) {
    match focus::nearest(t, window, Role::DirectionContainer) {
        None => (t, Err(CommandError::NoDirectionContainer)),
        Some(p) => {
            let siblings = forest::tiling_of(t, t[p as int].children);
            if tiling_siblings(t, window).len() == 0 {
                only_child_outcome(t, window, p, measures.flattened_size)
            } else if siblings.len() == 2 {
                (turned(t, p), Ok(p))
            } else if !siblings.contains(window) {
                (t, Err(CommandError::NotAChildOfOwnParent))
            } else {
                isolation_outcome(t, window, p, siblings, measures)
            }
        },
    }
}

/// Toggling from a window without tiling siblings turns its workspace, or
/// flattens its split.
pub open spec fn only_child_outcome(
    t: Forest,
    window: ContainerId,
    p: ContainerId,
    flattened_size: u32,
) -> (Forest, Result<ContainerId, CommandError>) {
    if t[p as int].props.kind == ContainerKind::Workspace {
        (turned(t, p), Ok(p))
    } else if t[p as int].parent is None {
        (t, Err(CommandError::NoParent))
    } else {
        let r = forest::resized(split_container::flattened(t, p), window, flattened_size);
        match focus::nearest(r, window, Role::DirectionContainer) {
            Some(q) => (r, Ok(q)),
            None => (r, Err(CommandError::NoDirectionContainer)),
        }
    }
}

/// Toggling from one of many children isolates it and its nearest neighbor in
/// a split of their own.
pub open spec fn isolation_outcome(
    t: Forest,
    window: ContainerId,
    p: ContainerId,
    siblings: Seq<ContainerId>,
    measures: ToggleMeasures,
) -> (Forest, Result<ContainerId, CommandError>) {
    let position = siblings.index_of(window);
    match measures.distances {
        None => (t, Err(CommandError::NoRect)),
        Some(distances) => match closest_adjacent(siblings, position, distances) {
            None => (turned(t, p), Ok(p)),
            Some((neighbor, index)) => if position < index {
                (
                    paired(
                        t,
                        window,
                        neighbor,
                        p,
                        seq![window, neighbor],
                        measures.with_next,
                    ),
                    Ok(t.len() as usize),
                )
            } else {
                (
                    paired(
                        t,
                        window,
                        neighbor,
                        p,
                        seq![neighbor, window],
                        measures.with_previous,
                    ),
                    Ok(t.len() as usize),
                )
            },
        },
    }
}

/// Turns the axis of a container.
fn turn(tree: &mut Tree, id: ContainerId)
    requires
        old(tree).wf(),
        id < old(tree)@.len(),
    ensures
        final(tree).wf(),
        final(tree)@ == turned(old(tree)@, id),
{
    let props = tree.container(id).props;
    tree.put_props(
        id,
        ContainerProps { tiling_direction: props.tiling_direction.inverse(), ..props },
    );
    proof {
        forest::lemma_same_links(old(tree)@, tree@);
    }
}

/// Whether a container has tiling siblings.
fn has_tiling_siblings(tree: &Tree, id: ContainerId) -> (r: bool)
    requires
        tree.wf(),
        id < tree@.len(),
    ensures
        r == (tiling_siblings(tree@, id).len() > 0),
{
    let ghost t = tree@;
    let parent = match tree.container(id).parent {
        Some(parent) => parent,
        None => {
            return false;
        },
    };
    assert(t[id as int].parent == Some(parent));
    let tiling = tree.tiling_children(parent);
    let mut i: usize = 0;
    while i < tiling.len() && tiling[i] == id
        invariant
            i <= tiling.len(),
            forall|k: int| 0 <= k < i ==> tiling@[k] == id,
        decreases tiling.len() - i,
    {
        i += 1;
    }
    proof {
        let children = t[parent as int].children;
        let others = forest::without(children, id);
        forest::lemma_without(children, id);
        forest::lemma_tiling_of(t, children);
        forest::lemma_tiling_of(t, others);
        if i < tiling.len() {
            let s = tiling@[i as int];
            assert(tiling@.contains(s));
            assert(children.contains(s));
            assert(others.contains(s));
            assert(forest::tiling_of(t, others).contains(s));
        }
        if forest::tiling_of(t, others).len() > 0 {
            let s = forest::tiling_of(t, others)[0];
            assert(forest::tiling_of(t, others).contains(s));
            assert(others.contains(s));
            assert(children.contains(s));
            assert(tiling@.contains(s));
        }
    }
    i < tiling.len()
}

/// Wraps a window and its neighbor in a new split that is perpendicular to
/// their parent.
fn pair_up(
    tree: &mut Tree,
    window: ContainerId,
    neighbor: ContainerId,
    parent: ContainerId,
    pair: &Vec<ContainerId>,
    sizes: PairSizes,
) -> (split: ContainerId)
    requires
        old(tree).wf(),
        old(tree)@.len() < usize::MAX,
        parent < old(tree)@.len(),
        window != neighbor,
        old(tree)@[parent as int].children.contains(window),
        old(tree)@[parent as int].children.contains(neighbor),
        pair@ == seq![window, neighbor] || pair@ == seq![neighbor, window],
    ensures
        final(tree).wf(),
        split == old(tree)@.len(),
        final(tree)@ == paired(old(tree)@, window, neighbor, parent, pair@, sizes),
{
    let ghost t = tree@;
    let window_props = tree.container(window).props;
    let parent_props = tree.container(parent).props;
    let split = tree.add(
        ContainerProps {
            kind: ContainerKind::Split,
            tiling_direction: parent_props.tiling_direction.inverse(),
            tiling_size: sizes.split,
            ..window_props
        },
    );
    proof {
        assert(forall|x: ContainerId| #[trigger]
            pair@.contains(x) ==> x == window || x == neighbor);
        assert(tree@[parent as int] == t[parent as int]);
    }
    wrap_in_split_container(tree, split, parent, pair);
    tree.set_tiling_size(window, sizes.window);
    tree.set_tiling_size(neighbor, sizes.neighbor);
    split
}

/// Turns the axis of what is around a tiling window.
///
/// If the window has a single tiling sibling, the axis of their parent is
/// turned. If it has none, its workspace is turned, or its split flattened.
/// If there are several, the window and its nearest neighbor are put into a
/// split of their own, so that the others are not affected.
///
/// Returns the container whose axis now applies to the window.
pub fn toggle_window_direction(
    tree: &mut Tree,
    tiling_window: ContainerId,
    measures: ToggleMeasures,
) -> (r: Result<ContainerId, CommandError>)
    requires
        old(tree).wf(),
        old(tree)@.len() < usize::MAX,
        tiling_window < old(tree)@.len(),
        old(tree)@[tiling_window as int].props.kind == ContainerKind::TilingWindow,
    ensures
        final(tree).wf(),
        (final(tree)@, r) == toggle_window_outcome(old(tree)@, tiling_window, measures),
        r matches Ok(p) ==> p < final(tree)@.len(),
{
    let ghost t = tree@;
    let parent = match focus::find_nearest(tree, tiling_window, Role::DirectionContainer) {
        Some(parent) => parent,
        None => {
            return Err(CommandError::NoDirectionContainer);
        },
    };
    if !has_tiling_siblings(tree, tiling_window) {
        if tree.container(parent).props.kind == ContainerKind::Workspace {
            turn(tree, parent);
            return Ok(parent);
        }
        match flatten_split_container(tree, parent) {
            Ok(_) => {},
            Err(e) => {
                return Err(e);
            },
        }
        tree.set_tiling_size(tiling_window, measures.flattened_size);
        return match focus::find_nearest(tree, tiling_window, Role::DirectionContainer) {
            Some(container) => Ok(container),
            None => Err(CommandError::NoDirectionContainer),
        };
    }
    let siblings = tree.tiling_children(parent);
    if siblings.len() == 2 {
        turn(tree, parent);
        return Ok(parent);
    }
    let position = match position(&siblings, tiling_window) {
        Some(position) => position,
        None => {
            return Err(CommandError::NotAChildOfOwnParent);
        },
    };
    proof {
        forest::lemma_tiling_of(t, t[parent as int].children);
        assert(t[parent as int].children.no_duplicates());
        assert(siblings@.no_duplicates());
        assert(siblings@.index_of(tiling_window) == position);
    }
    let (neighbor, neighbor_position) = match nearest_adjacent_sibling(
        &siblings,
        position,
        measures.distances,
    ) {
        Ok(Some(nearest)) => nearest,
        Ok(None) => {
            turn(tree, parent);
            return Ok(parent);
        },
        Err(e) => {
            return Err(e);
        },
    };
    proof {
        assert(siblings@.contains(tiling_window));
        assert(siblings@[neighbor_position as int] == neighbor);
        assert(siblings@.contains(neighbor));
    }
    let mut pair: Vec<ContainerId> = Vec::new();
    let sizes = if position < neighbor_position {
        pair.push(tiling_window);
        pair.push(neighbor);
        assert(pair@ =~= seq![tiling_window, neighbor]);
        measures.with_next
    } else {
        pair.push(neighbor);
        pair.push(tiling_window);
        assert(pair@ =~= seq![neighbor, tiling_window]);
        measures.with_previous
    };
    Ok(pair_up(tree, tiling_window, neighbor, parent, &pair, sizes))
}

/// What toggling from any container leads to. Only tiling windows and
/// workspaces can be toggled from.
pub open spec fn toggle_outcome(t: Forest, container: ContainerId, measures: ToggleMeasures) -> (
    Forest,
    Result<Option<ContainerId>, CommandError>,
) {
    match t[container as int].props.kind {
        ContainerKind::TilingWindow => {
            let (r, outcome) = toggle_window_outcome(t, container, measures);
            (
                r,
                match outcome {
                    Ok(p) => Ok(Some(p)),
                    Err(e) => Err(e),
                },
            )
        },
        ContainerKind::Workspace => (turned(t, container), Ok(Some(container))),
        _ => (t, Ok(None)),
    }
}

/// The state after toggling: what is laid out along a new axis is redrawn,
/// and subscribers are told.
pub open spec fn toggled_state(
    s: StateModel,
    container: ContainerId,
    measures: ToggleMeasures,
) -> StateModel {
    let (t, outcome) = toggle_outcome(s.tree, container, measures);
    match outcome {
        Ok(Some(p)) => StateModel {
            tree: t,
            redraw: wm_state::queued_all(s.redraw, forest::tiling_of(t, t[p as int].children)),
            events: s.events.push(
                WmEvent::TilingDirectionChanged {
                    direction_container: p,
                    new_tiling_direction: t[p as int].props.tiling_direction,
                },
            ),
            ..s
        },
        _ => StateModel { tree: t, ..s },
    }
}

/// The result of toggling.
pub open spec fn toggle_result(
    t: Forest,
    container: ContainerId,
    measures: ToggleMeasures,
) -> Result<(), CommandError> {
    match toggle_outcome(t, container, measures).1 {
        Ok(_) => Ok(()),
        Err(e) => Err(e),
    }
}

/// Toggles the axis of what is around a tiling window, or of a workspace.
/// Does nothing for other containers.
pub fn toggle_tiling_direction(
    container: ContainerId,
    state: &mut WmState,
    _config: &UserConfig,
    measures: ToggleMeasures,
) -> (r: Result<(), CommandError>)
    requires
        old(state).wf(),
        old(state).tree@.len() < usize::MAX,
        container < old(state).tree@.len(),
    ensures
        final(state).wf(),
        final(state)@ == toggled_state(old(state)@, container, measures),
        r == toggle_result(old(state)@.tree, container, measures),
{
    let ghost t = state.tree@;
    let direction_container = match state.tree.container(container).props.kind {
        ContainerKind::TilingWindow => {
            match toggle_window_direction(&mut state.tree, container, measures) {
                Ok(direction_container) => direction_container,
                Err(e) => {
                    proof {
                        lemma_outcome_keeps_root(t, container, measures, state.root);
                    }
                    return Err(e);
                },
            }
        },
        ContainerKind::Workspace => {
            turn(&mut state.tree, container);
            container
        },
        // Only tiling windows and workspaces can be toggled from.
        _ => {
            return Ok(());
        },
    };
    proof {
        lemma_outcome_keeps_root(t, container, measures, state.root);
    }
    let tiling_children = state.tree.tiling_children(direction_container);
    let new_tiling_direction = state.tree.container(direction_container).props.tiling_direction;
    state.pending_sync.queue_containers_to_redraw(&tiling_children);
    proof {
        wm_state::law_queue_has_no_duplicates(old(state)@.redraw, tiling_children@);
    }
    state.emit_event(WmEvent::TilingDirectionChanged { direction_container, new_tiling_direction });
    Ok(())
}

/// Toggling leaves what is at the top of the tree there.
proof fn lemma_outcome_keeps_root(
    t: Forest,
    container: ContainerId,
    measures: ToggleMeasures,
    root: ContainerId,
)
    requires
        forest::well_formed(t),
        container < t.len(),
        root < t.len(),
        t[root as int].parent is None,
    ensures
        root < toggle_outcome(t, container, measures).0.len(),
        toggle_outcome(t, container, measures).0[root as int].parent is None,
{
    let r = toggle_outcome(t, container, measures).0;
    if t[container as int].props.kind == ContainerKind::TilingWindow {
        if let Some(p) = focus::nearest(t, container, Role::DirectionContainer) {
            let siblings = forest::tiling_of(t, t[p as int].children);
            if let Some(distances) = measures.distances {
                forest::lemma_tiling_of(t, t[p as int].children);
                if siblings.contains(container) {
                    let position = siblings.index_of(container);
                    assert(0 <= position < siblings.len() && siblings[position] == container);
                    if let Some((neighbor, index)) = closest_adjacent(
                        siblings,
                        position,
                        distances,
                    ) {
                        assert(siblings[index] == neighbor);
                        assert(siblings.contains(neighbor));
                        assert(t[p as int].children.contains(neighbor));
                        assert(t[p as int].children.contains(container));
                        assert(neighbor != root && container != root);
                    }
                }
            }
        }
    }
}

/// Turning an axis changes neither links nor kinds.
pub proof fn lemma_turned(t: Forest, p: ContainerId)
    requires
        forest::well_formed(t),
        p < t.len(),
    ensures
        forest::same_links(t, turned(t, p)),
        forest::well_formed(turned(t, p)),
        turned(turned(t, p), p) == t,
{
    assert(forest::same_links(t, turned(t, p)));
    forest::lemma_same_links(t, turned(t, p));
    assert(turned(turned(t, p), p) =~= t);
}

/// Siblings depend on links and kinds alone.
proof fn lemma_same_siblings(t: Forest, r: Forest, x: ContainerId)
    requires
        forest::well_formed(t),
        forest::same_links(t, r),
        x < t.len(),
    ensures
        tiling_siblings(r, x) == tiling_siblings(t, x),
{
    assert(r[x as int].props.kind == t[x as int].props.kind);
    if let Some(p) = t[x as int].parent {
        assert(r[p as int].props.kind == t[p as int].props.kind);
        let others = forest::without(t[p as int].children, x);
        forest::lemma_without(t[p as int].children, x);
        assert forall|c: ContainerId| #[trigger] others.contains(c) implies r[c as int].props.kind
            == t[c as int].props.kind by {
            assert(t[p as int].children.contains(c));
        }
        forest::lemma_same_tiling(t, r, others);
    }
}

/// Wherever toggling turns an axis, toggling from the same window once more
/// turns it back.
pub proof fn law_toggling_twice_restores_the_tree(
    t: Forest,
    window: ContainerId,
    measures: ToggleMeasures,
    later_measures: ToggleMeasures,
    p: ContainerId,
)
    requires
        forest::well_formed(t),
        window < t.len(),
        p < t.len(),
        focus::nearest(t, window, Role::DirectionContainer) == Some(p),
        tiling_siblings(t, window).len() == 0 && t[p as int].props.kind == ContainerKind::Workspace
            || tiling_siblings(t, window).len() > 0 && forest::tiling_of(
            t,
            t[p as int].children,
        ).len() == 2,
    ensures
        ({
            let (r, outcome) = toggle_window_outcome(t, window, measures);
            &&& outcome == Ok::<ContainerId, CommandError>(p)
            &&& r[p as int].props.tiling_direction
                == t[p as int].props.tiling_direction.spec_inverse()
            &&& toggle_window_outcome(r, window, later_measures) == (
                t,
                Ok::<ContainerId, CommandError>(p),
            )
        }),
{
    let r = turned(t, p);
    lemma_turned(t, p);
    focus::lemma_same_nearest(t, r, window, Role::DirectionContainer);
    lemma_same_siblings(t, r, window);
    let children = t[p as int].children;
    assert forall|c: ContainerId| #[trigger] children.contains(c) implies r[c as int].props.kind
        == t[c as int].props.kind by {
        assert(t[p as int].children.contains(c));
    }
    forest::lemma_same_tiling(t, r, children);
}

/// Turning an axis moves nothing: every container keeps its parent, its
/// children and its size.
pub proof fn law_turning_moves_nothing(t: Forest, p: ContainerId, x: ContainerId)
    requires
        p < t.len(),
        x < t.len(),
    ensures
        turned(t, p)[x as int].parent == t[x as int].parent,
        turned(t, p)[x as int].children == t[x as int].children,
        turned(t, p)[x as int].focus == t[x as int].focus,
        turned(t, p)[x as int].props.tiling_size == t[x as int].props.tiling_size,
        x != p ==> turned(t, p)[x as int] == t[x as int],
{
}

/// Isolating a pair leaves the axis of their old parent and everything
/// beside the two alone, and toggling from the window once more turns just
/// the split that holds the pair.
pub proof fn law_isolated_pair_is_turned_alone(
    t: Forest,
    window: ContainerId,
    neighbor: ContainerId,
    p: ContainerId,
    pair: Seq<ContainerId>,
    sizes: PairSizes,
    later_measures: ToggleMeasures,
)
    requires
        forest::well_formed(t),
        t.len() < usize::MAX,
        p < t.len(),
        t[p as int].props.kind.spec_is_direction(),
        window != neighbor,
        t[window as int].props.kind == ContainerKind::TilingWindow,
        t[neighbor as int].props.kind.spec_is_tiling(),
        t[p as int].children.contains(window),
        t[p as int].children.contains(neighbor),
        pair == seq![window, neighbor] || pair == seq![neighbor, window],
    ensures
        ({
            let split = t.len() as usize;
            let r = paired(t, window, neighbor, p, pair, sizes);
            &&& r[split as int].children == pair
            &&& r[window as int].parent == Some(split)
            &&& focus::nearest(r, window, Role::DirectionContainer) == Some(split)
            &&& r[split as int].props.tiling_direction
                == t[p as int].props.tiling_direction.spec_inverse()
            &&& r[p as int].props == t[p as int].props
            &&& forall|x: ContainerId|
                x < t.len() && x != p && x != window && x != neighbor ==> #[trigger] r[x as int]
                    == t[x as int]
            &&& toggle_window_outcome(r, window, later_measures) == (
                turned(r, split),
                Ok::<ContainerId, CommandError>(split),
            )
        }),
{
    let split = t.len() as usize;
    let with_split = forest::added(t, pair_props(t, window, p, sizes));
    let r = paired(t, window, neighbor, p, pair, sizes);
    assert(t[p as int].children.contains(window) && t[p as int].children.contains(neighbor));
    forest::lemma_parent_not_within(t, window, p);
    forest::lemma_parent_not_within(t, neighbor, p);
    assert forall|x: ContainerId| #[trigger] pair.contains(x) <==> x == window || x == neighbor by {
        assert(pair[0] == window || pair[1] == window);
        assert(pair[0] == neighbor || pair[1] == neighbor);
    }
    // The window finds its new parent right above it.
    assert(forest::above(r, window, 0) == Some(window));
    assert(r[window as int].parent == Some(split));
    assert(forest::above(r, window, 1) == Some(split));
    assert(focus::nearest_at(r, window, Role::DirectionContainer, 1)) by {
        assert(r[window as int].props.kind == ContainerKind::TilingWindow);
        assert(r[split as int].props.kind == ContainerKind::Split);
    }
    focus::lemma_nearest(r, window, Role::DirectionContainer, 1);
    // Both children of the split tile.
    reveal_with_fuel(Seq::filter, 3);
    assert(pair.drop_last().drop_last() =~= Seq::empty());
    assert(r[neighbor as int].props.kind.spec_is_tiling());
    assert(forest::tiling_of(r, pair).len() == 2);
    let others = forest::without(pair, window);
    forest::lemma_without(pair, window);
    forest::lemma_tiling_of(r, others);
    assert(others.contains(neighbor));
    assert(forest::tiling_of(r, others).contains(neighbor));
}

/// A focused window stays focused when an axis is toggled.
pub proof fn law_toggling_keeps_focus(
    t: Forest,
    window: ContainerId,
    measures: ToggleMeasures,
    x: ContainerId,
)
    requires
        forest::well_formed(t),
        t.len() < usize::MAX,
        window < t.len(),
        t[window as int].props.kind == ContainerKind::TilingWindow,
        x < t.len(),
        t[x as int].props.kind.spec_is_window(),
        forest::focused(t, x),
    ensures
        forest::focused(toggle_window_outcome(t, window, measures).0, x),
{
    if let Some(p) = focus::nearest(t, window, Role::DirectionContainer) {
        lemma_nearest_exists(t, window, p);
        let siblings = forest::tiling_of(t, t[p as int].children);
        lemma_turned(t, p);
        forest::lemma_same_focused(t, turned(t, p), x);
        if tiling_siblings(t, window).len() == 0 {
            if t[p as int].props.kind != ContainerKind::Workspace && t[p as int].parent is Some {
                let r = split_container::flattened(t, p);
                split_container::law_flattening_keeps_focus(t, p, x);
                split_container::lemma_flattened(t, p);
                assert(forest::same_links(r, forest::resized(r, window, measures.flattened_size)));
                forest::lemma_same_focused(
                    r,
                    forest::resized(r, window, measures.flattened_size),
                    x,
                );
            }
        } else if siblings.len() != 2 && siblings.contains(window) {
            if let Some(distances) = measures.distances {
                let position = siblings.index_of(window);
                assert(0 <= position < siblings.len() && siblings[position] == window);
                if let Some((neighbor, index)) = closest_adjacent(siblings, position, distances) {
                    forest::lemma_tiling_of(t, t[p as int].children);
                    assert(t[p as int].children.no_duplicates());
                    assert(siblings[index] == neighbor);
                    assert(siblings.contains(neighbor));
                    assert(t[p as int].children.contains(neighbor));
                    assert(t[p as int].children.contains(window));
                    let (pair, sizes) = if position < index {
                        (seq![window, neighbor], measures.with_next)
                    } else {
                        (seq![neighbor, window], measures.with_previous)
                    };
                    lemma_pairing_keeps_focus(t, window, neighbor, p, pair, sizes, x);
                }
            }
        }
    }
}

/// The nearest direction container of a window is a container other than it.
proof fn lemma_nearest_exists(t: Forest, window: ContainerId, p: ContainerId)
    requires
        forest::well_formed(t),
        window < t.len(),
        t[window as int].props.kind == ContainerKind::TilingWindow,
        focus::nearest(t, window, Role::DirectionContainer) == Some(p),
    ensures
        p < t.len(),
        t[p as int].props.kind.spec_is_direction(),
{
    let rank = choose|rank: Seq<nat>| forest::ranked(t, rank);
    let n = choose|n: nat| focus::nearest_at(t, window, Role::DirectionContainer, n);
    forest::lemma_above_rank(t, rank, window, n);
}

/// What is focused stays so when a pair is isolated.
proof fn lemma_pairing_keeps_focus(
    t: Forest,
    window: ContainerId,
    neighbor: ContainerId,
    p: ContainerId,
    pair: Seq<ContainerId>,
    sizes: PairSizes,
    x: ContainerId,
)
    requires
        forest::well_formed(t),
        t.len() < usize::MAX,
        p < t.len(),
        window != neighbor,
        t[p as int].children.contains(window),
        t[p as int].children.contains(neighbor),
        pair == seq![window, neighbor] || pair == seq![neighbor, window],
        x < t.len(),
        forest::focused(t, x),
    ensures
        forest::focused(paired(t, window, neighbor, p, pair, sizes), x),
{
    let split = t.len() as usize;
    let props = pair_props(t, window, p, sizes);
    let with_split = forest::added(t, props);
    forest::lemma_added(t, props);
    forest::lemma_added_focused(t, props, x);
    assert(with_split[p as int] == t[p as int]);
    assert forall|y: ContainerId| #[trigger] pair.contains(y) implies with_split[p as int].children.contains(
        y,
    ) by {
        assert(y == window || y == neighbor);
    }
    assert(split_container::wrappable(with_split, split, p, pair));
    split_container::law_wrapping_keeps_focus(with_split, split, p, pair, x);
    split_container::lemma_wrapped(with_split, split, p, pair);
    let r = split_container::wrapped(with_split, split, p, pair);
    let once = forest::resized(r, window, sizes.window);
    let twice = forest::resized(once, neighbor, sizes.neighbor);
    assert(forest::same_links(r, twice));
    forest::lemma_same_focused(r, twice, x);
}

/// The neighbor that a window is paired with, its position amongst the tiling
/// siblings, and the indices of the two amongst the children of `p`, the
/// smaller one first.
pub proof fn lemma_pair_places(
    t: Forest,
    window: ContainerId,
    p: ContainerId,
    distances: SiblingDistances,
) -> (r: (ContainerId, int, int, int))
    requires
        forest::well_formed(t),
        p < t.len(),
        forest::tiling_of(t, t[p as int].children).contains(window),
        closest_adjacent(
            forest::tiling_of(t, t[p as int].children),
            forest::tiling_of(t, t[p as int].children).index_of(window),
            distances,
        ) is Some,
    ensures
        ({
            let children = t[p as int].children;
            let siblings = forest::tiling_of(t, children);
            let (neighbor, index, i, j) = r;
            &&& closest_adjacent(siblings, siblings.index_of(window), distances) == Some(
                (neighbor, index),
            )
            &&& neighbor != window
            &&& neighbor < t.len()
            &&& t[neighbor as int].props.kind.spec_is_tiling()
            &&& 0 <= i < j < children.len()
            &&& siblings.index_of(window) < index ==> children[i] == window && children[j]
                == neighbor
            &&& siblings.index_of(window) >= index ==> children[i] == neighbor && children[j]
                == window
            &&& forall|k: int|
                i < k < j ==> !t[#[trigger] children[k] as int].props.kind.spec_is_tiling()
        }),
{
    let children = t[p as int].children;
    let siblings = forest::tiling_of(t, children);
    let position = siblings.index_of(window);
    assert(0 <= position < siblings.len() && siblings[position] == window);
    let (neighbor, index) = closest_adjacent(siblings, position, distances)->0;
    assert(siblings[index] == neighbor);
    forest::lemma_tiling_of(t, children);
    assert(siblings.contains(neighbor));
    assert(t[p as int].children.contains(neighbor));
    assert(children.no_duplicates());
    assert(siblings.no_duplicates());
    let (i, j) = if position < index {
        lemma_adjacent_places(t, children, position)
    } else {
        lemma_adjacent_places(t, children, index)
    };
    (neighbor, index, i, j)
}

/// Where a tiling container and the next one are in a list. None of those
/// between the two tiles.
proof fn lemma_adjacent_places(t: Forest, list: Seq<ContainerId>, a: int) -> (r: (int, int))
    requires
        0 <= a < forest::tiling_of(t, list).len() - 1,
    ensures
        0 <= r.0 < r.1 < list.len(),
        list[r.0] == forest::tiling_of(t, list)[a],
        list[r.1] == forest::tiling_of(t, list)[a + 1],
        forall|k: int|
            r.0 < k < r.1 ==> !t[#[trigger] list[k] as int].props.kind.spec_is_tiling(),
    decreases list.len(),
{
    reveal(Seq::filter);
    let siblings = forest::tiling_of(t, list);
    let init = list.drop_last();
    let part = forest::tiling_of(t, init);
    if a + 1 < part.len() {
        let r = lemma_adjacent_places(t, init, a);
        assert forall|k: int| r.0 < k < r.1 implies !t[
            #[trigger] list[k] as int
        ].props.kind.spec_is_tiling() by {
            assert(init[k] == list[k]);
        }
        r
    } else {
        let i = lemma_last_place(t, init);
        let j = list.len() - 1;
        assert forall|k: int| i < k < j implies !t[
            #[trigger] list[k] as int
        ].props.kind.spec_is_tiling() by {
            assert(init[k] == list[k]);
        }
        (i, j)
    }
}

/// Where the last tiling container of a list is.
proof fn lemma_last_place(t: Forest, list: Seq<ContainerId>) -> (i: int)
    requires
        forest::tiling_of(t, list).len() > 0,
    ensures
        0 <= i < list.len(),
        list[i] == forest::tiling_of(t, list).last(),
        forall|k: int|
            i < k < list.len() ==> !t[#[trigger] list[k] as int].props.kind.spec_is_tiling(),
    decreases list.len(),
{
    reveal(Seq::filter);
    if t[list.last() as int].props.kind.spec_is_tiling() {
        list.len() - 1
    } else {
        let init = list.drop_last();
        let i = lemma_last_place(t, init);
        assert forall|k: int| i < k < list.len() implies !t[
            #[trigger] list[k] as int
        ].props.kind.spec_is_tiling() by {
            if k < list.len() - 1 {
                assert(init[k] == list[k]);
            }
        }
        i
    }
}

/// Whether toggling from `window` isolates it together with a neighbor, and
/// the two are the children of `p` with the indices `i` and `j`.
pub open spec fn isolates(
    t: Forest,
    window: ContainerId,
    measures: ToggleMeasures,
    p: ContainerId,
    i: int,
    j: int,
) -> bool {
    let children = t[p as int].children;
    let siblings = forest::tiling_of(t, children);
    &&& focus::nearest(t, window, Role::DirectionContainer) == Some(p)
    &&& siblings.len() > 2
    &&& 0 <= i < j < children.len()
    &&& measures.distances matches Some(distances) && closest_adjacent(
        siblings,
        siblings.index_of(window),
        distances,
    ) matches Some((neighbor, _)) && {
        ||| children[i] == window && children[j] == neighbor
        ||| children[i] == neighbor && children[j] == window
    }
}

/// Whether toggling from `window` isolates a pair, `x` is below a child
/// between the two, and `y` is below the second one.
///
/// What does not tile may be between two neighbors.
pub open spec fn is_passed_by_pair(
    t: Forest,
    window: ContainerId,
    measures: ToggleMeasures,
    x: ContainerId,
    y: ContainerId,
) -> bool {
    exists|p: ContainerId, i: int, j: int|
        isolates(t, window, measures, p, i, j) && #[trigger] visual_order::is_passed(
            t,
            p,
            i,
            j,
            x,
            y,
        )
}

/// Toggling keeps the order in which the windows are laid out, wherever an
/// axis is turned, a split is flattened or a pair is isolated. Only where
/// something that does not tile is between the two windows of the pair does
/// the second one of them pass it.
pub proof fn law_toggling_keeps_the_order(
    t: Forest,
    window: ContainerId,
    measures: ToggleMeasures,
    x: ContainerId,
    y: ContainerId,
)
    requires
        forest::well_formed(t),
        t.len() < usize::MAX,
        window < t.len(),
        t[window as int].props.kind == ContainerKind::TilingWindow,
        x < t.len(),
        y < t.len(),
        t[x as int].props.kind.spec_is_window(),
        t[y as int].props.kind.spec_is_window(),
        visual_order::laid_before(t, x, y),
        !is_passed_by_pair(t, window, measures, x, y),
    ensures
        visual_order::laid_before(toggle_window_outcome(t, window, measures).0, x, y),
{
    if let Some(p) = focus::nearest(t, window, Role::DirectionContainer) {
        lemma_nearest_exists(t, window, p);
        let siblings = forest::tiling_of(t, t[p as int].children);
        lemma_turned(t, p);
        visual_order::lemma_same_order(t, turned(t, p), x, y);
        if tiling_siblings(t, window).len() == 0 {
            if t[p as int].props.kind != ContainerKind::Workspace && t[p as int].parent is Some {
                let r = split_container::flattened(t, p);
                visual_order::law_flattening_keeps_the_order(t, p, x, y);
                assert(forest::same_links(r, forest::resized(r, window, measures.flattened_size)));
                visual_order::lemma_same_order(
                    r,
                    forest::resized(r, window, measures.flattened_size),
                    x,
                    y,
                );
            }
        } else if siblings.len() != 2 && siblings.contains(window) {
            if let Some(distances) = measures.distances {
                let position = siblings.index_of(window);
                if closest_adjacent(siblings, position, distances) is Some {
                    let (neighbor, index, i, j) = lemma_pair_places(t, window, p, distances);
                    assert(0 <= position < siblings.len());
                    assert(!visual_order::is_passed(t, p, i, j, x, y));
                    lemma_pairing_keeps_the_order(
                        t,
                        window,
                        neighbor,
                        p,
                        i,
                        j,
                        if position < index {
                            measures.with_next
                        } else {
                            measures.with_previous
                        },
                        x,
                        y,
                    );
                }
            }
        }
    }
}

/// Toggling keeps the order in which the tiling windows are laid out, given
/// that nothing but windows and tiling containers is laid out along an axis.
pub proof fn law_toggling_keeps_the_order_of_tiling_windows(
    t: Forest,
    window: ContainerId,
    measures: ToggleMeasures,
    x: ContainerId,
    y: ContainerId,
)
    requires
        forest::well_formed(t),
        t.len() < usize::MAX,
        window < t.len(),
        t[window as int].props.kind == ContainerKind::TilingWindow,
        x < t.len(),
        y < t.len(),
        t[x as int].props.kind == ContainerKind::TilingWindow,
        t[y as int].props.kind == ContainerKind::TilingWindow,
        visual_order::laid_before(t, x, y),
        forall|p: ContainerId, c: ContainerId|
            #![trigger t[p as int].children.contains(c)]
            p < t.len() && t[p as int].props.kind.spec_is_direction()
                && t[p as int].children.contains(c) ==> t[c as int].props.kind.spec_is_window()
                || t[c as int].props.kind.spec_is_tiling(),
    ensures
        visual_order::laid_before(toggle_window_outcome(t, window, measures).0, x, y),
{
    if is_passed_by_pair(t, window, measures, x, y) {
        let p = focus::nearest(t, window, Role::DirectionContainer)->0;
        lemma_nearest_exists(t, window, p);
        let children = t[p as int].children;
        let siblings = forest::tiling_of(t, children);
        let distances = measures.distances->0;
        let (q, i, j) = choose|q: ContainerId, i: int, j: int|
            isolates(t, window, measures, q, i, j) && #[trigger] visual_order::is_passed(
                t,
                q,
                i,
                j,
                x,
                y,
            );
        assert(q == p);
        assert(children.contains(window)) by {
            assert(children.contains(children[i]) && children.contains(children[j]));
        }
        forest::lemma_tiling_of(t, children);
        assert(siblings.contains(window));
        let (neighbor, index, a, b) = lemma_pair_places(t, window, p, distances);
        assert(children.no_duplicates());
        assert(i == a && j == b);
        let k = choose|k: int| i < k < j && forest::within(t, x, #[trigger] children[k]);
        let c = children[k];
        assert(t[p as int].children.contains(c));
        focus::lemma_leaf(t, c, x);
    }
    law_toggling_keeps_the_order(t, window, measures, x, y);
}

/// The order in which windows are laid out stays the same when a pair is
/// isolated, as long as the pair does not pass anything.
proof fn lemma_pairing_keeps_the_order(
    t: Forest,
    window: ContainerId,
    neighbor: ContainerId,
    p: ContainerId,
    i: int,
    j: int,
    sizes: PairSizes,
    x: ContainerId,
    y: ContainerId,
)
    requires
        forest::well_formed(t),
        t.len() < usize::MAX,
        p < t.len(),
        window < t.len(),
        neighbor < t.len(),
        0 <= i < j < t[p as int].children.len(),
        x < t.len(),
        y < t.len(),
        visual_order::laid_before(t, x, y),
        !visual_order::is_passed(t, p, i, j, x, y),
    ensures
        visual_order::laid_before(
            paired(
                t,
                window,
                neighbor,
                p,
                seq![t[p as int].children[i], t[p as int].children[j]],
                sizes,
            ),
            x,
            y,
        ),
{
    let split = t.len() as usize;
    let children = t[p as int].children;
    let pair = seq![children[i], children[j]];
    let props = pair_props(t, window, p, sizes);
    let with_split = forest::added(t, props);
    forest::lemma_added(t, props);
    visual_order::lemma_added_order(t, props, x, y);
    assert(with_split[p as int] == t[p as int]);
    assert(children.no_duplicates());
    assert forall|z: ContainerId| #[trigger] pair.contains(z) implies with_split[p as int].children.contains(
        z,
    ) by {
        assert(children.contains(children[i]) && children.contains(children[j]));
    }
    assert(split_container::wrappable(with_split, split, p, pair));
    assert(!visual_order::is_passed(with_split, p, i, j, x, y)) by {
        if visual_order::is_passed(with_split, p, i, j, x, y) {
            let k = choose|k: int|
                i < k < j && forest::within(with_split, x, #[trigger] children[k]);
            let n = choose|n: nat| #[trigger]
                forest::above(with_split, x, n) == Some(children[k]);
            forest::lemma_added_above(t, props, x, n);
            assert(forest::within(t, x, t[p as int].children[k]));
            let n = choose|n: nat| #[trigger]
                forest::above(with_split, y, n) == Some(children[j]);
            forest::lemma_added_above(t, props, y, n);
            assert(forest::within(t, y, t[p as int].children[j]));
        }
    }
    visual_order::law_wrapping_a_pair_keeps_the_order(with_split, split, p, i, j, x, y);
    let r = split_container::wrapped(with_split, split, p, pair);
    let once = forest::resized(r, window, sizes.window);
    let twice = forest::resized(once, neighbor, sizes.neighbor);
    assert(forest::same_links(r, twice));
    visual_order::lemma_same_order(r, twice, x, y);
}

/// Whether toggling from `container` turns the axis that applies to it: it is
/// a workspace, or a tiling window that has a tiling sibling or whose nearest
/// direction container is a workspace.
pub open spec fn has_axis_of_its_own(t: Forest, container: ContainerId) -> bool {
    match t[container as int].props.kind {
        ContainerKind::Workspace => true,
        ContainerKind::TilingWindow => tiling_siblings(t, container).len() > 0 || (
        focus::nearest(t, container, Role::DirectionContainer) matches Some(p)
            && t[p as int].props.kind == ContainerKind::Workspace),
        _ => false,
    }
}

/// Toggling turns the axis that applies to a container, and toggling once
/// more turns it back. The first call gives a container whose axis is the
/// inverse of the old one and applies from then on, and which is the parent of
/// a window that was laid out along the old axis. The second call gives the
/// same container, with the old axis.
pub proof fn law_toggling_turns_the_axis(
    t: Forest,
    container: ContainerId,
    measures: ToggleMeasures,
    later_measures: ToggleMeasures,
    p: ContainerId,
    q: ContainerId,
)
    requires
        forest::well_formed(t),
        t.len() < usize::MAX,
        container < t.len(),
        has_axis_of_its_own(t, container),
        focus::nearest(t, container, Role::DirectionContainer) == Some(p),
        toggle_outcome(t, container, measures).1 == Ok::<Option<ContainerId>, CommandError>(
            Some(q),
        ),
    ensures
        ({
            let r = toggle_outcome(t, container, measures).0;
            let (s, outcome) = toggle_outcome(r, container, later_measures);
            &&& focus::nearest(r, container, Role::DirectionContainer) == Some(q)
            &&& r[q as int].props.tiling_direction
                == t[p as int].props.tiling_direction.spec_inverse()
            &&& t[container as int].parent == Some(p) ==> r[container as int].parent == Some(q)
            &&& outcome == Ok::<Option<ContainerId>, CommandError>(Some(q))
            &&& s[q as int].props.tiling_direction == t[p as int].props.tiling_direction
        }),
{
    let r = toggle_outcome(t, container, measures).0;
    if t[container as int].props.kind == ContainerKind::Workspace {
        assert(forest::above(t, container, 0) == Some(container));
        assert(focus::nearest_at(t, container, Role::DirectionContainer, 0));
        focus::lemma_nearest(t, container, Role::DirectionContainer, 0);
        lemma_turned(t, container);
        focus::lemma_same_nearest(t, r, container, Role::DirectionContainer);
    } else {
        lemma_nearest_exists(t, container, p);
        let children = t[p as int].children;
        let siblings = forest::tiling_of(t, children);
        if tiling_siblings(t, container).len() == 0 || siblings.len() == 2 {
            law_toggling_twice_restores_the_tree(t, container, measures, later_measures, p);
            lemma_turned(t, p);
            focus::lemma_same_nearest(t, r, container, Role::DirectionContainer);
        } else {
            let distances = measures.distances->0;
            lemma_has_neighbor(t, container, p, distances);
            let (neighbor, index, i, j) = lemma_pair_places(t, container, p, distances);
            let (pair, sizes) = if siblings.index_of(container) < index {
                (seq![container, neighbor], measures.with_next)
            } else {
                (seq![neighbor, container], measures.with_previous)
            };
            assert(children.contains(children[i]) && children.contains(children[j]));
            law_isolated_pair_is_turned_alone(
                t,
                container,
                neighbor,
                p,
                pair,
                sizes,
                later_measures,
            );
        }
    }
}

/// A window with a tiling sibling has a neighbor.
proof fn lemma_has_neighbor(
    t: Forest,
    window: ContainerId,
    p: ContainerId,
    distances: SiblingDistances,
)
    requires
        forest::well_formed(t),
        p < t.len(),
        window < t.len(),
        tiling_siblings(t, window).len() > 0,
        forest::tiling_of(t, t[p as int].children).contains(window),
    ensures
        closest_adjacent(
            forest::tiling_of(t, t[p as int].children),
            forest::tiling_of(t, t[p as int].children).index_of(window),
            distances,
        ) is Some,
{
    let children = t[p as int].children;
    let siblings = forest::tiling_of(t, children);
    let position = siblings.index_of(window);
    assert(0 <= position < siblings.len() && siblings[position] == window);
    forest::lemma_tiling_of(t, children);
    assert(t[p as int].children.contains(window));
    let others = forest::without(children, window);
    forest::lemma_without(children, window);
    forest::lemma_tiling_of(t, others);
    let s = forest::tiling_of(t, others)[0];
    assert(forest::tiling_of(t, others).contains(s));
    assert(others.contains(s));
    assert(siblings.contains(s));
    assert(s != window);
    let k = choose|k: int| 0 <= k < siblings.len() && siblings[k] == s;
    assert(k != position);
}

/// What setting an axis leads to.
pub open spec fn set_outcome(
    s: StateModel,
    container: ContainerId,
    tiling_direction: TilingDirection,
    measures: ToggleMeasures,
) -> (StateModel, Result<(), CommandError>) {
    match focus::nearest(s.tree, container, Role::DirectionContainer) {
        None => (s, Err(CommandError::NoDirectionContainer)),
        Some(p) => if s.tree[p as int].props.tiling_direction == tiling_direction {
            (s, Ok(()))
        } else {
            (
                toggled_state(s, container, measures),
                toggle_result(s.tree, container, measures),
            )
        },
    }
}

/// After the axis of a workspace, or of a tiling window with an axis of its
/// own, was set, the nearest direction container has that axis. Setting it
/// once more changes nothing at all: neither the tree, nor what is to be
/// redrawn, nor the events.
pub proof fn law_setting_an_axis_takes_effect_once(
    s: StateModel,
    container: ContainerId,
    tiling_direction: TilingDirection,
    measures: ToggleMeasures,
    later_measures: ToggleMeasures,
)
    requires
        forest::well_formed(s.tree),
        s.tree.len() < usize::MAX,
        container < s.tree.len(),
        has_axis_of_its_own(s.tree, container),
        set_outcome(s, container, tiling_direction, measures).1 is Ok,
    ensures
        ({
            let r = set_outcome(s, container, tiling_direction, measures).0;
            let q = focus::nearest(r.tree, container, Role::DirectionContainer);
            &&& q is Some
            &&& r.tree[q->0 as int].props.tiling_direction == tiling_direction
            &&& set_outcome(r, container, tiling_direction, later_measures) == (
                r,
                Ok::<(), CommandError>(()),
            )
        }),
{
    let p = focus::nearest(s.tree, container, Role::DirectionContainer)->0;
    if s.tree[p as int].props.tiling_direction != tiling_direction {
        let q = toggle_outcome(s.tree, container, measures).1->Ok_0->0;
        law_toggling_turns_the_axis(s.tree, container, measures, later_measures, p, q);
    }
}

/// Sets the axis of the nearest workspace or split from a container upwards.
///
/// Nothing changes if that axis is the given one already. Otherwise, the
/// axis is toggled from the container.
pub fn set_tiling_direction(
    container: ContainerId,
    state: &mut WmState,
    config: &UserConfig,
    tiling_direction: &TilingDirection,
    measures: ToggleMeasures,
) -> (r: Result<(), CommandError>)
    requires
        old(state).wf(),
        old(state).tree@.len() < usize::MAX,
        container < old(state).tree@.len(),
    ensures
        final(state).wf(),
        (final(state)@, r) == set_outcome(old(state)@, container, *tiling_direction, measures),
{
    let direction_container = match focus::find_nearest(
        &state.tree,
        container,
        Role::DirectionContainer,
    ) {
        Some(direction_container) => direction_container,
        None => {
            return Err(CommandError::NoDirectionContainer);
        },
    };
    if state.tree.container(direction_container).props.tiling_direction == *tiling_direction {
        Ok(())
    } else {
        toggle_tiling_direction(container, state, config, measures)
    }
}

/// The sibling that a window is paired with is one next to it, and no farther
/// from it than the other one next to it, however many siblings there are.
/// If both are equally far, it is the one before the window. There is none
/// only if the window has no siblings.
pub proof fn law_paired_sibling_is_the_closest(
    siblings: Seq<ContainerId>,
    position: int,
    distances: SiblingDistances,
)
    requires
        0 <= position < siblings.len(),
    ensures
        match closest_adjacent(siblings, position, distances) {
            Some((sibling, index)) => {
                &&& 0 <= index < siblings.len()
                &&& siblings[index] == sibling
                &&& index == position - 1 || index == position + 1
                &&& position + 1 < siblings.len() && index < position ==> distances.previous
                    <= distances.next
                &&& 0 < position && index > position ==> distances.next < distances.previous
            },
            None => siblings.len() == 1,
        },
{
}

} // verus!
