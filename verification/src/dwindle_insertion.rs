//! Inserting new windows by splitting the area of an existing one.

use vstd::prelude::*;

use crate::container::{ContainerId, ContainerKind, ContainerProps, Node};
use crate::error::CommandError;
use crate::focus::{self, Role};
use crate::forest::{self, Forest};
use crate::geometry::{Rect, TilingDirection};
use crate::split_container::{self, wrap_in_split_container};
use crate::tree::Tree;
use crate::wm_state::WmState;

verus! {

/// The number one as a tiling size.
pub const FULL_SIZE: u32 = 0x3f80_0000;

/// The number one half as a tiling size.
pub const HALF_SIZE: u32 = 0x3f00_0000;

/// Whether `r` is what a newly managed window will split: the focused container
/// if it is a tiling window, and otherwise the tiling window of the focused
/// workspace that was focused last.
pub open spec fn is_split_target(
    t: Forest,
    root: ContainerId,
    r: Result<Option<ContainerId>, CommandError>,
) -> bool {
    match focus::focused_container(t, root) {
        None => r == Err::<Option<ContainerId>, CommandError>(CommandError::NoFocusedContainer),
        Some(focused) => match focus::nearest(t, focused, Role::Workspace) {
            None => r == Err::<Option<ContainerId>, CommandError>(CommandError::NoWorkspace),
            Some(workspace) => if t[focused as int].props.kind == ContainerKind::TilingWindow {
                r == Ok::<Option<ContainerId>, CommandError>(Some(focused))
            } else {
                match r {
                    Ok(Some(x)) => focus::is_latest_tiling_window(t, workspace, x),
                    Ok(None) => forall|x: ContainerId| !focus::is_tiling_window_of(t, workspace, x),
                    Err(_) => false,
                }
            },
        },
    }
}

/// Gets the tiling window that a newly managed window will split, if any.
///
/// That is the focused container if it is a tiling window, and otherwise the
/// tiling window of the focused workspace that was focused last. There is
/// none while the workspace has no tiling windows.
pub fn dwindle_split_target(state: &WmState) -> (r: Result<Option<ContainerId>, CommandError>)
    requires
        state.wf(),
    ensures
        is_split_target(state.tree@, state.root, r),
{
    let focused_container = match state.focused_container() {
        Some(focused_container) => focused_container,
        None => {
            return Err(CommandError::NoFocusedContainer);
        },
    };
    let focused_workspace = match focus::find_nearest(
        &state.tree,
        focused_container,
        Role::Workspace,
    ) {
        Some(focused_workspace) => focused_workspace,
        None => {
            return Err(CommandError::NoWorkspace);
        },
    };
    if state.tree.container(focused_container).props.kind == ContainerKind::TilingWindow {
        Ok(Some(focused_container))
    } else {
        Ok(focus::find_latest_tiling_window(&state.tree, focused_workspace))
    }
}

/// The axis along which an area is split: side by side unless it is taller
/// than it is wide.
pub open spec fn split_axis(area: Rect) -> TilingDirection {
    if area.right - area.left >= area.bottom - area.top {
        TilingDirection::Horizontal
    } else {
        TilingDirection::Vertical
    }
}

/// The properties of the split that takes the place of `anchor`.
pub open spec fn split_props(t: Forest, anchor: ContainerId, axis: TilingDirection) -> ContainerProps {
    ContainerProps {
        kind: ContainerKind::Split,
        tiling_direction: axis,
        ..t[anchor as int].props
    }
}

/// The tree in which a new split has taken the place of `anchor`, with
/// `anchor` and `window` in it. Tiling windows get half of it each.
pub open spec fn dwindled(
    t: Forest,
    anchor: ContainerId,
    window: ContainerId,
    axis: TilingDirection,
) -> Forest {
    let split = t.len() as usize;
    let p = t[anchor as int].parent->0;
    let is_shared = t[window as int].props.kind.spec_is_tiling();
    Seq::new(
        t.len() + 1,
        |i: int|
            if i == split {
                Node {
                    props: split_props(t, anchor, axis),
                    parent: Some(p),
                    children: seq![anchor, window],
                    focus: seq![anchor, window],
                }
            } else if i == anchor {
                Node {
                    props: ContainerProps {
                        tiling_size: if is_shared {
                            HALF_SIZE
                        } else {
                            FULL_SIZE
                        },
                        ..t[i].props
                    },
                    parent: Some(split),
                    ..t[i]
                }
            } else if i == window {
                Node {
                    props: ContainerProps {
                        tiling_size: if is_shared {
                            HALF_SIZE
                        } else {
                            t[i].props.tiling_size
                        },
                        ..t[i].props
                    },
                    parent: Some(split),
                    ..t[i]
                }
            } else if i == p {
                Node {
                    children: forest::replaced(t[i].children, anchor, split),
                    focus: forest::replaced(t[i].focus, anchor, split),
                    ..t[i]
                }
            } else {
                t[i]
            },
    )
}

/// The tree in which a new split has taken the place of `anchor`, with
/// nothing but `anchor` in it.
pub open spec fn enclosed(t: Forest, anchor: ContainerId, axis: TilingDirection) -> Forest {
    let split = t.len() as usize;
    let p = t[anchor as int].parent->0;
    Seq::new(
        t.len() + 1,
        |i: int|
            if i == split {
                Node {
                    props: split_props(t, anchor, axis),
                    parent: Some(p),
                    children: seq![anchor],
                    focus: seq![anchor],
                }
            } else if i == anchor {
                Node {
                    props: ContainerProps { tiling_size: FULL_SIZE, ..t[i].props },
                    parent: Some(split),
                    ..t[i]
                }
            } else if i == p {
                Node {
                    children: forest::replaced(t[i].children, anchor, split),
                    focus: forest::replaced(t[i].focus, anchor, split),
                    ..t[i]
                }
            } else {
                t[i]
            },
    )
}

/// What inserting `window` at `anchor` leads to. A window that is part of a
/// tree already is refused only after `anchor` was wrapped.
pub open spec fn dwindle_outcome(
    t: Forest,
    anchor: ContainerId,
    window: ContainerId,
    anchor_rect: Option<Rect>,
) -> (Forest, Result<(), CommandError>) {
    match anchor_rect {
        None => (t, Err(CommandError::NoRect)),
        Some(area) => if t[anchor as int].parent is None {
            (t, Err(CommandError::NoParent))
        } else if t[window as int].parent is Some {
            (enclosed(t, anchor, split_axis(area)), Err(CommandError::AlreadyAttached))
        } else {
            (dwindled(t, anchor, window, split_axis(area)), Ok(()))
        },
    }
}

/// The new split takes the slot of the anchor: it is as large, and stands at
/// the same place of the same parent. The two windows are in it, the anchor
/// first, and each tiling one gets half.
pub proof fn law_insertion_splits_the_slot_of_the_anchor(
    t: Forest,
    anchor: ContainerId,
    window: ContainerId,
    axis: TilingDirection,
    k: int,
)
    requires
        forest::well_formed(t),
        anchor < t.len(),
        window < t.len(),
        window != anchor,
        t[anchor as int].parent is Some,
        t[window as int].parent is None,
        t[window as int].props.kind == ContainerKind::TilingWindow,
        0 <= k < t[t[anchor as int].parent->0 as int].children.len(),
        t[t[anchor as int].parent->0 as int].children[k] == anchor,
    ensures
        ({
            let split = t.len() as usize;
            let p = t[anchor as int].parent->0;
            let r = dwindled(t, anchor, window, axis);
            &&& r[p as int].children == t[p as int].children.update(k, split)
            &&& r[split as int].parent == Some(p)
            &&& r[split as int].props.tiling_size == t[anchor as int].props.tiling_size
            &&& r[split as int].props.tiling_direction == axis
            &&& r[split as int].props.gaps == t[anchor as int].props.gaps
            &&& r[split as int].children == seq![anchor, window]
            &&& r[anchor as int].props.tiling_size == HALF_SIZE
            &&& r[window as int].props.tiling_size == HALF_SIZE
        }),
{
    let split = t.len() as usize;
    let p = t[anchor as int].parent->0;
    forest::lemma_parent_not_within(t, anchor, p);
    assert(t[p as int].children.contains(anchor));
    assert(!t[window as int].children.contains(anchor)) by {
        assert(t[window as int].props.kind.spec_is_window());
    }
    assert(t[p as int].children.no_duplicates());
    assert(dwindled(t, anchor, window, axis)[p as int].children =~= t[p as int].children.update(
        k,
        split,
    ));
}

/// Inserting a window changes nothing but the anchor, the window, and the
/// place of the anchor in the lists of its parent.
pub proof fn law_insertion_leaves_the_rest_alone(
    t: Forest,
    anchor: ContainerId,
    window: ContainerId,
    axis: TilingDirection,
    x: ContainerId,
)
    requires
        forest::well_formed(t),
        anchor < t.len(),
        t[anchor as int].parent is Some,
        x < t.len(),
        x != anchor,
        x != window,
    ensures
        dwindled(t, anchor, window, axis)[x as int].props == t[x as int].props,
        dwindled(t, anchor, window, axis)[x as int].parent == t[x as int].parent,
        Some(x) != t[anchor as int].parent ==> dwindled(t, anchor, window, axis)[x as int]
            == t[x as int],
{
}

/// Inserting a window keeps what is focused.
pub proof fn law_insertion_keeps_focus(
    t: Forest,
    anchor: ContainerId,
    window: ContainerId,
    axis: TilingDirection,
    x: ContainerId,
)
    requires
        forest::well_formed(t),
        t.len() < usize::MAX,
        anchor < t.len(),
        window < t.len(),
        t[anchor as int].parent is Some,
        t[window as int].parent is None,
        !forest::within(t, anchor, window),
        x < t.len(),
        !forest::within(t, x, window),
        forest::focused(t, x),
    ensures
        forest::focused(dwindled(t, anchor, window, axis), x),
{
    let split = t.len() as usize;
    let p = t[anchor as int].parent->0;
    let targets = seq![anchor];
    let with_split = forest::added(t, split_props(t, anchor, axis));
    let r = split_container::wrapped(with_split, split, p, targets);
    let s = forest::attached(r, window, split, 1);
    forest::lemma_added(t, split_props(t, anchor, axis));
    forest::lemma_added_focused(t, split_props(t, anchor, axis), x);
    forest::lemma_within_self(t, anchor);
    forest::lemma_parent_not_within(t, anchor, p);
    assert(t[p as int].children.contains(anchor));
    assert(t[p as int].focus.contains(anchor));
    assert(with_split[p as int] == t[p as int]);
    assert(p != window) by {
        forest::lemma_within_up(t, anchor, p);
    }
    assert forall|y: ContainerId| #[trigger] targets.contains(y) <==> y == anchor by {
        assert(targets[0] == anchor);
    }
    assert(split_container::wrappable(with_split, split, p, targets));
    split_container::lemma_wrapped(with_split, split, p, targets);
    split_container::law_wrapping_keeps_focus(with_split, split, p, targets, x);
    split_container::lemma_collapsed_single(t[p as int].children, anchor, split);
    split_container::lemma_collapsed_single(t[p as int].focus, anchor, split);
    split_container::lemma_chosen_single(t[p as int].focus, anchor);
    lemma_not_below(t, r, anchor, split, p, window);
    assert(!forest::within(r, x, window)) by {
        if forest::within(r, x, window) {
            split_container::lemma_within_wrapped(with_split, split, p, targets, x, window);
            let n = choose|n: nat| #[trigger] forest::above(with_split, x, n) == Some(window);
            forest::lemma_added_above(t, split_props(t, anchor, axis), x, n);
            assert(forest::above(t, x, n) == Some(window));
        }
    }
    assert(r[split as int].children == targets);
    forest::lemma_within_self(r, split);
    forest::lemma_attached(r, window, split, 1);
    forest::lemma_attached_focused(r, window, split, 1, x);
    assert(s[split as int].children =~= seq![anchor, window]);
    assert(s[split as int].focus =~= seq![anchor, window]);
    assert(forest::same_links(s, dwindled(t, anchor, window, axis)));
    forest::lemma_same_focused(s, dwindled(t, anchor, window, axis), x);
}

/// Inserts a new window by splitting the area of an existing one.
///
/// The existing window, `anchor`, is wrapped in a new split together with
/// the new one, so that they share the area that `anchor` had. A wide area
/// is split side by side, a tall one is stacked. `anchor_rect` is where
/// `anchor` currently is, if that can be told.
///
/// A window that has a parent already is refused. By then, `anchor` has been
/// wrapped.
pub fn dwindle_insert(
    tree: &mut Tree,
    anchor: ContainerId,
    new_window: ContainerId,
    anchor_rect: Option<Rect>,
) -> (r: Result<(), CommandError>)
    requires
        old(tree).wf(),
        old(tree)@.len() < usize::MAX,
        anchor < old(tree)@.len(),
        new_window < old(tree)@.len(),
        old(tree)@[anchor as int].props.kind == ContainerKind::TilingWindow,
        !forest::within(old(tree)@, anchor, new_window),
        anchor_rect matches Some(rect) ==> rect.measurable(),
    ensures
        final(tree).wf(),
        (final(tree)@, r) == dwindle_outcome(old(tree)@, anchor, new_window, anchor_rect),
{
    let ghost t = tree@;
    let rect = match anchor_rect {
        Some(rect) => rect,
        None => {
            return Err(CommandError::NoRect);
        },
    };
    let tiling_direction = if rect.width() >= rect.height() {
        TilingDirection::Horizontal
    } else {
        TilingDirection::Vertical
    };
    let parent = match tree.container(anchor).parent {
        Some(parent) => parent,
        None => {
            return Err(CommandError::NoParent);
        },
    };
    let anchor_props = tree.container(anchor).props;
    let new_props = tree.container(new_window).props;
    let split = tree.add(
        ContainerProps { kind: ContainerKind::Split, tiling_direction, ..anchor_props },
    );
    let mut targets: Vec<ContainerId> = Vec::new();
    targets.push(anchor);
    let ghost t1 = tree@;
    proof {
        forest::lemma_within_self(t, anchor);
        assert(targets@ =~= seq![anchor]);
        assert(t[anchor as int].parent == Some(parent));
        assert(t[parent as int].children.contains(anchor));
        assert(t[parent as int].focus.contains(anchor));
        assert(t1[parent as int].children.contains(anchor));
        assert(t1[parent as int].children.no_duplicates());
        assert(t1[parent as int].focus.no_duplicates());
        split_container::lemma_collapsed_single(t1[parent as int].children, anchor, split);
        split_container::lemma_collapsed_single(t1[parent as int].focus, anchor, split);
        split_container::lemma_chosen_single(t1[parent as int].focus, anchor);
        forest::lemma_parent_not_within(t, anchor, parent);
        forest::lemma_within_self(t, parent);
        if parent == new_window {
            forest::lemma_within_up(t, anchor, parent);
        }
    }
    wrap_in_split_container(tree, split, parent, &targets);
    let ghost t2 = tree@;
    if tree.container(new_window).parent.is_some() {
        tree.put_props(anchor, ContainerProps { tiling_size: FULL_SIZE, ..anchor_props });
        proof {
            assert(tree@ =~= enclosed(t, anchor, split_axis(rect)));
            forest::lemma_same_links(t2, tree@);
        }
        return Err(CommandError::AlreadyAttached);
    }
    proof {
        assert forall|x: ContainerId| #[trigger] seq![anchor].contains(x) <==> x == anchor by {
            assert(seq![anchor][0] == anchor);
        }
        assert(!forest::within(t2, split, new_window)) by {
            lemma_not_below(t, t2, anchor, split, parent, new_window);
        }
    }
    tree.attach(new_window, split, 1);
    let ghost t3 = tree@;
    let is_shared = new_props.kind.is_tiling();
    let anchor_size: u32 = if is_shared {
        HALF_SIZE
    } else {
        FULL_SIZE
    };
    tree.put_props(anchor, ContainerProps { tiling_size: anchor_size, ..anchor_props });
    if is_shared {
        tree.put_props(new_window, ContainerProps { tiling_size: HALF_SIZE, ..new_props });
    }
    proof {
        assert(t3[split as int].children =~= seq![anchor, new_window]);
        assert(t3[split as int].focus =~= seq![anchor, new_window]);
        assert(tree@ =~= dwindled(t, anchor, new_window, split_axis(rect)));
        forest::lemma_same_links(t3, tree@);
    }
    Ok(())
}

/// A container that is not above `anchor` is not above the split that has
/// taken the place of `anchor` either.
proof fn lemma_not_below(
    t: Forest,
    r: Forest,
    anchor: ContainerId,
    split: ContainerId,
    parent: ContainerId,
    x: ContainerId,
)
    requires
        forest::well_formed(t),
        anchor < t.len(),
        split == t.len(),
        r.len() == t.len() + 1,
        t[anchor as int].parent == Some(parent),
        r[split as int].parent == Some(parent),
        forall|c: ContainerId|
            c < t.len() && c != anchor ==> #[trigger] r[c as int].parent == t[c as int].parent,
        x < t.len(),
        !forest::within(t, anchor, x),
    ensures
        !forest::within(r, split, x),
{
    if forest::within(r, split, x) {
        let n = choose|n: nat| #[trigger] forest::above(r, split, n) == Some(x);
        assert(forest::above(r, split, 0) == Some(split));
        lemma_same_way_up(t, r, anchor, split, parent, n);
        assert(forest::above(t, anchor, n) == Some(x));
    }
}

/// Above the split and above `anchor` lie the same containers.
proof fn lemma_same_way_up(
    t: Forest,
    r: Forest,
    anchor: ContainerId,
    split: ContainerId,
    parent: ContainerId,
    n: nat,
)
    requires
        forest::well_formed(t),
        anchor < t.len(),
        split == t.len(),
        r.len() == t.len() + 1,
        t[anchor as int].parent == Some(parent),
        r[split as int].parent == Some(parent),
        forall|c: ContainerId|
            c < t.len() && c != anchor ==> #[trigger] r[c as int].parent == t[c as int].parent,
    ensures
        n > 0 ==> forest::above(r, split, n) == forest::above(t, anchor, n),
    decreases n,
{
    let rank = choose|rank: Seq<nat>| forest::ranked(t, rank);
    if n == 1 {
        assert(forest::above(r, split, 0) == Some(split));
        assert(forest::above(t, anchor, 0) == Some(anchor));
    } else if n > 1 {
        lemma_same_way_up(t, r, anchor, split, parent, (n - 1) as nat);
        forest::lemma_above_rank(t, rank, anchor, (n - 1) as nat);
        if let Some(y) = forest::above(t, anchor, (n - 1) as nat) {
            assert(r[y as int].parent == t[y as int].parent);
        }
    }
}

/// A wide area is split side by side, and a tall one is stacked: after an
/// insertion, the axis of the split around the anchor is horizontal exactly if
/// the area is at least as wide as it is high.
pub proof fn law_area_decides_the_axis(
    t: Forest,
    anchor: ContainerId,
    window: ContainerId,
    area: Rect,
)
    requires
        t.len() < usize::MAX,
        anchor < t.len(),
        dwindle_outcome(t, anchor, window, Some(area)).1 is Ok,
    ensures
        ({
            let r = dwindle_outcome(t, anchor, window, Some(area)).0;
            let split = r[anchor as int].parent->0;
            &&& r[anchor as int].parent is Some
            &&& r[split as int].props.kind == ContainerKind::Split
            &&& (r[split as int].props.tiling_direction == TilingDirection::Horizontal
                <==> area.right - area.left >= area.bottom - area.top)
        }),
{
}

/// Inserting a tiling window divides the slot of the anchor: a new split takes
/// the place, the size and the gaps of the anchor, and holds the anchor and
/// then the window, each of which gets one half. Nothing else changes.
pub proof fn law_insertion_halves_the_slot(
    t: Forest,
    anchor: ContainerId,
    window: ContainerId,
    area: Rect,
    p: ContainerId,
    k: int,
)
    requires
        forest::well_formed(t),
        t.len() < usize::MAX,
        anchor < t.len(),
        window < t.len(),
        window != anchor,
        p < t.len(),
        0 <= k < t[p as int].children.len(),
        t[p as int].children[k] == anchor,
        t[window as int].parent is None,
        t[window as int].props.kind == ContainerKind::TilingWindow,
    ensures
        ({
            let (r, outcome) = dwindle_outcome(t, anchor, window, Some(area));
            let split = t.len() as usize;
            let children = t[p as int].children;
            &&& outcome == Ok::<(), CommandError>(())
            &&& r.len() == t.len() + 1
            &&& r[split as int].parent == Some(p)
            &&& r[split as int].children == seq![anchor, window]
            &&& r[split as int].focus == seq![anchor, window]
            &&& r[split as int].props == (ContainerProps {
                kind: ContainerKind::Split,
                tiling_direction: r[split as int].props.tiling_direction,
                ..t[anchor as int].props
            })
            &&& r[p as int].children == children.take(k) + seq![split] + children.skip(k + 1)
            &&& r[p as int].focus.len() == t[p as int].focus.len()
            &&& forall|m: int|
                0 <= m < t[p as int].focus.len() ==> #[trigger] r[p as int].focus[m] == (
                if t[p as int].focus[m] == anchor {
                    split
                } else {
                    t[p as int].focus[m]
                })
            &&& r[p as int].props == t[p as int].props
            &&& r[p as int].parent == t[p as int].parent
            &&& r[anchor as int].parent == Some(split)
            &&& r[window as int].parent == Some(split)
            &&& r[anchor as int].props == (ContainerProps {
                tiling_size: 0x3f00_0000,
                ..t[anchor as int].props
            })
            &&& r[window as int].props == (ContainerProps {
                tiling_size: 0x3f00_0000,
                ..t[window as int].props
            })
            &&& r[anchor as int].children == t[anchor as int].children
            &&& r[window as int].children == t[window as int].children
            &&& forall|x: ContainerId|
                x < t.len() && x != p && x != anchor && x != window ==> #[trigger] r[x as int]
                    == t[x as int]
        }),
{
    let children = t[p as int].children;
    let split = t.len() as usize;
    let r = dwindle_outcome(t, anchor, window, Some(area)).0;
    assert(t[p as int].children.contains(anchor));
    assert(children.no_duplicates());
    forest::lemma_parent_not_within(t, anchor, p);
    assert(p != window) by {
        assert(t[window as int].props.kind.spec_is_window());
    }
    assert(r[p as int].children =~= children.take(k) + seq![split] + children.skip(k + 1));
}

/// Inserting is refused where the area is unknown, where the anchor is part of
/// nothing, and where the window is part of a tree already, and in no other
/// case.
pub proof fn law_insertion_is_refused(
    t: Forest,
    anchor: ContainerId,
    window: ContainerId,
    anchor_rect: Option<Rect>,
)
    ensures
        ({
            let (r, outcome) = dwindle_outcome(t, anchor, window, anchor_rect);
            let has_parent = t[anchor as int].parent is Some;
            &&& outcome is Ok <==> anchor_rect is Some && has_parent
                && t[window as int].parent is None
            &&& outcome == Err::<(), CommandError>(CommandError::NoRect) <==> anchor_rect is None
            &&& outcome == Err::<(), CommandError>(CommandError::NoParent) <==> anchor_rect is Some
                && !has_parent
            &&& anchor_rect is None || !has_parent ==> r == t
        }),
{
}

/// A focused tiling window is what a new window splits, wherever else there are
/// windows.
pub proof fn law_focused_window_is_split(
    t: Forest,
    root: ContainerId,
    focused: ContainerId,
    r: Result<Option<ContainerId>, CommandError>,
)
    requires
        focus::focused_container(t, root) == Some(focused),
        focus::nearest(t, focused, Role::Workspace) is Some,
        t[focused as int].props.kind == ContainerKind::TilingWindow,
        is_split_target(t, root, r),
    ensures
        r == Ok::<Option<ContainerId>, CommandError>(Some(focused)),
{
}

/// If something else is focused, a new window splits the tiling window of that
/// workspace that was focused more recently than all others on it, and nothing
/// if there is none.
pub proof fn law_most_recent_window_is_split(
    t: Forest,
    root: ContainerId,
    focused: ContainerId,
    workspace: ContainerId,
    r: Result<Option<ContainerId>, CommandError>,
)
    requires
        forest::well_formed(t),
        focus::focused_container(t, root) == Some(focused),
        focus::nearest(t, focused, Role::Workspace) == Some(workspace),
        t[focused as int].props.kind != ContainerKind::TilingWindow,
        is_split_target(t, root, r),
    ensures
        match r {
            Ok(Some(x)) => {
                &&& x < t.len()
                &&& t[x as int].props.kind == ContainerKind::TilingWindow
                &&& forest::within(t, x, workspace)
                &&& forall|y: ContainerId|
                    y < t.len() && y != x && t[y as int].props.kind == ContainerKind::TilingWindow
                        && forest::within(t, y, workspace) ==> #[trigger] focus::more_recent(
                        t,
                        x,
                        y,
                    )
            },
            Ok(None) => forall|y: ContainerId|
                y < t.len() && (#[trigger] t[y as int]).props.kind == ContainerKind::TilingWindow
                    ==> !forest::within(t, y, workspace),
            Err(_) => false,
        },
{
    match r {
        Ok(Some(x)) => {
            assert forall|y: ContainerId|
                y < t.len() && y != x && t[y as int].props.kind == ContainerKind::TilingWindow
                    && forest::within(t, y, workspace) implies #[trigger] focus::more_recent(
                t,
                x,
                y,
            ) by {
                assert(focus::is_tiling_window_of(t, workspace, y));
            }
        },
        Ok(None) => {
            assert forall|y: ContainerId|
                y < t.len() && (#[trigger] t[y as int]).props.kind
                    == ContainerKind::TilingWindow implies !forest::within(t, y, workspace) by {
                assert(!focus::is_tiling_window_of(t, workspace, y));
            }
        },
        Err(_) => {},
    }
}

/// What a new window splits cannot be told where nothing is focused, or where
/// what is focused is on no workspace.
pub proof fn law_split_target_takes_a_workspace(
    t: Forest,
    root: ContainerId,
    r: Result<Option<ContainerId>, CommandError>,
)
    requires
        is_split_target(t, root, r),
    ensures
        r == Err::<Option<ContainerId>, CommandError>(CommandError::NoFocusedContainer)
            <==> focus::focused_container(t, root) is None,
        r == Err::<Option<ContainerId>, CommandError>(CommandError::NoWorkspace)
            <==> focus::focused_container(t, root) is Some && focus::nearest(
            t,
            focus::focused_container(t, root)->0,
            Role::Workspace,
        ) is None,
{
}

/// A window that does not tile joins the split of the anchor without taking a
/// share of it: the anchor fills the split. Nothing else changes.
pub proof fn law_untiled_windows_take_no_share(
    t: Forest,
    anchor: ContainerId,
    window: ContainerId,
    area: Rect,
    p: ContainerId,
    k: int,
)
    requires
        forest::well_formed(t),
        t.len() < usize::MAX,
        anchor < t.len(),
        window < t.len(),
        window != anchor,
        p < t.len(),
        0 <= k < t[p as int].children.len(),
        t[p as int].children[k] == anchor,
        t[window as int].parent is None,
        t[window as int].props.kind == ContainerKind::NonTilingWindow,
    ensures
        ({
            let (r, outcome) = dwindle_outcome(t, anchor, window, Some(area));
            let split = t.len() as usize;
            let children = t[p as int].children;
            &&& outcome == Ok::<(), CommandError>(())
            &&& r.len() == t.len() + 1
            &&& r[split as int].parent == Some(p)
            &&& r[split as int].props == (ContainerProps {
                kind: ContainerKind::Split,
                tiling_direction: r[split as int].props.tiling_direction,
                ..t[anchor as int].props
            })
            &&& r[p as int].children == children.take(k) + seq![split] + children.skip(k + 1)
            &&& r[p as int].focus.len() == t[p as int].focus.len()
            &&& forall|m: int|
                0 <= m < t[p as int].focus.len() ==> #[trigger] r[p as int].focus[m] == (
                if t[p as int].focus[m] == anchor {
                    split
                } else {
                    t[p as int].focus[m]
                })
            &&& r[p as int].props == t[p as int].props
            &&& r[p as int].parent == t[p as int].parent
            &&& r[anchor as int].parent == Some(split)
            &&& r[anchor as int].props == (ContainerProps {
                tiling_size: 0x3f80_0000,
                ..t[anchor as int].props
            })
            &&& r[anchor as int].children == t[anchor as int].children
            &&& r[split as int].children == seq![anchor, window]
            &&& r[split as int].focus == seq![anchor, window]
            &&& r[window as int].parent == Some(split)
            &&& r[window as int].props == t[window as int].props
            &&& r[window as int].children == t[window as int].children
            &&& forall|x: ContainerId|
                x < t.len() && x != p && x != anchor && x != window ==> #[trigger] r[x as int]
                    == t[x as int]
        }),
{
    let children = t[p as int].children;
    let split = t.len() as usize;
    let r = dwindle_outcome(t, anchor, window, Some(area)).0;
    assert(t[p as int].children.contains(anchor));
    assert(children.no_duplicates());
    forest::lemma_parent_not_within(t, anchor, p);
    assert(p != window) by {
        assert(t[window as int].props.kind.spec_is_window());
    }
    assert(r[p as int].children =~= children.take(k) + seq![split] + children.skip(k + 1));
}

/// Where the window is part of a tree already, the anchor is alone in its new
/// split, and the window stays where it is.
pub proof fn law_attached_windows_stay(
    t: Forest,
    anchor: ContainerId,
    window: ContainerId,
    area: Rect,
    p: ContainerId,
    k: int,
)
    requires
        forest::well_formed(t),
        t.len() < usize::MAX,
        anchor < t.len(),
        window < t.len(),
        window != anchor,
        p < t.len(),
        0 <= k < t[p as int].children.len(),
        t[p as int].children[k] == anchor,
        t[window as int].parent is Some,
    ensures
        ({
            let (r, outcome) = dwindle_outcome(t, anchor, window, Some(area));
            let split = t.len() as usize;
            let children = t[p as int].children;
            &&& outcome == Err::<(), CommandError>(CommandError::AlreadyAttached)
            &&& r.len() == t.len() + 1
            &&& r[split as int].parent == Some(p)
            &&& r[split as int].props == (ContainerProps {
                kind: ContainerKind::Split,
                tiling_direction: r[split as int].props.tiling_direction,
                ..t[anchor as int].props
            })
            &&& r[p as int].children == children.take(k) + seq![split] + children.skip(k + 1)
            &&& r[p as int].focus.len() == t[p as int].focus.len()
            &&& forall|m: int|
                0 <= m < t[p as int].focus.len() ==> #[trigger] r[p as int].focus[m] == (
                if t[p as int].focus[m] == anchor {
                    split
                } else {
                    t[p as int].focus[m]
                })
            &&& r[p as int].props == t[p as int].props
            &&& r[p as int].parent == t[p as int].parent
            &&& r[anchor as int].parent == Some(split)
            &&& r[anchor as int].props == (ContainerProps {
                tiling_size: 0x3f80_0000,
                ..t[anchor as int].props
            })
            &&& r[anchor as int].children == t[anchor as int].children
            &&& r[split as int].props.tiling_direction == (if area.right - area.left >= area.bottom
                - area.top {
                TilingDirection::Horizontal
            } else {
                TilingDirection::Vertical
            })
            &&& r[split as int].children == seq![anchor]
            &&& r[split as int].focus == seq![anchor]
            &&& forall|x: ContainerId|
                x < t.len() && x != p && x != anchor ==> #[trigger] r[x as int] == t[x as int]
        }),
{
    let children = t[p as int].children;
    let split = t.len() as usize;
    let r = dwindle_outcome(t, anchor, window, Some(area)).0;
    assert(t[p as int].children.contains(anchor));
    assert(children.no_duplicates());
    forest::lemma_parent_not_within(t, anchor, p);
    assert(r[p as int].children =~= children.take(k) + seq![split] + children.skip(k + 1));
}

} // verus!
