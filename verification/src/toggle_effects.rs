//! What toggling an axis does to the layout.

use vstd::prelude::*;

use crate::container::{ContainerId, ContainerKind, ContainerProps};
use crate::error::CommandError;
use crate::focus::{self, Role};
use crate::forest::{self, Forest};
use crate::geometry::TilingDirection;
use crate::nearest_window;
use crate::split_container;
use crate::tiling_window_in_direction;
use crate::toggle_tiling_direction::{self, PairSizes, ToggleMeasures};
use crate::visual_order;
use crate::wm_state::{self, StateModel, WmEvent};

verus! {

/// Whether a tiling window is the child with the index `k` of a workspace or
/// split `p`.
pub open spec fn is_laid_out(t: Forest, window: ContainerId, p: ContainerId, k: int) -> bool {
    &&& forest::well_formed(t)
    &&& t.len() < usize::MAX
    &&& p < t.len()
    &&& t[p as int].props.kind == ContainerKind::Workspace || t[p as int].props.kind
        == ContainerKind::Split
    &&& 0 <= k < t[p as int].children.len()
    &&& t[p as int].children[k] == window
    &&& t[window as int].props.kind == ContainerKind::TilingWindow
}

/// Whether the child with the index `i` is the last tiling one before the
/// index `k`. The index is negative if there is none.
pub open spec fn is_tiling_before(t: Forest, list: Seq<ContainerId>, k: int, i: int) -> bool {
    &&& -1 <= i < k
    &&& 0 <= i ==> t[list[i] as int].props.kind.spec_is_tiling()
    &&& forall|m: int| i < m < k ==> !(#[trigger] t[list[m] as int]).props.kind.spec_is_tiling()
}

/// Whether the child with the index `j` is the first tiling one after the
/// index `k`. The index is the length of the list if there is none.
pub open spec fn is_tiling_after(t: Forest, list: Seq<ContainerId>, k: int, j: int) -> bool {
    &&& k < j <= list.len()
    &&& j < list.len() ==> t[list[j] as int].props.kind.spec_is_tiling()
    &&& forall|m: int| k < m < j ==> !(#[trigger] t[list[m] as int]).props.kind.spec_is_tiling()
}

/// The tiling children before and after a window.
proof fn lemma_siblings_around(t: Forest, list: Seq<ContainerId>, k: int, i: int, j: int)
    requires
        0 <= k < list.len(),
        list.no_duplicates(),
        t[list[k] as int].props.kind.spec_is_tiling(),
        is_tiling_before(t, list, k, i),
        is_tiling_after(t, list, k, j),
    ensures
        ({
            let siblings = forest::tiling_of(t, list);
            let position = siblings.index_of(list[k]);
            &&& siblings.contains(list[k])
            &&& 0 <= position < siblings.len()
            &&& siblings[position] == list[k]
            &&& (0 < position <==> 0 <= i)
            &&& (position + 1 < siblings.len() <==> j < list.len())
            &&& 0 <= i ==> siblings[position - 1] == list[i]
            &&& j < list.len() ==> siblings[position + 1] == list[j]
        }),
{
    let pred = |c: ContainerId| t[c as int].props.kind.spec_is_tiling();
    let before = list.take(k);
    let after = list.skip(k + 1);
    let siblings = forest::tiling_of(t, list);
    let a = forest::tiling_of(t, before);
    let b = forest::tiling_of(t, after);
    let middle = seq![list[k]];
    assert(list =~= before + (middle + after));
    Seq::filter_distributes_over_add(before, middle + after, pred);
    Seq::filter_distributes_over_add(middle, after, pred);
    assert(middle.filter(pred) =~= middle) by {
        reveal(Seq::filter);
        assert(middle.drop_last() =~= Seq::empty());
        assert(middle.drop_last().filter(pred) =~= Seq::empty());
    }
    assert(siblings =~= a + (middle + b));
    assert(siblings[a.len() as int] == list[k]);
    forest::lemma_tiling_of(t, list);
    assert(siblings.contains(list[k]));
    let position = siblings.index_of(list[k]);
    assert(position == a.len());
    if 0 <= i {
        assert(before[i] == list[i]);
        assert forall|m: int| i < m < before.len() implies !(
        #[trigger] t[before[m] as int]).props.kind.spec_is_tiling() by {
            assert(before[m] == list[m]);
            assert(!t[list[m] as int].props.kind.spec_is_tiling());
        }
        tiling_window_in_direction::lemma_last_tiling(t, before, i);
    } else {
        assert forall|m: int| 0 <= m < before.len() implies !(
        #[trigger] t[before[m] as int]).props.kind.spec_is_tiling() by {
            assert(before[m] == list[m]);
            assert(!t[list[m] as int].props.kind.spec_is_tiling());
        }
        tiling_window_in_direction::lemma_none_tiling(t, before);
    }
    if j < list.len() {
        assert(after[j - k - 1] == list[j]);
        assert forall|m: int| 0 <= m < j - k - 1 implies !(
        #[trigger] t[after[m] as int]).props.kind.spec_is_tiling() by {
            assert(after[m] == list[m + k + 1]);
            assert(!t[list[m + k + 1] as int].props.kind.spec_is_tiling());
        }
        tiling_window_in_direction::lemma_first_tiling(t, after, j - k - 1);
    } else {
        assert forall|m: int| 0 <= m < after.len() implies !(
        #[trigger] t[after[m] as int]).props.kind.spec_is_tiling() by {
            assert(after[m] == list[m + k + 1]);
            assert(!t[list[m + k + 1] as int].props.kind.spec_is_tiling());
        }
        tiling_window_in_direction::lemma_none_tiling(t, after);
    }
}


/// The axis that applies to a window is that of its parent.
proof fn lemma_axis_of_parent(t: Forest, window: ContainerId, p: ContainerId, k: int)
    requires
        is_laid_out(t, window, p, k),
    ensures
        window < t.len(),
        t[window as int].parent == Some(p),
        focus::nearest(t, window, Role::DirectionContainer) == Some(p),
{
    assert(t[p as int].children.contains(window));
    assert(forest::above(t, window, 0) == Some(window));
    assert(forest::above(t, window, 1) == Some(p));
    assert(focus::nearest_at(t, window, Role::DirectionContainer, 1));
    focus::lemma_nearest(t, window, Role::DirectionContainer, 1);
}

/// A tiling sibling is one.
proof fn lemma_has_sibling(t: Forest, window: ContainerId, p: ContainerId, k: int, m: int)
    requires
        is_laid_out(t, window, p, k),
        0 <= m < t[p as int].children.len(),
        m != k,
        nearest_window::tiles(t, t[p as int].children[m]),
    ensures
        toggle_tiling_direction::tiling_siblings(t, window).len() > 0,
{
    let children = t[p as int].children;
    let others = forest::without(children, window);
    lemma_axis_of_parent(t, window, p, k);
    assert(children.no_duplicates());
    forest::lemma_without(children, window);
    forest::lemma_tiling_of(t, others);
    assert(children.contains(children[m]));
    assert(others.contains(children[m]));
    assert(forest::tiling_of(t, others).contains(children[m]));
}

/// Without any tiling siblings, there are none.
proof fn lemma_has_no_sibling(t: Forest, window: ContainerId, p: ContainerId, k: int)
    requires
        is_laid_out(t, window, p, k),
        forall|m: int|
            0 <= m < t[p as int].children.len() && m != k ==> !nearest_window::tiles(
                t,
                #[trigger] t[p as int].children[m],
            ),
    ensures
        toggle_tiling_direction::tiling_siblings(t, window).len() == 0,
{
    let children = t[p as int].children;
    let others = forest::without(children, window);
    lemma_axis_of_parent(t, window, p, k);
    assert(children.no_duplicates());
    forest::lemma_without(children, window);
    forest::lemma_tiling_of(t, others);
    let list = forest::tiling_of(t, others);
    if list.len() > 0 {
        assert(list.contains(list[0]));
        assert(children.contains(list[0]));
        let m = choose|m: int| 0 <= m < children.len() && children[m] == list[0];
        assert(nearest_window::tiles(t, t[p as int].children[m]));
    }
}

/// A window that has more than one tiling sibling is isolated together with
/// the closest one next to it: the one after the window if that is closer than
/// the one before it, or if there is none before it, and otherwise the one
/// before it. The two become the children of a new split, in their order and
/// along the other axis. The split stands in the place of the first one of
/// them, and everything else stays where it is.
pub proof fn law_window_is_isolated_with_the_closest_sibling(
    t: Forest,
    window: ContainerId,
    measures: ToggleMeasures,
    p: ContainerId,
    k: int,
    i: int,
    j: int,
    one: int,
    other: int,
)
    requires
        is_laid_out(t, window, p, k),
        is_tiling_before(t, t[p as int].children, k, i),
        is_tiling_after(t, t[p as int].children, k, j),
        0 <= one < other < t[p as int].children.len(),
        one != k,
        other != k,
        nearest_window::tiles(t, t[p as int].children[one]),
        nearest_window::tiles(t, t[p as int].children[other]),
        measures.distances is Some,
    ensures
        ({
            let children = t[p as int].children;
            let distances = measures.distances->0;
            let (r, outcome) = toggle_tiling_direction::toggle_window_outcome(t, window, measures);
            let split = t.len() as usize;
            let takes_next = i < 0 || (j < children.len() && distances.next < distances.previous);
            let first = if takes_next {
                k
            } else {
                i
            };
            let second = if takes_next {
                j
            } else {
                k
            };
            let sizes = if takes_next {
                measures.with_next
            } else {
                measures.with_previous
            };
            let neighbor = if takes_next {
                children[j]
            } else {
                children[i]
            };
            &&& 0 <= first < second < children.len()
            &&& outcome == Ok::<ContainerId, CommandError>(split)
            &&& r.len() == t.len() + 1
            &&& r[split as int].children == seq![children[first], children[second]]
            &&& r[split as int].parent == Some(p)
            &&& r[split as int].props.kind == ContainerKind::Split
            &&& r[split as int].props.tiling_direction != t[p as int].props.tiling_direction
            &&& r[split as int].props.tiling_size == sizes.split
            &&& r[split as int].props.gaps == t[window as int].props.gaps
            &&& r[p as int].children == children.take(first) + seq![split] + children.subrange(
                first + 1,
                second,
            ) + children.skip(second + 1)
            &&& r[p as int].props == t[p as int].props
            &&& r[p as int].parent == t[p as int].parent
            &&& r[window as int].parent == Some(split)
            &&& r[neighbor as int].parent == Some(split)
            &&& r[window as int].children == t[window as int].children
            &&& r[neighbor as int].children == t[neighbor as int].children
            &&& r[window as int].props == (ContainerProps {
                tiling_size: sizes.window,
                ..t[window as int].props
            })
            &&& r[neighbor as int].props == (ContainerProps {
                tiling_size: sizes.neighbor,
                ..t[neighbor as int].props
            })
            &&& forall|x: ContainerId|
                x < t.len() && x != p && x != window && x != neighbor ==> #[trigger] r[x as int]
                    == t[x as int]
        }),
{
    let children = t[p as int].children;
    let distances = measures.distances->0;
    let takes_next = i < 0 || (j < children.len() && distances.next < distances.previous);
    lemma_isolated_pair(t, window, measures, p, k, i, j, one, other);
    if takes_next {
        lemma_effects_of_pairing(t, window, children[j], p, k, j, measures.with_next);
    } else {
        lemma_effects_of_pairing(t, window, children[i], p, i, k, measures.with_previous);
    }
}

/// Which two containers are isolated.
proof fn lemma_isolated_pair(
    t: Forest,
    window: ContainerId,
    measures: ToggleMeasures,
    p: ContainerId,
    k: int,
    i: int,
    j: int,
    one: int,
    other: int,
)
    requires
        is_laid_out(t, window, p, k),
        is_tiling_before(t, t[p as int].children, k, i),
        is_tiling_after(t, t[p as int].children, k, j),
        0 <= one < other < t[p as int].children.len(),
        one != k,
        other != k,
        nearest_window::tiles(t, t[p as int].children[one]),
        nearest_window::tiles(t, t[p as int].children[other]),
        measures.distances is Some,
    ensures
        ({
            let children = t[p as int].children;
            let distances = measures.distances->0;
            let (r, outcome) = toggle_tiling_direction::toggle_window_outcome(t, window, measures);
            let takes_next = i < 0 || (j < children.len() && distances.next < distances.previous);
            &&& outcome == Ok::<ContainerId, CommandError>(t.len() as usize)
            &&& takes_next ==> j < children.len() && r == toggle_tiling_direction::paired(
                t,
                window,
                children[j],
                p,
                seq![window, children[j]],
                measures.with_next,
            )
            &&& !takes_next ==> r == toggle_tiling_direction::paired(
                t,
                window,
                children[i],
                p,
                seq![children[i], window],
                measures.with_previous,
            )
        }),
{
    let children = t[p as int].children;
    let distances = measures.distances->0;
    let siblings = forest::tiling_of(t, children);
    assert(children.no_duplicates());
    lemma_axis_of_parent(t, window, p, k);
    lemma_has_sibling(t, window, p, k, one);
    lemma_siblings_around(t, children, k, i, j);
    lemma_three_tiling(t, children, k, one, other);
    assert(0 <= i || j < children.len()) by {
        if i < 0 && j == children.len() {
            assert(!t[children[one] as int].props.kind.spec_is_tiling());
        }
    }
}

/// What pairing does to the tree.
proof fn lemma_effects_of_pairing(
    t: Forest,
    window: ContainerId,
    neighbor: ContainerId,
    p: ContainerId,
    first: int,
    second: int,
    sizes: PairSizes,
)
    requires
        forest::well_formed(t),
        t.len() < usize::MAX,
        p < t.len(),
        0 <= first < second < t[p as int].children.len(),
        (t[p as int].children[first] == window && t[p as int].children[second] == neighbor) || (
        t[p as int].children[first] == neighbor && t[p as int].children[second] == window),
    ensures
        ({
            let children = t[p as int].children;
            let pair = seq![children[first], children[second]];
            let r = toggle_tiling_direction::paired(t, window, neighbor, p, pair, sizes);
            let split = t.len() as usize;
            &&& r.len() == t.len() + 1
            &&& r[split as int].children == pair
            &&& r[split as int].parent == Some(p)
            &&& r[split as int].props.kind == ContainerKind::Split
            &&& r[split as int].props.tiling_direction != t[p as int].props.tiling_direction
            &&& r[split as int].props.tiling_size == sizes.split
            &&& r[split as int].props.gaps == t[window as int].props.gaps
            &&& r[p as int].children == children.take(first) + seq![split] + children.subrange(
                first + 1,
                second,
            ) + children.skip(second + 1)
            &&& r[p as int].props == t[p as int].props
            &&& r[p as int].parent == t[p as int].parent
            &&& r[window as int].parent == Some(split)
            &&& r[neighbor as int].parent == Some(split)
            &&& r[window as int].children == t[window as int].children
            &&& r[neighbor as int].children == t[neighbor as int].children
            &&& r[window as int].props == (ContainerProps {
                tiling_size: sizes.window,
                ..t[window as int].props
            })
            &&& r[neighbor as int].props == (ContainerProps {
                tiling_size: sizes.neighbor,
                ..t[neighbor as int].props
            })
            &&& forall|x: ContainerId|
                x < t.len() && x != p && x != window && x != neighbor ==> #[trigger] r[x as int]
                    == t[x as int]
        }),
{
    let children = t[p as int].children;
    let split = t.len() as usize;
    let pair = seq![children[first], children[second]];
    let r = toggle_tiling_direction::paired(t, window, neighbor, p, pair, sizes);
    assert(children.no_duplicates());
    assert(t[p as int].children.contains(children[first]));
    assert(t[p as int].children.contains(children[second]));
    forest::lemma_parent_not_within(t, window, p);
    forest::lemma_parent_not_within(t, neighbor, p);
    assert forall|x: ContainerId| #[trigger] pair.contains(x) <==> x == window || x == neighbor by {
        assert(pair[0] == children[first] && pair[1] == children[second]);
    }
    visual_order::lemma_collapsed_pair(children, first, second, split, children.len() as int);
    assert(children.take(children.len() as int) =~= children);
    assert(children.update(first, split).remove(second) =~= children.take(first) + seq![split]
        + children.subrange(first + 1, second) + children.skip(second + 1));
}

/// Three tiling children are more than two.
proof fn lemma_three_tiling(t: Forest, list: Seq<ContainerId>, a: int, b: int, c: int)
    requires
        list.no_duplicates(),
        0 <= a < list.len(),
        0 <= b < list.len(),
        0 <= c < list.len(),
        a != b,
        a != c,
        b != c,
        t[list[a] as int].props.kind.spec_is_tiling(),
        t[list[b] as int].props.kind.spec_is_tiling(),
        t[list[c] as int].props.kind.spec_is_tiling(),
    ensures
        forest::tiling_of(t, list).len() > 2,
{
    let siblings = forest::tiling_of(t, list);
    forest::lemma_tiling_of(t, list);
    assert(list.contains(list[a]) && list.contains(list[b]) && list.contains(list[c]));
    assert(siblings.contains(list[a]) && siblings.contains(list[b]) && siblings.contains(list[c]));
    let x = choose|x: int| 0 <= x < siblings.len() && siblings[x] == list[a];
    let y = choose|y: int| 0 <= y < siblings.len() && siblings[y] == list[b];
    let z = choose|z: int| 0 <= z < siblings.len() && siblings[z] == list[c];
    assert(x != y && y != z && x != z);
}

/// Whether nothing has changed but the axis of `p`, which is the other one.
pub open spec fn only_turns(t: Forest, r: Forest, p: ContainerId) -> bool {
    &&& r.len() == t.len()
    &&& r[p as int].props.tiling_direction != t[p as int].props.tiling_direction
    &&& r[p as int].props == (ContainerProps {
        tiling_direction: r[p as int].props.tiling_direction,
        ..t[p as int].props
    })
    &&& r[p as int].parent == t[p as int].parent
    &&& r[p as int].children == t[p as int].children
    &&& r[p as int].focus == t[p as int].focus
    &&& forall|x: ContainerId| x < t.len() && x != p ==> #[trigger] r[x as int] == t[x as int]
}

/// A window that has exactly one tiling sibling turns the axis of their
/// parent, and nothing else changes. Sizes and distances do not matter.
pub proof fn law_pair_turns_its_parent(
    t: Forest,
    window: ContainerId,
    measures: ToggleMeasures,
    p: ContainerId,
    k: int,
    other: int,
)
    requires
        is_laid_out(t, window, p, k),
        0 <= other < t[p as int].children.len(),
        other != k,
        nearest_window::tiles(t, t[p as int].children[other]),
        forall|m: int|
            0 <= m < t[p as int].children.len() && m != k && m != other ==> !nearest_window::tiles(
                t,
                #[trigger] t[p as int].children[m],
            ),
    ensures
        ({
            let (r, outcome) = toggle_tiling_direction::toggle_window_outcome(t, window, measures);
            &&& outcome == Ok::<ContainerId, CommandError>(p)
            &&& only_turns(t, r, p)
        }),
{
    let children = t[p as int].children;
    let siblings = forest::tiling_of(t, children);
    assert(children.no_duplicates());
    lemma_axis_of_parent(t, window, p, k);
    lemma_has_sibling(t, window, p, k, other);
    assert forall|m: int| 0 <= m < children.len() && m != k && m != other implies !(
    #[trigger] t[children[m] as int]).props.kind.spec_is_tiling() by {
        assert(!nearest_window::tiles(t, t[p as int].children[m]));
    }
    let (a, b) = if k < other {
        (k, other)
    } else {
        (other, k)
    };
    lemma_siblings_around(t, children, a, -1, b);
    lemma_siblings_around(t, children, b, a, children.len() as int);
    forest::lemma_tiling_of(t, children);
    assert(siblings.len() == 2);
}

/// A window without tiling siblings on a workspace turns the workspace, and
/// nothing else changes.
pub proof fn law_only_child_turns_its_workspace(
    t: Forest,
    window: ContainerId,
    measures: ToggleMeasures,
    p: ContainerId,
    k: int,
)
    requires
        is_laid_out(t, window, p, k),
        t[p as int].props.kind == ContainerKind::Workspace,
        forall|m: int|
            0 <= m < t[p as int].children.len() && m != k ==> !nearest_window::tiles(
                t,
                #[trigger] t[p as int].children[m],
            ),
    ensures
        ({
            let (r, outcome) = toggle_tiling_direction::toggle_window_outcome(t, window, measures);
            &&& outcome == Ok::<ContainerId, CommandError>(p)
            &&& only_turns(t, r, p)
        }),
{
    lemma_axis_of_parent(t, window, p, k);
    lemma_has_no_sibling(t, window, p, k);
}

/// A window without tiling siblings in a split has that split flattened: what
/// was in the split stands in its place, in the same order and along the axis
/// of the parent of the split. The window gets its new size, and nothing else
/// changes.
pub proof fn law_split_of_an_only_child_is_flattened(
    t: Forest,
    window: ContainerId,
    measures: ToggleMeasures,
    p: ContainerId,
    k: int,
    q: ContainerId,
    m: int,
)
    requires
        is_laid_out(t, window, p, k),
        t[p as int].props.kind == ContainerKind::Split,
        forall|m: int|
            0 <= m < t[p as int].children.len() && m != k ==> !nearest_window::tiles(
                t,
                #[trigger] t[p as int].children[m],
            ),
        q < t.len(),
        t[q as int].props.kind == ContainerKind::Workspace || t[q as int].props.kind
            == ContainerKind::Split,
        0 <= m < t[q as int].children.len(),
        t[q as int].children[m] == p,
    ensures
        ({
            let (r, outcome) = toggle_tiling_direction::toggle_window_outcome(t, window, measures);
            let outer = t[q as int].children;
            let inner = t[p as int].children;
            &&& outcome == Ok::<ContainerId, CommandError>(q)
            &&& r.len() == t.len()
            &&& r[q as int].children == outer.take(m) + inner + outer.skip(m + 1)
            &&& r[q as int].props == t[q as int].props
            &&& r[q as int].parent == t[q as int].parent
            &&& r[p as int].parent is None
            &&& r[p as int].children.len() == 0
            &&& r[window as int].parent == Some(q)
            &&& r[window as int].children == t[window as int].children
            &&& r[window as int].props == (ContainerProps {
                tiling_size: measures.flattened_size,
                ..t[window as int].props
            })
            &&& forall|x: ContainerId|
                inner.contains(x) ==> #[trigger] r[x as int].parent == Some(q)
            &&& forall|x: ContainerId|
                x < t.len() && x != p && x != q && x != window && !inner.contains(x)
                    ==> #[trigger] r[x as int] == t[x as int]
        }),
{
    let outer = t[q as int].children;
    let inner = t[p as int].children;
    let flat = split_container::flattened(t, p);
    let r = forest::resized(flat, window, measures.flattened_size);
    lemma_axis_of_parent(t, window, p, k);
    lemma_has_no_sibling(t, window, p, k);
    assert(t[q as int].children.contains(p));
    assert(outer.no_duplicates());
    assert(outer.index_of(p) == m);
    forest::lemma_parent_not_within(t, p, q);
    forest::lemma_parent_not_within(t, window, p);
    assert(window != q) by {
        assert(t[q as int].props.kind != ContainerKind::TilingWindow);
    }
    assert forall|x: ContainerId| #[trigger] inner.contains(x) implies x < t.len() && x != p && x
        != q && t[x as int].parent == Some(p) by {
        assert(t[p as int].children.contains(x));
        forest::lemma_parent_not_within(t, x, p);
        if x == q {
            forest::lemma_within_up(t, p, q);
        }
    }
    assert(inner.contains(window));
    assert(r[window as int].parent == Some(q));
    assert(forest::above(r, window, 0) == Some(window));
    assert(forest::above(r, window, 1) == Some(q));
    assert(focus::nearest_at(r, window, Role::DirectionContainer, 1));
    focus::lemma_nearest(r, window, Role::DirectionContainer, 1);
    assert forall|x: ContainerId|
        x < t.len() && x != p && x != q && x != window && !inner.contains(x) implies #[trigger] r[x as int]
        == t[x as int] by {
        if t[x as int].parent == Some(p) {
            assert(t[p as int].children.contains(x));
        }
    }
}

/// Nothing changes where toggling from a window is refused: where nothing
/// above it has an axis, or where it has more than one tiling sibling and the
/// distances are unknown.
pub proof fn law_refused_toggle_changes_nothing(
    t: Forest,
    window: ContainerId,
    measures: ToggleMeasures,
)
    requires
        forest::well_formed(t),
        window < t.len(),
        t[window as int].props.kind == ContainerKind::TilingWindow,
        toggle_tiling_direction::toggle_window_outcome(t, window, measures).1 is Err,
    ensures
        ({
            let (r, outcome) = toggle_tiling_direction::toggle_window_outcome(t, window, measures);
            let e = outcome->Err_0;
            &&& e == CommandError::NoDirectionContainer || e == CommandError::NoRect || e
                == CommandError::NoParent || e == CommandError::NotAChildOfOwnParent
            &&& e == CommandError::NoRect ==> r == t && measures.distances is None
            &&& e == CommandError::NoParent ==> r == t
            &&& e == CommandError::NotAChildOfOwnParent ==> r == t
        }),
{
}

/// Toggling is refused for a window with more than one tiling sibling whose
/// distances are unknown.
pub proof fn law_isolating_takes_distances(
    t: Forest,
    window: ContainerId,
    measures: ToggleMeasures,
    p: ContainerId,
    k: int,
    one: int,
    other: int,
)
    requires
        is_laid_out(t, window, p, k),
        0 <= one < other < t[p as int].children.len(),
        one != k,
        other != k,
        nearest_window::tiles(t, t[p as int].children[one]),
        nearest_window::tiles(t, t[p as int].children[other]),
        measures.distances is None,
    ensures
        toggle_tiling_direction::toggle_window_outcome(t, window, measures) == (
            t,
            Err::<ContainerId, CommandError>(CommandError::NoRect),
        ),
{
    let children = t[p as int].children;
    assert(children.no_duplicates());
    lemma_axis_of_parent(t, window, p, k);
    lemma_has_sibling(t, window, p, k, one);
    lemma_three_tiling(t, children, k, one, other);
    forest::lemma_tiling_of(t, children);
    assert(children.contains(children[k]));
}

/// Toggling a workspace turns it, and nothing else changes. Toggling from
/// what is neither a workspace nor a tiling window changes nothing.
pub proof fn law_only_workspaces_and_windows_are_toggled(
    t: Forest,
    container: ContainerId,
    measures: ToggleMeasures,
)
    requires
        container < t.len(),
        t[container as int].props.kind != ContainerKind::TilingWindow,
    ensures
        ({
            let (r, outcome) = toggle_tiling_direction::toggle_outcome(t, container, measures);
            if t[container as int].props.kind == ContainerKind::Workspace {
                &&& only_turns(t, r, container)
                &&& outcome == Ok::<Option<ContainerId>, CommandError>(Some(container))
            } else {
                &&& r == t
                &&& outcome == Ok::<Option<ContainerId>, CommandError>(None)
            }
        }),
{
}

/// Wherever toggling has turned the axis that applies to a container, that
/// is told to subscribers once, along with the new axis, and all tiling
/// children of the container with the axis are to be redrawn, besides what
/// was before. Otherwise, neither happens. The rest of the state stays.
pub proof fn law_toggling_redraws_and_tells_subscribers(
    s: StateModel,
    container: ContainerId,
    measures: ToggleMeasures,
)
    requires
        s.redraw.no_duplicates(),
    ensures
        ({
            let r = toggle_tiling_direction::toggled_state(s, container, measures);
            let (t, outcome) = toggle_tiling_direction::toggle_outcome(s.tree, container, measures);
            &&& r == (StateModel { tree: t, redraw: r.redraw, events: r.events, ..s })
            &&& toggle_tiling_direction::toggle_result(s.tree, container, measures) is Ok
                == outcome is Ok
            &&& match outcome {
                Ok(Some(p)) => {
                    &&& r.events.len() == s.events.len() + 1
                    &&& r.events.drop_last() == s.events
                    &&& r.events.last() == (WmEvent::TilingDirectionChanged {
                        direction_container: p,
                        new_tiling_direction: t[p as int].props.tiling_direction,
                    })
                    &&& s.redraw.is_prefix_of(r.redraw)
                    &&& r.redraw.no_duplicates()
                    &&& forall|x: ContainerId| #[trigger]
                        r.redraw.contains(x) <==> s.redraw.contains(x) || (
                        t[p as int].children.contains(x) && nearest_window::tiles(t, x))
                },
                _ => r.events == s.events && r.redraw == s.redraw,
            }
        }),
{
    let r = toggle_tiling_direction::toggled_state(s, container, measures);
    let (t, outcome) = toggle_tiling_direction::toggle_outcome(s.tree, container, measures);
    if let Ok(Some(p)) = outcome {
        let list = forest::tiling_of(t, t[p as int].children);
        wm_state::law_queue_has_no_duplicates(s.redraw, list);
        forest::lemma_tiling_of(t, t[p as int].children);
        assert(r.events.drop_last() =~= s.events);
        assert forall|x: ContainerId| #[trigger] r.redraw.contains(x) <==> s.redraw.contains(x) || (
        t[p as int].children.contains(x) && nearest_window::tiles(t, x)) by {
            assert(list.contains(x) <==> t[p as int].children.contains(x) && nearest_window::tiles(t, x));
        }
    }
}

/// Setting an axis changes nothing if it applies already, and toggles from the
/// container otherwise. It is refused if nothing has an axis.
pub proof fn law_setting_an_axis_toggles_if_needed(
    s: StateModel,
    container: ContainerId,
    tiling_direction: TilingDirection,
    measures: ToggleMeasures,
    n: nat,
)
    requires
        forest::above(s.tree, container, n) is Some,
        forall|m: nat|
            m < n ==> (#[trigger] forest::above(s.tree, container, m) matches Some(x) && {
                let kind = s.tree[x as int].props.kind;
                kind != ContainerKind::Workspace && kind != ContainerKind::Split
            }),
        ({
            let kind = s.tree[forest::above(s.tree, container, n)->0 as int].props.kind;
            kind == ContainerKind::Workspace || kind == ContainerKind::Split
        }),
    ensures
        ({
            let p = forest::above(s.tree, container, n)->0;
            let (r, outcome) = toggle_tiling_direction::set_outcome(
                s,
                container,
                tiling_direction,
                measures,
            );
            if s.tree[p as int].props.tiling_direction == tiling_direction {
                &&& r == s
                &&& outcome == Ok::<(), CommandError>(())
            } else {
                &&& r == toggle_tiling_direction::toggled_state(s, container, measures)
                &&& outcome == toggle_tiling_direction::toggle_result(s.tree, container, measures)
            }
        }),
{
    assert(focus::nearest_at(s.tree, container, Role::DirectionContainer, n));
    focus::lemma_nearest(s.tree, container, Role::DirectionContainer, n);
}

/// Isolating a pair keeps the order of focus: the split stands where the more
/// recent one of the two stood, holds the two in their order, and the rest
/// stays in its order.
pub proof fn law_isolation_keeps_the_order_of_focus(
    t: Forest,
    window: ContainerId,
    neighbor: ContainerId,
    p: ContainerId,
    pair: Seq<ContainerId>,
    sizes: PairSizes,
    i: int,
    j: int,
)
    requires
        forest::well_formed(t),
        t.len() < usize::MAX,
        p < t.len(),
        window != neighbor,
        t[p as int].children.contains(window),
        t[p as int].children.contains(neighbor),
        pair == seq![window, neighbor] || pair == seq![neighbor, window],
        0 <= i < j < t[p as int].focus.len(),
        (t[p as int].focus[i] == window && t[p as int].focus[j] == neighbor) || (
        t[p as int].focus[i] == neighbor && t[p as int].focus[j] == window),
    ensures
        ({
            let r = toggle_tiling_direction::paired(t, window, neighbor, p, pair, sizes);
            let split = t.len() as usize;
            let order = t[p as int].focus;
            &&& r[split as int].focus == seq![order[i], order[j]]
            &&& r[p as int].focus == order.take(i) + seq![split] + order.subrange(i + 1, j)
                + order.skip(j + 1)
            &&& r[window as int].focus == t[window as int].focus
            &&& r[neighbor as int].focus == t[neighbor as int].focus
        }),
{
    let split = t.len() as usize;
    let order = t[p as int].focus;
    let r = toggle_tiling_direction::paired(t, window, neighbor, p, pair, sizes);
    let sorted = seq![order[i], order[j]];
    assert(order.no_duplicates());
    assert(t[p as int].children.contains(window) && t[p as int].children.contains(neighbor));
    forest::lemma_parent_not_within(t, window, p);
    forest::lemma_parent_not_within(t, neighbor, p);
    assert forall|x: ContainerId| pair.contains(x) <==> sorted.contains(x) by {
        assert(pair[0] == window || pair[0] == neighbor);
        assert(pair.contains(pair[0]) && pair.contains(pair[1]));
        assert(sorted[0] == order[i] && sorted[1] == order[j]);
        assert(sorted.contains(sorted[0]) && sorted.contains(sorted[1]));
    }
    lemma_same_targets(order, pair, sorted, split);
    visual_order::lemma_collapsed_pair(order, i, j, split, order.len() as int);
    assert(order.take(order.len() as int) =~= order);
    lemma_chosen_pair(order, i, j);
    assert(order.update(i, split).remove(j) =~= order.take(i) + seq![split] + order.subrange(
        i + 1,
        j,
    ) + order.skip(j + 1));
}

/// The order in which targets are listed makes no difference to a list.
proof fn lemma_same_targets(
    list: Seq<ContainerId>,
    one: Seq<ContainerId>,
    other: Seq<ContainerId>,
    split: ContainerId,
)
    requires
        forall|x: ContainerId| one.contains(x) <==> other.contains(x),
    ensures
        split_container::collapsed(list, one, split) == split_container::collapsed(
            list,
            other,
            split,
        ),
        split_container::chosen(list, one) == split_container::chosen(list, other),
        split_container::any_target(list, one) == split_container::any_target(list, other),
    decreases list.len(),
{
    reveal(Seq::filter);
    if list.len() > 0 {
        lemma_same_targets(list.drop_last(), one, other, split);
    }
    assert(split_container::any_target(list, one) == split_container::any_target(list, other)) by {
        if split_container::any_target(list, one) {
            let i = choose|i: int| 0 <= i < list.len() && one.contains(#[trigger] list[i]);
            assert(other.contains(list[i]));
        }
        if split_container::any_target(list, other) {
            let i = choose|i: int| 0 <= i < list.len() && other.contains(#[trigger] list[i]);
            assert(one.contains(list[i]));
        }
    }
}

/// Of a list, choosing two of its values leaves these.
proof fn lemma_chosen_pair(list: Seq<ContainerId>, i: int, j: int)
    requires
        list.no_duplicates(),
        0 <= i < j < list.len(),
    ensures
        split_container::chosen(list, seq![list[i], list[j]]) == seq![list[i], list[j]],
{
    let targets = seq![list[i], list[j]];
    let pred = |x: ContainerId| targets.contains(x);
    let a = list.take(i);
    let b = list.subrange(i + 1, j);
    let c = list.skip(j + 1);
    let x = seq![list[i]];
    let y = seq![list[j]];
    assert(targets[0] == list[i] && targets[1] == list[j]);
    assert(targets.contains(list[i]) && targets.contains(list[j]));
    assert(list =~= a + (x + (b + (y + c))));
    Seq::filter_distributes_over_add(a, x + (b + (y + c)), pred);
    Seq::filter_distributes_over_add(x, b + (y + c), pred);
    Seq::filter_distributes_over_add(b, y + c, pred);
    Seq::filter_distributes_over_add(y, c, pred);
    assert forall|k: int| 0 <= k < a.len() implies !targets.contains(#[trigger] a[k]) by {
        assert(a[k] == list[k]);
    }
    assert forall|k: int| 0 <= k < b.len() implies !targets.contains(#[trigger] b[k]) by {
        assert(b[k] == list[k + i + 1]);
    }
    assert forall|k: int| 0 <= k < c.len() implies !targets.contains(#[trigger] c[k]) by {
        assert(c[k] == list[k + j + 1]);
    }
    lemma_chosen_none(a, targets);
    lemma_chosen_none(b, targets);
    lemma_chosen_none(c, targets);
    reveal(Seq::filter);
    assert(x.drop_last() =~= Seq::empty() && y.drop_last() =~= Seq::empty());
    assert(x.drop_last().filter(pred) =~= Seq::empty());
    assert(y.drop_last().filter(pred) =~= Seq::empty());
    assert(x.filter(pred) =~= x);
    assert(y.filter(pred) =~= y);
    assert(list.filter(pred) =~= targets);
}

proof fn lemma_chosen_none(list: Seq<ContainerId>, targets: Seq<ContainerId>)
    requires
        forall|k: int| 0 <= k < list.len() ==> !targets.contains(#[trigger] list[k]),
    ensures
        list.filter(|x: ContainerId| targets.contains(x)) == Seq::<ContainerId>::empty(),
    decreases list.len(),
{
    reveal(Seq::filter);
    if list.len() > 0 {
        let init = list.drop_last();
        assert forall|k: int| 0 <= k < init.len() implies !targets.contains(#[trigger] init[k]) by {
            assert(init[k] == list[k]);
        }
        lemma_chosen_none(init, targets);
        assert(!targets.contains(list[list.len() - 1]));
    }
    assert(list.filter(|x: ContainerId| targets.contains(x)) =~= Seq::empty());
}

} // verus!
