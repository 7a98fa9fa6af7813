//! Which window a search in a direction finds.

use vstd::prelude::*;

use crate::container::{ContainerId, ContainerKind};
use crate::error::CommandError;
use crate::forest::{self, Forest};
use crate::geometry::{Direction, TilingDirection};
use crate::tiling_window_in_direction;

verus! {

/// Whether an axis is the one that a direction runs along.
pub open spec fn runs_along(axis: TilingDirection, direction: Direction) -> bool {
    (axis == TilingDirection::Horizontal) == (direction == Direction::Left || direction
        == Direction::Right)
}

/// Whether a direction leads from the child with the index `i` to the one with
/// the index `j`. Children stand from left to right, or from top to bottom.
pub open spec fn leads_to(direction: Direction, i: int, j: int) -> bool {
    if direction == Direction::Right || direction == Direction::Down {
        i < j
    } else {
        j < i
    }
}

/// Whether two directions are opposite to each other.
pub open spec fn are_opposite(one: Direction, other: Direction) -> bool {
    ||| one == Direction::Left && other == Direction::Right
    ||| one == Direction::Right && other == Direction::Left
    ||| one == Direction::Up && other == Direction::Down
    ||| one == Direction::Down && other == Direction::Up
}

/// Whether a container tiles.
pub open spec fn tiles(t: Forest, x: ContainerId) -> bool {
    t[x as int].props.kind == ContainerKind::TilingWindow || t[x as int].props.kind
        == ContainerKind::Split
}

/// Whether a container lays out its children along an axis.
pub open spec fn has_axis(t: Forest, p: ContainerId) -> bool {
    t[p as int].props.kind == ContainerKind::Workspace || t[p as int].props.kind
        == ContainerKind::Split
}

/// Whether the child of `p` with the index `j` is the first tiling one from
/// the index `i` on in a direction.
pub open spec fn is_next(
    t: Forest,
    p: ContainerId,
    i: int,
    j: int,
    direction: Direction,
) -> bool {
    let children = t[p as int].children;
    &&& 0 <= i < children.len()
    &&& 0 <= j < children.len()
    &&& leads_to(direction, i, j)
    &&& tiles(t, children[j])
    &&& forall|m: int|
        0 <= m < children.len() && leads_to(direction, i, m) && leads_to(direction, m, j)
            ==> !tiles(t, #[trigger] children[m])
}

/// Whether no tiling child of `p` lies in a direction from the index `i` on.
pub open spec fn is_outermost(t: Forest, p: ContainerId, i: int, direction: Direction) -> bool {
    let children = t[p as int].children;
    forall|m: int|
        0 <= m < children.len() && leads_to(direction, i, m) ==> !tiles(t, #[trigger] children[m])
}

/// Whether `x` is the child of `p` with the index `i`, and `p` is a workspace
/// or split.
pub open spec fn is_child_at(t: Forest, x: ContainerId, p: ContainerId, i: int) -> bool {
    &&& forest::well_formed(t)
    &&& p < t.len()
    &&& has_axis(t, p)
    &&& 0 <= i < t[p as int].children.len()
    &&& t[p as int].children[i] == x
    &&& t[x as int].props.kind != ContainerKind::Workspace
}

proof fn lemma_next(t: Forest, x: ContainerId, p: ContainerId, i: int, j: int, direction: Direction)
    requires
        is_child_at(t, x, p, i),
        is_next(t, p, i, j, direction),
    ensures
        x < t.len(),
        t[x as int].parent == Some(p),
        tiling_window_in_direction::sibling_in_direction(t, p, x, direction) == Some(
            t[p as int].children[j],
        ),
{
    let children = t[p as int].children;
    assert(t[p as int].children.contains(x));
    assert(children.no_duplicates());
    assert(children.index_of(x) == i);
    if leads_to(direction, 0, 1) {
        let rest = children.skip(i + 1);
        assert(rest[j - i - 1] == children[j]);
        assert forall|m: int| 0 <= m < j - i - 1 implies !(
        #[trigger] t[rest[m] as int]).props.kind.spec_is_tiling() by {
            assert(rest[m] == children[m + i + 1]);
            assert(!tiles(t, children[m + i + 1]));
        }
        tiling_window_in_direction::lemma_first_tiling(t, rest, j - i - 1);
    } else {
        let before = children.take(i);
        assert(before[j] == children[j]);
        assert forall|m: int| j < m < before.len() implies !(
        #[trigger] t[before[m] as int]).props.kind.spec_is_tiling() by {
            assert(before[m] == children[m]);
            assert(!tiles(t, children[m]));
        }
        tiling_window_in_direction::lemma_last_tiling(t, before, j);
    }
}

proof fn lemma_none_next(t: Forest, x: ContainerId, p: ContainerId, i: int, direction: Direction)
    requires
        is_child_at(t, x, p, i),
        is_outermost(t, p, i, direction),
    ensures
        x < t.len(),
        t[x as int].parent == Some(p),
        tiling_window_in_direction::sibling_in_direction(t, p, x, direction) is None,
{
    let children = t[p as int].children;
    assert(t[p as int].children.contains(x));
    assert(children.no_duplicates());
    assert(children.index_of(x) == i);
    if leads_to(direction, 0, 1) {
        let rest = children.skip(i + 1);
        assert forall|m: int| 0 <= m < rest.len() implies !(
        #[trigger] t[rest[m] as int]).props.kind.spec_is_tiling() by {
            assert(rest[m] == children[m + i + 1]);
            assert(!tiles(t, children[m + i + 1]));
        }
        tiling_window_in_direction::lemma_none_tiling(t, rest);
    } else {
        let before = children.take(i);
        assert forall|m: int| 0 <= m < before.len() implies !(
        #[trigger] t[before[m] as int]).props.kind.spec_is_tiling() by {
            assert(before[m] == children[m]);
            assert(!tiles(t, children[m]));
        }
        tiling_window_in_direction::lemma_none_tiling(t, before);
    }
}

/// A search that goes on at the parent ends as one from there does.
proof fn lemma_search_step(
    t: Forest,
    x: ContainerId,
    p: ContainerId,
    direction: Direction,
    r: Result<Option<ContainerId>, CommandError>,
)
    requires
        x < t.len(),
        t[x as int].parent == Some(p),
        tiling_window_in_direction::search_at(t, x, direction) is None,
        tiling_window_in_direction::search_ends(t, p, direction, r),
    ensures
        tiling_window_in_direction::search_ends(t, x, direction, r),
{
    let n = choose|n: nat|
        #![trigger tiling_window_in_direction::search_reaches(t, p, direction, n)]
        tiling_window_in_direction::search_reaches(t, p, direction, n)
            && tiling_window_in_direction::search_at(t, forest::above(t, p, n)->0, direction)
            == Some(r);
    assert(forest::above(t, x, 0) == Some(x));
    assert(forest::above(t, x, 1) == Some(p));
    forest::lemma_above_add(t, x, 1, n);
    assert forall|m: nat|
        #![trigger forest::above(t, x, m)]
        m < n + 1 implies forest::above(t, x, m) is Some && tiling_window_in_direction::search_at(
        t,
        forest::above(t, x, m)->0,
        direction,
    ) is None by {
        if m > 0 {
            forest::lemma_above_add(t, x, 1, (m - 1) as nat);
            assert(forest::above(t, p, (m - 1) as nat) is Some);
        }
    }
    assert(tiling_window_in_direction::search_reaches(t, x, direction, n + 1));
}

/// Every search ends.
proof fn lemma_search_ends(t: Forest, rank: Seq<nat>, x: ContainerId, direction: Direction)
    requires
        forest::ranked(t, rank),
        x < t.len(),
    ensures
        tiling_window_in_direction::search_ends(
            t,
            x,
            direction,
            tiling_window_in_direction::search_result(t, x, direction),
        ),
    decreases rank[x as int],
{
    match tiling_window_in_direction::search_at(t, x, direction) {
        Some(r) => {
            assert(forest::above(t, x, 0) == Some(x));
            assert(tiling_window_in_direction::search_reaches(t, x, direction, 0));
            assert(tiling_window_in_direction::search_ends(t, x, direction, r));
        },
        None => {
            let p = t[x as int].parent->0;
            lemma_search_ends(t, rank, p, direction);
            lemma_search_step(
                t,
                x,
                p,
                direction,
                tiling_window_in_direction::search_result(t, p, direction),
            );
        },
    }
}

/// A search that ends where it starts.
proof fn lemma_search_here(
    t: Forest,
    x: ContainerId,
    direction: Direction,
    r: Result<Option<ContainerId>, CommandError>,
)
    requires
        tiling_window_in_direction::search_at(t, x, direction) == Some(r),
    ensures
        tiling_window_in_direction::search_result(t, x, direction) == r,
{
    assert(forest::above(t, x, 0) == Some(x));
    assert(tiling_window_in_direction::search_reaches(t, x, direction, 0));
    assert(tiling_window_in_direction::search_ends(t, x, direction, r));
    tiling_window_in_direction::law_search_has_one_result(
        t,
        x,
        direction,
        r,
        tiling_window_in_direction::search_result(t, x, direction),
    );
}

/// A search goes on upwards wherever nothing lies in its direction: if the
/// parent is laid out along the other axis, or if no tiling sibling lies in
/// the direction, the search finds what one from the parent finds.
pub proof fn law_search_goes_on_upwards(
    t: Forest,
    x: ContainerId,
    p: ContainerId,
    i: int,
    direction: Direction,
)
    requires
        is_child_at(t, x, p, i),
        !runs_along(t[p as int].props.tiling_direction, direction) || is_outermost(
            t,
            p,
            i,
            direction,
        ),
    ensures
        tiling_window_in_direction::search_result(t, x, direction)
            == tiling_window_in_direction::search_result(t, p, direction),
{
    assert(t[p as int].children.contains(x));
    if is_outermost(t, p, i, direction) {
        lemma_none_next(t, x, p, i, direction);
    }
    let rank = choose|rank: Seq<nat>| forest::ranked(t, rank);
    lemma_search_ends(t, rank, p, direction);
    let r = tiling_window_in_direction::search_result(t, p, direction);
    lemma_search_step(t, x, p, direction, r);
    tiling_window_in_direction::law_search_has_one_result(
        t,
        x,
        direction,
        r,
        tiling_window_in_direction::search_result(t, x, direction),
    );
}

/// A search ends at the first tiling sibling in its direction, along the axis
/// of the parent. A window is what it finds. Within a split, it finds what the
/// split has closest to where the search comes from.
pub proof fn law_search_ends_at_the_next_sibling(
    t: Forest,
    x: ContainerId,
    p: ContainerId,
    i: int,
    j: int,
    direction: Direction,
    back: Direction,
)
    requires
        is_child_at(t, x, p, i),
        runs_along(t[p as int].props.tiling_direction, direction),
        is_next(t, p, i, j, direction),
        are_opposite(direction, back),
    ensures
        ({
            let s = t[p as int].children[j];
            let r = tiling_window_in_direction::search_result(t, x, direction);
            if t[s as int].props.kind == ContainerKind::TilingWindow {
                r == Ok::<Option<ContainerId>, CommandError>(Some(s))
            } else {
                r == Ok::<Option<ContainerId>, CommandError>(
                    tiling_window_in_direction::descendant_in_direction(t, s, back),
                )
            }
        }),
{
    let s = t[p as int].children[j];
    lemma_next(t, x, p, i, j, direction);
    if t[s as int].props.kind == ContainerKind::TilingWindow {
        lemma_search_here(t, x, direction, Ok(Some(s)));
    } else {
        lemma_search_here(
            t,
            x,
            direction,
            Ok(tiling_window_in_direction::descendant_in_direction(t, s, back)),
        );
    }
}

/// A search stops at the workspace, and finds nothing there. It is refused
/// where there is neither a workspace nor a split to go on at.
pub proof fn law_search_stops_at_the_workspace(t: Forest, x: ContainerId, direction: Direction)
    requires
        t[x as int].props.kind == ContainerKind::Workspace || t[x as int].parent is None
            || !has_axis(t, t[x as int].parent->0),
    ensures
        tiling_window_in_direction::search_result(t, x, direction) == if t[x as int].props.kind
            == ContainerKind::Workspace {
            Ok::<Option<ContainerId>, CommandError>(None)
        } else {
            Err(CommandError::NoDirectionContainer)
        },
{
    if t[x as int].props.kind == ContainerKind::Workspace {
        lemma_search_here(t, x, direction, Ok(None));
    } else {
        lemma_search_here(t, x, direction, Err(CommandError::NoDirectionContainer));
    }
}

/// Whether a search in a direction goes on upwards from `x`.
pub open spec fn is_left_behind(t: Forest, x: ContainerId, direction: Direction) -> bool {
    exists|p: ContainerId, i: int|
        #![trigger is_child_at(t, x, p, i)]
        is_child_at(t, x, p, i) && (!runs_along(t[p as int].props.tiling_direction, direction)
            || is_outermost(t, p, i, direction))
}

/// A search finds the window next to an ancestor of its origin, if nothing
/// nearer lies in its direction, however far up that is.
pub proof fn law_window_next_to_an_ancestor_is_found(
    t: Forest,
    x: ContainerId,
    direction: Direction,
    n: nat,
    p: ContainerId,
    i: int,
    j: int,
)
    requires
        forall|m: nat|
            m < n ==> (#[trigger] forest::above(t, x, m) matches Some(a) && is_left_behind(
                t,
                a,
                direction,
            )),
        forest::above(t, x, n) matches Some(a) && is_child_at(t, a, p, i),
        runs_along(t[p as int].props.tiling_direction, direction),
        is_next(t, p, i, j, direction),
        t[t[p as int].children[j] as int].props.kind == ContainerKind::TilingWindow,
    ensures
        tiling_window_in_direction::search_result(t, x, direction) == Ok::<
            Option<ContainerId>,
            CommandError,
        >(Some(t[p as int].children[j])),
    decreases n,
{
    assert(forest::above(t, x, 0) == Some(x));
    if n == 0 {
        let back = match direction {
            Direction::Left => Direction::Right,
            Direction::Right => Direction::Left,
            Direction::Up => Direction::Down,
            Direction::Down => Direction::Up,
        };
        law_search_ends_at_the_next_sibling(t, x, p, i, j, direction, back);
    } else {
        assert(forest::above(t, x, 0) matches Some(a) && is_left_behind(t, a, direction));
        lemma_step_up(t, x, direction);
        let q = t[x as int].parent->0;
        assert(forest::above(t, x, 1) == Some(q));
        assert forall|m: nat| m < n - 1 implies (#[trigger] forest::above(t, q, m) matches Some(a)
            && is_left_behind(t, a, direction)) by {
            forest::lemma_above_add(t, x, 1, m);
            assert(forest::above(t, x, m + 1) is Some);
        }
        forest::lemma_above_add(t, x, 1, (n - 1) as nat);
        law_window_next_to_an_ancestor_is_found(t, q, direction, (n - 1) as nat, p, i, j);
    }
}

/// A search that finds nothing has gone on upwards to the workspace, or has
/// come to a split without a window to descend to: nothing that it has left
/// behind has a tiling sibling in its direction.
pub proof fn law_nothing_is_found_only_if_nothing_is_there(
    t: Forest,
    x: ContainerId,
    direction: Direction,
    w: ContainerId,
    n: nat,
)
    requires
        forest::above(t, x, n) == Some(w),
        t[w as int].props.kind == ContainerKind::Workspace,
        forall|m: nat|
            m < n ==> (#[trigger] forest::above(t, x, m) matches Some(a) && exists|
                p: ContainerId,
                i: int,
            | #[trigger] is_child_at(t, a, p, i)),
        tiling_window_in_direction::search_result(t, x, direction) == Ok::<
            Option<ContainerId>,
            CommandError,
        >(None),
    ensures
        (forall|m: nat|
            m < n ==> is_left_behind(t, (#[trigger] forest::above(t, x, m))->0, direction)) || (
        exists|m: nat, p: ContainerId, i: int, j: int|
            #![trigger is_child_at(t, forest::above(t, x, m)->0, p, i), is_next(t, p, i, j, direction)]
            {
                &&& m < n
                &&& is_child_at(t, forest::above(t, x, m)->0, p, i)
                &&& is_next(t, p, i, j, direction)
                &&& t[t[p as int].children[j] as int].props.kind == ContainerKind::Split
            }),
    decreases n,
{
    assert(forest::above(t, x, 0) == Some(x));
    if n > 0 {
        assert(forest::above(t, x, 0) is Some);
        let (p, i) = choose|p: ContainerId, i: int| #[trigger] is_child_at(t, x, p, i);
        assert(t[p as int].children.contains(x));
        assert(forest::above(t, x, 1) == Some(p));
        if is_left_behind(t, x, direction) {
            lemma_step_up(t, x, direction);
            assert forall|m: nat| m < n - 1 implies (#[trigger] forest::above(t, p, m) matches Some(
                a,
            ) && exists|q: ContainerId, k: int| #[trigger] is_child_at(t, a, q, k)) by {
                forest::lemma_above_add(t, x, 1, m);
                assert(forest::above(t, x, m + 1) is Some);
            }
            forest::lemma_above_add(t, x, 1, (n - 1) as nat);
            law_nothing_is_found_only_if_nothing_is_there(t, p, direction, w, (n - 1) as nat);
            if forall|m: nat|
                m < n - 1 ==> is_left_behind(
                    t,
                    (#[trigger] forest::above(t, p, m))->0,
                    direction,
                ) {
                assert forall|m: nat| m < n implies is_left_behind(
                    t,
                    (#[trigger] forest::above(t, x, m))->0,
                    direction,
                ) by {
                    if m > 0 {
                        forest::lemma_above_add(t, x, 1, (m - 1) as nat);
                        assert(is_left_behind(
                            t,
                            forest::above(t, p, (m - 1) as nat)->0,
                            direction,
                        ));
                    }
                }
            } else {
                let (m, q, k, j) = choose|m: nat, q: ContainerId, k: int, j: int|
                    #![trigger is_child_at(t, forest::above(t, p, m)->0, q, k), is_next(t, q, k, j, direction)]
                    {
                        &&& m < n - 1
                        &&& is_child_at(t, forest::above(t, p, m)->0, q, k)
                        &&& is_next(t, q, k, j, direction)
                        &&& t[t[q as int].children[j] as int].props.kind == ContainerKind::Split
                    };
                forest::lemma_above_add(t, x, 1, m);
                assert(is_child_at(t, forest::above(t, x, m + 1)->0, q, k));
            }
        } else {
            assert(!is_outermost(t, p, i, direction));
            let j = lemma_some_next(t, x, p, i, direction);
            if t[t[p as int].children[j] as int].props.kind == ContainerKind::TilingWindow {
                let back = match direction {
                    Direction::Left => Direction::Right,
                    Direction::Right => Direction::Left,
                    Direction::Up => Direction::Down,
                    Direction::Down => Direction::Up,
                };
                law_search_ends_at_the_next_sibling(t, x, p, i, j, direction, back);
            }
            assert(is_child_at(t, forest::above(t, x, 0)->0, p, i));
        }
    }
}

proof fn lemma_step_up(t: Forest, x: ContainerId, direction: Direction)
    requires
        is_left_behind(t, x, direction),
    ensures
        x < t.len(),
        t[x as int].parent is Some,
        tiling_window_in_direction::search_result(t, x, direction)
            == tiling_window_in_direction::search_result(t, t[x as int].parent->0, direction),
{
    let (p, i) = choose|p: ContainerId, i: int|
        #![trigger is_child_at(t, x, p, i)]
        is_child_at(t, x, p, i) && (!runs_along(t[p as int].props.tiling_direction, direction)
            || is_outermost(t, p, i, direction));
    assert(t[p as int].children.contains(x));
    law_search_goes_on_upwards(t, x, p, i, direction);
}

/// Where a tiling sibling lies in a direction, one of them is the next one.
proof fn lemma_some_next(
    t: Forest,
    x: ContainerId,
    p: ContainerId,
    i: int,
    direction: Direction,
) -> (j: int)
    requires
        is_child_at(t, x, p, i),
        !is_outermost(t, p, i, direction),
    ensures
        is_next(t, p, i, j, direction),
{
    let children = t[p as int].children;
    let far = choose|m: int|
        0 <= m < children.len() && leads_to(direction, i, m) && tiles(t, #[trigger] children[m]);
    lemma_nearer(t, p, i, far, direction)
}

proof fn lemma_nearer(
    t: Forest,
    p: ContainerId,
    i: int,
    far: int,
    direction: Direction,
) -> (j: int)
    requires
        0 <= i < t[p as int].children.len(),
        0 <= far < t[p as int].children.len(),
        leads_to(direction, i, far),
        tiles(t, t[p as int].children[far]),
    ensures
        is_next(t, p, i, j, direction),
    decreases
            if i < far {
                far - i
            } else {
                i - far
            },
{
    let children = t[p as int].children;
    if is_next(t, p, i, far, direction) {
        far
    } else {
        let m = choose|m: int|
            0 <= m < children.len() && leads_to(direction, i, m) && leads_to(direction, m, far)
                && tiles(t, #[trigger] children[m]);
        lemma_nearer(t, p, i, m, direction)
    }
}

/// From a split, a search descends to the child that is outermost in the
/// direction along the axis of the split, and to the first child along the
/// other axis, until it comes to a window.
pub proof fn law_descent_follows_the_outermost_child(
    t: Forest,
    s: ContainerId,
    k: int,
    direction: Direction,
)
    requires
        0 <= k < t[s as int].children.len(),
        t[s as int].props.kind == ContainerKind::Split,
        tiles(t, t[s as int].children[k]),
        is_outermost(
            t,
            s,
            k,
            if runs_along(t[s as int].props.tiling_direction, direction) {
                direction
            } else {
                Direction::Left
            },
        ),
    ensures
        tiling_window_in_direction::descendant_in_direction(t, s, direction)
            == tiling_window_in_direction::descendant_in_direction(
            t,
            t[s as int].children[k],
            direction,
        ),
{
    let children = t[s as int].children;
    let c = children[k];
    let way = if runs_along(t[s as int].props.tiling_direction, direction) {
        direction
    } else {
        Direction::Left
    };
    if leads_to(way, 0, 1) {
        assert forall|m: int| k < m < children.len() implies !(
        #[trigger] t[children[m] as int]).props.kind.spec_is_tiling() by {
            assert(!tiles(t, children[m]));
        }
        tiling_window_in_direction::lemma_last_tiling(t, children, k);
    } else {
        assert forall|m: int| 0 <= m < k implies !(
        #[trigger] t[children[m] as int]).props.kind.spec_is_tiling() by {
            assert(!tiles(t, children[m]));
        }
        tiling_window_in_direction::lemma_first_tiling(t, children, k);
    }
    assert(tiling_window_in_direction::child_in_direction(t, s, direction) == Some(c));
    lemma_same_descendant(t, s, c, direction);
}

/// A descent ends at a window, and finds nothing in a split without tiling
/// children.
pub proof fn law_descent_ends_at_a_window(t: Forest, s: ContainerId, direction: Direction)
    requires
        t[s as int].props.kind == ContainerKind::TilingWindow || (t[s as int].props.kind
            == ContainerKind::Split && forall|m: int|
            0 <= m < t[s as int].children.len() ==> !tiles(
                t,
                #[trigger] t[s as int].children[m],
            )),
    ensures
        tiling_window_in_direction::descendant_in_direction(t, s, direction)
            == if t[s as int].props.kind == ContainerKind::TilingWindow {
            Some(s)
        } else {
            None
        },
{
    assert(tiling_window_in_direction::descent(t, s, direction, 0) == Some(s));
    if t[s as int].props.kind == ContainerKind::TilingWindow {
        assert(tiling_window_in_direction::descends_to_window(t, s, direction, 0));
        let n = choose|n: nat|
            tiling_window_in_direction::descends_to_window(t, s, direction, n);
        assert(tiling_window_in_direction::descent(t, s, direction, 1) is None);
        if n > 0 {
            tiling_window_in_direction::lemma_descent_ends(t, s, direction, 1, (n - 1) as nat);
        }
    } else {
        let children = t[s as int].children;
        assert forall|m: int| 0 <= m < children.len() implies !(
        #[trigger] t[children[m] as int]).props.kind.spec_is_tiling() by {
            assert(!tiles(t, t[s as int].children[m]));
        }
        tiling_window_in_direction::lemma_none_tiling(t, children);
        assert(tiling_window_in_direction::descent(t, s, direction, 1) is None);
        assert forall|n: nat| !tiling_window_in_direction::descends_to_window(
            t,
            s,
            direction,
            n,
        ) by {
            if n > 0 {
                tiling_window_in_direction::lemma_descent_ends(t, s, direction, 1, (n - 1) as nat);
            }
        }
    }
}

proof fn lemma_descent_from_child(
    t: Forest,
    s: ContainerId,
    c: ContainerId,
    direction: Direction,
    n: nat,
)
    requires
        t[s as int].props.kind == ContainerKind::Split,
        tiling_window_in_direction::child_in_direction(t, s, direction) == Some(c),
    ensures
        tiling_window_in_direction::descent(t, s, direction, n + 1)
            == tiling_window_in_direction::descent(t, c, direction, n),
    decreases n,
{
    if n == 0 {
        assert(tiling_window_in_direction::descent(t, s, direction, 0) == Some(s));
    } else {
        lemma_descent_from_child(t, s, c, direction, (n - 1) as nat);
    }
}

proof fn lemma_same_descendant(t: Forest, s: ContainerId, c: ContainerId, direction: Direction)
    requires
        t[s as int].props.kind == ContainerKind::Split,
        tiling_window_in_direction::child_in_direction(t, s, direction) == Some(c),
    ensures
        tiling_window_in_direction::descendant_in_direction(t, s, direction)
            == tiling_window_in_direction::descendant_in_direction(t, c, direction),
{
    assert(tiling_window_in_direction::descent(t, s, direction, 0) == Some(s));
    if exists|n: nat| tiling_window_in_direction::descends_to_window(t, c, direction, n) {
        let n = choose|n: nat| tiling_window_in_direction::descends_to_window(t, c, direction, n);
        lemma_descent_from_child(t, s, c, direction, n);
        assert(tiling_window_in_direction::descends_to_window(t, s, direction, n + 1));
        let m = choose|m: nat| tiling_window_in_direction::descends_to_window(t, s, direction, m);
        assert(m > 0);
        lemma_descent_from_child(t, s, c, direction, (m - 1) as nat);
        assert(tiling_window_in_direction::descends_to_window(t, c, direction, (m - 1) as nat));
        lemma_one_depth(t, c, direction, n, (m - 1) as nat);
    } else {
        assert forall|m: nat| !tiling_window_in_direction::descends_to_window(
            t,
            s,
            direction,
            m,
        ) by {
            if m > 0 {
                lemma_descent_from_child(t, s, c, direction, (m - 1) as nat);
                assert(!tiling_window_in_direction::descends_to_window(
                    t,
                    c,
                    direction,
                    (m - 1) as nat,
                ));
            }
        }
    }
}

proof fn lemma_one_depth(t: Forest, c: ContainerId, direction: Direction, n: nat, m: nat)
    requires
        tiling_window_in_direction::descends_to_window(t, c, direction, n),
        tiling_window_in_direction::descends_to_window(t, c, direction, m),
    ensures
        n == m,
{
    if n < m {
        assert(tiling_window_in_direction::descent(t, c, direction, n + 1) is None);
        tiling_window_in_direction::lemma_descent_ends(
            t,
            c,
            direction,
            n + 1,
            (m - n - 1) as nat,
        );
    } else if m < n {
        assert(tiling_window_in_direction::descent(t, c, direction, m + 1) is None);
        tiling_window_in_direction::lemma_descent_ends(
            t,
            c,
            direction,
            m + 1,
            (n - m - 1) as nat,
        );
    }
}

} // verus!
