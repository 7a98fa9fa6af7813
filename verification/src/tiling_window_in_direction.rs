//! Finding the tiling window next to a container.

use vstd::prelude::*;

use crate::container::{ContainerId, ContainerKind};
use crate::error::CommandError;
use crate::forest::{self, Forest};
use crate::geometry::{Direction, TilingDirection};
use crate::lists::position;
use crate::tree::Tree;

verus! {

/// The first value of a list, if there is one.
pub open spec fn first_of(list: Seq<ContainerId>) -> Option<ContainerId> {
    if list.len() > 0 {
        Some(list.first())
    } else {
        None
    }
}

/// The last value of a list, if there is one.
pub open spec fn last_of(list: Seq<ContainerId>) -> Option<ContainerId> {
    if list.len() > 0 {
        Some(list.last())
    } else {
        None
    }
}

/// Whether a direction leads to the end of a list of children.
pub open spec fn is_forward(direction: Direction) -> bool {
    direction == Direction::Right || direction == Direction::Down
}

/// The tiling container next to `x` amongst the children of `p`.
pub open spec fn sibling_in_direction(
    t: Forest,
    p: ContainerId,
    x: ContainerId,
    direction: Direction,
) -> Option<ContainerId> {
    let children = t[p as int].children;
    let index = children.index_of(x);
    if is_forward(direction) {
        first_of(forest::tiling_of(t, children.skip(index + 1)))
    } else {
        last_of(forest::tiling_of(t, children.take(index)))
    }
}

/// The outermost tiling child of `p` in a direction.
///
/// Across the axis of `p`, all of its children reach equally far in the
/// direction, so that which one to take is a choice. It falls on the first
/// one, which is the leftmost or the topmost.
pub open spec fn child_in_direction(
    t: Forest,
    p: ContainerId,
    direction: Direction,
) -> Option<ContainerId> {
    let children = forest::tiling_of(t, t[p as int].children);
    if is_forward(direction) && t[p as int].props.tiling_direction
        == TilingDirection::spec_from_direction(direction) {
        last_of(children)
    } else {
        first_of(children)
    }
}

/// The container that is `n` steps below `p`, when every step leads from a
/// split to its outermost child in the given direction.
pub open spec fn descent(t: Forest, p: ContainerId, direction: Direction, n: nat) -> Option<
    ContainerId,
>
    decreases n,
{
    if n == 0 {
        Some(p)
    } else {
        match descent(t, p, direction, (n - 1) as nat) {
            Some(x) => if t[x as int].props.kind == ContainerKind::Split {
                child_in_direction(t, x, direction)
            } else {
                None
            },
            None => None,
        }
    }
}

/// Whether the outermost window of `p` in a direction is `n` steps below it.
pub open spec fn descends_to_window(
    t: Forest,
    p: ContainerId,
    direction: Direction,
    n: nat,
) -> bool {
    match descent(t, p, direction, n) {
        Some(x) => t[x as int].props.kind == ContainerKind::TilingWindow,
        None => false,
    }
}

/// The outermost tiling window of `p` in a direction, if there is one.
pub open spec fn descendant_in_direction(
    t: Forest,
    p: ContainerId,
    direction: Direction,
) -> Option<ContainerId> {
    if exists|n: nat| descends_to_window(t, p, direction, n) {
        descent(t, p, direction, choose|n: nat| descends_to_window(t, p, direction, n))
    } else {
        None
    }
}

/// What a search in a direction ends with at `x`, or `None` if it goes on at
/// the parent of `x`.
pub open spec fn search_at(t: Forest, x: ContainerId, direction: Direction) -> Option<
    Result<Option<ContainerId>, CommandError>,
> {
    if t[x as int].props.kind == ContainerKind::Workspace {
        Some(Ok(None))
    } else {
        match t[x as int].parent {
            Some(p) => if !t[p as int].props.kind.spec_is_direction() {
                Some(Err(CommandError::NoDirectionContainer))
            } else if t[p as int].props.tiling_direction != TilingDirection::spec_from_direction(
                direction,
            ) {
                None
            } else {
                match sibling_in_direction(t, p, x, direction) {
                    Some(s) => if t[s as int].props.kind == ContainerKind::Split {
                        Some(Ok(descendant_in_direction(t, s, direction.spec_inverse())))
                    } else {
                        Some(Ok(Some(s)))
                    },
                    None => None,
                }
            },
            None => Some(Err(CommandError::NoDirectionContainer)),
        }
    }
}

/// Whether a search that starts at `x` reaches the container that is `n`
/// links above `x`.
pub open spec fn search_reaches(t: Forest, x: ContainerId, direction: Direction, n: nat) -> bool {
    &&& forest::above(t, x, n) is Some
    &&& forall|m: nat|
        #![trigger forest::above(t, x, m)]
        m < n ==> forest::above(t, x, m) is Some && search_at(
            t,
            forest::above(t, x, m)->0,
            direction,
        ) is None
}

/// Whether a search that starts at `x` ends with `r`: it goes upwards link by
/// link, and ends where [`search_at`] first gives a result.
pub open spec fn search_ends(
    t: Forest,
    x: ContainerId,
    direction: Direction,
    r: Result<Option<ContainerId>, CommandError>,
) -> bool {
    exists|n: nat|
        #![trigger search_reaches(t, x, direction, n)]
        search_reaches(t, x, direction, n) && search_at(
            t,
            forest::above(t, x, n)->0,
            direction,
        ) == Some(r)
}

/// What a search that starts at `x` ends with.
pub open spec fn search_result(t: Forest, x: ContainerId, direction: Direction) -> Result<
    Option<ContainerId>,
    CommandError,
> {
    choose|r: Result<Option<ContainerId>, CommandError>| search_ends(t, x, direction, r)
}

/// A search ends with one result only.
pub proof fn law_search_has_one_result(
    t: Forest,
    x: ContainerId,
    direction: Direction,
    r: Result<Option<ContainerId>, CommandError>,
    s: Result<Option<ContainerId>, CommandError>,
)
    requires
        search_ends(t, x, direction, r),
        search_ends(t, x, direction, s),
    ensures
        r == s,
{
    let n = choose|n: nat|
        #![trigger search_reaches(t, x, direction, n)]
        search_reaches(t, x, direction, n) && search_at(t, forest::above(t, x, n)->0, direction)
            == Some(r);
    let m = choose|m: nat|
        #![trigger search_reaches(t, x, direction, m)]
        search_reaches(t, x, direction, m) && search_at(t, forest::above(t, x, m)->0, direction)
            == Some(s);
    assert(forest::above(t, x, n) is Some && forest::above(t, x, m) is Some);
}

/// A descent that has ended has done so for good.
pub proof fn lemma_descent_ends(t: Forest, p: ContainerId, direction: Direction, n: nat, k: nat)
    requires
        descent(t, p, direction, n) is None,
    ensures
        descent(t, p, direction, n + k) is None,
    decreases k,
{
    if k > 0 {
        lemma_descent_ends(t, p, direction, n, (k - 1) as nat);
    }
}

/// A descent from a split stays within it.
proof fn lemma_descent_within(t: Forest, p: ContainerId, direction: Direction, n: nat)
    requires
        forest::linked(t),
        p < t.len(),
    ensures
        descent(t, p, direction, n) matches Some(x) ==> x < t.len() && forest::within(t, x, p),
    decreases n,
{
    if n == 0 {
        forest::lemma_within_self(t, p);
    } else {
        lemma_descent_within(t, p, direction, (n - 1) as nat);
        if let Some(x) = descent(t, p, direction, (n - 1) as nat) {
            if t[x as int].props.kind == ContainerKind::Split {
                if let Some(c) = child_in_direction(t, x, direction) {
                    let children = t[x as int].children;
                    forest::lemma_tiling_of(t, children);
                    assert(forest::tiling_of(t, children).contains(c));
                    assert(t[x as int].children.contains(c));
                    forest::lemma_within_up(t, c, x);
                    forest::lemma_within_trans(t, c, x, p);
                }
            }
        }
    }
}

/// A tiling sibling is another child of the same parent.
proof fn lemma_sibling(t: Forest, p: ContainerId, x: ContainerId, direction: Direction)
    requires
        forest::linked(t),
        p < t.len(),
        t[p as int].children.contains(x),
    ensures
        sibling_in_direction(t, p, x, direction) matches Some(s) ==> s < t.len() && s != x
            && t[s as int].parent == Some(p) && t[s as int].props.kind.spec_is_tiling(),
{
    let children = t[p as int].children;
    let index = children.index_of(x);
    assert(0 <= index < children.len() && children[index] == x);
    assert(children.no_duplicates());
    let part = if is_forward(direction) {
        children.skip(index + 1)
    } else {
        children.take(index)
    };
    forest::lemma_tiling_of(t, part);
    if let Some(s) = sibling_in_direction(t, p, x, direction) {
        assert(forest::tiling_of(t, part).contains(s));
        let k = choose|k: int| 0 <= k < part.len() && part[k] == s;
        let m = if is_forward(direction) {
            index + 1 + k
        } else {
            k
        };
        assert(children[m] == s);
        assert(t[p as int].children.contains(s));
    }
}

/// A search finds a tiling window that is neither the origin nor above or
/// below it.
pub proof fn law_search_finds_another_tiling_window(
    t: Forest,
    x: ContainerId,
    direction: Direction,
    w: ContainerId,
)
    requires
        forest::well_formed(t),
        x < t.len(),
        search_ends(t, x, direction, Ok(Some(w))),
    ensures
        w < t.len(),
        t[w as int].props.kind == ContainerKind::TilingWindow,
        t[x as int].parent is Some,
        t[w as int].parent is Some,
        w != x,
        !forest::within(t, w, x),
        !forest::within(t, x, w),
{
    let n = choose|n: nat|
        #![trigger search_reaches(t, x, direction, n)]
        search_reaches(t, x, direction, n) && search_at(t, forest::above(t, x, n)->0, direction)
            == Some(Ok::<Option<ContainerId>, CommandError>(Some(w)));
    let a = forest::above(t, x, n)->0;
    let (p, s) = lemma_found(t, x, direction, w, n);
    if forest::within(t, w, x) {
        forest::lemma_within_trans(t, w, x, a);
        forest::lemma_towards_unique(t, w, p, a, s);
    }
    if forest::within(t, x, w) {
        forest::lemma_within_trans(t, x, w, s);
        forest::lemma_towards_unique(t, x, p, a, s);
    }
    forest::lemma_within_self(t, x);
    assert(w != x);
    if w == s {
        assert(t[w as int].parent is Some);
    } else {
        forest::lemma_within_down(t, w, s);
    }
    if n == 0 {
        assert(a == x);
    } else {
        assert(forest::above(t, x, 0) == Some(x));
        if t[x as int].parent is None {
            assert(forest::above(t, x, 1) is None);
            assert(forest::above(t, x, 1) is Some || n == 1);
        }
    }
}

/// What leads to the result of a search: it is within a sibling `s` of the
/// container that is `n` links above the origin, and `p` is their parent.
proof fn lemma_found(
    t: Forest,
    x: ContainerId,
    direction: Direction,
    w: ContainerId,
    n: nat,
) -> (r: (ContainerId, ContainerId))
    requires
        forest::well_formed(t),
        x < t.len(),
        search_reaches(t, x, direction, n),
        search_at(t, forest::above(t, x, n)->0, direction) == Some(
            Ok::<Option<ContainerId>, CommandError>(Some(w)),
        ),
    ensures
        ({
            let (p, s) = r;
            let a = forest::above(t, x, n)->0;
            &&& a != s
            &&& p < t.len()
            &&& forest::towards(t, x, p, a)
            &&& forest::towards(t, w, p, s)
            &&& w < t.len()
            &&& t[w as int].props.kind == ContainerKind::TilingWindow
        }),
{
    let a = forest::above(t, x, n)->0;
    let rank = choose|rank: Seq<nat>| forest::ranked(t, rank);
    forest::lemma_above_rank(t, rank, x, n);
    assert(forest::within(t, x, a));
    let p = t[a as int].parent->0;
    assert(t[p as int].children.contains(a));
    lemma_sibling(t, p, a, direction);
    let s = sibling_in_direction(t, p, a, direction)->0;
    if t[s as int].props.kind == ContainerKind::Split {
        let m = choose|m: nat| descends_to_window(t, s, direction.spec_inverse(), m);
        lemma_descent_within(t, s, direction.spec_inverse(), m);
    } else {
        forest::lemma_within_self(t, s);
    }
    (p, s)
}

/// The last tiling container of a list is the one that only others follow.
pub proof fn lemma_last_tiling(t: Forest, list: Seq<ContainerId>, k: int)
    requires
        0 <= k < list.len(),
        t[list[k] as int].props.kind.spec_is_tiling(),
        forall|m: int|
            k < m < list.len() ==> !(#[trigger] t[list[m] as int]).props.kind.spec_is_tiling(),
    ensures
        last_of(forest::tiling_of(t, list)) == Some(list[k]),
    decreases list.len(),
{
    reveal(Seq::filter);
    let init = list.drop_last();
    if k < list.len() - 1 {
        assert(!t[list[list.len() - 1] as int].props.kind.spec_is_tiling());
        assert forall|m: int| k < m < init.len() implies !(#[trigger] t[init[m] as int]).props.kind.spec_is_tiling() by {
            assert(init[m] == list[m]);
        }
        assert(init[k] == list[k]);
        lemma_last_tiling(t, init, k);
    }
}

/// The first tiling container of a list is the one that only follows others.
pub proof fn lemma_first_tiling(t: Forest, list: Seq<ContainerId>, k: int)
    requires
        0 <= k < list.len(),
        t[list[k] as int].props.kind.spec_is_tiling(),
        forall|m: int|
            0 <= m < k ==> !(#[trigger] t[list[m] as int]).props.kind.spec_is_tiling(),
    ensures
        first_of(forest::tiling_of(t, list)) == Some(list[k]),
    decreases list.len(),
{
    reveal(Seq::filter);
    let init = list.drop_last();
    if k < list.len() - 1 {
        assert forall|m: int| 0 <= m < k implies !(#[trigger] t[init[m] as int]).props.kind.spec_is_tiling() by {
            assert(init[m] == list[m]);
        }
        assert(init[k] == list[k]);
        lemma_first_tiling(t, init, k);
    } else {
        lemma_none_tiling(t, init);
    }
}

/// Nothing tiles in a list of which no container does.
pub proof fn lemma_none_tiling(t: Forest, list: Seq<ContainerId>)
    requires
        forall|m: int|
            0 <= m < list.len() ==> !(#[trigger] t[list[m] as int]).props.kind.spec_is_tiling(),
    ensures
        forest::tiling_of(t, list) == Seq::<ContainerId>::empty(),
{
    forest::lemma_tiling_of(t, list);
    let r = forest::tiling_of(t, list);
    if r.len() > 0 {
        assert(r.contains(r[0]));
        let m = choose|m: int| 0 <= m < list.len() && list[m] == r[0];
        assert(t[list[m] as int].props.kind.spec_is_tiling());
    }
    assert(r =~= Seq::empty());
}

/// The tiling container closest to the end of a list.
proof fn lemma_find_last_tiling(t: Forest, list: Seq<ContainerId>) -> (k: int)
    requires
        forest::tiling_of(t, list).len() > 0,
    ensures
        0 <= k < list.len(),
        t[list[k] as int].props.kind.spec_is_tiling(),
        forall|m: int|
            k < m < list.len() ==> !(#[trigger] t[list[m] as int]).props.kind.spec_is_tiling(),
        last_of(forest::tiling_of(t, list)) == Some(list[k]),
    decreases list.len(),
{
    reveal(Seq::filter);
    let init = list.drop_last();
    let last = list.len() - 1;
    if t[list[last] as int].props.kind.spec_is_tiling() {
        lemma_last_tiling(t, list, last);
        last
    } else {
        let k = lemma_find_last_tiling(t, init);
        assert forall|m: int| k < m < list.len() implies !(#[trigger] t[list[m] as int]).props.kind.spec_is_tiling() by {
            if m < last {
                assert(init[m] == list[m]);
            }
        }
        lemma_last_tiling(t, list, k);
        k
    }
}

/// The tiling container closest to the start of a list.
proof fn lemma_find_first_tiling(t: Forest, list: Seq<ContainerId>) -> (k: int)
    requires
        forest::tiling_of(t, list).len() > 0,
    ensures
        0 <= k < list.len(),
        t[list[k] as int].props.kind.spec_is_tiling(),
        forall|m: int|
            0 <= m < k ==> !(#[trigger] t[list[m] as int]).props.kind.spec_is_tiling(),
        first_of(forest::tiling_of(t, list)) == Some(list[k]),
    decreases list.len(),
{
    reveal(Seq::filter);
    let init = list.drop_last();
    let last = list.len() - 1;
    if forest::tiling_of(t, init).len() > 0 {
        let k = lemma_find_first_tiling(t, init);
        assert forall|m: int| 0 <= m < k implies !(#[trigger] t[list[m] as int]).props.kind.spec_is_tiling() by {
            assert(init[m] == list[m]);
        }
        lemma_first_tiling(t, list, k);
        k
    } else {
        forest::lemma_tiling_of(t, init);
        assert forall|m: int| 0 <= m < last implies !(#[trigger] t[list[m] as int]).props.kind.spec_is_tiling() by {
            assert(init[m] == list[m]);
            assert(init.contains(init[m]));
            if t[list[m] as int].props.kind.spec_is_tiling() {
                assert(forest::tiling_of(t, init).contains(init[m]));
            }
        }
        lemma_first_tiling(t, list, last);
        last
    }
}

/// Tiling siblings that are next to each other are so both ways.
pub proof fn law_siblings_find_each_other(
    t: Forest,
    p: ContainerId,
    x: ContainerId,
    w: ContainerId,
    direction: Direction,
)
    requires
        forest::well_formed(t),
        p < t.len(),
        t[p as int].children.contains(x),
        t[x as int].props.kind.spec_is_tiling(),
        sibling_in_direction(t, p, x, direction) == Some(w),
    ensures
        sibling_in_direction(t, p, w, direction.spec_inverse()) == Some(x),
{
    let children = t[p as int].children;
    let i = children.index_of(x);
    assert(0 <= i < children.len() && children[i] == x);
    assert(children.no_duplicates());
    if is_forward(direction) {
        let rest = children.skip(i + 1);
        let k = lemma_find_first_tiling(t, rest);
        let j = i + 1 + k;
        assert(children[j] == w);
        assert(children.contains(w));
        assert(children.index_of(w) == j);
        let before = children.take(j);
        assert(before[i] == x);
        assert forall|m: int| i < m < before.len() implies !(#[trigger] t[before[m] as int]).props.kind.spec_is_tiling() by {
            assert(before[m] == rest[m - i - 1]);
            assert(!t[rest[m - i - 1] as int].props.kind.spec_is_tiling());
        }
        lemma_last_tiling(t, before, i);
    } else {
        let before = children.take(i);
        let j = lemma_find_last_tiling(t, before);
        assert(children[j] == w);
        assert(children.contains(w));
        assert(children.index_of(w) == j);
        let rest = children.skip(j + 1);
        let k = i - j - 1;
        assert(rest[k] == x);
        assert forall|m: int| 0 <= m < k implies !(#[trigger] t[rest[m] as int]).props.kind.spec_is_tiling() by {
            assert(rest[m] == before[j + 1 + m]);
            assert(!t[before[j + 1 + m] as int].props.kind.spec_is_tiling());
        }
        lemma_first_tiling(t, rest, k);
    }
}

/// Of two tiling windows that are next to each other along the axis of their
/// parent, each one finds the other.
pub proof fn law_neighboring_windows_find_each_other(
    t: Forest,
    p: ContainerId,
    x: ContainerId,
    w: ContainerId,
    direction: Direction,
)
    requires
        forest::well_formed(t),
        p < t.len(),
        t[p as int].props.kind.spec_is_direction(),
        t[p as int].props.tiling_direction == TilingDirection::spec_from_direction(direction),
        t[p as int].children.contains(x),
        t[x as int].props.kind == ContainerKind::TilingWindow,
        t[w as int].props.kind == ContainerKind::TilingWindow,
        sibling_in_direction(t, p, x, direction) == Some(w),
    ensures
        search_result(t, x, direction) == Ok::<Option<ContainerId>, CommandError>(Some(w)),
        search_result(t, w, direction.spec_inverse()) == Ok::<Option<ContainerId>, CommandError>(
            Some(x),
        ),
{
    law_siblings_find_each_other(t, p, x, w, direction);
    lemma_sibling(t, p, x, direction);
    assert(t[x as int].parent == Some(p));
    lemma_found_at_once(t, x, direction, w);
    lemma_found_at_once(t, w, direction.spec_inverse(), x);
}

/// A search that ends where it starts has that result.
proof fn lemma_found_at_once(t: Forest, x: ContainerId, direction: Direction, w: ContainerId)
    requires
        search_at(t, x, direction) == Some(Ok::<Option<ContainerId>, CommandError>(Some(w))),
    ensures
        search_result(t, x, direction) == Ok::<Option<ContainerId>, CommandError>(Some(w)),
{
    assert(forest::above(t, x, 0) == Some(x));
    assert(search_reaches(t, x, direction, 0));
    let r = Ok::<Option<ContainerId>, CommandError>(Some(w));
    assert(search_ends(t, x, direction, r));
    law_search_has_one_result(t, x, direction, r, search_result(t, x, direction));
}

/// A search never leaves the workspace of its origin.
pub proof fn law_search_stays_on_the_workspace(
    t: Forest,
    x: ContainerId,
    direction: Direction,
    w: ContainerId,
    workspace: ContainerId,
)
    requires
        forest::well_formed(t),
        x < t.len(),
        search_ends(t, x, direction, Ok(Some(w))),
        t[workspace as int].props.kind == ContainerKind::Workspace,
        forest::within(t, x, workspace),
    ensures
        forest::within(t, w, workspace),
{
    let n = choose|n: nat|
        #![trigger search_reaches(t, x, direction, n)]
        search_reaches(t, x, direction, n) && search_at(t, forest::above(t, x, n)->0, direction)
            == Some(Ok::<Option<ContainerId>, CommandError>(Some(w)));
    let a = forest::above(t, x, n)->0;
    let (p, s) = lemma_found(t, x, direction, w, n);
    let k = choose|k: nat| #[trigger] forest::above(t, x, k) == Some(workspace);
    // Up to `n` links above the origin, nothing is a workspace.
    assert(k > n);
    forest::lemma_above_add(t, x, n, 1);
    assert(forest::above(t, a, 0) == Some(a));
    assert(forest::above(t, a, 1) == Some(p));
    forest::lemma_above_add(t, x, n + 1, (k - n - 1) as nat);
    assert(forest::above(t, p, (k - n - 1) as nat) == Some(workspace));
    forest::lemma_within_up(t, s, p);
    forest::lemma_within_trans(t, w, s, p);
    forest::lemma_within_trans(t, w, p, workspace);
}

/// Gets the outermost tiling child of a container in the given direction.
fn find_child_in_direction(tree: &Tree, id: ContainerId, direction: Direction) -> (r: Option<
    ContainerId,
>)
    requires
        tree.wf(),
        id < tree@.len(),
    ensures
        r == child_in_direction(tree@, id, direction),
        r matches Some(c) ==> c < tree@.len() && tree@[c as int].parent == Some(id),
{
    let children = tree.tiling_children(id);
    proof {
        forest::lemma_tiling_of(tree@, tree@[id as int].children);
        assert(children.len() > 0 ==> children@.contains(children@.first()) && children@.contains(
            children@.last(),
        ));
        assert forall|c: ContainerId| #[trigger] children@.contains(c) implies c < tree@.len()
            && tree@[c as int].parent == Some(id) by {
            assert(tree@[id as int].children.contains(c));
        }
    }
    if children.len() == 0 {
        return None;
    }
    let is_forward = direction == Direction::Right || direction == Direction::Down;
    if is_forward && tree.container(id).props.tiling_direction == TilingDirection::from_direction(
        &direction,
    ) {
        Some(children[children.len() - 1])
    } else {
        Some(children[0])
    }
}

/// Gets the outermost tiling window of a container in the given direction.
pub fn find_descendant_in_direction(tree: &Tree, id: ContainerId, direction: Direction) -> (r:
    Option<ContainerId>)
    requires
        tree.wf(),
        id < tree@.len(),
    ensures
        r == descendant_in_direction(tree@, id, direction),
{
    let ghost t = tree@;
    let ghost rank = choose|rank: Seq<nat>| forest::ranked(t, rank);
    proof {
        forest::lemma_ceiling(rank);
    }
    let mut current: ContainerId = id;
    let ghost mut n: nat = 0;
    loop
        invariant
            t == tree@,
            tree.wf(),
            forest::ranked(t, rank),
            forall|i: int| 0 <= i < rank.len() ==> #[trigger] rank[i] < forest::ceiling(rank),
            id < t.len(),
            current < t.len(),
            descent(t, id, direction, n) == Some(current),
            forall|m: nat|
                #![trigger descent(t, id, direction, m)]
                m < n ==> (descent(t, id, direction, m) matches Some(x)
                    && t[x as int].props.kind == ContainerKind::Split),
        decreases forest::ceiling(rank) - rank[current as int],
    {
        match tree.container(current).props.kind {
            ContainerKind::Split => {},
            ContainerKind::TilingWindow => {
                proof {
                    assert(descends_to_window(t, id, direction, n));
                    let m = choose|m: nat| descends_to_window(t, id, direction, m);
                    assert(descent(t, id, direction, n + 1) is None);
                    if m > n {
                        lemma_descent_ends(t, id, direction, n + 1, (m - n - 1) as nat);
                    }
                    assert(descent(t, id, direction, m) is Some);
                }
                return Some(current);
            },
            _ => {
                proof {
                    assert(descent(t, id, direction, n + 1) is None);
                    lemma_no_window(t, id, direction, n);
                }
                return None;
            },
        }
        match find_child_in_direction(tree, current, direction) {
            Some(child) => {
                assert(t[child as int].parent == Some(current));
                current = child;
                proof {
                    n = n + 1;
                    assert(descent(t, id, direction, n) == Some(child));
                }
            },
            None => {
                proof {
                    assert(descent(t, id, direction, n + 1) is None);
                    lemma_no_window(t, id, direction, n);
                }
                return None;
            },
        }
    }
}

/// There is no window to descend to if the descent ends before it reaches
/// one.
proof fn lemma_no_window(t: Forest, p: ContainerId, direction: Direction, n: nat)
    requires
        descent(t, p, direction, n) matches Some(x) && t[x as int].props.kind
            != ContainerKind::TilingWindow,
        descent(t, p, direction, n + 1) is None,
        forall|m: nat|
            #![trigger descent(t, p, direction, m)]
            m < n ==> (descent(t, p, direction, m) matches Some(x) && t[x as int].props.kind
                == ContainerKind::Split),
    ensures
        descendant_in_direction(t, p, direction) is None,
{
    assert forall|m: nat| !descends_to_window(t, p, direction, m) by {
        if m > n {
            lemma_descent_ends(t, p, direction, n + 1, (m - n - 1) as nat);
        }
        assert(m < n ==> descent(t, p, direction, m) is Some);
    }
}

/// Gets the tiling container next to `id` amongst the children of its parent.
fn find_sibling_in_direction(
    tree: &Tree,
    parent: ContainerId,
    id: ContainerId,
    direction: Direction,
) -> (r: Option<ContainerId>)
    requires
        tree.wf(),
        parent < tree@.len(),
        id < tree@.len(),
        tree@[id as int].parent == Some(parent),
    ensures
        r == sibling_in_direction(tree@, parent, id, direction),
        r matches Some(s) ==> s < tree@.len(),
{
    let ghost children = tree@[parent as int].children;
    proof {
        assert(children.contains(id));
        assert(children.no_duplicates());
    }
    let len = tree.container(parent).children.len();
    let index = match position(&tree.container(parent).children, id) {
        Some(index) => index,
        None => {
            return None;
        },
    };
    proof {
        assert(children.index_of(id) == index);
        assert(children.subrange(0, index as int) =~= children.take(index as int));
        assert(children.subrange(index + 1, len as int) =~= children.skip(index + 1));
    }
    match direction {
        Direction::Up | Direction::Left => {
            let before = tree.tiling_between(parent, 0, index);
            proof {
                forest::lemma_tiling_of(tree@, children.take(index as int));
                assert(before.len() > 0 ==> before@.contains(before@.last()));
            }
            if before.len() == 0 {
                None
            } else {
                let s = before[before.len() - 1];
                proof {
                    assert(children.take(index as int).contains(s));
                    let k = choose|k: int| 0 <= k < index && children.take(index as int)[k] == s;
                    assert(children.contains(children[k]));
                }
                Some(s)
            }
        },
        _ => {
            let after = tree.tiling_between(parent, index + 1, len);
            proof {
                forest::lemma_tiling_of(tree@, children.skip(index + 1));
                assert(after.len() > 0 ==> after@.contains(after@.first()));
            }
            if after.len() == 0 {
                None
            } else {
                let s = after[0];
                proof {
                    let rest = children.skip(index + 1);
                    assert(rest.contains(s));
                    let k = choose|k: int| 0 <= k < rest.len() && rest[k] == s;
                    assert(children.contains(children[index + 1 + k]));
                }
                Some(s)
            }
        },
    }
}

/// Gets the nearest tiling window in the given direction.
///
/// The search goes upwards from the origin until a container whose parent
/// is laid out along the direction has a tiling sibling there, and then
/// descends into that sibling to the window closest to the origin. It stops
/// at the workspace, so that it never crosses into another one.
///
/// Gives `None` if there is no tiling window in that direction.
pub fn tiling_window_in_direction(
    tree: &Tree,
    origin_container: ContainerId,
    direction: &Direction,
) -> (r: Result<Option<ContainerId>, CommandError>)
    requires
        tree.wf(),
        origin_container < tree@.len(),
    ensures
        search_ends(tree@, origin_container, *direction, r),
        r == search_result(tree@, origin_container, *direction),
{
    let r = search_upwards(tree, origin_container, direction);
    proof {
        law_search_has_one_result(
            tree@,
            origin_container,
            *direction,
            r,
            search_result(tree@, origin_container, *direction),
        );
    }
    r
}

/// Searches upwards from a container, and into what is next to it.
fn search_upwards(
    tree: &Tree,
    origin_container: ContainerId,
    direction: &Direction,
) -> (r: Result<Option<ContainerId>, CommandError>)
    requires
        tree.wf(),
        origin_container < tree@.len(),
    ensures
        search_ends(tree@, origin_container, *direction, r),
{
    let ghost t = tree@;
    let ghost rank = choose|rank: Seq<nat>| forest::ranked(t, rank);
    let tiling_direction = TilingDirection::from_direction(direction);
    let mut current: ContainerId = origin_container;
    let ghost mut n: nat = 0;
    loop
        invariant
            t == tree@,
            tree.wf(),
            forest::ranked(t, rank),
            tiling_direction == TilingDirection::spec_from_direction(*direction),
            origin_container < t.len(),
            current < t.len(),
            forest::above(t, origin_container, n) == Some(current),
            search_reaches(t, origin_container, *direction, n),
        decreases rank[current as int],
    {
        if tree.container(current).props.kind == ContainerKind::Workspace {
            return Ok(None);
        }
        let parent = match tree.container(current).parent {
            Some(parent) => parent,
            None => {
                return Err(CommandError::NoDirectionContainer);
            },
        };
        assert(t[current as int].parent == Some(parent));
        if !tree.container(parent).props.kind.is_direction() {
            return Err(CommandError::NoDirectionContainer);
        }
        if tree.container(parent).props.tiling_direction == tiling_direction {
            match find_sibling_in_direction(tree, parent, current, *direction) {
                Some(sibling) => {
                    if tree.container(sibling).props.kind == ContainerKind::Split {
                        return Ok(
                            find_descendant_in_direction(tree, sibling, direction.inverse()),
                        );
                    }
                    return Ok(Some(sibling));
                },
                None => {},
            }
        }
        proof {
            assert(search_at(t, current, *direction) is None);
            n = n + 1;
            assert(forest::above(t, origin_container, n) == Some(parent));
        }
        current = parent;
    }
}

} // verus!
