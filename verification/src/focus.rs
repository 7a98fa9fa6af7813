//! What is focused, and what was focused last.

use vstd::prelude::*;

use crate::container::{ContainerId, ContainerKind};
use crate::forest::{self, Forest};
use crate::tree::Tree;

verus! {

/// Whether `x` is the focused container below `root`: the leaf that every
/// container above it has focused last.
pub open spec fn is_focused_container(t: Forest, root: ContainerId, x: ContainerId) -> bool {
    &&& x < t.len()
    &&& x != root
    &&& t[x as int].children.len() == 0
    &&& forest::within(t, x, root)
    &&& forest::focused(t, x)
}

/// The focused container below `root`. There is none if `root` is empty.
pub open spec fn focused_container(t: Forest, root: ContainerId) -> Option<ContainerId> {
    if t[root as int].children.len() == 0 {
        None
    } else {
        Some(choose|x: ContainerId| is_focused_container(t, root, x))
    }
}

/// A role that some of the containers above a window have.
#[derive(Clone, Copy, Debug, PartialEq, Eq, Structural)]
pub enum Role {
    Workspace,
    Monitor,
    /// A workspace or split, which lays out its children along an axis.
    DirectionContainer,
}

impl Role {
    pub open spec fn spec_is_of(self, kind: ContainerKind) -> bool {
        match self {
            Role::Workspace => kind == ContainerKind::Workspace,
            Role::Monitor => kind == ContainerKind::Monitor,
            Role::DirectionContainer => kind.spec_is_direction(),
        }
    }

    /// Whether containers of the given kind have the role.
    pub fn is_of(&self, kind: ContainerKind) -> (r: bool)
        ensures
            r == self.spec_is_of(kind),
    {
        match self {
            Role::Workspace => kind == ContainerKind::Workspace,
            Role::Monitor => kind == ContainerKind::Monitor,
            Role::DirectionContainer => kind.is_direction(),
        }
    }
}

/// Whether the first container with a role, from `x` upwards, is `n` links
/// above `x`.
pub open spec fn nearest_at(t: Forest, x: ContainerId, role: Role, n: nat) -> bool {
    &&& forest::above(t, x, n) matches Some(y) && role.spec_is_of(t[y as int].props.kind)
    &&& forall|m: nat|
        #![trigger forest::above(t, x, m)]
        m < n ==> (forest::above(t, x, m) matches Some(y) && !role.spec_is_of(
            t[y as int].props.kind,
        ))
}

/// The first container with a role, from `x` upwards.
pub open spec fn nearest(t: Forest, x: ContainerId, role: Role) -> Option<ContainerId> {
    if exists|n: nat| nearest_at(t, x, role, n) {
        forest::above(t, x, choose|n: nat| nearest_at(t, x, role, n))
    } else {
        None
    }
}

/// Whether `x` was focused after `y`: where the ways down to them part, the
/// way to `x` comes first in the focus order.
pub open spec fn more_recent(t: Forest, x: ContainerId, y: ContainerId) -> bool {
    exists|p: ContainerId, c: ContainerId, d: ContainerId|
        parts_before(t, x, y, p, c, d)
}

/// Whether the ways from `p` down to `x` and to `y` lead through different
/// children `c` and `d`, and `c` was focused after `d`.
pub open spec fn parts_before(
    t: Forest,
    x: ContainerId,
    y: ContainerId,
    p: ContainerId,
    c: ContainerId,
    d: ContainerId,
) -> bool {
    &&& p < t.len()
    &&& forest::towards(t, x, p, c)
    &&& forest::towards(t, y, p, d)
    &&& t[p as int].focus.index_of(c) < t[p as int].focus.index_of(d)
}

/// Whether `x` is a tiling window within `a`.
pub open spec fn is_tiling_window_of(t: Forest, a: ContainerId, x: ContainerId) -> bool {
    &&& x < t.len()
    &&& t[x as int].props.kind == ContainerKind::TilingWindow
    &&& forest::within(t, x, a)
}

/// Whether `x` is the tiling window within `a` that was focused last.
pub open spec fn is_latest_tiling_window(t: Forest, a: ContainerId, x: ContainerId) -> bool {
    &&& is_tiling_window_of(t, a, x)
    &&& forall|y: ContainerId| #[trigger]
        is_tiling_window_of(t, a, y) && y != x ==> more_recent(t, x, y)
}

/// Only a leaf itself is within it.
pub proof fn lemma_leaf(t: Forest, leaf: ContainerId, x: ContainerId)
    requires
        forest::well_formed(t),
        leaf < t.len(),
        x < t.len(),
        t[leaf as int].children.len() == 0,
        forest::within(t, x, leaf),
    ensures
        x == leaf,
{
    if x != leaf {
        let c = lemma_way_down(t, x, leaf);
        assert(t[leaf as int].children.contains(c));
    }
}

/// Whatever is strictly within a container is within one of its children.
pub proof fn lemma_way_down(t: Forest, x: ContainerId, a: ContainerId) -> (c: ContainerId)
    requires
        forest::well_formed(t),
        x < t.len(),
        forest::within(t, x, a),
        x != a,
    ensures
        forest::towards(t, x, a, c),
        a < t.len(),
        t[a as int].children.contains(c),
{
    let rank = choose|rank: Seq<nat>| forest::ranked(t, rank);
    let n = choose|n: nat| #[trigger] forest::above(t, x, n) == Some(a);
    assert(n > 0);
    let c = forest::above(t, x, (n - 1) as nat)->0;
    forest::lemma_above_rank(t, rank, x, (n - 1) as nat);
    forest::lemma_above_rank(t, rank, x, n);
    assert(t[c as int].parent == Some(a));
    assert(forest::above(t, x, (n - 1) as nat) == Some(c));
    c
}

/// Two focused leaves within a container are the same.
proof fn lemma_focused_leaves(t: Forest, x: ContainerId, y: ContainerId, a: ContainerId, n: nat)
    requires
        forest::well_formed(t),
        x < t.len(),
        y < t.len(),
        forest::above(t, x, n) == Some(a),
        forest::within(t, y, a),
        t[x as int].children.len() == 0,
        t[y as int].children.len() == 0,
        forest::focused(t, x),
        forest::focused(t, y),
    ensures
        x == y,
    decreases n,
{
    if n == 0 {
        lemma_leaf(t, x, y);
    } else {
        let rank = choose|rank: Seq<nat>| forest::ranked(t, rank);
        let c = forest::above(t, x, (n - 1) as nat)->0;
        forest::lemma_above_rank(t, rank, x, (n - 1) as nat);
        assert(forest::within(t, x, c));
        assert(t[c as int].parent == Some(a));
        assert(t[a as int].children.contains(c));
        let d = lemma_way_down(t, y, a);
        assert(forest::within(t, y, d));
        assert(c == d);
        lemma_focused_leaves(t, x, y, c, (n - 1) as nat);
    }
}

/// Of two focused containers of a tree, one is within the other: there is a
/// single way down to what is focused.
pub proof fn law_focus_is_a_single_path(
    t: Forest,
    root: ContainerId,
    x: ContainerId,
    y: ContainerId,
)
    requires
        forest::well_formed(t),
        x < t.len(),
        y < t.len(),
        forest::within(t, x, root),
        forest::within(t, y, root),
        forest::focused(t, x),
        forest::focused(t, y),
    ensures
        forest::within(t, x, y) || forest::within(t, y, x),
{
    let n = choose|n: nat| #[trigger] forest::above(t, x, n) == Some(root);
    lemma_focused_path(t, x, y, root, n);
}

proof fn lemma_focused_path(t: Forest, x: ContainerId, y: ContainerId, a: ContainerId, n: nat)
    requires
        forest::well_formed(t),
        x < t.len(),
        y < t.len(),
        forest::above(t, x, n) == Some(a),
        forest::within(t, y, a),
        forest::focused(t, x),
        forest::focused(t, y),
    ensures
        forest::within(t, x, y) || forest::within(t, y, x),
    decreases n,
{
    if y == a {
        assert(forest::above(t, x, n) == Some(y));
    } else if n > 0 {
        let rank = choose|rank: Seq<nat>| forest::ranked(t, rank);
        let c = forest::above(t, x, (n - 1) as nat)->0;
        forest::lemma_above_rank(t, rank, x, (n - 1) as nat);
        assert(forest::within(t, x, c));
        assert(t[c as int].parent == Some(a));
        assert(t[a as int].children.contains(c));
        let d = lemma_way_down(t, y, a);
        assert(forest::within(t, y, d));
        assert(c == d);
        lemma_focused_path(t, x, y, c, (n - 1) as nat);
    }
}

/// Focusing a leaf makes it the focused container.
pub proof fn law_focusing_a_leaf_makes_it_the_focused_container(
    t: Forest,
    root: ContainerId,
    x: ContainerId,
)
    requires
        forest::well_formed(t),
        root < t.len(),
        x < t.len(),
        x != root,
        t[x as int].children.len() == 0,
        forest::within(t, x, root),
    ensures
        focused_container(forest::raised(t, x), root) == Some(x),
{
    let r = forest::raised(t, x);
    forest::lemma_raised(t, x);
    forest::lemma_same_parents(t, r);
    assert(is_focused_container(r, root, x));
    let c = lemma_way_down(t, x, root);
    assert(r[root as int].children == t[root as int].children);
    let other = choose|y: ContainerId| is_focused_container(r, root, y);
    law_focused_container_is_unique(r, root, x, other);
}

/// At most one container is the focused one.
pub proof fn law_focused_container_is_unique(
    t: Forest,
    root: ContainerId,
    x: ContainerId,
    y: ContainerId,
)
    requires
        forest::well_formed(t),
        is_focused_container(t, root, x),
        is_focused_container(t, root, y),
    ensures
        x == y,
{
    let n = choose|n: nat| #[trigger] forest::above(t, x, n) == Some(root);
    lemma_focused_leaves(t, x, y, root, n);
}

/// Of two containers, only one can be the more recently focused one.
pub proof fn law_recency_is_asymmetric(t: Forest, x: ContainerId, y: ContainerId)
    requires
        forest::well_formed(t),
        x < t.len(),
        y < t.len(),
        more_recent(t, x, y),
    ensures
        !more_recent(t, y, x),
{
    if more_recent(t, y, x) {
        let (p, c, d) = choose|p: ContainerId, c: ContainerId, d: ContainerId|
            parts_before(t, x, y, p, c, d);
        let (q, e, f) = choose|p: ContainerId, c: ContainerId, d: ContainerId|
            parts_before(t, y, x, p, c, d);
        forest::lemma_within_up(t, c, p);
        forest::lemma_within_trans(t, x, c, p);
        forest::lemma_within_up(t, d, p);
        forest::lemma_within_trans(t, y, d, p);
        forest::lemma_within_up(t, e, q);
        forest::lemma_within_trans(t, y, e, q);
        forest::lemma_within_up(t, f, q);
        forest::lemma_within_trans(t, x, f, q);
        forest::lemma_within_chain(t, x, p, q);
        if p == q {
            forest::lemma_towards_unique(t, x, p, c, f);
            forest::lemma_towards_unique(t, y, p, d, e);
        } else if forest::within(t, p, q) {
            let way = lemma_way_down(t, p, q);
            forest::lemma_within_trans(t, x, p, way);
            forest::lemma_within_trans(t, y, p, way);
            forest::lemma_towards_unique(t, x, q, f, way);
            forest::lemma_towards_unique(t, y, q, e, way);
        } else {
            let way = lemma_way_down(t, q, p);
            forest::lemma_within_trans(t, x, q, way);
            forest::lemma_within_trans(t, y, q, way);
            forest::lemma_towards_unique(t, x, p, c, way);
            forest::lemma_towards_unique(t, y, p, d, way);
        }
    }
}

/// At most one window is the tiling window that was focused last.
pub proof fn law_latest_tiling_window_is_unique(
    t: Forest,
    a: ContainerId,
    x: ContainerId,
    y: ContainerId,
)
    requires
        forest::well_formed(t),
        is_latest_tiling_window(t, a, x),
        is_latest_tiling_window(t, a, y),
    ensures
        x == y,
{
    if x != y {
        assert(is_tiling_window_of(t, a, x) && is_tiling_window_of(t, a, y));
        law_recency_is_asymmetric(t, x, y);
    }
}

/// The first container with a role is where [`nearest_at`] says.
pub proof fn lemma_nearest(t: Forest, x: ContainerId, role: Role, n: nat)
    requires
        nearest_at(t, x, role, n),
    ensures
        nearest(t, x, role) == forest::above(t, x, n),
{
    let m = choose|m: nat| nearest_at(t, x, role, m);
    assert(nearest_at(t, x, role, m));
    assert(forest::above(t, x, m) is Some && forest::above(t, x, n) is Some);
    assert(m == n);
}

/// Which container is the first one with a role depends on links and kinds
/// alone.
pub proof fn lemma_same_nearest(t: Forest, r: Forest, x: ContainerId, role: Role)
    requires
        forest::well_formed(t),
        forest::same_links(t, r),
        x < t.len(),
    ensures
        nearest(r, x, role) == nearest(t, x, role),
{
    let rank = choose|rank: Seq<nat>| forest::ranked(t, rank);
    assert forall|i: ContainerId| i < t.len() implies #[trigger] t[i as int].parent
        == r[i as int].parent by {
        assert(r[i as int].props.kind == t[i as int].props.kind);
    }
    forest::lemma_same_parents(t, r);
    assert forall|n: nat| #[trigger] nearest_at(r, x, role, n) <==> nearest_at(t, x, role, n) by {
        assert forall|m: nat|
            #![trigger forest::above(t, x, m)]
            forest::above(r, x, m) == forest::above(t, x, m) && (forest::above(t, x, m) matches Some(
                y,
            ) ==> y < t.len() && r[y as int].props.kind == t[y as int].props.kind) by {
            forest::lemma_above_rank(t, rank, x, m);
        }
    }
    if exists|n: nat| nearest_at(t, x, role, n) {
        let n = choose|n: nat| nearest_at(t, x, role, n);
        assert(nearest_at(r, x, role, n));
        lemma_nearest(t, x, role, n);
        lemma_nearest(r, x, role, n);
    } else {
        assert forall|n: nat| !nearest_at(r, x, role, n) by {
            assert(!nearest_at(t, x, role, n));
        }
    }
}

/// Gets the focused container below `root`, if there is one.
pub fn find_focused_container(tree: &Tree, root: ContainerId) -> (r: Option<ContainerId>)
    requires
        tree.wf(),
        root < tree@.len(),
        tree@[root as int].parent is None,
    ensures
        r == focused_container(tree@, root),
        r matches Some(x) ==> is_focused_container(tree@, root, x),
{
    let ghost t = tree@;
    let ghost rank = choose|rank: Seq<nat>| forest::ranked(t, rank);
    if tree.container(root).children.len() == 0 {
        return None;
    }
    let mut current: ContainerId = root;
    proof {
        forest::lemma_ceiling(rank);
        forest::lemma_within_self(t, root);
        assert forall|c: ContainerId| c < t.len() && forest::within(t, root, c) implies c == root by {
            if c != root {
                forest::lemma_within_down(t, root, c);
            }
        }
        assert(forest::focused(t, root));
    }
    loop
        invariant
            t == tree@,
            tree.wf(),
            root < t.len(),
            forest::ranked(t, rank),
            forall|i: int| 0 <= i < rank.len() ==> #[trigger] rank[i] < forest::ceiling(rank),
            t[root as int].parent is None,
            t[root as int].children.len() > 0,
            current < t.len(),
            forest::within(t, current, root),
            forest::focused(t, current),
        decreases forest::ceiling(rank) - rank[current as int],
    {
        if tree.container(current).focus_order.len() == 0 {
            proof {
                if t[current as int].children.len() > 0 {
                    let c = t[current as int].children[0];
                    assert(t[current as int].children.contains(c));
                    assert(t[current as int].focus.contains(c));
                }
                assert(current != root);
                assert(is_focused_container(t, root, current));
                let other = choose|x: ContainerId| is_focused_container(t, root, x);
                law_focused_container_is_unique(t, root, current, other);
            }
            return Some(current);
        }
        let child = tree.container(current).focus_order[0];
        proof {
            assert(t[current as int].focus.contains(child));
            assert(t[current as int].children.contains(child));
            assert(t[child as int].parent == Some(current));
            forest::lemma_within_up(t, child, current);
            forest::lemma_within_trans(t, child, current, root);
            assert forall|c: ContainerId|
                #![trigger forest::within(t, child, c)]
                c < t.len() && forest::within(t, child, c) implies match t[c as int].parent {
                Some(p) => t[p as int].focus.len() > 0 && t[p as int].focus[0] == c,
                None => true,
            } by {
                if c != child {
                    forest::lemma_within_down(t, child, c);
                    assert(forest::within(t, current, c));
                }
            }
        }
        current = child;
    }
}

/// Gets the first container with a role, from `id` upwards.
pub fn find_nearest(tree: &Tree, id: ContainerId, role: Role) -> (r: Option<ContainerId>)
    requires
        tree.wf(),
        id < tree@.len(),
    ensures
        r == nearest(tree@, id, role),
        r matches Some(a) ==> a < tree@.len() && role.spec_is_of(tree@[a as int].props.kind)
            && forest::within(tree@, id, a),
{
    let ghost t = tree@;
    let ghost rank = choose|rank: Seq<nat>| forest::ranked(t, rank);
    let mut current: ContainerId = id;
    let ghost mut n: nat = 0;
    loop
        invariant
            t == tree@,
            tree.wf(),
            forest::ranked(t, rank),
            id < t.len(),
            current < t.len(),
            forest::above(t, id, n) == Some(current),
            forall|m: nat|
                #![trigger forest::above(t, id, m)]
                m < n ==> (forest::above(t, id, m) matches Some(y) && !role.spec_is_of(
                    t[y as int].props.kind,
                )),
        decreases rank[current as int],
    {
        if role.is_of(tree.container(current).props.kind) {
            proof {
                assert(nearest_at(t, id, role, n));
                lemma_nearest(t, id, role, n);
            }
            return Some(current);
        }
        match tree.container(current).parent {
            Some(parent) => {
                assert(t[current as int].parent == Some(parent));
                current = parent;
                proof {
                    n = n + 1;
                    assert(forest::above(t, id, n) == Some(parent));
                }
            },
            None => {
                proof {
                    assert(forest::above(t, id, n + 1) is None);
                    assert forall|m: nat| !nearest_at(t, id, role, m) by {
                        if m > n {
                            assert(forest::above(t, id, m) is None) by {
                                forest::lemma_above_none(t, id, n + 1, (m - n - 1) as nat);
                            }
                        } else {
                            assert(forest::above(t, id, m) is Some);
                        }
                    }
                }
                return None;
            },
        }
    }
}

/// How far a container is from the lowest ones.
pub closed spec fn remaining_depth(t: Forest, x: ContainerId) -> int {
    let rank = choose|rank: Seq<nat>| forest::ranked(t, rank);
    forest::ceiling(rank) - rank[x as int]
}

/// Gets the tiling window within `id` that was focused last.
pub fn find_latest_tiling_window(tree: &Tree, id: ContainerId) -> (r: Option<ContainerId>)
    requires
        tree.wf(),
        id < tree@.len(),
    ensures
        match r {
            Some(x) => is_latest_tiling_window(tree@, id, x),
            None => forall|x: ContainerId| !is_tiling_window_of(tree@, id, x),
        },
    decreases remaining_depth(tree@, id),
{
    let ghost t = tree@;
    if tree.container(id).props.kind == ContainerKind::TilingWindow {
        proof {
            forest::lemma_within_self(t, id);
            assert(t[id as int].props.kind.spec_is_window());
            assert forall|y: ContainerId| #[trigger] is_tiling_window_of(t, id, y) implies y == id by {
                lemma_leaf(t, id, y);
            }
        }
        return Some(id);
    }
    let focus_order = &tree.container(id).focus_order;
    let mut i: usize = 0;
    while i < focus_order.len()
        invariant
            t == tree@,
            tree.wf(),
            id < t.len(),
            t[id as int].props.kind != ContainerKind::TilingWindow,
            focus_order@ == t[id as int].focus,
            i <= focus_order.len(),
            forall|k: int, x: ContainerId|
                0 <= k < i ==> !#[trigger] is_tiling_window_of(t, focus_order@[k], x),
        decreases focus_order.len() - i,
    {
        let child = focus_order[i];
        proof {
            assert(t[id as int].focus.contains(child));
            assert(t[id as int].children.contains(child));
            assert(t[child as int].parent == Some(id));
            let rank = choose|rank: Seq<nat>| forest::ranked(t, rank);
            forest::lemma_ceiling(rank);
            assert(rank[id as int] < rank[child as int]);
            assert(rank[child as int] < forest::ceiling(rank));
        }
        match find_latest_tiling_window(tree, child) {
            Some(x) => {
                proof {
                    lemma_latest_of_child(t, id, child, i as int, x);
                }
                return Some(x);
            },
            None => {},
        }
        i += 1;
    }
    proof {
        assert forall|x: ContainerId| !is_tiling_window_of(t, id, x) by {
            if is_tiling_window_of(t, id, x) {
                let d = lemma_way_down(t, x, id);
                assert(t[id as int].focus.contains(d));
                let k = choose|k: int| 0 <= k < focus_order@.len() && focus_order@[k] == d;
                assert(is_tiling_window_of(t, focus_order@[k], x));
            }
        }
    }
    None
}

/// The latest tiling window of the first child that has one is the latest
/// one of the parent.
proof fn lemma_latest_of_child(
    t: Forest,
    a: ContainerId,
    child: ContainerId,
    i: int,
    x: ContainerId,
)
    requires
        forest::well_formed(t),
        a < t.len(),
        t[a as int].props.kind != ContainerKind::TilingWindow,
        0 <= i < t[a as int].focus.len(),
        t[a as int].focus[i] == child,
        is_latest_tiling_window(t, child, x),
        forall|k: int, y: ContainerId|
            0 <= k < i ==> !#[trigger] is_tiling_window_of(t, t[a as int].focus[k], y),
    ensures
        is_latest_tiling_window(t, a, x),
{
    let focus = t[a as int].focus;
    assert(t[a as int].focus.contains(child));
    assert(t[a as int].children.contains(child));
    assert(t[child as int].parent == Some(a));
    forest::lemma_within_up(t, child, a);
    forest::lemma_within_trans(t, x, child, a);
    assert forall|y: ContainerId| #[trigger] is_tiling_window_of(t, a, y) && y != x implies more_recent(
        t,
        x,
        y,
    ) by {
        let d = lemma_way_down(t, y, a);
        assert(t[a as int].focus.contains(d));
        let k = choose|k: int| 0 <= k < focus.len() && focus[k] == d;
        assert(is_tiling_window_of(t, focus[k], y));
        assert(k >= i);
        if k == i {
            assert(more_recent(t, x, y));
        } else {
            assert(focus.no_duplicates());
            assert(focus.index_of(child) == i);
            assert(focus.index_of(d) == k);
            assert(parts_before(t, x, y, a, child, d));
        }
    }
}

} // verus!
