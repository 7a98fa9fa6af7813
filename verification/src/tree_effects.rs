//! What the basic operations do to the tree, link by link.

use vstd::prelude::*;

use crate::container::{ContainerId, ContainerKind, ContainerProps};
use crate::focus::{self, Role};
use crate::forest::{self, Forest};
use crate::split_container;

verus! {

/// What is above a container is the container itself, and then what is above
/// its parent.
pub proof fn law_ancestors(t: Forest, x: ContainerId, a: ContainerId, p: ContainerId)
    requires
        x < t.len(),
        t[x as int].parent == Some(p),
    ensures
        forest::within(t, x, x),
        forest::within(t, x, p),
        forest::within(t, x, a) <==> x == a || forest::within(t, p, a),
{
    forest::lemma_within_self(t, x);
    forest::lemma_within_up(t, x, p);
    if forest::within(t, x, a) && x != a {
        forest::lemma_within_down(t, x, a);
    }
    if forest::within(t, p, a) {
        forest::lemma_within_trans(t, x, p, a);
    }
}

/// Nothing is above a container without a parent.
pub proof fn law_top_has_no_ancestors(t: Forest, x: ContainerId, a: ContainerId)
    requires
        x < t.len(),
        t[x as int].parent is None,
    ensures
        forest::within(t, x, a) <==> x == a,
{
    forest::lemma_within_self(t, x);
    if forest::within(t, x, a) && x != a {
        forest::lemma_within_down(t, x, a);
    }
}

/// A container is focused if its parent is, and has focused it last.
pub proof fn law_focus_goes_from_the_top(t: Forest, x: ContainerId)
    requires
        forest::well_formed(t),
        x < t.len(),
    ensures
        match t[x as int].parent {
            Some(p) => forest::focused(t, x) <==> forest::focused(t, p)
                && t[p as int].focus.len() > 0 && t[p as int].focus[0] == x,
            None => forest::focused(t, x),
        },
{
    forest::lemma_within_self(t, x);
    match t[x as int].parent {
        Some(p) => {
            assert(p < t.len());
            if forest::focused(t, x) {
                assert forall|c: ContainerId|
                    #![trigger forest::within(t, p, c)]
                    c < t.len() && forest::within(t, p, c) implies match t[c as int].parent {
                    Some(q) => t[q as int].focus.len() > 0 && t[q as int].focus[0] == c,
                    None => true,
                } by {
                    law_ancestors(t, x, c, p);
                    assert(forest::within(t, x, c));
                }
                assert(forest::within(t, x, x));
            }
            if forest::focused(t, p) && t[p as int].focus.len() > 0 && t[p as int].focus[0] == x {
                assert forall|c: ContainerId|
                    #![trigger forest::within(t, x, c)]
                    c < t.len() && forest::within(t, x, c) implies match t[c as int].parent {
                    Some(q) => t[q as int].focus.len() > 0 && t[q as int].focus[0] == c,
                    None => true,
                } by {
                    law_ancestors(t, x, c, p);
                    if c != x {
                        assert(forest::within(t, p, c));
                    }
                }
            }
        },
        None => {
            assert forall|c: ContainerId|
                #![trigger forest::within(t, x, c)]
                c < t.len() && forest::within(t, x, c) implies match t[c as int].parent {
                Some(q) => t[q as int].focus.len() > 0 && t[q as int].focus[0] == c,
                None => true,
            } by {
                law_top_has_no_ancestors(t, x, c);
            }
        },
    }
}

/// The nearest container with a role is the container itself if it has the
/// role, and otherwise the nearest one from its parent on.
pub proof fn law_nearest_container(t: Forest, x: ContainerId, role: Role)
    requires
        x < t.len(),
    ensures
        ({
            let kind = t[x as int].props.kind;
            let has_role = match role {
                Role::Workspace => kind == ContainerKind::Workspace,
                Role::Monitor => kind == ContainerKind::Monitor,
                Role::DirectionContainer => kind == ContainerKind::Workspace || kind
                    == ContainerKind::Split,
            };
            focus::nearest(t, x, role) == if has_role {
                Some(x)
            } else {
                match t[x as int].parent {
                    Some(p) => focus::nearest(t, p, role),
                    None => None,
                }
            }
        }),
{
    assert(forest::above(t, x, 0) == Some(x));
    assert(forest::above(t, x, 1) == t[x as int].parent);
    if role.spec_is_of(t[x as int].props.kind) {
        assert(focus::nearest_at(t, x, role, 0));
        focus::lemma_nearest(t, x, role, 0);
    } else {
        match t[x as int].parent {
            Some(p) => {
                if exists|n: nat| focus::nearest_at(t, p, role, n) {
                    let n = choose|n: nat| focus::nearest_at(t, p, role, n);
                    lemma_nearest_from_parent(t, x, p, role, n);
                    focus::lemma_nearest(t, p, role, n);
                    focus::lemma_nearest(t, x, role, n + 1);
                    forest::lemma_above_add(t, x, 1, n);
                } else {
                    assert forall|n: nat| !focus::nearest_at(t, x, role, n) by {
                        if focus::nearest_at(t, x, role, n) {
                            assert(n > 0);
                            lemma_nearest_to_parent(t, x, p, role, n);
                        }
                    }
                }
            },
            None => {
                assert forall|n: nat| !focus::nearest_at(t, x, role, n) by {
                    if n > 0 {
                        forest::lemma_above_none(t, x, 1, (n - 1) as nat);
                    }
                }
            },
        }
    }
}

proof fn lemma_nearest_from_parent(
    t: Forest,
    x: ContainerId,
    p: ContainerId,
    role: Role,
    n: nat,
)
    requires
        x < t.len(),
        t[x as int].parent == Some(p),
        !role.spec_is_of(t[x as int].props.kind),
        focus::nearest_at(t, p, role, n),
    ensures
        focus::nearest_at(t, x, role, n + 1),
{
    assert(forest::above(t, x, 0) == Some(x));
    assert(forest::above(t, x, 1) == Some(p));
    forest::lemma_above_add(t, x, 1, n);
    assert forall|m: nat| #![trigger forest::above(t, x, m)] m < n + 1 implies (forest::above(
        t,
        x,
        m,
    ) matches Some(y) && !role.spec_is_of(t[y as int].props.kind)) by {
        if m > 0 {
            forest::lemma_above_add(t, x, 1, (m - 1) as nat);
            assert(forest::above(t, p, (m - 1) as nat) is Some);
        }
    }
}

proof fn lemma_nearest_to_parent(t: Forest, x: ContainerId, p: ContainerId, role: Role, n: nat)
    requires
        x < t.len(),
        t[x as int].parent == Some(p),
        n > 0,
        focus::nearest_at(t, x, role, n),
    ensures
        focus::nearest_at(t, p, role, (n - 1) as nat),
{
    assert(forest::above(t, x, 0) == Some(x));
    assert(forest::above(t, x, 1) == Some(p));
    forest::lemma_above_add(t, x, 1, (n - 1) as nat);
    assert forall|m: nat| #![trigger forest::above(t, p, m)] m < n - 1 implies (forest::above(
        t,
        p,
        m,
    ) matches Some(y) && !role.spec_is_of(t[y as int].props.kind)) by {
        forest::lemma_above_add(t, x, 1, m);
        assert(forest::above(t, x, m + 1) is Some);
    }
}

/// The focused container below a container is what that has focused last, or
/// the focused container below it if it is no leaf.
pub proof fn law_focused_container_is_at_the_end(t: Forest, root: ContainerId)
    requires
        forest::well_formed(t),
        root < t.len(),
        forest::focused(t, root),
    ensures
        t[root as int].children.len() == 0 <==> focus::focused_container(t, root) is None,
        t[root as int].children.len() > 0 ==> ({
            let c = t[root as int].focus[0];
            &&& t[root as int].children.contains(c)
            &&& forest::focused(t, c)
            &&& focus::focused_container(t, root) == if t[c as int].children.len() == 0 {
                Some(c)
            } else {
                focus::focused_container(t, c)
            }
        }),
{
    if t[root as int].children.len() > 0 {
        let rank = choose|rank: Seq<nat>| forest::ranked(t, rank);
        let c = lemma_focused_child(t, root);
        forest::lemma_ceiling(rank);
        lemma_some_focused(t, rank, root);
        let x = focus::focused_container(t, root)->0;
        if t[c as int].children.len() == 0 {
            forest::lemma_within_up(t, c, root);
            forest::lemma_parent_not_within(t, c, root);
            assert(focus::is_focused_container(t, root, c));
            focus::law_focused_container_is_unique(t, root, c, x);
        } else {
            lemma_some_focused(t, rank, c);
            let y = focus::focused_container(t, c)->0;
            lemma_focused_further_up(t, root, c, y);
            focus::law_focused_container_is_unique(t, root, y, x);
        }
    }
}

proof fn lemma_focused_child(t: Forest, root: ContainerId) -> (c: ContainerId)
    requires
        forest::well_formed(t),
        root < t.len(),
        forest::focused(t, root),
        t[root as int].children.len() > 0,
    ensures
        t[root as int].focus.len() > 0,
        c == t[root as int].focus[0],
        t[root as int].children.contains(c),
        c < t.len(),
        t[c as int].parent == Some(root),
        forest::focused(t, c),
{
    let d = t[root as int].children[0];
    assert(t[root as int].children.contains(d));
    assert(t[root as int].focus.contains(d));
    let c = t[root as int].focus[0];
    assert(t[root as int].focus.contains(c));
    assert(t[root as int].children.contains(c));
    law_focus_goes_from_the_top(t, c);
    c
}

proof fn lemma_focused_further_up(t: Forest, root: ContainerId, c: ContainerId, y: ContainerId)
    requires
        forest::well_formed(t),
        c < t.len(),
        root < t.len(),
        t[c as int].parent == Some(root),
        focus::is_focused_container(t, c, y),
    ensures
        focus::is_focused_container(t, root, y),
{
    forest::lemma_within_up(t, c, root);
    forest::lemma_within_trans(t, y, c, root);
    if y == root {
        forest::lemma_parent_not_within(t, c, root);
    }
}

proof fn lemma_some_focused(t: Forest, rank: Seq<nat>, root: ContainerId)
    requires
        forest::well_formed(t),
        forest::ranked(t, rank),
        forall|i: int| 0 <= i < rank.len() ==> #[trigger] rank[i] < forest::ceiling(rank),
        root < t.len(),
        forest::focused(t, root),
        t[root as int].children.len() > 0,
    ensures
        focus::is_focused_container(t, root, focus::focused_container(t, root)->0),
    decreases forest::ceiling(rank) - rank[root as int],
{
    let c = lemma_focused_child(t, root);
    assert(rank[c as int] < forest::ceiling(rank));
    assert(rank[root as int] < rank[c as int]) by {
        assert(t[c as int].parent == Some(root));
    }
    if t[c as int].children.len() == 0 {
        forest::lemma_within_up(t, c, root);
        forest::lemma_parent_not_within(t, c, root);
        assert(focus::is_focused_container(t, root, c));
    } else {
        lemma_some_focused(t, rank, c);
        lemma_focused_further_up(t, root, c, focus::focused_container(t, c)->0);
    }
}

/// What is earlier in the order of focus, or is below that, was focused more
/// recently than what is later there, or is below that.
pub proof fn law_focus_order_is_recency(
    t: Forest,
    x: ContainerId,
    y: ContainerId,
    p: ContainerId,
    i: int,
    j: int,
)
    requires
        forest::well_formed(t),
        p < t.len(),
        0 <= i < j < t[p as int].focus.len(),
        forest::within(t, x, t[p as int].focus[i]),
        forest::within(t, y, t[p as int].focus[j]),
    ensures
        focus::more_recent(t, x, y),
        x < t.len() && y < t.len() ==> !focus::more_recent(t, y, x),
{
    let order = t[p as int].focus;
    let c = order[i];
    let d = order[j];
    assert(t[p as int].focus.contains(c) && t[p as int].focus.contains(d));
    assert(t[p as int].children.contains(c) && t[p as int].children.contains(d));
    assert(order.no_duplicates());
    assert(order.index_of(c) == i && order.index_of(d) == j);
    assert(focus::parts_before(t, x, y, p, c, d));
    if x < t.len() && y < t.len() {
        focus::law_recency_is_asymmetric(t, x, y);
    }
}

proof fn lemma_without_at(list: Seq<ContainerId>, i: int)
    requires
        list.no_duplicates(),
        0 <= i < list.len(),
    ensures
        forest::without(list, list[i]) == list.take(i) + list.skip(i + 1),
    decreases list.len(),
{
    reveal(Seq::filter);
    let init = list.drop_last();
    let x = list[i];
    if i < list.len() - 1 {
        lemma_without_at(init, i);
        assert(init[i] == x);
        assert(list.last() != x);
        assert(list.take(i) + list.skip(i + 1) =~= (init.take(i) + init.skip(i + 1)).push(
            list.last(),
        ));
    } else {
        lemma_without_none(init, x);
        assert(list.take(i) + list.skip(i + 1) =~= init);
    }
}

proof fn lemma_without_none(list: Seq<ContainerId>, x: ContainerId)
    requires
        !list.contains(x),
    ensures
        forest::without(list, x) == list,
    decreases list.len(),
{
    reveal(Seq::filter);
    if list.len() > 0 {
        let init = list.drop_last();
        assert(!init.contains(x)) by {
            if init.contains(x) {
                let k = choose|k: int| 0 <= k < init.len() && init[k] == x;
                assert(list[k] == x);
            }
        }
        lemma_without_none(init, x);
        assert(list[list.len() - 1] != x) by {
            assert(list.contains(list[list.len() - 1]));
        }
        assert(init.push(list.last()) =~= list);
    } else {
        assert(forest::without(list, x) =~= list);
    }
}

/// Focusing a container moves the child that leads to it to the front of the
/// order of focus of everything above it. The others keep their order.
pub proof fn law_focusing_moves_to_the_front(t: Forest, x: ContainerId, p: ContainerId, i: int)
    requires
        forest::well_formed(t),
        x < t.len(),
        p < t.len(),
        0 <= i < t[p as int].focus.len(),
        forest::within(t, x, t[p as int].focus[i]),
    ensures
        forest::raised(t, x)[p as int].focus == seq![t[p as int].focus[i]] + t[p as int].focus.take(
            i,
        ) + t[p as int].focus.skip(i + 1),
{
    let order = t[p as int].focus;
    let c = order[i];
    assert(t[p as int].focus.contains(c));
    assert(t[p as int].children.contains(c));
    assert(order.no_duplicates());
    assert(forest::towards(t, x, p, c));
    let d = choose|d: ContainerId| forest::towards(t, x, p, d);
    forest::lemma_towards_unique(t, x, p, c, d);
    lemma_without_at(order, i);
    assert(seq![c] + (order.take(i) + order.skip(i + 1)) =~= seq![c] + order.take(i) + order.skip(
        i + 1,
    ));
}

/// Focusing a container changes nothing about what is not above it, and
/// nothing but orders of focus.
pub proof fn law_focusing_changes_nothing_else(t: Forest, x: ContainerId, p: ContainerId)
    requires
        forest::well_formed(t),
        x < t.len(),
        p < t.len(),
    ensures
        forest::raised(t, x).len() == t.len(),
        forest::raised(t, x)[p as int].parent == t[p as int].parent,
        forest::raised(t, x)[p as int].children == t[p as int].children,
        forest::raised(t, x)[p as int].props == t[p as int].props,
        x == p || !forest::within(t, x, p) ==> forest::raised(t, x)[p as int] == t[p as int],
{
    if x == p || !forest::within(t, x, p) {
        assert forall|c: ContainerId| !forest::towards(t, x, p, c) by {
            if forest::towards(t, x, p, c) {
                forest::lemma_within_up(t, c, p);
                forest::lemma_within_trans(t, x, c, p);
                forest::lemma_parent_not_within(t, c, p);
            }
        }
        assert(forest::raised(t, x)[p as int].focus == t[p as int].focus);
    }
}

/// An attached container stands at its place amongst the children of its
/// parent, which keep their order, and comes last in the order of focus.
pub proof fn law_attaching(t: Forest, child: ContainerId, p: ContainerId, index: int)
    requires
        child < t.len(),
        p < t.len(),
        child != p,
        0 <= index <= t[p as int].children.len(),
    ensures
        ({
            let r = forest::attached(t, child, p, index);
            let children = t[p as int].children;
            &&& r.len() == t.len()
            &&& r[p as int].children == children.take(index) + seq![child] + children.skip(index)
            &&& r[p as int].focus == t[p as int].focus + seq![child]
            &&& r[p as int].props == t[p as int].props
            &&& r[p as int].parent == t[p as int].parent
            &&& r[child as int].parent == Some(p)
            &&& r[child as int].children == t[child as int].children
            &&& r[child as int].focus == t[child as int].focus
            &&& r[child as int].props == t[child as int].props
            &&& forall|x: ContainerId|
                x < t.len() && x != p && x != child ==> #[trigger] r[x as int] == t[x as int]
        }),
{
    let r = forest::attached(t, child, p, index);
    let children = t[p as int].children;
    assert(r[p as int].children =~= children.take(index) + seq![child] + children.skip(index));
    assert(r[p as int].focus =~= t[p as int].focus + seq![child]);
}

/// A new container has the given properties, and is attached to nothing. A
/// resized container has another size, and nothing else changes.
pub proof fn law_adding_and_resizing(
    t: Forest,
    props: ContainerProps,
    x: ContainerId,
    size: u32,
)
    requires
        x < t.len(),
    ensures
        ({
            let r = forest::added(t, props);
            &&& r.len() == t.len() + 1
            &&& r[t.len() as int].props == props
            &&& r[t.len() as int].parent is None
            &&& r[t.len() as int].children.len() == 0
            &&& r[t.len() as int].focus.len() == 0
            &&& r[x as int] == t[x as int]
        }),
        ({
            let r = forest::resized(t, x, size);
            &&& r.len() == t.len()
            &&& r[x as int].props == (ContainerProps { tiling_size: size, ..t[x as int].props })
            &&& r[x as int].parent == t[x as int].parent
            &&& r[x as int].children == t[x as int].children
            &&& r[x as int].focus == t[x as int].focus
            &&& forall|y: ContainerId| y < t.len() && y != x ==> #[trigger] r[y as int]
                == t[y as int]
        }),
{
}

/// A list of which some values are replaced by one, seen from the first one of
/// them.
proof fn lemma_collapsed_from(
    list: Seq<ContainerId>,
    targets: Seq<ContainerId>,
    split: ContainerId,
    i: int,
)
    requires
        0 <= i < list.len(),
        targets.contains(list[i]),
        forall|k: int| 0 <= k < i ==> !targets.contains(#[trigger] list[k]),
    ensures
        split_container::collapsed(list, targets, split) == list.take(i) + seq![split] + list.skip(
            i + 1,
        ).filter(|x: ContainerId| !targets.contains(x)),
        split_container::any_target(list, targets),
    decreases list.len(),
{
    reveal(Seq::filter);
    let init = list.drop_last();
    let pred = |x: ContainerId| !targets.contains(x);
    assert(split_container::any_target(list, targets)) by {
        assert(targets.contains(list[i]));
    }
    if i < list.len() - 1 {
        assert(init[i] == list[i]);
        lemma_collapsed_from(init, targets, split, i);
        let rest = list.skip(i + 1);
        assert(rest.drop_last() =~= init.skip(i + 1));
        assert(rest.last() == list.last());
        assert(list.take(i) =~= init.take(i));
        assert(split_container::collapsed(list, targets, split) =~= list.take(i) + seq![split]
            + rest.filter(pred));
    } else {
        lemma_collapsed_none(init, targets, split);
        let rest = list.skip(i + 1);
        assert(rest =~= Seq::empty());
        assert(rest.filter(pred) =~= Seq::empty());
        assert(list.take(i) =~= init);
        assert(split_container::collapsed(list, targets, split) =~= list.take(i) + seq![split]
            + rest.filter(pred));
    }
}

proof fn lemma_collapsed_none(
    list: Seq<ContainerId>,
    targets: Seq<ContainerId>,
    split: ContainerId,
)
    requires
        forall|k: int| 0 <= k < list.len() ==> !targets.contains(#[trigger] list[k]),
    ensures
        split_container::collapsed(list, targets, split) == list,
        !split_container::any_target(list, targets),
    decreases list.len(),
{
    if list.len() > 0 {
        let init = list.drop_last();
        assert forall|k: int| 0 <= k < init.len() implies !targets.contains(#[trigger] init[k]) by {
            assert(init[k] == list[k]);
        }
        lemma_collapsed_none(init, targets, split);
        assert(!targets.contains(list[list.len() - 1]));
        assert(init.push(list.last()) =~= list);
    } else {
        assert(split_container::collapsed(list, targets, split) =~= list);
    }
}

/// Wrapping puts the split in the place of the first one of the containers
/// that are wrapped, amongst the children as well as in the order of focus.
/// They become the children of the split in the given order, keep their order
/// of focus, and the rest stays in its order. Nothing else changes.
pub proof fn law_wrapping(
    t: Forest,
    split: ContainerId,
    p: ContainerId,
    targets: Seq<ContainerId>,
    i: int,
    j: int,
)
    requires
        forest::well_formed(t),
        split_container::wrappable(t, split, p, targets),
        0 <= i < t[p as int].children.len(),
        targets.contains(t[p as int].children[i]),
        forall|k: int| 0 <= k < i ==> !targets.contains(#[trigger] t[p as int].children[k]),
        0 <= j < t[p as int].focus.len(),
        targets.contains(t[p as int].focus[j]),
        forall|k: int| 0 <= k < j ==> !targets.contains(#[trigger] t[p as int].focus[k]),
    ensures
        ({
            let r = split_container::wrapped(t, split, p, targets);
            let children = t[p as int].children;
            let order = t[p as int].focus;
            &&& r.len() == t.len()
            &&& r[split as int].children == targets
            &&& r[split as int].focus == order.filter(|x: ContainerId| targets.contains(x))
            &&& r[split as int].parent == Some(p)
            &&& r[split as int].props == t[split as int].props
            &&& r[p as int].children == children.take(i) + seq![split] + children.skip(
                i + 1,
            ).filter(|x: ContainerId| !targets.contains(x))
            &&& r[p as int].focus == order.take(j) + seq![split] + order.skip(j + 1).filter(
                |x: ContainerId| !targets.contains(x),
            )
            &&& r[p as int].parent == t[p as int].parent
            &&& r[p as int].props == t[p as int].props
            &&& forall|x: ContainerId|
                targets.contains(x) ==> (#[trigger] r[x as int]).parent == Some(split)
                    && r[x as int].children == t[x as int].children && r[x as int].focus
                    == t[x as int].focus && r[x as int].props == t[x as int].props
            &&& forall|x: ContainerId|
                x < t.len() && x != p && x != split && !targets.contains(x)
                    ==> #[trigger] r[x as int] == t[x as int]
        }),
{
    lemma_collapsed_from(t[p as int].children, targets, split, i);
    lemma_collapsed_from(t[p as int].focus, targets, split, j);
    assert forall|x: ContainerId| #[trigger] targets.contains(x) implies x < t.len() && x != p && x
        != split by {
        assert(t[p as int].children.contains(x));
        forest::lemma_parent_not_within(t, x, p);
    }
}

/// Flattening puts the children of the split in its place, in their order, and
/// what the split has focused last in its place of the order of focus. The
/// split is left with nothing, and nothing else changes.
pub proof fn law_flattening(t: Forest, split: ContainerId, p: ContainerId, i: int, j: int)
    requires
        forest::well_formed(t),
        split < t.len(),
        t[split as int].parent == Some(p),
        0 <= i < t[p as int].children.len(),
        t[p as int].children[i] == split,
        0 <= j < t[p as int].focus.len(),
        t[p as int].focus[j] == split,
    ensures
        ({
            let r = split_container::flattened(t, split);
            let children = t[p as int].children;
            let order = t[p as int].focus;
            let inner = t[split as int].children;
            &&& r.len() == t.len()
            &&& r[p as int].children == children.take(i) + inner + children.skip(i + 1)
            &&& r[p as int].focus == order.take(j) + t[split as int].focus + order.skip(j + 1)
            &&& r[p as int].parent == t[p as int].parent
            &&& r[p as int].props == t[p as int].props
            &&& r[split as int].parent is None
            &&& r[split as int].children.len() == 0
            &&& r[split as int].focus.len() == 0
            &&& r[split as int].props == t[split as int].props
            &&& forall|x: ContainerId|
                inner.contains(x) ==> (#[trigger] r[x as int]).parent == Some(p)
                    && r[x as int].children == t[x as int].children && r[x as int].focus
                    == t[x as int].focus && r[x as int].props == t[x as int].props
            &&& forall|x: ContainerId|
                x < t.len() && x != p && x != split && !inner.contains(x) ==> #[trigger] r[x as int]
                    == t[x as int]
        }),
{
    let r = split_container::flattened(t, split);
    let inner = t[split as int].children;
    assert(t[p as int].children.no_duplicates());
    assert(t[p as int].focus.no_duplicates());
    assert(t[p as int].children.index_of(split) == i);
    assert(t[p as int].focus.index_of(split) == j);
    forest::lemma_parent_not_within(t, split, p);
    assert forall|x: ContainerId| #[trigger] inner.contains(x) implies x < t.len() && x != p && x
        != split && t[x as int].parent == Some(split) by {
        assert(t[split as int].children.contains(x));
        forest::lemma_parent_not_within(t, x, split);
        if x == p {
            forest::lemma_within_up(t, split, p);
        }
    }
    assert forall|x: ContainerId|
        x < t.len() && x != p && x != split && !inner.contains(x) implies #[trigger] r[x as int]
        == t[x as int] by {
        if t[x as int].parent == Some(split) {
            assert(t[split as int].children.contains(x));
        }
    }
}

} // verus!
