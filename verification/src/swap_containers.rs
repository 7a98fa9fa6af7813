//! Swapping two containers of the layout tree.

use vstd::prelude::*;

use crate::container::{ContainerId, ContainerKind, ContainerProps, Node};
use crate::error::CommandError;
use crate::focus;
use crate::forest::{self, Forest};
use crate::lists::position;
use crate::tree::Tree;
use crate::tree_effects;

verus! {

/// The properties of the containers once `a` and `b` have traded places:
/// a tiling size belongs to the slot, anything else to the container.
pub open spec fn swapped_props(
    t: Forest,
    a: ContainerId,
    b: ContainerId,
    i: ContainerId,
) -> ContainerProps {
    if !t[a as int].props.kind.spec_is_tiling() || !t[b as int].props.kind.spec_is_tiling() {
        t[i as int].props
    } else if i == a {
        ContainerProps { tiling_size: t[b as int].props.tiling_size, ..t[a as int].props }
    } else if i == b {
        ContainerProps { tiling_size: t[a as int].props.tiling_size, ..t[b as int].props }
    } else {
        t[i as int].props
    }
}

/// The tree in which `a` and `b` have traded places, in the layout as well
/// as in the focus order.
pub open spec fn swapped(t: Forest, a: ContainerId, b: ContainerId) -> Forest {
    Seq::new(
        t.len(),
        |i: int|
            Node {
                props: swapped_props(t, a, b, i as usize),
                parent: if i == a {
                    t[b as int].parent
                } else if i == b {
                    t[a as int].parent
                } else {
                    t[i].parent
                },
                children: forest::exchange(t[i].children, a, b),
                focus: forest::exchange(t[i].focus, a, b),
            },
    )
}

/// What a swap of `a` and `b` leads to.
pub open spec fn swap_outcome(t: Forest, a: ContainerId, b: ContainerId) -> Result<
    Forest,
    CommandError,
> {
    if a == b {
        Err(CommandError::SwapWithSelf)
    } else if forest::within(t, a, b) || forest::within(t, b, a) {
        Err(CommandError::SwapWithAncestor)
    } else if t[a as int].parent is None || t[b as int].parent is None {
        Err(CommandError::NoParent)
    } else if forest::focused(t, a) {
        Ok(forest::raised(swapped(t, a, b), a))
    } else if forest::focused(t, b) {
        Ok(forest::raised(swapped(t, a, b), b))
    } else {
        Ok(swapped(t, a, b))
    }
}

proof fn lemma_exchange(s: Seq<ContainerId>, a: ContainerId, b: ContainerId)
    ensures
        !s.contains(a) && !s.contains(b) ==> forest::exchange(s, a, b) == s,
        forall|x: ContainerId| #[trigger]
            forest::exchange(s, a, b).contains(x) <==> s.contains(
                if x == a {
                    b
                } else if x == b {
                    a
                } else {
                    x
                },
            ),
        s.no_duplicates() ==> forest::exchange(s, a, b).no_duplicates(),
{
    let r = forest::exchange(s, a, b);
    if !s.contains(a) && !s.contains(b) {
        assert forall|i: int| 0 <= i < s.len() implies r[i] == s[i] by {
            assert(s.contains(s[i]));
        }
        assert(r =~= s);
    }
    assert forall|x: ContainerId| #[trigger] r.contains(x) <==> s.contains(
        if x == a {
            b
        } else if x == b {
            a
        } else {
            x
        },
    ) by {
        let y = if x == a {
            b
        } else if x == b {
            a
        } else {
            x
        };
        if r.contains(x) {
            let i = choose|i: int| 0 <= i < r.len() && r[i] == x;
            assert(s[i] == y);
        }
        if s.contains(y) {
            let i = choose|i: int| 0 <= i < s.len() && s[i] == y;
            assert(r[i] == x);
        }
    }
}

/// Trading places keeps the tree well-formed.
pub proof fn lemma_swapped_well_formed(t: Forest, a: ContainerId, b: ContainerId)
    requires
        forest::well_formed(t),
        a < t.len(),
        b < t.len(),
        !forest::within(t, a, b),
        !forest::within(t, b, a),
        t[a as int].parent is Some,
        t[b as int].parent is Some,
    ensures
        forest::well_formed(swapped(t, a, b)),
{
    let r = swapped(t, a, b);
    let pa = t[a as int].parent->0;
    let pb = t[b as int].parent->0;
    assert forall|p: ContainerId| #![trigger r[p as int]] p < t.len() implies r[p as int].children
        == forest::exchange(t[p as int].children, a, b) && r[p as int].focus == forest::exchange(t[p as int].focus, a, b) by {
    }
    assert(forest::linked(r)) by {
        assert forall|c: ContainerId|
            #![trigger r[c as int].parent]
            c < r.len() implies match r[c as int].parent {
            Some(p) => p < r.len() && r[p as int].children.contains(c),
            None => true,
        } by {
            let d = if c == a {
                b
            } else if c == b {
                a
            } else {
                c
            };
            assert(r[c as int].parent == t[d as int].parent);
            if let Some(p) = t[d as int].parent {
                assert(t[p as int].children.contains(d));
                lemma_exchange(t[p as int].children, a, b);
                assert(forest::exchange(t[p as int].children, a, b).contains(c));
            }
        }
        assert forall|p: ContainerId, c: ContainerId|
            #![trigger r[p as int].children.contains(c)]
            p < r.len() && r[p as int].children.contains(c) implies c < r.len() && r[c as int].parent
            == Some(p) by {
            let d = if c == a {
                b
            } else if c == b {
                a
            } else {
                c
            };
            lemma_exchange(t[p as int].children, a, b);
            assert(forest::exchange(t[p as int].children, a, b).contains(c));
            assert(t[p as int].children.contains(d));
        }
        assert forall|p: ContainerId, c: ContainerId|
            #![trigger r[p as int].focus.contains(c)]
            p < r.len() implies (r[p as int].focus.contains(c) <==> r[p as int].children.contains(c)) by {
            let d = if c == a {
                b
            } else if c == b {
                a
            } else {
                c
            };
            lemma_exchange(t[p as int].children, a, b);
            lemma_exchange(t[p as int].focus, a, b);
            assert(forest::exchange(t[p as int].children, a, b).contains(c) <==> t[p as int].children.contains(
                d,
            ));
            assert(forest::exchange(t[p as int].focus, a, b).contains(c) <==> t[p as int].focus.contains(d));
        }
        assert forall|p: ContainerId| #![trigger r[p as int].children] p < r.len() implies r[p as int].children.no_duplicates() by {
            assert(t[p as int].children.no_duplicates());
            lemma_exchange(t[p as int].children, a, b);
        }
        assert forall|p: ContainerId| #![trigger r[p as int].focus] p < r.len() implies r[p as int].focus.no_duplicates() by {
            assert(t[p as int].focus.no_duplicates());
            lemma_exchange(t[p as int].focus, a, b);
        }
    }
    assert(forest::leafy(r)) by {
        assert forall|w: ContainerId|
            #![trigger r[w as int].props]
            w < r.len() && r[w as int].props.kind.spec_is_window() implies r[w as int].children.len()
            == 0 by {
            assert(t[w as int].props.kind == r[w as int].props.kind);
        }
    }
    assert(forest::acyclic(r)) by {
        lemma_swapped_acyclic(t, a, b);
    }
}

proof fn lemma_swapped_acyclic(t: Forest, a: ContainerId, b: ContainerId)
    requires
        forest::well_formed(t),
        a < t.len(),
        b < t.len(),
        !forest::within(t, a, b),
        !forest::within(t, b, a),
        t[a as int].parent is Some,
        t[b as int].parent is Some,
    ensures
        forest::acyclic(swapped(t, a, b)),
{
    let r = swapped(t, a, b);
    let rank = choose|rank: Seq<nat>| forest::ranked(t, rank);
    let top = forest::ceiling(rank);
    forest::lemma_ceiling(rank);
    // The subtrees that move are lifted above everything else.
    let lifted = Seq::<nat>::new(
        t.len(),
        |i: int|
            if forest::within(t, i as usize, a) || forest::within(t, i as usize, b) {
                rank[i] + top
            } else {
                rank[i]
            },
    );
    let pa = t[a as int].parent->0;
    let pb = t[b as int].parent->0;
    forest::lemma_parent_not_within(t, a, pa);
    forest::lemma_parent_not_within(t, b, pb);
    if forest::within(t, pa, b) {
        forest::lemma_within_up(t, a, pa);
        forest::lemma_within_trans(t, a, pa, b);
    }
    if forest::within(t, pb, a) {
        forest::lemma_within_up(t, b, pb);
        forest::lemma_within_trans(t, b, pb, a);
    }
    forest::lemma_within_self(t, a);
    forest::lemma_within_self(t, b);
    assert forall|c: ContainerId|
        #![trigger r[c as int].parent]
        c < r.len() implies match r[c as int].parent {
        Some(p) => p < r.len() && lifted[p as int] < lifted[c as int],
        None => true,
    } by {
        assert(t[a as int].parent == Some(pa) && t[b as int].parent == Some(pb));
        if c != a && c != b {
            assert(r[c as int].parent == t[c as int].parent);
            if let Some(p) = t[c as int].parent {
                forest::lemma_within_up(t, c, p);
                if forest::within(t, c, a) {
                    forest::lemma_within_down(t, c, a);
                }
                if forest::within(t, c, b) {
                    forest::lemma_within_down(t, c, b);
                }
                if forest::within(t, p, a) {
                    forest::lemma_within_trans(t, c, p, a);
                }
                if forest::within(t, p, b) {
                    forest::lemma_within_trans(t, c, p, b);
                }
            }
        }
    }
    assert(forest::ranked(r, lifted));
}

/// Two containers that trade places twice are back where they were.
proof fn lemma_trading_places_twice(t: Forest, a: ContainerId, b: ContainerId)
    requires
        well_formed_pair(t, a, b),
    ensures
        swapped(swapped(t, a, b), a, b) == t,
{
    let r = swapped(t, a, b);
    assert forall|s: Seq<ContainerId>| #[trigger]
        forest::exchange(forest::exchange(s, a, b), a, b) == s by {
        assert(forest::exchange(forest::exchange(s, a, b), a, b) =~= s);
    }
    assert(swapped(r, a, b) =~= t);
}

/// Above a container that is within neither `a` nor `b`, nothing changes.
proof fn lemma_swapped_above(t: Forest, a: ContainerId, b: ContainerId, x: ContainerId, n: nat)
    requires
        forest::well_formed(t),
        x < t.len(),
        !forest::within(t, x, a),
        !forest::within(t, x, b),
    ensures
        forest::above(swapped(t, a, b), x, n) == forest::above(t, x, n),
    decreases n,
{
    if n > 0 {
        lemma_swapped_above(t, a, b, x, (n - 1) as nat);
        if let Some(y) = forest::above(t, x, (n - 1) as nat) {
            assert(y != a && y != b);
            let rank = choose|rank: Seq<nat>| forest::ranked(t, rank);
            forest::lemma_above_rank(t, rank, x, (n - 1) as nat);
        }
    }
}

/// What `a` is within after trading places with `b`.
proof fn lemma_swapped_within(t: Forest, a: ContainerId, b: ContainerId)
    requires
        forest::well_formed(t),
        a < t.len(),
        b < t.len(),
        !forest::within(t, a, b),
        !forest::within(t, b, a),
        t[a as int].parent is Some,
        t[b as int].parent is Some,
    ensures
        forall|c: ContainerId| #[trigger]
            forest::within(swapped(t, a, b), a, c) <==> c == a || forest::within(
                t,
                t[b as int].parent->0,
                c,
            ),
        !forest::within(t, t[b as int].parent->0, a),
        !forest::within(t, t[b as int].parent->0, b),
{
    let r = swapped(t, a, b);
    let pb = t[b as int].parent->0;
    forest::lemma_parent_not_within(t, b, pb);
    forest::lemma_within_up(t, b, pb);
    if forest::within(t, pb, a) {
        forest::lemma_within_trans(t, b, pb, a);
    }
    assert(r[a as int].parent == Some(pb));
    assert forall|c: ContainerId| #[trigger] forest::within(r, a, c) <==> c == a || forest::within(
        t,
        pb,
        c,
    ) by {
        assert(forest::within(r, pb, c) <==> forest::within(t, pb, c)) by {
            if forest::within(r, pb, c) {
                let n = choose|n: nat| #[trigger] forest::above(r, pb, n) == Some(c);
                lemma_swapped_above(t, a, b, pb, n);
                assert(forest::above(t, pb, n) == Some(c));
            }
            if forest::within(t, pb, c) {
                let n = choose|n: nat| #[trigger] forest::above(t, pb, n) == Some(c);
                lemma_swapped_above(t, a, b, pb, n);
                assert(forest::above(r, pb, n) == Some(c));
            }
        }
        forest::lemma_within_self(r, a);
        forest::lemma_within_up(r, a, pb);
        if forest::within(r, pb, c) {
            forest::lemma_within_trans(r, a, pb, c);
        }
        if forest::within(r, a, c) && c != a {
            forest::lemma_within_down(r, a, c);
        }
    }
}

/// Focus belongs to the slot until it is restored.
proof fn lemma_swapped_focused(t: Forest, a: ContainerId, b: ContainerId)
    requires
        forest::well_formed(t),
        a < t.len(),
        b < t.len(),
        !forest::within(t, a, b),
        !forest::within(t, b, a),
        t[a as int].parent is Some,
        t[b as int].parent is Some,
    ensures
        forest::focused(swapped(t, a, b), a) ==> forest::focused(t, b),
{
    let r = swapped(t, a, b);
    let pb = t[b as int].parent->0;
    lemma_swapped_within(t, a, b);
    if forest::focused(r, a) {
        forest::lemma_within_self(r, a);
        assert forall|c: ContainerId|
            #![trigger forest::within(t, b, c)]
            c < t.len() && forest::within(t, b, c) implies match t[c as int].parent {
            Some(p) => t[p as int].focus.len() > 0 && t[p as int].focus[0] == c,
            None => true,
        } by {
            assert(t[b as int].parent == Some(pb));
            if c == b {
                assert(forest::within(r, a, a));
                assert(r[a as int].parent == Some(pb));
            } else {
                forest::lemma_within_down(t, b, c);
                assert(forest::within(r, a, c));
                assert(r[c as int].parent == t[c as int].parent);
                assert(t[c as int].parent matches Some(p) ==> p < t.len());
            }
        }
    }
}

/// Unless one of the two containers is focused, swapping them a second time
/// restores the tree with all of its focus orders. A focused container takes
/// its focus along, and so becomes the most recent one wherever it has been.
pub proof fn law_swap_twice_restores_the_tree(t: Forest, a: ContainerId, b: ContainerId)
    requires
        well_formed_pair(t, a, b),
        swap_outcome(t, a, b) is Ok,
        !forest::focused(t, a),
        !forest::focused(t, b),
    ensures
        swap_outcome(swap_outcome(t, a, b)->Ok_0, a, b) == Ok::<Forest, CommandError>(t),
{
    let r = swapped(t, a, b);
    lemma_swapped_within(t, a, b);
    lemma_swapped_within(t, b, a);
    lemma_swapped_focused(t, a, b);
    lemma_swapped_focused(t, b, a);
    assert(swapped(t, b, a) =~= r) by {
        assert forall|s: Seq<ContainerId>| #[trigger]
            forest::exchange(s, b, a) == forest::exchange(s, a, b) by {
            assert(forest::exchange(s, b, a) =~= forest::exchange(s, a, b));
        }
    }
    lemma_trading_places_twice(t, a, b);
    assert(!forest::within(r, a, b) && !forest::within(r, b, a));
}

/// Swapping two containers a second time restores the layout: every container
/// is back under the same parent, at the same place and with the same
/// properties, whatever is focused.
pub proof fn law_swap_twice_restores_the_layout(
    t: Forest,
    a: ContainerId,
    b: ContainerId,
    x: ContainerId,
)
    requires
        well_formed_pair(t, a, b),
        swap_outcome(t, a, b) is Ok,
        x < t.len(),
    ensures
        ({
            let once = swap_outcome(t, a, b)->Ok_0;
            let twice = swap_outcome(once, a, b)->Ok_0;
            &&& swap_outcome(once, a, b) is Ok
            &&& twice[x as int].parent == t[x as int].parent
            &&& twice[x as int].children == t[x as int].children
            &&& twice[x as int].props == t[x as int].props
        }),
{
    let r = swapped(t, a, b);
    let once = swap_outcome(t, a, b)->Ok_0;
    lemma_swap_again(t, a, b);
    lemma_outcome_layout(t, a, b, x);
    lemma_outcome_layout(t, a, b, a);
    lemma_outcome_layout(t, a, b, b);
    lemma_outcome_layout(once, a, b, x);
    lemma_trading_places_twice(t, a, b);
    assert(swapped(r, a, b)[x as int] == t[x as int]);
    assert(swapped(once, a, b)[x as int].children == swapped(r, a, b)[x as int].children);
    assert(swapped(once, a, b)[x as int].parent == swapped(r, a, b)[x as int].parent);
    assert(swapped(once, a, b)[x as int].props == swapped(r, a, b)[x as int].props);
}

/// Restoring focus after two containers have traded places changes focus
/// orders alone.
proof fn lemma_outcome_layout(t: Forest, a: ContainerId, b: ContainerId, x: ContainerId)
    requires
        swap_outcome(t, a, b) is Ok,
        x < t.len(),
    ensures
        swap_outcome(t, a, b)->Ok_0.len() == t.len(),
        swap_outcome(t, a, b)->Ok_0[x as int].parent == swapped(t, a, b)[x as int].parent,
        swap_outcome(t, a, b)->Ok_0[x as int].children == swapped(t, a, b)[x as int].children,
        swap_outcome(t, a, b)->Ok_0[x as int].props == swapped(t, a, b)[x as int].props,
{
}

/// Two containers that have been swapped can be swapped again.
proof fn lemma_swap_again(t: Forest, a: ContainerId, b: ContainerId)
    requires
        well_formed_pair(t, a, b),
        swap_outcome(t, a, b) is Ok,
    ensures
        swap_outcome(swap_outcome(t, a, b)->Ok_0, a, b) is Ok,
{
    let r = swapped(t, a, b);
    let once = swap_outcome(t, a, b)->Ok_0;
    lemma_swapped_within(t, a, b);
    lemma_swapped_within(t, b, a);
    assert(swapped(t, b, a) =~= r) by {
        assert forall|s: Seq<ContainerId>| #[trigger]
            forest::exchange(s, b, a) == forest::exchange(s, a, b) by {
            assert(forest::exchange(s, b, a) =~= forest::exchange(s, a, b));
        }
    }
    assert(!forest::within(r, a, b) && !forest::within(r, b, a));
    assert forall|i: ContainerId| i < r.len() implies #[trigger] r[i as int].parent
        == once[i as int].parent by {
        lemma_outcome_layout(t, a, b, i);
    }
    assert(once.len() == r.len()) by {
        lemma_outcome_layout(t, a, b, a);
    }
    forest::lemma_same_parents(r, once);
    assert(!forest::within(once, a, b) && !forest::within(once, b, a));
    assert(once[a as int].parent == r[a as int].parent);
    assert(once[b as int].parent == r[b as int].parent);
}

/// A swap that succeeds keeps focus on whichever of the two containers had
/// it.
pub proof fn law_swap_preserves_focus(t: Forest, a: ContainerId, b: ContainerId)
    requires
        forest::well_formed(t),
        a < t.len(),
        b < t.len(),
        swap_outcome(t, a, b) is Ok,
    ensures
        forest::focused(t, a) ==> forest::focused(swap_outcome(t, a, b)->Ok_0, a),
        forest::focused(t, b) && !forest::focused(t, a) ==> forest::focused(
            swap_outcome(t, a, b)->Ok_0,
            b,
        ),
{
    lemma_swapped_well_formed(t, a, b);
    forest::lemma_raised(swapped(t, a, b), a);
    forest::lemma_raised(swapped(t, a, b), b);
}

/// Tiling sizes belong to the slots: after two tiling containers traded
/// places, the child at any place of any container is as large as the child
/// that was there before.
pub proof fn law_swap_keeps_slot_sizes(
    t: Forest,
    a: ContainerId,
    b: ContainerId,
    p: ContainerId,
    k: int,
)
    requires
        well_formed_pair(t, a, b),
        swap_outcome(t, a, b) is Ok,
        t[a as int].props.kind.spec_is_tiling(),
        t[b as int].props.kind.spec_is_tiling(),
        p < t.len(),
        0 <= k < t[p as int].children.len(),
    ensures
        ({
            let r = swap_outcome(t, a, b)->Ok_0;
            &&& r[p as int].children.len() == t[p as int].children.len()
            &&& r[r[p as int].children[k] as int].props.tiling_size
                == t[t[p as int].children[k] as int].props.tiling_size
        }),
{
    assert(t[p as int].children.contains(t[p as int].children[k]));
}

/// Apart from the two containers, every container stays where it was: under
/// the same parent, at the same place and with the same properties.
pub proof fn law_swap_moves_nothing_else(
    t: Forest,
    a: ContainerId,
    b: ContainerId,
    p: ContainerId,
    k: int,
)
    requires
        well_formed_pair(t, a, b),
        swap_outcome(t, a, b) is Ok,
        p < t.len(),
        0 <= k < t[p as int].children.len(),
        t[p as int].children[k] != a,
        t[p as int].children[k] != b,
    ensures
        ({
            let r = swap_outcome(t, a, b)->Ok_0;
            let c = t[p as int].children[k];
            &&& r[p as int].children[k] == c
            &&& r[c as int].parent == Some(p)
            &&& r[c as int].props == t[c as int].props
        }),
{
    assert(t[p as int].children.contains(t[p as int].children[k]));
}

/// The tree is valid and `a` and `b` are containers of it.
pub open spec fn well_formed_pair(t: Forest, a: ContainerId, b: ContainerId) -> bool {
    &&& forest::well_formed(t)
    &&& a < t.len()
    &&& b < t.len()
}

/// Gets the index of a container amongst the children of its parent.
pub fn child_index(tree: &Tree, parent: ContainerId, child: ContainerId) -> (r: Result<
    usize,
    CommandError,
>)
    requires
        parent < tree@.len(),
    ensures
        match r {
            Ok(index) => {
                &&& index < tree@[parent as int].children.len()
                &&& tree@[parent as int].children[index as int] == child
                &&& forall|i: int|
                    0 <= i < index ==> #[trigger] tree@[parent as int].children[i] != child
            },
            Err(e) => {
                &&& e == CommandError::NotAChildOfParent
                &&& !tree@[parent as int].children.contains(child)
            },
        },
{
    let children = &tree.container(parent).children;
    match position(children, child) {
        Some(index) => Ok(index),
        None => Err(CommandError::NotAChildOfParent),
    }
}

/// Replaces a container in the focus order of its parent, keeping its
/// position. Nothing changes if it is not part of the focus order.
pub fn replace_in_focus_order(
    tree: &mut Tree,
    parent: ContainerId,
    old_id: ContainerId,
    new_id: ContainerId,
)
    requires
        parent < old(tree)@.len(),
        old(tree)@[parent as int].focus.no_duplicates(),
    ensures
        final(tree)@ == old(tree)@.update(
            parent as int,
            Node {
                focus: forest::replaced(old(tree)@[parent as int].focus, old_id, new_id),
                ..old(tree)@[parent as int]
            },
        ),
{
    let ghost order = tree@[parent as int].focus;
    let found = position(&tree.container(parent).focus_order, old_id);
    match found {
        Some(index) => {
            tree.put_focused_child(parent, index, new_id);
            assert(order.update(index as int, new_id) =~= forest::replaced(order, old_id, new_id));
        },
        None => {
            assert forall|i: int| 0 <= i < order.len() implies order[i] != old_id by {
                assert(order.contains(order[i]));
            }
            assert(order =~= forest::replaced(order, old_id, new_id));
            assert(tree@ =~= old(tree)@.update(
                parent as int,
                Node {
                    focus: forest::replaced(order, old_id, new_id),
                    ..old(tree)@[parent as int]
                },
            ));
        },
    }
}

/// Swaps the position of two attached containers within the tree.
///
/// Each container takes over the other's slot: its index amongst its new
/// siblings, its place in the parent's focus order, and (if both are tiling
/// containers) its tiling size. The layout is therefore left untouched
/// apart from the two containers trading places.
///
/// Focus is preserved on whichever of the two containers was focused.
///
/// Errors if the containers are the same, if either is detached, or if one
/// is an ancestor of the other.
pub fn swap_containers(
    tree: &mut Tree,
    container_a: ContainerId,
    container_b: ContainerId,
) -> (r: Result<(), CommandError>)
    requires
        old(tree).wf(),
        container_a < old(tree)@.len(),
        container_b < old(tree)@.len(),
    ensures
        final(tree).wf(),
        match swap_outcome(old(tree)@, container_a, container_b) {
            Ok(t) => r is Ok && final(tree)@ == t,
            Err(e) => r == Err::<(), CommandError>(e) && final(tree)@ == old(tree)@,
        },
{
    if container_a == container_b {
        return Err(CommandError::SwapWithSelf);
    }
    if tree.is_within(container_a, container_b) || tree.is_within(container_b, container_a) {
        return Err(CommandError::SwapWithAncestor);
    }
    let parent_a = match tree.container(container_a).parent {
        Some(parent) => parent,
        None => return Err(CommandError::NoParent),
    };
    let parent_b = match tree.container(container_b).parent {
        Some(parent) => parent,
        None => return Err(CommandError::NoParent),
    };
    let has_focus_a = tree.has_focus(container_a);
    let has_focus_b = tree.has_focus(container_b);
    match trade_places(tree, container_a, container_b, parent_a, parent_b) {
        Ok(_) => {},
        Err(e) => return Err(e),
    }
    proof {
        lemma_swapped_well_formed(old(tree)@, container_a, container_b);
    }
    // Restore the focus chain of the focused container, since its ancestors
    // have changed.
    if has_focus_a {
        tree.set_focused_descendant(container_a);
    } else if has_focus_b {
        tree.set_focused_descendant(container_b);
    }
    Ok(())
}

/// Lets two containers that are not within each other trade places.
fn trade_places(
    tree: &mut Tree,
    container_a: ContainerId,
    container_b: ContainerId,
    parent_a: ContainerId,
    parent_b: ContainerId,
) -> (r: Result<(), CommandError>)
    requires
        old(tree).wf(),
        container_a < old(tree)@.len(),
        container_b < old(tree)@.len(),
        !forest::within(old(tree)@, container_a, container_b),
        !forest::within(old(tree)@, container_b, container_a),
        old(tree)@[container_a as int].parent == Some(parent_a),
        old(tree)@[container_b as int].parent == Some(parent_b),
    ensures
        r is Ok,
        final(tree)@ == swapped(old(tree)@, container_a, container_b),
{
    let ghost t = tree@;
    let ghost a = container_a;
    let ghost b = container_b;
    proof {
        forest::lemma_within_self(t, a);
        forest::lemma_within_up(t, a, parent_a);
        forest::lemma_within_up(t, b, parent_b);
        assert(t[parent_a as int].children.contains(a) && t[parent_a as int].focus.contains(a));
        assert(t[parent_b as int].children.contains(b) && t[parent_b as int].focus.contains(b));
        lemma_exchange_elsewhere(t, a, b, parent_a, parent_b);
    }
    let index_a = match child_index(tree, parent_a, container_a) {
        Ok(index) => index,
        Err(e) => return Err(e),
    };
    let index_b = match child_index(tree, parent_b, container_b) {
        Ok(index) => index,
        Err(e) => return Err(e),
    };
    if parent_a == parent_b {
        let focus_a = position(&tree.container(parent_a).focus_order, container_a);
        let focus_b = position(&tree.container(parent_a).focus_order, container_b);
        tree.put_child(parent_a, index_a, container_b);
        tree.put_child(parent_a, index_b, container_a);
        match (focus_a, focus_b) {
            (Some(focus_a), Some(focus_b)) => {
                tree.put_focused_child(parent_a, focus_a, container_b);
                tree.put_focused_child(parent_a, focus_b, container_a);
                proof {
                    lemma_exchange_pair(t[parent_a as int].focus, a, b, focus_a as int, focus_b as int);
                }
            },
            _ => {},
        }
        proof {
            lemma_exchange_pair(t[parent_a as int].children, a, b, index_a as int, index_b as int);
        }
    } else {
        tree.put_child(parent_a, index_a, container_b);
        tree.put_child(parent_b, index_b, container_a);
        tree.put_parent(container_a, Some(parent_b));
        tree.put_parent(container_b, Some(parent_a));
        // Each container inherits the other's place in the focus order, so
        // that the focus recency of the slot is retained.
        replace_in_focus_order(tree, parent_a, container_a, container_b);
        replace_in_focus_order(tree, parent_b, container_b, container_a);
        proof {
            lemma_exchange_one(t[parent_a as int].children, a, b, index_a as int);
            lemma_exchange_one(t[parent_b as int].children, b, a, index_b as int);
            lemma_exchange_replaced(t[parent_a as int].focus, a, b);
            lemma_exchange_replaced(t[parent_b as int].focus, b, a);
        }
    }
    let props_a = tree.container(container_a).props;
    let props_b = tree.container(container_b).props;
    if props_a.kind.is_tiling() && props_b.kind.is_tiling() {
        tree.put_props(
            container_a,
            ContainerProps { tiling_size: props_b.tiling_size, ..props_a },
        );
        tree.put_props(
            container_b,
            ContainerProps { tiling_size: props_a.tiling_size, ..props_b },
        );
    }
    assert(tree@ =~= swapped(t, a, b));
    Ok(())
}

proof fn lemma_exchange_elsewhere(
    t: Forest,
    a: ContainerId,
    b: ContainerId,
    pa: ContainerId,
    pb: ContainerId,
)
    requires
        forest::linked(t),
        t[a as int].parent == Some(pa),
        t[b as int].parent == Some(pb),
    ensures
        forall|p: ContainerId|
            #![trigger t[p as int]]
            p < t.len() && p != pa && p != pb ==> exchange_free(t[p as int], a, b),
        pa != pb && pa < t.len() ==> !t[pa as int].children.contains(b)
            && !t[pa as int].focus.contains(b),
        pa != pb && pb < t.len() ==> !t[pb as int].children.contains(a)
            && !t[pb as int].focus.contains(a),
{
    assert forall|p: ContainerId|
        #![trigger t[p as int]]
        p < t.len() && p != pa && p != pb implies exchange_free(t[p as int], a, b) by {
        assert(!t[p as int].children.contains(a) && !t[p as int].children.contains(b));
        assert(!t[p as int].focus.contains(a) && !t[p as int].focus.contains(b));
        lemma_exchange(t[p as int].children, a, b);
        lemma_exchange(t[p as int].focus, a, b);
    }
}

/// Exchanging `a` and `b` changes nothing about the children of `node`.
spec fn exchange_free(node: Node, a: ContainerId, b: ContainerId) -> bool {
    &&& forest::exchange(node.children, a, b) == node.children
    &&& forest::exchange(node.focus, a, b) == node.focus
}

proof fn lemma_exchange_one(s: Seq<ContainerId>, a: ContainerId, b: ContainerId, i: int)
    requires
        s.no_duplicates(),
        0 <= i < s.len(),
        s[i] == a,
        !s.contains(b),
    ensures
        forest::exchange(s, a, b) == s.update(i, b),
        forest::exchange(s, b, a) == s.update(i, b),
{
    assert forall|j: int| 0 <= j < s.len() implies s[j] != b by {
        assert(s.contains(s[j]));
    }
    assert(forest::exchange(s, a, b) =~= s.update(i, b));
    assert(forest::exchange(s, b, a) =~= s.update(i, b));
}

proof fn lemma_exchange_replaced(s: Seq<ContainerId>, a: ContainerId, b: ContainerId)
    requires
        !s.contains(b),
    ensures
        forest::exchange(s, a, b) == forest::replaced(s, a, b),
        forest::exchange(s, b, a) == forest::replaced(s, a, b),
{
    assert forall|j: int| 0 <= j < s.len() implies s[j] != b by {
        assert(s.contains(s[j]));
    }
    assert(forest::exchange(s, a, b) =~= forest::replaced(s, a, b));
    assert(forest::exchange(s, b, a) =~= forest::replaced(s, a, b));
}

proof fn lemma_exchange_pair(s: Seq<ContainerId>, a: ContainerId, b: ContainerId, i: int, j: int)
    requires
        s.no_duplicates(),
        0 <= i < s.len(),
        0 <= j < s.len(),
        s[i] == a,
        s[j] == b,
    ensures
        forest::exchange(s, a, b) == s.update(i, b).update(j, a),
{
    assert(forest::exchange(s, a, b) =~= s.update(i, b).update(j, a));
}

/// After a swap, each of the two containers stands where the other one stood:
/// under the same parent and at the same place. Everything else stands where
/// it stood.
pub proof fn law_swapped_containers_trade_places(
    t: Forest,
    a: ContainerId,
    b: ContainerId,
    p: ContainerId,
    k: int,
)
    requires
        well_formed_pair(t, a, b),
        swap_outcome(t, a, b) is Ok,
        p < t.len(),
        0 <= k < t[p as int].children.len(),
    ensures
        ({
            let r = swap_outcome(t, a, b)->Ok_0;
            let c = t[p as int].children[k];
            &&& r.len() == t.len()
            &&& r[p as int].children.len() == t[p as int].children.len()
            &&& c == a ==> r[p as int].children[k] == b && r[b as int].parent == Some(p)
            &&& c == b ==> r[p as int].children[k] == a && r[a as int].parent == Some(p)
            &&& c != a && c != b ==> r[p as int].children[k] == c && r[c as int].parent == Some(p)
        }),
{
    assert(t[p as int].children.contains(t[p as int].children[k]));
}

/// Two tiling containers trade their sizes along with their places, and keep
/// everything else. Other containers keep all of their properties.
pub proof fn law_swapped_containers_trade_sizes(
    t: Forest,
    a: ContainerId,
    b: ContainerId,
    x: ContainerId,
)
    requires
        well_formed_pair(t, a, b),
        swap_outcome(t, a, b) is Ok,
        x < t.len(),
    ensures
        ({
            let r = swap_outcome(t, a, b)->Ok_0;
            let both_tile = (t[a as int].props.kind == ContainerKind::TilingWindow
                || t[a as int].props.kind == ContainerKind::Split) && (t[b as int].props.kind
                == ContainerKind::TilingWindow || t[b as int].props.kind == ContainerKind::Split);
            let size = if both_tile && x == a {
                t[b as int].props.tiling_size
            } else if both_tile && x == b {
                t[a as int].props.tiling_size
            } else {
                t[x as int].props.tiling_size
            };
            r[x as int].props == (ContainerProps { tiling_size: size, ..t[x as int].props })
        }),
{
}

/// Unless one of the two has focus, they also trade their places in the order
/// of focus, and everything else keeps its place there.
pub proof fn law_swapped_containers_trade_focus_places(
    t: Forest,
    a: ContainerId,
    b: ContainerId,
    p: ContainerId,
    k: int,
)
    requires
        well_formed_pair(t, a, b),
        swap_outcome(t, a, b) is Ok,
        !forest::focused(t, a),
        !forest::focused(t, b),
        p < t.len(),
        0 <= k < t[p as int].focus.len(),
    ensures
        ({
            let r = swap_outcome(t, a, b)->Ok_0;
            let c = t[p as int].focus[k];
            &&& r[p as int].focus.len() == t[p as int].focus.len()
            &&& r[p as int].focus[k] == if c == a {
                b
            } else if c == b {
                a
            } else {
                c
            }
        }),
{
}

/// A swap is refused exactly if the two are the same, if one is within the
/// other, or if one is part of nothing.
pub proof fn law_refused_swaps(t: Forest, a: ContainerId, b: ContainerId)
    ensures
        ({
            let r = swap_outcome(t, a, b);
            let is_above = forest::within(t, a, b) || forest::within(t, b, a);
            let is_detached = t[a as int].parent is None || t[b as int].parent is None;
            &&& r == Err::<Forest, CommandError>(CommandError::SwapWithSelf) <==> a == b
            &&& r == Err::<Forest, CommandError>(CommandError::SwapWithAncestor) <==> a != b
                && is_above
            &&& r == Err::<Forest, CommandError>(CommandError::NoParent) <==> a != b && !is_above
                && is_detached
            &&& r is Ok <==> a != b && !is_above && !is_detached
        }),
{
}

/// Whatever is focused stays focused when two containers of the same tree are
/// swapped, wherever it is.
pub proof fn law_swap_keeps_the_focused_container(
    t: Forest,
    root: ContainerId,
    a: ContainerId,
    b: ContainerId,
    x: ContainerId,
)
    requires
        well_formed_pair(t, a, b),
        swap_outcome(t, a, b) is Ok,
        forest::within(t, a, root),
        forest::within(t, b, root),
        focus::is_focused_container(t, root, x),
    ensures
        focus::is_focused_container(swap_outcome(t, a, b)->Ok_0, root, x),
{
    let r = swap_outcome(t, a, b)->Ok_0;
    let s = swapped(t, a, b);
    lemma_swapped_well_formed(t, a, b);
    forest::lemma_raised(s, a);
    forest::lemma_raised(s, b);
    if forest::within(t, x, a) {
        lemma_focused_above(t, x, a);
        law_swap_preserves_focus(t, a, b);
        let n = choose|n: nat| #[trigger] forest::above(t, x, n) == Some(a);
        lemma_stays_focused_below(t, a, b, a, x, n);
    } else if forest::within(t, x, b) {
        lemma_focused_above(t, x, b);
        if forest::focused(t, a) {
            focus::law_focus_is_a_single_path(t, root, a, b);
        }
        law_swap_preserves_focus(t, a, b);
        let n = choose|n: nat| #[trigger] forest::above(t, x, n) == Some(b);
        lemma_stays_focused_below(t, a, b, b, x, n);
    } else {
        if forest::focused(t, a) {
            focus::law_focus_is_a_single_path(t, root, a, x);
            focus::lemma_leaf(t, x, a);
        }
        if forest::focused(t, b) {
            focus::law_focus_is_a_single_path(t, root, b, x);
            focus::lemma_leaf(t, x, b);
        }
        let rank = choose|rank: Seq<nat>| forest::ranked(t, rank);
        lemma_stays_focused_aside(t, rank, a, b, x);
    }
    lemma_exchange(t[x as int].children, a, b);
    assert(r[x as int].children.len() == 0);
    assert(forest::within(r, x, root)) by {
        lemma_swap_stays_within(t, root, a, b, x);
    }
}

/// What is above something focused is focused.
proof fn lemma_focused_above(t: Forest, x: ContainerId, a: ContainerId)
    requires
        forest::focused(t, x),
        forest::within(t, x, a),
    ensures
        forest::focused(t, a),
{
    assert forall|c: ContainerId|
        #![trigger forest::within(t, a, c)]
        c < t.len() && forest::within(t, a, c) implies match t[c as int].parent {
        Some(p) => t[p as int].focus.len() > 0 && t[p as int].focus[0] == c,
        None => true,
    } by {
        forest::lemma_within_trans(t, x, a, c);
        assert(forest::within(t, x, c));
    }
}

/// What is focused below a container that keeps its focus stays focused.
proof fn lemma_stays_focused_below(
    t: Forest,
    a: ContainerId,
    b: ContainerId,
    top: ContainerId,
    x: ContainerId,
    n: nat,
)
    requires
        well_formed_pair(t, a, b),
        swap_outcome(t, a, b) is Ok,
        top == a || top == b,
        forest::focused(t, top),
        top == b ==> !forest::focused(t, a),
        x < t.len(),
        forest::above(t, x, n) == Some(top),
        forest::focused(t, x),
    ensures
        forest::focused(swap_outcome(t, a, b)->Ok_0, x),
    decreases n,
{
    let s = swapped(t, a, b);
    let r = swap_outcome(t, a, b)->Ok_0;
    lemma_swapped_well_formed(t, a, b);
    forest::lemma_raised(s, a);
    forest::lemma_raised(s, b);
    if n == 0 {
        law_swap_preserves_focus(t, a, b);
    } else {
        let rank = choose|rank: Seq<nat>| forest::ranked(t, rank);
        assert(forest::above(t, x, 0) == Some(x));
        assert(forest::above(t, x, 1) == t[x as int].parent);
        if t[x as int].parent is None {
            forest::lemma_above_none(t, x, 1, (n - 1) as nat);
        }
        let q = t[x as int].parent->0;
        forest::lemma_above_add(t, x, 1, (n - 1) as nat);
        assert(forest::within(t, q, top));
        assert(t[q as int].children.contains(x));
        forest::lemma_within_up(t, x, q);
        lemma_focused_above(t, x, q);
        lemma_stays_focused_below(t, a, b, top, q, (n - 1) as nat);
        forest::lemma_within_trans(t, x, q, top);
        // Neither of the two is strictly below one of them.
        let other = if top == a {
            b
        } else {
            a
        };
        if x == other {
            assert(forest::within(t, other, top));
        }
        if x == top {
            forest::lemma_parent_not_within(t, x, q);
        }
        assert(r[x as int].parent == Some(q));
        tree_effects::law_focus_goes_from_the_top(t, x);
        assert(!t[q as int].focus.contains(a) && !t[q as int].focus.contains(b)) by {
            if t[q as int].children.contains(top) {
                forest::lemma_parent_not_within(t, top, q);
            }
            if t[q as int].children.contains(other) {
                forest::lemma_within_up(t, other, q);
                forest::lemma_within_trans(t, other, q, top);
            }
            assert(t[q as int].focus.contains(top) <==> t[q as int].children.contains(top));
            assert(t[q as int].focus.contains(other) <==> t[q as int].children.contains(other));
        }
        lemma_exchange(t[q as int].focus, a, b);
        assert(s[q as int].focus == t[q as int].focus);
        lemma_swapped_below(t, a, b, top, q, (n - 1) as nat);
        if q != top && forest::within(s, top, q) {
            lemma_no_circle(s, top, q);
        }
        tree_effects::law_focusing_changes_nothing_else(s, top, q);
        assert(r[q as int].focus == t[q as int].focus);
        tree_effects::law_focus_goes_from_the_top(r, x);
    }
}

/// Two containers that are within each other are the same.
proof fn lemma_no_circle(t: Forest, x: ContainerId, y: ContainerId)
    requires
        forest::well_formed(t),
        x < t.len(),
        y < t.len(),
        forest::within(t, x, y),
        forest::within(t, y, x),
    ensures
        x == y,
{
    let rank = choose|rank: Seq<nat>| forest::ranked(t, rank);
    let m = choose|m: nat| #[trigger] forest::above(t, x, m) == Some(y);
    let n = choose|n: nat| #[trigger] forest::above(t, y, n) == Some(x);
    forest::lemma_above_rank(t, rank, x, m);
    forest::lemma_above_rank(t, rank, y, n);
    assert(forest::above(t, x, 0) == Some(x));
    assert(m == 0);
}

/// What was below a container that was swapped still is.
proof fn lemma_swapped_below(
    t: Forest,
    a: ContainerId,
    b: ContainerId,
    top: ContainerId,
    q: ContainerId,
    n: nat,
)
    requires
        well_formed_pair(t, a, b),
        swap_outcome(t, a, b) is Ok,
        top == a || top == b,
        q < t.len(),
        forest::above(t, q, n) == Some(top),
    ensures
        forest::within(swapped(t, a, b), q, top),
    decreases n,
{
    let s = swapped(t, a, b);
    if n == 0 {
        forest::lemma_within_self(s, q);
    } else {
        assert(forest::above(t, q, 0) == Some(q));
        assert(forest::above(t, q, 1) == t[q as int].parent);
        if t[q as int].parent is None {
            forest::lemma_above_none(t, q, 1, (n - 1) as nat);
        }
        let p = t[q as int].parent->0;
        forest::lemma_above_add(t, q, 1, (n - 1) as nat);
        assert(t[p as int].children.contains(q));
        assert(forest::within(t, q, top));
        assert(forest::within(t, p, top));
        if q == top {
            forest::lemma_parent_not_within(t, q, p);
        }
        assert(q != a && q != b);
        lemma_swapped_below(t, a, b, top, p, (n - 1) as nat);
        assert(s[q as int].parent == Some(p));
        forest::lemma_within_up(s, q, p);
        forest::lemma_within_trans(s, q, p, top);
    }
}

/// What is focused aside from the two stays focused.
proof fn lemma_stays_focused_aside(
    t: Forest,
    rank: Seq<nat>,
    a: ContainerId,
    b: ContainerId,
    x: ContainerId,
)
    requires
        well_formed_pair(t, a, b),
        forest::ranked(t, rank),
        swap_outcome(t, a, b) is Ok,
        !forest::focused(t, a),
        !forest::focused(t, b),
        x < t.len(),
        !forest::within(t, x, a),
        !forest::within(t, x, b),
        forest::focused(t, x),
    ensures
        forest::focused(swap_outcome(t, a, b)->Ok_0, x),
    decreases rank[x as int],
{
    let r = swap_outcome(t, a, b)->Ok_0;
    lemma_swapped_well_formed(t, a, b);
    forest::lemma_within_self(t, x);
    tree_effects::law_focus_goes_from_the_top(t, x);
    tree_effects::law_focus_goes_from_the_top(r, x);
    if let Some(q) = t[x as int].parent {
        assert(t[q as int].children.contains(x));
        tree_effects::law_ancestors(t, x, a, q);
        tree_effects::law_ancestors(t, x, b, q);
        lemma_stays_focused_aside(t, rank, a, b, q);
        assert(r[x as int].parent == Some(q));
        assert(r[q as int].focus[0] == x);
    }
}

/// What was below the top of the tree still is.
proof fn lemma_swap_stays_within(
    t: Forest,
    root: ContainerId,
    a: ContainerId,
    b: ContainerId,
    x: ContainerId,
)
    requires
        well_formed_pair(t, a, b),
        swap_outcome(t, a, b) is Ok,
        forest::within(t, a, root),
        forest::within(t, b, root),
        x < t.len(),
        forest::within(t, x, root),
    ensures
        forest::within(swap_outcome(t, a, b)->Ok_0, x, root),
{
    let s = swapped(t, a, b);
    let r = swap_outcome(t, a, b)->Ok_0;
    lemma_swapped_well_formed(t, a, b);
    forest::lemma_raised(s, a);
    forest::lemma_raised(s, b);
    forest::lemma_within_self(t, a);
    forest::lemma_within_self(t, b);
    assert(root != a && root != b);
    lemma_swapped_within(t, a, b);
    lemma_swapped_within(t, b, a);
    assert(swapped(t, b, a) =~= s) by {
        assert forall|l: Seq<ContainerId>| #[trigger]
            forest::exchange(l, b, a) == forest::exchange(l, a, b) by {
            assert(forest::exchange(l, b, a) =~= forest::exchange(l, a, b));
        }
    }
    let pa = t[a as int].parent->0;
    let pb = t[b as int].parent->0;
    assert(t[pa as int].children.contains(a) && t[pb as int].children.contains(b));
    tree_effects::law_ancestors(t, a, root, pa);
    tree_effects::law_ancestors(t, b, root, pb);
    assert(forest::within(s, a, root) && forest::within(s, b, root));
    if forest::within(t, x, a) {
        let n = choose|n: nat| #[trigger] forest::above(t, x, n) == Some(a);
        lemma_swapped_below(t, a, b, a, x, n);
        forest::lemma_within_trans(s, x, a, root);
    } else if forest::within(t, x, b) {
        let n = choose|n: nat| #[trigger] forest::above(t, x, n) == Some(b);
        lemma_swapped_below(t, a, b, b, x, n);
        forest::lemma_within_trans(s, x, b, root);
    } else {
        let n = choose|n: nat| #[trigger] forest::above(t, x, n) == Some(root);
        lemma_swapped_above(t, a, b, x, n);
        assert(forest::above(s, x, n) == Some(root));
    }
}

} // verus!
