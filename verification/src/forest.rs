//! The mathematical model of the layout tree: a sequence of linked nodes.

use vstd::prelude::*;

use crate::container::{ContainerId, ContainerProps, Node};

verus! {

/// The nodes of a tree, each at the index that is its identity. Nodes
/// without a parent are the root, or detached.
pub type Forest = Seq<Node>;

/// Parent and child links agree with each other, and so do the two lists
/// of children that each node has.
pub open spec fn linked(t: Forest) -> bool {
    &&& t.len() <= usize::MAX
    &&& forall|c: ContainerId|
        #![trigger t[c as int].parent]
        c < t.len() ==> match t[c as int].parent {
            Some(p) => p < t.len() && t[p as int].children.contains(c),
            None => true,
        }
    &&& forall|p: ContainerId, c: ContainerId|
        #![trigger t[p as int].children.contains(c)]
        p < t.len() && t[p as int].children.contains(c) ==> c < t.len() && t[c as int].parent == Some(p)
    &&& forall|p: ContainerId, c: ContainerId|
        #![trigger t[p as int].focus.contains(c)]
        p < t.len() ==> (t[p as int].focus.contains(c) <==> t[p as int].children.contains(c))
    &&& forall|p: ContainerId|
        #![trigger t[p as int].children]
        p < t.len() ==> t[p as int].children.no_duplicates()
    &&& forall|p: ContainerId|
        #![trigger t[p as int].focus]
        p < t.len() ==> t[p as int].focus.no_duplicates()
}

/// Windows have no children.
pub open spec fn leafy(t: Forest) -> bool {
    forall|w: ContainerId|
        #![trigger t[w as int].props]
        w < t.len() && t[w as int].props.kind.spec_is_window() ==> t[w as int].children.len() == 0
}

/// `rank` grows along every link from a parent to a child.
pub open spec fn ranked(t: Forest, rank: Seq<nat>) -> bool {
    &&& rank.len() == t.len()
    &&& forall|c: ContainerId|
        #![trigger t[c as int].parent]
        c < t.len() ==> match t[c as int].parent {
            Some(p) => p < t.len() && rank[p as int] < rank[c as int],
            None => true,
        }
}

/// No node is its own ancestor.
pub open spec fn acyclic(t: Forest) -> bool {
    exists|rank: Seq<nat>| ranked(t, rank)
}

/// The invariant of every tree.
pub open spec fn well_formed(t: Forest) -> bool {
    &&& linked(t)
    &&& leafy(t)
    &&& acyclic(t)
}

/// The node that is `n` links above `x`.
pub open spec fn above(t: Forest, x: ContainerId, n: nat) -> Option<ContainerId>
    decreases n,
{
    if n == 0 {
        Some(x)
    } else {
        match above(t, x, (n - 1) as nat) {
            Some(y) => if y < t.len() { t[y as int].parent } else { None },
            None => None,
        }
    }
}

/// Whether `x` is `a` or a descendant of `a`.
pub open spec fn within(t: Forest, x: ContainerId, a: ContainerId) -> bool {
    exists|n: nat| #[trigger] above(t, x, n) == Some(a)
}

/// Whether `c` is the child of `p` that `x` is, or that `x` is below.
pub open spec fn towards(t: Forest, x: ContainerId, p: ContainerId, c: ContainerId) -> bool {
    &&& c < t.len()
    &&& t[c as int].parent == Some(p)
    &&& within(t, x, c)
}

/// The tree with a new container that is not attached to anything.
pub open spec fn added(t: Forest, props: ContainerProps) -> Forest {
    t.push(Node { props, parent: None, children: Seq::empty(), focus: Seq::empty() })
}

/// The tree in which `child` has become a child of `p`, at the given place.
/// It is the one that `p` has focused least recently.
pub open spec fn attached(t: Forest, child: ContainerId, p: ContainerId, index: int) -> Forest {
    t.update(
        p as int,
        Node {
            children: t[p as int].children.insert(index, child),
            focus: t[p as int].focus.push(child),
            ..t[p as int]
        },
    ).update(child as int, Node { parent: Some(p), ..t[child as int] })
}

/// The tree in which `x` has another tiling size.
pub open spec fn resized(t: Forest, x: ContainerId, size: u32) -> Forest {
    t.update(
        x as int,
        Node { props: ContainerProps { tiling_size: size, ..t[x as int].props }, ..t[x as int] },
    )
}

/// The tiling containers of a list.
pub open spec fn tiling_of(t: Forest, list: Seq<ContainerId>) -> Seq<ContainerId> {
    list.filter(|c: ContainerId| t[c as int].props.kind.spec_is_tiling())
}

/// A list in which `new_id` stands in the place of `old_id`. Nothing changes
/// if `old_id` is not part of it.
pub open spec fn replaced(list: Seq<ContainerId>, old_id: ContainerId, new_id: ContainerId) -> Seq<
    ContainerId,
> {
    list.map_values(
        |x: ContainerId|
            if x == old_id {
                new_id
            } else {
                x
            },
    )
}

/// A list without one of its values.
pub open spec fn without(s: Seq<ContainerId>, x: ContainerId) -> Seq<ContainerId> {
    s.filter(|y: ContainerId| y != x)
}

/// Moves an element of a list to its front.
pub open spec fn to_front(s: Seq<ContainerId>, x: ContainerId) -> Seq<ContainerId> {
    seq![x] + without(s, x)
}

/// Whether `x` is what every node above it has focused last.
pub open spec fn focused(t: Forest, x: ContainerId) -> bool {
    forall|c: ContainerId|
        #![trigger within(t, x, c)]
        c < t.len() && within(t, x, c) ==> match t[c as int].parent {
            Some(p) => t[p as int].focus.len() > 0 && t[p as int].focus[0] == c,
            None => true,
        }
}

/// The focus order of `p` once `x` has been focused.
pub open spec fn raised_order(t: Forest, x: ContainerId, p: ContainerId) -> Seq<ContainerId> {
    if exists|c: ContainerId| towards(t, x, p, c) {
        to_front(t[p as int].focus, choose|c: ContainerId| towards(t, x, p, c))
    } else {
        t[p as int].focus
    }
}

/// Focuses `x`: every node above it moves the child that leads to `x` to
/// the front of its focus order.
pub open spec fn raised(t: Forest, x: ContainerId) -> Forest {
    Seq::new(
        t.len(),
        |i: int| Node { focus: raised_order(t, x, i as usize), ..t[i] },
    )
}

/// Exchanges two values wherever they occur in a list.
pub open spec fn exchange(s: Seq<ContainerId>, a: ContainerId, b: ContainerId) -> Seq<ContainerId> {
    s.map_values(
        |x: ContainerId|
            if x == a {
                b
            } else if x == b {
                a
            } else {
                x
            },
    )
}

/// The tiling containers of a list are those of its containers that tile.
pub proof fn lemma_tiling_of(t: Forest, list: Seq<ContainerId>)
    ensures
        forall|c: ContainerId| #[trigger]
            tiling_of(t, list).contains(c) <==> list.contains(c)
                && t[c as int].props.kind.spec_is_tiling(),
        list.no_duplicates() ==> tiling_of(t, list).no_duplicates(),
    decreases list.len(),
{
    reveal(Seq::filter);
    let r = tiling_of(t, list);
    if list.len() > 0 {
        let init = list.drop_last();
        let last = list.last();
        let part = tiling_of(t, init);
        lemma_tiling_of(t, init);
        assert(r == if t[last as int].props.kind.spec_is_tiling() {
            part.push(last)
        } else {
            part
        });
        assert forall|c: ContainerId| #[trigger] r.contains(c) <==> list.contains(c)
            && t[c as int].props.kind.spec_is_tiling() by {
            assert(part.contains(c) <==> init.contains(c)
                && t[c as int].props.kind.spec_is_tiling());
            if part.contains(c) {
                let i = choose|i: int| 0 <= i < part.len() && part[i] == c;
                assert(r[i] == c);
                let k = choose|k: int| 0 <= k < init.len() && init[k] == c;
                assert(list[k] == c);
            }
            if list.contains(c) && c != last {
                let k = choose|k: int| 0 <= k < list.len() && list[k] == c;
                assert(init[k] == c);
            }
            if c == last && t[c as int].props.kind.spec_is_tiling() {
                assert(r[part.len() as int] == c);
                assert(list[list.len() - 1] == c);
            }
            if r.contains(c) && !part.contains(c) {
                assert(c == last);
            }
        }
        if list.no_duplicates() {
            assert(init.no_duplicates());
            if part.contains(last) {
                let k = choose|k: int| 0 <= k < init.len() && init[k] == last;
                assert(list[k] == list[list.len() - 1]);
            }
        }
    }
}

pub proof fn lemma_without(s: Seq<ContainerId>, x: ContainerId)
    ensures
        forall|y: ContainerId| #[trigger]
            without(s, x).contains(y) <==> s.contains(y) && y != x,
        s.no_duplicates() ==> without(s, x).no_duplicates(),
    decreases s.len(),
{
    reveal(Seq::filter);
    if s.len() > 0 {
        let init = s.drop_last();
        lemma_without(init, x);
        assert(s =~= init.push(s.last()));
        assert forall|y: ContainerId| #[trigger]
            without(s, x).contains(y) <==> s.contains(y) && y != x by {
            assert(s.contains(y) <==> init.contains(y) || y == s.last()) by {
                if init.contains(y) {
                    let i = choose|i: int| 0 <= i < init.len() && init[i] == y;
                    assert(s[i] == y);
                }
                if y == s.last() {
                    assert(s[s.len() - 1] == y);
                }
            }
            if s.last() != x {
                let r = without(init, x);
                assert(without(s, x) == r.push(s.last()));
                assert(r.push(s.last()).contains(y) <==> r.contains(y) || y == s.last()) by {
                    if r.contains(y) {
                        let i = choose|i: int| 0 <= i < r.len() && r[i] == y;
                        assert(r.push(s.last())[i] == y);
                    }
                    if y == s.last() {
                        assert(r.push(s.last())[r.len() as int] == y);
                    }
                }
            } else {
                assert(without(s, x) == without(init, x));
            }
            assert(without(init, x).contains(y) <==> init.contains(y) && y != x);
        }
        if s.no_duplicates() {
            assert(init.no_duplicates());
            if s.last() != x {
                assert(!init.contains(s.last()));
                assert(!without(init, x).contains(s.last()));
            }
        }
    }
}

/// Moving an element to the front only reorders a list.
pub proof fn lemma_to_front(s: Seq<ContainerId>, x: ContainerId)
    requires
        s.contains(x),
        s.no_duplicates(),
    ensures
        to_front(s, x).no_duplicates(),
        to_front(s, x).len() > 0,
        to_front(s, x)[0] == x,
        forall|y: ContainerId| #[trigger] to_front(s, x).contains(y) <==> s.contains(y),
{
    lemma_without(s, x);
    let r = without(s, x);
    assert(!r.contains(x));
    assert forall|y: ContainerId| #[trigger] to_front(s, x).contains(y) <==> s.contains(y) by {
        if r.contains(y) {
            let i = choose|i: int| 0 <= i < r.len() && r[i] == y;
            assert(to_front(s, x)[i + 1] == y);
        }
        if y == x {
            assert(to_front(s, x)[0] == y);
        }
        if to_front(s, x).contains(y) && y != x {
            let i = choose|i: int| 0 <= i < to_front(s, x).len() && to_front(s, x)[i] == y;
            assert(r[i - 1] == y);
        }
    }
    assert forall|i: int, j: int|
        0 <= i < to_front(s, x).len() && 0 <= j < to_front(s, x).len() && i != j implies to_front(
        s,
        x,
    )[i] != to_front(s, x)[j] by {
        if i > 0 {
            assert(r.contains(r[i - 1]));
        }
        if j > 0 {
            assert(r.contains(r[j - 1]));
        }
    }
}

/// A number above every rank.
pub open spec fn ceiling(rank: Seq<nat>) -> nat
    decreases rank.len(),
{
    if rank.len() == 0 {
        0
    } else if rank.last() < ceiling(rank.drop_last()) {
        ceiling(rank.drop_last())
    } else {
        rank.last() + 1
    }
}

pub proof fn lemma_ceiling(rank: Seq<nat>)
    ensures
        forall|i: int| 0 <= i < rank.len() ==> #[trigger] rank[i] < ceiling(rank),
    decreases rank.len(),
{
    if rank.len() > 0 {
        lemma_ceiling(rank.drop_last());
        assert forall|i: int| 0 <= i < rank.len() implies #[trigger] rank[i] < ceiling(rank) by {
            if i < rank.len() - 1 {
                assert(rank[i] == rank.drop_last()[i]);
            }
        }
    }
}

/// Every link upwards lowers the rank.
pub proof fn lemma_above_rank(t: Forest, rank: Seq<nat>, x: ContainerId, n: nat)
    requires
        ranked(t, rank),
        x < t.len(),
    ensures
        above(t, x, n) matches Some(y) ==> y < t.len() && rank[y as int] + n <= rank[x as int],
    decreases n,
{
    if n > 0 {
        lemma_above_rank(t, rank, x, (n - 1) as nat);
    }
}

pub proof fn lemma_above_add(t: Forest, x: ContainerId, m: nat, n: nat)
    ensures
        above(t, x, m) matches Some(y) ==> above(t, x, m + n) == above(t, y, n),
    decreases n,
{
    if n > 0 {
        lemma_above_add(t, x, m, (n - 1) as nat);
    }
}

pub proof fn lemma_within_self(t: Forest, x: ContainerId)
    ensures
        within(t, x, x),
{
    assert(above(t, x, 0) == Some(x));
}

pub proof fn lemma_within_trans(t: Forest, x: ContainerId, y: ContainerId, z: ContainerId)
    requires
        within(t, x, y),
        within(t, y, z),
    ensures
        within(t, x, z),
{
    let m = choose|m: nat| #[trigger] above(t, x, m) == Some(y);
    let n = choose|n: nat| #[trigger] above(t, y, n) == Some(z);
    lemma_above_add(t, x, m, n);
    assert(above(t, x, m + n) == Some(z));
}

/// A node is within its parent.
pub proof fn lemma_within_up(t: Forest, x: ContainerId, p: ContainerId)
    requires
        x < t.len(),
        t[x as int].parent == Some(p),
    ensures
        within(t, x, p),
{
    assert(above(t, x, 0) == Some(x));
    assert(above(t, x, 1) == Some(p));
}

/// A node that is strictly within another one has a parent within it.
pub proof fn lemma_within_down(t: Forest, x: ContainerId, a: ContainerId)
    requires
        x < t.len(),
        within(t, x, a),
        x != a,
    ensures
        t[x as int].parent is Some,
        within(t, t[x as int].parent->0, a),
{
    let n = choose|n: nat| #[trigger] above(t, x, n) == Some(a);
    assert(n > 0);
    assert(above(t, x, 0) == Some(x));
    assert(above(t, x, 1) == t[x as int].parent);
    if t[x as int].parent is None {
        lemma_above_none(t, x, 1, (n - 1) as nat);
    } else {
        lemma_above_add(t, x, 1, (n - 1) as nat);
        assert(above(t, t[x as int].parent->0, (n - 1) as nat) == Some(a));
    }
}

pub proof fn lemma_above_none(t: Forest, x: ContainerId, m: nat, n: nat)
    requires
        above(t, x, m) is None,
    ensures
        above(t, x, m + n) is None,
    decreases n,
{
    if n > 0 {
        lemma_above_none(t, x, m, (n - 1) as nat);
    }
}

/// A node is never within one of its children.
pub proof fn lemma_parent_not_within(t: Forest, c: ContainerId, p: ContainerId)
    requires
        acyclic(t),
        c < t.len(),
        t[c as int].parent == Some(p),
    ensures
        !within(t, p, c),
        p != c,
{
    let rank = choose|rank: Seq<nat>| ranked(t, rank);
    if within(t, p, c) {
        let n = choose|n: nat| #[trigger] above(t, p, n) == Some(c);
        lemma_above_rank(t, rank, p, n);
    }
}

/// Of two nodes that both lie above a third one, one lies above the other.
pub proof fn lemma_within_chain(t: Forest, x: ContainerId, y: ContainerId, z: ContainerId)
    requires
        within(t, x, y),
        within(t, x, z),
    ensures
        within(t, y, z) || within(t, z, y),
{
    let m = choose|m: nat| #[trigger] above(t, x, m) == Some(y);
    let n = choose|n: nat| #[trigger] above(t, x, n) == Some(z);
    if m <= n {
        lemma_above_add(t, x, m, (n - m) as nat);
        assert(above(t, y, (n - m) as nat) == Some(z));
    } else {
        lemma_above_add(t, x, n, (m - n) as nat);
        assert(above(t, z, (m - n) as nat) == Some(y));
    }
}

/// At most one child of a node leads to a given descendant.
pub proof fn lemma_towards_unique(
    t: Forest,
    x: ContainerId,
    p: ContainerId,
    c: ContainerId,
    d: ContainerId,
)
    requires
        acyclic(t),
        towards(t, x, p, c),
        towards(t, x, p, d),
    ensures
        c == d,
{
    lemma_within_chain(t, x, c, d);
    if c != d {
        if within(t, c, d) {
            lemma_within_down(t, c, d);
            lemma_parent_not_within(t, d, p);
        } else {
            lemma_within_down(t, d, c);
            lemma_parent_not_within(t, c, p);
        }
    }
}

pub proof fn lemma_added(t: Forest, props: ContainerProps)
    requires
        well_formed(t),
        t.len() < usize::MAX,
    ensures
        well_formed(added(t, props)),
{
    let r = added(t, props);
    let rank = choose|rank: Seq<nat>| ranked(t, rank);
    assert forall|c: ContainerId| #![trigger r[c as int]] c < t.len() implies r[c as int] == t[c as int] by {
    }
    assert(ranked(r, rank.push(0))) by {
        assert forall|c: ContainerId|
            #![trigger r[c as int].parent]
            c < r.len() implies match r[c as int].parent {
            Some(p) => p < r.len() && rank.push(0)[p as int] < rank.push(0)[c as int],
            None => true,
        } by {
            if c < t.len() {
                assert(t[c as int].parent == r[c as int].parent);
            }
        }
    }
    assert forall|c: ContainerId|
        #![trigger r[c as int].parent]
        c < r.len() implies match r[c as int].parent {
        Some(p) => p < r.len() && r[p as int].children.contains(c),
        None => true,
    } by {
        if c < t.len() {
            assert(t[c as int].parent == r[c as int].parent);
        }
    }
    assert forall|p: ContainerId, c: ContainerId|
        #![trigger r[p as int].children.contains(c)]
        p < r.len() && r[p as int].children.contains(c) implies c < r.len() && r[c as int].parent
        == Some(p) by {
        assert(p < t.len());
        assert(t[p as int].children.contains(c));
    }
    assert forall|p: ContainerId, c: ContainerId|
        #![trigger r[p as int].focus.contains(c)]
        p < r.len() implies (r[p as int].focus.contains(c) <==> r[p as int].children.contains(c)) by {
        if p < t.len() {
            assert(t[p as int].focus.contains(c) <==> t[p as int].children.contains(c));
        }
    }
}

/// Ancestry grows by the new link, so attaching a container outside of
/// itself makes no cycle.
pub proof fn lemma_attached(t: Forest, child: ContainerId, p: ContainerId, index: int)
    requires
        well_formed(t),
        child < t.len(),
        p < t.len(),
        t[child as int].parent is None,
        !within(t, p, child),
        !t[p as int].props.kind.spec_is_window(),
        0 <= index <= t[p as int].children.len(),
    ensures
        well_formed(attached(t, child, p, index)),
{
    let r = attached(t, child, p, index);
    let rank = choose|rank: Seq<nat>| ranked(t, rank);
    lemma_within_self(t, child);
    assert(p != child);
    let top = ceiling(rank);
    lemma_ceiling(rank);
    let lifted = Seq::<nat>::new(
        t.len(),
        |i: int|
            if within(t, i as usize, child) {
                rank[i] + top
            } else {
                rank[i]
            },
    );
    assert forall|c: ContainerId|
        #![trigger r[c as int].parent]
        c < r.len() implies match r[c as int].parent {
        Some(q) => q < r.len() && lifted[q as int] < lifted[c as int],
        None => true,
    } by {
        if c != child {
            assert(r[c as int].parent == t[c as int].parent);
            if let Some(q) = t[c as int].parent {
                lemma_within_up(t, c, q);
                if within(t, c, child) {
                    lemma_within_down(t, c, child);
                }
                if within(t, q, child) {
                    lemma_within_trans(t, c, q, child);
                }
            }
        }
    }
    assert(ranked(r, lifted));
    let old_children = t[p as int].children;
    let old_focus = t[p as int].focus;
    assert(!old_children.contains(child));
    assert(!old_focus.contains(child));
    old_children.insert_ensures(index, child);
    assert forall|x: ContainerId| #[trigger]
        old_children.insert(index, child).contains(x) <==> old_children.contains(x) || x == child by {
        let n = old_children.insert(index, child);
        if old_children.contains(x) {
            let i = choose|i: int| 0 <= i < old_children.len() && old_children[i] == x;
            if i < index {
                assert(n[i] == x);
            } else {
                assert(n[i + 1] == x);
            }
        }
        if x == child {
            assert(n[index] == x);
        }
        if n.contains(x) && x != child {
            let i = choose|i: int| 0 <= i < n.len() && n[i] == x;
            if i < index {
                assert(old_children[i] == x);
            } else {
                assert(old_children[i - 1] == x);
            }
        }
    }
    assert forall|x: ContainerId| #[trigger]
        old_focus.push(child).contains(x) <==> old_focus.contains(x) || x == child by {
        let n = old_focus.push(child);
        if old_focus.contains(x) {
            let i = choose|i: int| 0 <= i < old_focus.len() && old_focus[i] == x;
            assert(n[i] == x);
        }
        if x == child {
            assert(n[old_focus.len() as int] == x);
        }
    }
    assert forall|c: ContainerId|
        #![trigger r[c as int].parent]
        c < r.len() implies match r[c as int].parent {
        Some(q) => q < r.len() && r[q as int].children.contains(c),
        None => true,
    } by {
        if c != child {
            assert(t[c as int].parent == r[c as int].parent);
            if let Some(q) = t[c as int].parent {
                assert(t[q as int].children.contains(c));
                assert(r[q as int].children == if q == p {
                    old_children.insert(index, child)
                } else {
                    t[q as int].children
                });
            }
        } else {
            assert(r[p as int].children == old_children.insert(index, child));
        }
    }
    assert forall|q: ContainerId, c: ContainerId|
        #![trigger r[q as int].children.contains(c)]
        q < r.len() && r[q as int].children.contains(c) implies c < r.len() && r[c as int].parent
        == Some(q) by {
        if q == p {
            assert(old_children.insert(index, child).contains(c));
        } else {
            assert(r[q as int].children == t[q as int].children);
        }
        if c != child {
            assert(t[q as int].children.contains(c));
        } else if q != p {
            assert(t[q as int].children.contains(c));
        }
    }
    assert forall|q: ContainerId, c: ContainerId|
        #![trigger r[q as int].focus.contains(c)]
        q < r.len() implies (r[q as int].focus.contains(c) <==> r[q as int].children.contains(c)) by {
        assert(t[q as int].focus.contains(c) <==> t[q as int].children.contains(c));
        if q == p {
            assert(r[q as int].focus == old_focus.push(child));
            assert(r[q as int].children == old_children.insert(index, child));
        }
    }
    assert forall|q: ContainerId| #![trigger r[q as int].children] q < r.len() implies r[q as int].children.no_duplicates() by {
        assert(t[q as int].children.no_duplicates());
        if q == p {
            let n = old_children.insert(index, child);
            assert forall|i: int, j: int| 0 <= i < j < n.len() implies n[i] != n[j] by {
                let k = |i: int| if i < index { i } else { i - 1 };
                if i != index {
                    assert(n[i] == old_children[k(i)]);
                    assert(old_children.contains(old_children[k(i)]));
                }
                if j != index {
                    assert(n[j] == old_children[k(j)]);
                    assert(old_children.contains(old_children[k(j)]));
                }
            }
        }
    }
    assert forall|q: ContainerId| #![trigger r[q as int].focus] q < r.len() implies r[q as int].focus.no_duplicates() by {
        assert(t[q as int].focus.no_duplicates());
    }
    assert forall|w: ContainerId|
        #![trigger r[w as int].props]
        w < r.len() && r[w as int].props.kind.spec_is_window() implies r[w as int].children.len() == 0 by {
        assert(t[w as int].props == r[w as int].props);
    }
}

/// Focusing a node keeps the tree well-formed, and gives focus to the node.
pub proof fn lemma_raised(t: Forest, x: ContainerId)
    requires
        well_formed(t),
        x < t.len(),
    ensures
        well_formed(raised(t, x)),
        focused(raised(t, x), x),
        forall|y: ContainerId, a: ContainerId|
            #![trigger within(raised(t, x), y, a)]
            within(raised(t, x), y, a) <==> within(t, y, a),
{
    let r = raised(t, x);
    lemma_same_parents(t, r);
    let rank = choose|rank: Seq<nat>| ranked(t, rank);
    assert(ranked(r, rank));
    assert forall|p: ContainerId|
        p < t.len() implies #[trigger] r[p as int].focus.no_duplicates() && (forall|c: ContainerId| #[trigger]
        r[p as int].focus.contains(c) <==> t[p as int].focus.contains(c)) by {
        if exists|c: ContainerId| towards(t, x, p, c) {
            let c = choose|c: ContainerId| towards(t, x, p, c);
            assert(t[p as int].children.contains(c));
            assert(t[p as int].focus.contains(c));
            lemma_to_front(t[p as int].focus, c);
        }
    }
    assert forall|p: ContainerId, c: ContainerId|
        #![trigger r[p as int].focus.contains(c)]
        p < r.len() implies (r[p as int].focus.contains(c) <==> r[p as int].children.contains(c)) by {
        assert(r[p as int].focus.no_duplicates());
        assert(t[p as int].focus.contains(c) <==> t[p as int].children.contains(c));
    }
    assert forall|p: ContainerId, c: ContainerId|
        #![trigger r[p as int].children.contains(c)]
        p < r.len() && r[p as int].children.contains(c) implies c < r.len() && r[c as int].parent == Some(
        p,
    ) by {
        assert(t[p as int].children.contains(c));
    }
    assert forall|c: ContainerId|
        #![trigger within(r, x, c)]
        c < r.len() && within(r, x, c) implies match r[c as int].parent {
        Some(p) => r[p as int].focus.len() > 0 && r[p as int].focus[0] == c,
        None => true,
    } by {
        assert(t[c as int].parent == r[c as int].parent);
        if let Some(p) = t[c as int].parent {
            assert(towards(t, x, p, c));
            let d = choose|d: ContainerId| towards(t, x, p, d);
            lemma_towards_unique(t, x, p, c, d);
            assert(t[p as int].children.contains(c));
            assert(t[p as int].focus.contains(c));
            lemma_to_front(t[p as int].focus, c);
        }
    }
}

/// Whether two trees have the same links, and containers of the same kinds.
pub open spec fn same_links(t: Forest, r: Forest) -> bool {
    &&& t.len() == r.len()
    &&& forall|i: ContainerId|
        i < t.len() ==> {
            &&& #[trigger] r[i as int].props.kind == t[i as int].props.kind
            &&& r[i as int].parent == t[i as int].parent
            &&& r[i as int].children == t[i as int].children
            &&& r[i as int].focus == t[i as int].focus
        }
}

/// Which containers of a list tile depends on their kinds alone.
pub proof fn lemma_same_tiling(t: Forest, r: Forest, list: Seq<ContainerId>)
    requires
        forall|c: ContainerId| #[trigger]
            list.contains(c) ==> r[c as int].props.kind == t[c as int].props.kind,
    ensures
        tiling_of(r, list) == tiling_of(t, list),
    decreases list.len(),
{
    reveal(Seq::filter);
    if list.len() > 0 {
        let init = list.drop_last();
        assert forall|c: ContainerId| #[trigger] init.contains(c) implies list.contains(c) by {
            let i = choose|i: int| 0 <= i < init.len() && init[i] == c;
            assert(list[i] == c);
        }
        lemma_same_tiling(t, r, init);
        assert(list.contains(list[list.len() - 1]));
    }
}

/// Well-formedness depends on the links and the kinds alone.
pub proof fn lemma_same_links(t: Forest, r: Forest)
    requires
        well_formed(t),
        same_links(t, r),
    ensures
        well_formed(r),
{
    let rank = choose|rank: Seq<nat>| ranked(t, rank);
    assert forall|i: ContainerId| i < t.len() implies #[trigger] r[i as int].parent
        == t[i as int].parent && r[i as int].children == t[i as int].children && r[i as int].focus
        == t[i as int].focus by {
        assert(r[i as int].props.kind == t[i as int].props.kind);
    }
    assert(linked(r)) by {
        assert forall|p: ContainerId| p < r.len() implies #[trigger] r[p as int].children
            == t[p as int].children by {
            assert(r[p as int].parent == t[p as int].parent);
        }
        assert forall|p: ContainerId| p < r.len() implies #[trigger] r[p as int].focus
            == t[p as int].focus by {
            assert(r[p as int].parent == t[p as int].parent);
        }
        assert forall|p: ContainerId, c: ContainerId|
            #![trigger r[p as int].children.contains(c)]
            p < r.len() && r[p as int].children.contains(c) implies c < r.len()
            && r[c as int].parent == Some(p) by {
            assert(t[p as int].children.contains(c));
            assert(r[c as int].parent == t[c as int].parent);
        }
        assert forall|p: ContainerId, c: ContainerId|
            #![trigger r[p as int].focus.contains(c)]
            p < r.len() implies (r[p as int].focus.contains(c)
            <==> r[p as int].children.contains(c)) by {
            assert(t[p as int].focus.contains(c) <==> t[p as int].children.contains(c));
        }
    }
    assert forall|w: ContainerId|
        #![trigger r[w as int].props]
        w < r.len() && r[w as int].props.kind.spec_is_window() implies r[w as int].children.len()
        == 0 by {
        assert(r[w as int].props.kind == t[w as int].props.kind);
    }
    assert(ranked(r, rank));
}

/// What is focused depends on the links alone.
pub proof fn lemma_same_focused(t: Forest, r: Forest, x: ContainerId)
    requires
        well_formed(t),
        same_links(t, r),
        focused(t, x),
    ensures
        focused(r, x),
{
    assert forall|i: ContainerId| i < t.len() implies #[trigger] t[i as int].parent
        == r[i as int].parent by {
        assert(r[i as int].props.kind == t[i as int].props.kind);
    }
    lemma_same_parents(t, r);
    assert forall|c: ContainerId|
        #![trigger within(r, x, c)]
        c < r.len() && within(r, x, c) implies match r[c as int].parent {
        Some(p) => r[p as int].focus.len() > 0 && r[p as int].focus[0] == c,
        None => true,
    } by {
        assert(within(t, x, c));
        assert(r[c as int].props.kind == t[c as int].props.kind);
        if let Some(p) = t[c as int].parent {
            assert(t[p as int].children.contains(c));
            assert(r[p as int].props.kind == t[p as int].props.kind);
        }
    }
}

/// A new container changes nothing for those that are there.
pub proof fn lemma_added_above(t: Forest, props: ContainerProps, x: ContainerId, n: nat)
    requires
        well_formed(t),
        x < t.len(),
    ensures
        above(added(t, props), x, n) == above(t, x, n),
    decreases n,
{
    let rank = choose|rank: Seq<nat>| ranked(t, rank);
    if n > 0 {
        lemma_added_above(t, props, x, (n - 1) as nat);
        lemma_above_rank(t, rank, x, (n - 1) as nat);
    }
}

/// What is focused stays so when a new container is there.
pub proof fn lemma_added_focused(t: Forest, props: ContainerProps, x: ContainerId)
    requires
        well_formed(t),
        x < t.len(),
        focused(t, x),
    ensures
        focused(added(t, props), x),
{
    let r = added(t, props);
    let rank = choose|rank: Seq<nat>| ranked(t, rank);
    assert forall|c: ContainerId|
        #![trigger within(r, x, c)]
        c < r.len() && within(r, x, c) implies match r[c as int].parent {
        Some(p) => r[p as int].focus.len() > 0 && r[p as int].focus[0] == c,
        None => true,
    } by {
        let n = choose|n: nat| #[trigger] above(r, x, n) == Some(c);
        lemma_added_above(t, props, x, n);
        lemma_above_rank(t, rank, x, n);
        assert(within(t, x, c));
        if let Some(p) = t[c as int].parent {
            assert(t[p as int].children.contains(c));
        }
    }
}

/// Above a container that is not within `child`, nothing changes when `child`
/// is attached.
proof fn lemma_attached_above(
    t: Forest,
    child: ContainerId,
    p: ContainerId,
    index: int,
    x: ContainerId,
    n: nat,
)
    requires
        well_formed(t),
        child < t.len(),
        p < t.len(),
        child != p,
        x < t.len(),
        !within(t, x, child),
    ensures
        above(attached(t, child, p, index), x, n) == above(t, x, n),
    decreases n,
{
    if n > 0 {
        lemma_attached_above(t, child, p, index, x, (n - 1) as nat);
        if let Some(y) = above(t, x, (n - 1) as nat) {
            assert(y != child);
        }
    }
}

/// What is focused stays so when something else is attached.
pub proof fn lemma_attached_focused(
    t: Forest,
    child: ContainerId,
    p: ContainerId,
    index: int,
    x: ContainerId,
)
    requires
        well_formed(t),
        child < t.len(),
        p < t.len(),
        child != p,
        0 <= index <= t[p as int].children.len(),
        x < t.len(),
        !within(t, x, child),
        focused(t, x),
    ensures
        focused(attached(t, child, p, index), x),
{
    let r = attached(t, child, p, index);
    assert forall|c: ContainerId|
        #![trigger within(r, x, c)]
        c < r.len() && within(r, x, c) implies match r[c as int].parent {
        Some(q) => r[q as int].focus.len() > 0 && r[q as int].focus[0] == c,
        None => true,
    } by {
        let n = choose|n: nat| #[trigger] above(r, x, n) == Some(c);
        lemma_attached_above(t, child, p, index, x, n);
        assert(above(t, x, n) == Some(c));
        assert(within(t, x, c));
        assert(c != child);
        if let Some(q) = t[c as int].parent {
            assert(t[q as int].children.contains(c));
        }
    }
}

/// Ancestry depends on the parent links alone.
pub proof fn lemma_same_parents(t: Forest, r: Forest)
    requires
        t.len() == r.len(),
        forall|i: ContainerId| i < t.len() ==> #[trigger] t[i as int].parent == r[i as int].parent,
    ensures
        forall|x: ContainerId, n: nat| #[trigger] above(r, x, n) == above(t, x, n),
        forall|y: ContainerId, a: ContainerId|
            #![trigger within(r, y, a)]
            within(r, y, a) <==> within(t, y, a),
{
    assert forall|x: ContainerId, n: nat| #[trigger] above(r, x, n) == above(t, x, n) by {
        lemma_same_above(t, r, x, n);
    }
    assert forall|y: ContainerId, a: ContainerId|
        #![trigger within(r, y, a)]
        within(r, y, a) <==> within(t, y, a) by {
        if within(r, y, a) {
            let n = choose|n: nat| #[trigger] above(r, y, n) == Some(a);
            assert(above(t, y, n) == Some(a));
        }
        if within(t, y, a) {
            let n = choose|n: nat| #[trigger] above(t, y, n) == Some(a);
            assert(above(r, y, n) == Some(a));
        }
    }
}

proof fn lemma_same_above(t: Forest, r: Forest, x: ContainerId, n: nat)
    requires
        t.len() == r.len(),
        forall|i: ContainerId| i < t.len() ==> #[trigger] t[i as int].parent == r[i as int].parent,
    ensures
        above(r, x, n) == above(t, x, n),
    decreases n,
{
    if n > 0 {
        lemma_same_above(t, r, x, (n - 1) as nat);
    }
}

} // verus!
