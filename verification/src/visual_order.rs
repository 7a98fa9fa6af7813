//! The order in which windows are laid out, from the first to the last.

use vstd::prelude::*;

use crate::container::{ContainerId, ContainerProps};
use crate::focus;
use crate::forest::{self, Forest};
use crate::split_container;

verus! {

/// Whether `x` is laid out before `y`: where the ways down to the two part,
/// the one to `x` leads through an earlier child.
///
/// Walking the tree depth first, from the first child to the last, meets `x`
/// before `y`.
pub open spec fn laid_before(t: Forest, x: ContainerId, y: ContainerId) -> bool {
    exists|p: ContainerId, i: int, j: int| #[trigger] parts_at(t, x, y, p, i, j)
}

/// Whether the ways from `p` down to `x` and to `y` lead through the children
/// with the indices `i` and `j`, and `i` is the smaller one.
pub open spec fn parts_at(
    t: Forest,
    x: ContainerId,
    y: ContainerId,
    p: ContainerId,
    i: int,
    j: int,
) -> bool {
    &&& p < t.len()
    &&& 0 <= i < j < t[p as int].children.len()
    &&& forest::within(t, x, t[p as int].children[i])
    &&& forest::within(t, y, t[p as int].children[j])
}

proof fn lemma_part(t: Forest, x: ContainerId, p: ContainerId, i: int)
    requires
        forest::well_formed(t),
        p < t.len(),
        0 <= i < t[p as int].children.len(),
        forest::within(t, x, t[p as int].children[i]),
    ensures
        forest::towards(t, x, p, t[p as int].children[i]),
        forest::within(t, x, p),
{
    let c = t[p as int].children[i];
    assert(t[p as int].children.contains(c));
    forest::lemma_within_up(t, c, p);
    forest::lemma_within_trans(t, x, c, p);
}

/// Of two containers, only one can be laid out before the other.
pub proof fn law_order_is_asymmetric(t: Forest, x: ContainerId, y: ContainerId)
    requires
        forest::well_formed(t),
        laid_before(t, x, y),
    ensures
        !laid_before(t, y, x),
{
    if laid_before(t, y, x) {
        let (p, i, j) = choose|p: ContainerId, i: int, j: int| parts_at(t, x, y, p, i, j);
        let (q, k, m) = choose|q: ContainerId, k: int, m: int| parts_at(t, y, x, q, k, m);
        lemma_part(t, x, p, i);
        lemma_part(t, y, p, j);
        lemma_part(t, y, q, k);
        lemma_part(t, x, q, m);
        forest::lemma_within_chain(t, x, p, q);
        let outer = t[p as int].children;
        let inner = t[q as int].children;
        assert(outer.no_duplicates() && inner.no_duplicates());
        if p == q {
            forest::lemma_towards_unique(t, x, p, outer[i], inner[m]);
            forest::lemma_towards_unique(t, y, p, outer[j], inner[k]);
        } else if forest::within(t, p, q) {
            let way = focus::lemma_way_down(t, p, q);
            forest::lemma_within_trans(t, x, p, way);
            forest::lemma_within_trans(t, y, p, way);
            forest::lemma_towards_unique(t, x, q, inner[m], way);
            forest::lemma_towards_unique(t, y, q, inner[k], way);
        } else {
            let way = focus::lemma_way_down(t, q, p);
            forest::lemma_within_trans(t, x, q, way);
            forest::lemma_within_trans(t, y, q, way);
            forest::lemma_towards_unique(t, x, p, outer[i], way);
            forest::lemma_towards_unique(t, y, p, outer[j], way);
        }
    }
}

/// Of two leaves of a tree, one is laid out before the other.
pub proof fn law_order_is_total(t: Forest, root: ContainerId, x: ContainerId, y: ContainerId)
    requires
        forest::well_formed(t),
        x < t.len(),
        y < t.len(),
        x != y,
        t[x as int].children.len() == 0,
        t[y as int].children.len() == 0,
        forest::within(t, x, root),
        forest::within(t, y, root),
    ensures
        laid_before(t, x, y) || laid_before(t, y, x),
{
    let n = choose|n: nat| #[trigger] forest::above(t, x, n) == Some(root);
    lemma_ways_part(t, x, y, root, n);
}

proof fn lemma_ways_part(t: Forest, x: ContainerId, y: ContainerId, a: ContainerId, n: nat)
    requires
        forest::well_formed(t),
        x < t.len(),
        y < t.len(),
        x != y,
        t[x as int].children.len() == 0,
        t[y as int].children.len() == 0,
        forest::above(t, x, n) == Some(a),
        forest::within(t, y, a),
    ensures
        laid_before(t, x, y) || laid_before(t, y, x),
    decreases n,
{
    if n == 0 {
        focus::lemma_leaf(t, x, y);
    } else {
        let rank = choose|rank: Seq<nat>| forest::ranked(t, rank);
        let c = forest::above(t, x, (n - 1) as nat)->0;
        forest::lemma_above_rank(t, rank, x, (n - 1) as nat);
        forest::lemma_above_rank(t, rank, x, n);
        assert(forest::within(t, x, c));
        assert(t[c as int].parent == Some(a));
        assert(t[a as int].children.contains(c));
        if y == a {
            assert(t[y as int].children.contains(c));
        }
        let d = focus::lemma_way_down(t, y, a);
        if c == d {
            lemma_ways_part(t, x, y, c, (n - 1) as nat);
        } else {
            let children = t[a as int].children;
            let i = choose|i: int| 0 <= i < children.len() && children[i] == c;
            let j = choose|j: int| 0 <= j < children.len() && children[j] == d;
            if i < j {
                assert(parts_at(t, x, y, a, i, j));
            } else {
                assert(parts_at(t, y, x, a, j, i));
            }
        }
    }
}

/// The order depends on the links alone.
pub proof fn lemma_same_order(t: Forest, r: Forest, x: ContainerId, y: ContainerId)
    requires
        forest::same_links(t, r),
        laid_before(t, x, y),
    ensures
        laid_before(r, x, y),
{
    let (p, i, j) = choose|p: ContainerId, i: int, j: int| parts_at(t, x, y, p, i, j);
    assert forall|c: ContainerId| c < t.len() implies #[trigger] t[c as int].parent
        == r[c as int].parent by {
        assert(r[c as int].props.kind == t[c as int].props.kind);
    }
    forest::lemma_same_parents(t, r);
    assert(r[p as int].props.kind == t[p as int].props.kind);
    assert(parts_at(r, x, y, p, i, j));
}

/// A container that is added changes nothing about the order.
pub proof fn lemma_added_order(t: Forest, props: ContainerProps, x: ContainerId, y: ContainerId)
    requires
        forest::well_formed(t),
        x < t.len(),
        y < t.len(),
        laid_before(t, x, y),
    ensures
        laid_before(forest::added(t, props), x, y),
{
    let r = forest::added(t, props);
    let (p, i, j) = choose|p: ContainerId, i: int, j: int| parts_at(t, x, y, p, i, j);
    let c = t[p as int].children[i];
    let d = t[p as int].children[j];
    let m = choose|m: nat| #[trigger] forest::above(t, x, m) == Some(c);
    let n = choose|n: nat| #[trigger] forest::above(t, y, n) == Some(d);
    forest::lemma_added_above(t, props, x, m);
    forest::lemma_added_above(t, props, y, n);
    assert(forest::within(r, x, c) && forest::within(r, y, d));
    assert(parts_at(r, x, y, p, i, j));
}

/// Whatever is within a container stays there when a split is flattened.
proof fn lemma_within_flattened(
    t: Forest,
    split: ContainerId,
    x: ContainerId,
    c: ContainerId,
    n: nat,
)
    requires
        forest::well_formed(t),
        split < t.len(),
        t[split as int].parent is Some,
        x < t.len(),
        x != split,
        c != split,
        forest::above(t, x, n) == Some(c),
    ensures
        forest::within(split_container::flattened(t, split), x, c),
    decreases n,
{
    let r = split_container::flattened(t, split);
    if n == 0 {
        forest::lemma_within_self(r, x);
    } else {
        let rank = choose|rank: Seq<nat>| forest::ranked(t, rank);
        assert(forest::above(t, x, 0) == Some(x));
        assert(forest::above(t, x, 1) == t[x as int].parent);
        if t[x as int].parent is None {
            forest::lemma_above_none(t, x, 1, (n - 1) as nat);
        }
        let q = t[x as int].parent->0;
        forest::lemma_above_rank(t, rank, x, 1);
        forest::lemma_above_add(t, x, 1, (n - 1) as nat);
        let p = t[split as int].parent->0;
        if q == split {
            assert(n >= 2) by {
                assert(forest::above(t, q, 0) == Some(split));
            }
            assert(forest::above(t, split, 0) == Some(split));
            assert(forest::above(t, split, 1) == Some(p));
            forest::lemma_above_add(t, split, 1, (n - 2) as nat);
            forest::lemma_above_rank(t, rank, split, 1);
            forest::lemma_parent_not_within(t, split, p);
            lemma_within_flattened(t, split, p, c, (n - 2) as nat);
            assert(x != p) by {
                if x == p {
                    forest::lemma_within_up(t, x, split);
                }
            }
            assert(r[x as int].parent == Some(p));
            forest::lemma_within_up(r, x, p);
            forest::lemma_within_trans(r, x, p, c);
        } else {
            lemma_within_flattened(t, split, q, c, (n - 1) as nat);
            assert(r[x as int].parent == Some(q));
            forest::lemma_within_up(r, x, q);
            forest::lemma_within_trans(r, x, q, c);
        }
    }
}

/// Flattening a split keeps the order in which everything else is laid out.
pub proof fn law_flattening_keeps_the_order(
    t: Forest,
    split: ContainerId,
    x: ContainerId,
    y: ContainerId,
)
    requires
        forest::well_formed(t),
        split < t.len(),
        t[split as int].parent is Some,
        x < t.len(),
        y < t.len(),
        x != split,
        y != split,
        laid_before(t, x, y),
    ensures
        laid_before(split_container::flattened(t, split), x, y),
{
    let r = split_container::flattened(t, split);
    let (q, i, j) = choose|q: ContainerId, i: int, j: int| parts_at(t, x, y, q, i, j);
    let p = t[split as int].parent->0;
    let list = t[p as int].children;
    let inner = t[split as int].children;
    assert(list.contains(split));
    let index = list.index_of(split);
    assert(0 <= index < list.len() && list[index] == split);
    forest::lemma_parent_not_within(t, split, p);
    forest::lemma_within_self(t, split);
    let spliced = split_container::spliced(list, split, inner);
    assert(r[p as int].children == spliced);
    if q == split {
        lemma_child_flattened(t, split, x, q, i);
        lemma_child_flattened(t, split, y, q, j);
        assert(spliced[index + i] == inner[i]);
        assert(spliced[index + j] == inner[j]);
        assert(parts_at(r, x, y, p, index + i, index + j));
    } else if q == p {
        let k = lemma_place_flattened(t, split, x, i);
        let m = lemma_place_flattened(t, split, y, j);
        assert(parts_at(r, x, y, p, k, m));
    } else {
        lemma_child_flattened(t, split, x, q, i);
        lemma_child_flattened(t, split, y, q, j);
        assert(t[q as int].children.contains(t[q as int].children[i]));
        assert(r[q as int].children == t[q as int].children);
        assert(parts_at(r, x, y, q, i, j));
    }
}

/// What is below a child other than the split stays below it.
proof fn lemma_child_flattened(
    t: Forest,
    split: ContainerId,
    x: ContainerId,
    q: ContainerId,
    i: int,
)
    requires
        forest::well_formed(t),
        split < t.len(),
        t[split as int].parent is Some,
        x < t.len(),
        x != split,
        q < t.len(),
        0 <= i < t[q as int].children.len(),
        t[q as int].children[i] != split || Some(q) != t[split as int].parent,
        forest::within(t, x, t[q as int].children[i]),
    ensures
        forest::within(split_container::flattened(t, split), x, t[q as int].children[i]),
{
    let c = t[q as int].children[i];
    assert(t[q as int].children.contains(c));
    let n = choose|n: nat| #[trigger] forest::above(t, x, n) == Some(c);
    lemma_within_flattened(t, split, x, c, n);
}

/// Where what is below a child of the parent of the split goes.
proof fn lemma_place_flattened(t: Forest, split: ContainerId, x: ContainerId, i: int) -> (k: int)
    requires
        forest::well_formed(t),
        split < t.len(),
        t[split as int].parent is Some,
        x < t.len(),
        x != split,
        0 <= i < t[t[split as int].parent->0 as int].children.len(),
        forest::within(t, x, t[t[split as int].parent->0 as int].children[i]),
    ensures
        ({
            let p = t[split as int].parent->0;
            let r = split_container::flattened(t, split);
            let index = t[p as int].children.index_of(split);
            let len = t[split as int].children.len() as int;
            &&& 0 <= k < r[p as int].children.len()
            &&& forest::within(r, x, r[p as int].children[k])
            &&& i < index ==> k == i
            &&& i == index ==> index <= k < index + len
            &&& i > index ==> k == i + len - 1
        }),
{
    let r = split_container::flattened(t, split);
    let p = t[split as int].parent->0;
    let list = t[p as int].children;
    let inner = t[split as int].children;
    assert(list.contains(split));
    let index = list.index_of(split);
    assert(0 <= index < list.len() && list[index] == split);
    assert(list.no_duplicates());
    let spliced = split_container::spliced(list, split, inner);
    forest::lemma_parent_not_within(t, split, p);
    forest::lemma_within_self(t, split);
    assert(r[p as int].children == spliced);
    if i == index {
        let c = focus::lemma_way_down(t, x, split);
        let m = choose|m: int| 0 <= m < inner.len() && inner[m] == c;
        lemma_child_flattened(t, split, x, split, m);
        assert(spliced[index + m] == inner[m]);
        index + m
    } else {
        lemma_child_flattened(t, split, x, p, i);
        if i < index {
            assert(spliced[i] == list[i]);
            i
        } else {
            assert(spliced[i + inner.len() - 1] == list[i]);
            i + inner.len() - 1
        }
    }
}

/// A list of which two values are wrapped, seen from its first `k` values.
pub proof fn lemma_collapsed_pair(
    list: Seq<ContainerId>,
    i: int,
    j: int,
    split: ContainerId,
    k: int,
)
    requires
        list.no_duplicates(),
        0 <= i < j < list.len(),
        0 <= k <= list.len(),
    ensures
        split_container::collapsed(list.take(k), seq![list[i], list[j]], split) == if k <= i {
            list.take(k)
        } else if k <= j {
            list.take(k).update(i, split)
        } else {
            list.take(k).update(i, split).remove(j)
        },
        split_container::any_target(list.take(k), seq![list[i], list[j]]) <==> k > i,
    decreases k,
{
    let targets = seq![list[i], list[j]];
    let part = list.take(k);
    assert(targets[0] == list[i] && targets[1] == list[j]);
    assert forall|m: int| 0 <= m < list.len() implies (#[trigger] targets.contains(list[m])
        <==> m == i || m == j) by {
        if m == i {
            assert(targets[0] == list[m]);
        }
        if m == j {
            assert(targets[1] == list[m]);
        }
    }
    if k > 0 {
        lemma_collapsed_pair(list, i, j, split, k - 1);
        assert(part.drop_last() =~= list.take(k - 1));
        assert(part.last() == list[k - 1]);
        assert(targets.contains(list[k - 1]) <==> k - 1 == i || k - 1 == j);
        assert(split_container::any_target(part, targets) <==> k > i) by {
            if k > i {
                assert(part[i] == list[i]);
                assert(targets.contains(part[i]));
            } else if split_container::any_target(part, targets) {
                let m = choose|m: int| 0 <= m < part.len() && targets.contains(#[trigger] part[m]);
                assert(part[m] == list[m]);
            }
        }
    }
    assert(split_container::collapsed(part, targets, split) =~= if k <= i {
        list.take(k)
    } else if k <= j {
        list.take(k).update(i, split)
    } else {
        list.take(k).update(i, split).remove(j)
    });
}

/// Whatever is within a container stays there when some of the children of
/// `p` are wrapped.
proof fn lemma_within_wrapped(
    t: Forest,
    split: ContainerId,
    p: ContainerId,
    targets: Seq<ContainerId>,
    x: ContainerId,
    c: ContainerId,
    n: nat,
)
    requires
        forest::well_formed(t),
        split_container::wrappable(t, split, p, targets),
        x < t.len(),
        x != split,
        forest::above(t, x, n) == Some(c),
    ensures
        forest::within(split_container::wrapped(t, split, p, targets), x, c),
    decreases n,
{
    let r = split_container::wrapped(t, split, p, targets);
    if n == 0 {
        forest::lemma_within_self(r, x);
    } else {
        let rank = choose|rank: Seq<nat>| forest::ranked(t, rank);
        assert(forest::above(t, x, 0) == Some(x));
        assert(forest::above(t, x, 1) == t[x as int].parent);
        if t[x as int].parent is None {
            forest::lemma_above_none(t, x, 1, (n - 1) as nat);
        }
        let q = t[x as int].parent->0;
        forest::lemma_above_rank(t, rank, x, 1);
        forest::lemma_above_add(t, x, 1, (n - 1) as nat);
        assert(t[q as int].children.contains(x));
        assert(q != split);
        lemma_within_wrapped(t, split, p, targets, q, c, (n - 1) as nat);
        if x != p && targets.contains(x) {
            assert(t[p as int].children.contains(x));
            assert(q == p);
            assert(r[x as int].parent == Some(split));
            assert(r[split as int].parent == Some(p));
            forest::lemma_within_up(r, x, split);
            forest::lemma_within_up(r, split, p);
            forest::lemma_within_trans(r, x, split, p);
        } else {
            assert(r[x as int].parent == Some(q));
            forest::lemma_within_up(r, x, q);
        }
        forest::lemma_within_trans(r, x, q, c);
    }
}

/// Whether `x` is below a child of `p` between the ones with the indices `i`
/// and `j`, and `y` is below the latter.
pub open spec fn is_passed(
    t: Forest,
    p: ContainerId,
    i: int,
    j: int,
    x: ContainerId,
    y: ContainerId,
) -> bool {
    &&& forest::within(t, y, t[p as int].children[j])
    &&& exists|k: int|
        i < k < j && forest::within(t, x, #[trigger] t[p as int].children[k])
}

/// Wrapping two children of `p` keeps the order in which everything is laid
/// out, except that the second one passes whatever is between the two.
pub proof fn law_wrapping_a_pair_keeps_the_order(
    t: Forest,
    split: ContainerId,
    p: ContainerId,
    i: int,
    j: int,
    x: ContainerId,
    y: ContainerId,
)
    requires
        forest::well_formed(t),
        0 <= i < j < t[p as int].children.len(),
        split_container::wrappable(
            t,
            split,
            p,
            seq![t[p as int].children[i], t[p as int].children[j]],
        ),
        x < t.len(),
        y < t.len(),
        x != split,
        y != split,
        laid_before(t, x, y),
        !is_passed(t, p, i, j, x, y),
    ensures
        laid_before(
            split_container::wrapped(
                t,
                split,
                p,
                seq![t[p as int].children[i], t[p as int].children[j]],
            ),
            x,
            y,
        ),
{
    let list = t[p as int].children;
    let targets = seq![list[i], list[j]];
    let r = split_container::wrapped(t, split, p, targets);
    let (q, k, m) = choose|q: ContainerId, k: int, m: int| parts_at(t, x, y, q, k, m);
    let n = choose|n: nat| #[trigger] forest::above(t, x, n) == Some(t[q as int].children[k]);
    lemma_within_wrapped(t, split, p, targets, x, t[q as int].children[k], n);
    let n = choose|n: nat| #[trigger] forest::above(t, y, n) == Some(t[q as int].children[m]);
    lemma_within_wrapped(t, split, p, targets, y, t[q as int].children[m], n);
    if q == p {
        assert(list.no_duplicates());
        if k == i && m == j {
            assert(r[split as int].children == targets);
            assert(parts_at(r, x, y, split, 0, 1));
        } else {
            let a = lemma_place_wrapped(t, split, p, i, j, x, k);
            let b = lemma_place_wrapped(t, split, p, i, j, y, m);
            if m == j && i < k {
                assert(is_passed(t, p, i, j, x, y));
            }
            assert(parts_at(r, x, y, p, a, b));
        }
    } else {
        assert(q != split);
        assert(r[q as int].children == t[q as int].children) by {
            if targets.contains(q) {
                assert(t[p as int].children.contains(q));
            }
        }
        assert(parts_at(r, x, y, q, k, m));
    }
}

/// Where what is below a child of `p` goes.
proof fn lemma_place_wrapped(
    t: Forest,
    split: ContainerId,
    p: ContainerId,
    i: int,
    j: int,
    x: ContainerId,
    k: int,
) -> (a: int)
    requires
        forest::well_formed(t),
        0 <= i < j < t[p as int].children.len(),
        split_container::wrappable(
            t,
            split,
            p,
            seq![t[p as int].children[i], t[p as int].children[j]],
        ),
        0 <= k < t[p as int].children.len(),
        x < t.len(),
        forest::within(
            split_container::wrapped(
                t,
                split,
                p,
                seq![t[p as int].children[i], t[p as int].children[j]],
            ),
            x,
            t[p as int].children[k],
        ),
    ensures
        ({
            let r = split_container::wrapped(
                t,
                split,
                p,
                seq![t[p as int].children[i], t[p as int].children[j]],
            );
            &&& 0 <= a < r[p as int].children.len()
            &&& forest::within(r, x, r[p as int].children[a])
            &&& a == if k == j {
                i
            } else if k > j {
                k - 1
            } else {
                k
            }
        }),
{
    let list = t[p as int].children;
    let targets = seq![list[i], list[j]];
    let r = split_container::wrapped(t, split, p, targets);
    assert(list.no_duplicates());
    lemma_collapsed_pair(list, i, j, split, list.len() as int);
    assert(list.take(list.len() as int) =~= list);
    let new = r[p as int].children;
    assert(new == list.update(i, split).remove(j));
    let c = list[k];
    if k == i || k == j {
        assert(targets[0] == list[i] && targets[1] == list[j]);
        assert(targets.contains(c));
        assert(list.contains(c));
        forest::lemma_parent_not_within(t, c, p);
        assert(c != split);
        assert(r[c as int].parent == Some(split));
        forest::lemma_within_up(r, c, split);
        forest::lemma_within_trans(r, x, c, split);
        assert(new[i] == split);
        i
    } else if k > j {
        assert(new[k - 1] == c);
        k - 1
    } else {
        assert(new[k] == c);
        k
    }
}

} // verus!
