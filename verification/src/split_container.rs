//! Wrapping containers in a split container, and flattening one.

use vstd::prelude::*;

use crate::container::{ContainerId, Node};
use crate::error::CommandError;
use crate::forest::{self, Forest};
use crate::lists::{copied, position};
use crate::tree::Tree;

verus! {

/// A list in which `split` stands for all of `targets`, in the place of the
/// first one of them.
pub open spec fn collapsed(
    list: Seq<ContainerId>,
    targets: Seq<ContainerId>,
    split: ContainerId,
) -> Seq<ContainerId>
    decreases list.len(),
{
    if list.len() == 0 {
        Seq::empty()
    } else {
        let init = collapsed(list.drop_last(), targets, split);
        if !targets.contains(list.last()) {
            init.push(list.last())
        } else if any_target(list.drop_last(), targets) {
            init
        } else {
            init.push(split)
        }
    }
}

/// Whether any of `targets` is part of a list.
pub open spec fn any_target(list: Seq<ContainerId>, targets: Seq<ContainerId>) -> bool {
    exists|i: int| 0 <= i < list.len() && targets.contains(#[trigger] list[i])
}

/// The part of a list that consists of `targets`.
pub open spec fn chosen(list: Seq<ContainerId>, targets: Seq<ContainerId>) -> Seq<ContainerId> {
    list.filter(|x: ContainerId| targets.contains(x))
}

/// The tree in which `split` has taken the place of some children of `p`,
/// which have become the children of `split`.
pub open spec fn wrapped(
    t: Forest,
    split: ContainerId,
    p: ContainerId,
    targets: Seq<ContainerId>,
) -> Forest {
    Seq::new(
        t.len(),
        |i: int|
            if i == split {
                Node {
                    parent: Some(p),
                    children: targets,
                    focus: chosen(t[p as int].focus, targets),
                    ..t[i]
                }
            } else if i == p {
                Node {
                    children: collapsed(t[p as int].children, targets, split),
                    focus: collapsed(t[p as int].focus, targets, split),
                    ..t[i]
                }
            } else if targets.contains(i as usize) {
                Node { parent: Some(split), ..t[i] }
            } else {
                t[i]
            },
    )
}

/// Whether `split` is a new split, and `targets` are children of `p`.
pub open spec fn wrappable(
    t: Forest,
    split: ContainerId,
    p: ContainerId,
    targets: Seq<ContainerId>,
) -> bool {
    &&& split < t.len()
    &&& p < t.len()
    &&& split != p
    &&& t[split as int].parent is None
    &&& t[split as int].children.len() == 0
    &&& !t[split as int].props.kind.spec_is_window()
    &&& targets.len() > 0
    &&& targets.no_duplicates()
    &&& forall|x: ContainerId| #[trigger]
        targets.contains(x) ==> t[p as int].children.contains(x)
}

proof fn lemma_last(list: Seq<ContainerId>)
    requires
        list.len() > 0,
    ensures
        forall|x: ContainerId| #[trigger]
            list.contains(x) <==> list.drop_last().contains(x) || x == list.last(),
{
    let init = list.drop_last();
    assert forall|x: ContainerId| #[trigger] list.contains(x) <==> init.contains(x) || x
        == list.last() by {
        if init.contains(x) {
            let i = choose|i: int| 0 <= i < init.len() && init[i] == x;
            assert(list[i] == x);
        }
        if list.contains(x) && x != list.last() {
            let i = choose|i: int| 0 <= i < list.len() && list[i] == x;
            assert(init[i] == x);
        }
    }
}

proof fn lemma_collapsed(list: Seq<ContainerId>, targets: Seq<ContainerId>, split: ContainerId)
    requires
        !list.contains(split),
    ensures
        forall|x: ContainerId| #[trigger]
            collapsed(list, targets, split).contains(x) <==> if x == split {
                any_target(list, targets)
            } else {
                list.contains(x) && !targets.contains(x)
            },
        list.no_duplicates() ==> collapsed(list, targets, split).no_duplicates(),
    decreases list.len(),
{
    if list.len() > 0 {
        let init = list.drop_last();
        let last = list.last();
        let shrunk = collapsed(init, targets, split);
        lemma_last(list);
        lemma_collapsed(init, targets, split);
        assert(any_target(list, targets) <==> any_target(init, targets) || targets.contains(last)) by {
            if any_target(init, targets) {
                let i = choose|i: int| 0 <= i < init.len() && targets.contains(#[trigger] init[i]);
                assert(targets.contains(list[i]));
            }
            if targets.contains(last) {
                assert(targets.contains(list[list.len() - 1]));
            }
            if any_target(list, targets) && !targets.contains(last) {
                let i = choose|i: int| 0 <= i < list.len() && targets.contains(#[trigger] list[i]);
                assert(targets.contains(init[i]));
            }
        }
        assert forall|y: ContainerId, x: ContainerId| #[trigger]
            shrunk.push(y).contains(x) <==> shrunk.contains(x) || x == y by {
            if shrunk.contains(x) {
                let i = choose|i: int| 0 <= i < shrunk.len() && shrunk[i] == x;
                assert(shrunk.push(y)[i] == x);
            }
            if x == y {
                assert(shrunk.push(y)[shrunk.len() as int] == x);
            }
        }
        assert forall|x: ContainerId| #[trigger]
            collapsed(list, targets, split).contains(x) <==> if x == split {
                any_target(list, targets)
            } else {
                list.contains(x) && !targets.contains(x)
            } by {
            assert(shrunk.contains(x) <==> if x == split {
                any_target(init, targets)
            } else {
                init.contains(x) && !targets.contains(x)
            });
            assert(list.contains(x) <==> init.contains(x) || x == last);
        }
        if list.no_duplicates() {
            assert(init.no_duplicates());
            assert(!init.contains(last));
            assert(!shrunk.contains(last));
            assert(shrunk.contains(split) <==> any_target(init, targets));
        }
    }
}

proof fn lemma_chosen(list: Seq<ContainerId>, targets: Seq<ContainerId>)
    ensures
        forall|x: ContainerId| #[trigger]
            chosen(list, targets).contains(x) <==> list.contains(x) && targets.contains(x),
        list.no_duplicates() ==> chosen(list, targets).no_duplicates(),
    decreases list.len(),
{
    reveal(Seq::filter);
    if list.len() > 0 {
        let init = list.drop_last();
        let last = list.last();
        let part = chosen(init, targets);
        lemma_chosen(init, targets);
        lemma_last(list);
        assert forall|x: ContainerId| #[trigger]
            chosen(list, targets).contains(x) <==> list.contains(x) && targets.contains(x) by {
            assert(part.contains(x) <==> init.contains(x) && targets.contains(x));
            if targets.contains(last) {
                assert(chosen(list, targets) == part.push(last));
                if part.contains(x) {
                    let i = choose|i: int| 0 <= i < part.len() && part[i] == x;
                    assert(part.push(last)[i] == x);
                }
                if x == last {
                    assert(part.push(last)[part.len() as int] == x);
                }
            } else {
                assert(chosen(list, targets) == part);
            }
            assert(list.contains(x) <==> init.contains(x) || x == last);
        }
        if list.no_duplicates() {
            assert(init.no_duplicates());
            assert(!init.contains(last));
            assert(!part.contains(last));
        }
    }
}

/// Wrapping keeps the tree well-formed.
pub proof fn lemma_wrapped(
    t: Forest,
    split: ContainerId,
    p: ContainerId,
    targets: Seq<ContainerId>,
)
    requires
        forest::well_formed(t),
        wrappable(t, split, p, targets),
    ensures
        forest::well_formed(wrapped(t, split, p, targets)),
{
    let r = wrapped(t, split, p, targets);
    let children = t[p as int].children;
    let focus = t[p as int].focus;
    assert(!children.contains(split));
    assert(!focus.contains(split));
    lemma_collapsed(children, targets, split);
    lemma_collapsed(focus, targets, split);
    lemma_chosen(focus, targets);
    assert(targets.contains(targets[0]));
    assert(any_target(children, targets)) by {
        assert(children.contains(targets[0]));
        let i = choose|i: int| 0 <= i < children.len() && children[i] == targets[0];
        assert(targets.contains(children[i]));
    }
    assert(any_target(focus, targets)) by {
        assert(focus.contains(targets[0]));
        let i = choose|i: int| 0 <= i < focus.len() && focus[i] == targets[0];
        assert(targets.contains(focus[i]));
    }
    assert(!targets.contains(split));
    assert forall|x: ContainerId| #[trigger] targets.contains(x) implies x < t.len() && x != p
        && t[x as int].parent == Some(p) by {
        assert(children.contains(x));
        forest::lemma_parent_not_within(t, x, p);
    }
    assert forall|x: ContainerId| #[trigger] t[p as int].focus.contains(x) <==> children.contains(x) by {
    }
    // Every rank is doubled, so that there is room for the new level.
    let rank = choose|rank: Seq<nat>| forest::ranked(t, rank);
    let doubled = Seq::<nat>::new(
        t.len(),
        |i: int|
            if i == split {
                2 * rank[p as int] + 1
            } else {
                2 * rank[i]
            },
    );
    assert(forest::ranked(r, doubled)) by {
        assert forall|c: ContainerId|
            #![trigger r[c as int].parent]
            c < r.len() implies match r[c as int].parent {
            Some(q) => q < r.len() && doubled[q as int] < doubled[c as int],
            None => true,
        } by {
            if c != split && targets.contains(c) {
                assert(t[c as int].parent == Some(p));
            } else if c != split {
                assert(r[c as int].parent == t[c as int].parent);
                if let Some(q) = t[c as int].parent {
                    assert(t[q as int].children.contains(c));
                    assert(q != split);
                }
            }
        }
    }
    assert forall|c: ContainerId|
        #![trigger r[c as int].parent]
        c < r.len() implies match r[c as int].parent {
        Some(q) => q < r.len() && r[q as int].children.contains(c),
        None => true,
    } by {
        if c == split {
            assert(r[p as int].children == collapsed(children, targets, split));
        } else if targets.contains(c) {
            assert(r[split as int].children == targets);
        } else {
            assert(r[c as int].parent == t[c as int].parent);
            if let Some(q) = t[c as int].parent {
                assert(t[q as int].children.contains(c));
                assert(q != split);
                if q == p {
                    assert(collapsed(children, targets, split).contains(c));
                }
            }
        }
    }
    assert forall|q: ContainerId, c: ContainerId|
        #![trigger r[q as int].children.contains(c)]
        q < r.len() && r[q as int].children.contains(c) implies c < r.len() && r[c as int].parent
        == Some(q) by {
        if q == split {
            assert(targets.contains(c));
        } else if q == p {
            assert(collapsed(children, targets, split).contains(c));
            if c != split {
                assert(children.contains(c));
            }
        } else {
            assert(t[q as int].children.contains(c));
            if targets.contains(c) {
                assert(t[c as int].parent == Some(p));
            }
        }
    }
    assert forall|q: ContainerId, c: ContainerId|
        #![trigger r[q as int].focus.contains(c)]
        q < r.len() implies (r[q as int].focus.contains(c) <==> r[q as int].children.contains(c)) by {
        assert(t[p as int].focus.contains(c) <==> children.contains(c));
        if q == split {
            assert(r[q as int].focus == chosen(focus, targets));
            assert(chosen(focus, targets).contains(c) <==> focus.contains(c) && targets.contains(c));
        } else if q == p {
            assert(collapsed(focus, targets, split).contains(c) <==> collapsed(
                children,
                targets,
                split,
            ).contains(c));
        } else {
            assert(t[q as int].focus.contains(c) <==> t[q as int].children.contains(c));
        }
    }
    assert forall|q: ContainerId| #![trigger r[q as int].children] q < r.len() implies r[q as int].children.no_duplicates() by {
        assert(t[q as int].children.no_duplicates());
        assert(children.no_duplicates());
    }
    assert forall|q: ContainerId| #![trigger r[q as int].focus] q < r.len() implies r[q as int].focus.no_duplicates() by {
        assert(t[q as int].focus.no_duplicates());
        assert(focus.no_duplicates());
    }
    assert forall|w: ContainerId|
        #![trigger r[w as int].props]
        w < r.len() && r[w as int].props.kind.spec_is_window() implies r[w as int].children.len() == 0 by {
        assert(t[w as int].props == r[w as int].props);
        assert(t[p as int].props == r[p as int].props);
        if w == p {
            assert(t[p as int].children.contains(targets[0]));
        }
    }
}

/// Computes [`collapsed`].
fn collapse(list: &Vec<ContainerId>, targets: &Vec<ContainerId>, split: ContainerId) -> (r: Vec<
    ContainerId,
>)
    ensures
        r@ == collapsed(list@, targets@, split),
{
    let mut r: Vec<ContainerId> = Vec::new();
    let mut is_placed = false;
    let mut i: usize = 0;
    while i < list.len()
        invariant
            i <= list.len(),
            r@ == collapsed(list@.take(i as int), targets@, split),
            is_placed == any_target(list@.take(i as int), targets@),
        decreases list.len() - i,
    {
        let ghost before = list@.take(i as int);
        let ghost now = list@.take(i + 1);
        assert(now.drop_last() =~= before);
        assert(now.last() == list@[i as int]);
        let is_target = position(targets, list[i]).is_some();
        assert(is_placed || is_target == any_target(now, targets@)) by {
            if is_target {
                assert(targets@.contains(now[i as int]));
            } else if any_target(now, targets@) {
                let k = choose|k: int| 0 <= k < now.len() && targets@.contains(#[trigger] now[k]);
                assert(before[k] == now[k]);
            }
        }
        assert(is_placed ==> any_target(now, targets@)) by {
            if is_placed {
                let k = choose|k: int|
                    0 <= k < before.len() && targets@.contains(#[trigger] before[k]);
                assert(now[k] == before[k]);
            }
        }
        if !is_target {
            r.push(list[i]);
        } else if !is_placed {
            r.push(split);
            is_placed = true;
        }
        i += 1;
    }
    assert(list@.take(i as int) =~= list@);
    r
}

/// Computes [`chosen`].
fn choose_targets(list: &Vec<ContainerId>, targets: &Vec<ContainerId>) -> (r: Vec<ContainerId>)
    ensures
        r@ == chosen(list@, targets@),
{
    let mut r: Vec<ContainerId> = Vec::new();
    let mut i: usize = 0;
    proof {
        reveal(Seq::filter);
    }
    while i < list.len()
        invariant
            i <= list.len(),
            r@ == chosen(list@.take(i as int), targets@),
        decreases list.len() - i,
    {
        proof {
            reveal(Seq::filter);
            assert(list@.take(i + 1).drop_last() =~= list@.take(i as int));
        }
        if position(targets, list[i]).is_some() {
            r.push(list[i]);
        }
        i += 1;
    }
    assert(list@.take(i as int) =~= list@);
    r
}

/// The tree in which the first `n` of `targets` know `p` as their parent.
spec fn adopted(t: Forest, p: ContainerId, targets: Seq<ContainerId>, n: int) -> Forest {
    Seq::new(
        t.len(),
        |i: int|
            if targets.take(n).contains(i as usize) {
                Node { parent: Some(p), ..t[i] }
            } else {
                t[i]
            },
    )
}

proof fn lemma_adopted(t: Forest, p: ContainerId, targets: Seq<ContainerId>, n: int)
    requires
        t.len() <= usize::MAX,
        0 <= n < targets.len(),
        targets[n] < t.len(),
    ensures
        adopted(t, p, targets, n + 1) == adopted(t, p, targets, n).update(
            targets[n] as int,
            Node { parent: Some(p), ..adopted(t, p, targets, n)[targets[n] as int] },
        ),
{
    let before = targets.take(n);
    let now = targets.take(n + 1);
    let next = adopted(t, p, targets, n).update(
        targets[n] as int,
        Node { parent: Some(p), ..adopted(t, p, targets, n)[targets[n] as int] },
    );
    assert(now.drop_last() =~= before);
    lemma_last(now);
    assert forall|k: int| 0 <= k < t.len() implies adopted(t, p, targets, n + 1)[k] == next[k] by {
        assert(now.contains(k as usize) <==> before.contains(k as usize) || k == targets[n]);
    }
    assert(adopted(t, p, targets, n + 1) =~= next);
}

/// Puts a new split container in the place of some children of `parent`.
///
/// The targets become the children of the split in the given order, and keep
/// the order in which they were last focused.
pub fn wrap_in_split_container(
    tree: &mut Tree,
    split: ContainerId,
    parent: ContainerId,
    targets: &Vec<ContainerId>,
)
    requires
        old(tree).wf(),
        wrappable(old(tree)@, split, parent, targets@),
    ensures
        final(tree).wf(),
        final(tree)@ == wrapped(old(tree)@, split, parent, targets@),
{
    let ghost t = tree@;
    let children = collapse(&tree.container(parent).children, targets, split);
    let focus_order = collapse(&tree.container(parent).focus_order, targets, split);
    let split_focus_order = choose_targets(&tree.container(parent).focus_order, targets);
    let split_children = copied(targets);
    assert(adopted(t, split, targets@, 0) =~= t);
    let mut i: usize = 0;
    while i < targets.len()
        invariant
            i <= targets.len(),
            t == old(tree)@,
            t.len() <= usize::MAX,
            targets@.no_duplicates(),
            forall|x: ContainerId| #[trigger] targets@.contains(x) ==> x < t.len(),
            tree@ == adopted(t, split, targets@, i as int),
        decreases targets.len() - i,
    {
        let child = targets[i];
        assert(targets@.contains(child));
        tree.put_parent(child, Some(split));
        proof {
            lemma_adopted(t, split, targets@, i as int);
        }
        i += 1;
    }
    assert(targets@.take(i as int) =~= targets@);
    tree.put_parent(split, Some(parent));
    tree.put_children(split, split_children, split_focus_order);
    tree.put_children(parent, children, focus_order);
    proof {
        assert forall|x: ContainerId| #[trigger] targets@.contains(x) implies x != split && x
            != parent by {
            forest::lemma_parent_not_within(t, x, parent);
        }
        assert(tree@ =~= wrapped(t, split, parent, targets@));
        lemma_wrapped(t, split, parent, targets@);
    }
}

/// A list in which the children of `split` stand in its place.
pub open spec fn spliced(
    list: Seq<ContainerId>,
    split: ContainerId,
    inner: Seq<ContainerId>,
) -> Seq<ContainerId> {
    let index = list.index_of(split);
    list.take(index) + inner + list.skip(index + 1)
}

/// The tree in which the children of `split` have taken its place. The split
/// is left detached and empty.
pub open spec fn flattened(t: Forest, split: ContainerId) -> Forest {
    let p = t[split as int].parent->0;
    Seq::new(
        t.len(),
        |i: int|
            if i == split {
                Node { parent: None, children: Seq::empty(), focus: Seq::empty(), ..t[i] }
            } else if i == p {
                Node {
                    children: spliced(t[i].children, split, t[split as int].children),
                    focus: spliced(t[i].focus, split, t[split as int].focus),
                    ..t[i]
                }
            } else if t[i].parent == Some(split) {
                Node { parent: Some(p), ..t[i] }
            } else {
                t[i]
            },
    )
}

proof fn lemma_spliced(list: Seq<ContainerId>, split: ContainerId, inner: Seq<ContainerId>)
    requires
        list.contains(split),
        list.no_duplicates(),
        inner.no_duplicates(),
        forall|x: ContainerId| #[trigger] inner.contains(x) ==> !list.contains(x),
    ensures
        forall|x: ContainerId| #[trigger]
            spliced(list, split, inner).contains(x) <==> (list.contains(x) && x != split)
                || inner.contains(x),
        spliced(list, split, inner).no_duplicates(),
{
    let index = list.index_of(split);
    assert(0 <= index < list.len() && list[index] == split);
    let r = spliced(list, split, inner);
    assert forall|x: ContainerId| #[trigger] r.contains(x) <==> (list.contains(x) && x != split)
        || inner.contains(x) by {
        if r.contains(x) {
            let k = choose|k: int| 0 <= k < r.len() && r[k] == x;
            if k < index {
                assert(list[k] == x);
            } else if k < index + inner.len() {
                assert(inner[k - index] == x);
            } else {
                assert(list[k - inner.len() + 1] == x);
            }
        }
        if list.contains(x) && x != split {
            let k = choose|k: int| 0 <= k < list.len() && list[k] == x;
            if k < index {
                assert(r[k] == x);
            } else {
                assert(r[k + inner.len() - 1] == x);
            }
        }
        if inner.contains(x) {
            let k = choose|k: int| 0 <= k < inner.len() && inner[k] == x;
            assert(r[index + k] == x);
        }
    }
    assert forall|k: int, m: int| 0 <= k < m < r.len() implies r[k] != r[m] by {
        if index <= k < index + inner.len() {
            assert(inner.contains(inner[k - index]));
        }
        if index <= m < index + inner.len() {
            assert(inner.contains(inner[m - index]));
        }
        assert(k < index ==> r[k] == list[k] && list.contains(list[k]));
        assert(m < index ==> r[m] == list[m]);
        assert(k >= index + inner.len() ==> r[k] == list[k - inner.len() + 1]);
        assert(m >= index + inner.len() ==> r[m] == list[m - inner.len() + 1] && list.contains(
            list[m - inner.len() + 1],
        ));
    }
}

/// Flattening keeps the tree well-formed.
pub proof fn lemma_flattened(t: Forest, split: ContainerId)
    requires
        forest::well_formed(t),
        split < t.len(),
        t[split as int].parent is Some,
    ensures
        forest::well_formed(flattened(t, split)),
{
    let r = flattened(t, split);
    let p = t[split as int].parent->0;
    let outer = t[p as int];
    let inner = t[split as int];
    assert(outer.children.contains(split));
    assert(outer.focus.contains(split));
    forest::lemma_parent_not_within(t, split, p);
    forest::lemma_within_self(t, split);
    assert(p != split);
    assert forall|x: ContainerId| #[trigger] inner.children.contains(x) implies x < t.len() && x
        != split && x != p && t[x as int].parent == Some(split) && !outer.children.contains(x) by {
        forest::lemma_parent_not_within(t, x, split);
        forest::lemma_within_self(t, x);
        if x == p {
            forest::lemma_within_up(t, split, p);
        }
        if outer.children.contains(x) {
            assert(t[x as int].parent == Some(p));
        }
    }
    assert forall|x: ContainerId| #[trigger] inner.focus.contains(x) implies !outer.focus.contains(
        x,
    ) by {
        assert(inner.children.contains(x));
        assert(outer.focus.contains(x) <==> outer.children.contains(x));
    }
    lemma_spliced(outer.children, split, inner.children);
    lemma_spliced(outer.focus, split, inner.focus);
    let rank = choose|rank: Seq<nat>| forest::ranked(t, rank);
    assert(rank[p as int] < rank[split as int]);
    assert(forest::ranked(r, rank)) by {
        assert forall|c: ContainerId|
            #![trigger r[c as int].parent]
            c < r.len() implies match r[c as int].parent {
            Some(q) => q < r.len() && rank[q as int] < rank[c as int],
            None => true,
        } by {
            assert(match t[c as int].parent {
                Some(q) => q < t.len() && rank[q as int] < rank[c as int],
                None => true,
            });
        }
    }
    assert forall|c: ContainerId|
        #![trigger r[c as int].parent]
        c < r.len() implies match r[c as int].parent {
        Some(q) => q < r.len() && r[q as int].children.contains(c),
        None => true,
    } by {
        assert(match t[c as int].parent {
            Some(q) => q < t.len() && t[q as int].children.contains(c),
            None => true,
        });
        if c != split && t[c as int].parent == Some(split) {
            assert(c != p) by {
                assert(inner.children.contains(c));
            }
        }
        assert(r[p as int].children == spliced(outer.children, split, inner.children));
    }
    assert forall|q: ContainerId, c: ContainerId|
        #![trigger r[q as int].children.contains(c)]
        q < r.len() && r[q as int].children.contains(c) implies c < r.len() && r[c as int].parent
        == Some(q) by {
        if q == p {
            assert(spliced(outer.children, split, inner.children).contains(c));
            if inner.children.contains(c) {
            } else {
                assert(outer.children.contains(c));
                assert(t[c as int].parent == Some(p));
                assert(c != p) by {
                    forest::lemma_parent_not_within(t, c, p);
                    forest::lemma_within_self(t, c);
                }
            }
        } else if q != split {
            assert(t[q as int].children.contains(c));
            assert(t[c as int].parent == Some(q));
        }
    }
    assert forall|q: ContainerId, c: ContainerId|
        #![trigger r[q as int].focus.contains(c)]
        q < r.len() implies (r[q as int].focus.contains(c) <==> r[q as int].children.contains(c)) by {
        assert(outer.focus.contains(c) <==> outer.children.contains(c));
        assert(inner.focus.contains(c) <==> inner.children.contains(c));
        assert(t[q as int].focus.contains(c) <==> t[q as int].children.contains(c));
        if q == p {
            assert(spliced(outer.focus, split, inner.focus).contains(c) <==> spliced(
                outer.children,
                split,
                inner.children,
            ).contains(c));
        }
    }
    assert forall|w: ContainerId|
        #![trigger r[w as int].props]
        w < r.len() && r[w as int].props.kind.spec_is_window() implies r[w as int].children.len() == 0 by {
        assert(t[w as int].props == r[w as int].props);
        assert(t[p as int].props == r[p as int].props);
    }
}

/// Wrapping a single container puts the split in its place.
pub proof fn lemma_collapsed_single(list: Seq<ContainerId>, x: ContainerId, split: ContainerId)
    requires
        list.no_duplicates(),
    ensures
        collapsed(list, seq![x], split) == forest::replaced(
            list,
            x,
            split,
        ),
    decreases list.len(),
{
    let targets = seq![x];
    assert(targets[0] == x);
    assert forall|y: ContainerId| targets.contains(y) <==> y == x by {
        if y == x {
            assert(targets[0] == y);
        }
    }
    if list.len() > 0 {
        let init = list.drop_last();
        lemma_collapsed_single(init, x, split);
        if list.last() == x && any_target(init, targets) {
            let i = choose|i: int| 0 <= i < init.len() && targets.contains(#[trigger] init[i]);
            assert(list[i] == list[list.len() - 1]);
        }
    }
    assert(collapsed(list, targets, split) =~= forest::replaced(
        list,
        x,
        split,
    ));
}

/// Of a list in which `x` occurs once, choosing `x` leaves just that.
pub proof fn lemma_chosen_single(list: Seq<ContainerId>, x: ContainerId)
    requires
        list.no_duplicates(),
    ensures
        chosen(list, seq![x]) == if list.contains(x) {
            seq![x]
        } else {
            Seq::empty()
        },
    decreases list.len(),
{
    reveal(Seq::filter);
    let targets = seq![x];
    assert(targets[0] == x);
    if list.len() > 0 {
        let init = list.drop_last();
        lemma_chosen_single(init, x);
        if init.contains(x) {
            let i = choose|i: int| 0 <= i < init.len() && init[i] == x;
            assert(list[i] == x);
            assert(list[list.len() - 1] != x);
        } else if list.contains(x) {
            let i = choose|i: int| 0 <= i < list.len() && list[i] == x;
            if i < list.len() - 1 {
                assert(init[i] == x);
            }
            assert(targets.contains(list.last()));
        }
        assert(targets.contains(list.last()) <==> list.last() == x);
        if list.last() == x {
            assert(list.contains(x));
        }
    }
    assert(chosen(list, targets) =~= if list.contains(x) {
        seq![x]
    } else {
        Seq::empty()
    });
}

/// The part of a list that is wrapped, seen from the first `k` values of the
/// list.
proof fn lemma_collapsed_part(
    list: Seq<ContainerId>,
    i: int,
    j: int,
    split: ContainerId,
    k: int,
)
    requires
        list.no_duplicates(),
        0 <= i < j <= list.len(),
        0 <= k <= list.len(),
    ensures
        collapsed(list.take(k), list.subrange(i, j), split) == if k <= i {
            list.take(k)
        } else if k <= j {
            list.take(i).push(split)
        } else {
            list.take(i).push(split) + list.subrange(j, k)
        },
        any_target(list.take(k), list.subrange(i, j)) <==> k > i,
    decreases k,
{
    let targets = list.subrange(i, j);
    let part = list.take(k);
    assert forall|m: int| 0 <= m < list.len() implies (#[trigger] targets.contains(list[m])
        <==> i <= m < j) by {
        if i <= m < j {
            assert(targets[m - i] == list[m]);
        }
        if targets.contains(list[m]) {
            let n = choose|n: int| 0 <= n < targets.len() && targets[n] == list[m];
            assert(list[i + n] == list[m]);
        }
    }
    if k > 0 {
        lemma_collapsed_part(list, i, j, split, k - 1);
        assert(part.drop_last() =~= list.take(k - 1));
        assert(part.last() == list[k - 1]);
        assert(targets.contains(list[k - 1]) <==> i <= k - 1 < j);
        assert(any_target(part, targets) <==> k > i) by {
            if k > i {
                assert(part[i] == list[i]);
                assert(targets.contains(part[i]));
            } else if any_target(part, targets) {
                let m = choose|m: int| 0 <= m < part.len() && targets.contains(#[trigger] part[m]);
                assert(part[m] == list[m]);
            }
        }
    }
    assert(collapsed(part, targets, split) =~= if k <= i {
        list.take(k)
    } else if k <= j {
        list.take(i).push(split)
    } else {
        list.take(i).push(split) + list.subrange(j, k)
    });
}

/// Wrapping containers that are next to each other keeps the order in which
/// everything is laid out: with the children of the split in its place, the
/// children of the parent are the same as before.
pub proof fn law_wrapping_keeps_the_visual_order(
    t: Forest,
    split: ContainerId,
    p: ContainerId,
    i: int,
    j: int,
)
    requires
        forest::well_formed(t),
        0 <= i < j <= t[p as int].children.len(),
        wrappable(t, split, p, t[p as int].children.subrange(i, j)),
    ensures
        ({
            let r = wrapped(t, split, p, t[p as int].children.subrange(i, j));
            spliced(r[p as int].children, split, r[split as int].children)
                == t[p as int].children
        }),
{
    let list = t[p as int].children;
    let targets = list.subrange(i, j);
    assert(t[p as int].children.no_duplicates());
    assert(!list.contains(split)) by {
        if t[p as int].children.contains(split) {
            assert(t[split as int].parent == Some(p));
        }
    }
    lemma_collapsed_part(list, i, j, split, list.len() as int);
    assert(list.take(list.len() as int) =~= list);
    lemma_spliced_run(list, split, i, j);
}

proof fn lemma_spliced_run(list: Seq<ContainerId>, split: ContainerId, i: int, j: int)
    requires
        0 <= i < j <= list.len(),
        !list.contains(split),
    ensures
        spliced(
            list.take(i).push(split) + list.subrange(j, list.len() as int),
            split,
            list.subrange(i, j),
        ) == list,
{
    let collapsed = list.take(i).push(split) + list.subrange(j, list.len() as int);
    assert(collapsed[i] == split);
    assert(collapsed.contains(split));
    let index = collapsed.index_of(split);
    assert(collapsed[index] == split && 0 <= index < collapsed.len());
    assert(index == i) by {
        if index < i {
            assert(list[index] == split);
            assert(list.contains(list[index]));
        } else if index > i {
            assert(list[index - i - 1 + j] == split);
            assert(list.contains(list[index - i - 1 + j]));
        }
    }
    assert(spliced(collapsed, split, list.subrange(i, j)) =~= list);
}

/// Flattening a split that was wrapped around a single container restores
/// the tree.
pub proof fn law_flattening_undoes_wrapping(
    t: Forest,
    split: ContainerId,
    p: ContainerId,
    x: ContainerId,
)
    requires
        forest::well_formed(t),
        wrappable(t, split, p, seq![x]),
    ensures
        flattened(wrapped(t, split, p, seq![x]), split) == t,
{
    let targets = seq![x];
    let r = wrapped(t, split, p, targets);
    let children = t[p as int].children;
    let focus = t[p as int].focus;
    assert(targets[0] == x);
    assert(targets.contains(x));
    assert(t[p as int].children.contains(x));
    assert(t[p as int].focus.contains(x));
    assert(!t[p as int].children.contains(split));
    assert(!t[p as int].focus.contains(split));
    assert(children.no_duplicates() && focus.no_duplicates());
    let i = choose|i: int| 0 <= i < children.len() && children[i] == x;
    let k = choose|k: int| 0 <= k < focus.len() && focus[k] == x;
    assert(children.subrange(i, i + 1) =~= targets);
    assert(focus.subrange(k, k + 1) =~= targets);
    assert(children.take(children.len() as int) =~= children);
    assert(focus.take(focus.len() as int) =~= focus);
    lemma_collapsed_part(children, i, i + 1, split, children.len() as int);
    lemma_collapsed_part(focus, k, k + 1, split, focus.len() as int);
    lemma_spliced_run(children, split, i, i + 1);
    lemma_spliced_run(focus, split, k, k + 1);
    lemma_chosen_single(focus, x);
    assert(children.take(i).push(split) + children.subrange(i + 1, children.len() as int)
        == collapsed(children, targets, split)) by {
        assert(children.subrange(i + 1, children.len() as int).len() == 0
            ==> children.take(i).push(split) + children.subrange(i + 1, children.len() as int)
            =~= children.take(i).push(split));
    }
    assert(focus.take(k).push(split) + focus.subrange(k + 1, focus.len() as int) == collapsed(
        focus,
        targets,
        split,
    )) by {
        assert(focus.subrange(k + 1, focus.len() as int).len() == 0 ==> focus.take(k).push(split)
            + focus.subrange(k + 1, focus.len() as int) =~= focus.take(k).push(split));
    }
    forest::lemma_parent_not_within(t, x, p);
    assert(x != split);
    assert(t[split as int].focus =~= Seq::empty()) by {
        if t[split as int].focus.len() > 0 {
            let c = t[split as int].focus[0];
            assert(t[split as int].focus.contains(c));
            assert(t[split as int].children.contains(c));
        }
    }
    let q = flattened(r, split);
    assert forall|m: int| 0 <= m < t.len() implies q[m] == t[m] by {
        let y = m as usize;
        assert(targets.contains(y) <==> y == x);
        if m != split && m != p && m != x {
            assert(r[m] == t[m]);
            if t[y as int].parent == Some(split) {
                assert(t[split as int].children.contains(y));
            }
        }
    }
    assert(q =~= t);
}

/// The first value of a list is replaced if it is wrapped, and is the first
/// one to be chosen then.
proof fn lemma_first_of_list(
    list: Seq<ContainerId>,
    targets: Seq<ContainerId>,
    split: ContainerId,
)
    requires
        list.len() > 0,
    ensures
        collapsed(list, targets, split).len() > 0,
        collapsed(list, targets, split)[0] == if targets.contains(list[0]) {
            split
        } else {
            list[0]
        },
        targets.contains(list[0]) ==> chosen(list, targets).len() > 0 && chosen(
            list,
            targets,
        )[0] == list[0],
    decreases list.len(),
{
    reveal(Seq::filter);
    let init = list.drop_last();
    if init.len() > 0 {
        lemma_first_of_list(init, targets, split);
        assert(init[0] == list[0]);
    } else {
        assert(collapsed(init, targets, split) =~= Seq::empty());
        assert(!any_target(init, targets));
        assert(list.last() == list[0]);
    }
}

/// Wrapping puts nothing but the split above a container.
proof fn lemma_above_wrapped(
    t: Forest,
    split: ContainerId,
    p: ContainerId,
    targets: Seq<ContainerId>,
    x: ContainerId,
    n: nat,
)
    requires
        forest::well_formed(t),
        wrappable(t, split, p, targets),
        x < t.len(),
        x != split,
    ensures
        match forest::above(wrapped(t, split, p, targets), x, n) {
            Some(c) => if c == split {
                exists|target: ContainerId| #[trigger]
                    targets.contains(target) && forest::within(t, x, target)
            } else {
                c < t.len() && forest::within(t, x, c)
            },
            None => true,
        },
    decreases n,
{
    let r = wrapped(t, split, p, targets);
    if n == 0 {
        forest::lemma_within_self(t, x);
    } else {
        lemma_above_wrapped(t, split, p, targets, x, (n - 1) as nat);
        if let Some(c) = forest::above(r, x, (n - 1) as nat) {
            if c == split {
                let target = choose|target: ContainerId| #[trigger]
                    targets.contains(target) && forest::within(t, x, target);
                assert(t[p as int].children.contains(target));
                forest::lemma_within_up(t, target, p);
                forest::lemma_within_trans(t, x, target, p);
            } else if c != p && targets.contains(c) {
                assert(r[c as int].parent == Some(split));
            } else if let Some(q) = t[c as int].parent {
                assert(t[q as int].children.contains(c));
                forest::lemma_within_up(t, c, q);
                forest::lemma_within_trans(t, x, c, q);
            }
        }
    }
}

/// What a container is within after wrapping, other than the split, it was
/// within before.
pub proof fn lemma_within_wrapped(
    t: Forest,
    split: ContainerId,
    p: ContainerId,
    targets: Seq<ContainerId>,
    x: ContainerId,
    c: ContainerId,
)
    requires
        forest::well_formed(t),
        wrappable(t, split, p, targets),
        x < t.len(),
        x != split,
        c != split,
        forest::within(wrapped(t, split, p, targets), x, c),
    ensures
        forest::within(t, x, c),
{
    let n = choose|n: nat| #[trigger]
        forest::above(wrapped(t, split, p, targets), x, n) == Some(c);
    lemma_above_wrapped(t, split, p, targets, x, n);
}

/// Wrapping keeps what is focused.
pub proof fn law_wrapping_keeps_focus(
    t: Forest,
    split: ContainerId,
    p: ContainerId,
    targets: Seq<ContainerId>,
    x: ContainerId,
)
    requires
        forest::well_formed(t),
        wrappable(t, split, p, targets),
        x < t.len(),
        x != split,
        forest::focused(t, x),
    ensures
        forest::focused(wrapped(t, split, p, targets), x),
{
    let r = wrapped(t, split, p, targets);
    let focus = t[p as int].focus;
    assert(targets.contains(targets[0]));
    assert(t[p as int].children.contains(targets[0]));
    assert(t[p as int].focus.contains(targets[0]));
    lemma_first_of_list(focus, targets, split);
    assert forall|c: ContainerId|
        #![trigger forest::within(r, x, c)]
        c < r.len() && forest::within(r, x, c) implies match r[c as int].parent {
        Some(q) => r[q as int].focus.len() > 0 && r[q as int].focus[0] == c,
        None => true,
    } by {
        let n = choose|n: nat| #[trigger] forest::above(r, x, n) == Some(c);
        lemma_above_wrapped(t, split, p, targets, x, n);
        if c == split {
            let target = choose|target: ContainerId| #[trigger]
                targets.contains(target) && forest::within(t, x, target);
            assert(t[p as int].children.contains(target));
            assert(focus[0] == target);
        } else {
            assert(forest::within(t, x, c));
            if let Some(q) = t[c as int].parent {
                assert(t[q as int].children.contains(c));
                assert(t[q as int].focus[0] == c);
            }
            if targets.contains(c) {
                assert(t[p as int].children.contains(c));
                forest::lemma_parent_not_within(t, c, p);
            }
        }
    }
}

/// Flattening puts nothing new above a container.
proof fn lemma_above_flattened(t: Forest, split: ContainerId, x: ContainerId, n: nat)
    requires
        forest::well_formed(t),
        split < t.len(),
        t[split as int].parent is Some,
        x < t.len(),
        x != split,
    ensures
        forest::above(flattened(t, split), x, n) matches Some(c) ==> c < t.len() && c != split
            && forest::within(t, x, c),
    decreases n,
{
    let r = flattened(t, split);
    let p = t[split as int].parent->0;
    forest::lemma_parent_not_within(t, split, p);
    if n == 0 {
        forest::lemma_within_self(t, x);
    } else {
        lemma_above_flattened(t, split, x, (n - 1) as nat);
        if let Some(c) = forest::above(r, x, (n - 1) as nat) {
            if let Some(q) = t[c as int].parent {
                assert(t[q as int].children.contains(c));
                forest::lemma_within_up(t, c, q);
                forest::lemma_within_trans(t, x, c, q);
                if q == split {
                    forest::lemma_within_up(t, split, p);
                    forest::lemma_within_trans(t, x, split, p);
                    if c == p {
                        forest::lemma_parent_not_within(t, c, split);
                    }
                }
            }
        }
    }
}

/// Flattening keeps what is focused.
pub proof fn law_flattening_keeps_focus(t: Forest, split: ContainerId, x: ContainerId)
    requires
        forest::well_formed(t),
        split < t.len(),
        t[split as int].parent is Some,
        x < t.len(),
        x != split,
        forest::focused(t, x),
    ensures
        forest::focused(flattened(t, split), x),
{
    let r = flattened(t, split);
    let p = t[split as int].parent->0;
    let outer = t[p as int].focus;
    let inner = t[split as int].focus;
    assert(t[p as int].children.contains(split));
    assert(t[p as int].focus.contains(split));
    let index = outer.index_of(split);
    assert(0 <= index < outer.len() && outer[index] == split);
    assert(t[p as int].focus.no_duplicates());
    forest::lemma_parent_not_within(t, split, p);
    assert forall|c: ContainerId|
        #![trigger forest::within(r, x, c)]
        c < r.len() && forest::within(r, x, c) implies match r[c as int].parent {
        Some(q) => r[q as int].focus.len() > 0 && r[q as int].focus[0] == c,
        None => true,
    } by {
        let n = choose|n: nat| #[trigger] forest::above(r, x, n) == Some(c);
        lemma_above_flattened(t, split, x, n);
        assert(forest::within(t, x, c));
        if let Some(q) = t[c as int].parent {
            assert(t[q as int].children.contains(c));
            assert(t[q as int].focus[0] == c);
            if q == split {
                forest::lemma_within_up(t, c, split);
                forest::lemma_within_trans(t, x, c, split);
                assert(forest::within(t, x, split));
                assert(outer[0] == split);
                assert(index == 0);
                assert(spliced(outer, split, inner)[0] == inner[0]);
                if c == p {
                    forest::lemma_within_up(t, split, p);
                    forest::lemma_parent_not_within(t, c, split);
                }
            } else if q == p {
                assert(outer[0] == c);
                assert(index > 0);
                assert(spliced(outer, split, inner)[0] == outer[0]);
            }
        }
    }
}

/// Computes [`spliced`].
fn splice(list: &Vec<ContainerId>, split: ContainerId, inner: &Vec<ContainerId>) -> (r: Vec<
    ContainerId,
>)
    requires
        list@.contains(split),
        list@.no_duplicates(),
    ensures
        r@ == spliced(list@, split, inner@),
{
    let ghost index = list@.index_of(split);
    assert(0 <= index < list@.len() && list@[index] == split);
    let mut r: Vec<ContainerId> = Vec::new();
    let mut i: usize = 0;
    while i < list.len()
        invariant
            i <= list.len(),
            0 <= index < list@.len(),
            list@[index] == split,
            list@.no_duplicates(),
            r@ == if i <= index {
                list@.take(i as int)
            } else {
                list@.take(index) + inner@ + list@.subrange(index + 1, i as int)
            },
        decreases list.len() - i,
    {
        if list[i] == split {
            assert(i == index);
            let ghost before = r@;
            let mut k: usize = 0;
            while k < inner.len()
                invariant
                    k <= inner.len(),
                    r@ == before + inner@.take(k as int),
                decreases inner.len() - k,
            {
                r.push(inner[k]);
                k += 1;
                assert(r@ =~= before + inner@.take(k as int));
            }
            assert(r@ =~= list@.take(index) + inner@ + list@.subrange(index + 1, i + 1));
        } else {
            r.push(list[i]);
            assert(i < index ==> r@ =~= list@.take(i + 1));
            assert(i > index ==> r@ =~= list@.take(index) + inner@ + list@.subrange(
                index + 1,
                i + 1,
            ));
        }
        i += 1;
    }
    assert(r@ =~= spliced(list@, split, inner@));
    r
}

/// Puts the children of a split container in its place.
///
/// Fails if the split is detached.
pub fn flatten_split_container(tree: &mut Tree, split: ContainerId) -> (r: Result<
    (),
    CommandError,
>)
    requires
        old(tree).wf(),
        split < old(tree)@.len(),
    ensures
        final(tree).wf(),
        match old(tree)@[split as int].parent {
            Some(_) => r == Ok::<(), CommandError>(()) && final(tree)@ == flattened(
                old(tree)@,
                split,
            ),
            None => r == Err::<(), CommandError>(CommandError::NoParent) && final(tree)@ == old(
                tree,
            )@,
        },
{
    let ghost t = tree@;
    let parent = match tree.container(split).parent {
        Some(parent) => parent,
        None => {
            return Err(CommandError::NoParent);
        },
    };
    proof {
        assert(t[split as int].parent == Some(parent));
        assert(t[parent as int].children.contains(split));
        assert(t[parent as int].focus.contains(split));
        assert(t[parent as int].children.no_duplicates());
        assert(t[parent as int].focus.no_duplicates());
    }
    let inner = copied(&tree.container(split).children);
    let children = splice(&tree.container(parent).children, split, &inner);
    let focus_order = splice(
        &tree.container(parent).focus_order,
        split,
        &tree.container(split).focus_order,
    );
    assert(adopted(t, parent, inner@, 0) =~= t);
    let mut i: usize = 0;
    while i < inner.len()
        invariant
            i <= inner.len(),
            t == old(tree)@,
            t.len() <= usize::MAX,
            forall|x: ContainerId| #[trigger] inner@.contains(x) ==> x < t.len(),
            tree@ == adopted(t, parent, inner@, i as int),
        decreases inner.len() - i,
    {
        let child = inner[i];
        assert(inner@.contains(child));
        tree.put_parent(child, Some(parent));
        proof {
            lemma_adopted(t, parent, inner@, i as int);
        }
        i += 1;
    }
    assert(inner@.take(i as int) =~= inner@);
    tree.put_parent(split, None);
    tree.put_children(split, Vec::new(), Vec::new());
    tree.put_children(parent, children, focus_order);
    proof {
        forest::lemma_parent_not_within(t, split, parent);
        forest::lemma_within_self(t, split);
        assert forall|x: ContainerId| #[trigger] inner@.contains(x) implies x != split && x
            != parent by {
            forest::lemma_parent_not_within(t, x, split);
            forest::lemma_within_self(t, x);
            if x == parent {
                forest::lemma_within_up(t, split, parent);
            }
        }
        assert forall|k: int| 0 <= k < t.len() implies tree@[k] == flattened(t, split)[k] by {
            let x = k as usize;
            assert(t[x as int].parent == Some(split) <==> inner@.contains(x));
        }
        assert(tree@ =~= flattened(t, split));
        lemma_flattened(t, split);
    }
    Ok(())
}

} // verus!
