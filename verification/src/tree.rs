//! The layout tree.

use vstd::prelude::*;

use crate::container::{Container, ContainerId, ContainerProps, Node};
use crate::forest::{self, Forest};

verus! {

/// A layout tree, held as an arena of containers.
///
/// Containers are never removed from the arena. One that is taken out of
/// the tree stays behind without a parent.
#[derive(Debug)]
pub struct Tree {
    nodes: Vec<Container>,
}

impl View for Tree {
    type V = Forest;

    closed spec fn view(&self) -> Forest {
        Seq::new(self.nodes@.len(), |i: int| self.nodes@[i]@)
    }
}

impl Tree {
    pub open spec fn wf(&self) -> bool {
        forest::well_formed(self@)
    }

    /// Makes a tree without any containers.
    pub fn new() -> (tree: Tree)
        ensures
            tree.wf(),
            tree@ == Seq::<Node>::empty(),
    {
        let tree = Tree { nodes: Vec::new() };
        assert(tree@ =~= Seq::<Node>::empty());
        assert(forest::ranked(tree@, Seq::empty()));
        tree
    }

    /// Adds a container that is not attached to anything yet.
    pub fn add(&mut self, props: ContainerProps) -> (id: ContainerId)
        requires
            old(self).wf(),
            old(self)@.len() < usize::MAX,
        ensures
            final(self).wf(),
            id == old(self)@.len(),
            final(self)@ == forest::added(old(self)@, props),
    {
        let id = self.nodes.len();
        self.nodes.push(
            Container { props, parent: None, children: Vec::new(), focus_order: Vec::new() },
        );
        proof {
            assert(self@ =~= forest::added(old(self)@, props));
            forest::lemma_added(old(self)@, props);
        }
        id
    }

    /// Attaches a detached container to a parent, at the given place amongst
    /// its children and at the end of its focus order.
    pub fn attach(&mut self, child: ContainerId, parent: ContainerId, index: usize)
        requires
            old(self).wf(),
            child < old(self)@.len(),
            parent < old(self)@.len(),
            old(self)@[child as int].parent is None,
            !forest::within(old(self)@, parent, child),
            !old(self)@[parent as int].props.kind.spec_is_window(),
            index <= old(self)@[parent as int].children.len(),
        ensures
            final(self).wf(),
            final(self)@ == forest::attached(old(self)@, child, parent, index as int),
    {
        proof {
            forest::lemma_within_self(self@, child);
            forest::lemma_attached(self@, child, parent, index as int);
        }
        self.nodes[parent].children.insert(index, child);
        self.nodes[parent].focus_order.push(child);
        self.nodes[child].parent = Some(parent);
        assert(self@ =~= forest::attached(old(self)@, child, parent, index as int));
    }

    /// Gets the number of containers that were ever added.
    pub fn len(&self) -> (len: usize)
        ensures
            len == self@.len(),
    {
        self.nodes.len()
    }

    /// Gets a container.
    pub fn container(&self, id: ContainerId) -> (container: &Container)
        requires
            id < self@.len(),
        ensures
            container@ == self@[id as int],
    {
        &self.nodes[id]
    }

    /// Replaces a container.
    pub(crate) fn put(&mut self, id: ContainerId, container: Container)
        requires
            id < old(self)@.len(),
        ensures
            final(self)@ == old(self)@.update(id as int, container@),
    {
        self.nodes.set(id, container);
        assert(self@ =~= old(self)@.update(id as int, container@));
    }

    /// Replaces the properties of a container.
    pub(crate) fn put_props(&mut self, id: ContainerId, props: ContainerProps)
        requires
            id < old(self)@.len(),
        ensures
            final(self)@ == old(self)@.update(id as int, Node { props, ..old(self)@[id as int] }),
    {
        self.nodes[id].props = props;
        assert(self@ =~= old(self)@.update(id as int, Node { props, ..old(self)@[id as int] }));
    }

    /// Sets the share that a container takes up of its parent.
    pub fn set_tiling_size(&mut self, id: ContainerId, size: u32)
        requires
            old(self).wf(),
            id < old(self)@.len(),
        ensures
            final(self).wf(),
            final(self)@ == forest::resized(old(self)@, id, size),
    {
        let props = self.container(id).props;
        self.put_props(id, ContainerProps { tiling_size: size, ..props });
        proof {
            forest::lemma_same_links(old(self)@, self@);
        }
    }

    /// Replaces the parent of a container.
    pub(crate) fn put_parent(&mut self, id: ContainerId, parent: Option<ContainerId>)
        requires
            id < old(self)@.len(),
        ensures
            final(self)@ == old(self)@.update(id as int, Node { parent, ..old(self)@[id as int] }),
    {
        self.nodes[id].parent = parent;
        assert(self@ =~= old(self)@.update(id as int, Node { parent, ..old(self)@[id as int] }));
    }

    /// Replaces both lists of children of a container.
    pub(crate) fn put_children(
        &mut self,
        id: ContainerId,
        children: Vec<ContainerId>,
        focus_order: Vec<ContainerId>,
    )
        requires
            id < old(self)@.len(),
        ensures
            final(self)@ == old(self)@.update(
                id as int,
                Node { children: children@, focus: focus_order@, ..old(self)@[id as int] },
            ),
    {
        self.nodes[id].children = children;
        self.nodes[id].focus_order = focus_order;
        assert(self@ =~= old(self)@.update(
            id as int,
            Node { children: children@, focus: focus_order@, ..old(self)@[id as int] },
        ));
    }

    /// Replaces one entry of the children of a container.
    pub(crate) fn put_child(&mut self, id: ContainerId, index: usize, child: ContainerId)
        requires
            id < old(self)@.len(),
            index < old(self)@[id as int].children.len(),
        ensures
            final(self)@ == old(self)@.update(
                id as int,
                Node {
                    children: old(self)@[id as int].children.update(index as int, child),
                    ..old(self)@[id as int]
                },
            ),
    {
        self.nodes[id].children[index] = child;
        assert(self@ =~= old(self)@.update(
            id as int,
            Node {
                children: old(self)@[id as int].children.update(index as int, child),
                ..old(self)@[id as int]
            },
        ));
    }

    /// Replaces one entry of the focus order of a container.
    pub(crate) fn put_focused_child(&mut self, id: ContainerId, index: usize, child: ContainerId)
        requires
            id < old(self)@.len(),
            index < old(self)@[id as int].focus.len(),
        ensures
            final(self)@ == old(self)@.update(
                id as int,
                Node {
                    focus: old(self)@[id as int].focus.update(index as int, child),
                    ..old(self)@[id as int]
                },
            ),
    {
        self.nodes[id].focus_order[index] = child;
        assert(self@ =~= old(self)@.update(
            id as int,
            Node {
                focus: old(self)@[id as int].focus.update(index as int, child),
                ..old(self)@[id as int]
            },
        ));
    }

    /// Replaces the focus order of a container.
    pub(crate) fn put_focus_order(&mut self, id: ContainerId, focus_order: Vec<ContainerId>)
        requires
            id < old(self)@.len(),
        ensures
            final(self)@ == old(self)@.update(
                id as int,
                Node { focus: focus_order@, ..old(self)@[id as int] },
            ),
    {
        self.nodes[id].focus_order = focus_order;
        assert(self@ =~= old(self)@.update(
            id as int,
            Node { focus: focus_order@, ..old(self)@[id as int] },
        ));
    }

    /// Gets the tiling containers amongst the children of a container, in
    /// order, from one place of the list up to another one.
    pub(crate) fn tiling_between(&self, id: ContainerId, from: usize, to: usize) -> (r: Vec<
        ContainerId,
    >)
        requires
            forest::linked(self@),
            id < self@.len(),
            from <= to <= self@[id as int].children.len(),
        ensures
            r@ == forest::tiling_of(
                self@,
                self@[id as int].children.subrange(from as int, to as int),
            ),
    {
        let ghost t = self@;
        let children = &self.container(id).children;
        let mut r: Vec<ContainerId> = Vec::new();
        let mut i: usize = from;
        proof {
            reveal(Seq::filter);
        }
        while i < to
            invariant
                t == self@,
                forest::linked(t),
                id < t.len(),
                children@ == t[id as int].children,
                from <= i <= to <= children@.len(),
                r@ == forest::tiling_of(t, children@.subrange(from as int, i as int)),
            decreases to - i,
        {
            proof {
                reveal(Seq::filter);
                assert(children@.subrange(from as int, i + 1).drop_last() =~= children@.subrange(
                    from as int,
                    i as int,
                ));
                assert(t[id as int].children.contains(children@[i as int]));
            }
            if self.container(children[i]).props.kind.is_tiling() {
                r.push(children[i]);
            }
            i += 1;
        }
        r
    }

    /// Gets the tiling containers amongst the children of a container.
    pub fn tiling_children(&self, id: ContainerId) -> (r: Vec<ContainerId>)
        requires
            self.wf(),
            id < self@.len(),
        ensures
            r@ == forest::tiling_of(self@, self@[id as int].children),
    {
        let len = self.container(id).children.len();
        assert(self@[id as int].children.subrange(0, len as int) =~= self@[id as int].children);
        self.tiling_between(id, 0, len)
    }

    /// Whether a container is another one, or one of its descendants.
    pub fn is_within(&self, id: ContainerId, ancestor: ContainerId) -> (r: bool)
        requires
            self.wf(),
            id < self@.len(),
        ensures
            r == forest::within(self@, id, ancestor),
    {
        let ghost t = self@;
        let ghost rank = choose|rank: Seq<nat>| forest::ranked(t, rank);
        let mut current: ContainerId = id;
        proof {
            forest::lemma_within_self(t, id);
        }
        loop
            invariant
                t == self@,
                forest::linked(t),
                forest::ranked(t, rank),
                current < t.len(),
                id < t.len(),
                forest::within(t, id, ancestor) <==> forest::within(t, current, ancestor),
            decreases rank[current as int],
        {
            if current == ancestor {
                proof {
                    forest::lemma_within_self(t, current);
                }
                return true;
            }
            match self.container(current).parent {
                Some(parent) => {
                    proof {
                        assert(t[current as int].parent == Some(parent));
                        forest::lemma_within_up(t, current, parent);
                        if forest::within(t, current, ancestor) {
                            forest::lemma_within_down(t, current, ancestor);
                        }
                        if forest::within(t, parent, ancestor) {
                            forest::lemma_within_trans(t, current, parent, ancestor);
                        }
                    }
                    current = parent;
                },
                None => {
                    proof {
                        if forest::within(t, current, ancestor) {
                            forest::lemma_within_down(t, current, ancestor);
                        }
                    }
                    return false;
                },
            }
        }
    }

    /// Whether a container is the focused one of its tree: it and all of
    /// its ancestors come first in the focus order of their parent.
    pub fn has_focus(&self, id: ContainerId) -> (r: bool)
        requires
            self.wf(),
            id < self@.len(),
        ensures
            r == forest::focused(self@, id),
    {
        let ghost t = self@;
        let ghost rank = choose|rank: Seq<nat>| forest::ranked(t, rank);
        let mut current: ContainerId = id;
        proof {
            forest::lemma_within_self(t, id);
        }
        loop
            invariant
                t == self@,
                forest::linked(t),
                forest::acyclic(t),
                forest::ranked(t, rank),
                current < t.len(),
                id < t.len(),
                forest::within(t, id, current),
                forest::focused(t, id) <==> forest::focused(t, current),
            decreases rank[current as int],
        {
            match self.container(current).parent {
                Some(parent) => {
                    proof {
                        assert(t[current as int].parent == Some(parent));
                        forest::lemma_within_up(t, current, parent);
                        forest::lemma_within_self(t, current);
                        assert(t[parent as int].children.contains(current));
                        assert(t[parent as int].focus.contains(current));
                    }
                    if self.container(parent).focus_order[0] != current {
                        return false;
                    }
                    proof {
                        assert forall|c: ContainerId|
                            #![trigger forest::within(t, parent, c)]
                            forest::within(t, parent, c) implies forest::within(t, current, c) by {
                            forest::lemma_within_trans(t, current, parent, c);
                        }
                        assert forall|c: ContainerId|
                            #![trigger forest::within(t, current, c)]
                            forest::within(t, current, c) && c != current implies forest::within(t, parent, c) by {
                            forest::lemma_within_down(t, current, c);
                        }
                        forest::lemma_within_trans(t, id, current, parent);
                    }
                    current = parent;
                },
                None => {
                    proof {
                        assert forall|c: ContainerId|
                            #![trigger forest::within(t, current, c)]
                            forest::within(t, current, c) implies c == current by {
                            if c != current {
                                forest::lemma_within_down(t, current, c);
                            }
                        }
                    }
                    return true;
                },
            }
        }
    }

    /// Focuses a container: it and its ancestors move to the front of the
    /// focus order of their parent.
    pub fn set_focused_descendant(&mut self, id: ContainerId)
        requires
            old(self).wf(),
            id < old(self)@.len(),
        ensures
            final(self)@ == forest::raised(old(self)@, id),
            final(self).wf(),
    {
        let ghost t = self@;
        let ghost rank = choose|rank: Seq<nat>| forest::ranked(t, rank);
        let mut current: ContainerId = id;
        proof {
            forest::lemma_within_self(t, id);
            lemma_partly_raised_start(t, id);
        }
        loop
            invariant
                t == old(self)@,
                forest::well_formed(t),
                forest::ranked(t, rank),
                current < t.len(),
                id < t.len(),
                forest::within(t, id, current),
                self@ == partly_raised(t, id, current),
            decreases rank[current as int],
        {
            match self.container(current).parent {
                Some(parent) => {
                    proof {
                        assert(t[current as int].parent == Some(parent));
                        lemma_partly_raised_step(t, id, current, parent);
                        forest::lemma_within_up(t, current, parent);
                        forest::lemma_within_trans(t, id, current, parent);
                    }
                    let order = moved_to_front(&self.container(parent).focus_order, current);
                    self.put_focus_order(parent, order);
                    current = parent;
                },
                None => {
                    proof {
                        lemma_partly_raised_end(t, id, current);
                        forest::lemma_raised(t, id);
                    }
                    return;
                },
            }
        }
    }
}

/// Moves an element of a list to its front.
fn moved_to_front(order: &Vec<ContainerId>, id: ContainerId) -> (moved: Vec<ContainerId>)
    ensures
        moved@ == forest::to_front(order@, id),
{
    let mut moved: Vec<ContainerId> = Vec::new();
    moved.push(id);
    let mut i: usize = 0;
    assert(forest::without(order@.take(0), id) =~= Seq::<ContainerId>::empty()) by {
        reveal(Seq::filter);
    }
    while i < order.len()
        invariant
            i <= order.len(),
            moved@ == seq![id] + forest::without(order@.take(i as int), id),
        decreases order.len() - i,
    {
        proof {
            reveal(Seq::filter);
            assert(order@.take(i + 1).drop_last() =~= order@.take(i as int));
        }
        if order[i] != id {
            moved.push(order[i]);
        }
        i += 1;
    }
    assert(order@.take(i as int) =~= order@);
    moved
}

/// Focusing `x`, done for the ancestors of `x` up to `current`.
spec fn partly_raised(t: Forest, x: ContainerId, current: ContainerId) -> Forest {
    Seq::new(
        t.len(),
        |i: int|
            Node {
                focus: if exists|c: ContainerId|
                    forest::towards(t, x, i as usize, c) && !forest::within(t, current, c) {
                    forest::raised_order(t, x, i as usize)
                } else {
                    t[i].focus
                },
                ..t[i]
            },
    )
}

proof fn lemma_partly_raised_start(t: Forest, x: ContainerId)
    ensures
        partly_raised(t, x, x) == t,
{
    assert(partly_raised(t, x, x) =~= t);
}

proof fn lemma_partly_raised_step(
    t: Forest,
    x: ContainerId,
    current: ContainerId,
    parent: ContainerId,
)
    requires
        forest::well_formed(t),
        current < t.len(),
        forest::within(t, x, current),
        t[current as int].parent == Some(parent),
    ensures
        partly_raised(t, x, parent) == partly_raised(t, x, current).update(
            parent as int,
            Node {
                focus: forest::to_front(partly_raised(t, x, current)[parent as int].focus, current),
                ..partly_raised(t, x, current)[parent as int]
            },
        ),
{
    let before = partly_raised(t, x, current);
    let after = partly_raised(t, x, parent);
    forest::lemma_within_self(t, current);
    forest::lemma_within_up(t, current, parent);
    forest::lemma_parent_not_within(t, current, parent);
    assert(forest::towards(t, x, parent, current));
    assert forall|i: int| 0 <= i < t.len() && i != parent implies after[i] == before[i] by {
        assert forall|c: ContainerId| #[trigger] forest::towards(t, x, i as usize, c) implies (forest::within(
            t,
            parent,
            c,
        ) <==> forest::within(t, current, c)) by {
            assert(c != current);
            if forest::within(t, current, c) {
                forest::lemma_within_down(t, current, c);
            }
            if forest::within(t, parent, c) {
                forest::lemma_within_trans(t, current, parent, c);
            }
        }
    }
    assert forall|c: ContainerId| #[trigger] forest::towards(t, x, parent, c) implies c == current by {
        forest::lemma_towards_unique(t, x, parent, current, c);
    }
    assert(after =~= before.update(
        parent as int,
        Node { focus: forest::to_front(before[parent as int].focus, current), ..before[parent as int] },
    ));
}

proof fn lemma_partly_raised_end(t: Forest, x: ContainerId, top: ContainerId)
    requires
        t.len() <= usize::MAX,
        top < t.len(),
        t[top as int].parent is None,
    ensures
        partly_raised(t, x, top) == forest::raised(t, x),
{
    assert forall|q: ContainerId, c: ContainerId| #[trigger] forest::towards(t, x, q, c) implies !forest::within(
        t,
        top,
        c,
    ) by {
        if forest::within(t, top, c) && c != top {
            forest::lemma_within_down(t, top, c);
        }
    }
    assert forall|i: int| 0 <= i < t.len() implies partly_raised(t, x, top)[i] == forest::raised(t, x)[i] by {
        let q = i as usize;
        if exists|c: ContainerId| forest::towards(t, x, q, c) {
            let c = choose|c: ContainerId| forest::towards(t, x, q, c);
            assert(forest::towards(t, x, q, c) && !forest::within(t, top, c));
        }
    }
    assert(partly_raised(t, x, top) =~= forest::raised(t, x));
}

} // verus!
