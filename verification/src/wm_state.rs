//! The state that commands and events work on.

use vstd::prelude::*;

use crate::container::{ContainerId, WindowId};
use crate::focus;
use crate::forest::{self, Forest};
use crate::geometry::{Point, Rect, ResizeEdges, TilingDirection};
use crate::lists::position;
use crate::tree::Tree;

verus! {

/// A window that is being moved along with the cursor.
#[derive(Clone, Copy, Debug, PartialEq, Eq, Structural)]
pub struct DragMove {
    pub window_id: ContainerId,
    /// Where the cursor grabbed the window, seen from its top-left corner.
    pub grab_offset: Point,
}

/// A window that is being resized along with the cursor.
#[derive(Clone, Copy, Debug, PartialEq, Eq, Structural)]
pub struct DragResize {
    pub window_id: ContainerId,
    /// Where the cursor was when the resize started.
    pub initial_position: Point,
    /// The edges that follow the cursor.
    pub edges: ResizeEdges,
    /// Where the window was when the resize started.
    pub initial_rect: Rect,
}

/// Something that subscribers are told about.
#[derive(Clone, Copy, Debug, PartialEq, Eq, Structural)]
pub enum WmEvent {
    TilingDirectionChanged {
        direction_container: ContainerId,
        new_tiling_direction: TilingDirection,
    },
    FocusedContainerMoved { focused_container: ContainerId },
}

/// Changes that the platform has not been told about yet.
#[derive(Debug)]
pub struct PendingSync {
    /// Whether the native focus has to be set.
    pub has_focus_change: bool,
    /// Containers to redraw. None of them is listed twice.
    pub containers_to_redraw: Vec<ContainerId>,
}

/// The state of the window manager.
#[derive(Debug)]
pub struct WmState {
    pub tree: Tree,
    pub root: ContainerId,
    pub is_paused: bool,
    /// Whether the native focus agrees with the focused container.
    pub is_focus_synced: bool,
    pub drag_move: Option<DragMove>,
    pub drag_resize: Option<DragResize>,
    pub pending_sync: PendingSync,
    /// Events that were emitted, the latest one last.
    pub events: Vec<WmEvent>,
}

/// What a [`WmState`] stands for.
#[verifier::ext_equal]
pub struct StateModel {
    pub tree: Forest,
    pub root: ContainerId,
    pub is_paused: bool,
    pub is_focus_synced: bool,
    pub drag_move: Option<DragMove>,
    pub drag_resize: Option<DragResize>,
    pub has_focus_change: bool,
    pub redraw: Seq<ContainerId>,
    pub events: Seq<WmEvent>,
}

impl View for WmState {
    type V = StateModel;

    open spec fn view(&self) -> StateModel {
        StateModel {
            tree: self.tree@,
            root: self.root,
            is_paused: self.is_paused,
            is_focus_synced: self.is_focus_synced,
            drag_move: self.drag_move,
            drag_resize: self.drag_resize,
            has_focus_change: self.pending_sync.has_focus_change,
            redraw: self.pending_sync.containers_to_redraw@,
            events: self.events@,
        }
    }
}

/// A queue with `x` in it. A value that is queued already keeps its place.
pub open spec fn queued(queue: Seq<ContainerId>, x: ContainerId) -> Seq<ContainerId> {
    if queue.contains(x) {
        queue
    } else {
        queue.push(x)
    }
}

/// A queue with all values of a list in it.
pub open spec fn queued_all(queue: Seq<ContainerId>, list: Seq<ContainerId>) -> Seq<ContainerId>
    decreases list.len(),
{
    if list.len() == 0 {
        queue
    } else {
        queued(queued_all(queue, list.drop_last()), list.last())
    }
}

impl PendingSync {
    /// Queues a container to be redrawn.
    pub fn queue_container_to_redraw(&mut self, container: ContainerId)
        ensures
            final(self).has_focus_change == old(self).has_focus_change,
            final(self).containers_to_redraw@ == queued(old(self).containers_to_redraw@, container),
    {
        if position(&self.containers_to_redraw, container).is_none() {
            self.containers_to_redraw.push(container);
        }
    }

    /// Queues several containers to be redrawn.
    pub fn queue_containers_to_redraw(&mut self, containers: &Vec<ContainerId>)
        ensures
            final(self).has_focus_change == old(self).has_focus_change,
            final(self).containers_to_redraw@ == queued_all(
                old(self).containers_to_redraw@,
                containers@,
            ),
    {
        let mut i: usize = 0;
        assert(containers@.take(0) =~= Seq::empty());
        while i < containers.len()
            invariant
                i <= containers.len(),
                self.has_focus_change == old(self).has_focus_change,
                self.containers_to_redraw@ == queued_all(
                    old(self).containers_to_redraw@,
                    containers@.take(i as int),
                ),
            decreases containers.len() - i,
        {
            assert(containers@.take(i + 1).drop_last() =~= containers@.take(i as int));
            self.queue_container_to_redraw(containers[i]);
            i += 1;
        }
        assert(containers@.take(i as int) =~= containers@);
    }

    /// Queues a change of the native focus.
    pub fn queue_focus_change(&mut self)
        ensures
            final(self).has_focus_change,
            final(self).containers_to_redraw@ == old(self).containers_to_redraw@,
    {
        self.has_focus_change = true;
    }
}

/// Queueing several containers keeps every queued one, adds those that are
/// missing, and lists none of them twice.
pub proof fn law_queue_has_no_duplicates(queue: Seq<ContainerId>, list: Seq<ContainerId>)
    requires
        queue.no_duplicates(),
    ensures
        queued_all(queue, list).no_duplicates(),
        queue.is_prefix_of(queued_all(queue, list)),
        forall|x: ContainerId| #[trigger]
            queued_all(queue, list).contains(x) <==> queue.contains(x) || list.contains(x),
    decreases list.len(),
{
    if list.len() > 0 {
        let init = list.drop_last();
        let before = queued_all(queue, init);
        let after = queued_all(queue, list);
        law_queue_has_no_duplicates(queue, init);
        assert forall|x: ContainerId| #[trigger] after.contains(x) <==> queue.contains(x)
            || list.contains(x) by {
            assert(before.contains(x) <==> queue.contains(x) || init.contains(x));
            if before.contains(x) {
                let i = choose|i: int| 0 <= i < before.len() && before[i] == x;
                assert(after[i] == x);
            }
            if init.contains(x) {
                let i = choose|i: int| 0 <= i < init.len() && init[i] == x;
                assert(list[i] == x);
            }
            if list.contains(x) && x != list.last() {
                let i = choose|i: int| 0 <= i < list.len() && list[i] == x;
                assert(init[i] == x);
            }
            if x == list.last() {
                assert(list[list.len() - 1] == x);
                if !before.contains(x) {
                    assert(after[before.len() as int] == x);
                }
            }
        }
    }
}

/// Whether `x` is a window of the tree below `root`.
pub open spec fn is_window_of(t: Forest, root: ContainerId, x: ContainerId) -> bool {
    &&& x < t.len()
    &&& t[x as int].props.kind.spec_is_window()
    &&& forest::within(t, x, root)
}

/// Whether `x` stands for a given native window.
pub open spec fn has_native_id(
    t: Forest,
    root: ContainerId,
    native_id: WindowId,
    x: ContainerId,
) -> bool {
    &&& is_window_of(t, root, x)
    &&& t[x as int].props.window.native_id == native_id
}

/// The window that stands for a native window: the first one, should there be
/// several.
pub open spec fn window_from_native(t: Forest, root: ContainerId, native_id: WindowId) -> Option<
    ContainerId,
> {
    if exists|x: ContainerId| has_native_id(t, root, native_id, x) {
        Some(
            choose|x: ContainerId|
                has_native_id(t, root, native_id, x) && forall|y: ContainerId| #[trigger]
                    has_native_id(t, root, native_id, y) ==> x <= y,
        )
    } else {
        None
    }
}

impl WmState {
    pub open spec fn wf(&self) -> bool {
        &&& self.tree.wf()
        &&& self.root < self.tree@.len()
        &&& self.tree@[self.root as int].parent is None
        &&& self.pending_sync.containers_to_redraw@.no_duplicates()
    }

    /// Makes a state around a tree, with nothing pending.
    pub fn new(tree: Tree, root: ContainerId) -> (state: WmState)
        requires
            tree.wf(),
            root < tree@.len(),
            tree@[root as int].parent is None,
        ensures
            state.wf(),
            state@ == (StateModel {
                tree: tree@,
                root,
                is_paused: false,
                is_focus_synced: true,
                drag_move: None,
                drag_resize: None,
                has_focus_change: false,
                redraw: Seq::empty(),
                events: Seq::empty(),
            }),
    {
        WmState {
            tree,
            root,
            is_paused: false,
            is_focus_synced: true,
            drag_move: None,
            drag_resize: None,
            pending_sync: PendingSync { has_focus_change: false, containers_to_redraw: Vec::new() },
            events: Vec::new(),
        }
    }

    /// Whether the state is valid, given that its tree is.
    ///
    /// The fields of the state are open to changes from outside. Code that
    /// has let others change them can find out whether it may go on.
    pub fn is_valid(&self) -> (r: bool)
        requires
            self.tree.wf(),
        ensures
            r == self.wf(),
    {
        if self.root >= self.tree.len() || self.tree.container(self.root).parent.is_some() {
            return false;
        }
        let queue = &self.pending_sync.containers_to_redraw;
        let mut i: usize = 0;
        while i < queue.len()
            invariant
                i <= queue.len(),
                queue@ == self.pending_sync.containers_to_redraw@,
                forall|j: int, k: int| 0 <= j < k < i ==> queue@[j] != queue@[k],
            decreases queue.len() - i,
        {
            match position(queue, queue[i]) {
                Some(index) => {
                    if index < i {
                        return false;
                    }
                },
                None => {},
            }
            i += 1;
        }
        true
    }

    /// Gets the focused container, if there is one.
    pub fn focused_container(&self) -> (r: Option<ContainerId>)
        requires
            self.wf(),
        ensures
            r == focus::focused_container(self.tree@, self.root),
            r matches Some(x) ==> focus::is_focused_container(self.tree@, self.root, x),
    {
        focus::find_focused_container(&self.tree, self.root)
    }

    /// Emits an event.
    pub fn emit_event(&mut self, event: WmEvent)
        ensures
            final(self)@ == (StateModel { events: old(self)@.events.push(event), ..old(self)@ }),
    {
        self.events.push(event);
    }

    /// Whether a container is a window that is still managed.
    pub fn has_window(&self, id: ContainerId) -> (r: bool)
        requires
            self.wf(),
        ensures
            r == is_window_of(self.tree@, self.root, id),
    {
        id < self.tree.len() && self.tree.container(id).props.kind.is_window()
            && self.tree.is_within(id, self.root)
    }

    /// Gets the window that stands for a native window.
    pub fn window_from_native(&self, native_id: WindowId) -> (r: Option<ContainerId>)
        requires
            self.wf(),
        ensures
            r == window_from_native(self.tree@, self.root, native_id),
            r matches Some(x) ==> has_native_id(self.tree@, self.root, native_id, x),
    {
        let len = self.tree.len();
        let mut id: ContainerId = 0;
        while id < len
            invariant
                self.wf(),
                len == self.tree@.len(),
                id <= len,
                forall|y: ContainerId|
                    y < id ==> !#[trigger] has_native_id(self.tree@, self.root, native_id, y),
            decreases len - id,
        {
            if self.tree.container(id).props.window.native_id == native_id && self.has_window(id) {
                proof {
                    let t = self.tree@;
                    let root = self.root;
                    assert(has_native_id(t, root, native_id, id));
                    assert forall|y: ContainerId| #[trigger]
                        has_native_id(t, root, native_id, y) implies id <= y by {
                    }
                    let x = choose|x: ContainerId|
                        has_native_id(t, root, native_id, x) && forall|y: ContainerId| #[trigger]
                            has_native_id(t, root, native_id, y) ==> x <= y;
                    assert(has_native_id(t, root, native_id, x) && x <= id);
                }
                return Some(id);
            }
            id += 1;
        }
        None
    }
}

/// A state stands for all that it holds.
pub proof fn law_states_stand_for_what_they_hold(state: WmState)
    ensures
        state@.tree == state.tree@,
        state@.root == state.root,
        state@.is_paused == state.is_paused,
        state@.is_focus_synced == state.is_focus_synced,
        state@.drag_move == state.drag_move,
        state@.drag_resize == state.drag_resize,
        state@.has_focus_change == state.pending_sync.has_focus_change,
        state@.redraw == state.pending_sync.containers_to_redraw@,
        state@.events == state.events@,
{
}

/// Queueing a container leaves it in the queue once, and the rest as it is.
pub proof fn law_queueing(queue: Seq<ContainerId>, x: ContainerId)
    ensures
        queue.contains(x) ==> queued(queue, x) == queue,
        !queue.contains(x) ==> queued(queue, x).len() == queue.len() + 1 && queued(
            queue,
            x,
        ).last() == x && queued(queue, x).drop_last() == queue,
{
    if !queue.contains(x) {
        assert(queued(queue, x).drop_last() =~= queue);
    }
}

} // verus!
