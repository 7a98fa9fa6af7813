//! Swapping a window with the one next to it.

use vstd::prelude::*;

use crate::container::{ContainerId, ContainerKind};
use crate::error::CommandError;
use crate::forest::{self, Forest};
use crate::geometry::Direction;
use crate::swap_containers::{self, swap_containers};
use crate::tiling_window_in_direction::{self, tiling_window_in_direction};
use crate::wm_state::{self, StateModel, WmEvent, WmState};

verus! {

/// The state after `window` and `target` have been swapped: both are redrawn,
/// and subscribers are told if one of them has focus.
pub open spec fn swapped_state(
    s: StateModel,
    window: ContainerId,
    target: ContainerId,
) -> StateModel {
    let t = swap_containers::swap_outcome(s.tree, window, target)->Ok_0;
    StateModel {
        tree: t,
        redraw: wm_state::queued(wm_state::queued(s.redraw, window), target),
        events: if forest::focused(t, window) {
            s.events.push(WmEvent::FocusedContainerMoved { focused_container: window })
        } else if forest::focused(t, target) {
            s.events.push(WmEvent::FocusedContainerMoved { focused_container: target })
        } else {
            s.events
        },
        ..s
    }
}

/// What a swap of `window` in a direction leads to, when the search for the
/// other window has ended with `found`.
pub open spec fn swap_in_direction_outcome(
    s: StateModel,
    window: ContainerId,
    found: Result<Option<ContainerId>, CommandError>,
) -> (StateModel, Result<(), CommandError>) {
    if s.tree[window as int].props.kind != ContainerKind::TilingWindow {
        (s, Ok(()))
    } else {
        match found {
            Ok(Some(target)) => (swapped_state(s, window, target), Ok(())),
            Ok(None) => (s, Ok(())),
            Err(e) => (s, Err(e)),
        }
    }
}

/// A tiling window can always be swapped with the one that a search finds.
proof fn lemma_swappable(
    t: Forest,
    window: ContainerId,
    direction: Direction,
    target: ContainerId,
)
    requires
        forest::well_formed(t),
        window < t.len(),
        tiling_window_in_direction::search_ends(t, window, direction, Ok(Some(target))),
    ensures
        target < t.len(),
        swap_containers::swap_outcome(t, window, target) is Ok,
{
    tiling_window_in_direction::law_search_finds_another_tiling_window(
        t,
        window,
        direction,
        target,
    );
}

/// Swaps a tiling window with the nearest tiling window in the given
/// direction.
///
/// Both windows take over the size of the slot that they move into, so that
/// the layout stays as it is. Focus stays with the window that has it.
///
/// Does nothing if the window is not tiling, or if there is no tiling window
/// in that direction on its workspace.
pub fn swap_window_in_direction(
    window: ContainerId,
    direction: &Direction,
    state: &mut WmState,
) -> (r: Result<(), CommandError>)
    requires
        old(state).wf(),
        window < old(state).tree@.len(),
        old(state).tree@[window as int].props.kind.spec_is_window(),
    ensures
        final(state).wf(),
        (final(state)@, r) == swap_in_direction_outcome(
            old(state)@,
            window,
            tiling_window_in_direction::search_result(old(state)@.tree, window, *direction),
        ),
{
    let ghost t = state.tree@;
    if state.tree.container(window).props.kind != ContainerKind::TilingWindow {
        return Ok(());
    }
    let target_window = match tiling_window_in_direction(&state.tree, window, direction) {
        Ok(Some(target_window)) => target_window,
        Ok(None) => {
            return Ok(());
        },
        Err(e) => {
            return Err(e);
        },
    };
    proof {
        lemma_swappable(t, window, *direction, target_window);
    }
    let _ = swap_containers(&mut state.tree, window, target_window);
    proof {
        lemma_swap_keeps_root(t, window, target_window, state.root);
    }
    let is_window_focused = state.tree.has_focus(window);
    let is_target_focused = state.tree.has_focus(target_window);
    state.pending_sync.queue_container_to_redraw(window);
    state.pending_sync.queue_container_to_redraw(target_window);
    if is_window_focused {
        state.emit_event(WmEvent::FocusedContainerMoved { focused_container: window });
    } else if is_target_focused {
        state.emit_event(WmEvent::FocusedContainerMoved { focused_container: target_window });
    }
    Ok(())
}

/// What is at the top of the tree stays there.
proof fn lemma_swap_keeps_root(t: Forest, a: ContainerId, b: ContainerId, root: ContainerId)
    requires
        forest::well_formed(t),
        swap_containers::swap_outcome(t, a, b) is Ok,
        a < t.len(),
        b < t.len(),
        root < t.len(),
        t[root as int].parent is None,
    ensures
        swap_containers::swap_outcome(t, a, b)->Ok_0.len() == t.len(),
        swap_containers::swap_outcome(t, a, b)->Ok_0[root as int].parent is None,
{
}

/// A focused window carries its focus along when it is swapped, and
/// subscribers are told that it has moved.
pub proof fn law_swapped_window_keeps_focus(
    s: StateModel,
    window: ContainerId,
    direction: Direction,
    target: ContainerId,
)
    requires
        forest::well_formed(s.tree),
        window < s.tree.len(),
        s.tree[window as int].props.kind == ContainerKind::TilingWindow,
        tiling_window_in_direction::search_ends(s.tree, window, direction, Ok(Some(target))),
        forest::focused(s.tree, window),
    ensures
        ({
            let (r, outcome) = swap_in_direction_outcome(s, window, Ok(Some(target)));
            &&& outcome is Ok
            &&& forest::focused(r.tree, window)
            &&& r.events == s.events.push(
                WmEvent::FocusedContainerMoved { focused_container: window },
            )
        }),
{
    lemma_swappable(s.tree, window, direction, target);
    swap_containers::law_swap_preserves_focus(s.tree, window, target);
}

/// A tiling window that has another one in a direction is swapped with it: both
/// are to be redrawn, and subscribers are told once if one of them has focus.
/// Nothing else of the state changes.
pub proof fn law_window_is_swapped_with_what_was_found(
    s: StateModel,
    window: ContainerId,
    target: ContainerId,
)
    requires
        s.tree[window as int].props.kind == ContainerKind::TilingWindow,
    ensures
        ({
            let (r, outcome) = swap_in_direction_outcome(s, window, Ok(Some(target)));
            let t = swap_containers::swap_outcome(s.tree, window, target)->Ok_0;
            &&& outcome == Ok::<(), CommandError>(())
            &&& r == (StateModel { tree: t, redraw: r.redraw, events: r.events, ..s })
            &&& s.redraw.is_prefix_of(r.redraw)
            &&& forall|x: ContainerId| #[trigger]
                r.redraw.contains(x) <==> s.redraw.contains(x) || x == window || x == target
            &&& s.events.is_prefix_of(r.events)
            &&& forest::focused(t, window) ==> r.events.len() == s.events.len() + 1
                && r.events.last() == (WmEvent::FocusedContainerMoved {
                focused_container: window,
            })
            &&& !forest::focused(t, window) && forest::focused(t, target) ==> r.events.len()
                == s.events.len() + 1 && r.events.last() == (WmEvent::FocusedContainerMoved {
                focused_container: target,
            })
            &&& !forest::focused(t, window) && !forest::focused(t, target) ==> r.events == s.events
        }),
{
    let r = swap_in_direction_outcome(s, window, Ok(Some(target))).0;
    let once = wm_state::queued(s.redraw, window);
    assert forall|x: ContainerId| #[trigger] r.redraw.contains(x) <==> s.redraw.contains(x) || x
        == window || x == target by {
        lemma_queued(s.redraw, window, x);
        lemma_queued(once, target, x);
    }
}

proof fn lemma_queued(queue: Seq<ContainerId>, value: ContainerId, x: ContainerId)
    ensures
        wm_state::queued(queue, value).contains(x) <==> queue.contains(x) || x == value,
{
    let r = wm_state::queued(queue, value);
    if queue.contains(x) && !queue.contains(value) {
        let i = choose|i: int| 0 <= i < queue.len() && queue[i] == x;
        assert(r[i] == x);
    }
    if x == value && !queue.contains(value) {
        assert(r[queue.len() as int] == x);
    }
}

/// A window that does not tile, and one without another one in the direction,
/// stay where they are. Where the search is refused, so is the swap.
pub proof fn law_nothing_is_swapped_without_a_target(
    s: StateModel,
    window: ContainerId,
    found: Result<Option<ContainerId>, CommandError>,
)
    requires
        s.tree[window as int].props.kind != ContainerKind::TilingWindow || found is Err
            || found->Ok_0 is None,
    ensures
        ({
            let (r, outcome) = swap_in_direction_outcome(s, window, found);
            &&& r == s
            &&& outcome is Err <==> s.tree[window as int].props.kind
                == ContainerKind::TilingWindow && found is Err
            &&& outcome is Err ==> outcome->Err_0 == found->Err_0
        }),
{
}

} // verus!
