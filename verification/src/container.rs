//! Containers: the nodes of the layout tree.

use vstd::prelude::*;

use crate::geometry::{Rect, TilingDirection};

verus! {

/// Identity of a container: its place in the arena of its tree.
pub type ContainerId = usize;

/// Identity that the platform gives to a native window.
pub type WindowId = u64;

/// What a container is.
#[derive(Clone, Copy, Debug, PartialEq, Eq, Structural)]
pub enum ContainerKind {
    Root,
    Monitor,
    Workspace,
    Split,
    TilingWindow,
    NonTilingWindow,
}

impl ContainerKind {
    pub open spec fn spec_is_window(self) -> bool {
        self == ContainerKind::TilingWindow || self == ContainerKind::NonTilingWindow
    }

    /// Whether the container is a window of any kind.
    pub fn is_window(&self) -> (r: bool)
        ensures
            r == self.spec_is_window(),
    {
        match self {
            ContainerKind::TilingWindow | ContainerKind::NonTilingWindow => true,
            _ => false,
        }
    }

    pub open spec fn spec_is_tiling(self) -> bool {
        self == ContainerKind::TilingWindow || self == ContainerKind::Split
    }

    /// Whether the container takes up a share of its parent's area.
    pub fn is_tiling(&self) -> (r: bool)
        ensures
            r == self.spec_is_tiling(),
    {
        match self {
            ContainerKind::TilingWindow | ContainerKind::Split => true,
            _ => false,
        }
    }

    pub open spec fn spec_is_direction(self) -> bool {
        self == ContainerKind::Workspace || self == ContainerKind::Split
    }

    /// Whether the container lays out its children along an axis.
    pub fn is_direction(&self) -> (r: bool)
        ensures
            r == self.spec_is_direction(),
    {
        match self {
            ContainerKind::Workspace | ContainerKind::Split => true,
            _ => false,
        }
    }
}

/// How a window is currently shown.
#[derive(Clone, Copy, Debug, PartialEq, Eq, Structural)]
pub enum WindowState {
    Tiling,
    Floating,
    Fullscreen,
    Minimized,
}

/// What an interactive drag does to a window.
#[derive(Clone, Copy, Debug, PartialEq, Eq, Structural)]
pub enum ActiveDragOperation {
    Move,
    Resize,
}

/// An interactive move or resize that a window is going through.
#[derive(Clone, Copy, Debug, PartialEq, Eq, Structural)]
pub struct ActiveDrag {
    /// Missing as long as it is unclear whether the window moves or resizes.
    pub operation: Option<ActiveDragOperation>,
    /// Whether the window was floating before the drag.
    pub is_from_floating: bool,
    /// Frame of the window when the drag started.
    pub initial_position: Rect,
}

/// Gaps around the windows of a container, in pixels.
#[derive(Clone, Copy, Debug, PartialEq, Eq, Structural)]
pub struct GapsConfig {
    pub inner_gap: i32,
    pub outer_gap: i32,
}

/// What is known of a native window.
#[derive(Clone, Copy, Debug)]
pub struct WindowProps {
    pub native_id: WindowId,
    pub state: WindowState,
    /// Frame of the native window, as last reported or set.
    pub frame: Rect,
    /// Where the window is placed while it floats.
    pub floating_placement: Rect,
    pub active_drag: Option<ActiveDrag>,
}

/// The properties of a container apart from its place in the tree.
///
/// Every container carries all of them; which ones are meaningful depends
/// on its kind.
#[derive(Clone, Copy, Debug)]
pub struct ContainerProps {
    pub kind: ContainerKind,
    /// Axis of a workspace or split.
    pub tiling_direction: TilingDirection,
    /// Share that a split or tiling window takes up of its parent, as the
    /// bits of a single-precision number.
    pub tiling_size: u32,
    pub gaps: GapsConfig,
    /// Area of a monitor that windows may cover.
    pub working_area: Rect,
    pub window: WindowProps,
}

/// A node of the layout tree.
#[derive(Debug)]
pub struct Container {
    pub props: ContainerProps,
    pub parent: Option<ContainerId>,
    /// Children from left to right, or from top to bottom.
    pub children: Vec<ContainerId>,
    /// The same children, the most recently focused one first.
    pub focus_order: Vec<ContainerId>,
}

/// What a [`Container`] stands for.
#[verifier::ext_equal]
pub struct Node {
    pub props: ContainerProps,
    pub parent: Option<ContainerId>,
    pub children: Seq<ContainerId>,
    pub focus: Seq<ContainerId>,
}

impl View for Container {
    type V = Node;

    open spec fn view(&self) -> Node {
        Node {
            props: self.props,
            parent: self.parent,
            children: self.children@,
            focus: self.focus_order@,
        }
    }
}

/// Which kinds are windows, which ones tile, and which ones have an axis.
pub proof fn law_kinds(kind: ContainerKind)
    ensures
        kind.spec_is_window() <==> kind == ContainerKind::TilingWindow || kind
            == ContainerKind::NonTilingWindow,
        kind.spec_is_tiling() <==> kind == ContainerKind::TilingWindow || kind
            == ContainerKind::Split,
        kind.spec_is_direction() <==> kind == ContainerKind::Workspace || kind
            == ContainerKind::Split,
{
}

/// A container stands for all that it holds.
pub proof fn law_containers_stand_for_what_they_hold(container: Container)
    ensures
        container@.props == container.props,
        container@.parent == container.parent,
        container@.children == container.children@,
        container@.focus == container.focus_order@,
{
}

} // verus!
