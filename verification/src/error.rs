//! Reasons for which a command on the layout tree is refused.

use vstd::prelude::*;

verus! {

/// Why a command was refused.
#[derive(Clone, Copy, Debug, PartialEq, Eq, Structural)]
pub enum CommandError {
    /// A container cannot be swapped with itself.
    SwapWithSelf,
    /// A container cannot be swapped with one of its ancestors.
    SwapWithAncestor,
    /// The container is detached.
    NoParent,
    /// The container is missing amongst the children of its parent.
    NotAChildOfParent,
    /// The container has no workspace or split above it.
    NoDirectionContainer,
    /// The window is missing amongst the tiling children of its parent.
    NotAChildOfOwnParent,
    /// The container has no computable place on the screen.
    NoRect,
    /// A container that is part of a tree cannot be attached again.
    AlreadyAttached,
    /// Nothing is focused.
    NoFocusedContainer,
    /// The focused container is not on a workspace.
    NoWorkspace,
    /// The focused container is not on a monitor.
    NoFocusedMonitor,
    /// The cursor is not over a monitor.
    NoMonitorUnderCursor,
    /// No window is being dragged.
    NoActiveDrag,
    /// The window that is being dragged is gone.
    DraggedWindowGone,
    /// No window is being resized.
    NoActiveResize,
    /// The platform could not tell which window is under the cursor.
    WindowLookupFailed,
}

impl CommandError {
    pub open spec fn spec_message(self) -> Seq<char> {
        match self {
            CommandError::SwapWithSelf => "Cannot swap a container with itself."@,
            CommandError::SwapWithAncestor => "Cannot swap a container with one of its ancestors."@,
            CommandError::NoParent => "No parent."@,
            CommandError::NotAChildOfParent => "Container is not a child of its parent."@,
            CommandError::NoDirectionContainer => "No direction container."@,
            CommandError::NotAChildOfOwnParent => "Window is not a child of its own parent."@,
            CommandError::NoRect => "Container has no rect."@,
            CommandError::AlreadyAttached => "Container is already attached."@,
            CommandError::NoFocusedContainer => "No focused container."@,
            CommandError::NoWorkspace => "No workspace."@,
            CommandError::NoFocusedMonitor => "Focused container has no monitor."@,
            CommandError::NoMonitorUnderCursor => "No monitor under cursor."@,
            CommandError::NoActiveDrag => "No active drag."@,
            CommandError::DraggedWindowGone => "Dragged window no longer exists."@,
            CommandError::NoActiveResize => "No active resize."@,
            CommandError::WindowLookupFailed => "Failed to look up the window under the cursor."@,
        }
    }

    /// Gets a message for the user.
    pub fn message(&self) -> (message: &'static str)
        ensures
            message@ == self.spec_message(),
    {
        match self {
            CommandError::SwapWithSelf => "Cannot swap a container with itself.",
            CommandError::SwapWithAncestor => "Cannot swap a container with one of its ancestors.",
            CommandError::NoParent => "No parent.",
            CommandError::NotAChildOfParent => "Container is not a child of its parent.",
            CommandError::NoDirectionContainer => "No direction container.",
            CommandError::NotAChildOfOwnParent => "Window is not a child of its own parent.",
            CommandError::NoRect => "Container has no rect.",
            CommandError::AlreadyAttached => "Container is already attached.",
            CommandError::NoFocusedContainer => "No focused container.",
            CommandError::NoWorkspace => "No workspace.",
            CommandError::NoFocusedMonitor => "Focused container has no monitor.",
            CommandError::NoMonitorUnderCursor => "No monitor under cursor.",
            CommandError::NoActiveDrag => "No active drag.",
            CommandError::DraggedWindowGone => "Dragged window no longer exists.",
            CommandError::NoActiveResize => "No active resize.",
            CommandError::WindowLookupFailed => "Failed to look up the window under the cursor.",
        }
    }
}

/// What the user is told about each refusal.
pub proof fn law_messages()
    ensures
        CommandError::SwapWithSelf.spec_message() == "Cannot swap a container with itself."@,
        CommandError::SwapWithAncestor.spec_message() == "Cannot swap a container with one of its ancestors."@,
        CommandError::NoParent.spec_message() == "No parent."@,
        CommandError::NotAChildOfParent.spec_message() == "Container is not a child of its parent."@,
        CommandError::NoDirectionContainer.spec_message() == "No direction container."@,
        CommandError::NotAChildOfOwnParent.spec_message() == "Window is not a child of its own parent."@,
        CommandError::NoRect.spec_message() == "Container has no rect."@,
        CommandError::AlreadyAttached.spec_message() == "Container is already attached."@,
        CommandError::NoFocusedContainer.spec_message() == "No focused container."@,
        CommandError::NoWorkspace.spec_message() == "No workspace."@,
        CommandError::NoFocusedMonitor.spec_message() == "Focused container has no monitor."@,
        CommandError::NoMonitorUnderCursor.spec_message() == "No monitor under cursor."@,
        CommandError::NoActiveDrag.spec_message() == "No active drag."@,
        CommandError::DraggedWindowGone.spec_message() == "Dragged window no longer exists."@,
        CommandError::NoActiveResize.spec_message() == "No active resize."@,
        CommandError::WindowLookupFailed.spec_message() == "Failed to look up the window under the cursor."@,
{
}

} // verus!
