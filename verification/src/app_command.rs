//! Commands that keybindings and startup invoke.

use vstd::prelude::*;

use crate::geometry::Direction;
use crate::keys::{Key, Keybinding};

verus! {

/// A unit of length.
#[derive(Clone, Copy, Debug, PartialEq, Eq, Structural)]
pub enum LengthUnit {
    Percentage,
    Pixel,
}

/// A length with its unit.
#[derive(Clone, Copy, Debug, PartialEq, Eq, Structural)]
pub struct LengthValue {
    pub amount: i32,
    pub unit: LengthUnit,
}

impl LengthValue {
    pub open spec fn spec_from_px(px: int) -> LengthValue {
        LengthValue { amount: px as i32, unit: LengthUnit::Pixel }
    }

    /// Makes a length in pixels.
    pub fn from_px(px: i32) -> (length: LengthValue)
        ensures
            length == LengthValue::spec_from_px(px as int),
    {
        LengthValue { amount: px, unit: LengthUnit::Pixel }
    }
}

/// What to focus.
#[derive(Debug, PartialEq)]
pub struct InvokeFocusCommand {
    pub direction: Option<Direction>,
    pub workspace: Option<String>,
    pub monitor: Option<usize>,
    pub next_workspace: bool,
    pub prev_workspace: bool,
}

/// Where to move a window.
#[derive(Debug, PartialEq)]
pub struct InvokeMoveCommand {
    pub direction: Option<Direction>,
    pub workspace: Option<String>,
}

/// By how much to resize a window.
#[derive(Clone, Copy, Debug, PartialEq, Eq, Structural)]
pub struct InvokeResizeCommand {
    pub width: Option<LengthValue>,
    pub height: Option<LengthValue>,
}

/// A command of the window manager.
#[derive(Debug, PartialEq)]
pub enum InvokeCommand {
    Close,
    Focus(InvokeFocusCommand),
    Move(InvokeMoveCommand),
    Resize(InvokeResizeCommand),
    SendShortcut { keys: Vec<Key> },
    ShellExec { hide_window: bool, command: Vec<String> },
    Swap { direction: Direction },
    ToggleFloating { shown_on_top: Option<bool>, centered: Option<bool> },
    ToggleFullscreen { shown_on_top: Option<bool>, maximized: Option<bool> },
    ToggleTilingDirection,
    WmCycleFocus {
        omit_floating: bool,
        omit_fullscreen: bool,
        omit_minimized: bool,
        omit_tiling: bool,
    },
    WmExit,
    WmReloadConfig,
}

/// Keybindings, and the commands that each of them invokes.
#[derive(Debug, PartialEq)]
pub struct KeybindingConfig {
    pub bindings: Vec<Keybinding>,
    pub commands: Vec<InvokeCommand>,
}

/// What an [`InvokeFocusCommand`] stands for.
#[verifier::ext_equal]
pub struct FocusModel {
    pub direction: Option<Direction>,
    pub workspace: Option<Seq<char>>,
    pub monitor: Option<usize>,
    pub next_workspace: bool,
    pub prev_workspace: bool,
}

/// What an [`InvokeMoveCommand`] stands for.
#[verifier::ext_equal]
pub struct MoveModel {
    pub direction: Option<Direction>,
    pub workspace: Option<Seq<char>>,
}

/// What an [`InvokeCommand`] stands for.
#[verifier::ext_equal]
pub enum CommandModel {
    Close,
    Focus(FocusModel),
    Move(MoveModel),
    Resize(InvokeResizeCommand),
    SendShortcut { keys: Seq<Key> },
    ShellExec { hide_window: bool, command: Seq<Seq<char>> },
    Swap { direction: Direction },
    ToggleFloating { shown_on_top: Option<bool>, centered: Option<bool> },
    ToggleFullscreen { shown_on_top: Option<bool>, maximized: Option<bool> },
    ToggleTilingDirection,
    WmCycleFocus {
        omit_floating: bool,
        omit_fullscreen: bool,
        omit_minimized: bool,
        omit_tiling: bool,
    },
    WmExit,
    WmReloadConfig,
}

/// What a [`KeybindingConfig`] stands for.
#[verifier::ext_equal]
pub struct KeybindingModel {
    pub bindings: Seq<Seq<Key>>,
    pub commands: Seq<CommandModel>,
}

/// The contents of a string that may be missing.
pub open spec fn text_of(string: Option<String>) -> Option<Seq<char>> {
    match string {
        Some(string) => Some(string@),
        None => None,
    }
}

/// The contents of several strings.
pub open spec fn texts_of(strings: Seq<String>) -> Seq<Seq<char>> {
    strings.map_values(|string: String| string@)
}

impl View for InvokeFocusCommand {
    type V = FocusModel;

    open spec fn view(&self) -> FocusModel {
        FocusModel {
            direction: self.direction,
            workspace: text_of(self.workspace),
            monitor: self.monitor,
            next_workspace: self.next_workspace,
            prev_workspace: self.prev_workspace,
        }
    }
}

impl View for InvokeMoveCommand {
    type V = MoveModel;

    open spec fn view(&self) -> MoveModel {
        MoveModel { direction: self.direction, workspace: text_of(self.workspace) }
    }
}

impl View for InvokeCommand {
    type V = CommandModel;

    open spec fn view(&self) -> CommandModel {
        match *self {
            InvokeCommand::Close => CommandModel::Close,
            InvokeCommand::Focus(command) => CommandModel::Focus(command@),
            InvokeCommand::Move(command) => CommandModel::Move(command@),
            InvokeCommand::Resize(command) => CommandModel::Resize(command),
            InvokeCommand::SendShortcut { keys } => CommandModel::SendShortcut { keys: keys@ },
            InvokeCommand::ShellExec { hide_window, command } => CommandModel::ShellExec {
                hide_window,
                command: texts_of(command@),
            },
            InvokeCommand::Swap { direction } => CommandModel::Swap { direction },
            InvokeCommand::ToggleFloating { shown_on_top, centered } => CommandModel::ToggleFloating {
                shown_on_top,
                centered,
            },
            InvokeCommand::ToggleFullscreen {
                shown_on_top,
                maximized,
            } => CommandModel::ToggleFullscreen { shown_on_top, maximized },
            InvokeCommand::ToggleTilingDirection => CommandModel::ToggleTilingDirection,
            InvokeCommand::WmCycleFocus {
                omit_floating,
                omit_fullscreen,
                omit_minimized,
                omit_tiling,
            } => CommandModel::WmCycleFocus {
                omit_floating,
                omit_fullscreen,
                omit_minimized,
                omit_tiling,
            },
            InvokeCommand::WmExit => CommandModel::WmExit,
            InvokeCommand::WmReloadConfig => CommandModel::WmReloadConfig,
        }
    }
}

impl View for KeybindingConfig {
    type V = KeybindingModel;

    open spec fn view(&self) -> KeybindingModel {
        KeybindingModel {
            bindings: self.bindings@.map_values(|binding: Keybinding| binding@),
            commands: self.commands@.map_values(|command: InvokeCommand| command@),
        }
    }
}

/// A command stands for all that it holds.
pub proof fn law_commands_stand_for_what_they_hold(command: InvokeCommand)
    ensures
        match command {
            InvokeCommand::Close => command@ is Close,
            InvokeCommand::Focus(c) => command@ matches CommandModel::Focus(m) && m.direction
                == c.direction && m.monitor == c.monitor && m.next_workspace == c.next_workspace
                && m.prev_workspace == c.prev_workspace && (m.workspace is Some
                <==> c.workspace is Some) && (c.workspace is Some ==> m.workspace->0
                == c.workspace->0@),
            InvokeCommand::Move(c) => command@ matches CommandModel::Move(m) && m.direction
                == c.direction && (m.workspace is Some <==> c.workspace is Some) && (
            c.workspace is Some ==> m.workspace->0 == c.workspace->0@),
            InvokeCommand::Resize(c) => command@ matches CommandModel::Resize(m) && m == c,
            InvokeCommand::SendShortcut { keys } => command@ matches CommandModel::SendShortcut {
                keys: m,
            } && m == keys@,
            InvokeCommand::ShellExec { hide_window, command: c } => command@ matches
                CommandModel::ShellExec { hide_window: h, command: m } && h == hide_window
                && m.len() == c@.len() && forall|i: int|
                0 <= i < m.len() ==> #[trigger] m[i] == c@[i]@,
            InvokeCommand::Swap { direction } => command@ matches CommandModel::Swap {
                direction: m,
            } && m == direction,
            InvokeCommand::ToggleFloating { shown_on_top, centered } => command@ matches
                CommandModel::ToggleFloating { shown_on_top: a, centered: b } && a == shown_on_top
                && b == centered,
            InvokeCommand::ToggleFullscreen { shown_on_top, maximized } => command@ matches
                CommandModel::ToggleFullscreen { shown_on_top: a, maximized: b } && a
                == shown_on_top && b == maximized,
            InvokeCommand::ToggleTilingDirection => command@ is ToggleTilingDirection,
            InvokeCommand::WmCycleFocus {
                omit_floating,
                omit_fullscreen,
                omit_minimized,
                omit_tiling,
            } => command@ matches CommandModel::WmCycleFocus {
                omit_floating: a,
                omit_fullscreen: b,
                omit_minimized: c,
                omit_tiling: d,
            } && a == omit_floating && b == omit_fullscreen && c == omit_minimized && d
                == omit_tiling,
            InvokeCommand::WmExit => command@ is WmExit,
            InvokeCommand::WmReloadConfig => command@ is WmReloadConfig,
        },
{
}

/// Keybindings stand for all that they hold, in that order.
pub proof fn law_keybindings_stand_for_what_they_hold(config: KeybindingConfig)
    ensures
        config@.bindings.len() == config.bindings@.len(),
        config@.commands.len() == config.commands@.len(),
        forall|i: int|
            0 <= i < config.bindings@.len() ==> #[trigger] config@.bindings[i]
                == config.bindings@[i]@,
        forall|i: int|
            0 <= i < config.commands@.len() ==> #[trigger] config@.commands[i]
                == config.commands@[i]@,
{
}

/// A length made from pixels is that many pixels long.
pub proof fn law_lengths_in_pixels(px: i32)
    ensures
        LengthValue::spec_from_px(px as int).amount == px,
        LengthValue::spec_from_px(px as int).unit == LengthUnit::Pixel,
{
}

} // verus!
