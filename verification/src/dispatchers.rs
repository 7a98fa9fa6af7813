//! Hyprland's dispatchers, and the commands that they stand for.

use vstd::prelude::*;

use crate::app_command::{
    self, CommandModel, FocusModel, InvokeCommand, InvokeFocusCommand, InvokeMoveCommand,
    InvokeResizeCommand, LengthValue, MoveModel,
};
use crate::geometry::Direction;
use crate::keys::{self, Key};
use crate::keysyms::{self, parse_keysym, parse_modifier_token};
use crate::text::{self, is_text};

verus! {

/// A text without its underscores.
pub open spec fn without_underscores(token: Seq<char>) -> Seq<char> {
    token.filter(|c: char| c != '_')
}

/// Whether a token names a button of the mouse.
pub open spec fn is_mouse_button(token: Seq<char>) -> bool {
    text::spec_starts_with(without_underscores(text::lowered(token)), "mouse"@)
}

/// The key that a token stands for, or why there is none.
pub open spec fn trigger_key_of(token: Seq<char>) -> Result<Key, Seq<char>> {
    if is_mouse_button(token) {
        Err("Mouse bindings (e.g. '"@ + token + "') are unsupported."@)
    } else if keysyms::key_of_keysym(token) is Some {
        Ok(keysyms::key_of_keysym(token)->0)
    } else if keys::key_named(token) is Some {
        Ok(keys::key_named(token)->0)
    } else if token.len() == 1 && keys::key_typing(token[0]) is Some {
        Ok(keys::key_typing(token[0])->0)
    } else {
        Err("Unknown key '"@ + token + "'."@)
    }
}

/// Removes the underscores of a text.
fn strip_underscores(token: &[char]) -> (r: Vec<char>)
    ensures
        r@ == without_underscores(token@),
{
    let mut r: Vec<char> = Vec::new();
    let mut i: usize = 0;
    proof {
        reveal(Seq::filter);
    }
    while i < token.len()
        invariant
            i <= token@.len(),
            r@ == without_underscores(token@.take(i as int)),
        decreases token.len() - i,
    {
        proof {
            reveal(Seq::filter);
            assert(token@.take(i + 1).drop_last() =~= token@.take(i as int));
        }
        if token[i] != '_' {
            r.push(token[i]);
        }
        i += 1;
    }
    assert(token@.take(i as int) =~= token@);
    r
}

/// Parses the key that triggers a bind (e.g. `Q`, `Return`, `KP_Add`).
///
/// Names of keysyms come first, then other names of keys, and then single
/// characters (e.g. `-`). Buttons of the mouse are refused.
pub fn parse_trigger_key(token: &[char]) -> (r: Result<Key, String>)
    ensures
        match trigger_key_of(token@) {
            Ok(key) => r == Ok::<Key, String>(key),
            Err(message) => r matches Err(m) && m@ == message,
        },
{
    let lower = text::to_lower(token);
    let plain = strip_underscores(lower.as_slice());
    if text::starts_with(plain.as_slice(), "mouse") {
        return Err(text::quoted("Mouse bindings (e.g. '", token, "') are unsupported."));
    }
    match parse_keysym(token) {
        Some(key) => {
            return Ok(key);
        },
        None => {},
    }
    match Key::from_name(token) {
        Some(key) => {
            return Ok(key);
        },
        None => {},
    }
    // A longer token must not be taken for its first character.
    if token.len() == 1 {
        match Key::try_from_literal(token[0]) {
            Some(key) => {
                return Ok(key);
            },
            None => {},
        }
    }
    Err(text::quoted("Unknown key '", token, "'."))
}

/// The direction that an argument stands for, or why there is none.
pub open spec fn direction_of(arg: Option<Seq<char>>) -> Result<Direction, Seq<char>> {
    match arg {
        None => Err("Missing direction argument."@),
        Some(arg) => {
            let name = text::lowered(arg);
            if name == "l"@ || name == "left"@ {
                Ok(Direction::Left)
            } else if name == "r"@ || name == "right"@ {
                Ok(Direction::Right)
            } else if name == "u"@ || name == "up"@ {
                Ok(Direction::Up)
            } else if name == "d"@ || name == "down"@ {
                Ok(Direction::Down)
            } else {
                Err("Unknown direction '"@ + arg + "'."@)
            }
        },
    }
}

/// The argument at an index, if there is one.
pub open spec fn arg_at(args: Seq<Seq<char>>, index: int) -> Option<Seq<char>> {
    if index < args.len() {
        Some(args[index])
    } else {
        None
    }
}

/// Parses an argument that is a direction (e.g. `l`, `left`).
pub fn parse_direction(args: &Vec<Vec<char>>) -> (r: Result<Direction, String>)
    ensures
        match direction_of(arg_at(text::texts(args@), 0)) {
            Ok(direction) => r == Ok::<Direction, String>(direction),
            Err(message) => r matches Err(m) && m@ == message,
        },
{
    if args.len() == 0 {
        return Err("Missing direction argument.".to_owned());
    }
    let arg = args[0].as_slice();
    assert(text::texts(args@)[0] == arg@);
    let lower = text::to_lower(arg);
    let name = lower.as_slice();
    if is_text(name, "l") || is_text(name, "left") {
        Ok(Direction::Left)
    } else if is_text(name, "r") || is_text(name, "right") {
        Ok(Direction::Right)
    } else if is_text(name, "u") || is_text(name, "up") {
        Ok(Direction::Up)
    } else if is_text(name, "d") || is_text(name, "down") {
        Ok(Direction::Down)
    } else {
        Err(text::quoted("Unknown direction '", arg, "'."))
    }
}

/// The number of pixels that an argument stands for, or why there is none.
pub open spec fn resize_delta_of(arg: Option<Seq<char>>) -> Result<int, Seq<char>> {
    match arg {
        None => Err("Missing resize delta."@),
        Some(arg) => match text::spec_parse_signed(arg) {
            Some(delta) => Ok(delta),
            None => Err(
                "Invalid resize delta '"@ + arg + "'. Expected pixel values (e.g. '-30')."@,
            ),
        },
    }
}

/// Parses an argument that is a number of pixels.
pub fn parse_resize_delta(args: &Vec<Vec<char>>, index: usize) -> (r: Result<i32, String>)
    ensures
        match resize_delta_of(arg_at(text::texts(args@), index as int)) {
            Ok(delta) => r matches Ok(d) && d == delta,
            Err(message) => r matches Err(m) && m@ == message,
        },
{
    if index >= args.len() {
        return Err("Missing resize delta.".to_owned());
    }
    let arg = args[index].as_slice();
    assert(text::texts(args@)[index as int] == arg@);
    match text::parse_signed(arg) {
        Some(delta) => Ok(delta),
        None => Err(
            text::quoted(
                "Invalid resize delta '",
                arg,
                "'. Expected pixel values (e.g. '-30').",
            ),
        ),
    }
}

/// The outcome of a translation: a command, or why there is none.
pub open spec fn command_outcome(r: Result<InvokeCommand, String>) -> Result<
    CommandModel,
    Seq<char>,
> {
    match r {
        Ok(command) => Ok(command@),
        Err(message) => Err(message@),
    }
}

/// A command that focuses something. All but one of its fields are unset.
pub open spec fn no_focus() -> FocusModel {
    FocusModel {
        direction: None,
        workspace: None,
        monitor: None,
        next_workspace: false,
        prev_workspace: false,
    }
}

/// Makes a command that focuses nothing yet.
fn empty_focus() -> (command: InvokeFocusCommand)
    ensures
        command@ == no_focus(),
{
    InvokeFocusCommand {
        direction: None,
        workspace: None,
        monitor: None,
        next_workspace: false,
        prev_workspace: false,
    }
}

/// Whether an argument is a flag rather than the name of a workspace.
pub open spec fn is_workspace_flag(arg: Seq<char>) -> bool {
    arg == "silent"@ || arg == "opt-in"@ || arg == "opt-out"@ || arg == "new"@
}

/// The name of a workspace amongst the arguments: the first one, from index
/// `i` on, that is no flag.
pub open spec fn workspace_name(args: Seq<Seq<char>>, i: int) -> Option<Seq<char>>
    decreases args.len() - i,
{
    if i >= args.len() {
        None
    } else if is_workspace_flag(args[i]) {
        workspace_name(args, i + 1)
    } else {
        Some(args[i])
    }
}

/// What `movetoworkspace` stands for.
pub open spec fn move_to_workspace(args: Seq<Seq<char>>) -> Result<CommandModel, Seq<char>> {
    match workspace_name(args, 0) {
        Some(name) => Ok(
            CommandModel::Move(MoveModel { direction: None, workspace: Some(name) }),
        ),
        None => Err("Missing workspace argument."@),
    }
}

/// Translates the `movetoworkspace` and `movetoworkspacesilent` dispatchers.
///
/// Flags (e.g. `silent`) are skipped; only the name of the workspace matters.
pub fn translate_move_to_workspace(args: &Vec<Vec<char>>) -> (r: Result<InvokeCommand, String>)
    ensures
        command_outcome(r) == move_to_workspace(text::texts(args@)),
{
    let ghost list = text::texts(args@);
    let mut i: usize = 0;
    while i < args.len()
        invariant
            i <= args.len(),
            list == text::texts(args@),
            workspace_name(list, 0) == workspace_name(list, i as int),
        decreases args.len() - i,
    {
        let arg = args[i].as_slice();
        assert(list[i as int] == arg@);
        if !is_text(arg, "silent") && !is_text(arg, "opt-in") && !is_text(arg, "opt-out")
            && !is_text(arg, "new") {
            return Ok(
                InvokeCommand::Move(
                    InvokeMoveCommand { direction: None, workspace: Some(text::string_of(arg)) },
                ),
            );
        }
        i += 1;
    }
    Err("Missing workspace argument.".to_owned())
}

/// What `workspace` stands for.
pub open spec fn workspace_focus(args: Seq<Seq<char>>) -> Result<CommandModel, Seq<char>> {
    if args.len() == 0 {
        Err("Missing workspace argument."@)
    } else {
        let name = text::lowered(args[0]);
        if name == "next"@ {
            Ok(CommandModel::Focus(FocusModel { next_workspace: true, ..no_focus() }))
        } else if name == "previous"@ || name == "prev"@ {
            Ok(CommandModel::Focus(FocusModel { prev_workspace: true, ..no_focus() }))
        } else {
            Ok(CommandModel::Focus(FocusModel { workspace: Some(args[0]), ..no_focus() }))
        }
    }
}

/// Translates the `workspace` dispatcher. Besides the names of workspaces, it
/// takes `next` and `previous`.
pub fn translate_workspace_focus(args: &Vec<Vec<char>>) -> (r: Result<InvokeCommand, String>)
    ensures
        command_outcome(r) == workspace_focus(text::texts(args@)),
{
    if args.len() == 0 {
        return Err("Missing workspace argument.".to_owned());
    }
    let target = args[0].as_slice();
    assert(text::texts(args@)[0] == target@);
    let lower = text::to_lower(target);
    let name = lower.as_slice();
    let mut command = empty_focus();
    if is_text(name, "next") {
        command.next_workspace = true;
    } else if is_text(name, "previous") || is_text(name, "prev") {
        command.prev_workspace = true;
    } else {
        command.workspace = Some(text::string_of(target));
    }
    Ok(InvokeCommand::Focus(command))
}

/// How many modifiers the arguments start with, from index `i` on.
pub open spec fn shortcut_key_index(args: Seq<Seq<char>>, i: int) -> int
    decreases args.len() - i,
{
    if i >= args.len() || keysyms::modifier_named(text::lowered(args[i])) is None {
        i
    } else {
        shortcut_key_index(args, i + 1)
    }
}

/// The modifiers that the first `n` tokens stand for.
pub open spec fn modifiers_of(tokens: Seq<Seq<char>>, n: int) -> Seq<Key> {
    Seq::new(n as nat, |i: int| keysyms::modifier_named(text::lowered(tokens[i]))->0)
}

/// What `sendshortcut` stands for.
pub open spec fn send_shortcut(args: Seq<Seq<char>>) -> Result<CommandModel, Seq<char>> {
    let n = shortcut_key_index(args, 0);
    if n >= args.len() {
        Err("Missing key for 'sendshortcut'."@)
    } else {
        match trigger_key_of(args[n]) {
            Err(message) => Err(message),
            Ok(key) => if n + 1 < args.len() {
                Err(
                    "Targeting a specific window ('"@ + args[n + 1]
                        + "') is unsupported for 'sendshortcut'; it always applies to the focused window."@,
                )
            } else {
                Ok(CommandModel::SendShortcut { keys: modifiers_of(args, n).push(key) })
            },
        }
    }
}

/// Translates the `sendshortcut` dispatcher: modifiers, and then a key.
///
/// The shortcut always goes to the focused window. So anything after the key
/// is refused, rather than sending the shortcut to the wrong window.
pub fn translate_send_shortcut(args: &Vec<Vec<char>>) -> (r: Result<InvokeCommand, String>)
    ensures
        command_outcome(r) == send_shortcut(text::texts(args@)),
{
    let ghost list = text::texts(args@);
    let mut keys: Vec<Key> = Vec::new();
    let mut i: usize = 0;
    assert(keys@ =~= modifiers_of(list, 0));
    while i < args.len()
        invariant
            i <= args.len(),
            list == text::texts(args@),
            shortcut_key_index(list, 0) == shortcut_key_index(list, i as int),
            keys@ == modifiers_of(list, i as int),
        decreases args.len() - i,
    {
        let arg = args[i].as_slice();
        assert(list[i as int] == arg@);
        let lower = text::to_lower(arg);
        match parse_modifier_token(lower.as_slice()) {
            Some(modifier) => {
                keys.push(modifier);
                assert(keys@ =~= modifiers_of(list, i + 1));
            },
            None => {
                let trigger_key = match parse_trigger_key(arg) {
                    Ok(key) => key,
                    Err(message) => {
                        return Err(message);
                    },
                };
                if i + 1 < args.len() {
                    let window_arg = args[i + 1].as_slice();
                    assert(list[i + 1] == window_arg@);
                    return Err(
                        text::quoted(
                            "Targeting a specific window ('",
                            window_arg,
                            "') is unsupported for 'sendshortcut'; it always applies to the focused window.",
                        ),
                    );
                }
                keys.push(trigger_key);
                return Ok(InvokeCommand::SendShortcut { keys });
            },
        }
        i += 1;
    }
    Err("Missing key for 'sendshortcut'.".to_owned())
}

/// What `fullscreen` stands for.
pub open spec fn fullscreen(args: Seq<Seq<char>>) -> CommandModel {
    match arg_at(args, 0) {
        Some(arg) => CommandModel::ToggleFullscreen {
            shown_on_top: if arg == "2"@ || arg == "ontop"@ {
                Some(true)
            } else {
                None
            },
            maximized: if arg == "1"@ || arg == "maximized"@ {
                Some(true)
            } else {
                None
            },
        },
        None => CommandModel::ToggleFullscreen { shown_on_top: None, maximized: None },
    }
}

/// Translates the `fullscreen` dispatcher.
fn translate_fullscreen(args: &Vec<Vec<char>>) -> (command: InvokeCommand)
    ensures
        command@ == fullscreen(text::texts(args@)),
{
    if args.len() == 0 {
        return InvokeCommand::ToggleFullscreen { shown_on_top: None, maximized: None };
    }
    let arg = args[0].as_slice();
    proof {
        assert(text::texts(args@)[0] == arg@);
        reveal_strlit("1");
        reveal_strlit("2");
        reveal_strlit("maximized");
        reveal_strlit("ontop");
        assert("1"@[0] != "2"@[0]);
        assert("maximized"@.len() == 9 && "ontop"@.len() == 5);
    }
    if is_text(arg, "1") || is_text(arg, "maximized") {
        InvokeCommand::ToggleFullscreen { shown_on_top: None, maximized: Some(true) }
    } else if is_text(arg, "2") || is_text(arg, "ontop") {
        InvokeCommand::ToggleFullscreen { shown_on_top: Some(true), maximized: None }
    } else {
        InvokeCommand::ToggleFullscreen { shown_on_top: None, maximized: None }
    }
}

/// The length that a resize delta stands for. Zero stands for none, so that
/// the other axis is left alone.
pub open spec fn resize_length(delta: int) -> Option<LengthValue> {
    if delta != 0 {
        Some(LengthValue::spec_from_px(delta))
    } else {
        None
    }
}

/// What `resizeactive` stands for.
pub open spec fn resize_active(args: Seq<Seq<char>>) -> Result<CommandModel, Seq<char>> {
    match resize_delta_of(arg_at(args, 0)) {
        Err(message) => Err(message),
        Ok(width) => match resize_delta_of(arg_at(args, 1)) {
            Err(message) => Err(message),
            Ok(height) => if width == 0 && height == 0 {
                Err("Resize deltas for 'resizeactive' cannot both be zero."@)
            } else {
                Ok(
                    CommandModel::Resize(
                        InvokeResizeCommand {
                            width: resize_length(width),
                            height: resize_length(height),
                        },
                    ),
                )
            },
        },
    }
}

/// Translates the `resizeactive` dispatcher.
fn translate_resize_active(args: &Vec<Vec<char>>) -> (r: Result<InvokeCommand, String>)
    ensures
        command_outcome(r) == resize_active(text::texts(args@)),
{
    let width = match parse_resize_delta(args, 0) {
        Ok(width) => width,
        Err(message) => {
            return Err(message);
        },
    };
    let height = match parse_resize_delta(args, 1) {
        Ok(height) => height,
        Err(message) => {
            return Err(message);
        },
    };
    if width == 0 && height == 0 {
        return Err("Resize deltas for 'resizeactive' cannot both be zero.".to_owned());
    }
    Ok(
        InvokeCommand::Resize(
            InvokeResizeCommand {
                width: if width != 0 {
                    Some(LengthValue::from_px(width))
                } else {
                    None
                },
                height: if height != 0 {
                    Some(LengthValue::from_px(height))
                } else {
                    None
                },
            },
        ),
    )
}

/// What `focusmonitor` stands for. The index is plain digits.
pub open spec fn focus_monitor(name: Seq<char>, args: Seq<Seq<char>>) -> Result<
    CommandModel,
    Seq<char>,
> {
    let index = match arg_at(args, 0) {
        Some(arg) => text::spec_parse_natural(arg, usize::MAX as int),
        None => None,
    };
    match index {
        Some(index) => Ok(
            CommandModel::Focus(FocusModel { monitor: Some(index as usize), ..no_focus() }),
        ),
        None => Err("Invalid monitor index for '"@ + name + "'."@),
    }
}

/// Translates the `focusmonitor` dispatcher.
fn translate_focus_monitor(name: &[char], args: &Vec<Vec<char>>) -> (r: Result<
    InvokeCommand,
    String,
>)
    ensures
        command_outcome(r) == focus_monitor(name@, text::texts(args@)),
{
    if args.len() > 0 {
        let arg = args[0].as_slice();
        assert(text::texts(args@)[0] == arg@);
        match text::parse_natural(arg, usize::MAX) {
            Some(index) => {
                let mut command = empty_focus();
                command.monitor = Some(index);
                return Ok(InvokeCommand::Focus(command));
            },
            None => {},
        }
    }
    Err(text::quoted("Invalid monitor index for '", name, "'."))
}

/// What dispatchers without any arguments stand for. The name is in lower
/// case.
pub open spec fn plain_dispatcher(name: Seq<char>) -> Option<CommandModel> {
    if name == "killactive"@ || name == "closewindow"@ || name == "closewindowconfirm"@ {
        Some(CommandModel::Close)
    } else if name == "exit"@ || name == "quit"@ {
        Some(CommandModel::WmExit)
    } else if name == "reload"@ || name == "forcerendererreload"@ {
        Some(CommandModel::WmReloadConfig)
    } else if name == "togglesplit"@ {
        Some(CommandModel::ToggleTilingDirection)
    } else if name == "togglefloating"@ {
        Some(CommandModel::ToggleFloating { shown_on_top: None, centered: None })
    } else if name == "cyclenext"@ || name == "cycleprev"@ {
        Some(
            CommandModel::WmCycleFocus {
                omit_floating: false,
                omit_fullscreen: false,
                omit_minimized: true,
                omit_tiling: false,
            },
        )
    } else {
        None
    }
}

/// Translates the dispatchers without any arguments.
fn translate_plain_dispatcher(name: &[char]) -> (r: Option<InvokeCommand>)
    ensures
        match plain_dispatcher(name@) {
            Some(command) => r matches Some(c) && c@ == command,
            None => r is None,
        },
{
    if is_text(name, "killactive") || is_text(name, "closewindow") || is_text(
        name,
        "closewindowconfirm",
    ) {
        Some(InvokeCommand::Close)
    } else if is_text(name, "exit") || is_text(name, "quit") {
        Some(InvokeCommand::WmExit)
    } else if is_text(name, "reload") || is_text(name, "forcerendererreload") {
        Some(InvokeCommand::WmReloadConfig)
    } else if is_text(name, "togglesplit") {
        Some(InvokeCommand::ToggleTilingDirection)
    } else if is_text(name, "togglefloating") {
        Some(InvokeCommand::ToggleFloating { shown_on_top: None, centered: None })
    } else if is_text(name, "cyclenext") || is_text(name, "cycleprev") {
        Some(
            InvokeCommand::WmCycleFocus {
                omit_floating: false,
                omit_fullscreen: false,
                omit_minimized: true,
                omit_tiling: false,
            },
        )
    } else {
        None
    }
}

/// What dispatchers that take a direction stand for.
pub open spec fn directed_dispatcher(name: Seq<char>, direction: Direction) -> CommandModel {
    if name == "movefocus"@ {
        CommandModel::Focus(FocusModel { direction: Some(direction), ..no_focus() })
    } else if name == "movewindow"@ {
        CommandModel::Move(MoveModel { direction: Some(direction), workspace: None })
    } else {
        CommandModel::Swap { direction }
    }
}

/// The command that a dispatcher and its arguments stand for, or why there is
/// none.
pub open spec fn dispatched(name: Seq<char>, args: Seq<Seq<char>>) -> Result<
    CommandModel,
    Seq<char>,
> {
    let lower_name = text::lowered(name);
    if plain_dispatcher(lower_name) is Some {
        Ok(plain_dispatcher(lower_name)->0)
    } else if lower_name == "fullscreen"@ {
        Ok(fullscreen(args))
    } else if lower_name == "movefocus"@ || lower_name == "movewindow"@ || lower_name
        == "swapwindow"@ {
        match direction_of(arg_at(args, 0)) {
            Ok(direction) => Ok(directed_dispatcher(lower_name, direction)),
            Err(message) => Err(message),
        }
    } else if lower_name == "movetoworkspace"@ || lower_name == "movetoworkspacesilent"@ {
        move_to_workspace(args)
    } else if lower_name == "workspace"@ {
        workspace_focus(args)
    } else if lower_name == "focusmonitor"@ {
        focus_monitor(name, args)
    } else if lower_name == "resizeactive"@ {
        resize_active(args)
    } else if lower_name == "sendshortcut"@ || lower_name == "sendkeys"@ {
        send_shortcut(args)
    } else if lower_name == "exec"@ || lower_name == "execr"@ || lower_name == "shell"@ {
        Ok(CommandModel::ShellExec { hide_window: false, command: args })
    } else {
        Err("Unsupported Hyprland dispatcher '"@ + name + "'."@)
    }
}

/// Makes strings of texts.
pub(crate) fn strings_of(list: &Vec<Vec<char>>) -> (r: Vec<String>)
    ensures
        app_command::texts_of(r@) == text::texts(list@),
{
    let mut r: Vec<String> = Vec::new();
    let mut i: usize = 0;
    while i < list.len()
        invariant
            i <= list.len(),
            app_command::texts_of(r@) == text::texts(list@).take(i as int),
        decreases list.len() - i,
    {
        let ghost before = app_command::texts_of(r@);
        r.push(text::string_of(list[i].as_slice()));
        i += 1;
        assert(app_command::texts_of(r@) =~= before.push(text::texts(list@)[i - 1]));
        assert(app_command::texts_of(r@) =~= text::texts(list@).take(i as int));
    }
    assert(text::texts(list@).take(i as int) =~= text::texts(list@));
    r
}

/// Translates a dispatcher and its arguments into a command.
pub fn translate_dispatcher(name: &[char], args: &Vec<Vec<char>>) -> (r: Result<
    InvokeCommand,
    String,
>)
    ensures
        command_outcome(r) == dispatched(name@, text::texts(args@)),
{
    let lower = text::to_lower(name);
    let lower_name = lower.as_slice();
    match translate_plain_dispatcher(lower_name) {
        Some(command) => {
            return Ok(command);
        },
        None => {},
    }
    if is_text(lower_name, "fullscreen") {
        Ok(translate_fullscreen(args))
    } else if is_text(lower_name, "movefocus") || is_text(lower_name, "movewindow") || is_text(
        lower_name,
        "swapwindow",
    ) {
        let direction = match parse_direction(args) {
            Ok(direction) => direction,
            Err(message) => {
                return Err(message);
            },
        };
        if is_text(lower_name, "movefocus") {
            let mut command = empty_focus();
            command.direction = Some(direction);
            Ok(InvokeCommand::Focus(command))
        } else if is_text(lower_name, "movewindow") {
            Ok(
                InvokeCommand::Move(
                    InvokeMoveCommand { direction: Some(direction), workspace: None },
                ),
            )
        } else {
            Ok(InvokeCommand::Swap { direction })
        }
    } else if is_text(lower_name, "movetoworkspace") || is_text(
        lower_name,
        "movetoworkspacesilent",
    ) {
        translate_move_to_workspace(args)
    } else if is_text(lower_name, "workspace") {
        translate_workspace_focus(args)
    } else if is_text(lower_name, "focusmonitor") {
        translate_focus_monitor(name, args)
    } else if is_text(lower_name, "resizeactive") {
        translate_resize_active(args)
    } else if is_text(lower_name, "sendshortcut") || is_text(lower_name, "sendkeys") {
        translate_send_shortcut(args)
    } else if is_text(lower_name, "exec") || is_text(lower_name, "execr") || is_text(
        lower_name,
        "shell",
    ) {
        Ok(InvokeCommand::ShellExec { hide_window: false, command: strings_of(args) })
    } else {
        Err(text::quoted("Unsupported Hyprland dispatcher '", name, "'."))
    }
}

} // verus!
