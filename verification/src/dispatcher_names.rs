//! What Hyprland's dispatchers do, name by name.

use vstd::prelude::*;

use crate::app_command::{CommandModel, FocusModel, LengthUnit, MoveModel};
use crate::dispatchers;
use crate::geometry::Direction;
use crate::keys::Key;
use crate::keysyms;
use crate::text;

verus! {

/// The names of the dispatchers differ from each other.
pub proof fn lemma_dispatcher_names()
    ensures
        "killactive"@.len() == 10 && "killactive"@[0] == 'k',
        "closewindow"@.len() == 11 && "closewindow"@[0] == 'c',
        "closewindowconfirm"@.len() == 18,
        "exit"@.len() == 4 && "exit"@[0] == 'e' && "exit"@[2] == 'i',
        "quit"@.len() == 4 && "quit"@[0] == 'q',
        "reload"@.len() == 6,
        "forcerendererreload"@.len() == 19,
        "togglesplit"@.len() == 11 && "togglesplit"@[0] == 't',
        "togglefloating"@.len() == 14,
        "cyclenext"@.len() == 9 && "cyclenext"@[0] == 'c' && "cyclenext"@[5] == 'n',
        "cycleprev"@.len() == 9 && "cycleprev"@[0] == 'c' && "cycleprev"@[5] == 'p',
        "fullscreen"@.len() == 10 && "fullscreen"@[0] == 'f',
        "movefocus"@.len() == 9 && "movefocus"@[0] == 'm',
        "movewindow"@.len() == 10 && "movewindow"@[0] == 'm',
        "swapwindow"@.len() == 10 && "swapwindow"@[0] == 's',
        "movetoworkspace"@.len() == 15,
        "movetoworkspacesilent"@.len() == 21,
        "workspace"@.len() == 9 && "workspace"@[0] == 'w',
        "focusmonitor"@.len() == 12 && "focusmonitor"@[0] == 'f',
        "resizeactive"@.len() == 12 && "resizeactive"@[0] == 'r',
        "sendshortcut"@.len() == 12 && "sendshortcut"@[0] == 's',
        "sendkeys"@.len() == 8,
        "exec"@.len() == 4 && "exec"@[0] == 'e' && "exec"@[2] == 'e',
        "execr"@.len() == 5 && "execr"@[0] == 'e',
        "shell"@.len() == 5 && "shell"@[0] == 's',
{
    reveal_strlit("killactive");
    reveal_strlit("closewindow");
    reveal_strlit("closewindowconfirm");
    reveal_strlit("exit");
    reveal_strlit("quit");
    reveal_strlit("reload");
    reveal_strlit("forcerendererreload");
    reveal_strlit("togglesplit");
    reveal_strlit("togglefloating");
    reveal_strlit("cyclenext");
    reveal_strlit("cycleprev");
    reveal_strlit("fullscreen");
    reveal_strlit("movefocus");
    reveal_strlit("movewindow");
    reveal_strlit("swapwindow");
    reveal_strlit("movetoworkspace");
    reveal_strlit("movetoworkspacesilent");
    reveal_strlit("workspace");
    reveal_strlit("focusmonitor");
    reveal_strlit("resizeactive");
    reveal_strlit("sendshortcut");
    reveal_strlit("sendkeys");
    reveal_strlit("exec");
    reveal_strlit("execr");
    reveal_strlit("shell");
}

/// The names amongst the arguments differ from each other.
pub proof fn lemma_argument_names()
    ensures
        "l"@.len() == 1 && "l"@[0] == 'l',
        "left"@.len() == 4 && "left"@[0] == 'l',
        "r"@.len() == 1 && "r"@[0] == 'r',
        "right"@.len() == 5 && "right"@[0] == 'r',
        "u"@.len() == 1 && "u"@[0] == 'u',
        "up"@.len() == 2,
        "d"@.len() == 1 && "d"@[0] == 'd',
        "down"@.len() == 4 && "down"@[0] == 'd',
        "silent"@.len() == 6 && "silent"@[0] == 's',
        "opt-in"@.len() == 6 && "opt-in"@[0] == 'o',
        "opt-out"@.len() == 7,
        "new"@.len() == 3,
        "next"@.len() == 4 && "next"@[0] == 'n',
        "previous"@.len() == 8,
        "prev"@.len() == 4 && "prev"@[0] == 'p',
        "1"@.len() == 1 && "1"@[0] == '1',
        "2"@.len() == 1 && "2"@[0] == '2',
        "maximized"@.len() == 9,
        "ontop"@.len() == 5 && "ontop"@[0] == 'o',
{
    reveal_strlit("l");
    reveal_strlit("left");
    reveal_strlit("r");
    reveal_strlit("right");
    reveal_strlit("u");
    reveal_strlit("up");
    reveal_strlit("d");
    reveal_strlit("down");
    reveal_strlit("silent");
    reveal_strlit("opt-in");
    reveal_strlit("opt-out");
    reveal_strlit("new");
    reveal_strlit("next");
    reveal_strlit("previous");
    reveal_strlit("prev");
    reveal_strlit("1");
    reveal_strlit("2");
    reveal_strlit("maximized");
    reveal_strlit("ontop");
}

/// Whether the name of a dispatcher is the given one. Case does not matter.
pub open spec fn is_called(name: Seq<char>, other: Seq<char>) -> bool {
    text::lowered(name) == other
}

/// Whether an argument names a direction, by its first letter or in full.
pub open spec fn names_direction(arg: Seq<char>, direction: Direction) -> bool {
    let name = text::lowered(arg);
    match direction {
        Direction::Left => name == "l"@ || name == "left"@,
        Direction::Right => name == "r"@ || name == "right"@,
        Direction::Up => name == "u"@ || name == "up"@,
        Direction::Down => name == "d"@ || name == "down"@,
    }
}

/// The dispatchers that do the same whatever their arguments are.
pub proof fn law_plain_dispatchers(name: Seq<char>, args: Seq<Seq<char>>)
    ensures
        is_called(name, "killactive"@) || is_called(name, "closewindow"@) || is_called(
            name,
            "closewindowconfirm"@,
        ) ==> dispatchers::dispatched(name, args) == Ok::<CommandModel, Seq<char>>(
            CommandModel::Close,
        ),
        is_called(name, "exit"@) || is_called(name, "quit"@) ==> dispatchers::dispatched(name, args)
            == Ok::<CommandModel, Seq<char>>(CommandModel::WmExit),
        is_called(name, "reload"@) || is_called(name, "forcerendererreload"@)
            ==> dispatchers::dispatched(name, args) == Ok::<CommandModel, Seq<char>>(
            CommandModel::WmReloadConfig,
        ),
        is_called(name, "togglesplit"@) ==> dispatchers::dispatched(name, args) == Ok::<
            CommandModel,
            Seq<char>,
        >(CommandModel::ToggleTilingDirection),
        is_called(name, "togglefloating"@) ==> dispatchers::dispatched(name, args) == Ok::<
            CommandModel,
            Seq<char>,
        >(CommandModel::ToggleFloating { shown_on_top: None, centered: None }),
        is_called(name, "cyclenext"@) || is_called(name, "cycleprev"@) ==> dispatchers::dispatched(
            name,
            args,
        ) == Ok::<CommandModel, Seq<char>>(
            CommandModel::WmCycleFocus {
                omit_floating: false,
                omit_fullscreen: false,
                omit_minimized: true,
                omit_tiling: false,
            },
        ),
{
    lemma_dispatcher_names();
}

/// `movefocus`, `movewindow` and `swapwindow` focus, move and swap in the
/// direction that their first argument names, and in no other.
pub proof fn law_directed_dispatchers(
    name: Seq<char>,
    args: Seq<Seq<char>>,
    direction: Direction,
)
    requires
        args.len() > 0,
        names_direction(args[0], direction),
    ensures
        is_called(name, "movefocus"@) ==> dispatchers::dispatched(name, args) == Ok::<
            CommandModel,
            Seq<char>,
        >(
            CommandModel::Focus(
                FocusModel {
                    direction: Some(direction),
                    workspace: None,
                    monitor: None,
                    next_workspace: false,
                    prev_workspace: false,
                },
            ),
        ),
        is_called(name, "movewindow"@) ==> dispatchers::dispatched(name, args) == Ok::<
            CommandModel,
            Seq<char>,
        >(CommandModel::Move(MoveModel { direction: Some(direction), workspace: None })),
        is_called(name, "swapwindow"@) ==> dispatchers::dispatched(name, args) == Ok::<
            CommandModel,
            Seq<char>,
        >(CommandModel::Swap { direction }),
{
    lemma_dispatcher_names();
    lemma_argument_names();
}

/// `movefocus`, `movewindow` and `swapwindow` are refused exactly if their
/// first argument is missing or names no direction.
pub proof fn law_directions_are_needed(name: Seq<char>, args: Seq<Seq<char>>)
    requires
        is_called(name, "movefocus"@) || is_called(name, "movewindow"@) || is_called(
            name,
            "swapwindow"@,
        ),
    ensures
        dispatchers::dispatched(name, args) is Ok <==> args.len() > 0 && exists|
            direction: Direction,
        | #[trigger] names_direction(args[0], direction),
{
    lemma_dispatcher_names();
    lemma_argument_names();
    if args.len() > 0 {
        assert(names_direction(args[0], Direction::Left) || names_direction(
            args[0],
            Direction::Right,
        ) || names_direction(args[0], Direction::Up) || names_direction(args[0], Direction::Down)
            || dispatchers::dispatched(name, args) is Err);
        if exists|direction: Direction| #[trigger] names_direction(args[0], direction) {
            let direction = choose|direction: Direction| #[trigger]
                names_direction(args[0], direction);
            law_directed_dispatchers(name, args, direction);
        }
    }
}

/// `fullscreen` asks for a maximized window or for one on top where its first
/// argument says so, never for both, and for neither otherwise.
pub proof fn law_fullscreen(name: Seq<char>, args: Seq<Seq<char>>)
    requires
        is_called(name, "fullscreen"@),
    ensures
        ({
            let is_maximized = args.len() > 0 && (args[0] == "1"@ || args[0] == "maximized"@);
            let is_on_top = args.len() > 0 && (args[0] == "2"@ || args[0] == "ontop"@);
            &&& !(is_maximized && is_on_top)
            &&& dispatchers::dispatched(name, args) == Ok::<CommandModel, Seq<char>>(
                CommandModel::ToggleFullscreen {
                    shown_on_top: if is_on_top {
                        Some(true)
                    } else {
                        None
                    },
                    maximized: if is_maximized {
                        Some(true)
                    } else {
                        None
                    },
                },
            )
        }),
{
    lemma_dispatcher_names();
    lemma_argument_names();
}

/// `movetoworkspace` moves the window to the workspace that its first argument
/// besides flags names, however many flags come before it.
pub proof fn law_move_to_workspace(name: Seq<char>, args: Seq<Seq<char>>, n: int)
    requires
        is_called(name, "movetoworkspace"@) || is_called(name, "movetoworkspacesilent"@),
        0 <= n <= args.len(),
        forall|i: int|
            0 <= i < n ==> #[trigger] args[i] == "silent"@ || args[i] == "opt-in"@ || args[i]
                == "opt-out"@ || args[i] == "new"@,
        n < args.len() ==> args[n] != "silent"@ && args[n] != "opt-in"@ && args[n] != "opt-out"@
            && args[n] != "new"@,
    ensures
        if n < args.len() {
            dispatchers::dispatched(name, args) == Ok::<CommandModel, Seq<char>>(
                CommandModel::Move(MoveModel { direction: None, workspace: Some(args[n]) }),
            )
        } else {
            dispatchers::dispatched(name, args) is Err
        },
{
    lemma_dispatcher_names();
    lemma_skipped_flags(args, 0, n);
}

proof fn lemma_skipped_flags(args: Seq<Seq<char>>, i: int, n: int)
    requires
        0 <= i <= n <= args.len(),
        forall|k: int| i <= k < n ==> dispatchers::is_workspace_flag(#[trigger] args[k]),
        n < args.len() ==> !dispatchers::is_workspace_flag(args[n]),
    ensures
        dispatchers::workspace_name(args, i) == if n < args.len() {
            Some(args[n])
        } else {
            None
        },
    decreases n - i,
{
    if i < n {
        assert(dispatchers::is_workspace_flag(args[i]));
        lemma_skipped_flags(args, i + 1, n);
    }
}

/// `workspace` focuses the next or the previous workspace where its first
/// argument says so, and otherwise the one of that very name.
pub proof fn law_workspace(name: Seq<char>, args: Seq<Seq<char>>)
    requires
        is_called(name, "workspace"@),
    ensures
        dispatchers::dispatched(name, args) is Ok <==> args.len() > 0,
        args.len() > 0 ==> ({
            let is_next = text::lowered(args[0]) == "next"@;
            let is_previous = text::lowered(args[0]) == "previous"@ || text::lowered(args[0])
                == "prev"@;
            dispatchers::dispatched(name, args) == Ok::<CommandModel, Seq<char>>(
                CommandModel::Focus(
                    FocusModel {
                        direction: None,
                        workspace: if is_next || is_previous {
                            None
                        } else {
                            Some(args[0])
                        },
                        monitor: None,
                        next_workspace: is_next,
                        prev_workspace: is_previous,
                    },
                ),
            )
        }),
{
    lemma_dispatcher_names();
    lemma_argument_names();
}

/// `focusmonitor` focuses the monitor whose index its first argument spells
/// out in digits, and is refused otherwise.
pub proof fn law_focus_monitor(name: Seq<char>, args: Seq<Seq<char>>)
    requires
        is_called(name, "focusmonitor"@),
    ensures
        ({
            let is_index = args.len() > 0 && args[0].len() > 0 && (forall|i: int|
                0 <= i < args[0].len() ==> '0' <= #[trigger] args[0][i] <= '9')
                && text::numeral_value(args[0]) <= usize::MAX;
            if is_index {
                dispatchers::dispatched(name, args) == Ok::<CommandModel, Seq<char>>(
                    CommandModel::Focus(
                        FocusModel {
                            direction: None,
                            workspace: None,
                            monitor: Some(text::numeral_value(args[0]) as usize),
                            next_workspace: false,
                            prev_workspace: false,
                        },
                    ),
                )
            } else {
                dispatchers::dispatched(name, args) is Err
            }
        }),
{
    lemma_dispatcher_names();
    if args.len() > 0 {
        let arg = args[0];
        if text::is_numeral(arg) {
            assert forall|i: int| 0 <= i < arg.len() implies '0' <= #[trigger] arg[i] <= '9' by {
                assert(text::is_ascii_digit(arg[i]));
            }
        }
        if forall|i: int| 0 <= i < arg.len() ==> '0' <= #[trigger] arg[i] <= '9' {
            assert forall|i: int| 0 <= i < arg.len() implies text::is_ascii_digit(
                #[trigger] arg[i],
            ) by {
                assert('0' <= arg[i] <= '9');
            }
        }
    }
}

/// `resizeactive` resizes by the numbers of pixels that its first two arguments
/// are, the first one for the width and the second one for the height. An axis
/// with a zero is left alone.
pub proof fn law_resize_active(name: Seq<char>, args: Seq<Seq<char>>, width: int, height: int)
    requires
        is_called(name, "resizeactive"@),
        args.len() >= 2,
        text::spec_parse_signed(args[0]) == Some(width),
        text::spec_parse_signed(args[1]) == Some(height),
        width != 0 || height != 0,
    ensures
        dispatchers::dispatched(name, args) matches Ok(CommandModel::Resize(command)) && {
            &&& command.width is Some <==> width != 0
            &&& command.height is Some <==> height != 0
            &&& width != 0 ==> (command.width->0).amount == width && (command.width->0).unit
                == LengthUnit::Pixel
            &&& height != 0 ==> (command.height->0).amount == height && (command.height->0).unit
                == LengthUnit::Pixel
        },
{
    lemma_dispatcher_names();
    text::lemma_signed_range(args[0]);
    text::lemma_signed_range(args[1]);
}

/// `resizeactive` is refused exactly if one of its first two arguments is
/// missing or is no number, or if both are zero.
pub proof fn law_resize_active_is_refused(name: Seq<char>, args: Seq<Seq<char>>)
    requires
        is_called(name, "resizeactive"@),
    ensures
        dispatchers::dispatched(name, args) is Err <==> args.len() < 2 || text::spec_parse_signed(
            args[0],
        ) is None || text::spec_parse_signed(args[1]) is None || (text::spec_parse_signed(args[0])
            == Some(0int) && text::spec_parse_signed(args[1]) == Some(0int)),
{
    lemma_dispatcher_names();
}

/// `sendshortcut` sends all modifiers that its arguments start with, in their
/// order, and then the key that follows, which is the last argument.
pub proof fn law_send_shortcut(name: Seq<char>, args: Seq<Seq<char>>, keys: Seq<Key>)
    requires
        is_called(name, "sendshortcut"@) || is_called(name, "sendkeys"@),
        args.len() > 0,
        keys.len() == args.len(),
        forall|i: int|
            0 <= i < args.len() - 1 ==> keysyms::modifier_named(text::lowered(#[trigger] args[i]))
                == Some(keys[i]),
        keysyms::modifier_named(text::lowered(args.last())) is None,
        dispatchers::trigger_key_of(args.last()) == Ok::<Key, Seq<char>>(keys.last()),
    ensures
        dispatchers::dispatched(name, args) == Ok::<CommandModel, Seq<char>>(
            CommandModel::SendShortcut { keys },
        ),
{
    lemma_dispatcher_names();
    let n = args.len() - 1;
    lemma_leading_modifiers(args, 0, n);
    assert(dispatchers::modifiers_of(args, n).push(keys.last()) =~= keys) by {
        assert forall|i: int| 0 <= i < n implies dispatchers::modifiers_of(args, n)[i] == keys[i] by {
            assert(keysyms::modifier_named(text::lowered(args[i])) == Some(keys[i]));
        }
    }
}

/// `sendshortcut` is refused if there is no key behind the modifiers, and if
/// anything follows the key.
pub proof fn law_send_shortcut_is_refused(name: Seq<char>, args: Seq<Seq<char>>, n: int)
    requires
        is_called(name, "sendshortcut"@) || is_called(name, "sendkeys"@),
        0 <= n <= args.len(),
        n != args.len() - 1,
        forall|i: int|
            0 <= i < n ==> keysyms::modifier_named(text::lowered(#[trigger] args[i])) is Some,
        n < args.len() ==> keysyms::modifier_named(text::lowered(args[n])) is None,
    ensures
        dispatchers::dispatched(name, args) is Err,
{
    lemma_dispatcher_names();
    lemma_leading_modifiers(args, 0, n);
}

proof fn lemma_leading_modifiers(args: Seq<Seq<char>>, i: int, n: int)
    requires
        0 <= i <= n <= args.len(),
        forall|k: int|
            i <= k < n ==> keysyms::modifier_named(text::lowered(#[trigger] args[k])) is Some,
        n < args.len() ==> keysyms::modifier_named(text::lowered(args[n])) is None,
    ensures
        dispatchers::shortcut_key_index(args, i) == n,
    decreases n - i,
{
    if i < n {
        assert(keysyms::modifier_named(text::lowered(args[i])) is Some);
        lemma_leading_modifiers(args, i + 1, n);
    }
}

/// `exec` runs all of its arguments as a command, in a window that is shown.
pub proof fn law_exec(name: Seq<char>, args: Seq<Seq<char>>)
    requires
        is_called(name, "exec"@) || is_called(name, "execr"@) || is_called(name, "shell"@),
    ensures
        dispatchers::dispatched(name, args) == Ok::<CommandModel, Seq<char>>(
            CommandModel::ShellExec { hide_window: false, command: args },
        ),
{
    lemma_dispatcher_names();
}

/// Names of no dispatcher are refused.
pub proof fn law_other_dispatchers_are_refused(name: Seq<char>, args: Seq<Seq<char>>)
    requires
        !is_called(name, "killactive"@),
        !is_called(name, "closewindow"@),
        !is_called(name, "closewindowconfirm"@),
        !is_called(name, "exit"@),
        !is_called(name, "quit"@),
        !is_called(name, "reload"@),
        !is_called(name, "forcerendererreload"@),
        !is_called(name, "togglesplit"@),
        !is_called(name, "togglefloating"@),
        !is_called(name, "cyclenext"@),
        !is_called(name, "cycleprev"@),
        !is_called(name, "fullscreen"@),
        !is_called(name, "movefocus"@),
        !is_called(name, "movewindow"@),
        !is_called(name, "swapwindow"@),
        !is_called(name, "movetoworkspace"@),
        !is_called(name, "movetoworkspacesilent"@),
        !is_called(name, "workspace"@),
        !is_called(name, "focusmonitor"@),
        !is_called(name, "resizeactive"@),
        !is_called(name, "sendshortcut"@),
        !is_called(name, "sendkeys"@),
        !is_called(name, "exec"@),
        !is_called(name, "execr"@),
        !is_called(name, "shell"@),
    ensures
        dispatchers::dispatched(name, args) is Err,
{
}

} // verus!
