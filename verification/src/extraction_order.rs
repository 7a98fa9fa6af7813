//! What comes of the lines of a config, one by one.

use vstd::prelude::*;

use crate::app_command::{CommandModel, KeybindingModel};
use crate::directive_line;
use crate::hyprland_directives::{self, Extraction};
use crate::text;

verus! {

/// The name of the directive on a line, in lower case.
pub open spec fn name_on(line: Seq<char>) -> Seq<char> {
    text::lowered((directive_line::directive_on(line)->0).0)
}

/// The value of the directive on a line.
pub open spec fn value_on(line: Seq<char>) -> Seq<char> {
    (directive_line::directive_on(line)->0).1
}

/// Whether a line declares a command to run at startup.
pub open spec fn is_startup_line(line: Seq<char>) -> bool {
    &&& directive_line::directive_on(line) is Some
    &&& name_on(line) == "exec-once"@ || name_on(line) == "execr-once"@
    &&& text::words(value_on(line)).len() > 0
}

/// Whether a line declares a command to run at shutdown.
pub open spec fn is_shutdown_line(line: Seq<char>) -> bool {
    &&& directive_line::directive_on(line) is Some
    &&& name_on(line) == "exec-shutdown"@ || name_on(line) == "execr-shutdown"@
    &&& text::words(value_on(line)).len() > 0
}

/// Whether a line declares a keybinding that can be translated. Buttons of the
/// mouse cannot be bound.
pub open spec fn is_keybinding_line(line: Seq<char>) -> bool {
    &&& directive_line::directive_on(line) is Some
    &&& name_on(line).len() >= 4
    &&& name_on(line).take(4) == "bind"@
    &&& name_on(line) != "bindings"@
    &&& name_on(line) != "bindm"@
    &&& hyprland_directives::bind_of(value_on(line)) is Ok
}

/// The shell command that the value of a line stands for: all of its words.
pub open spec fn shell_command(line: Seq<char>) -> CommandModel {
    CommandModel::ShellExec { hide_window: false, command: text::words(value_on(line)) }
}

/// The keybinding that the value of a line stands for.
pub open spec fn keybinding(line: Seq<char>) -> KeybindingModel {
    hyprland_directives::bind_of(value_on(line))->Ok_0
}

/// The names of directives tell them apart.
proof fn lemma_names()
    ensures
        "bind"@.len() == 4,
        "exec-once"@.take(4) != "bind"@,
        "execr-once"@.take(4) != "bind"@,
        "exec-shutdown"@.take(4) != "bind"@,
        "execr-shutdown"@.take(4) != "bind"@,
        "exec-once"@ != "exec-shutdown"@,
        "exec-once"@ != "execr-shutdown"@,
        "execr-once"@ != "exec-shutdown"@,
        "execr-once"@ != "execr-shutdown"@,
{
    reveal_strlit("bind");
    reveal_strlit("exec-once");
    reveal_strlit("execr-once");
    reveal_strlit("exec-shutdown");
    reveal_strlit("execr-shutdown");
    assert("exec-once"@.take(4)[0] != "bind"@[0]);
    assert("execr-once"@.take(4)[0] != "bind"@[0]);
    assert("exec-shutdown"@.take(4)[0] != "bind"@[0]);
    assert("execr-shutdown"@.take(4)[0] != "bind"@[0]);
    assert("exec-once"@.len() != "exec-shutdown"@.len());
    assert("exec-once"@.len() != "execr-shutdown"@.len());
    assert("execr-once"@.len() != "exec-shutdown"@.len());
    assert("execr-once"@.len() != "execr-shutdown"@.len());
}

/// A further line adds what it declares behind what was there before, and
/// nothing else: a line that is no directive is kept, and one that declares a
/// command or a keybinding adds just that.
pub proof fn law_line_adds_what_it_declares(lines: Seq<Seq<char>>, line: Seq<char>)
    ensures
        ({
            let before = hyprland_directives::extracted(lines);
            let after = hyprland_directives::extracted(lines.push(line));
            &&& after.kept == if directive_line::directive_on(line) is None {
                before.kept.push(line)
            } else {
                before.kept
            }
            &&& after.startup_commands == if is_startup_line(line) {
                before.startup_commands.push(shell_command(line))
            } else {
                before.startup_commands
            }
            &&& after.shutdown_commands == if is_shutdown_line(line) {
                before.shutdown_commands.push(shell_command(line))
            } else {
                before.shutdown_commands
            }
            &&& after.keybindings == if is_keybinding_line(line) {
                before.keybindings.push(keybinding(line))
            } else {
                before.keybindings
            }
        }),
{
    lemma_names();
    assert(lines.push(line).drop_last() =~= lines);
    if directive_line::directive_on(line) is Some {
        let name = name_on(line);
        assert(text::spec_starts_with(name, "bind"@) == (name.len() >= 4 && name.take(4)
            == "bind"@)) by {
            if name.len() >= 4 {
                assert(name.subrange(0, 4) =~= name.take(4));
            }
            if text::spec_starts_with(name, "bind"@) {
                assert(name.take(4) =~= "bind"@);
            }
        }
    }
}

/// The startup commands are those of all `exec-once` and `execr-once` lines
/// with a word in their value, one for each and in the order of the lines. So
/// are the shutdown commands, and the keybindings of all binds that can be
/// translated. What is kept are the lines that are no directives.
pub proof fn law_extraction_goes_line_by_line(lines: Seq<Seq<char>>)
    ensures
        ({
            let e = hyprland_directives::extracted(lines);
            &&& e.startup_commands == lines.filter(
                |line: Seq<char>| is_startup_line(line),
            ).map_values(|line: Seq<char>| shell_command(line))
            &&& e.shutdown_commands == lines.filter(
                |line: Seq<char>| is_shutdown_line(line),
            ).map_values(|line: Seq<char>| shell_command(line))
            &&& e.keybindings == lines.filter(
                |line: Seq<char>| is_keybinding_line(line),
            ).map_values(|line: Seq<char>| keybinding(line))
            &&& e.kept == lines.filter(
                |line: Seq<char>| directive_line::directive_on(line) is None,
            )
        }),
    decreases lines.len(),
{
    reveal(Seq::filter);
    let e = hyprland_directives::extracted(lines);
    let startup = lines.filter(|line: Seq<char>| is_startup_line(line));
    let shutdown = lines.filter(|line: Seq<char>| is_shutdown_line(line));
    let bound = lines.filter(|line: Seq<char>| is_keybinding_line(line));
    if lines.len() > 0 {
        let init = lines.drop_last();
        law_extraction_goes_line_by_line(init);
        law_line_adds_what_it_declares(init, lines.last());
        assert(init.push(lines.last()) =~= lines);
    }
    assert(e.startup_commands =~= startup.map_values(|line: Seq<char>| shell_command(line)));
    assert(e.shutdown_commands =~= shutdown.map_values(|line: Seq<char>| shell_command(line)));
    assert(e.keybindings =~= bound.map_values(|line: Seq<char>| keybinding(line)));
}

/// What two configs declare one after the other is what the first one declares
/// and then what the second one does.
pub proof fn law_configs_add_up(one: Seq<Seq<char>>, other: Seq<Seq<char>>)
    ensures
        ({
            let a = hyprland_directives::extracted(one);
            let b = hyprland_directives::extracted(other);
            hyprland_directives::extracted(one + other) == (Extraction {
                kept: a.kept + b.kept,
                keybindings: a.keybindings + b.keybindings,
                startup_commands: a.startup_commands + b.startup_commands,
                shutdown_commands: a.shutdown_commands + b.shutdown_commands,
            })
        }),
    decreases other.len(),
{
    let a = hyprland_directives::extracted(one);
    let b = hyprland_directives::extracted(other);
    let all = hyprland_directives::extracted(one + other);
    if other.len() == 0 {
        assert(one + other =~= one);
    } else {
        let init = other.drop_last();
        law_configs_add_up(one, init);
        law_line_adds_what_it_declares(one + init, other.last());
        law_line_adds_what_it_declares(init, other.last());
        assert((one + init).push(other.last()) =~= one + other);
        assert(init.push(other.last()) =~= other);
    }
    assert(all =~= (Extraction {
        kept: a.kept + b.kept,
        keybindings: a.keybindings + b.keybindings,
        startup_commands: a.startup_commands + b.startup_commands,
        shutdown_commands: a.shutdown_commands + b.shutdown_commands,
    }));
}

/// What remains of a config are the lines that are no directives, joined by
/// line feeds. It ends with a line feed exactly if the config did.
pub proof fn law_remainder(config: Seq<char>)
    ensures
        ({
            let kept = text::joined(
                text::lines(config).filter(
                    |line: Seq<char>| directive_line::directive_on(line) is None,
                ),
            );
            hyprland_directives::stripped(config) == if config.len() > 0 && config.last() == '\n' {
                kept + seq!['\n']
            } else {
                kept
            }
        }),
{
    let kept = hyprland_directives::extracted(text::lines(config)).kept;
    law_extraction_goes_line_by_line(text::lines(config));
    assert(text::joined(kept).push('\n') =~= text::joined(kept) + seq!['\n']);
}

} // verus!
