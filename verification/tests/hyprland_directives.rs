//! Directives in the style of Hyprland.

use glazewm::app_command::{
    InvokeCommand, InvokeFocusCommand, InvokeMoveCommand, InvokeResizeCommand,
};
use glazewm::geometry::Direction;
use glazewm::hyprland_directives::extract_hyprland_directives;
use glazewm::keys::Key;

#[test]
fn test_bind_translation_killactive() {
    let (_, directives) =
        extract_hyprland_directives("bind = SUPER, Q, killactive\n");

    assert_eq!(directives.keybindings.len(), 1);

    let binding = &directives.keybindings[0];
    let keys = binding.bindings[0].keys();

    assert_eq!(keys.len(), 2);
    assert_eq!(keys[0], Key::Win);
    assert_eq!(keys[1], Key::Q);
    assert_eq!(binding.commands[0], InvokeCommand::Close);
}

#[test]
fn test_bind_with_space_separated_modifiers() {
    let (_, directives) =
        extract_hyprland_directives("bind = SUPER SHIFT, V, togglefloating\n");

    assert_eq!(directives.keybindings.len(), 1);

    let keys = directives.keybindings[0].bindings[0].keys();

    assert_eq!(keys, &[Key::Win, Key::Shift, Key::V]);
}

#[test]
fn test_binde_with_no_modifiers() {
    let (_, directives) =
        extract_hyprland_directives("binde = , right, movefocus r\n");

    let keys = directives.keybindings[0].bindings[0].keys();

    assert_eq!(keys, &[Key::Right]);
}

#[test]
fn test_return_alias() {
    let (_, directives) =
        extract_hyprland_directives("bind = SUPER, Return, cyclenext\n");

    let keys = directives.keybindings[0].bindings[0].keys();

    assert_eq!(keys, &[Key::Win, Key::Enter]);
}

#[test]
fn test_exec_once_startup_commands() {
    let (_, directives) =
        extract_hyprland_directives("exec-once = wezterm --cwd ~/projects\n");

    assert_eq!(directives.startup_commands.len(), 1);

    let InvokeCommand::ShellExec { hide_window, command } =
        &directives.startup_commands[0]
    else {
        panic!("Expected ShellExec.");
    };

    assert!(!hide_window);
    assert_eq!(command, &["wezterm", "--cwd", "~/projects"]);
}

#[test]
fn test_exec_shutdown() {
    let (_, directives) =
        extract_hyprland_directives("exec-shutdown = notify-send bye\n");

    assert_eq!(directives.shutdown_commands.len(), 1);
}

#[test]
fn test_movetoworkspace_translation() {
    let (_, directives) =
        extract_hyprland_directives("bind = SUPER, 3, movetoworkspace, 3\n");

    let InvokeCommand::Move(InvokeMoveCommand { workspace, .. }) =
        &directives.keybindings[0].commands[0]
    else {
        panic!("Expected Move.");
    };

    assert_eq!(workspace.as_deref(), Some("3"));
}

#[test]
fn test_workspace_focus_translation() {
    let (_, directives) =
        extract_hyprland_directives("bind = SUPER, 3, workspace, 3\n");

    let InvokeCommand::Focus(InvokeFocusCommand { workspace, .. }) =
        &directives.keybindings[0].commands[0]
    else {
        panic!("Expected Focus.");
    };

    assert_eq!(workspace.as_deref(), Some("3"));
}

#[test]
fn test_movefocus_directions() {
    for (direction_arg, expected) in [
        ("l", Direction::Left),
        ("r", Direction::Right),
        ("u", Direction::Up),
        ("d", Direction::Down),
    ] {
        let config_str =
            format!("bind = SUPER, K, movefocus, {direction_arg}\n");

        let (_, directives) = extract_hyprland_directives(&config_str);

        let InvokeCommand::Focus(InvokeFocusCommand { direction, .. }) =
            &directives.keybindings[0].commands[0]
        else {
            panic!("Expected Focus.");
        };

        assert_eq!(direction, &Some(expected));
    }
}

#[test]
fn test_togglesplit_translation() {
    let (_, directives) =
        extract_hyprland_directives("bind = SUPER, J, togglesplit\n");

    assert_eq!(
        directives.keybindings[0].commands[0],
        InvokeCommand::ToggleTilingDirection
    );
}

#[test]
fn test_resizeactive_translation() {
    let (_, directives) =
        extract_hyprland_directives("bind = SUPER_ALT, L, resizeactive, 30 -20\n");

    let InvokeCommand::Resize(InvokeResizeCommand { width, height }) =
        &directives.keybindings[0].commands[0]
    else {
        panic!("Expected Resize.");
    };

    assert_eq!(width.as_ref().map(|l| l.amount as f32), Some(30.0));
    assert_eq!(height.as_ref().map(|l| l.amount as f32), Some(-20.0));
}

#[test]
fn test_fullscreen_maximized_variant() {
    let (_, directives) =
        extract_hyprland_directives("bind = SUPER, M, fullscreen, 1\n");

    let InvokeCommand::ToggleFullscreen { maximized, .. } =
        &directives.keybindings[0].commands[0]
    else {
        panic!("Expected ToggleFullscreen.");
    };

    assert_eq!(maximized, &Some(true));
}

#[test]
fn test_cyclenext_translation() {
    let (_, directives) =
        extract_hyprland_directives("bind = ALT, Tab, cyclenext\n");

    let InvokeCommand::WmCycleFocus { omit_minimized, .. } =
        &directives.keybindings[0].commands[0]
    else {
        panic!("Expected WmCycleFocus.");
    };

    assert!(omit_minimized);
}

#[test]
fn test_inline_comments_stripped() {
    let (_, directives) = extract_hyprland_directives(
        "bind = SUPER, Q, killactive # close focused window\n",
    );

    assert_eq!(directives.keybindings[0].commands[0], InvokeCommand::Close);
}

#[test]
fn test_quoted_hash_preserved() {
    let (_, directives) = extract_hyprland_directives(
        "exec-once = pwsh -Command echo '#hashtag'\n",
    );

    let InvokeCommand::ShellExec { command, .. } =
        &directives.startup_commands[0]
    else {
        panic!("Expected ShellExec.");
    };

    assert!(
        command.iter().any(|token| token.contains('#')),
        "Quoted hash was incorrectly stripped."
    );
}

#[test]
fn test_mouse_bindings_skipped() {
    let (_, directives) =
        extract_hyprland_directives("bindm = SUPER, mouse:272, movewindow\n");

    assert!(directives.keybindings.is_empty());
}

#[test]
fn test_unsupported_directives_stripped() {
    let config_str = [
        "windowrulev2 = float, class:^(kitty)$\n",
        "env = XCURSOR_SIZE,24\n",
    ]
    .concat();

    let (stripped, directives) = extract_hyprland_directives(&config_str);

    assert!(directives.keybindings.is_empty());
    assert!(!stripped.contains("windowrulev2"));
    assert!(!stripped.contains("env ="));
}

#[test]
fn test_submap_stripped_with_binds_kept_global() {
    let config_str = [
        "submap = resize\n",
        "binde = , right, resizeactive, 10 0\n",
        "submap = reset\n",
        "bind = SUPER, Q, killactive\n",
    ]
    .concat();

    let (stripped, directives) = extract_hyprland_directives(&config_str);

    assert_eq!(directives.keybindings.len(), 2);
    assert!(!stripped.contains("submap"));
}

#[test]
fn test_regular_yaml_lines_untouched() {
    let config_str = [
        "general:\n",
        "  focus_follows_cursor: true\n",
        "\n",
        "keybindings:\n",
        "  - commands: ['wm-disable-binding-mode --name resize']\n",
        "    bindings: ['escape']\n",
    ]
    .concat();

    let (stripped, _) = extract_hyprland_directives(&config_str);

    assert_eq!(stripped, config_str);
}

#[test]
fn test_mixed_config_produces_valid_yaml() {
    let config_str = [
        "# Hyprland-flavored config.\n",
        "gaps:\n",
        "  inner_gap: '8px'\n",
        "\n",
        "bind = SUPER, Q, killactive\n",
        "bind = SUPER, 1, workspace, 1\n",
        "exec-once = wezterm\n",
        "\n",
        "window_effects:\n",
        "  focused_window:\n",
        "    border:\n",
        "      enabled: true\n",
    ]
    .concat();

    let (stripped, directives) = extract_hyprland_directives(&config_str);

    assert_eq!(directives.keybindings.len(), 2);
    assert_eq!(directives.startup_commands.len(), 1);

    assert!(stripped.contains("gaps:"));
    assert!(stripped.contains("inner_gap: '8px'"));
    assert!(stripped.contains("window_effects:"));
    assert!(!stripped.contains("bind = "));
}

#[test]
fn test_unknown_key_is_skipped_gracefully() {
    let (_, directives) = extract_hyprland_directives(
        "bind = SUPER, XF86XK_TurboFake, killactive\n",
    );

    // Untranslatable binds are dropped rather than breaking the config.
    assert!(directives.keybindings.is_empty());
}

#[test]
fn test_swapwindow_translation() {
    let (_, directives) = extract_hyprland_directives(
        "bind = SUPER SHIFT, left, swapwindow, l\n",
    );

    assert_eq!(
        directives.keybindings[0].commands[0],
        InvokeCommand::Swap {
            direction: Direction::Left
        }
    );

    let keys = directives.keybindings[0].bindings[0].keys();

    assert_eq!(keys, &[Key::Win, Key::Shift, Key::Left]);
}

#[test]
fn test_movewindow_is_not_a_swap() {
    // `movewindow` re-parents the window (and can leave the workspace),
    // whereas `swapwindow` only trades places with a neighbor.
    let (_, directives) = extract_hyprland_directives(
        "bind = SUPER SHIFT, H, movewindow, l\n",
    );

    assert!(matches!(
        directives.keybindings[0].commands[0],
        InvokeCommand::Move(_)
    ));
}

#[test]
fn test_sendshortcut_translation() {
    let (_, directives) =
        extract_hyprland_directives("bind = SUPER, C, sendshortcut, CTRL, C,\n");

    let InvokeCommand::SendShortcut { keys } =
        &directives.keybindings[0].commands[0]
    else {
        panic!("Expected SendShortcut.");
    };

    assert_eq!(keys, &[Key::Ctrl, Key::C]);
}

#[test]
fn test_sendshortcut_with_multiple_modifiers() {
    let (_, directives) = extract_hyprland_directives(
        "bind = SUPER, S, sendshortcut, CTRL SHIFT, S,\n",
    );

    let InvokeCommand::SendShortcut { keys } =
        &directives.keybindings[0].commands[0]
    else {
        panic!("Expected SendShortcut.");
    };

    assert_eq!(keys, &[Key::Ctrl, Key::Shift, Key::S]);
}

#[test]
fn test_sendshortcut_with_keysym_key() {
    let (_, directives) = extract_hyprland_directives(
        "bind = SUPER, slash, sendshortcut, CTRL, slash,\n",
    );

    let InvokeCommand::SendShortcut { keys } =
        &directives.keybindings[0].commands[0]
    else {
        panic!("Expected SendShortcut.");
    };

    assert_eq!(keys, &[Key::Ctrl, Key::OemQuestion]);
}

#[test]
fn test_sendshortcut_rejects_window_target() {
    // Targeting another window is unsupported and must not be silently
    // downgraded to sending at the focused window.
    let (_, directives) = extract_hyprland_directives(
        "bind = SUPER, C, sendshortcut, CTRL, C, class:^(kitty)$\n",
    );

    assert!(directives.keybindings.is_empty());
}

#[test]
fn test_sendshortcut_requires_a_key() {
    let (_, directives) =
        extract_hyprland_directives("bind = SUPER, C, sendshortcut, CTRL,\n");

    assert!(directives.keybindings.is_empty());
}

#[test]
fn test_punctuation_keysyms() {
    for (keysym, expected) in [
        ("minus", Key::OemMinus),
        ("equal", Key::OemPlus),
        ("plus", Key::OemPlus),
        ("comma", Key::OemComma),
        ("period", Key::OemPeriod),
        ("slash", Key::OemQuestion),
        ("bracketleft", Key::OemOpenBrackets),
        ("bracketright", Key::OemCloseBrackets),
        ("grave", Key::OemTilde),
        ("backslash", Key::OemPipe),
        ("Print", Key::PrintScreen),
        ("Prior", Key::PageUp),
        ("KP_Add", Key::NumpadAdd),
        ("XF86AudioRaiseVolume", Key::VolumeUp),
    ] {
        let config_str = format!("bind = SUPER, {keysym}, killactive\n");

        let (_, directives) = extract_hyprland_directives(&config_str);

        let keys = directives
            .keybindings
            .first()
            .unwrap_or_else(|| panic!("Keysym '{keysym}' was not translated."))
            .bindings[0]
            .keys();

        assert_eq!(keys, &[Key::Win, expected], "Wrong key for '{keysym}'.");
    }
}

#[test]
fn test_multi_char_keysym_does_not_fall_back_to_first_letter() {
    // `Key::try_from_literal` only inspects the first character, so an
    // unknown keysym must be rejected rather than silently binding to it.
    let (_, directives) =
        extract_hyprland_directives("bind = SUPER, dead_acute, killactive\n");

    assert!(directives.keybindings.is_empty());
}

#[test]
fn test_single_literal_key_still_parses() {
    let (_, directives) =
        extract_hyprland_directives("bind = SUPER, -, killactive\n");

    let keys = directives.keybindings[0].bindings[0].keys();

    assert_eq!(keys, &[Key::Win, Key::OemMinus]);
}

#[test]
fn test_resizeactive_omits_zero_delta() {
    let (_, directives) =
        extract_hyprland_directives("binde = SUPER, minus, resizeactive, -100 0\n");

    let InvokeCommand::Resize(InvokeResizeCommand { width, height }) =
        &directives.keybindings[0].commands[0]
    else {
        panic!("Expected Resize.");
    };

    assert_eq!(width.as_ref().map(|l| l.amount as f32), Some(-100.0));
    assert!(height.is_none(), "Zero height delta should be omitted.");
}

#[test]
fn test_resizeactive_rejects_all_zero_deltas() {
    let (_, directives) =
        extract_hyprland_directives("binde = SUPER, minus, resizeactive, 0 0\n");

    assert!(directives.keybindings.is_empty());
}

#[test]
fn test_focusmonitor_translation() {
    let (_, directives) =
        extract_hyprland_directives("bind = SUPER, F2, focusmonitor, 1\n");

    let InvokeCommand::Focus(InvokeFocusCommand { monitor, .. }) =
        &directives.keybindings[0].commands[0]
    else {
        panic!("Expected Focus.");
    };

    assert_eq!(monitor, &Some(1));
}

#[test]
fn test_movetoworkspace_silent_flag_filtered() {
    let (_, directives) = extract_hyprland_directives(
        "bind = SUPER_SHIFT, 3, movetoworkspace, 3, silent\n",
    );

    let InvokeCommand::Move(InvokeMoveCommand { workspace, .. }) =
        &directives.keybindings[0].commands[0]
    else {
        panic!("Expected Move.");
    };

    assert_eq!(workspace.as_deref(), Some("3"));
}
