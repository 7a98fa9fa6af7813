//! Details of the translation of directives.

use glazewm::app_command::{
    InvokeCommand, InvokeFocusCommand, InvokeMoveCommand, InvokeResizeCommand, LengthValue,
};
use glazewm::directive_line::{
    classify_directive, parse_directive_line, strip_inline_comment, DirectiveKind,
};
use glazewm::dispatchers::{parse_trigger_key, translate_dispatcher};
use glazewm::geometry::Direction;
use glazewm::hyprland_directives::{extract_hyprland_directives, translate_bind};
use glazewm::keys::{EmptyKeybinding, Key, Keybinding};
use glazewm::keysyms::{parse_keysym, parse_modifier_token};
use glazewm::text::{is_whitespace, parse_natural, parse_signed, split_lines};

fn chars(text: &str) -> Vec<char> {
    text.chars().collect()
}

fn words(text: &str) -> Vec<Vec<char>> {
    text.split_whitespace().map(chars).collect()
}

fn dispatch(text: &str) -> Result<InvokeCommand, String> {
    let mut list = words(text);
    let name = list.remove(0);
    translate_dispatcher(&name, &list)
}

fn directive(line: &str) -> Option<(String, String)> {
    parse_directive_line(&chars(line))
        .map(|(name, value)| (name.into_iter().collect(), value.into_iter().collect()))
}

fn pair(name: &str, value: &str) -> Option<(String, String)> {
    Some((name.to_string(), value.to_string()))
}

#[test]
fn white_space_is_that_of_unicode() {
    for code in 0..=0x10ffffu32 {
        if let Some(c) = char::from_u32(code) {
            assert_eq!(is_whitespace(c), c.is_whitespace(), "{code:x}");
        }
    }
}

#[test]
fn lines_are_split_as_usual() {
    for text in [
        "",
        "\n",
        "a",
        "a\n",
        "a\n\n",
        "a\r\nb",
        "a\r\r\n\r\n",
        "a\rb\n",
        "a\r",
        "\n\r",
        "ä\nö\n\nü",
    ] {
        let expected: Vec<Vec<char>> = text.lines().map(chars).collect();
        assert_eq!(split_lines(&chars(text)), expected, "{text:?}");
    }
}

#[test]
fn numbers_are_parsed_exactly() {
    assert_eq!(parse_natural(&chars("007"), usize::MAX), Some(7));
    assert_eq!(parse_natural(&chars(&usize::MAX.to_string()), usize::MAX), Some(usize::MAX));
    assert_eq!(parse_natural(&chars("99999999999999999999999"), usize::MAX), None);
    assert_eq!(parse_natural(&chars(""), usize::MAX), None);
    assert_eq!(parse_natural(&chars("1a"), usize::MAX), None);
    assert_eq!(parse_natural(&chars("100"), 99), None);
    for text in [
        "0", "+5", "-5", "-", "+", "", "2147483647", "2147483648", "-2147483648", "-2147483649",
        "+-1", "1 ", "٣", "12345",
    ] {
        assert_eq!(parse_signed(&chars(text)), text.parse::<i32>().ok(), "{text:?}");
    }
}

#[test]
fn directive_lines_are_told_apart() {
    assert_eq!(directive("bind = A, B"), pair("bind", "A, B"));
    assert_eq!(directive("  exec-once=firefox  "), pair("exec-once", "firefox"));
    assert_eq!(directive("windowrulev2:opt = a=b"), pair("windowrulev2:opt", "a=b"));
    assert_eq!(directive("bind = A # comment"), pair("bind", "A"));

    assert_eq!(directive("bind ="), None);
    assert_eq!(directive("bind = # comment"), None);
    assert_eq!(directive("key: a=b"), None);
    assert_eq!(directive("key:=b"), None);
    assert_eq!(directive("- 'a=b'"), None);
    assert_eq!(directive("- bind = A"), None);
    assert_eq!(directive("  - foo=bar"), None);
    assert_eq!(directive("-bind=A"), None);
    assert_eq!(directive("2bind = A"), None);
    assert_eq!(directive("= A"), None);
    assert_eq!(directive("plain text"), None);
    assert_eq!(directive("# bind = A"), None);
}

#[test]
fn comments_end_outside_of_quotes() {
    let strip = |text: &str| strip_inline_comment(&chars(text)).into_iter().collect::<String>();
    assert_eq!(strip("a # b"), "a");
    assert_eq!(strip("a '#' b"), "a '#' b");
    assert_eq!(strip("a \"'#\" # b"), "a \"'#\"");
    assert_eq!(strip("a '\"' # b"), "a '\"'");
    assert_eq!(strip("it's # open"), "it's # open");
    assert_eq!(strip("#"), "");
}

#[test]
fn directives_are_classified_by_name() {
    let kind = |name: &str| classify_directive(&chars(name));
    assert_eq!(kind("bind"), DirectiveKind::Bind);
    assert_eq!(kind("BindE"), DirectiveKind::Bind);
    assert_eq!(kind("bindm"), DirectiveKind::Bind);
    assert_eq!(kind("bindings"), DirectiveKind::StrippedUnsupported);
    assert_eq!(kind("exec-once"), DirectiveKind::ExecOnce);
    assert_eq!(kind("execr-once"), DirectiveKind::ExecOnce);
    assert_eq!(kind("exec-shutdown"), DirectiveKind::ExecShutdown);
    assert_eq!(kind("execr-shutdown"), DirectiveKind::ExecShutdown);
    assert_eq!(kind("submap"), DirectiveKind::Submap);
    assert_eq!(kind("env"), DirectiveKind::StrippedUnsupported);
}

#[test]
fn keys_are_named() {
    let trigger = |token: &str| parse_trigger_key(&chars(token));
    assert_eq!(trigger("q"), Ok(Key::Q));
    assert_eq!(trigger("0"), Ok(Key::D0));
    assert_eq!(trigger("F24"), Ok(Key::F24));
    assert_eq!(trigger("numpad7"), Ok(Key::Numpad7));
    assert_eq!(trigger("Escape"), Ok(Key::Escape));
    assert_eq!(trigger("oem_tilde"), Ok(Key::OemTilde));
    assert_eq!(trigger("volume_mute"), Ok(Key::VolumeMute));
    assert_eq!(trigger("\\"), Ok(Key::OemPipe));
    assert_eq!(trigger("'"), Ok(Key::OemQuotes));
    assert_eq!(trigger("dead_acute"), Err("Unknown key 'dead_acute'.".to_string()));
    assert_eq!(trigger("!"), Err("Unknown key '!'.".to_string()));
    assert_eq!(
        trigger("Mouse_Up"),
        Err("Mouse bindings (e.g. 'Mouse_Up') are unsupported.".to_string())
    );
    assert_eq!(parse_keysym(&chars("kp_prior")), Some(Key::Numpad9));
    assert_eq!(parse_keysym(&chars("q")), None);
    assert_eq!(parse_modifier_token(&chars("mod5")), Some(Key::Shift));
    assert_eq!(parse_modifier_token(&chars("SUPER")), None);
}

#[test]
fn keybindings_have_keys() {
    assert_eq!(Keybinding::new(vec![]), Err(EmptyKeybinding));
    assert_eq!(Keybinding::new(vec![Key::A]).unwrap().keys(), &[Key::A]);
}

#[test]
fn dispatchers_are_translated() {
    assert_eq!(dispatch("KillActive"), Ok(InvokeCommand::Close));
    assert_eq!(dispatch("exit"), Ok(InvokeCommand::WmExit));
    assert_eq!(dispatch("reload"), Ok(InvokeCommand::WmReloadConfig));
    assert_eq!(
        dispatch("togglefloating"),
        Ok(InvokeCommand::ToggleFloating { shown_on_top: None, centered: None })
    );
    assert_eq!(
        dispatch("fullscreen 2"),
        Ok(InvokeCommand::ToggleFullscreen { shown_on_top: Some(true), maximized: None })
    );
    assert_eq!(
        dispatch("fullscreen 0"),
        Ok(InvokeCommand::ToggleFullscreen { shown_on_top: None, maximized: None })
    );
    assert_eq!(
        dispatch("fullscreen"),
        Ok(InvokeCommand::ToggleFullscreen { shown_on_top: None, maximized: None })
    );
    assert_eq!(dispatch("swapwindow Down"), Ok(InvokeCommand::Swap { direction: Direction::Down }));
    assert_eq!(
        dispatch("movewindow u"),
        Ok(InvokeCommand::Move(InvokeMoveCommand {
            direction: Some(Direction::Up),
            workspace: None,
        }))
    );
    assert_eq!(
        dispatch("workspace Prev"),
        Ok(InvokeCommand::Focus(InvokeFocusCommand {
            direction: None,
            workspace: None,
            monitor: None,
            next_workspace: false,
            prev_workspace: true,
        }))
    );
    assert_eq!(
        dispatch("workspace e+1"),
        Ok(InvokeCommand::Focus(InvokeFocusCommand {
            direction: None,
            workspace: Some("e+1".to_string()),
            monitor: None,
            next_workspace: false,
            prev_workspace: false,
        }))
    );
    assert_eq!(
        dispatch("movetoworkspacesilent silent new 4"),
        Ok(InvokeCommand::Move(InvokeMoveCommand {
            direction: None,
            workspace: Some("4".to_string()),
        }))
    );
    assert_eq!(
        dispatch("resizeactive 0 -7"),
        Ok(InvokeCommand::Resize(InvokeResizeCommand {
            width: None,
            height: Some(LengthValue::from_px(-7)),
        }))
    );
    assert_eq!(
        dispatch("exec notepad a.txt"),
        Ok(InvokeCommand::ShellExec {
            hide_window: false,
            command: vec!["notepad".to_string(), "a.txt".to_string()],
        })
    );
    assert_eq!(
        dispatch("sendkeys ctrl Shift Escape"),
        Ok(InvokeCommand::SendShortcut { keys: vec![Key::Ctrl, Key::Shift, Key::Escape] })
    );
}

#[test]
fn refused_dispatchers_say_why() {
    let refused = |text: &str, message: &str| {
        assert_eq!(dispatch(text), Err(message.to_string()));
    };
    refused("Teleport", "Unsupported Hyprland dispatcher 'Teleport'.");
    refused("movefocus", "Missing direction argument.");
    refused("movefocus Sideways", "Unknown direction 'Sideways'.");
    refused("movetoworkspace silent", "Missing workspace argument.");
    refused("workspace", "Missing workspace argument.");
    refused("FocusMonitor", "Invalid monitor index for 'FocusMonitor'.");
    refused("focusmonitor l", "Invalid monitor index for 'focusmonitor'.");
    refused("focusmonitor +1", "Invalid monitor index for 'focusmonitor'.");
    refused("resizeactive 1", "Missing resize delta.");
    refused(
        "resizeactive 1 2px",
        "Invalid resize delta '2px'. Expected pixel values (e.g. '-30').",
    );
    refused("resizeactive 0 0", "Resize deltas for 'resizeactive' cannot both be zero.");
    refused("sendshortcut CTRL", "Missing key for 'sendshortcut'.");
    refused("sendshortcut CTRL huh", "Unknown key 'huh'.");
    refused(
        "sendshortcut CTRL C activewindow",
        "Targeting a specific window ('activewindow') is unsupported for 'sendshortcut'; it \
         always applies to the focused window.",
    );
}

#[test]
fn refused_binds_say_why() {
    let refused = |value: &str, message: &str| {
        assert_eq!(translate_bind(&chars(value)), Err(message.to_string()));
    };
    refused("SUPER", "Missing key in bind 'SUPER'.");
    refused("SUPER, Q", "Missing dispatcher in bind 'SUPER, Q'.");
    refused("SUPER, Q, ,", "Missing dispatcher in bind 'SUPER, Q, ,'.");
    refused("SUPER, huh, killactive", "Unknown key 'huh'.");
    refused("SUPER, Q, huh", "Unsupported Hyprland dispatcher 'huh'.");
    refused(
        "SUPER SHIFT CTRL ALT LALT RALT, Q, killactive",
        "Too many modifiers in bind 'SUPER SHIFT CTRL ALT LALT RALT, Q, killactive'.",
    );
}

#[test]
fn modifiers_may_stand_in_several_segments() {
    let bind = translate_bind(&chars("SUPER_SHIFT, , Ctrl, Q, exec, a b, c")).unwrap();
    assert_eq!(bind.bindings.len(), 1);
    assert_eq!(bind.bindings[0].keys(), &[Key::Win, Key::Shift, Key::Ctrl, Key::Q]);
    assert_eq!(
        bind.commands,
        vec![InvokeCommand::ShellExec {
            hide_window: false,
            command: vec!["a".to_string(), "b".to_string(), "c".to_string()],
        }]
    );
}

#[test]
fn mouse_binds_never_become_keybindings() {
    let (stripped, directives) =
        extract_hyprland_directives("bindm = SUPER, Q, killactive\nBINDM = , mouse:1, exec x\n");
    assert!(directives.keybindings.is_empty());
    assert_eq!(stripped, "\n");
}

#[test]
fn extraction_is_idempotent() {
    let config = "a: b\r\nbind = SUPER, Q, killactive\n\nexec-once = x\n  c: 'd=e'";
    let (once, directives) = extract_hyprland_directives(config);
    assert_eq!(once, "a: b\n\n  c: 'd=e'");
    assert_eq!(directives.keybindings.len(), 1);
    assert_eq!(directives.startup_commands.len(), 1);

    let (twice, none) = extract_hyprland_directives(&once);
    assert_eq!(twice, once);
    assert!(none.keybindings.is_empty());
    assert!(none.startup_commands.is_empty());
    assert!(none.shutdown_commands.is_empty());
}

#[test]
fn trailing_line_feed_is_kept() {
    assert_eq!(extract_hyprland_directives("").0, "");
    assert_eq!(extract_hyprland_directives("\n").0, "\n");
    assert_eq!(extract_hyprland_directives("a\n\n").0, "a\n\n");
    assert_eq!(extract_hyprland_directives("exec-once = a").0, "");
    assert_eq!(extract_hyprland_directives("exec-once = a\n").0, "\n");
    assert_eq!(extract_hyprland_directives("a\nexec-shutdown = b").0, "a");
}

#[test]
fn no_directives_remain() {
    // A line may end in several carriage returns, each extraction drops one.
    let (once, _) = extract_hyprland_directives("a\r\r\nbind = , Q, killactive\r\r\n");
    assert_eq!(once, "a\r\n");
    let (twice, directives) = extract_hyprland_directives(&once);
    assert_eq!(twice, "a\n");
    assert!(directives.keybindings.is_empty());
}

#[test]
fn items_of_a_list_stay_in_the_config() {
    let config = "commands:\n  - foo=bar\n- bind = SUPER, Q, killactive\n";
    let (stripped, directives) = extract_hyprland_directives(config);
    assert_eq!(stripped, config);
    assert!(directives.keybindings.is_empty());
}

#[test]
fn separators_in_binds_can_be_exchanged() {
    let expected = translate_bind(&chars("SUPER_ALT, L, resizeactive, 30 -20")).unwrap();
    assert_eq!(expected.bindings[0].keys(), &[Key::Win, Key::Alt, Key::L]);
    for value in [
        "SUPER, ALT, L, resizeactive 30, -20",
        "SUPER ALT, L, resizeactive 30 -20",
        "SUPER,ALT,L,resizeactive,30,-20",
        "SUPER _ ALT , L , resizeactive\t30\t-20",
    ] {
        assert_eq!(translate_bind(&chars(value)).as_ref(), Ok(&expected), "{value}");
    }

    // The key has to stand between commas.
    assert!(translate_bind(&chars("SUPER ALT L, resizeactive 30 -20")).is_err());
}

#[test]
fn case_of_names_does_not_matter() {
    for name in ["minus", "kp_subtract", "xf86audiomute", "page_up", "huh"] {
        let upper = name.to_ascii_uppercase();
        assert_eq!(parse_keysym(&chars(&upper)), parse_keysym(&chars(name)), "{name}");
        assert_eq!(Key::from_name(&chars(&upper)), Key::from_name(&chars(name)), "{name}");
    }
    assert_eq!(parse_keysym(&chars("Page_Up")), Some(Key::PageUp));
    assert_eq!(Key::from_name(&chars("PAGE_UP")), Key::from_name(&chars("page_up")));
    assert_eq!(classify_directive(&chars("EXEC-ONCE")), DirectiveKind::ExecOnce);
    assert_eq!(dispatch("KILLACTIVE"), dispatch("killactive"));
}

#[test]
fn shifted_names_share_a_key() {
    for (shifted, unshifted, key) in [
        ("underscore", "minus", Key::OemMinus),
        ("plus", "equal", Key::OemPlus),
        ("less", "comma", Key::OemComma),
        ("greater", "period", Key::OemPeriod),
        ("question", "slash", Key::OemQuestion),
        ("colon", "semicolon", Key::OemSemicolon),
        ("quotedbl", "apostrophe", Key::OemQuotes),
        ("asciitilde", "grave", Key::OemTilde),
        ("braceleft", "bracketleft", Key::OemOpenBrackets),
        ("braceright", "bracketright", Key::OemCloseBrackets),
        ("bar", "backslash", Key::OemPipe),
    ] {
        assert_eq!(parse_keysym(&chars(shifted)), Some(key));
        assert_eq!(parse_keysym(&chars(unshifted)), Some(key));
    }
}

#[test]
fn numpad_is_not_the_main_row() {
    assert_eq!(parse_keysym(&chars("KP_Subtract")), Some(Key::NumpadSubtract));
    assert_eq!(parse_keysym(&chars("KP_Add")), Some(Key::NumpadAdd));
    assert_ne!(parse_keysym(&chars("KP_Subtract")), parse_keysym(&chars("minus")));
    assert_ne!(parse_keysym(&chars("KP_Add")), parse_keysym(&chars("plus")));
}
