//! Keys of the keyboard, and their names.
//!
//! The names are those that the keybindings of a GlazeWM config use. They
//! follow the virtual keys of Windows, such as `page_up` or `oem_minus`.

use vstd::prelude::*;

use crate::text::{self, is_text};

verus! {

/// A key of the keyboard. Punctuation keys are named after their position on
/// the US layout.
#[derive(Clone, Copy, Debug, PartialEq, Eq, Structural)]
pub enum Key {
    A,
    B,
    C,
    D,
    E,
    F,
    G,
    H,
    I,
    J,
    K,
    L,
    M,
    N,
    O,
    P,
    Q,
    R,
    S,
    T,
    U,
    V,
    W,
    X,
    Y,
    Z,
    D0,
    D1,
    D2,
    D3,
    D4,
    D5,
    D6,
    D7,
    D8,
    D9,
    F1,
    F2,
    F3,
    F4,
    F5,
    F6,
    F7,
    F8,
    F9,
    F10,
    F11,
    F12,
    F13,
    F14,
    F15,
    F16,
    F17,
    F18,
    F19,
    F20,
    F21,
    F22,
    F23,
    F24,
    Shift,
    LShift,
    RShift,
    Ctrl,
    LCtrl,
    RCtrl,
    Alt,
    LAlt,
    RAlt,
    Win,
    LWin,
    RWin,
    Space,
    Tab,
    Enter,
    Backspace,
    Delete,
    Insert,
    Escape,
    Left,
    Right,
    Up,
    Down,
    Home,
    End,
    PageUp,
    PageDown,
    PrintScreen,
    CapsLock,
    NumLock,
    ScrollLock,
    Numpad0,
    Numpad1,
    Numpad2,
    Numpad3,
    Numpad4,
    Numpad5,
    Numpad6,
    Numpad7,
    Numpad8,
    Numpad9,
    NumpadAdd,
    NumpadSubtract,
    NumpadMultiply,
    NumpadDivide,
    NumpadDecimal,
    VolumeUp,
    VolumeDown,
    VolumeMute,
    MediaNextTrack,
    MediaPrevTrack,
    MediaStop,
    MediaPlayPause,
    OemSemicolon,
    OemQuestion,
    OemTilde,
    OemOpenBrackets,
    OemPipe,
    OemCloseBrackets,
    OemQuotes,
    OemPlus,
    OemComma,
    OemMinus,
    OemPeriod,
}

/// The names of the letters.
pub open spec fn spec_letter(name: Seq<char>) -> Option<Key> {
    if name == "a"@ {
        Some(Key::A)
    } else if name == "b"@ {
        Some(Key::B)
    } else if name == "c"@ {
        Some(Key::C)
    } else if name == "d"@ {
        Some(Key::D)
    } else if name == "e"@ {
        Some(Key::E)
    } else if name == "f"@ {
        Some(Key::F)
    } else if name == "g"@ {
        Some(Key::G)
    } else if name == "h"@ {
        Some(Key::H)
    } else if name == "i"@ {
        Some(Key::I)
    } else if name == "j"@ {
        Some(Key::J)
    } else if name == "k"@ {
        Some(Key::K)
    } else if name == "l"@ {
        Some(Key::L)
    } else if name == "m"@ {
        Some(Key::M)
    } else if name == "n"@ {
        Some(Key::N)
    } else if name == "o"@ {
        Some(Key::O)
    } else if name == "p"@ {
        Some(Key::P)
    } else if name == "q"@ {
        Some(Key::Q)
    } else if name == "r"@ {
        Some(Key::R)
    } else if name == "s"@ {
        Some(Key::S)
    } else if name == "t"@ {
        Some(Key::T)
    } else if name == "u"@ {
        Some(Key::U)
    } else if name == "v"@ {
        Some(Key::V)
    } else if name == "w"@ {
        Some(Key::W)
    } else if name == "x"@ {
        Some(Key::X)
    } else if name == "y"@ {
        Some(Key::Y)
    } else if name == "z"@ {
        Some(Key::Z)
    } else {
        None
    }
}

/// Looks up a name amongst the letters.
fn letter(name: &[char]) -> (r: Option<Key>)
    ensures
        r == spec_letter(name@),
{
    if is_text(name, "a") {
        Some(Key::A)
    } else if is_text(name, "b") {
        Some(Key::B)
    } else if is_text(name, "c") {
        Some(Key::C)
    } else if is_text(name, "d") {
        Some(Key::D)
    } else if is_text(name, "e") {
        Some(Key::E)
    } else if is_text(name, "f") {
        Some(Key::F)
    } else if is_text(name, "g") {
        Some(Key::G)
    } else if is_text(name, "h") {
        Some(Key::H)
    } else if is_text(name, "i") {
        Some(Key::I)
    } else if is_text(name, "j") {
        Some(Key::J)
    } else if is_text(name, "k") {
        Some(Key::K)
    } else if is_text(name, "l") {
        Some(Key::L)
    } else if is_text(name, "m") {
        Some(Key::M)
    } else if is_text(name, "n") {
        Some(Key::N)
    } else if is_text(name, "o") {
        Some(Key::O)
    } else if is_text(name, "p") {
        Some(Key::P)
    } else if is_text(name, "q") {
        Some(Key::Q)
    } else if is_text(name, "r") {
        Some(Key::R)
    } else if is_text(name, "s") {
        Some(Key::S)
    } else if is_text(name, "t") {
        Some(Key::T)
    } else if is_text(name, "u") {
        Some(Key::U)
    } else if is_text(name, "v") {
        Some(Key::V)
    } else if is_text(name, "w") {
        Some(Key::W)
    } else if is_text(name, "x") {
        Some(Key::X)
    } else if is_text(name, "y") {
        Some(Key::Y)
    } else if is_text(name, "z") {
        Some(Key::Z)
    } else {
        None
    }
}

/// The names of the digits.
pub open spec fn spec_digit(name: Seq<char>) -> Option<Key> {
    if name == "0"@ {
        Some(Key::D0)
    } else if name == "1"@ {
        Some(Key::D1)
    } else if name == "2"@ {
        Some(Key::D2)
    } else if name == "3"@ {
        Some(Key::D3)
    } else if name == "4"@ {
        Some(Key::D4)
    } else if name == "5"@ {
        Some(Key::D5)
    } else if name == "6"@ {
        Some(Key::D6)
    } else if name == "7"@ {
        Some(Key::D7)
    } else if name == "8"@ {
        Some(Key::D8)
    } else if name == "9"@ {
        Some(Key::D9)
    } else {
        None
    }
}

/// Looks up a name amongst the digits.
fn digit(name: &[char]) -> (r: Option<Key>)
    ensures
        r == spec_digit(name@),
{
    if is_text(name, "0") {
        Some(Key::D0)
    } else if is_text(name, "1") {
        Some(Key::D1)
    } else if is_text(name, "2") {
        Some(Key::D2)
    } else if is_text(name, "3") {
        Some(Key::D3)
    } else if is_text(name, "4") {
        Some(Key::D4)
    } else if is_text(name, "5") {
        Some(Key::D5)
    } else if is_text(name, "6") {
        Some(Key::D6)
    } else if is_text(name, "7") {
        Some(Key::D7)
    } else if is_text(name, "8") {
        Some(Key::D8)
    } else if is_text(name, "9") {
        Some(Key::D9)
    } else {
        None
    }
}

/// The names of the function keys.
pub open spec fn spec_function_key(name: Seq<char>) -> Option<Key> {
    if name == "f1"@ {
        Some(Key::F1)
    } else if name == "f2"@ {
        Some(Key::F2)
    } else if name == "f3"@ {
        Some(Key::F3)
    } else if name == "f4"@ {
        Some(Key::F4)
    } else if name == "f5"@ {
        Some(Key::F5)
    } else if name == "f6"@ {
        Some(Key::F6)
    } else if name == "f7"@ {
        Some(Key::F7)
    } else if name == "f8"@ {
        Some(Key::F8)
    } else if name == "f9"@ {
        Some(Key::F9)
    } else if name == "f10"@ {
        Some(Key::F10)
    } else if name == "f11"@ {
        Some(Key::F11)
    } else if name == "f12"@ {
        Some(Key::F12)
    } else if name == "f13"@ {
        Some(Key::F13)
    } else if name == "f14"@ {
        Some(Key::F14)
    } else if name == "f15"@ {
        Some(Key::F15)
    } else if name == "f16"@ {
        Some(Key::F16)
    } else if name == "f17"@ {
        Some(Key::F17)
    } else if name == "f18"@ {
        Some(Key::F18)
    } else if name == "f19"@ {
        Some(Key::F19)
    } else if name == "f20"@ {
        Some(Key::F20)
    } else if name == "f21"@ {
        Some(Key::F21)
    } else if name == "f22"@ {
        Some(Key::F22)
    } else if name == "f23"@ {
        Some(Key::F23)
    } else if name == "f24"@ {
        Some(Key::F24)
    } else {
        None
    }
}

/// Looks up a name amongst the function keys.
fn function_key(name: &[char]) -> (r: Option<Key>)
    ensures
        r == spec_function_key(name@),
{
    if is_text(name, "f1") {
        Some(Key::F1)
    } else if is_text(name, "f2") {
        Some(Key::F2)
    } else if is_text(name, "f3") {
        Some(Key::F3)
    } else if is_text(name, "f4") {
        Some(Key::F4)
    } else if is_text(name, "f5") {
        Some(Key::F5)
    } else if is_text(name, "f6") {
        Some(Key::F6)
    } else if is_text(name, "f7") {
        Some(Key::F7)
    } else if is_text(name, "f8") {
        Some(Key::F8)
    } else if is_text(name, "f9") {
        Some(Key::F9)
    } else if is_text(name, "f10") {
        Some(Key::F10)
    } else if is_text(name, "f11") {
        Some(Key::F11)
    } else if is_text(name, "f12") {
        Some(Key::F12)
    } else if is_text(name, "f13") {
        Some(Key::F13)
    } else if is_text(name, "f14") {
        Some(Key::F14)
    } else if is_text(name, "f15") {
        Some(Key::F15)
    } else if is_text(name, "f16") {
        Some(Key::F16)
    } else if is_text(name, "f17") {
        Some(Key::F17)
    } else if is_text(name, "f18") {
        Some(Key::F18)
    } else if is_text(name, "f19") {
        Some(Key::F19)
    } else if is_text(name, "f20") {
        Some(Key::F20)
    } else if is_text(name, "f21") {
        Some(Key::F21)
    } else if is_text(name, "f22") {
        Some(Key::F22)
    } else if is_text(name, "f23") {
        Some(Key::F23)
    } else if is_text(name, "f24") {
        Some(Key::F24)
    } else {
        None
    }
}

/// The names of the modifiers.
pub open spec fn spec_modifier(name: Seq<char>) -> Option<Key> {
    if name == "shift"@ {
        Some(Key::Shift)
    } else if name == "lshift"@ {
        Some(Key::LShift)
    } else if name == "rshift"@ {
        Some(Key::RShift)
    } else if name == "ctrl"@ || name == "control"@ {
        Some(Key::Ctrl)
    } else if name == "lctrl"@ {
        Some(Key::LCtrl)
    } else if name == "rctrl"@ {
        Some(Key::RCtrl)
    } else if name == "alt"@ {
        Some(Key::Alt)
    } else if name == "lalt"@ {
        Some(Key::LAlt)
    } else if name == "ralt"@ {
        Some(Key::RAlt)
    } else if name == "win"@ {
        Some(Key::Win)
    } else if name == "lwin"@ {
        Some(Key::LWin)
    } else if name == "rwin"@ {
        Some(Key::RWin)
    } else {
        None
    }
}

/// Looks up a name amongst the modifiers.
fn modifier(name: &[char]) -> (r: Option<Key>)
    ensures
        r == spec_modifier(name@),
{
    if is_text(name, "shift") {
        Some(Key::Shift)
    } else if is_text(name, "lshift") {
        Some(Key::LShift)
    } else if is_text(name, "rshift") {
        Some(Key::RShift)
    } else if is_text(name, "ctrl") || is_text(name, "control") {
        Some(Key::Ctrl)
    } else if is_text(name, "lctrl") {
        Some(Key::LCtrl)
    } else if is_text(name, "rctrl") {
        Some(Key::RCtrl)
    } else if is_text(name, "alt") {
        Some(Key::Alt)
    } else if is_text(name, "lalt") {
        Some(Key::LAlt)
    } else if is_text(name, "ralt") {
        Some(Key::RAlt)
    } else if is_text(name, "win") {
        Some(Key::Win)
    } else if is_text(name, "lwin") {
        Some(Key::LWin)
    } else if is_text(name, "rwin") {
        Some(Key::RWin)
    } else {
        None
    }
}

/// The names of the editing and navigation keys.
pub open spec fn spec_editing_key(name: Seq<char>) -> Option<Key> {
    if name == "space"@ {
        Some(Key::Space)
    } else if name == "tab"@ {
        Some(Key::Tab)
    } else if name == "enter"@ {
        Some(Key::Enter)
    } else if name == "back"@ || name == "backspace"@ {
        Some(Key::Backspace)
    } else if name == "delete"@ {
        Some(Key::Delete)
    } else if name == "insert"@ {
        Some(Key::Insert)
    } else if name == "escape"@ {
        Some(Key::Escape)
    } else if name == "left"@ {
        Some(Key::Left)
    } else if name == "right"@ {
        Some(Key::Right)
    } else if name == "up"@ {
        Some(Key::Up)
    } else if name == "down"@ {
        Some(Key::Down)
    } else if name == "home"@ {
        Some(Key::Home)
    } else if name == "end"@ {
        Some(Key::End)
    } else if name == "page_up"@ {
        Some(Key::PageUp)
    } else if name == "page_down"@ {
        Some(Key::PageDown)
    } else if name == "print_screen"@ {
        Some(Key::PrintScreen)
    } else if name == "caps_lock"@ {
        Some(Key::CapsLock)
    } else if name == "num_lock"@ {
        Some(Key::NumLock)
    } else if name == "scroll_lock"@ {
        Some(Key::ScrollLock)
    } else {
        None
    }
}

/// Looks up a name amongst the editing and navigation keys.
fn editing_key(name: &[char]) -> (r: Option<Key>)
    ensures
        r == spec_editing_key(name@),
{
    if is_text(name, "space") {
        Some(Key::Space)
    } else if is_text(name, "tab") {
        Some(Key::Tab)
    } else if is_text(name, "enter") {
        Some(Key::Enter)
    } else if is_text(name, "back") || is_text(name, "backspace") {
        Some(Key::Backspace)
    } else if is_text(name, "delete") {
        Some(Key::Delete)
    } else if is_text(name, "insert") {
        Some(Key::Insert)
    } else if is_text(name, "escape") {
        Some(Key::Escape)
    } else if is_text(name, "left") {
        Some(Key::Left)
    } else if is_text(name, "right") {
        Some(Key::Right)
    } else if is_text(name, "up") {
        Some(Key::Up)
    } else if is_text(name, "down") {
        Some(Key::Down)
    } else if is_text(name, "home") {
        Some(Key::Home)
    } else if is_text(name, "end") {
        Some(Key::End)
    } else if is_text(name, "page_up") {
        Some(Key::PageUp)
    } else if is_text(name, "page_down") {
        Some(Key::PageDown)
    } else if is_text(name, "print_screen") {
        Some(Key::PrintScreen)
    } else if is_text(name, "caps_lock") {
        Some(Key::CapsLock)
    } else if is_text(name, "num_lock") {
        Some(Key::NumLock)
    } else if is_text(name, "scroll_lock") {
        Some(Key::ScrollLock)
    } else {
        None
    }
}

/// The names of the keys of the numpad.
pub open spec fn spec_numpad_key(name: Seq<char>) -> Option<Key> {
    if name == "numpad0"@ {
        Some(Key::Numpad0)
    } else if name == "numpad1"@ {
        Some(Key::Numpad1)
    } else if name == "numpad2"@ {
        Some(Key::Numpad2)
    } else if name == "numpad3"@ {
        Some(Key::Numpad3)
    } else if name == "numpad4"@ {
        Some(Key::Numpad4)
    } else if name == "numpad5"@ {
        Some(Key::Numpad5)
    } else if name == "numpad6"@ {
        Some(Key::Numpad6)
    } else if name == "numpad7"@ {
        Some(Key::Numpad7)
    } else if name == "numpad8"@ {
        Some(Key::Numpad8)
    } else if name == "numpad9"@ {
        Some(Key::Numpad9)
    } else if name == "add"@ {
        Some(Key::NumpadAdd)
    } else if name == "subtract"@ {
        Some(Key::NumpadSubtract)
    } else if name == "multiply"@ {
        Some(Key::NumpadMultiply)
    } else if name == "divide"@ {
        Some(Key::NumpadDivide)
    } else if name == "decimal"@ {
        Some(Key::NumpadDecimal)
    } else {
        None
    }
}

/// Looks up a name amongst the keys of the numpad.
fn numpad_key(name: &[char]) -> (r: Option<Key>)
    ensures
        r == spec_numpad_key(name@),
{
    if is_text(name, "numpad0") {
        Some(Key::Numpad0)
    } else if is_text(name, "numpad1") {
        Some(Key::Numpad1)
    } else if is_text(name, "numpad2") {
        Some(Key::Numpad2)
    } else if is_text(name, "numpad3") {
        Some(Key::Numpad3)
    } else if is_text(name, "numpad4") {
        Some(Key::Numpad4)
    } else if is_text(name, "numpad5") {
        Some(Key::Numpad5)
    } else if is_text(name, "numpad6") {
        Some(Key::Numpad6)
    } else if is_text(name, "numpad7") {
        Some(Key::Numpad7)
    } else if is_text(name, "numpad8") {
        Some(Key::Numpad8)
    } else if is_text(name, "numpad9") {
        Some(Key::Numpad9)
    } else if is_text(name, "add") {
        Some(Key::NumpadAdd)
    } else if is_text(name, "subtract") {
        Some(Key::NumpadSubtract)
    } else if is_text(name, "multiply") {
        Some(Key::NumpadMultiply)
    } else if is_text(name, "divide") {
        Some(Key::NumpadDivide)
    } else if is_text(name, "decimal") {
        Some(Key::NumpadDecimal)
    } else {
        None
    }
}

/// The names of the media keys.
pub open spec fn spec_media_key(name: Seq<char>) -> Option<Key> {
    if name == "volume_up"@ {
        Some(Key::VolumeUp)
    } else if name == "volume_down"@ {
        Some(Key::VolumeDown)
    } else if name == "volume_mute"@ {
        Some(Key::VolumeMute)
    } else if name == "media_next_track"@ {
        Some(Key::MediaNextTrack)
    } else if name == "media_prev_track"@ {
        Some(Key::MediaPrevTrack)
    } else if name == "media_stop"@ {
        Some(Key::MediaStop)
    } else if name == "media_play_pause"@ {
        Some(Key::MediaPlayPause)
    } else {
        None
    }
}

/// Looks up a name amongst the media keys.
fn media_key(name: &[char]) -> (r: Option<Key>)
    ensures
        r == spec_media_key(name@),
{
    if is_text(name, "volume_up") {
        Some(Key::VolumeUp)
    } else if is_text(name, "volume_down") {
        Some(Key::VolumeDown)
    } else if is_text(name, "volume_mute") {
        Some(Key::VolumeMute)
    } else if is_text(name, "media_next_track") {
        Some(Key::MediaNextTrack)
    } else if is_text(name, "media_prev_track") {
        Some(Key::MediaPrevTrack)
    } else if is_text(name, "media_stop") {
        Some(Key::MediaStop)
    } else if is_text(name, "media_play_pause") {
        Some(Key::MediaPlayPause)
    } else {
        None
    }
}

/// The names of the punctuation keys.
pub open spec fn spec_oem_key(name: Seq<char>) -> Option<Key> {
    if name == "oem_semicolon"@ {
        Some(Key::OemSemicolon)
    } else if name == "oem_question"@ {
        Some(Key::OemQuestion)
    } else if name == "oem_tilde"@ {
        Some(Key::OemTilde)
    } else if name == "oem_open_brackets"@ {
        Some(Key::OemOpenBrackets)
    } else if name == "oem_pipe"@ {
        Some(Key::OemPipe)
    } else if name == "oem_close_brackets"@ {
        Some(Key::OemCloseBrackets)
    } else if name == "oem_quotes"@ {
        Some(Key::OemQuotes)
    } else if name == "oem_plus"@ {
        Some(Key::OemPlus)
    } else if name == "oem_comma"@ {
        Some(Key::OemComma)
    } else if name == "oem_minus"@ {
        Some(Key::OemMinus)
    } else if name == "oem_period"@ {
        Some(Key::OemPeriod)
    } else {
        None
    }
}

/// Looks up a name amongst the punctuation keys.
fn oem_key(name: &[char]) -> (r: Option<Key>)
    ensures
        r == spec_oem_key(name@),
{
    if is_text(name, "oem_semicolon") {
        Some(Key::OemSemicolon)
    } else if is_text(name, "oem_question") {
        Some(Key::OemQuestion)
    } else if is_text(name, "oem_tilde") {
        Some(Key::OemTilde)
    } else if is_text(name, "oem_open_brackets") {
        Some(Key::OemOpenBrackets)
    } else if is_text(name, "oem_pipe") {
        Some(Key::OemPipe)
    } else if is_text(name, "oem_close_brackets") {
        Some(Key::OemCloseBrackets)
    } else if is_text(name, "oem_quotes") {
        Some(Key::OemQuotes)
    } else if is_text(name, "oem_plus") {
        Some(Key::OemPlus)
    } else if is_text(name, "oem_comma") {
        Some(Key::OemComma)
    } else if is_text(name, "oem_minus") {
        Some(Key::OemMinus)
    } else if is_text(name, "oem_period") {
        Some(Key::OemPeriod)
    } else {
        None
    }
}

/// The key that goes by the given name in the keybindings of a config. Case
/// does not matter.
pub open spec fn key_named(token: Seq<char>) -> Option<Key> {
    key_with_name(text::lowered(token))
}

/// The key with the given name, which is in lower case.
pub open spec fn key_with_name(name: Seq<char>) -> Option<Key> {
    if spec_letter(name) is Some {
        spec_letter(name)
    } else if spec_digit(name) is Some {
        spec_digit(name)
    } else if spec_function_key(name) is Some {
        spec_function_key(name)
    } else if spec_modifier(name) is Some {
        spec_modifier(name)
    } else if spec_editing_key(name) is Some {
        spec_editing_key(name)
    } else if spec_numpad_key(name) is Some {
        spec_numpad_key(name)
    } else if spec_media_key(name) is Some {
        spec_media_key(name)
    } else {
        spec_oem_key(name)
    }
}

/// The key that types a punctuation character without any modifiers. This is
/// the key in that position of the US layout, whichever layout is in use.
pub open spec fn key_typing(c: char) -> Option<Key> {
    if c == '-' {
        Some(Key::OemMinus)
    } else if c == '=' {
        Some(Key::OemPlus)
    } else if c == ',' {
        Some(Key::OemComma)
    } else if c == '.' {
        Some(Key::OemPeriod)
    } else if c == '/' {
        Some(Key::OemQuestion)
    } else if c == ';' {
        Some(Key::OemSemicolon)
    } else if c == '\'' {
        Some(Key::OemQuotes)
    } else if c == '`' {
        Some(Key::OemTilde)
    } else if c == '[' {
        Some(Key::OemOpenBrackets)
    } else if c == ']' {
        Some(Key::OemCloseBrackets)
    } else if c == '\\' {
        Some(Key::OemPipe)
    } else {
        None
    }
}

impl Key {
    /// Gets the key that goes by the given name in the keybindings of a
    /// config. Case does not matter.
    pub fn from_name(token: &[char]) -> (r: Option<Key>)
        ensures
            r == key_named(token@),
    {
        let lower_token = text::to_lower(token);
        find_key(lower_token.as_slice())
    }

    /// Gets the key that types a character. Letters and digits are names of
    /// keys as well, so that only punctuation is looked up here.
    pub fn try_from_literal(c: char) -> (r: Option<Key>)
        ensures
            r == key_typing(c),
    {
        match c {
            '-' => Some(Key::OemMinus),
            '=' => Some(Key::OemPlus),
            ',' => Some(Key::OemComma),
            '.' => Some(Key::OemPeriod),
            '/' => Some(Key::OemQuestion),
            ';' => Some(Key::OemSemicolon),
            '\'' => Some(Key::OemQuotes),
            '`' => Some(Key::OemTilde),
            '[' => Some(Key::OemOpenBrackets),
            ']' => Some(Key::OemCloseBrackets),
            '\\' => Some(Key::OemPipe),
            _ => None,
        }
    }
}

/// Looks up a name, which is in lower case.
fn find_key(name: &[char]) -> (r: Option<Key>)
    ensures
        r == key_with_name(name@),
{
    match letter(name) {
        Some(key) => {
            return Some(key);
        },
        None => {},
    }
    match digit(name) {
        Some(key) => {
            return Some(key);
        },
        None => {},
    }
    match function_key(name) {
        Some(key) => {
            return Some(key);
        },
        None => {},
    }
    match modifier(name) {
        Some(key) => {
            return Some(key);
        },
        None => {},
    }
    match editing_key(name) {
        Some(key) => {
            return Some(key);
        },
        None => {},
    }
    match numpad_key(name) {
        Some(key) => {
            return Some(key);
        },
        None => {},
    }
    match media_key(name) {
        Some(key) => {
            return Some(key);
        },
        None => {},
    }
    oem_key(name)
}

/// Keys that are pressed together in order to invoke something.
#[derive(Debug, PartialEq)]
pub struct Keybinding {
    keys: Vec<Key>,
}

impl View for Keybinding {
    type V = Seq<Key>;

    closed spec fn view(&self) -> Seq<Key> {
        self.keys@
    }
}

/// A keybinding without any keys.
#[derive(Clone, Copy, Debug, PartialEq, Eq, Structural)]
pub struct EmptyKeybinding;

impl Keybinding {
    /// Makes a keybinding of at least one key. The last one is the one that
    /// triggers it.
    pub fn new(keys: Vec<Key>) -> (r: Result<Keybinding, EmptyKeybinding>)
        ensures
            match r {
                Ok(binding) => binding@ == keys@ && keys@.len() > 0,
                Err(_) => keys@.len() == 0,
            },
    {
        if keys.len() == 0 {
            Err(EmptyKeybinding)
        } else {
            Ok(Keybinding { keys })
        }
    }

    /// Gets the keys, the trigger key last.
    pub fn keys(&self) -> (keys: &Vec<Key>)
        ensures
            keys@ == self@,
    {
        &self.keys
    }
}

} // verus!
