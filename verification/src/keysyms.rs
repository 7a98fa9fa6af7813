//! Names that Hyprland and X11 have for keys.

use vstd::prelude::*;

use crate::keys::Key;
use crate::text::{self, is_text};

verus! {

/// The modifier that a name in lower case stands for.
pub open spec fn modifier_named(name: Seq<char>) -> Option<Key> {
    if name == "super"@ || name == "win"@ || name == "mod2"@ {
        Some(Key::Win)
    } else if name == "superl"@ || name == "lwin"@ {
        Some(Key::LWin)
    } else if name == "superr"@ || name == "rwin"@ {
        Some(Key::RWin)
    } else if name == "shift"@ || name == "mod5"@ {
        Some(Key::Shift)
    } else if name == "shiftl"@ {
        Some(Key::LShift)
    } else if name == "shiftr"@ {
        Some(Key::RShift)
    } else if name == "ctrl"@ || name == "control"@ || name == "mod4"@ {
        Some(Key::Ctrl)
    } else if name == "ctrll"@ || name == "lctrl"@ {
        Some(Key::LCtrl)
    } else if name == "ctrlr"@ || name == "rctrl"@ {
        Some(Key::RCtrl)
    } else if name == "alt"@ || name == "mod1"@ {
        Some(Key::Alt)
    } else if name == "altl"@ || name == "lalt"@ {
        Some(Key::LAlt)
    } else if name == "altr"@ || name == "ralt"@ {
        Some(Key::RAlt)
    } else {
        None
    }
}

/// Maps the name of a modifier, in lower case, to its key.
pub fn parse_modifier_token(name: &[char]) -> (r: Option<Key>)
    ensures
        r == modifier_named(name@),
{
    if is_text(name, "super") || is_text(name, "win") || is_text(name, "mod2") {
        Some(Key::Win)
    } else if is_text(name, "superl") || is_text(name, "lwin") {
        Some(Key::LWin)
    } else if is_text(name, "superr") || is_text(name, "rwin") {
        Some(Key::RWin)
    } else if is_text(name, "shift") || is_text(name, "mod5") {
        Some(Key::Shift)
    } else if is_text(name, "shiftl") {
        Some(Key::LShift)
    } else if is_text(name, "shiftr") {
        Some(Key::RShift)
    } else if is_text(name, "ctrl") || is_text(name, "control") || is_text(name, "mod4") {
        Some(Key::Ctrl)
    } else if is_text(name, "ctrll") || is_text(name, "lctrl") {
        Some(Key::LCtrl)
    } else if is_text(name, "ctrlr") || is_text(name, "rctrl") {
        Some(Key::RCtrl)
    } else if is_text(name, "alt") || is_text(name, "mod1") {
        Some(Key::Alt)
    } else if is_text(name, "altl") || is_text(name, "lalt") {
        Some(Key::LAlt)
    } else if is_text(name, "altr") || is_text(name, "ralt") {
        Some(Key::RAlt)
    } else {
        None
    }
}

/// Punctuation keys. A key has a second name for the character that it types
/// along with shift, since a keybinding declares its modifiers separately.
pub open spec fn spec_punctuation(name: Seq<char>) -> Option<Key> {
    if name == "minus"@ || name == "underscore"@ {
        Some(Key::OemMinus)
    } else if name == "equal"@ || name == "plus"@ {
        Some(Key::OemPlus)
    } else if name == "comma"@ || name == "less"@ {
        Some(Key::OemComma)
    } else if name == "period"@ || name == "greater"@ {
        Some(Key::OemPeriod)
    } else if name == "slash"@ || name == "question"@ {
        Some(Key::OemQuestion)
    } else if name == "semicolon"@ || name == "colon"@ {
        Some(Key::OemSemicolon)
    } else if name == "apostrophe"@ || name == "quotedbl"@ {
        Some(Key::OemQuotes)
    } else if name == "grave"@ || name == "asciitilde"@ {
        Some(Key::OemTilde)
    } else if name == "bracketleft"@ || name == "braceleft"@ {
        Some(Key::OemOpenBrackets)
    } else if name == "bracketright"@ || name == "braceright"@ {
        Some(Key::OemCloseBrackets)
    } else if name == "backslash"@ || name == "bar"@ {
        Some(Key::OemPipe)
    } else {
        None
    }
}

/// Punctuation keys. A key has a second name for the character that it types
/// along with shift, since a keybinding declares its modifiers separately.
fn punctuation(name: &[char]) -> (r: Option<Key>)
    ensures
        r == spec_punctuation(name@),
{
    if is_text(name, "minus") || is_text(name, "underscore") {
        Some(Key::OemMinus)
    } else if is_text(name, "equal") || is_text(name, "plus") {
        Some(Key::OemPlus)
    } else if is_text(name, "comma") || is_text(name, "less") {
        Some(Key::OemComma)
    } else if is_text(name, "period") || is_text(name, "greater") {
        Some(Key::OemPeriod)
    } else if is_text(name, "slash") || is_text(name, "question") {
        Some(Key::OemQuestion)
    } else if is_text(name, "semicolon") || is_text(name, "colon") {
        Some(Key::OemSemicolon)
    } else if is_text(name, "apostrophe") || is_text(name, "quotedbl") {
        Some(Key::OemQuotes)
    } else if is_text(name, "grave") || is_text(name, "asciitilde") {
        Some(Key::OemTilde)
    } else if is_text(name, "bracketleft") || is_text(name, "braceleft") {
        Some(Key::OemOpenBrackets)
    } else if is_text(name, "bracketright") || is_text(name, "braceright") {
        Some(Key::OemCloseBrackets)
    } else if is_text(name, "backslash") || is_text(name, "bar") {
        Some(Key::OemPipe)
    } else {
        None
    }
}

/// Keys that have a name of their own here as well.
pub open spec fn spec_renamed_key(name: Seq<char>) -> Option<Key> {
    if name == "return"@ {
        Some(Key::Enter)
    } else if name == "prior"@ || name == "page_up"@ {
        Some(Key::PageUp)
    } else if name == "next"@ || name == "page_down"@ {
        Some(Key::PageDown)
    } else if name == "print"@ {
        Some(Key::PrintScreen)
    } else if name == "caps_lock"@ {
        Some(Key::CapsLock)
    } else if name == "num_lock"@ {
        Some(Key::NumLock)
    } else if name == "scroll_lock"@ {
        Some(Key::ScrollLock)
    } else {
        None
    }
}

/// Keys that have a name of their own here as well.
fn renamed_key(name: &[char]) -> (r: Option<Key>)
    ensures
        r == spec_renamed_key(name@),
{
    if is_text(name, "return") {
        Some(Key::Enter)
    } else if is_text(name, "prior") || is_text(name, "page_up") {
        Some(Key::PageUp)
    } else if is_text(name, "next") || is_text(name, "page_down") {
        Some(Key::PageDown)
    } else if is_text(name, "print") {
        Some(Key::PrintScreen)
    } else if is_text(name, "caps_lock") {
        Some(Key::CapsLock)
    } else if is_text(name, "num_lock") {
        Some(Key::NumLock)
    } else if is_text(name, "scroll_lock") {
        Some(Key::ScrollLock)
    } else {
        None
    }
}

/// Keys of the numpad.
pub open spec fn spec_numpad_keysym(name: Seq<char>) -> Option<Key> {
    if name == "kp_add"@ {
        Some(Key::NumpadAdd)
    } else if name == "kp_subtract"@ {
        Some(Key::NumpadSubtract)
    } else if name == "kp_multiply"@ {
        Some(Key::NumpadMultiply)
    } else if name == "kp_divide"@ {
        Some(Key::NumpadDivide)
    } else if name == "kp_decimal"@ || name == "kp_separator"@ {
        Some(Key::NumpadDecimal)
    } else if name == "kp_0"@ || name == "kp_insert"@ {
        Some(Key::Numpad0)
    } else if name == "kp_1"@ || name == "kp_end"@ {
        Some(Key::Numpad1)
    } else if name == "kp_2"@ || name == "kp_down"@ {
        Some(Key::Numpad2)
    } else if name == "kp_3"@ || name == "kp_next"@ {
        Some(Key::Numpad3)
    } else if name == "kp_4"@ || name == "kp_left"@ {
        Some(Key::Numpad4)
    } else if name == "kp_5"@ || name == "kp_begin"@ {
        Some(Key::Numpad5)
    } else if name == "kp_6"@ || name == "kp_right"@ {
        Some(Key::Numpad6)
    } else if name == "kp_7"@ || name == "kp_home"@ {
        Some(Key::Numpad7)
    } else if name == "kp_8"@ || name == "kp_up"@ {
        Some(Key::Numpad8)
    } else if name == "kp_9"@ || name == "kp_prior"@ {
        Some(Key::Numpad9)
    } else {
        None
    }
}

/// Keys of the numpad.
fn numpad_keysym(name: &[char]) -> (r: Option<Key>)
    ensures
        r == spec_numpad_keysym(name@),
{
    if is_text(name, "kp_add") {
        Some(Key::NumpadAdd)
    } else if is_text(name, "kp_subtract") {
        Some(Key::NumpadSubtract)
    } else if is_text(name, "kp_multiply") {
        Some(Key::NumpadMultiply)
    } else if is_text(name, "kp_divide") {
        Some(Key::NumpadDivide)
    } else if is_text(name, "kp_decimal") || is_text(name, "kp_separator") {
        Some(Key::NumpadDecimal)
    } else if is_text(name, "kp_0") || is_text(name, "kp_insert") {
        Some(Key::Numpad0)
    } else if is_text(name, "kp_1") || is_text(name, "kp_end") {
        Some(Key::Numpad1)
    } else if is_text(name, "kp_2") || is_text(name, "kp_down") {
        Some(Key::Numpad2)
    } else if is_text(name, "kp_3") || is_text(name, "kp_next") {
        Some(Key::Numpad3)
    } else if is_text(name, "kp_4") || is_text(name, "kp_left") {
        Some(Key::Numpad4)
    } else if is_text(name, "kp_5") || is_text(name, "kp_begin") {
        Some(Key::Numpad5)
    } else if is_text(name, "kp_6") || is_text(name, "kp_right") {
        Some(Key::Numpad6)
    } else if is_text(name, "kp_7") || is_text(name, "kp_home") {
        Some(Key::Numpad7)
    } else if is_text(name, "kp_8") || is_text(name, "kp_up") {
        Some(Key::Numpad8)
    } else if is_text(name, "kp_9") || is_text(name, "kp_prior") {
        Some(Key::Numpad9)
    } else {
        None
    }
}

/// Media keys.
pub open spec fn spec_media_keysym(name: Seq<char>) -> Option<Key> {
    if name == "xf86audioraisevolume"@ {
        Some(Key::VolumeUp)
    } else if name == "xf86audiolowervolume"@ {
        Some(Key::VolumeDown)
    } else if name == "xf86audiomute"@ {
        Some(Key::VolumeMute)
    } else if name == "xf86audionext"@ {
        Some(Key::MediaNextTrack)
    } else if name == "xf86audioprev"@ {
        Some(Key::MediaPrevTrack)
    } else if name == "xf86audiostop"@ {
        Some(Key::MediaStop)
    } else if name == "xf86audioplay"@ || name == "xf86audiopause"@ {
        Some(Key::MediaPlayPause)
    } else {
        None
    }
}

/// Media keys.
fn media_keysym(name: &[char]) -> (r: Option<Key>)
    ensures
        r == spec_media_keysym(name@),
{
    if is_text(name, "xf86audioraisevolume") {
        Some(Key::VolumeUp)
    } else if is_text(name, "xf86audiolowervolume") {
        Some(Key::VolumeDown)
    } else if is_text(name, "xf86audiomute") {
        Some(Key::VolumeMute)
    } else if is_text(name, "xf86audionext") {
        Some(Key::MediaNextTrack)
    } else if is_text(name, "xf86audioprev") {
        Some(Key::MediaPrevTrack)
    } else if is_text(name, "xf86audiostop") {
        Some(Key::MediaStop)
    } else if is_text(name, "xf86audioplay") || is_text(name, "xf86audiopause") {
        Some(Key::MediaPlayPause)
    } else {
        None
    }
}

/// The key that a keysym stands for. Case does not matter.
///
/// Only the names that differ from those of [`Key::from_name`] are listed.
/// Punctuation stands for the key at that position of the US layout.
pub open spec fn key_of_keysym(token: Seq<char>) -> Option<Key> {
    let name = text::lowered(token);
    if spec_punctuation(name) is Some {
        spec_punctuation(name)
    } else if spec_renamed_key(name) is Some {
        spec_renamed_key(name)
    } else if spec_numpad_keysym(name) is Some {
        spec_numpad_keysym(name)
    } else {
        spec_media_keysym(name)
    }
}

/// Maps the name of a keysym to its key.
pub fn parse_keysym(token: &[char]) -> (r: Option<Key>)
    ensures
        r == key_of_keysym(token@),
{
    let lower_token = text::to_lower(token);
    let name = lower_token.as_slice();
    match punctuation(name) {
        Some(key) => {
            return Some(key);
        },
        None => {},
    }
    match renamed_key(name) {
        Some(key) => {
            return Some(key);
        },
        None => {},
    }
    match numpad_keysym(name) {
        Some(key) => {
            return Some(key);
        },
        None => {},
    }
    media_keysym(name)
}

/// The name of a punctuation key for the character that it types without
/// shift, where a name is the one for the character that it types with it.
pub open spec fn unshifted(name: Seq<char>) -> Seq<char> {
    if name == "underscore"@ {
        "minus"@
    } else if name == "plus"@ {
        "equal"@
    } else if name == "less"@ {
        "comma"@
    } else if name == "greater"@ {
        "period"@
    } else if name == "question"@ {
        "slash"@
    } else if name == "colon"@ {
        "semicolon"@
    } else if name == "quotedbl"@ {
        "apostrophe"@
    } else if name == "asciitilde"@ {
        "grave"@
    } else if name == "braceleft"@ {
        "bracketleft"@
    } else if name == "braceright"@ {
        "bracketright"@
    } else if name == "bar"@ {
        "backslash"@
    } else {
        name
    }
}

/// Whether a key is one of the numpad.
pub open spec fn is_numpad_key(key: Key) -> bool {
    ||| key is Numpad0
    ||| key is Numpad1
    ||| key is Numpad2
    ||| key is Numpad3
    ||| key is Numpad4
    ||| key is Numpad5
    ||| key is Numpad6
    ||| key is Numpad7
    ||| key is Numpad8
    ||| key is Numpad9
    ||| key is NumpadAdd
    ||| key is NumpadSubtract
    ||| key is NumpadMultiply
    ||| key is NumpadDivide
    ||| key is NumpadDecimal
}

/// The two names of a punctuation key, for the characters that it types with
/// and without shift, stand for the same key.
pub proof fn law_shifted_names_share_a_key(token: Seq<char>)
    ensures
        key_of_keysym(unshifted(text::lowered(token))) == key_of_keysym(token),
{
    text::lemma_lowered_twice(token);
    lemma_punctuation_names();
}

/// The names of the numpad, which start with `kp_`, stand for keys of the
/// numpad alone, and no other keysym stands for one of these. So `KP_Subtract`
/// is not the `minus` of the main row, nor is `KP_Add` its `plus`.
pub proof fn law_numpad_is_not_the_main_row(token: Seq<char>, other: Seq<char>)
    ensures
        key_of_keysym(token) is Some ==> is_numpad_key(key_of_keysym(token)->0)
            == text::spec_starts_with(text::lowered(token), "kp_"@),
        key_of_keysym(token) is Some && text::spec_starts_with(text::lowered(token), "kp_"@)
            && !text::spec_starts_with(text::lowered(other), "kp_"@) ==> key_of_keysym(token)
            != key_of_keysym(other),
{
    lemma_keysym_starts(text::lowered(token));
    lemma_keysym_starts(text::lowered(other));
}

/// The names of punctuation keys are in lower case, and no name stands for
/// two of them.
proof fn lemma_punctuation_names()
    ensures
        text::lowered("minus"@) == "minus"@,
        text::lowered("equal"@) == "equal"@,
        text::lowered("comma"@) == "comma"@,
        text::lowered("period"@) == "period"@,
        text::lowered("slash"@) == "slash"@,
        text::lowered("semicolon"@) == "semicolon"@,
        text::lowered("apostrophe"@) == "apostrophe"@,
        text::lowered("grave"@) == "grave"@,
        text::lowered("bracketleft"@) == "bracketleft"@,
        text::lowered("bracketright"@) == "bracketright"@,
        text::lowered("backslash"@) == "backslash"@,
        forall|name: Seq<char>|
            unshifted(name) != name ==> spec_punctuation(name) is Some && spec_punctuation(
                #[trigger] unshifted(name),
            ) == spec_punctuation(name),
{
    reveal_strlit("minus");
    reveal_strlit("underscore");
    reveal_strlit("equal");
    reveal_strlit("plus");
    reveal_strlit("comma");
    reveal_strlit("less");
    reveal_strlit("period");
    reveal_strlit("greater");
    reveal_strlit("slash");
    reveal_strlit("question");
    reveal_strlit("semicolon");
    reveal_strlit("colon");
    reveal_strlit("apostrophe");
    reveal_strlit("quotedbl");
    reveal_strlit("grave");
    reveal_strlit("asciitilde");
    reveal_strlit("bracketleft");
    reveal_strlit("braceleft");
    reveal_strlit("bracketright");
    reveal_strlit("braceright");
    reveal_strlit("backslash");
    reveal_strlit("bar");
    assert(text::lowered("minus"@) =~= "minus"@);
    assert(text::lowered("equal"@) =~= "equal"@);
    assert(text::lowered("comma"@) =~= "comma"@);
    assert(text::lowered("period"@) =~= "period"@);
    assert(text::lowered("slash"@) =~= "slash"@);
    assert(text::lowered("semicolon"@) =~= "semicolon"@);
    assert(text::lowered("apostrophe"@) =~= "apostrophe"@);
    assert(text::lowered("grave"@) =~= "grave"@);
    assert(text::lowered("bracketleft"@) =~= "bracketleft"@);
    assert(text::lowered("bracketright"@) =~= "bracketright"@);
    assert(text::lowered("backslash"@) =~= "backslash"@);
    assert("minus"@[0] == 'm');
    assert("underscore"@[0] == 'u');
    assert("equal"@[0] == 'e');
    assert("plus"@[0] == 'p');
    assert("comma"@[0] == 'c' && "comma"@[2] == 'm');
    assert("less"@[0] == 'l');
    assert("slash"@[0] == 's');
    assert("question"@[2] == 'e');
    assert("semicolon"@[0] == 's');
    assert("colon"@[0] == 'c' && "colon"@[2] == 'l');
    assert("apostrophe"@[0] == 'a' && "apostrophe"@[1] == 'p');
    assert("quotedbl"@[2] == 'o');
    assert("grave"@[0] == 'g');
    assert("asciitilde"@[0] == 'a' && "asciitilde"@[1] == 's');
    assert("braceleft"@[0] == 'b' && "braceleft"@[1] == 'r');
    assert("braceright"@[0] == 'b');
    assert("backslash"@[0] == 'b' && "backslash"@[1] == 'a');
}

/// Only the names of the numpad start with `kp_`.
proof fn lemma_keysym_starts(name: Seq<char>)
    ensures
        spec_punctuation(name) is Some ==> !text::spec_starts_with(name, "kp_"@),
        spec_renamed_key(name) is Some ==> !text::spec_starts_with(name, "kp_"@),
        spec_numpad_keysym(name) is Some ==> text::spec_starts_with(name, "kp_"@)
            && is_numpad_key(spec_numpad_keysym(name)->0),
        spec_media_keysym(name) is Some ==> !text::spec_starts_with(name, "kp_"@),
{
    reveal_strlit("kp_");
    reveal_strlit("minus");
    reveal_strlit("underscore");
    reveal_strlit("equal");
    reveal_strlit("plus");
    reveal_strlit("comma");
    reveal_strlit("less");
    reveal_strlit("period");
    reveal_strlit("greater");
    reveal_strlit("slash");
    reveal_strlit("question");
    reveal_strlit("semicolon");
    reveal_strlit("colon");
    reveal_strlit("apostrophe");
    reveal_strlit("quotedbl");
    reveal_strlit("grave");
    reveal_strlit("asciitilde");
    reveal_strlit("bracketleft");
    reveal_strlit("braceleft");
    reveal_strlit("bracketright");
    reveal_strlit("braceright");
    reveal_strlit("backslash");
    reveal_strlit("bar");
    reveal_strlit("return");
    reveal_strlit("prior");
    reveal_strlit("page_up");
    reveal_strlit("next");
    reveal_strlit("page_down");
    reveal_strlit("print");
    reveal_strlit("caps_lock");
    reveal_strlit("num_lock");
    reveal_strlit("scroll_lock");
    reveal_strlit("kp_add");
    reveal_strlit("kp_subtract");
    reveal_strlit("kp_multiply");
    reveal_strlit("kp_divide");
    reveal_strlit("kp_decimal");
    reveal_strlit("kp_separator");
    reveal_strlit("kp_0");
    reveal_strlit("kp_insert");
    reveal_strlit("kp_1");
    reveal_strlit("kp_end");
    reveal_strlit("kp_2");
    reveal_strlit("kp_down");
    reveal_strlit("kp_3");
    reveal_strlit("kp_next");
    reveal_strlit("kp_4");
    reveal_strlit("kp_left");
    reveal_strlit("kp_5");
    reveal_strlit("kp_begin");
    reveal_strlit("kp_6");
    reveal_strlit("kp_right");
    reveal_strlit("kp_7");
    reveal_strlit("kp_home");
    reveal_strlit("kp_8");
    reveal_strlit("kp_up");
    reveal_strlit("kp_9");
    reveal_strlit("kp_prior");
    reveal_strlit("xf86audioraisevolume");
    reveal_strlit("xf86audiolowervolume");
    reveal_strlit("xf86audiomute");
    reveal_strlit("xf86audionext");
    reveal_strlit("xf86audioprev");
    reveal_strlit("xf86audiostop");
    reveal_strlit("xf86audioplay");
    reveal_strlit("xf86audiopause");
    assert(text::spec_starts_with(name, "kp_"@) ==> name[0] == "kp_"@[0]);
}

} // verus!
