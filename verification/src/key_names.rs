//! The names of keys, one by one.

use vstd::prelude::*;

use crate::dispatchers;
use crate::keys::{self, Key};
use crate::keysyms;
use crate::text;

verus! {

/// The names of keys differ from each other.
proof fn lemma_key_names()
    ensures
        "a"@.len() == 1 && "a"@[0] == 'a',
        "b"@.len() == 1 && "b"@[0] == 'b',
        "c"@.len() == 1 && "c"@[0] == 'c',
        "d"@.len() == 1 && "d"@[0] == 'd',
        "e"@.len() == 1 && "e"@[0] == 'e',
        "f"@.len() == 1 && "f"@[0] == 'f',
        "g"@.len() == 1 && "g"@[0] == 'g',
        "h"@.len() == 1 && "h"@[0] == 'h',
        "i"@.len() == 1 && "i"@[0] == 'i',
        "j"@.len() == 1 && "j"@[0] == 'j',
        "k"@.len() == 1 && "k"@[0] == 'k',
        "l"@.len() == 1 && "l"@[0] == 'l',
        "m"@.len() == 1 && "m"@[0] == 'm',
        "n"@.len() == 1 && "n"@[0] == 'n',
        "o"@.len() == 1 && "o"@[0] == 'o',
        "p"@.len() == 1 && "p"@[0] == 'p',
        "q"@.len() == 1 && "q"@[0] == 'q',
        "r"@.len() == 1 && "r"@[0] == 'r',
        "s"@.len() == 1 && "s"@[0] == 's',
        "t"@.len() == 1 && "t"@[0] == 't',
        "u"@.len() == 1 && "u"@[0] == 'u',
        "v"@.len() == 1 && "v"@[0] == 'v',
        "w"@.len() == 1 && "w"@[0] == 'w',
        "x"@.len() == 1 && "x"@[0] == 'x',
        "y"@.len() == 1 && "y"@[0] == 'y',
        "z"@.len() == 1 && "z"@[0] == 'z',
        "0"@.len() == 1 && "0"@[0] == '0',
        "1"@.len() == 1 && "1"@[0] == '1',
        "2"@.len() == 1 && "2"@[0] == '2',
        "3"@.len() == 1 && "3"@[0] == '3',
        "4"@.len() == 1 && "4"@[0] == '4',
        "5"@.len() == 1 && "5"@[0] == '5',
        "6"@.len() == 1 && "6"@[0] == '6',
        "7"@.len() == 1 && "7"@[0] == '7',
        "8"@.len() == 1 && "8"@[0] == '8',
        "9"@.len() == 1 && "9"@[0] == '9',
        "f1"@.len() == 2 && "f1"@[0] == 'f' && "f1"@[1] == '1',
        "f2"@.len() == 2 && "f2"@[0] == 'f' && "f2"@[1] == '2',
        "f3"@.len() == 2 && "f3"@[0] == 'f' && "f3"@[1] == '3',
        "f4"@.len() == 2 && "f4"@[0] == 'f' && "f4"@[1] == '4',
        "f5"@.len() == 2 && "f5"@[0] == 'f' && "f5"@[1] == '5',
        "f6"@.len() == 2 && "f6"@[0] == 'f' && "f6"@[1] == '6',
        "f7"@.len() == 2 && "f7"@[0] == 'f' && "f7"@[1] == '7',
        "f8"@.len() == 2 && "f8"@[0] == 'f' && "f8"@[1] == '8',
        "f9"@.len() == 2 && "f9"@[0] == 'f' && "f9"@[1] == '9',
        "f10"@.len() == 3 && "f10"@[0] == 'f' && "f10"@[1] == '1' && "f10"@[2] == '0',
        "f11"@.len() == 3 && "f11"@[0] == 'f' && "f11"@[1] == '1' && "f11"@[2] == '1',
        "f12"@.len() == 3 && "f12"@[0] == 'f' && "f12"@[1] == '1' && "f12"@[2] == '2',
        "f13"@.len() == 3 && "f13"@[0] == 'f' && "f13"@[1] == '1' && "f13"@[2] == '3',
        "f14"@.len() == 3 && "f14"@[0] == 'f' && "f14"@[1] == '1' && "f14"@[2] == '4',
        "f15"@.len() == 3 && "f15"@[0] == 'f' && "f15"@[1] == '1' && "f15"@[2] == '5',
        "f16"@.len() == 3 && "f16"@[0] == 'f' && "f16"@[1] == '1' && "f16"@[2] == '6',
        "f17"@.len() == 3 && "f17"@[0] == 'f' && "f17"@[1] == '1' && "f17"@[2] == '7',
        "f18"@.len() == 3 && "f18"@[0] == 'f' && "f18"@[1] == '1' && "f18"@[2] == '8',
        "f19"@.len() == 3 && "f19"@[0] == 'f' && "f19"@[1] == '1' && "f19"@[2] == '9',
        "f20"@.len() == 3 && "f20"@[0] == 'f' && "f20"@[1] == '2' && "f20"@[2] == '0',
        "f21"@.len() == 3 && "f21"@[0] == 'f' && "f21"@[1] == '2' && "f21"@[2] == '1',
        "f22"@.len() == 3 && "f22"@[0] == 'f' && "f22"@[1] == '2' && "f22"@[2] == '2',
        "f23"@.len() == 3 && "f23"@[0] == 'f' && "f23"@[1] == '2' && "f23"@[2] == '3',
        "f24"@.len() == 3 && "f24"@[0] == 'f' && "f24"@[1] == '2' && "f24"@[2] == '4',
        "shift"@.len() == 5 && "shift"@[0] == 's' && "shift"@[1] == 'h',
        "lshift"@.len() == 6 && "lshift"@[0] == 'l',
        "rshift"@.len() == 6 && "rshift"@[0] == 'r',
        "ctrl"@.len() == 4 && "ctrl"@[0] == 'c',
        "control"@.len() == 7 && "control"@[0] == 'c',
        "lctrl"@.len() == 5 && "lctrl"@[0] == 'l',
        "rctrl"@.len() == 5 && "rctrl"@[0] == 'r' && "rctrl"@[1] == 'c',
        "alt"@.len() == 3 && "alt"@[0] == 'a' && "alt"@[1] == 'l',
        "lalt"@.len() == 4 && "lalt"@[0] == 'l' && "lalt"@[1] == 'a',
        "ralt"@.len() == 4 && "ralt"@[0] == 'r' && "ralt"@[1] == 'a',
        "win"@.len() == 3 && "win"@[0] == 'w',
        "lwin"@.len() == 4 && "lwin"@[0] == 'l' && "lwin"@[1] == 'w',
        "rwin"@.len() == 4 && "rwin"@[0] == 'r' && "rwin"@[1] == 'w',
        "space"@.len() == 5 && "space"@[0] == 's' && "space"@[1] == 'p',
        "tab"@.len() == 3 && "tab"@[0] == 't',
        "enter"@.len() == 5 && "enter"@[0] == 'e',
        "back"@.len() == 4 && "back"@[0] == 'b',
        "backspace"@.len() == 9 && "backspace"@[0] == 'b',
        "delete"@.len() == 6 && "delete"@[0] == 'd' && "delete"@[1] == 'e',
        "insert"@.len() == 6 && "insert"@[0] == 'i',
        "escape"@.len() == 6 && "escape"@[0] == 'e',
        "left"@.len() == 4 && "left"@[0] == 'l' && "left"@[1] == 'e',
        "right"@.len() == 5 && "right"@[0] == 'r' && "right"@[1] == 'i',
        "up"@.len() == 2 && "up"@[0] == 'u',
        "down"@.len() == 4 && "down"@[0] == 'd',
        "home"@.len() == 4 && "home"@[0] == 'h',
        "end"@.len() == 3 && "end"@[0] == 'e',
        "page_up"@.len() == 7 && "page_up"@[0] == 'p',
        "page_down"@.len() == 9 && "page_down"@[0] == 'p',
        "print_screen"@.len() == 12 && "print_screen"@[0] == 'p',
        "caps_lock"@.len() == 9 && "caps_lock"@[0] == 'c',
        "num_lock"@.len() == 8 && "num_lock"@[0] == 'n',
        "scroll_lock"@.len() == 11 && "scroll_lock"@[0] == 's',
        "numpad0"@.len() == 7 && "numpad0"@[0] == 'n' && "numpad0"@[6] == '0',
        "numpad1"@.len() == 7 && "numpad1"@[0] == 'n' && "numpad1"@[6] == '1',
        "numpad2"@.len() == 7 && "numpad2"@[0] == 'n' && "numpad2"@[6] == '2',
        "numpad3"@.len() == 7 && "numpad3"@[0] == 'n' && "numpad3"@[6] == '3',
        "numpad4"@.len() == 7 && "numpad4"@[0] == 'n' && "numpad4"@[6] == '4',
        "numpad5"@.len() == 7 && "numpad5"@[0] == 'n' && "numpad5"@[6] == '5',
        "numpad6"@.len() == 7 && "numpad6"@[0] == 'n' && "numpad6"@[6] == '6',
        "numpad7"@.len() == 7 && "numpad7"@[0] == 'n' && "numpad7"@[6] == '7',
        "numpad8"@.len() == 7 && "numpad8"@[0] == 'n' && "numpad8"@[6] == '8',
        "numpad9"@.len() == 7 && "numpad9"@[0] == 'n' && "numpad9"@[6] == '9',
        "add"@.len() == 3 && "add"@[0] == 'a' && "add"@[1] == 'd',
        "subtract"@.len() == 8 && "subtract"@[0] == 's',
        "multiply"@.len() == 8 && "multiply"@[0] == 'm',
        "divide"@.len() == 6 && "divide"@[0] == 'd' && "divide"@[1] == 'i',
        "decimal"@.len() == 7 && "decimal"@[0] == 'd',
        "volume_up"@.len() == 9 && "volume_up"@[0] == 'v',
        "volume_down"@.len() == 11 && "volume_down"@[0] == 'v' && "volume_down"@[7] == 'd',
        "volume_mute"@.len() == 11 && "volume_mute"@[0] == 'v' && "volume_mute"@[7] == 'm',
        "media_next_track"@.len() == 16 && "media_next_track"@[6] == 'n',
        "media_prev_track"@.len() == 16 && "media_prev_track"@[6] == 'p' && "media_prev_track"@[7] == 'r',
        "media_stop"@.len() == 10 && "media_stop"@[0] == 'm',
        "media_play_pause"@.len() == 16 && "media_play_pause"@[6] == 'p' && "media_play_pause"@[7] == 'l',
        "oem_semicolon"@.len() == 13,
        "oem_question"@.len() == 12 && "oem_question"@[0] == 'o',
        "oem_tilde"@.len() == 9 && "oem_tilde"@[0] == 'o' && "oem_tilde"@[4] == 't',
        "oem_open_brackets"@.len() == 17,
        "oem_pipe"@.len() == 8 && "oem_pipe"@[0] == 'o' && "oem_pipe"@[5] == 'i',
        "oem_close_brackets"@.len() == 18,
        "oem_quotes"@.len() == 10 && "oem_quotes"@[0] == 'o' && "oem_quotes"@[4] == 'q',
        "oem_plus"@.len() == 8 && "oem_plus"@[0] == 'o' && "oem_plus"@[5] == 'l',
        "oem_comma"@.len() == 9 && "oem_comma"@[0] == 'o' && "oem_comma"@[4] == 'c',
        "oem_minus"@.len() == 9 && "oem_minus"@[0] == 'o' && "oem_minus"@[4] == 'm',
        "oem_period"@.len() == 10 && "oem_period"@[0] == 'o' && "oem_period"@[4] == 'p',
{
    reveal_strlit("a");
    reveal_strlit("b");
    reveal_strlit("c");
    reveal_strlit("d");
    reveal_strlit("e");
    reveal_strlit("f");
    reveal_strlit("g");
    reveal_strlit("h");
    reveal_strlit("i");
    reveal_strlit("j");
    reveal_strlit("k");
    reveal_strlit("l");
    reveal_strlit("m");
    reveal_strlit("n");
    reveal_strlit("o");
    reveal_strlit("p");
    reveal_strlit("q");
    reveal_strlit("r");
    reveal_strlit("s");
    reveal_strlit("t");
    reveal_strlit("u");
    reveal_strlit("v");
    reveal_strlit("w");
    reveal_strlit("x");
    reveal_strlit("y");
    reveal_strlit("z");
    reveal_strlit("0");
    reveal_strlit("1");
    reveal_strlit("2");
    reveal_strlit("3");
    reveal_strlit("4");
    reveal_strlit("5");
    reveal_strlit("6");
    reveal_strlit("7");
    reveal_strlit("8");
    reveal_strlit("9");
    reveal_strlit("f1");
    reveal_strlit("f2");
    reveal_strlit("f3");
    reveal_strlit("f4");
    reveal_strlit("f5");
    reveal_strlit("f6");
    reveal_strlit("f7");
    reveal_strlit("f8");
    reveal_strlit("f9");
    reveal_strlit("f10");
    reveal_strlit("f11");
    reveal_strlit("f12");
    reveal_strlit("f13");
    reveal_strlit("f14");
    reveal_strlit("f15");
    reveal_strlit("f16");
    reveal_strlit("f17");
    reveal_strlit("f18");
    reveal_strlit("f19");
    reveal_strlit("f20");
    reveal_strlit("f21");
    reveal_strlit("f22");
    reveal_strlit("f23");
    reveal_strlit("f24");
    reveal_strlit("shift");
    reveal_strlit("lshift");
    reveal_strlit("rshift");
    reveal_strlit("ctrl");
    reveal_strlit("control");
    reveal_strlit("lctrl");
    reveal_strlit("rctrl");
    reveal_strlit("alt");
    reveal_strlit("lalt");
    reveal_strlit("ralt");
    reveal_strlit("win");
    reveal_strlit("lwin");
    reveal_strlit("rwin");
    reveal_strlit("space");
    reveal_strlit("tab");
    reveal_strlit("enter");
    reveal_strlit("back");
    reveal_strlit("backspace");
    reveal_strlit("delete");
    reveal_strlit("insert");
    reveal_strlit("escape");
    reveal_strlit("left");
    reveal_strlit("right");
    reveal_strlit("up");
    reveal_strlit("down");
    reveal_strlit("home");
    reveal_strlit("end");
    reveal_strlit("page_up");
    reveal_strlit("page_down");
    reveal_strlit("print_screen");
    reveal_strlit("caps_lock");
    reveal_strlit("num_lock");
    reveal_strlit("scroll_lock");
    reveal_strlit("numpad0");
    reveal_strlit("numpad1");
    reveal_strlit("numpad2");
    reveal_strlit("numpad3");
    reveal_strlit("numpad4");
    reveal_strlit("numpad5");
    reveal_strlit("numpad6");
    reveal_strlit("numpad7");
    reveal_strlit("numpad8");
    reveal_strlit("numpad9");
    reveal_strlit("add");
    reveal_strlit("subtract");
    reveal_strlit("multiply");
    reveal_strlit("divide");
    reveal_strlit("decimal");
    reveal_strlit("volume_up");
    reveal_strlit("volume_down");
    reveal_strlit("volume_mute");
    reveal_strlit("media_next_track");
    reveal_strlit("media_prev_track");
    reveal_strlit("media_stop");
    reveal_strlit("media_play_pause");
    reveal_strlit("oem_semicolon");
    reveal_strlit("oem_question");
    reveal_strlit("oem_tilde");
    reveal_strlit("oem_open_brackets");
    reveal_strlit("oem_pipe");
    reveal_strlit("oem_close_brackets");
    reveal_strlit("oem_quotes");
    reveal_strlit("oem_plus");
    reveal_strlit("oem_comma");
    reveal_strlit("oem_minus");
    reveal_strlit("oem_period");
}

/// The names of keysyms differ from each other.
proof fn lemma_keysym_names()
    ensures
        "minus"@.len() == 5 && "minus"@[0] == 'm',
        "underscore"@.len() == 10 && "underscore"@[0] == 'u',
        "equal"@.len() == 5 && "equal"@[0] == 'e',
        "plus"@.len() == 4 && "plus"@[0] == 'p',
        "comma"@.len() == 5 && "comma"@[0] == 'c' && "comma"@[2] == 'm',
        "less"@.len() == 4 && "less"@[0] == 'l',
        "period"@.len() == 6 && "period"@[0] == 'p',
        "greater"@.len() == 7 && "greater"@[0] == 'g',
        "slash"@.len() == 5 && "slash"@[0] == 's',
        "question"@.len() == 8 && "question"@[0] == 'q' && "question"@[2] == 'e',
        "semicolon"@.len() == 9 && "semicolon"@[0] == 's',
        "colon"@.len() == 5 && "colon"@[0] == 'c' && "colon"@[2] == 'l',
        "apostrophe"@.len() == 10 && "apostrophe"@[0] == 'a' && "apostrophe"@[1] == 'p',
        "quotedbl"@.len() == 8 && "quotedbl"@[0] == 'q' && "quotedbl"@[2] == 'o',
        "grave"@.len() == 5 && "grave"@[0] == 'g',
        "asciitilde"@.len() == 10 && "asciitilde"@[0] == 'a' && "asciitilde"@[1] == 's',
        "bracketleft"@.len() == 11 && "bracketleft"@[0] == 'b',
        "braceleft"@.len() == 9 && "braceleft"@[0] == 'b' && "braceleft"@[1] == 'r',
        "bracketright"@.len() == 12 && "bracketright"@[0] == 'b',
        "braceright"@.len() == 10 && "braceright"@[0] == 'b',
        "backslash"@.len() == 9 && "backslash"@[0] == 'b' && "backslash"@[1] == 'a',
        "bar"@.len() == 3,
        "return"@.len() == 6 && "return"@[0] == 'r',
        "prior"@.len() == 5 && "prior"@[0] == 'p' && "prior"@[3] == 'o',
        "page_up"@.len() == 7 && "page_up"@[0] == 'p',
        "next"@.len() == 4 && "next"@[0] == 'n',
        "page_down"@.len() == 9 && "page_down"@[0] == 'p',
        "print"@.len() == 5 && "print"@[0] == 'p' && "print"@[3] == 'n',
        "caps_lock"@.len() == 9 && "caps_lock"@[0] == 'c',
        "num_lock"@.len() == 8 && "num_lock"@[0] == 'n',
        "scroll_lock"@.len() == 11 && "scroll_lock"@[0] == 's',
        "kp_add"@.len() == 6 && "kp_add"@[0] == 'k' && "kp_add"@[3] == 'a',
        "kp_subtract"@.len() == 11 && "kp_subtract"@[0] == 'k' && "kp_subtract"@[3] == 's',
        "kp_multiply"@.len() == 11 && "kp_multiply"@[0] == 'k' && "kp_multiply"@[3] == 'm',
        "kp_divide"@.len() == 9 && "kp_divide"@[0] == 'k' && "kp_divide"@[3] == 'd',
        "kp_decimal"@.len() == 10 && "kp_decimal"@[0] == 'k',
        "kp_separator"@.len() == 12 && "kp_separator"@[0] == 'k',
        "kp_0"@.len() == 4 && "kp_0"@[0] == 'k' && "kp_0"@[3] == '0',
        "kp_insert"@.len() == 9 && "kp_insert"@[0] == 'k' && "kp_insert"@[3] == 'i',
        "kp_1"@.len() == 4 && "kp_1"@[0] == 'k' && "kp_1"@[3] == '1',
        "kp_end"@.len() == 6 && "kp_end"@[0] == 'k' && "kp_end"@[3] == 'e',
        "kp_2"@.len() == 4 && "kp_2"@[0] == 'k' && "kp_2"@[3] == '2',
        "kp_down"@.len() == 7 && "kp_down"@[0] == 'k' && "kp_down"@[3] == 'd',
        "kp_3"@.len() == 4 && "kp_3"@[0] == 'k' && "kp_3"@[3] == '3',
        "kp_next"@.len() == 7 && "kp_next"@[0] == 'k' && "kp_next"@[3] == 'n',
        "kp_4"@.len() == 4 && "kp_4"@[0] == 'k' && "kp_4"@[3] == '4',
        "kp_left"@.len() == 7 && "kp_left"@[0] == 'k' && "kp_left"@[3] == 'l',
        "kp_5"@.len() == 4 && "kp_5"@[0] == 'k' && "kp_5"@[3] == '5',
        "kp_begin"@.len() == 8 && "kp_begin"@[0] == 'k' && "kp_begin"@[3] == 'b',
        "kp_6"@.len() == 4 && "kp_6"@[0] == 'k' && "kp_6"@[3] == '6',
        "kp_right"@.len() == 8 && "kp_right"@[0] == 'k' && "kp_right"@[3] == 'r',
        "kp_7"@.len() == 4 && "kp_7"@[0] == 'k' && "kp_7"@[3] == '7',
        "kp_home"@.len() == 7 && "kp_home"@[0] == 'k' && "kp_home"@[3] == 'h',
        "kp_8"@.len() == 4 && "kp_8"@[0] == 'k' && "kp_8"@[3] == '8',
        "kp_up"@.len() == 5 && "kp_up"@[0] == 'k',
        "kp_9"@.len() == 4 && "kp_9"@[0] == 'k' && "kp_9"@[3] == '9',
        "kp_prior"@.len() == 8 && "kp_prior"@[0] == 'k' && "kp_prior"@[3] == 'p',
        "xf86audioraisevolume"@.len() == 20 && "xf86audioraisevolume"@[9] == 'r',
        "xf86audiolowervolume"@.len() == 20 && "xf86audiolowervolume"@[9] == 'l',
        "xf86audiomute"@.len() == 13 && "xf86audiomute"@[9] == 'm',
        "xf86audionext"@.len() == 13 && "xf86audionext"@[9] == 'n',
        "xf86audioprev"@.len() == 13 && "xf86audioprev"@[9] == 'p' && "xf86audioprev"@[10] == 'r',
        "xf86audiostop"@.len() == 13 && "xf86audiostop"@[9] == 's',
        "xf86audioplay"@.len() == 13 && "xf86audioplay"@[9] == 'p' && "xf86audioplay"@[10] == 'l',
        "xf86audiopause"@.len() == 14,
{
    reveal_strlit("minus");
    reveal_strlit("underscore");
    reveal_strlit("equal");
    reveal_strlit("plus");
    reveal_strlit("comma");
    reveal_strlit("less");
    reveal_strlit("period");
    reveal_strlit("greater");
    reveal_strlit("slash");
    reveal_strlit("question");
    reveal_strlit("semicolon");
    reveal_strlit("colon");
    reveal_strlit("apostrophe");
    reveal_strlit("quotedbl");
    reveal_strlit("grave");
    reveal_strlit("asciitilde");
    reveal_strlit("bracketleft");
    reveal_strlit("braceleft");
    reveal_strlit("bracketright");
    reveal_strlit("braceright");
    reveal_strlit("backslash");
    reveal_strlit("bar");
    reveal_strlit("return");
    reveal_strlit("prior");
    reveal_strlit("page_up");
    reveal_strlit("next");
    reveal_strlit("page_down");
    reveal_strlit("print");
    reveal_strlit("caps_lock");
    reveal_strlit("num_lock");
    reveal_strlit("scroll_lock");
    reveal_strlit("kp_add");
    reveal_strlit("kp_subtract");
    reveal_strlit("kp_multiply");
    reveal_strlit("kp_divide");
    reveal_strlit("kp_decimal");
    reveal_strlit("kp_separator");
    reveal_strlit("kp_0");
    reveal_strlit("kp_insert");
    reveal_strlit("kp_1");
    reveal_strlit("kp_end");
    reveal_strlit("kp_2");
    reveal_strlit("kp_down");
    reveal_strlit("kp_3");
    reveal_strlit("kp_next");
    reveal_strlit("kp_4");
    reveal_strlit("kp_left");
    reveal_strlit("kp_5");
    reveal_strlit("kp_begin");
    reveal_strlit("kp_6");
    reveal_strlit("kp_right");
    reveal_strlit("kp_7");
    reveal_strlit("kp_home");
    reveal_strlit("kp_8");
    reveal_strlit("kp_up");
    reveal_strlit("kp_9");
    reveal_strlit("kp_prior");
    reveal_strlit("xf86audioraisevolume");
    reveal_strlit("xf86audiolowervolume");
    reveal_strlit("xf86audiomute");
    reveal_strlit("xf86audionext");
    reveal_strlit("xf86audioprev");
    reveal_strlit("xf86audiostop");
    reveal_strlit("xf86audioplay");
    reveal_strlit("xf86audiopause");
}

/// The names of modifiers differ from each other.
proof fn lemma_modifier_names()
    ensures
        "super"@.len() == 5 && "super"@[0] == 's' && "super"@[1] == 'u',
        "win"@.len() == 3 && "win"@[0] == 'w',
        "mod2"@.len() == 4 && "mod2"@[0] == 'm' && "mod2"@[3] == '2',
        "superl"@.len() == 6 && "superl"@[1] == 'u' && "superl"@[5] == 'l',
        "lwin"@.len() == 4 && "lwin"@[0] == 'l' && "lwin"@[1] == 'w',
        "superr"@.len() == 6 && "superr"@[1] == 'u' && "superr"@[5] == 'r',
        "rwin"@.len() == 4 && "rwin"@[0] == 'r' && "rwin"@[1] == 'w',
        "shift"@.len() == 5 && "shift"@[0] == 's' && "shift"@[1] == 'h',
        "mod5"@.len() == 4 && "mod5"@[0] == 'm' && "mod5"@[3] == '5',
        "shiftl"@.len() == 6 && "shiftl"@[1] == 'h' && "shiftl"@[5] == 'l',
        "shiftr"@.len() == 6 && "shiftr"@[1] == 'h' && "shiftr"@[5] == 'r',
        "ctrl"@.len() == 4 && "ctrl"@[0] == 'c',
        "control"@.len() == 7,
        "mod4"@.len() == 4 && "mod4"@[0] == 'm' && "mod4"@[3] == '4',
        "ctrll"@.len() == 5 && "ctrll"@[0] == 'c' && "ctrll"@[4] == 'l',
        "lctrl"@.len() == 5 && "lctrl"@[0] == 'l',
        "ctrlr"@.len() == 5 && "ctrlr"@[0] == 'c' && "ctrlr"@[4] == 'r',
        "rctrl"@.len() == 5 && "rctrl"@[0] == 'r',
        "alt"@.len() == 3 && "alt"@[0] == 'a',
        "mod1"@.len() == 4 && "mod1"@[0] == 'm' && "mod1"@[3] == '1',
        "altl"@.len() == 4 && "altl"@[0] == 'a' && "altl"@[3] == 'l',
        "lalt"@.len() == 4 && "lalt"@[0] == 'l' && "lalt"@[1] == 'a',
        "altr"@.len() == 4 && "altr"@[0] == 'a' && "altr"@[3] == 'r',
        "ralt"@.len() == 4 && "ralt"@[0] == 'r' && "ralt"@[1] == 'a',
{
    reveal_strlit("super");
    reveal_strlit("win");
    reveal_strlit("mod2");
    reveal_strlit("superl");
    reveal_strlit("lwin");
    reveal_strlit("superr");
    reveal_strlit("rwin");
    reveal_strlit("shift");
    reveal_strlit("mod5");
    reveal_strlit("shiftl");
    reveal_strlit("shiftr");
    reveal_strlit("ctrl");
    reveal_strlit("control");
    reveal_strlit("mod4");
    reveal_strlit("ctrll");
    reveal_strlit("lctrl");
    reveal_strlit("ctrlr");
    reveal_strlit("rctrl");
    reveal_strlit("alt");
    reveal_strlit("mod1");
    reveal_strlit("altl");
    reveal_strlit("lalt");
    reveal_strlit("altr");
    reveal_strlit("ralt");
}

/// Letters are keys of their own.
pub proof fn law_letters(token: Seq<char>)
    ensures
        text::lowered(token) == "a"@ ==> keys::key_named(token) == Some(Key::A),
        text::lowered(token) == "b"@ ==> keys::key_named(token) == Some(Key::B),
        text::lowered(token) == "c"@ ==> keys::key_named(token) == Some(Key::C),
        text::lowered(token) == "d"@ ==> keys::key_named(token) == Some(Key::D),
        text::lowered(token) == "e"@ ==> keys::key_named(token) == Some(Key::E),
        text::lowered(token) == "f"@ ==> keys::key_named(token) == Some(Key::F),
        text::lowered(token) == "g"@ ==> keys::key_named(token) == Some(Key::G),
        text::lowered(token) == "h"@ ==> keys::key_named(token) == Some(Key::H),
        text::lowered(token) == "i"@ ==> keys::key_named(token) == Some(Key::I),
        text::lowered(token) == "j"@ ==> keys::key_named(token) == Some(Key::J),
        text::lowered(token) == "k"@ ==> keys::key_named(token) == Some(Key::K),
        text::lowered(token) == "l"@ ==> keys::key_named(token) == Some(Key::L),
        text::lowered(token) == "m"@ ==> keys::key_named(token) == Some(Key::M),
        text::lowered(token) == "n"@ ==> keys::key_named(token) == Some(Key::N),
        text::lowered(token) == "o"@ ==> keys::key_named(token) == Some(Key::O),
        text::lowered(token) == "p"@ ==> keys::key_named(token) == Some(Key::P),
        text::lowered(token) == "q"@ ==> keys::key_named(token) == Some(Key::Q),
        text::lowered(token) == "r"@ ==> keys::key_named(token) == Some(Key::R),
        text::lowered(token) == "s"@ ==> keys::key_named(token) == Some(Key::S),
        text::lowered(token) == "t"@ ==> keys::key_named(token) == Some(Key::T),
        text::lowered(token) == "u"@ ==> keys::key_named(token) == Some(Key::U),
        text::lowered(token) == "v"@ ==> keys::key_named(token) == Some(Key::V),
        text::lowered(token) == "w"@ ==> keys::key_named(token) == Some(Key::W),
        text::lowered(token) == "x"@ ==> keys::key_named(token) == Some(Key::X),
        text::lowered(token) == "y"@ ==> keys::key_named(token) == Some(Key::Y),
        text::lowered(token) == "z"@ ==> keys::key_named(token) == Some(Key::Z),
{
    lemma_key_names();
}

/// Digits are the keys of the main row.
pub proof fn law_digit_keys(token: Seq<char>)
    ensures
        text::lowered(token) == "0"@ ==> keys::key_named(token) == Some(Key::D0),
        text::lowered(token) == "1"@ ==> keys::key_named(token) == Some(Key::D1),
        text::lowered(token) == "2"@ ==> keys::key_named(token) == Some(Key::D2),
        text::lowered(token) == "3"@ ==> keys::key_named(token) == Some(Key::D3),
        text::lowered(token) == "4"@ ==> keys::key_named(token) == Some(Key::D4),
        text::lowered(token) == "5"@ ==> keys::key_named(token) == Some(Key::D5),
        text::lowered(token) == "6"@ ==> keys::key_named(token) == Some(Key::D6),
        text::lowered(token) == "7"@ ==> keys::key_named(token) == Some(Key::D7),
        text::lowered(token) == "8"@ ==> keys::key_named(token) == Some(Key::D8),
        text::lowered(token) == "9"@ ==> keys::key_named(token) == Some(Key::D9),
{
    lemma_key_names();
}

/// Function keys go by their numbers.
pub proof fn law_function_keys(token: Seq<char>)
    ensures
        text::lowered(token) == "f1"@ ==> keys::key_named(token) == Some(Key::F1),
        text::lowered(token) == "f2"@ ==> keys::key_named(token) == Some(Key::F2),
        text::lowered(token) == "f3"@ ==> keys::key_named(token) == Some(Key::F3),
        text::lowered(token) == "f4"@ ==> keys::key_named(token) == Some(Key::F4),
        text::lowered(token) == "f5"@ ==> keys::key_named(token) == Some(Key::F5),
        text::lowered(token) == "f6"@ ==> keys::key_named(token) == Some(Key::F6),
        text::lowered(token) == "f7"@ ==> keys::key_named(token) == Some(Key::F7),
        text::lowered(token) == "f8"@ ==> keys::key_named(token) == Some(Key::F8),
        text::lowered(token) == "f9"@ ==> keys::key_named(token) == Some(Key::F9),
        text::lowered(token) == "f10"@ ==> keys::key_named(token) == Some(Key::F10),
        text::lowered(token) == "f11"@ ==> keys::key_named(token) == Some(Key::F11),
        text::lowered(token) == "f12"@ ==> keys::key_named(token) == Some(Key::F12),
        text::lowered(token) == "f13"@ ==> keys::key_named(token) == Some(Key::F13),
        text::lowered(token) == "f14"@ ==> keys::key_named(token) == Some(Key::F14),
        text::lowered(token) == "f15"@ ==> keys::key_named(token) == Some(Key::F15),
        text::lowered(token) == "f16"@ ==> keys::key_named(token) == Some(Key::F16),
        text::lowered(token) == "f17"@ ==> keys::key_named(token) == Some(Key::F17),
        text::lowered(token) == "f18"@ ==> keys::key_named(token) == Some(Key::F18),
        text::lowered(token) == "f19"@ ==> keys::key_named(token) == Some(Key::F19),
        text::lowered(token) == "f20"@ ==> keys::key_named(token) == Some(Key::F20),
        text::lowered(token) == "f21"@ ==> keys::key_named(token) == Some(Key::F21),
        text::lowered(token) == "f22"@ ==> keys::key_named(token) == Some(Key::F22),
        text::lowered(token) == "f23"@ ==> keys::key_named(token) == Some(Key::F23),
        text::lowered(token) == "f24"@ ==> keys::key_named(token) == Some(Key::F24),
{
    lemma_key_names();
}

/// Modifiers are keys as well, on either side or on one of them.
pub proof fn law_modifier_keys(token: Seq<char>)
    ensures
        text::lowered(token) == "shift"@ ==> keys::key_named(token) == Some(Key::Shift),
        text::lowered(token) == "lshift"@ ==> keys::key_named(token) == Some(Key::LShift),
        text::lowered(token) == "rshift"@ ==> keys::key_named(token) == Some(Key::RShift),
        text::lowered(token) == "ctrl"@ ==> keys::key_named(token) == Some(Key::Ctrl),
        text::lowered(token) == "control"@ ==> keys::key_named(token) == Some(Key::Ctrl),
        text::lowered(token) == "lctrl"@ ==> keys::key_named(token) == Some(Key::LCtrl),
        text::lowered(token) == "rctrl"@ ==> keys::key_named(token) == Some(Key::RCtrl),
        text::lowered(token) == "alt"@ ==> keys::key_named(token) == Some(Key::Alt),
        text::lowered(token) == "lalt"@ ==> keys::key_named(token) == Some(Key::LAlt),
        text::lowered(token) == "ralt"@ ==> keys::key_named(token) == Some(Key::RAlt),
        text::lowered(token) == "win"@ ==> keys::key_named(token) == Some(Key::Win),
        text::lowered(token) == "lwin"@ ==> keys::key_named(token) == Some(Key::LWin),
        text::lowered(token) == "rwin"@ ==> keys::key_named(token) == Some(Key::RWin),
{
    lemma_key_names();
}

/// Keys that edit and navigate.
pub proof fn law_editing_keys(token: Seq<char>)
    ensures
        text::lowered(token) == "space"@ ==> keys::key_named(token) == Some(Key::Space),
        text::lowered(token) == "tab"@ ==> keys::key_named(token) == Some(Key::Tab),
        text::lowered(token) == "enter"@ ==> keys::key_named(token) == Some(Key::Enter),
        text::lowered(token) == "back"@ ==> keys::key_named(token) == Some(Key::Backspace),
        text::lowered(token) == "backspace"@ ==> keys::key_named(token) == Some(Key::Backspace),
        text::lowered(token) == "delete"@ ==> keys::key_named(token) == Some(Key::Delete),
        text::lowered(token) == "insert"@ ==> keys::key_named(token) == Some(Key::Insert),
        text::lowered(token) == "escape"@ ==> keys::key_named(token) == Some(Key::Escape),
        text::lowered(token) == "left"@ ==> keys::key_named(token) == Some(Key::Left),
        text::lowered(token) == "right"@ ==> keys::key_named(token) == Some(Key::Right),
        text::lowered(token) == "up"@ ==> keys::key_named(token) == Some(Key::Up),
        text::lowered(token) == "down"@ ==> keys::key_named(token) == Some(Key::Down),
        text::lowered(token) == "home"@ ==> keys::key_named(token) == Some(Key::Home),
        text::lowered(token) == "end"@ ==> keys::key_named(token) == Some(Key::End),
        text::lowered(token) == "page_up"@ ==> keys::key_named(token) == Some(Key::PageUp),
        text::lowered(token) == "page_down"@ ==> keys::key_named(token) == Some(Key::PageDown),
        text::lowered(token) == "print_screen"@ ==> keys::key_named(token) == Some(Key::PrintScreen),
        text::lowered(token) == "caps_lock"@ ==> keys::key_named(token) == Some(Key::CapsLock),
        text::lowered(token) == "num_lock"@ ==> keys::key_named(token) == Some(Key::NumLock),
        text::lowered(token) == "scroll_lock"@ ==> keys::key_named(token) == Some(Key::ScrollLock),
{
    lemma_key_names();
}

/// Keys of the numpad.
pub proof fn law_numpad_keys(token: Seq<char>)
    ensures
        text::lowered(token) == "numpad0"@ ==> keys::key_named(token) == Some(Key::Numpad0),
        text::lowered(token) == "numpad1"@ ==> keys::key_named(token) == Some(Key::Numpad1),
        text::lowered(token) == "numpad2"@ ==> keys::key_named(token) == Some(Key::Numpad2),
        text::lowered(token) == "numpad3"@ ==> keys::key_named(token) == Some(Key::Numpad3),
        text::lowered(token) == "numpad4"@ ==> keys::key_named(token) == Some(Key::Numpad4),
        text::lowered(token) == "numpad5"@ ==> keys::key_named(token) == Some(Key::Numpad5),
        text::lowered(token) == "numpad6"@ ==> keys::key_named(token) == Some(Key::Numpad6),
        text::lowered(token) == "numpad7"@ ==> keys::key_named(token) == Some(Key::Numpad7),
        text::lowered(token) == "numpad8"@ ==> keys::key_named(token) == Some(Key::Numpad8),
        text::lowered(token) == "numpad9"@ ==> keys::key_named(token) == Some(Key::Numpad9),
        text::lowered(token) == "add"@ ==> keys::key_named(token) == Some(Key::NumpadAdd),
        text::lowered(token) == "subtract"@ ==> keys::key_named(token) == Some(Key::NumpadSubtract),
        text::lowered(token) == "multiply"@ ==> keys::key_named(token) == Some(Key::NumpadMultiply),
        text::lowered(token) == "divide"@ ==> keys::key_named(token) == Some(Key::NumpadDivide),
        text::lowered(token) == "decimal"@ ==> keys::key_named(token) == Some(Key::NumpadDecimal),
{
    lemma_key_names();
}

/// Media keys.
pub proof fn law_media_keys(token: Seq<char>)
    ensures
        text::lowered(token) == "volume_up"@ ==> keys::key_named(token) == Some(Key::VolumeUp),
        text::lowered(token) == "volume_down"@ ==> keys::key_named(token) == Some(Key::VolumeDown),
        text::lowered(token) == "volume_mute"@ ==> keys::key_named(token) == Some(Key::VolumeMute),
        text::lowered(token) == "media_next_track"@ ==> keys::key_named(token) == Some(Key::MediaNextTrack),
        text::lowered(token) == "media_prev_track"@ ==> keys::key_named(token) == Some(Key::MediaPrevTrack),
        text::lowered(token) == "media_stop"@ ==> keys::key_named(token) == Some(Key::MediaStop),
        text::lowered(token) == "media_play_pause"@ ==> keys::key_named(token) == Some(Key::MediaPlayPause),
{
    lemma_key_names();
}

/// Punctuation keys go by their virtual keys.
pub proof fn law_punctuation_keys(token: Seq<char>)
    ensures
        text::lowered(token) == "oem_semicolon"@ ==> keys::key_named(token) == Some(Key::OemSemicolon),
        text::lowered(token) == "oem_question"@ ==> keys::key_named(token) == Some(Key::OemQuestion),
        text::lowered(token) == "oem_tilde"@ ==> keys::key_named(token) == Some(Key::OemTilde),
        text::lowered(token) == "oem_open_brackets"@ ==> keys::key_named(token) == Some(Key::OemOpenBrackets),
        text::lowered(token) == "oem_pipe"@ ==> keys::key_named(token) == Some(Key::OemPipe),
        text::lowered(token) == "oem_close_brackets"@ ==> keys::key_named(token) == Some(Key::OemCloseBrackets),
        text::lowered(token) == "oem_quotes"@ ==> keys::key_named(token) == Some(Key::OemQuotes),
        text::lowered(token) == "oem_plus"@ ==> keys::key_named(token) == Some(Key::OemPlus),
        text::lowered(token) == "oem_comma"@ ==> keys::key_named(token) == Some(Key::OemComma),
        text::lowered(token) == "oem_minus"@ ==> keys::key_named(token) == Some(Key::OemMinus),
        text::lowered(token) == "oem_period"@ ==> keys::key_named(token) == Some(Key::OemPeriod),
{
    lemma_key_names();
}

/// Nothing else is the name of a key.
pub proof fn law_no_other_key_names(token: Seq<char>)
    requires
        text::lowered(token) != "a"@,
        text::lowered(token) != "b"@,
        text::lowered(token) != "c"@,
        text::lowered(token) != "d"@,
        text::lowered(token) != "e"@,
        text::lowered(token) != "f"@,
        text::lowered(token) != "g"@,
        text::lowered(token) != "h"@,
        text::lowered(token) != "i"@,
        text::lowered(token) != "j"@,
        text::lowered(token) != "k"@,
        text::lowered(token) != "l"@,
        text::lowered(token) != "m"@,
        text::lowered(token) != "n"@,
        text::lowered(token) != "o"@,
        text::lowered(token) != "p"@,
        text::lowered(token) != "q"@,
        text::lowered(token) != "r"@,
        text::lowered(token) != "s"@,
        text::lowered(token) != "t"@,
        text::lowered(token) != "u"@,
        text::lowered(token) != "v"@,
        text::lowered(token) != "w"@,
        text::lowered(token) != "x"@,
        text::lowered(token) != "y"@,
        text::lowered(token) != "z"@,
        text::lowered(token) != "0"@,
        text::lowered(token) != "1"@,
        text::lowered(token) != "2"@,
        text::lowered(token) != "3"@,
        text::lowered(token) != "4"@,
        text::lowered(token) != "5"@,
        text::lowered(token) != "6"@,
        text::lowered(token) != "7"@,
        text::lowered(token) != "8"@,
        text::lowered(token) != "9"@,
        text::lowered(token) != "f1"@,
        text::lowered(token) != "f2"@,
        text::lowered(token) != "f3"@,
        text::lowered(token) != "f4"@,
        text::lowered(token) != "f5"@,
        text::lowered(token) != "f6"@,
        text::lowered(token) != "f7"@,
        text::lowered(token) != "f8"@,
        text::lowered(token) != "f9"@,
        text::lowered(token) != "f10"@,
        text::lowered(token) != "f11"@,
        text::lowered(token) != "f12"@,
        text::lowered(token) != "f13"@,
        text::lowered(token) != "f14"@,
        text::lowered(token) != "f15"@,
        text::lowered(token) != "f16"@,
        text::lowered(token) != "f17"@,
        text::lowered(token) != "f18"@,
        text::lowered(token) != "f19"@,
        text::lowered(token) != "f20"@,
        text::lowered(token) != "f21"@,
        text::lowered(token) != "f22"@,
        text::lowered(token) != "f23"@,
        text::lowered(token) != "f24"@,
        text::lowered(token) != "shift"@,
        text::lowered(token) != "lshift"@,
        text::lowered(token) != "rshift"@,
        text::lowered(token) != "ctrl"@,
        text::lowered(token) != "control"@,
        text::lowered(token) != "lctrl"@,
        text::lowered(token) != "rctrl"@,
        text::lowered(token) != "alt"@,
        text::lowered(token) != "lalt"@,
        text::lowered(token) != "ralt"@,
        text::lowered(token) != "win"@,
        text::lowered(token) != "lwin"@,
        text::lowered(token) != "rwin"@,
        text::lowered(token) != "space"@,
        text::lowered(token) != "tab"@,
        text::lowered(token) != "enter"@,
        text::lowered(token) != "back"@,
        text::lowered(token) != "backspace"@,
        text::lowered(token) != "delete"@,
        text::lowered(token) != "insert"@,
        text::lowered(token) != "escape"@,
        text::lowered(token) != "left"@,
        text::lowered(token) != "right"@,
        text::lowered(token) != "up"@,
        text::lowered(token) != "down"@,
        text::lowered(token) != "home"@,
        text::lowered(token) != "end"@,
        text::lowered(token) != "page_up"@,
        text::lowered(token) != "page_down"@,
        text::lowered(token) != "print_screen"@,
        text::lowered(token) != "caps_lock"@,
        text::lowered(token) != "num_lock"@,
        text::lowered(token) != "scroll_lock"@,
        text::lowered(token) != "numpad0"@,
        text::lowered(token) != "numpad1"@,
        text::lowered(token) != "numpad2"@,
        text::lowered(token) != "numpad3"@,
        text::lowered(token) != "numpad4"@,
        text::lowered(token) != "numpad5"@,
        text::lowered(token) != "numpad6"@,
        text::lowered(token) != "numpad7"@,
        text::lowered(token) != "numpad8"@,
        text::lowered(token) != "numpad9"@,
        text::lowered(token) != "add"@,
        text::lowered(token) != "subtract"@,
        text::lowered(token) != "multiply"@,
        text::lowered(token) != "divide"@,
        text::lowered(token) != "decimal"@,
        text::lowered(token) != "volume_up"@,
        text::lowered(token) != "volume_down"@,
        text::lowered(token) != "volume_mute"@,
        text::lowered(token) != "media_next_track"@,
        text::lowered(token) != "media_prev_track"@,
        text::lowered(token) != "media_stop"@,
        text::lowered(token) != "media_play_pause"@,
        text::lowered(token) != "oem_semicolon"@,
        text::lowered(token) != "oem_question"@,
        text::lowered(token) != "oem_tilde"@,
        text::lowered(token) != "oem_open_brackets"@,
        text::lowered(token) != "oem_pipe"@,
        text::lowered(token) != "oem_close_brackets"@,
        text::lowered(token) != "oem_quotes"@,
        text::lowered(token) != "oem_plus"@,
        text::lowered(token) != "oem_comma"@,
        text::lowered(token) != "oem_minus"@,
        text::lowered(token) != "oem_period"@,
    ensures
        keys::key_named(token) is None,
{
}

/// Punctuation stands for the key at its place on the US layout.
pub proof fn law_punctuation_keysyms(token: Seq<char>)
    ensures
        text::lowered(token) == "minus"@ ==> keysyms::key_of_keysym(token) == Some(Key::OemMinus),
        text::lowered(token) == "underscore"@ ==> keysyms::key_of_keysym(token) == Some(Key::OemMinus),
        text::lowered(token) == "equal"@ ==> keysyms::key_of_keysym(token) == Some(Key::OemPlus),
        text::lowered(token) == "plus"@ ==> keysyms::key_of_keysym(token) == Some(Key::OemPlus),
        text::lowered(token) == "comma"@ ==> keysyms::key_of_keysym(token) == Some(Key::OemComma),
        text::lowered(token) == "less"@ ==> keysyms::key_of_keysym(token) == Some(Key::OemComma),
        text::lowered(token) == "period"@ ==> keysyms::key_of_keysym(token) == Some(Key::OemPeriod),
        text::lowered(token) == "greater"@ ==> keysyms::key_of_keysym(token) == Some(Key::OemPeriod),
        text::lowered(token) == "slash"@ ==> keysyms::key_of_keysym(token) == Some(Key::OemQuestion),
        text::lowered(token) == "question"@ ==> keysyms::key_of_keysym(token) == Some(Key::OemQuestion),
        text::lowered(token) == "semicolon"@ ==> keysyms::key_of_keysym(token) == Some(Key::OemSemicolon),
        text::lowered(token) == "colon"@ ==> keysyms::key_of_keysym(token) == Some(Key::OemSemicolon),
        text::lowered(token) == "apostrophe"@ ==> keysyms::key_of_keysym(token) == Some(Key::OemQuotes),
        text::lowered(token) == "quotedbl"@ ==> keysyms::key_of_keysym(token) == Some(Key::OemQuotes),
        text::lowered(token) == "grave"@ ==> keysyms::key_of_keysym(token) == Some(Key::OemTilde),
        text::lowered(token) == "asciitilde"@ ==> keysyms::key_of_keysym(token) == Some(Key::OemTilde),
        text::lowered(token) == "bracketleft"@ ==> keysyms::key_of_keysym(token) == Some(Key::OemOpenBrackets),
        text::lowered(token) == "braceleft"@ ==> keysyms::key_of_keysym(token) == Some(Key::OemOpenBrackets),
        text::lowered(token) == "bracketright"@ ==> keysyms::key_of_keysym(token) == Some(Key::OemCloseBrackets),
        text::lowered(token) == "braceright"@ ==> keysyms::key_of_keysym(token) == Some(Key::OemCloseBrackets),
        text::lowered(token) == "backslash"@ ==> keysyms::key_of_keysym(token) == Some(Key::OemPipe),
        text::lowered(token) == "bar"@ ==> keysyms::key_of_keysym(token) == Some(Key::OemPipe),
{
    lemma_keysym_names();
}

/// Keys that go by another name.
pub proof fn law_renamed_keysyms(token: Seq<char>)
    ensures
        text::lowered(token) == "return"@ ==> keysyms::key_of_keysym(token) == Some(Key::Enter),
        text::lowered(token) == "prior"@ ==> keysyms::key_of_keysym(token) == Some(Key::PageUp),
        text::lowered(token) == "page_up"@ ==> keysyms::key_of_keysym(token) == Some(Key::PageUp),
        text::lowered(token) == "next"@ ==> keysyms::key_of_keysym(token) == Some(Key::PageDown),
        text::lowered(token) == "page_down"@ ==> keysyms::key_of_keysym(token) == Some(Key::PageDown),
        text::lowered(token) == "print"@ ==> keysyms::key_of_keysym(token) == Some(Key::PrintScreen),
        text::lowered(token) == "caps_lock"@ ==> keysyms::key_of_keysym(token) == Some(Key::CapsLock),
        text::lowered(token) == "num_lock"@ ==> keysyms::key_of_keysym(token) == Some(Key::NumLock),
        text::lowered(token) == "scroll_lock"@ ==> keysyms::key_of_keysym(token) == Some(Key::ScrollLock),
{
    lemma_keysym_names();
}

/// Keys of the numpad, with and without its lock.
pub proof fn law_numpad_keysyms(token: Seq<char>)
    ensures
        text::lowered(token) == "kp_add"@ ==> keysyms::key_of_keysym(token) == Some(Key::NumpadAdd),
        text::lowered(token) == "kp_subtract"@ ==> keysyms::key_of_keysym(token) == Some(Key::NumpadSubtract),
        text::lowered(token) == "kp_multiply"@ ==> keysyms::key_of_keysym(token) == Some(Key::NumpadMultiply),
        text::lowered(token) == "kp_divide"@ ==> keysyms::key_of_keysym(token) == Some(Key::NumpadDivide),
        text::lowered(token) == "kp_decimal"@ ==> keysyms::key_of_keysym(token) == Some(Key::NumpadDecimal),
        text::lowered(token) == "kp_separator"@ ==> keysyms::key_of_keysym(token) == Some(Key::NumpadDecimal),
        text::lowered(token) == "kp_0"@ ==> keysyms::key_of_keysym(token) == Some(Key::Numpad0),
        text::lowered(token) == "kp_insert"@ ==> keysyms::key_of_keysym(token) == Some(Key::Numpad0),
        text::lowered(token) == "kp_1"@ ==> keysyms::key_of_keysym(token) == Some(Key::Numpad1),
        text::lowered(token) == "kp_end"@ ==> keysyms::key_of_keysym(token) == Some(Key::Numpad1),
        text::lowered(token) == "kp_2"@ ==> keysyms::key_of_keysym(token) == Some(Key::Numpad2),
        text::lowered(token) == "kp_down"@ ==> keysyms::key_of_keysym(token) == Some(Key::Numpad2),
        text::lowered(token) == "kp_3"@ ==> keysyms::key_of_keysym(token) == Some(Key::Numpad3),
        text::lowered(token) == "kp_next"@ ==> keysyms::key_of_keysym(token) == Some(Key::Numpad3),
        text::lowered(token) == "kp_4"@ ==> keysyms::key_of_keysym(token) == Some(Key::Numpad4),
        text::lowered(token) == "kp_left"@ ==> keysyms::key_of_keysym(token) == Some(Key::Numpad4),
        text::lowered(token) == "kp_5"@ ==> keysyms::key_of_keysym(token) == Some(Key::Numpad5),
        text::lowered(token) == "kp_begin"@ ==> keysyms::key_of_keysym(token) == Some(Key::Numpad5),
        text::lowered(token) == "kp_6"@ ==> keysyms::key_of_keysym(token) == Some(Key::Numpad6),
        text::lowered(token) == "kp_right"@ ==> keysyms::key_of_keysym(token) == Some(Key::Numpad6),
        text::lowered(token) == "kp_7"@ ==> keysyms::key_of_keysym(token) == Some(Key::Numpad7),
        text::lowered(token) == "kp_home"@ ==> keysyms::key_of_keysym(token) == Some(Key::Numpad7),
        text::lowered(token) == "kp_8"@ ==> keysyms::key_of_keysym(token) == Some(Key::Numpad8),
        text::lowered(token) == "kp_up"@ ==> keysyms::key_of_keysym(token) == Some(Key::Numpad8),
        text::lowered(token) == "kp_9"@ ==> keysyms::key_of_keysym(token) == Some(Key::Numpad9),
        text::lowered(token) == "kp_prior"@ ==> keysyms::key_of_keysym(token) == Some(Key::Numpad9),
{
    lemma_keysym_names();
}

/// Media keys.
pub proof fn law_media_keysyms(token: Seq<char>)
    ensures
        text::lowered(token) == "xf86audioraisevolume"@ ==> keysyms::key_of_keysym(token) == Some(Key::VolumeUp),
        text::lowered(token) == "xf86audiolowervolume"@ ==> keysyms::key_of_keysym(token) == Some(Key::VolumeDown),
        text::lowered(token) == "xf86audiomute"@ ==> keysyms::key_of_keysym(token) == Some(Key::VolumeMute),
        text::lowered(token) == "xf86audionext"@ ==> keysyms::key_of_keysym(token) == Some(Key::MediaNextTrack),
        text::lowered(token) == "xf86audioprev"@ ==> keysyms::key_of_keysym(token) == Some(Key::MediaPrevTrack),
        text::lowered(token) == "xf86audiostop"@ ==> keysyms::key_of_keysym(token) == Some(Key::MediaStop),
        text::lowered(token) == "xf86audioplay"@ ==> keysyms::key_of_keysym(token) == Some(Key::MediaPlayPause),
        text::lowered(token) == "xf86audiopause"@ ==> keysyms::key_of_keysym(token) == Some(Key::MediaPlayPause),
{
    lemma_keysym_names();
}

/// Nothing else is the name of a keysym.
pub proof fn law_no_other_keysym_names(token: Seq<char>)
    requires
        text::lowered(token) != "minus"@,
        text::lowered(token) != "underscore"@,
        text::lowered(token) != "equal"@,
        text::lowered(token) != "plus"@,
        text::lowered(token) != "comma"@,
        text::lowered(token) != "less"@,
        text::lowered(token) != "period"@,
        text::lowered(token) != "greater"@,
        text::lowered(token) != "slash"@,
        text::lowered(token) != "question"@,
        text::lowered(token) != "semicolon"@,
        text::lowered(token) != "colon"@,
        text::lowered(token) != "apostrophe"@,
        text::lowered(token) != "quotedbl"@,
        text::lowered(token) != "grave"@,
        text::lowered(token) != "asciitilde"@,
        text::lowered(token) != "bracketleft"@,
        text::lowered(token) != "braceleft"@,
        text::lowered(token) != "bracketright"@,
        text::lowered(token) != "braceright"@,
        text::lowered(token) != "backslash"@,
        text::lowered(token) != "bar"@,
        text::lowered(token) != "return"@,
        text::lowered(token) != "prior"@,
        text::lowered(token) != "page_up"@,
        text::lowered(token) != "next"@,
        text::lowered(token) != "page_down"@,
        text::lowered(token) != "print"@,
        text::lowered(token) != "caps_lock"@,
        text::lowered(token) != "num_lock"@,
        text::lowered(token) != "scroll_lock"@,
        text::lowered(token) != "kp_add"@,
        text::lowered(token) != "kp_subtract"@,
        text::lowered(token) != "kp_multiply"@,
        text::lowered(token) != "kp_divide"@,
        text::lowered(token) != "kp_decimal"@,
        text::lowered(token) != "kp_separator"@,
        text::lowered(token) != "kp_0"@,
        text::lowered(token) != "kp_insert"@,
        text::lowered(token) != "kp_1"@,
        text::lowered(token) != "kp_end"@,
        text::lowered(token) != "kp_2"@,
        text::lowered(token) != "kp_down"@,
        text::lowered(token) != "kp_3"@,
        text::lowered(token) != "kp_next"@,
        text::lowered(token) != "kp_4"@,
        text::lowered(token) != "kp_left"@,
        text::lowered(token) != "kp_5"@,
        text::lowered(token) != "kp_begin"@,
        text::lowered(token) != "kp_6"@,
        text::lowered(token) != "kp_right"@,
        text::lowered(token) != "kp_7"@,
        text::lowered(token) != "kp_home"@,
        text::lowered(token) != "kp_8"@,
        text::lowered(token) != "kp_up"@,
        text::lowered(token) != "kp_9"@,
        text::lowered(token) != "kp_prior"@,
        text::lowered(token) != "xf86audioraisevolume"@,
        text::lowered(token) != "xf86audiolowervolume"@,
        text::lowered(token) != "xf86audiomute"@,
        text::lowered(token) != "xf86audionext"@,
        text::lowered(token) != "xf86audioprev"@,
        text::lowered(token) != "xf86audiostop"@,
        text::lowered(token) != "xf86audioplay"@,
        text::lowered(token) != "xf86audiopause"@,
    ensures
        keysyms::key_of_keysym(token) is None,
{
}

/// Modifiers go by several names.
pub proof fn law_modifier_names(token: Seq<char>)
    ensures
        token == "super"@ ==> keysyms::modifier_named(token) == Some(Key::Win),
        token == "win"@ ==> keysyms::modifier_named(token) == Some(Key::Win),
        token == "mod2"@ ==> keysyms::modifier_named(token) == Some(Key::Win),
        token == "superl"@ ==> keysyms::modifier_named(token) == Some(Key::LWin),
        token == "lwin"@ ==> keysyms::modifier_named(token) == Some(Key::LWin),
        token == "superr"@ ==> keysyms::modifier_named(token) == Some(Key::RWin),
        token == "rwin"@ ==> keysyms::modifier_named(token) == Some(Key::RWin),
        token == "shift"@ ==> keysyms::modifier_named(token) == Some(Key::Shift),
        token == "mod5"@ ==> keysyms::modifier_named(token) == Some(Key::Shift),
        token == "shiftl"@ ==> keysyms::modifier_named(token) == Some(Key::LShift),
        token == "shiftr"@ ==> keysyms::modifier_named(token) == Some(Key::RShift),
        token == "ctrl"@ ==> keysyms::modifier_named(token) == Some(Key::Ctrl),
        token == "control"@ ==> keysyms::modifier_named(token) == Some(Key::Ctrl),
        token == "mod4"@ ==> keysyms::modifier_named(token) == Some(Key::Ctrl),
        token == "ctrll"@ ==> keysyms::modifier_named(token) == Some(Key::LCtrl),
        token == "lctrl"@ ==> keysyms::modifier_named(token) == Some(Key::LCtrl),
        token == "ctrlr"@ ==> keysyms::modifier_named(token) == Some(Key::RCtrl),
        token == "rctrl"@ ==> keysyms::modifier_named(token) == Some(Key::RCtrl),
        token == "alt"@ ==> keysyms::modifier_named(token) == Some(Key::Alt),
        token == "mod1"@ ==> keysyms::modifier_named(token) == Some(Key::Alt),
        token == "altl"@ ==> keysyms::modifier_named(token) == Some(Key::LAlt),
        token == "lalt"@ ==> keysyms::modifier_named(token) == Some(Key::LAlt),
        token == "altr"@ ==> keysyms::modifier_named(token) == Some(Key::RAlt),
        token == "ralt"@ ==> keysyms::modifier_named(token) == Some(Key::RAlt),
{
    lemma_modifier_names();
}

/// Nothing else is the name of a modifier.
pub proof fn law_no_other_modifier_names(token: Seq<char>)
    requires
        token != "super"@,
        token != "win"@,
        token != "mod2"@,
        token != "superl"@,
        token != "lwin"@,
        token != "superr"@,
        token != "rwin"@,
        token != "shift"@,
        token != "mod5"@,
        token != "shiftl"@,
        token != "shiftr"@,
        token != "ctrl"@,
        token != "control"@,
        token != "mod4"@,
        token != "ctrll"@,
        token != "lctrl"@,
        token != "ctrlr"@,
        token != "rctrl"@,
        token != "alt"@,
        token != "mod1"@,
        token != "altl"@,
        token != "lalt"@,
        token != "altr"@,
        token != "ralt"@,
    ensures
        keysyms::modifier_named(token) is None,
{
}

/// Characters that are typed without any modifiers stand for their keys, and
/// no other characters do.
pub proof fn law_typed_characters(c: char)
    ensures
        c == '-' ==> keys::key_typing(c) == Some(Key::OemMinus),
        c == '=' ==> keys::key_typing(c) == Some(Key::OemPlus),
        c == ',' ==> keys::key_typing(c) == Some(Key::OemComma),
        c == '.' ==> keys::key_typing(c) == Some(Key::OemPeriod),
        c == '/' ==> keys::key_typing(c) == Some(Key::OemQuestion),
        c == ';' ==> keys::key_typing(c) == Some(Key::OemSemicolon),
        c == '\'' ==> keys::key_typing(c) == Some(Key::OemQuotes),
        c == '`' ==> keys::key_typing(c) == Some(Key::OemTilde),
        c == '[' ==> keys::key_typing(c) == Some(Key::OemOpenBrackets),
        c == ']' ==> keys::key_typing(c) == Some(Key::OemCloseBrackets),
        c == '\\' ==> keys::key_typing(c) == Some(Key::OemPipe),
        keys::key_typing(c) is Some ==> c == '-' || c == '=' || c == ',' || c == '.' || c == '/' || c == ';' || c == '\'' || c == '`' || c == '[' || c == ']' || c == '\\',
{
}

/// A trigger is looked up amongst the keysyms, then amongst the other names of
/// keys, and then as a single character that is typed. Buttons of the mouse,
/// with or without underscores in their names, are refused.
pub proof fn law_triggers(token: Seq<char>)
    ensures
        ({
            let plain = text::lowered(token).filter(|c: char| c != '_');
            let is_button = plain.len() >= 5 && plain.take(5) == "mouse"@;
            let keysym = keysyms::key_of_keysym(token);
            let named = keys::key_named(token);
            let r = dispatchers::trigger_key_of(token);
            &&& is_button ==> r is Err
            &&& !is_button && keysym is Some ==> r == Ok::<Key, Seq<char>>(keysym->0)
            &&& !is_button && keysym is None && named is Some ==> r == Ok::<Key, Seq<char>>(
                named->0,
            )
            &&& !is_button && keysym is None && named is None && token.len() == 1
                && keys::key_typing(token[0]) is Some ==> r == Ok::<Key, Seq<char>>(
                keys::key_typing(token[0])->0,
            )
            &&& keysym is None && named is None && token.len() != 1 ==> r is Err
        }),
{
    let plain = text::lowered(token).filter(|c: char| c != '_');
    reveal_strlit("mouse");
    assert(plain == dispatchers::without_underscores(text::lowered(token)));
    if plain.len() >= 5 {
        assert(plain.subrange(0, 5) =~= plain.take(5));
    }
    if dispatchers::is_mouse_button(token) {
        assert(plain.take(5) =~= "mouse"@);
    }
}

} // verus!
