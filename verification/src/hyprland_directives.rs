//! Directives in the style of Hyprland amidst a regular config.

use vstd::prelude::*;

use crate::app_command::{CommandModel, InvokeCommand, KeybindingConfig, KeybindingModel};
use crate::directive_line::{self, classify_directive, parse_directive_line, DirectiveKind};
use crate::dispatchers::{self, parse_trigger_key, strings_of, translate_dispatcher};
use crate::keys::{self, Key, Keybinding};
use crate::keysyms::{self, parse_modifier_token};
use crate::text::{self, is_text, Separator};

verus! {

/// Directives that were found in a config.
#[derive(Debug, PartialEq)]
pub struct HyprlandDirectives {
    /// Keybindings that `bind = ...` lines declare.
    pub keybindings: Vec<KeybindingConfig>,
    /// Commands that `exec-once = ...` lines declare.
    pub startup_commands: Vec<InvokeCommand>,
    /// Commands that `exec-shutdown = ...` lines declare.
    pub shutdown_commands: Vec<InvokeCommand>,
}

/// Most modifiers that a bind may have.
pub const MAX_MODIFIERS_PER_BIND: usize = 5;

/// The parts of a bind between commas.
pub open spec fn segments_of(value: Seq<char>) -> Seq<Seq<char>> {
    text::pieces(value, Separator::Comma).map_values(|segment: Seq<char>| text::trimmed(segment))
}

/// The tokens of a segment that may be modifiers.
pub open spec fn modifier_tokens(segment: Seq<char>) -> Seq<Seq<char>> {
    text::tokens(segment, Separator::WhitespaceOrUnderscore)
}

/// Whether a segment consists of modifiers alone. An empty one does.
pub open spec fn is_modifier_segment(segment: Seq<char>) -> bool {
    forall|i: int|
        0 <= i < modifier_tokens(segment).len() ==> keysyms::modifier_named(
            text::lowered(#[trigger] modifier_tokens(segment)[i]),
        ) is Some
}

/// The modifiers of a segment.
pub open spec fn segment_modifiers(segment: Seq<char>) -> Seq<Key> {
    dispatchers::modifiers_of(modifier_tokens(segment), modifier_tokens(segment).len() as int)
}

/// The index of the segment with the key, from index `i` on: the first one
/// that does not consist of modifiers.
pub open spec fn key_index(segments: Seq<Seq<char>>, i: int) -> int
    decreases segments.len() - i,
{
    if i >= segments.len() || !is_modifier_segment(segments[i]) {
        i
    } else {
        key_index(segments, i + 1)
    }
}

/// The modifiers of the first `n` segments.
pub open spec fn leading_modifiers(segments: Seq<Seq<char>>, n: int) -> Seq<Key>
    decreases n,
{
    if n <= 0 {
        Seq::empty()
    } else {
        leading_modifiers(segments, n - 1) + segment_modifiers(segments[n - 1])
    }
}

/// The words of all segments from index `i` on.
pub open spec fn words_from(segments: Seq<Seq<char>>, i: int) -> Seq<Seq<char>>
    decreases segments.len() - i,
{
    if i >= segments.len() {
        Seq::empty()
    } else {
        text::words(segments[i]) + words_from(segments, i + 1)
    }
}

/// The keybinding that the value of a bind stands for, or why there is none.
///
/// The format is `[MODS,] key, dispatcher[, args...]`.
pub open spec fn bind_of(value: Seq<char>) -> Result<KeybindingModel, Seq<char>> {
    let segments = segments_of(value);
    let n = key_index(segments, 0);
    let modifiers = leading_modifiers(segments, n);
    let words = words_from(segments, n + 1);
    if modifiers.len() > MAX_MODIFIERS_PER_BIND {
        Err("Too many modifiers in bind '"@ + value + "'."@)
    } else if n >= segments.len() {
        Err("Missing key in bind '"@ + value + "'."@)
    } else {
        match dispatchers::trigger_key_of(segments[n]) {
            Err(message) => Err(message),
            Ok(key) => if words.len() == 0 {
                Err("Missing dispatcher in bind '"@ + value + "'."@)
            } else {
                match dispatchers::dispatched(words[0], words.skip(1)) {
                    Err(message) => Err(message),
                    Ok(command) => Ok(
                        KeybindingModel {
                            bindings: seq![modifiers.push(key)],
                            commands: seq![command],
                        },
                    ),
                }
            },
        }
    }
}

/// The outcome of the translation of a bind.
pub open spec fn bind_outcome(r: Result<KeybindingConfig, String>) -> Result<
    KeybindingModel,
    Seq<char>,
> {
    match r {
        Ok(binding) => Ok(binding@),
        Err(message) => Err(message@),
    }
}

/// Splits the value of a bind into its segments.
fn split_segments(value: &[char]) -> (r: Vec<Vec<char>>)
    ensures
        text::texts(r@) == segments_of(value@),
{
    let all = text::split(value, Separator::Comma);
    let ghost list = text::pieces(value@, Separator::Comma);
    let mut r: Vec<Vec<char>> = Vec::new();
    let mut i: usize = 0;
    while i < all.len()
        invariant
            i <= all.len(),
            list == text::texts(all@),
            text::texts(r@) == list.take(i as int).map_values(
                |segment: Seq<char>| text::trimmed(segment),
            ),
        decreases all.len() - i,
    {
        let ghost before = text::texts(r@);
        r.push(text::copied(text::trim(all[i].as_slice())));
        i += 1;
        proof {
            assert(text::texts(r@) =~= before.push(text::trimmed(list[i - 1])));
            assert(text::texts(r@) =~= list.take(i as int).map_values(
                |segment: Seq<char>| text::trimmed(segment),
            ));
        }
    }
    assert(list.take(i as int) =~= list);
    r
}

/// Gets the modifiers of a segment, if it consists of modifiers alone.
fn parse_modifier_segment(segment: &[char]) -> (r: Option<Vec<Key>>)
    ensures
        match r {
            Some(modifiers) => is_modifier_segment(segment@) && modifiers@ == segment_modifiers(
                segment@,
            ),
            None => !is_modifier_segment(segment@),
        },
{
    let tokens = text::split_tokens(segment, Separator::WhitespaceOrUnderscore);
    let ghost list = modifier_tokens(segment@);
    let mut modifiers: Vec<Key> = Vec::new();
    let mut i: usize = 0;
    assert(modifiers@ =~= dispatchers::modifiers_of(list, 0));
    while i < tokens.len()
        invariant
            i <= tokens.len(),
            list == text::texts(tokens@),
            list == modifier_tokens(segment@),
            modifiers@ == dispatchers::modifiers_of(list, i as int),
            forall|k: int|
                0 <= k < i ==> keysyms::modifier_named(text::lowered(#[trigger] list[k])) is Some,
        decreases tokens.len() - i,
    {
        let lower = text::to_lower(tokens[i].as_slice());
        assert(list[i as int] == tokens@[i as int]@);
        match parse_modifier_token(lower.as_slice()) {
            Some(modifier) => {
                modifiers.push(modifier);
                assert(modifiers@ =~= dispatchers::modifiers_of(list, i + 1));
            },
            None => {
                assert(keysyms::modifier_named(
                    text::lowered(modifier_tokens(segment@)[i as int]),
                ) is None);
                return None;
            },
        }
        i += 1;
    }
    Some(modifiers)
}

/// Gets the words of all segments from an index on.
fn split_words_from(segments: &Vec<Vec<char>>, from: usize) -> (r: Vec<Vec<char>>)
    requires
        from <= segments.len(),
    ensures
        text::texts(r@) == words_from(text::texts(segments@), from as int),
{
    let ghost list = text::texts(segments@);
    let mut r: Vec<Vec<char>> = Vec::new();
    let mut i: usize = from;
    assert(words_from(list, from as int) =~= text::texts(r@) + words_from(list, from as int));
    while i < segments.len()
        invariant
            from <= i <= segments.len(),
            list == text::texts(segments@),
            words_from(list, from as int) == text::texts(r@) + words_from(list, i as int),
        decreases segments.len() - i,
    {
        let words = text::split_tokens(segments[i].as_slice(), Separator::Whitespace);
        let ghost before = text::texts(r@);
        let ghost new = text::texts(words@);
        assert(list[i as int] == segments@[i as int]@);
        let mut k: usize = 0;
        while k < words.len()
            invariant
                k <= words.len(),
                new == text::texts(words@),
                text::texts(r@) == before + new.take(k as int),
            decreases words.len() - k,
        {
            r.push(text::copied(words[k].as_slice()));
            k += 1;
            assert(text::texts(r@) =~= (before + new.take(k - 1)).push(new[k - 1]));
            assert(text::texts(r@) =~= before + new.take(k as int));
        }
        assert(new.take(k as int) =~= new);
        i += 1;
        assert(before + (new + words_from(list, i as int)) =~= text::texts(r@) + words_from(
            list,
            i as int,
        ));
    }
    assert(words_from(list, i as int) =~= Seq::empty());
    assert(text::texts(r@) + Seq::empty() =~= text::texts(r@));
    r
}

/// Translates the value of a bind into a keybinding.
///
/// The format is `[MODS,] key, dispatcher[, args...]`.
pub fn translate_bind(value: &[char]) -> (r: Result<KeybindingConfig, String>)
    ensures
        bind_outcome(r) == bind_of(value@),
{
    let segments = split_segments(value);
    let ghost list = segments_of(value@);
    let mut modifier_keys: Vec<Key> = Vec::new();
    let mut index: usize = 0;
    // Collect the leading segments that consist of modifiers alone.
    while index < segments.len()
        invariant_except_break
            index <= segments.len(),
            list == text::texts(segments@),
            key_index(list, 0) == key_index(list, index as int),
            modifier_keys@ == leading_modifiers(list, index as int),
        ensures
            index <= segments.len(),
            key_index(list, 0) == index,
            modifier_keys@ == leading_modifiers(list, index as int),
        decreases segments.len() - index,
    {
        assert(list[index as int] == segments@[index as int]@);
        match parse_modifier_segment(segments[index].as_slice()) {
            Some(mut modifiers) => {
                modifier_keys.append(&mut modifiers);
                assert(modifier_keys@ =~= leading_modifiers(list, index + 1));
            },
            None => {
                break;
            },
        }
        index += 1;
    }
    if modifier_keys.len() > MAX_MODIFIERS_PER_BIND {
        return Err(text::quoted("Too many modifiers in bind '", value, "'."));
    }
    if index >= segments.len() {
        return Err(text::quoted("Missing key in bind '", value, "'."));
    }
    assert(list[index as int] == segments@[index as int]@);
    let trigger_key = match parse_trigger_key(segments[index].as_slice()) {
        Ok(key) => key,
        Err(message) => {
            return Err(message);
        },
    };
    let words = split_words_from(&segments, index + 1);
    let ghost all = text::texts(words@);
    if words.len() == 0 {
        return Err(text::quoted("Missing dispatcher in bind '", value, "'."));
    }
    let mut args: Vec<Vec<char>> = Vec::new();
    let mut i: usize = 1;
    while i < words.len()
        invariant
            1 <= i <= words.len(),
            all == text::texts(words@),
            text::texts(args@) == all.subrange(1, i as int),
        decreases words.len() - i,
    {
        let ghost before = text::texts(args@);
        args.push(text::copied(words[i].as_slice()));
        i += 1;
        assert(text::texts(args@) =~= before.push(all[i - 1]));
        assert(text::texts(args@) =~= all.subrange(1, i as int));
    }
    assert(all.subrange(1, i as int) =~= all.skip(1));
    assert(all[0] == words@[0]@);
    let command = match translate_dispatcher(words[0].as_slice(), &args) {
        Ok(command) => command,
        Err(message) => {
            return Err(message);
        },
    };
    modifier_keys.push(trigger_key);
    let binding = match Keybinding::new(modifier_keys) {
        Ok(binding) => binding,
        Err(_) => {
            return Err(text::quoted("Invalid keybinding '", value, "'."));
        },
    };
    let mut bindings: Vec<Keybinding> = Vec::new();
    bindings.push(binding);
    let mut commands: Vec<InvokeCommand> = Vec::new();
    commands.push(command);
    let config = KeybindingConfig { bindings, commands };
    proof {
        assert(config@.bindings =~= seq![binding@]);
        assert(config@.commands =~= seq![command@]);
    }
    Ok(config)
}

/// What is known of a config after some of its lines.
#[verifier::ext_equal]
pub struct Extraction {
    /// The lines that are no directives.
    pub kept: Seq<Seq<char>>,
    pub keybindings: Seq<KeybindingModel>,
    pub startup_commands: Seq<CommandModel>,
    pub shutdown_commands: Seq<CommandModel>,
}

/// The extraction from no lines at all.
pub open spec fn nothing_extracted() -> Extraction {
    Extraction {
        kept: Seq::empty(),
        keybindings: Seq::empty(),
        startup_commands: Seq::empty(),
        shutdown_commands: Seq::empty(),
    }
}

/// Whether a directive binds buttons of the mouse, which is not supported.
pub open spec fn is_mouse_bind(name: Seq<char>) -> bool {
    text::lowered(name) == "bindm"@
}

/// Whether a directive binds buttons of the mouse. It does not lead to a
/// keybinding.
pub fn is_mouse_bind_name(name: &[char]) -> (r: bool)
    ensures
        r == is_mouse_bind(name@),
{
    let lower = text::to_lower(name);
    is_text(lower.as_slice(), "bindm")
}

/// The extraction after one more directive.
pub open spec fn with_directive(e: Extraction, name: Seq<char>, value: Seq<char>) -> Extraction {
    let words = text::words(value);
    let command = CommandModel::ShellExec { hide_window: false, command: words };
    match directive_line::kind_of(name) {
        DirectiveKind::Bind => match bind_of(value) {
            Ok(binding) => if is_mouse_bind(name) {
                e
            } else {
                Extraction { keybindings: e.keybindings.push(binding), ..e }
            },
            Err(_) => e,
        },
        DirectiveKind::ExecOnce => if words.len() == 0 {
            e
        } else {
            Extraction { startup_commands: e.startup_commands.push(command), ..e }
        },
        DirectiveKind::ExecShutdown => if words.len() == 0 {
            e
        } else {
            Extraction { shutdown_commands: e.shutdown_commands.push(command), ..e }
        },
        DirectiveKind::Submap => e,
        DirectiveKind::StrippedUnsupported => e,
    }
}

/// The extraction after one more line.
pub open spec fn with_line(e: Extraction, line: Seq<char>) -> Extraction {
    match directive_line::directive_on(line) {
        None => Extraction { kept: e.kept.push(line), ..e },
        Some((name, value)) => with_directive(e, name, value),
    }
}

/// The extraction from several lines.
pub open spec fn extracted(lines: Seq<Seq<char>>) -> Extraction
    decreases lines.len(),
{
    if lines.len() == 0 {
        nothing_extracted()
    } else {
        with_line(extracted(lines.drop_last()), lines.last())
    }
}

/// Whether a text ends with a line feed.
pub open spec fn ends_line(config: Seq<char>) -> bool {
    config.len() > 0 && config.last() == '\n'
}

/// A config without its directives. It ends with a line feed if the config
/// did.
pub open spec fn stripped(config: Seq<char>) -> Seq<char> {
    let kept = text::joined(extracted(text::lines(config)).kept);
    if ends_line(config) {
        kept.push('\n')
    } else {
        kept
    }
}

/// The lines that are no directives, in their order.
pub open spec fn regular_lines(lines: Seq<Seq<char>>) -> Seq<Seq<char>> {
    lines.filter(|line: Seq<char>| directive_line::directive_on(line) is None)
}

/// Exactly the lines that are no directives are kept, in their order and as
/// they are.
pub proof fn law_regular_lines_are_kept(lines: Seq<Seq<char>>)
    ensures
        extracted(lines).kept == regular_lines(lines),
    decreases lines.len(),
{
    reveal(Seq::filter);
    if lines.len() > 0 {
        law_regular_lines_are_kept(lines.drop_last());
    }
}

/// Whether a line ends in a carriage return.
pub open spec fn ends_in_return(line: Seq<char>) -> bool {
    line.len() > 0 && line.last() == '\r'
}

/// Whether no line of a text is a directive.
pub open spec fn has_no_directives(config: Seq<char>) -> bool {
    forall|i: int|
        0 <= i < text::lines(config).len() ==> directive_line::directive_on(#[trigger] text::lines(config)[i]) is None
}

/// Whether lines are ended by line feeds alone.
pub open spec fn has_plain_line_ends(config: Seq<char>) -> bool {
    let all = text::pieces(config, Separator::LineFeed);
    forall|i: int| 0 <= i < all.len() - 1 ==> !ends_in_return(#[trigger] all[i])
}

/// From lines without directives, nothing is extracted.
proof fn lemma_nothing_to_extract(lines: Seq<Seq<char>>)
    requires
        forall|i: int| 0 <= i < lines.len() ==> directive_line::directive_on(#[trigger] lines[i]) is None,
    ensures
        extracted(lines) == (Extraction { kept: lines, ..nothing_extracted() }),
    decreases lines.len(),
{
    if lines.len() > 0 {
        let init = lines.drop_last();
        assert forall|i: int| 0 <= i < init.len() implies directive_line::directive_on(#[trigger] init[i]) is None by {
            assert(init[i] == lines[i]);
        }
        lemma_nothing_to_extract(init);
        assert(directive_line::directive_on(lines[lines.len() - 1]) is None);
        assert(init.push(lines.last()) =~= lines);
    }
    assert(extracted(lines) =~= (Extraction { kept: lines, ..nothing_extracted() }));
}

/// A config without directives comes back as it is, and no directives come
/// with it. Only carriage returns at the ends of lines would be lost.
pub proof fn law_regular_config_is_untouched(config: Seq<char>)
    requires
        has_no_directives(config),
        has_plain_line_ends(config),
    ensures
        stripped(config) == config,
        extracted(text::lines(config)) == (Extraction {
            kept: text::lines(config),
            ..nothing_extracted()
        }),
{
    let all = text::pieces(config, Separator::LineFeed);
    let ended = all.drop_last().map_values(|line: Seq<char>| text::without_return(line));
    text::lemma_joined_pieces(config);
    text::lemma_pieces_end_lines(config);
    lemma_nothing_to_extract(text::lines(config));
    assert(ended =~= all.drop_last()) by {
        assert forall|i: int| 0 <= i < ended.len() implies ended[i] == all[i] by {
            assert(!ends_in_return(all[i]));
        }
    }
    if all.last().len() == 0 {
        assert(all.last() =~= Seq::empty());
        if all.len() > 1 {
            assert(joined_with_end(all) =~= config);
        } else {
            assert(all.drop_last() =~= Seq::empty());
            assert(config =~= all[0]);
        }
    } else {
        assert(ended.push(all.last()) =~= all);
    }
}

/// Lines of which the last one is ended by a line feed.
spec fn joined_with_end(all: Seq<Seq<char>>) -> Seq<char> {
    text::joined(all.drop_last()).push('\n')
}

/// The pieces of what is kept of a config: the kept lines, and what follows
/// the last line feed.
proof fn lemma_pieces_of_stripped(config: Seq<char>)
    ensures
        ({
            let kept = extracted(text::lines(config)).kept;
            let all = text::pieces(stripped(config), Separator::LineFeed);
            let none = Seq::<char>::empty();
            all == if kept.len() == 0 {
                if ends_line(config) {
                    seq![none, none]
                } else {
                    seq![none]
                }
            } else {
                if ends_line(config) {
                    kept.push(none)
                } else {
                    kept
                }
            }
        }),
{
    let lines = text::lines(config);
    let kept = extracted(lines).kept;
    let remainder = stripped(config);
    let none = Seq::<char>::empty();
    lemma_lines_have_no_line_feeds(config);
    lemma_kept_lines(lines);
    assert forall|i: int| 0 <= i < kept.len() implies !(#[trigger] kept[i]).contains('\n') by {
        assert(lines.contains(kept[i]));
    }
    assert(!none.contains('\n'));
    text::lemma_single_piece(none);
    if kept.len() == 0 {
        if ends_line(config) {
            text::lemma_last_piece(none, none);
            assert(none.push('\n') + none =~= remainder);
            assert(seq![none].push(none) =~= seq![none, none]);
        } else {
            assert(remainder =~= none);
        }
    } else {
        text::lemma_pieces_of_joined(kept);
        if ends_line(config) {
            text::lemma_last_piece(text::joined(kept), none);
            assert(text::joined(kept).push('\n') + none =~= remainder);
        }
    }
}

/// What is kept of a config contains no directives any more.
pub proof fn law_no_directives_remain(config: Seq<char>)
    ensures
        has_no_directives(stripped(config)),
{
    let kept = extracted(text::lines(config)).kept;
    let all = text::pieces(stripped(config), Separator::LineFeed);
    let again = text::lines(stripped(config));
    lemma_pieces_of_stripped(config);
    lemma_kept_lines(text::lines(config));
    directive_line::lemma_blank_line_is_no_directive();
    assert forall|i: int| 0 <= i < again.len() implies directive_line::directive_on(
        #[trigger] again[i],
    ) is None by {
        assert(directive_line::directive_on(all[i]) is None) by {
            if i < kept.len() {
                assert(all[i] == kept[i]);
            } else {
                assert(all[i] =~= Seq::empty());
            }
        }
        if again[i] != all[i] {
            assert(again[i] == text::without_return(all[i]));
            assert(again[i].push('\r') =~= all[i]);
            directive_line::law_trailing_white_space_does_not_matter(again[i], '\r');
        }
    }
}

/// Extracting from what was kept of a config changes nothing.
///
/// Kept lines that still end in a carriage return, and are followed by a line
/// feed, are left out of this: every extraction drops one carriage return.
pub proof fn law_extraction_is_idempotent(config: Seq<char>)
    requires
        ({
            let kept = regular_lines(text::lines(config));
            forall|i: int|
                0 <= i < kept.len() && (i < kept.len() - 1 || ends_line(config))
                    ==> !ends_in_return(#[trigger] kept[i])
        }),
    ensures
        stripped(stripped(config)) == stripped(config),
        extracted(text::lines(stripped(config))) == (Extraction {
            kept: text::lines(stripped(config)),
            ..nothing_extracted()
        }),
{
    let lines = text::lines(config);
    let kept = extracted(lines).kept;
    let remainder = stripped(config);
    let all = text::pieces(remainder, Separator::LineFeed);
    law_regular_lines_are_kept(lines);
    lemma_pieces_of_stripped(config);
    law_no_directives_remain(config);
    assert(has_plain_line_ends(remainder)) by {
        assert forall|i: int| 0 <= i < all.len() - 1 implies !ends_in_return(#[trigger] all[i]) by {
            if i < kept.len() {
                assert(all[i] == kept[i]);
            } else {
                assert(all[i] =~= Seq::empty());
            }
        }
    }
    law_regular_config_is_untouched(remainder);
}

/// No line contains a line feed.
proof fn lemma_lines_have_no_line_feeds(config: Seq<char>)
    ensures
        forall|i: int|
            0 <= i < text::lines(config).len() ==> !(#[trigger] text::lines(config)[i]).contains(
                '\n',
            ),
{
    let all = text::pieces(config, Separator::LineFeed);
    let lines = text::lines(config);
    text::lemma_pieces_end_lines(config);
    assert forall|i: int| 0 <= i < lines.len() implies !(#[trigger] lines[i]).contains('\n') by {
        let piece = all[i];
        assert(!piece.contains('\n'));
        if lines[i].contains('\n') {
            let k = choose|k: int| 0 <= k < lines[i].len() && lines[i][k] == '\n';
            assert(piece[k] == '\n');
        }
    }
}

/// Kept lines are lines, and no directives.
proof fn lemma_kept_lines(lines: Seq<Seq<char>>)
    ensures
        forall|i: int|
            0 <= i < extracted(lines).kept.len() ==> directive_line::directive_on(
                #[trigger] extracted(lines).kept[i],
            ) is None && lines.contains(extracted(lines).kept[i]),
    decreases lines.len(),
{
    if lines.len() > 0 {
        let init = lines.drop_last();
        let before = extracted(init).kept;
        let kept = extracted(lines).kept;
        lemma_kept_lines(init);
        assert forall|i: int| 0 <= i < kept.len() implies directive_line::directive_on(#[trigger] kept[i]) is None
            && lines.contains(kept[i]) by {
            if i < before.len() {
                assert(kept[i] == before[i]);
                let k = choose|k: int| 0 <= k < init.len() && init[k] == before[i];
                assert(lines[k] == kept[i]);
            } else {
                assert(lines[lines.len() - 1] == kept[i]);
            }
        }
    }
}

/// A bind leads to one keybinding with one command. It has a key, and no more
/// modifiers than allowed.
pub proof fn law_binds_are_bounded(value: Seq<char>)
    ensures
        bind_of(value) matches Ok(binding) ==> {
            &&& binding.bindings.len() == 1
            &&& binding.commands.len() == 1
            &&& 1 <= binding.bindings[0].len() <= MAX_MODIFIERS_PER_BIND + 1
        },
{
}

/// Case matters neither for the names of directives nor for those of
/// modifiers and keys: names that differ in nothing but the case of their
/// letters stand for the same. A name in lower case and in upper case is such
/// a name.
pub proof fn law_case_does_not_matter(name: Seq<char>, other: Seq<char>)
    requires
        other == text::lowered(name) || other == text::raised(name) || text::lowered(other)
            == text::lowered(name),
    ensures
        directive_line::kind_of(other) == directive_line::kind_of(name),
        keysyms::modifier_named(text::lowered(other)) == keysyms::modifier_named(
            text::lowered(name),
        ),
        keysyms::key_of_keysym(other) == keysyms::key_of_keysym(name),
        keys::key_named(other) == keys::key_named(name),
{
    text::lemma_lowered_twice(name);
    text::lemma_lowered_raised(name);
}

/// Case does not matter for the names of dispatchers either.
pub proof fn law_case_of_dispatchers_does_not_matter(
    name: Seq<char>,
    other: Seq<char>,
    args: Seq<Seq<char>>,
)
    requires
        text::lowered(other) == text::lowered(name),
    ensures
        dispatchers::dispatched(name, args) is Ok ==> dispatchers::dispatched(other, args)
            == dispatchers::dispatched(name, args),
{
}

/// Directives without an equivalent leave no trace. The binds around a
/// `submap` are extracted as if it were not there.
pub proof fn law_unsupported_directives_are_dropped(
    e: Extraction,
    name: Seq<char>,
    value: Seq<char>,
)
    requires
        directive_line::kind_of(name) == DirectiveKind::Submap || directive_line::kind_of(name)
            == DirectiveKind::StrippedUnsupported,
    ensures
        with_directive(e, name, value) == e,
{
}

/// Buttons of the mouse never lead to a keybinding.
pub proof fn law_mouse_binds_are_dropped(e: Extraction, name: Seq<char>, value: Seq<char>)
    requires
        directive_line::kind_of(name) == DirectiveKind::Bind,
        is_mouse_bind(name) || ({
            let segments = segments_of(value);
            let n = key_index(segments, 0);
            n < segments.len() && dispatchers::is_mouse_button(segments[n])
        }),
    ensures
        with_directive(e, name, value) == e,
{
}

/// The contents of several commands.
pub open spec fn commands_of(commands: Seq<InvokeCommand>) -> Seq<CommandModel> {
    commands.map_values(|command: InvokeCommand| command@)
}

/// The contents of several keybindings.
pub open spec fn keybindings_of(keybindings: Seq<KeybindingConfig>) -> Seq<KeybindingModel> {
    keybindings.map_values(|keybinding: KeybindingConfig| keybinding@)
}

/// Makes the command that a value of an `exec` directive stands for. There is
/// none if it has no words.
fn translate_exec(value: &[char]) -> (r: Option<InvokeCommand>)
    ensures
        match r {
            Some(command) => text::words(value@).len() > 0 && command@ == (
            CommandModel::ShellExec { hide_window: false, command: text::words(value@) }),
            None => text::words(value@).len() == 0,
        },
{
    let command_tokens = text::split_tokens(value, Separator::Whitespace);
    assert(text::words(value@) == text::texts(command_tokens@));
    if command_tokens.len() == 0 {
        None
    } else {
        Some(InvokeCommand::ShellExec { hide_window: false, command: strings_of(&command_tokens) })
    }
}

impl HyprlandDirectives {
    /// The directives of an extraction.
    pub open spec fn matches(&self, e: Extraction) -> bool {
        &&& keybindings_of(self.keybindings@) == e.keybindings
        &&& commands_of(self.startup_commands@) == e.startup_commands
        &&& commands_of(self.shutdown_commands@) == e.shutdown_commands
    }

    /// Takes in one more directive.
    fn translate(&mut self, name: &[char], value: &[char], Ghost(e): Ghost<Extraction>)
        requires
            old(self).matches(e),
        ensures
            final(self).matches(with_directive(e, name@, value@)),
            with_directive(e, name@, value@).kept == e.kept,
    {
        match classify_directive(name) {
            DirectiveKind::Bind => {
                if is_mouse_bind_name(name) {
                    return;
                }
                match translate_bind(value) {
                    Ok(binding) => {
                        let ghost before = keybindings_of(self.keybindings@);
                        self.keybindings.push(binding);
                        assert(keybindings_of(self.keybindings@) =~= before.push(binding@));
                    },
                    Err(_) => {},
                }
            },
            DirectiveKind::ExecOnce => match translate_exec(value) {
                Some(command) => {
                    let ghost before = commands_of(self.startup_commands@);
                    self.startup_commands.push(command);
                    assert(commands_of(self.startup_commands@) =~= before.push(command@));
                },
                None => {},
            },
            DirectiveKind::ExecShutdown => match translate_exec(value) {
                Some(command) => {
                    let ghost before = commands_of(self.shutdown_commands@);
                    self.shutdown_commands.push(command);
                    assert(commands_of(self.shutdown_commands@) =~= before.push(command@));
                },
                None => {},
            },
            DirectiveKind::Submap => {},
            DirectiveKind::StrippedUnsupported => {},
        }
    }
}

/// Scans a config for directives in the style of Hyprland (e.g.
/// `bind = SUPER, Q, killactive` or `exec-once = firefox`).
///
/// Lines with directives are taken out of the config, so that the remainder
/// can be parsed as usual, and the directives are translated as far as there
/// is an equivalent:
/// - `bind` and its variants become keybindings. Buttons of the mouse
///   (`bindm`) are not supported.
/// - `exec-once` and `execr-once` become startup commands.
/// - `exec-shutdown` and `execr-shutdown` become shutdown commands.
///
/// Binds within a `submap` stay global. Other directives are dropped.
///
/// Returns the remainder of the config along with the directives.
pub fn extract_hyprland_directives(config_str: &str) -> (r: (String, HyprlandDirectives))
    ensures
        r.0@ == stripped(config_str@),
        r.1.matches(extracted(text::lines(config_str@))),
{
    let config = text::chars_of(config_str);
    let lines = text::split_lines(config.as_slice());
    let ghost list = text::lines(config_str@);
    let mut stripped_lines: Vec<Vec<char>> = Vec::new();
    let mut directives = HyprlandDirectives {
        keybindings: Vec::new(),
        startup_commands: Vec::new(),
        shutdown_commands: Vec::new(),
    };
    let mut i: usize = 0;
    proof {
        assert(list.take(0) =~= Seq::empty());
        assert(text::texts(stripped_lines@) =~= Seq::empty());
        assert(keybindings_of(directives.keybindings@) =~= Seq::empty());
        assert(commands_of(directives.startup_commands@) =~= Seq::empty());
        assert(commands_of(directives.shutdown_commands@) =~= Seq::empty());
    }
    while i < lines.len()
        invariant
            i <= lines.len(),
            list == text::texts(lines@),
            text::texts(stripped_lines@) == extracted(list.take(i as int)).kept,
            directives.matches(extracted(list.take(i as int))),
        decreases lines.len() - i,
    {
        let ghost e = extracted(list.take(i as int));
        let line = lines[i].as_slice();
        proof {
            assert(list.take(i + 1).drop_last() =~= list.take(i as int));
            assert(list.take(i + 1).last() == line@);
        }
        match parse_directive_line(line) {
            Some((name, value)) => {
                directives.translate(name.as_slice(), value.as_slice(), Ghost(e));
            },
            None => {
                let ghost before = text::texts(stripped_lines@);
                stripped_lines.push(text::copied(line));
                assert(text::texts(stripped_lines@) =~= before.push(line@));
            },
        }
        i += 1;
    }
    assert(list.take(i as int) =~= list);
    let mut remainder = text::join_lines(&stripped_lines);
    // Keep the line feed at the end, if there is one.
    if config.len() > 0 && config[config.len() - 1] == '\n' {
        remainder.push('\n');
    }
    (text::string_of(remainder.as_slice()), directives)
}

/// Directives hold exactly what was extracted, one by one and in that order.
pub proof fn law_directives_hold_what_was_extracted(d: HyprlandDirectives, e: Extraction)
    requires
        d.matches(e),
    ensures
        d.keybindings@.len() == e.keybindings.len(),
        d.startup_commands@.len() == e.startup_commands.len(),
        d.shutdown_commands@.len() == e.shutdown_commands.len(),
        forall|i: int|
            0 <= i < e.keybindings.len() ==> (#[trigger] d.keybindings@[i])@ == e.keybindings[i],
        forall|i: int|
            0 <= i < e.startup_commands.len() ==> (#[trigger] d.startup_commands@[i])@
                == e.startup_commands[i],
        forall|i: int|
            0 <= i < e.shutdown_commands.len() ==> (#[trigger] d.shutdown_commands@[i])@
                == e.shutdown_commands[i],
{
    assert forall|i: int| 0 <= i < e.keybindings.len() implies (#[trigger] d.keybindings@[i])@
        == e.keybindings[i] by {
        assert(keybindings_of(d.keybindings@)[i] == d.keybindings@[i]@);
    }
    assert forall|i: int| 0 <= i < e.startup_commands.len() implies (
    #[trigger] d.startup_commands@[i])@ == e.startup_commands[i] by {
        assert(commands_of(d.startup_commands@)[i] == d.startup_commands@[i]@);
    }
    assert forall|i: int| 0 <= i < e.shutdown_commands.len() implies (
    #[trigger] d.shutdown_commands@[i])@ == e.shutdown_commands[i] by {
        assert(commands_of(d.shutdown_commands@)[i] == d.shutdown_commands@[i]@);
    }
}

/// The outcomes of translations tell a binding or a command from a reason.
pub proof fn law_outcomes_of_translations(
    bind: Result<KeybindingConfig, String>,
    command: Result<InvokeCommand, String>,
)
    ensures
        bind_outcome(bind) is Ok == bind is Ok,
        bind matches Ok(b) ==> bind_outcome(bind) == Ok::<KeybindingModel, Seq<char>>(b@),
        bind matches Err(m) ==> bind_outcome(bind) == Err::<KeybindingModel, Seq<char>>(m@),
        dispatchers::command_outcome(command) is Ok == command is Ok,
        command matches Ok(c) ==> dispatchers::command_outcome(command) == Ok::<
            CommandModel,
            Seq<char>,
        >(c@),
        command matches Err(m) ==> dispatchers::command_outcome(command) == Err::<
            CommandModel,
            Seq<char>,
        >(m@),
{
}

} // verus!
