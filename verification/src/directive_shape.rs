//! How directives are written, and how they are read.

use vstd::prelude::*;

use crate::app_command::KeybindingModel;
use crate::bind_separators;
use crate::directive_line::{self, DirectiveKind};
use crate::dispatchers;
use crate::hyprland_directives;
use crate::keys::Key;
use crate::keysyms;
use crate::text::{self, Separator};
use crate::text_shape;

verus! {

/// Whether a character may be part of a name: a letter, a digit, a dash, an
/// underscore or a colon.
pub open spec fn is_part_of_name(c: char) -> bool {
    ||| 'a' <= c <= 'z'
    ||| 'A' <= c <= 'Z'
    ||| '0' <= c <= '9'
    ||| c == '-'
    ||| c == '_'
    ||| c == ':'
}

/// Whether a text can be the name of a directive. It starts with a letter, and
/// does not end in a colon.
pub open spec fn is_name(name: Seq<char>) -> bool {
    &&& name.len() > 0
    &&& 'a' <= name[0] <= 'z' || 'A' <= name[0] <= 'Z'
    &&& name.last() != ':'
    &&& forall|i: int| 0 <= i < name.len() ==> is_part_of_name(#[trigger] name[i])
}

/// What is before the first equals sign of a line is the name of a directive
/// if it can be one, and what is after it is the value. White space around
/// either of them does not matter, nor does a comment. Without a value, there
/// is no directive.
pub proof fn law_directive_is_read(
    indent: Seq<char>,
    name: Seq<char>,
    gap: Seq<char>,
    rest: Seq<char>,
)
    requires
        text_shape::is_blank(indent),
        text_shape::is_blank(gap),
        name.len() > 0,
        !name.contains('='),
        !text::spec_is_whitespace(name[0]),
        !text::spec_is_whitespace(name.last()),
    ensures
        ({
            let value = directive_line::without_comment(text::trimmed(rest));
            directive_line::directive_on(indent + name + gap + seq!['='] + rest) == if is_name(name)
                && value.len() > 0 {
                Some((name, value))
            } else {
                None
            }
        }),
{
    let content = name + gap + seq!['='] + rest;
    let line = indent + name + gap + seq!['='] + rest;
    assert(line =~= indent + content);
    assert(content[0] == name[0]);
    text_shape::law_start_is_trimmed(indent, content);
    let index = (name.len() + gap.len()) as int;
    assert(content[index] == '=');
    content.index_of_first_ensures('=');
    let first = content.index_of_first('=')->0;
    assert(first == index) by {
        assert(content.contains(content[index]));
        if first < index {
            if first < name.len() {
                assert(name[first] == '=');
            } else {
                assert(gap[first - name.len()] == '=');
                assert(text::spec_is_whitespace(gap[first - name.len()]));
            }
        }
    }
    assert(content.take(index) =~= name + gap);
    assert(content.skip(index + 1) =~= rest);
    text_shape::law_end_is_trimmed(name, gap);
    assert(directive_line::is_directive_name(name) == is_name(name)) by {
        if directive_line::is_directive_name(name) {
            assert forall|i: int| 0 <= i < name.len() implies is_part_of_name(#[trigger] name[i]) by {
                assert(directive_line::is_name_char(name[i]));
            }
        }
        if is_name(name) {
            assert forall|i: int| 0 <= i < name.len() implies directive_line::is_name_char(
                #[trigger] name[i],
            ) by {
                assert(is_part_of_name(name[i]));
            }
        }
    }
}

/// A line without an equals sign is no directive, and neither is one with
/// nothing before it.
pub proof fn law_directives_have_an_equals_sign(line: Seq<char>, rest: Seq<char>)
    requires
        !line.contains('='),
    ensures
        directive_line::directive_on(line) is None,
        text_shape::is_blank(line) ==> directive_line::directive_on(line + seq!['='] + rest) is None,
{
    let content = text::trimmed_start(line);
    content.index_of_first_ensures('=');
    lemma_trimmed_has_no_other(line, '=');
    if text_shape::is_blank(line) {
        let other = seq!['='] + rest;
        assert(line + seq!['='] + rest =~= line + other);
        text_shape::law_start_is_trimmed(line, other);
        other.index_of_first_ensures('=');
        assert(other[0] == '=');
        assert(other.contains(other[0]));
        assert(other.take(0) =~= Seq::empty());
    }
}

proof fn lemma_trimmed_has_no_other(line: Seq<char>, c: char)
    requires
        !line.contains(c),
    ensures
        !text::trimmed_start(line).contains(c),
    decreases line.len(),
{
    if line.len() > 0 && text::spec_is_whitespace(line.first()) {
        let rest = line.skip(1);
        assert(!rest.contains(c)) by {
            if rest.contains(c) {
                let i = choose|i: int| 0 <= i < rest.len() && rest[i] == c;
                assert(line[i + 1] == c);
            }
        }
        lemma_trimmed_has_no_other(rest, c);
    }
}

/// Whether a text has neither quotes nor hashes in it.
pub open spec fn is_plain(text: Seq<char>) -> bool {
    !text.contains('\'') && !text.contains('"') && !text.contains('#')
}

/// A plain text that follows closed quotes leaves them closed, and starts no
/// comment.
proof fn lemma_plain_part(value: Seq<char>, i: int, j: int)
    requires
        0 <= i <= j <= value.len(),
        directive_line::open_quotes(value, i) == (false, false),
        is_plain(value.subrange(i, j)),
    ensures
        directive_line::open_quotes(value, j) == (false, false),
        directive_line::comment_start(value, i) == directive_line::comment_start(value, j),
    decreases j - i,
{
    if i < j {
        let part = value.subrange(i, j);
        assert(part[0] == value[i]);
        assert(part.contains(part[0]));
        assert(directive_line::open_quotes(value, i + 1) == (false, false));
        assert(is_plain(value.subrange(i + 1, j))) by {
            let fewer = value.subrange(i + 1, j);
            assert forall|c: char| fewer.contains(c) implies part.contains(c) by {
                let k = choose|k: int| 0 <= k < fewer.len() && fewer[k] == c;
                assert(part[k + 1] == c);
            }
        }
        lemma_plain_part(value, i + 1, j);
    }
}

/// Within quotes, nothing but the quote itself matters.
proof fn lemma_quoted_part(value: Seq<char>, quote: char, i: int, j: int)
    requires
        0 <= i <= j <= value.len(),
        quote == '\'' || quote == '"',
        directive_line::open_quotes(value, i) == (quote == '\'', quote == '"'),
        !value.subrange(i, j).contains(quote),
    ensures
        directive_line::open_quotes(value, j) == (quote == '\'', quote == '"'),
        directive_line::comment_start(value, i) == directive_line::comment_start(value, j),
    decreases j - i,
{
    if i < j {
        let part = value.subrange(i, j);
        assert(part[0] == value[i]);
        assert(part.contains(part[0]));
        assert(!value.subrange(i + 1, j).contains(quote)) by {
            let fewer = value.subrange(i + 1, j);
            if fewer.contains(quote) {
                let k = choose|k: int| 0 <= k < fewer.len() && fewer[k] == quote;
                assert(part[k + 1] == quote);
            }
        }
        lemma_quoted_part(value, quote, i + 1, j);
    }
}

/// Whether every quote in a text is closed, and every hash is within quotes.
pub open spec fn is_closed(text: Seq<char>) -> bool {
    &&& directive_line::open_quotes(text, text.len() as int) == (false, false)
    &&& directive_line::without_comment(text) == text
    &&& directive_line::comment_start(text, 0) == text.len()
}

/// Quotes and comments depend on what is before them alone.
proof fn lemma_same_start(one: Seq<char>, other: Seq<char>, n: int, i: int)
    requires
        0 <= i <= n <= one.len(),
        n <= other.len(),
        forall|k: int| 0 <= k < n ==> one[k] == other[k],
    ensures
        directive_line::open_quotes(one, i) == directive_line::open_quotes(other, i),
    decreases i,
{
    if i > 0 {
        lemma_same_start(one, other, n, i - 1);
    }
}

/// Behind a closed text, comments are looked for as if they were alone.
proof fn lemma_after_closed(closed: Seq<char>, rest: Seq<char>, i: int)
    requires
        is_closed(closed),
        0 <= i <= closed.len(),
        directive_line::comment_start(closed, i) == closed.len(),
    ensures
        ({
            let all = closed + rest;
            &&& directive_line::open_quotes(all, closed.len() as int) == (false, false)
            &&& directive_line::comment_start(all, i) == directive_line::comment_start(
                all,
                closed.len() as int,
            )
        }),
    decreases closed.len() - i,
{
    let all = closed + rest;
    let n = closed.len() as int;
    lemma_same_start(closed, all, n, n);
    if i < n {
        lemma_same_start(closed, all, n, i);
        assert(all[i] == closed[i]);
        assert(!directive_line::starts_comment(closed, i));
        lemma_after_closed(closed, rest, i + 1);
    }
}

/// A text without quotes and hashes is closed, and a closed text stays so when
/// such a text follows it, or one in quotes that contains anything but the
/// quote itself.
pub proof fn law_closed_texts(closed: Seq<char>, plain: Seq<char>, quote: char, inner: Seq<char>)
    requires
        is_closed(closed),
        is_plain(plain),
        quote == '\'' || quote == '"',
        !inner.contains(quote),
    ensures
        is_closed(Seq::empty()),
        is_closed(closed + plain),
        is_closed(closed + (seq![quote] + inner + seq![quote])),
{
    let n = closed.len() as int;
    let empty = Seq::<char>::empty();
    assert(directive_line::open_quotes(empty, 0) == (false, false));
    let one = closed + plain;
    lemma_after_closed(closed, plain, 0);
    assert(one.subrange(n, one.len() as int) =~= plain);
    lemma_plain_part(one, n, one.len() as int);
    let quoted = seq![quote] + inner + seq![quote];
    let other = closed + quoted;
    let m = n + 1 + inner.len();
    lemma_after_closed(closed, quoted, 0);
    assert(other[n] == quote && other[m] == quote);
    assert(other.subrange(n + 1, m) =~= inner);
    lemma_quoted_part(other, quote, n + 1, m);
    assert(directive_line::comment_start(other, n) == directive_line::comment_start(
        other,
        n + 1,
    ));
    assert(directive_line::comment_start(other, m) == directive_line::comment_start(
        other,
        m + 1,
    ));
    assert(other.len() == m + 1);
}

/// A closed value stays as it is. A hash behind it, and all that follows the
/// hash, are dropped, along with the white space before it. A quote behind it
/// that is not closed hides all that follows it.
pub proof fn law_comment_is_dropped(
    closed: Seq<char>,
    comment: Seq<char>,
    quote: char,
    inner: Seq<char>,
)
    requires
        is_closed(closed),
        quote == '\'' || quote == '"',
        !inner.contains(quote),
    ensures
        directive_line::without_comment(closed) == closed,
        directive_line::without_comment(closed + (seq!['#'] + comment)) == text::trimmed_end(
            closed,
        ),
        directive_line::without_comment(closed + (seq![quote] + inner)) == closed + (seq![quote]
            + inner),
{
    let n = closed.len() as int;
    let all = closed + (seq!['#'] + comment);
    lemma_after_closed(closed, seq!['#'] + comment, 0);
    assert(all[n] == '#');
    assert(directive_line::starts_comment(all, n));
    assert(directive_line::comment_start(all, 0) == n);
    assert(all.take(n) =~= closed);
    let other = closed + (seq![quote] + inner);
    let end = other.len() as int;
    lemma_after_closed(closed, seq![quote] + inner, 0);
    assert(other[n] == quote);
    assert(other.subrange(n + 1, end) =~= inner);
    lemma_quoted_part(other, quote, n + 1, end);
    assert(directive_line::comment_start(other, n) == directive_line::comment_start(
        other,
        n + 1,
    ));
}

/// The name of a directive tells what it is for. Names that start with `bind`
/// are binds, apart from `bindings`.
pub proof fn law_names_of_directives(name: Seq<char>)
    ensures
        ({
            let lower = text::lowered(name);
            let kind = directive_line::kind_of(name);
            let is_bind = lower.len() >= 4 && lower.take(4) == "bind"@ && lower != "bindings"@;
            &&& kind == DirectiveKind::Bind <==> is_bind
            &&& kind == DirectiveKind::ExecOnce <==> lower == "exec-once"@ || lower
                == "execr-once"@
            &&& kind == DirectiveKind::ExecShutdown <==> lower == "exec-shutdown"@ || lower
                == "execr-shutdown"@
            &&& kind == DirectiveKind::Submap <==> lower == "submap"@
        }),
{
    let lower = text::lowered(name);
    reveal_strlit("bind");
    reveal_strlit("exec-once");
    reveal_strlit("execr-once");
    reveal_strlit("exec-shutdown");
    reveal_strlit("execr-shutdown");
    reveal_strlit("submap");
    assert("exec-once"@[0] == 'e' && "execr-once"@[0] == 'e' && "exec-shutdown"@[0] == 'e'
        && "execr-shutdown"@[0] == 'e' && "submap"@[0] == 's' && "bind"@[0] == 'b');
    assert("exec-once"@.len() == 9 && "execr-once"@.len() == 10 && "exec-shutdown"@.len() == 13
        && "execr-shutdown"@.len() == 14);
    if lower.len() >= 4 {
        assert(lower.subrange(0, 4) =~= lower.take(4));
        assert(lower.take(4)[0] == lower[0]);
    }
    if text::spec_starts_with(lower, "bind"@) {
        assert(lower.take(4) =~= "bind"@);
        assert(lower[0] == 'b');
    }
}

/// The segments of a bind that starts with a segment.
proof fn lemma_first_segment(first: Seq<char>, rest: Seq<char>)
    requires
        !first.contains(','),
    ensures
        hyprland_directives::segments_of(first + seq![','] + rest) == seq![text::trimmed(first)]
            + hyprland_directives::segments_of(rest),
        hyprland_directives::segments_of(first) == seq![text::trimmed(first)],
{
    let f = |segment: Seq<char>| text::trimmed(segment);
    assert forall|i: int| 0 <= i < first.len() implies !Separator::Comma.spec_is(
        #[trigger] first[i],
    ) by {
        assert(first.contains(first[i]));
    }
    text_shape::law_whole_text_is_one_piece(first, Separator::Comma);
    text_shape::law_separator_divides(first, ',', rest, Separator::Comma);
    assert(hyprland_directives::segments_of(first) =~= seq![text::trimmed(first)]);
    assert(hyprland_directives::segments_of(first + seq![','] + rest) =~= seq![text::trimmed(first)]
        + hyprland_directives::segments_of(rest));
}

/// A bind without modifiers consists of its key, and then the dispatcher with
/// its arguments. All of these are read, and nothing else.
pub proof fn law_bind_is_read(key: Seq<char>, words: Seq<char>, trigger: Key)
    requires
        !key.contains(','),
        !words.contains(','),
        !hyprland_directives::is_modifier_segment(text::trimmed(key)),
        dispatchers::trigger_key_of(text::trimmed(key)) == Ok::<Key, Seq<char>>(trigger),
    ensures
        ({
            let list = text::words(words);
            let r = hyprland_directives::bind_of(key + seq![','] + words);
            &&& list.len() == 0 ==> r is Err
            &&& list.len() > 0 ==> match dispatchers::dispatched(list[0], list.skip(1)) {
                Ok(command) => r == Ok::<KeybindingModel, Seq<char>>(
                    KeybindingModel { bindings: seq![seq![trigger]], commands: seq![command] },
                ),
                Err(_) => r is Err,
            }
        }),
{
    let value = key + seq![','] + words;
    lemma_first_segment(key, words);
    lemma_first_segment(words, words);
    let segments = hyprland_directives::segments_of(value);
    assert(segments =~= seq![text::trimmed(key), text::trimmed(words)]);
    assert(segments[0] == text::trimmed(key));
    assert(hyprland_directives::key_index(segments, 0) == 0);
    assert(hyprland_directives::leading_modifiers(segments, 0) =~= Seq::empty());
    text::lemma_tokens_trimmed(words, Separator::Whitespace);
    assert(hyprland_directives::words_from(segments, 2) =~= Seq::empty());
    assert(hyprland_directives::words_from(segments, 1) =~= text::words(words));
    assert(Seq::<Key>::empty().push(trigger) =~= seq![trigger]);
}

/// What is no key cannot be bound.
pub proof fn law_bind_takes_a_key(key: Seq<char>, rest: Seq<char>)
    requires
        !key.contains(','),
        !hyprland_directives::is_modifier_segment(text::trimmed(key)),
        dispatchers::trigger_key_of(text::trimmed(key)) is Err,
    ensures
        hyprland_directives::bind_of(key + seq![','] + rest) is Err,
        hyprland_directives::bind_of(key) is Err,
{
    lemma_first_segment(key, rest);
    let segments = hyprland_directives::segments_of(key + seq![','] + rest);
    assert(segments[0] == text::trimmed(key));
    assert(hyprland_directives::key_index(segments, 0) == 0);
    let one = hyprland_directives::segments_of(key);
    assert(one[0] == text::trimmed(key));
    assert(hyprland_directives::key_index(one, 0) == 0);
}

/// A modifier in front of a bind is pressed along with what follows it, and
/// changes nothing else. A bind has five modifiers at most.
pub proof fn law_modifier_is_added(modifier: Seq<char>, value: Seq<char>, key: Key)
    requires
        modifier.len() > 0,
        !modifier.contains(','),
        text_shape::is_whole(modifier, Separator::WhitespaceOrUnderscore),
        keysyms::modifier_named(text::lowered(modifier)) == Some(key),
    ensures
        ({
            let r = hyprland_directives::bind_of(modifier + seq![','] + value);
            match hyprland_directives::bind_of(value) {
                Ok(bind) => if bind.bindings[0].len() <= 5 {
                    r == Ok::<KeybindingModel, Seq<char>>(
                        KeybindingModel {
                            bindings: seq![seq![key] + bind.bindings[0]],
                            commands: bind.commands,
                        },
                    )
                } else {
                    r is Err
                },
                Err(_) => r is Err,
            }
        }),
{
    let all = modifier + seq![','] + value;
    let rest = hyprland_directives::segments_of(value);
    lemma_first_segment(modifier, value);
    let empty = Seq::<char>::empty();
    assert(!text::spec_is_whitespace(modifier[0])
        && !text::spec_is_whitespace(modifier[modifier.len() - 1])) by {
        assert(!Separator::WhitespaceOrUnderscore.spec_is(modifier[0]));
        assert(!Separator::WhitespaceOrUnderscore.spec_is(modifier[modifier.len() - 1]));
    }
    text_shape::law_both_sides_are_trimmed(empty, modifier, empty);
    assert(empty + modifier + empty =~= modifier);
    text_shape::law_whole_text_is_one_piece(modifier, Separator::WhitespaceOrUnderscore);
    let head = seq![modifier];
    assert(hyprland_directives::modifier_tokens(modifier) == seq![modifier]);
    assert(hyprland_directives::is_modifier_segment(modifier));
    assert(hyprland_directives::segment_modifiers(modifier) =~= seq![key]);
    assert(bind_separators::are_modifiers(head));
    bind_separators::lemma_after_modifiers(head, rest);
    let k = hyprland_directives::key_index(rest, 0);
    let segments = hyprland_directives::segments_of(all);
    assert(segments == head + rest);
    let modifiers = hyprland_directives::leading_modifiers(rest, k);
    assert(hyprland_directives::leading_modifiers(head, 0) =~= Seq::empty());
    assert(hyprland_directives::leading_modifiers(head, 1) =~= seq![key]);
    assert(hyprland_directives::leading_modifiers(segments, 1 + k) == seq![key] + modifiers);
    assert(hyprland_directives::words_from(segments, 1 + k + 1)
        == hyprland_directives::words_from(rest, k + 1));
    if k < rest.len() {
        assert(segments[1 + k] == rest[k]);
        if let Ok(trigger) = dispatchers::trigger_key_of(rest[k]) {
            assert((seq![key] + modifiers).push(trigger) =~= seq![key] + modifiers.push(trigger));
        }
    }
}

/// A bind may start with a comma: no modifiers are none.
pub proof fn law_no_modifiers_are_none(blank: Seq<char>, value: Seq<char>)
    requires
        text_shape::is_blank(blank),
    ensures
        hyprland_directives::bind_of(value) is Ok ==> hyprland_directives::bind_of(
            blank + seq![','] + value,
        ) == hyprland_directives::bind_of(value),
        hyprland_directives::bind_of(value) is Err ==> hyprland_directives::bind_of(
            blank + seq![','] + value,
        ) is Err,
{
    let empty = Seq::<char>::empty();
    let rest = hyprland_directives::segments_of(value);
    assert(!blank.contains(',')) by {
        if blank.contains(',') {
            let i = choose|i: int| 0 <= i < blank.len() && blank[i] == ',';
            assert(text::spec_is_whitespace(blank[i]));
        }
    }
    lemma_first_segment(blank, value);
    text_shape::law_both_sides_are_trimmed(blank, empty, empty);
    assert(blank + empty + empty =~= blank);
    text_shape::law_whole_text_is_one_piece(empty, Separator::WhitespaceOrUnderscore);
    let head = seq![empty];
    assert(hyprland_directives::modifier_tokens(empty) == Seq::<Seq<char>>::empty());
    assert(hyprland_directives::segment_modifiers(empty) =~= Seq::empty());
    assert(bind_separators::are_modifiers(head));
    bind_separators::lemma_after_modifiers(head, rest);
    let k = hyprland_directives::key_index(rest, 0);
    let segments = hyprland_directives::segments_of(blank + seq![','] + value);
    let modifiers = hyprland_directives::leading_modifiers(rest, k);
    assert(segments == head + rest);
    assert(hyprland_directives::leading_modifiers(head, 0) =~= Seq::empty());
    assert(hyprland_directives::leading_modifiers(head, 1) =~= Seq::empty());
    assert(Seq::<Key>::empty() + modifiers =~= modifiers);
    assert(hyprland_directives::leading_modifiers(segments, 1 + k) == modifiers);
    assert(hyprland_directives::words_from(segments, 1 + k + 1)
        == hyprland_directives::words_from(rest, k + 1));
    if k < rest.len() {
        assert(segments[1 + k] == rest[k]);
    }
}

} // verus!
