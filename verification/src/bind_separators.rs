//! Separators in the value of a bind.
//!
//! Modifiers may be divided by white space, underscores and commas, and what
//! follows the key by white space and commas.

use vstd::prelude::*;

use crate::dispatchers;
use crate::hyprland_directives;
use crate::keys::Key;
use crate::keysyms;
use crate::text::{self, Separator};

verus! {

/// Whether a character may stand between two modifiers.
pub open spec fn is_modifier_separator(c: char) -> bool {
    c == ',' || c == '_' || text::spec_is_whitespace(c)
}

/// Whether a character may stand between two words that follow the key.
pub open spec fn is_word_separator(c: char) -> bool {
    c == ',' || text::spec_is_whitespace(c)
}

/// Whether segments consist of modifiers alone.
pub open spec fn are_modifiers(segments: Seq<Seq<char>>) -> bool {
    forall|i: int|
        0 <= i < segments.len() ==> hyprland_directives::is_modifier_segment(
            #[trigger] segments[i],
        )
}

/// Whether a text consists of one or more characters that may stand between
/// two modifiers.
pub open spec fn divides_modifiers(text: Seq<char>) -> bool {
    &&& text.len() > 0
    &&& forall|i: int| 0 <= i < text.len() ==> is_modifier_separator(#[trigger] text[i])
}

/// Whether a text consists of one or more characters that may stand between
/// two words that follow the key.
pub open spec fn divides_words(text: Seq<char>) -> bool {
    &&& text.len() > 0
    &&& forall|i: int| 0 <= i < text.len() ==> is_word_separator(#[trigger] text[i])
}

/// It makes no difference what stands between two of the leading modifiers of
/// a bind: a bind stays the same when spaces, underscores and commas are put in
/// the place of others, where all that stands in front of them and the segment
/// that follows them are modifiers.
pub proof fn law_modifier_separators_can_be_exchanged(
    before: Seq<char>,
    one: Seq<char>,
    other: Seq<char>,
    after: Seq<char>,
)
    requires
        divides_modifiers(one),
        divides_modifiers(other),
        are_modifiers(hyprland_directives::segments_of(before)),
        hyprland_directives::is_modifier_segment(hyprland_directives::segments_of(after)[0]),
    ensures
        hyprland_directives::bind_of(before + one + after) is Ok ==> hyprland_directives::bind_of(
            before + other + after,
        ) == hyprland_directives::bind_of(before + one + after),
{
    lemma_modifier_separators(before, one, after);
    lemma_modifier_separators(before, other, after);
    lemma_same_bind(before + one + after, before + other + after);
}

/// It makes no difference what stands between the words that follow the key
/// of a bind: a bind stays the same when spaces and commas are put in the place
/// of others, anywhere behind the segment with the key.
pub proof fn law_word_separators_can_be_exchanged(
    before: Seq<char>,
    one: Seq<char>,
    other: Seq<char>,
    after: Seq<char>,
)
    requires
        divides_words(one),
        divides_words(other),
        hyprland_directives::key_index(hyprland_directives::segments_of(before), 0) + 1
            < hyprland_directives::segments_of(before).len(),
    ensures
        hyprland_directives::bind_of(before + one + after) is Ok ==> hyprland_directives::bind_of(
            before + other + after,
        ) == hyprland_directives::bind_of(before + one + after),
{
    lemma_word_separators(before, one, after);
    lemma_word_separators(before, other, after);
    lemma_same_bind(before + one + after, before + other + after);
}

/// Whether two lists of segments declare the same modifiers, the same key
/// and the same words.
pub open spec fn say_the_same(one: Seq<Seq<char>>, other: Seq<Seq<char>>) -> bool {
    let n = hyprland_directives::key_index(one, 0);
    let m = hyprland_directives::key_index(other, 0);
    &&& hyprland_directives::leading_modifiers(one, n) == hyprland_directives::leading_modifiers(
        other,
        m,
    )
    &&& (n < one.len()) == (m < other.len())
    &&& n < one.len() ==> one[n] == other[m]
    &&& hyprland_directives::words_from(one, n + 1) == hyprland_directives::words_from(
        other,
        m + 1,
    )
}

/// A bind depends on its modifiers, its key and its words alone.
proof fn lemma_same_bind(one: Seq<char>, other: Seq<char>)
    requires
        exists|common: Seq<Seq<char>>| #[trigger]
            say_the_same(hyprland_directives::segments_of(one), common) && say_the_same(
                hyprland_directives::segments_of(other),
                common,
            ),
    ensures
        hyprland_directives::bind_of(one) is Ok ==> hyprland_directives::bind_of(other)
            == hyprland_directives::bind_of(one),
{
}

/// The segments around a comma, or around another character.
proof fn lemma_segments_around(before: Seq<char>, c: char, after: Seq<char>)
    ensures
        hyprland_directives::segments_of(before).len() > 0,
        hyprland_directives::segments_of(after).len() > 0,
        c == ',' ==> hyprland_directives::segments_of(before.push(c) + after)
            == hyprland_directives::segments_of(before) + hyprland_directives::segments_of(after),
        c != ',' ==> hyprland_directives::segments_of(before.push(c) + after)
            == hyprland_directives::segments_of(before).drop_last().push(
            text::trimmed(
                text::pieces(before, Separator::Comma).last().push(c) + text::pieces(
                    after,
                    Separator::Comma,
                ).first(),
            ),
        ) + hyprland_directives::segments_of(after).drop_first(),
{
    let one = text::pieces(before, Separator::Comma);
    let other = text::pieces(after, Separator::Comma);
    let value = before.push(c) + after;
    text::lemma_pieces_in_a_row(before, after, Separator::Comma);
    if c == ',' {
        text::lemma_pieces_around(before, c, after, Separator::Comma);
        assert(hyprland_directives::segments_of(value) =~= hyprland_directives::segments_of(before)
            + hyprland_directives::segments_of(after));
    } else {
        text::lemma_pieces_in_a_row(before.push(c), after, Separator::Comma);
        assert(before.push(c).drop_last() =~= before);
        assert(text::pieces(before.push(c), Separator::Comma) =~= one.drop_last().push(
            one.last().push(c),
        ));
        assert(text::pieces(before.push(c), Separator::Comma).drop_last() =~= one.drop_last());
        assert(text::pieces(value, Separator::Comma) =~= one.drop_last().push(
            one.last().push(c) + other.first(),
        ) + other.drop_first());
        assert(hyprland_directives::segments_of(value) =~= hyprland_directives::segments_of(
            before,
        ).drop_last().push(text::trimmed(one.last().push(c) + other.first()))
            + hyprland_directives::segments_of(after).drop_first());
    }
}

/// A separator between modifiers divides them as a comma does.
proof fn lemma_modifier_separator(before: Seq<char>, c: char, after: Seq<char>)
    requires
        is_modifier_separator(c),
        are_modifiers(hyprland_directives::segments_of(before)),
        hyprland_directives::is_modifier_segment(hyprland_directives::segments_of(after)[0]),
    ensures
        say_the_same(
            hyprland_directives::segments_of(before.push(c) + after),
            hyprland_directives::segments_of(before) + hyprland_directives::segments_of(after),
        ),
{
    let head = hyprland_directives::segments_of(before);
    let tail = hyprland_directives::segments_of(after);
    lemma_segments_around(before, c, after);
    if c != ',' {
        let one = text::pieces(before, Separator::Comma).last();
        let other = text::pieces(after, Separator::Comma).first();
        let joint = text::trimmed(one.push(c) + other);
        assert(text::trimmed(one) == head.last());
        assert(text::trimmed(other) == tail[0]);
        let separator = Separator::WhitespaceOrUnderscore;
        text::lemma_tokens_trimmed(one.push(c) + other, separator);
        text::lemma_tokens_around(one, c, other, separator);
        text::lemma_tokens_trimmed(one, separator);
        text::lemma_tokens_trimmed(other, separator);
        lemma_modifiers_in_a_row(joint, head.last(), tail[0]);
        let init = head.drop_last();
        let rest = tail.drop_first();
        let longer = head.push(tail[0]);
        let shorter = init.push(joint);
        assert(head + tail =~= longer + rest);
        assert(are_modifiers(longer)) by {
            assert forall|i: int| 0 <= i < longer.len() implies
                hyprland_directives::is_modifier_segment(#[trigger] longer[i]) by {
                if i < head.len() {
                    assert(longer[i] == head[i]);
                }
            }
        }
        assert(are_modifiers(shorter)) by {
            assert forall|i: int| 0 <= i < shorter.len() implies
                hyprland_directives::is_modifier_segment(#[trigger] shorter[i]) by {
                if i < init.len() {
                    assert(shorter[i] == head[i]);
                }
            }
        }
        lemma_after_modifiers(longer, rest);
        lemma_after_modifiers(shorter, rest);
        lemma_leading_prefix(longer, head, head.len() as int);
        lemma_leading_prefix(head, init, init.len() as int);
        lemma_leading_prefix(shorter, init, init.len() as int);
        let n = longer.len() as int;
        let m = shorter.len() as int;
        assert(hyprland_directives::leading_modifiers(longer, n)
            =~= hyprland_directives::leading_modifiers(shorter, m));
    }
}

/// The key comes right after segments of modifiers.
proof fn lemma_all_modifiers(segments: Seq<Seq<char>>, i: int)
    requires
        0 <= i <= segments.len(),
    ensures
        hyprland_directives::key_index(segments, i) == segments.len() <==> are_modifiers(
            segments.skip(i),
        ),
    decreases segments.len() - i,
{
    if i < segments.len() {
        lemma_key_index_bounds(segments, i + 1);
        lemma_all_modifiers(segments, i + 1);
        let rest = segments.skip(i);
        let fewer = segments.skip(i + 1);
        assert(rest[0] == segments[i]);
        assert forall|k: int| 0 <= k < fewer.len() implies fewer[k] == rest[k + 1] by {
        }
        if are_modifiers(rest) {
            assert forall|k: int| 0 <= k < fewer.len() implies
                hyprland_directives::is_modifier_segment(#[trigger] fewer[k]) by {
                assert(fewer[k] == rest[k + 1]);
            }
        }
        if are_modifiers(fewer) && hyprland_directives::is_modifier_segment(segments[i]) {
            assert forall|k: int| 0 <= k < rest.len() implies
                hyprland_directives::is_modifier_segment(#[trigger] rest[k]) by {
                if k > 0 {
                    assert(rest[k] == fewer[k - 1]);
                }
            }
        }
    }
}

/// A separator behind modifiers adds nothing to them.
proof fn lemma_modifiers_then(before: Seq<char>, c: char)
    requires
        is_modifier_separator(c),
        are_modifiers(hyprland_directives::segments_of(before)),
    ensures
        ({
            let head = hyprland_directives::segments_of(before);
            let longer = hyprland_directives::segments_of(before.push(c));
            &&& are_modifiers(longer)
            &&& hyprland_directives::leading_modifiers(longer, longer.len() as int)
                == hyprland_directives::leading_modifiers(head, head.len() as int)
        }),
{
    let head = hyprland_directives::segments_of(before);
    let longer = hyprland_directives::segments_of(before.push(c));
    let empty = Seq::<char>::empty();
    lemma_no_segment();
    lemma_modifier_separator(before, c, empty);
    assert(before.push(c) + empty =~= before.push(c));
    let all = head.push(empty);
    assert(head + hyprland_directives::segments_of(empty) =~= all);
    assert(are_modifiers(all)) by {
        assert forall|i: int| 0 <= i < all.len() implies hyprland_directives::is_modifier_segment(
            #[trigger] all[i],
        ) by {
            if i < head.len() {
                assert(all[i] == head[i]);
            }
        }
    }
    assert(all.skip(0) =~= all);
    assert(longer.skip(0) =~= longer);
    lemma_all_modifiers(all, 0);
    lemma_all_modifiers(longer, 0);
    lemma_key_index_bounds(longer, 0);
    lemma_leading_prefix(all, head, head.len() as int);
    assert(hyprland_directives::leading_modifiers(all, all.len() as int)
        =~= hyprland_directives::leading_modifiers(head, head.len() as int));
}

/// A text without characters is a segment with nothing in it.
proof fn lemma_no_segment()
    ensures
        hyprland_directives::segments_of(Seq::empty()) == seq![Seq::<char>::empty()],
        hyprland_directives::is_modifier_segment(Seq::empty()),
        hyprland_directives::segment_modifiers(Seq::empty()) == Seq::<Key>::empty(),
        text::words(Seq::empty()) == Seq::<Seq<char>>::empty(),
{
    text::lemma_no_tokens(Separator::WhitespaceOrUnderscore);
    text::lemma_no_tokens(Separator::Whitespace);
    assert(hyprland_directives::segments_of(Seq::empty()) =~= seq![Seq::<char>::empty()]);
    assert(hyprland_directives::segment_modifiers(Seq::empty()) =~= Seq::<Key>::empty());
}

/// Separators behind modifiers add nothing to them.
proof fn lemma_modifiers_then_all(before: Seq<char>, separators: Seq<char>)
    requires
        forall|i: int|
            0 <= i < separators.len() ==> is_modifier_separator(#[trigger] separators[i]),
        are_modifiers(hyprland_directives::segments_of(before)),
    ensures
        ({
            let head = hyprland_directives::segments_of(before);
            let longer = hyprland_directives::segments_of(before + separators);
            &&& are_modifiers(longer)
            &&& hyprland_directives::leading_modifiers(longer, longer.len() as int)
                == hyprland_directives::leading_modifiers(head, head.len() as int)
        }),
    decreases separators.len(),
{
    if separators.len() == 0 {
        assert(before + separators =~= before);
    } else {
        let init = separators.drop_last();
        lemma_modifiers_then_all(before, init);
        lemma_modifiers_then(before + init, separators[separators.len() - 1]);
        assert((before + init).push(separators[separators.len() - 1]) =~= before + separators);
    }
}

/// Separators between modifiers divide them as a comma does.
proof fn lemma_modifier_separators(before: Seq<char>, separators: Seq<char>, after: Seq<char>)
    requires
        divides_modifiers(separators),
        are_modifiers(hyprland_directives::segments_of(before)),
        hyprland_directives::is_modifier_segment(hyprland_directives::segments_of(after)[0]),
    ensures
        say_the_same(
            hyprland_directives::segments_of(before + separators + after),
            hyprland_directives::segments_of(before) + hyprland_directives::segments_of(after),
        ),
{
    let init = separators.drop_last();
    let c = separators[separators.len() - 1];
    let head = hyprland_directives::segments_of(before);
    let longer = hyprland_directives::segments_of(before + init);
    let tail = hyprland_directives::segments_of(after);
    lemma_modifiers_then_all(before, init);
    lemma_modifier_separator(before + init, c, after);
    assert((before + init).push(c) + after =~= before + separators + after);
    lemma_after_modifiers(longer, tail);
    lemma_after_modifiers(head, tail);
    lemma_key_index_bounds(tail, 0);
    assert(say_the_same(longer + tail, head + tail));
}

/// The modifiers of a segment whose tokens are those of two segments.
proof fn lemma_modifiers_in_a_row(joint: Seq<char>, one: Seq<char>, other: Seq<char>)
    requires
        hyprland_directives::modifier_tokens(joint) == hyprland_directives::modifier_tokens(one)
            + hyprland_directives::modifier_tokens(other),
        hyprland_directives::is_modifier_segment(one),
        hyprland_directives::is_modifier_segment(other),
    ensures
        hyprland_directives::is_modifier_segment(joint),
        hyprland_directives::segment_modifiers(joint) == hyprland_directives::segment_modifiers(one)
            + hyprland_directives::segment_modifiers(other),
{
    let first = hyprland_directives::modifier_tokens(one);
    let second = hyprland_directives::modifier_tokens(other);
    let all = hyprland_directives::modifier_tokens(joint);
    assert forall|i: int| 0 <= i < all.len() implies keysyms::modifier_named(
        text::lowered(#[trigger] all[i]),
    ) is Some by {
        if i < first.len() {
            assert(all[i] == first[i]);
        } else {
            assert(all[i] == second[i - first.len()]);
        }
    }
    assert(dispatchers::modifiers_of(all, all.len() as int) =~= dispatchers::modifiers_of(
        first,
        first.len() as int,
    ) + dispatchers::modifiers_of(second, second.len() as int));
}

/// What follows segments of modifiers says what is left.
pub proof fn lemma_after_modifiers(head: Seq<Seq<char>>, rest: Seq<Seq<char>>)
    requires
        are_modifiers(head),
    ensures
        ({
            let k = hyprland_directives::key_index(rest, 0);
            &&& 0 <= k
            &&& hyprland_directives::key_index(head + rest, 0) == head.len() + k
            &&& hyprland_directives::leading_modifiers(head + rest, head.len() + k)
                == hyprland_directives::leading_modifiers(head, head.len() as int)
                + hyprland_directives::leading_modifiers(rest, k)
            &&& hyprland_directives::words_from(head + rest, head.len() + k + 1)
                == hyprland_directives::words_from(rest, k + 1)
        }),
{
    let k = hyprland_directives::key_index(rest, 0);
    lemma_key_index_bounds(rest, 0);
    lemma_key_after(head, rest, 0);
    lemma_key_shifted(head, rest, 0);
    lemma_leading_after(head, rest, k);
    lemma_words_after(head, rest, k + 1);
}

proof fn lemma_key_index_bounds(segments: Seq<Seq<char>>, i: int)
    requires
        0 <= i <= segments.len(),
    ensures
        i <= hyprland_directives::key_index(segments, i) <= segments.len(),
    decreases segments.len() - i,
{
    if i < segments.len() && hyprland_directives::is_modifier_segment(segments[i]) {
        lemma_key_index_bounds(segments, i + 1);
    }
}

proof fn lemma_key_after(head: Seq<Seq<char>>, rest: Seq<Seq<char>>, i: int)
    requires
        are_modifiers(head),
        0 <= i <= head.len(),
    ensures
        hyprland_directives::key_index(head + rest, i) == hyprland_directives::key_index(
            head + rest,
            head.len() as int,
        ),
    decreases head.len() - i,
{
    if i < head.len() {
        assert((head + rest)[i] == head[i]);
        lemma_key_after(head, rest, i + 1);
    }
}

proof fn lemma_key_shifted(head: Seq<Seq<char>>, rest: Seq<Seq<char>>, i: int)
    requires
        0 <= i <= rest.len(),
    ensures
        hyprland_directives::key_index(head + rest, head.len() + i) == head.len()
            + hyprland_directives::key_index(rest, i),
    decreases rest.len() - i,
{
    if i < rest.len() {
        assert((head + rest)[head.len() + i] == rest[i]);
        lemma_key_shifted(head, rest, i + 1);
    }
}

proof fn lemma_leading_prefix(one: Seq<Seq<char>>, other: Seq<Seq<char>>, n: int)
    requires
        0 <= n <= one.len(),
        n <= other.len(),
        forall|i: int| 0 <= i < n ==> one[i] == other[i],
    ensures
        hyprland_directives::leading_modifiers(one, n) == hyprland_directives::leading_modifiers(
            other,
            n,
        ),
    decreases n,
{
    if n > 0 {
        lemma_leading_prefix(one, other, n - 1);
    }
}

proof fn lemma_leading_after(head: Seq<Seq<char>>, rest: Seq<Seq<char>>, k: int)
    requires
        0 <= k <= rest.len(),
    ensures
        hyprland_directives::leading_modifiers(head + rest, head.len() + k)
            == hyprland_directives::leading_modifiers(head, head.len() as int)
            + hyprland_directives::leading_modifiers(rest, k),
    decreases k,
{
    let first = hyprland_directives::leading_modifiers(head, head.len() as int);
    if k == 0 {
        lemma_leading_prefix(head + rest, head, head.len() as int);
        assert(first + hyprland_directives::leading_modifiers(rest, 0) =~= first);
    } else {
        lemma_leading_after(head, rest, k - 1);
        assert((head + rest)[head.len() + k - 1] == rest[k - 1]);
        assert(first + hyprland_directives::leading_modifiers(rest, k) =~= (first
            + hyprland_directives::leading_modifiers(rest, k - 1))
            + hyprland_directives::segment_modifiers(rest[k - 1]));
    }
}

proof fn lemma_words_after(head: Seq<Seq<char>>, rest: Seq<Seq<char>>, i: int)
    requires
        0 <= i,
    ensures
        hyprland_directives::words_from(head + rest, head.len() + i)
            == hyprland_directives::words_from(rest, i),
    decreases rest.len() - i,
{
    if i < rest.len() {
        assert((head + rest)[head.len() + i] == rest[i]);
        lemma_words_after(head, rest, i + 1);
    }
}

proof fn lemma_words_in_a_row(one: Seq<Seq<char>>, other: Seq<Seq<char>>, i: int)
    requires
        0 <= i <= one.len(),
    ensures
        hyprland_directives::words_from(one + other, i) == hyprland_directives::words_from(one, i)
            + hyprland_directives::words_from(other, 0),
    decreases one.len() - i,
{
    let last = hyprland_directives::words_from(other, 0);
    if i < one.len() {
        lemma_words_in_a_row(one, other, i + 1);
        assert((one + other)[i] == one[i]);
        assert(text::words(one[i]) + (hyprland_directives::words_from(one, i + 1) + last) =~= (
        text::words(one[i]) + hyprland_directives::words_from(one, i + 1)) + last);
    } else {
        lemma_words_after(one, other, 0);
        assert(hyprland_directives::words_from(one, i) + last =~= last);
    }
}

/// A key is found again wherever the segments up to it are the same.
proof fn lemma_key_prefix(one: Seq<Seq<char>>, other: Seq<Seq<char>>, i: int)
    requires
        0 <= i,
        hyprland_directives::key_index(one, i) < one.len(),
        hyprland_directives::key_index(one, i) < other.len(),
        forall|k: int|
            0 <= k <= hyprland_directives::key_index(one, i) ==> one[k] == other[k],
    ensures
        hyprland_directives::key_index(other, i) == hyprland_directives::key_index(one, i),
    decreases one.len() - i,
{
    if i < one.len() {
        lemma_key_index_bounds(one, i);
        if hyprland_directives::is_modifier_segment(one[i]) {
            lemma_key_prefix(one, other, i + 1);
        }
    }
}

/// A separator between words divides them as a comma does.
proof fn lemma_word_separator(before: Seq<char>, c: char, after: Seq<char>)
    requires
        is_word_separator(c),
        hyprland_directives::key_index(hyprland_directives::segments_of(before), 0) + 1
            < hyprland_directives::segments_of(before).len(),
    ensures
        say_the_same(
            hyprland_directives::segments_of(before.push(c) + after),
            hyprland_directives::segments_of(before) + hyprland_directives::segments_of(after),
        ),
{
    let head = hyprland_directives::segments_of(before);
    let tail = hyprland_directives::segments_of(after);
    lemma_segments_around(before, c, after);
    if c != ',' {
        let n = hyprland_directives::key_index(head, 0);
        let one = text::pieces(before, Separator::Comma).last();
        let other = text::pieces(after, Separator::Comma).first();
        let joint = text::trimmed(one.push(c) + other);
        assert(text::trimmed(one) == head.last());
        assert(text::trimmed(other) == tail[0]);
        let separator = Separator::Whitespace;
        text::lemma_tokens_trimmed(one.push(c) + other, separator);
        text::lemma_tokens_around(one, c, other, separator);
        text::lemma_tokens_trimmed(one, separator);
        text::lemma_tokens_trimmed(other, separator);
        let init = head.drop_last();
        let rest = tail.drop_first();
        let all = head + tail;
        let shorter = init.push(joint) + rest;
        lemma_key_index_bounds(head, 0);
        lemma_key_prefix(head, all, 0);
        lemma_key_prefix(head, shorter, 0);
        lemma_leading_prefix(shorter, all, n);
        let last = seq![head.last(), tail[0]] + rest;
        assert(all =~= init + last);
        assert(shorter =~= init + (seq![joint] + rest));
        lemma_words_in_a_row(init, last, n + 1);
        lemma_words_in_a_row(init, seq![joint] + rest, n + 1);
        lemma_words_after(seq![head.last(), tail[0]], rest, 0);
        lemma_words_after(seq![joint], rest, 0);
        let end = hyprland_directives::words_from(rest, 0);
        assert(last[0] == head.last() && last[1] == tail[0]);
        assert((seq![joint] + rest)[0] == joint);
        assert(hyprland_directives::words_from(last, 2) == end);
        assert(hyprland_directives::words_from(seq![joint] + rest, 1) == end);
        assert(hyprland_directives::words_from(last, 1) == text::words(tail[0]) + end);
        assert(text::words(head.last()) + (text::words(tail[0]) + end) =~= (text::words(head.last())
            + text::words(tail[0])) + end);
    }
}

/// A separator behind words adds nothing to them.
proof fn lemma_words_then(before: Seq<char>, c: char)
    requires
        is_word_separator(c),
        hyprland_directives::key_index(hyprland_directives::segments_of(before), 0) + 1
            < hyprland_directives::segments_of(before).len(),
    ensures
        hyprland_directives::key_index(hyprland_directives::segments_of(before.push(c)), 0) + 1
            < hyprland_directives::segments_of(before.push(c)).len(),
        say_the_same(
            hyprland_directives::segments_of(before.push(c)),
            hyprland_directives::segments_of(before),
        ),
{
    let head = hyprland_directives::segments_of(before);
    let longer = hyprland_directives::segments_of(before.push(c));
    let empty = Seq::<char>::empty();
    lemma_no_segment();
    assert(before.push(c) + empty =~= before.push(c));
    assert(hyprland_directives::key_index(longer, 0) + 1 < longer.len()) by {
        lemma_segments_around(before, c, empty);
        lemma_key_index_bounds(head, 0);
        lemma_key_prefix(head, longer, 0);
    }
    assert(say_the_same(longer, head + seq![empty])) by {
        lemma_word_separator(before, c, empty);
    }
    lemma_empty_segment_at_end(head);
}

/// A segment with nothing in it adds nothing to the words before it.
proof fn lemma_empty_segment_at_end(head: Seq<Seq<char>>)
    requires
        hyprland_directives::key_index(head, 0) < head.len(),
    ensures
        say_the_same(head + seq![Seq::<char>::empty()], head),
{
    let last = seq![Seq::<char>::empty()];
    let all = head + last;
    let n = hyprland_directives::key_index(head, 0);
    lemma_no_segment();
    lemma_key_index_bounds(head, 0);
    lemma_key_prefix(head, all, 0);
    lemma_leading_prefix(all, head, n);
    lemma_words_in_a_row(head, last, n + 1);
    assert(hyprland_directives::words_from(last, 1) =~= Seq::empty());
    assert(hyprland_directives::words_from(last, 0) =~= Seq::empty());
    assert(hyprland_directives::words_from(all, n + 1) =~= hyprland_directives::words_from(
        head,
        n + 1,
    ));
}

/// Separators behind words add nothing to them.
proof fn lemma_words_then_all(before: Seq<char>, separators: Seq<char>)
    requires
        forall|i: int| 0 <= i < separators.len() ==> is_word_separator(#[trigger] separators[i]),
        hyprland_directives::key_index(hyprland_directives::segments_of(before), 0) + 1
            < hyprland_directives::segments_of(before).len(),
    ensures
        hyprland_directives::key_index(hyprland_directives::segments_of(before + separators), 0) + 1
            < hyprland_directives::segments_of(before + separators).len(),
        say_the_same(
            hyprland_directives::segments_of(before + separators),
            hyprland_directives::segments_of(before),
        ),
    decreases separators.len(),
{
    if separators.len() == 0 {
        assert(before + separators =~= before);
    } else {
        let init = separators.drop_last();
        lemma_words_then_all(before, init);
        lemma_words_then(before + init, separators[separators.len() - 1]);
        assert((before + init).push(separators[separators.len() - 1]) =~= before + separators);
    }
}

/// What follows segments with the same key and words makes no difference.
proof fn lemma_same_tail(one: Seq<Seq<char>>, other: Seq<Seq<char>>, tail: Seq<Seq<char>>)
    requires
        say_the_same(one, other),
        hyprland_directives::key_index(one, 0) < one.len(),
    ensures
        say_the_same(one + tail, other + tail),
{
    let n = hyprland_directives::key_index(one, 0);
    let m = hyprland_directives::key_index(other, 0);
    lemma_key_index_bounds(one, 0);
    lemma_key_index_bounds(other, 0);
    lemma_key_prefix(one, one + tail, 0);
    lemma_key_prefix(other, other + tail, 0);
    lemma_leading_prefix(one + tail, one, n);
    lemma_leading_prefix(other + tail, other, m);
    lemma_words_in_a_row(one, tail, n + 1);
    lemma_words_in_a_row(other, tail, m + 1);
}

/// Separators between words divide them as a comma does.
proof fn lemma_word_separators(before: Seq<char>, separators: Seq<char>, after: Seq<char>)
    requires
        divides_words(separators),
        hyprland_directives::key_index(hyprland_directives::segments_of(before), 0) + 1
            < hyprland_directives::segments_of(before).len(),
    ensures
        say_the_same(
            hyprland_directives::segments_of(before + separators + after),
            hyprland_directives::segments_of(before) + hyprland_directives::segments_of(after),
        ),
{
    let init = separators.drop_last();
    let c = separators[separators.len() - 1];
    lemma_words_then_all(before, init);
    lemma_word_separator(before + init, c, after);
    assert((before + init).push(c) + after =~= before + separators + after);
    lemma_same_tail(
        hyprland_directives::segments_of(before + init),
        hyprland_directives::segments_of(before),
        hyprland_directives::segments_of(after),
    );
}

} // verus!
