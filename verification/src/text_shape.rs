//! How texts are taken apart, and put together again.

use vstd::prelude::*;

use crate::text::{self, Separator};

verus! {

/// Whether a text has nothing but white space in it.
pub open spec fn is_blank(text: Seq<char>) -> bool {
    forall|i: int| 0 <= i < text.len() ==> text::spec_is_whitespace(#[trigger] text[i])
}

/// Whether a text has no separators in it.
pub open spec fn is_whole(text: Seq<char>, separator: Separator) -> bool {
    forall|i: int| 0 <= i < text.len() ==> !separator.spec_is(#[trigger] text[i])
}

/// Only ASCII letters have a lower case: everything else stays as it is.
pub proof fn law_lower_case(text: Seq<char>, i: int)
    requires
        0 <= i < text.len(),
    ensures
        text::lowered(text).len() == text.len(),
        'A' <= text[i] <= 'Z' ==> text::lowered(text)[i] as u32 == text[i] as u32 + 32,
        !('A' <= text[i] <= 'Z') ==> text::lowered(text)[i] == text[i],
{
}

/// What the separators are.
pub proof fn law_separators(c: char)
    ensures
        Separator::Comma.spec_is(c) <==> c == ',',
        Separator::LineFeed.spec_is(c) <==> c == '\n',
        Separator::Whitespace.spec_is(c) <==> text::spec_is_whitespace(c),
        Separator::WhitespaceOrUnderscore.spec_is(c) <==> text::spec_is_whitespace(c) || c == '_',
        c == ' ' || c == '\t' || c == '\n' || c == '\r' ==> text::spec_is_whitespace(c),
        '!' <= c <= '~' ==> !text::spec_is_whitespace(c),
{
}

/// Trimming the start of a text takes away exactly the white space there.
pub proof fn law_start_is_trimmed(blank: Seq<char>, rest: Seq<char>)
    requires
        is_blank(blank),
        rest.len() > 0 ==> !text::spec_is_whitespace(rest[0]),
    ensures
        text::trimmed_start(blank + rest) == rest,
    decreases blank.len(),
{
    let all = blank + rest;
    if blank.len() == 0 {
        assert(all =~= rest);
    } else {
        assert(text::spec_is_whitespace(blank[0]));
        let fewer = blank.skip(1);
        assert forall|i: int| 0 <= i < fewer.len() implies text::spec_is_whitespace(
            #[trigger] fewer[i],
        ) by {
            assert(fewer[i] == blank[i + 1]);
        }
        law_start_is_trimmed(fewer, rest);
        assert(all.skip(1) =~= fewer + rest);
    }
}

/// Trimming the end of a text takes away exactly the white space there.
pub proof fn law_end_is_trimmed(rest: Seq<char>, blank: Seq<char>)
    requires
        is_blank(blank),
        rest.len() > 0 ==> !text::spec_is_whitespace(rest.last()),
    ensures
        text::trimmed_end(rest + blank) == rest,
    decreases blank.len(),
{
    let all = rest + blank;
    if blank.len() == 0 {
        assert(all =~= rest);
    } else {
        assert(text::spec_is_whitespace(blank[blank.len() - 1]));
        let fewer = blank.drop_last();
        assert forall|i: int| 0 <= i < fewer.len() implies text::spec_is_whitespace(
            #[trigger] fewer[i],
        ) by {
            assert(fewer[i] == blank[i]);
        }
        law_end_is_trimmed(rest, fewer);
        assert(all.drop_last() =~= rest + fewer);
    }
}

/// Trimming takes away the white space on both sides, and nothing else.
pub proof fn law_both_sides_are_trimmed(before: Seq<char>, middle: Seq<char>, after: Seq<char>)
    requires
        is_blank(before),
        is_blank(after),
        middle.len() > 0 ==> !text::spec_is_whitespace(middle[0]) && !text::spec_is_whitespace(
            middle.last(),
        ),
    ensures
        text::trimmed(before + middle + after) == middle,
{
    if middle.len() == 0 {
        let all = before + after;
        assert(before + middle + after =~= all);
        assert forall|i: int| 0 <= i < all.len() implies text::spec_is_whitespace(
            #[trigger] all[i],
        ) by {
            if i < before.len() {
                assert(all[i] == before[i]);
            } else {
                assert(all[i] == after[i - before.len()]);
            }
        }
        law_start_is_trimmed(all, middle);
        assert(all + middle =~= all);
        assert(text::trimmed_end(middle) == middle);
    } else {
        assert((middle + after)[0] == middle[0]);
        law_start_is_trimmed(before, middle + after);
        assert(before + middle + after =~= before + (middle + after));
        law_end_is_trimmed(middle, after);
    }
}

/// A text without separators is a piece by itself.
pub proof fn law_whole_text_is_one_piece(text: Seq<char>, separator: Separator)
    requires
        is_whole(text, separator),
    ensures
        text::pieces(text, separator) == seq![text],
        text.len() > 0 ==> text::tokens(text, separator) == seq![text],
        text.len() == 0 ==> text::tokens(text, separator) == Seq::<Seq<char>>::empty(),
    decreases text.len(),
{
    if text.len() > 0 {
        let init = text.drop_last();
        assert forall|i: int| 0 <= i < init.len() implies !separator.spec_is(#[trigger] init[i]) by {
            assert(text[i] == init[i]);
        }
        law_whole_text_is_one_piece(init, separator);
        assert(!separator.spec_is(text[text.len() - 1]));
        assert(init.push(text.last()) =~= text);
    } else {
        assert(text =~= Seq::empty());
    }
    assert(text::pieces(text, separator) =~= seq![text]);
    reveal(Seq::filter);
    let pred = |piece: Seq<char>| piece.len() > 0;
    assert(seq![text].drop_last() =~= Seq::empty());
    assert(seq![text].drop_last().filter(pred) =~= Seq::empty());
    assert(seq![text].filter(pred) =~= if text.len() > 0 {
        seq![text]
    } else {
        Seq::empty()
    });
}

/// A separator divides what is before it from what is after it, and is part of
/// neither.
pub proof fn law_separator_divides(a: Seq<char>, c: char, b: Seq<char>, separator: Separator)
    requires
        separator.spec_is(c),
    ensures
        text::pieces(a + seq![c] + b, separator) == text::pieces(a, separator) + text::pieces(
            b,
            separator,
        ),
        text::tokens(a + seq![c] + b, separator) == text::tokens(a, separator) + text::tokens(
            b,
            separator,
        ),
{
    assert(a + seq![c] + b =~= a.push(c) + b);
    text::lemma_pieces_around(a, c, b, separator);
    text::lemma_tokens_around(a, c, b, separator);
}

/// The words of a text are those of its first word and then those of the rest.
pub proof fn law_words_are_read_in_order(word: Seq<char>, c: char, rest: Seq<char>)
    requires
        word.len() > 0,
        is_whole(word, Separator::Whitespace),
        text::spec_is_whitespace(c),
    ensures
        text::words(word) == seq![word],
        text::words(word + seq![c] + rest) == seq![word] + text::words(rest),
        text::words(seq![c] + rest) == text::words(rest),
{
    let empty = Seq::<char>::empty();
    law_whole_text_is_one_piece(word, Separator::Whitespace);
    law_separator_divides(word, c, rest, Separator::Whitespace);
    law_whole_text_is_one_piece(empty, Separator::Whitespace);
    law_separator_divides(empty, c, rest, Separator::Whitespace);
    assert(empty + seq![c] + rest =~= seq![c] + rest);
    assert(Seq::<Seq<char>>::empty() + text::words(rest) =~= text::words(rest));
}

/// The lines of a text are its first line, without the carriage return at its
/// end, and then those of the rest. What follows the last line feed is a line
/// only if there is something.
pub proof fn law_lines_are_read_in_order(line: Seq<char>, rest: Seq<char>)
    requires
        is_whole(line, Separator::LineFeed),
    ensures
        text::lines(line) == if line.len() > 0 {
            seq![line]
        } else {
            Seq::empty()
        },
        line.len() > 0 && line.last() == '\r' ==> text::lines(line + seq!['\n'] + rest)
            == seq![line.drop_last()] + text::lines(rest),
        line.len() == 0 || line.last() != '\r' ==> text::lines(line + seq!['\n'] + rest)
            == seq![line] + text::lines(rest),
{
    let f = |line: Seq<char>| text::without_return(line);
    law_whole_text_is_one_piece(line, Separator::LineFeed);
    assert(seq![line].drop_last() =~= Seq::empty());
    assert(text::lines(line) =~= if line.len() > 0 {
        seq![line]
    } else {
        Seq::empty()
    });
    law_separator_divides(line, '\n', rest, Separator::LineFeed);
    let some = text::pieces(rest, Separator::LineFeed);
    text::lemma_pieces_in_a_row(rest, rest, Separator::LineFeed);
    let all = seq![line] + some;
    assert(all.last() == some.last());
    assert(all.drop_last() =~= seq![line] + some.drop_last());
    assert(all.drop_last().map_values(f) =~= seq![text::without_return(line)]
        + some.drop_last().map_values(f));
    assert(text::lines(line + seq!['\n'] + rest) =~= seq![text::without_return(line)]
        + text::lines(rest));
}

/// Lines are joined by single line feeds, in their order.
pub proof fn law_lines_are_joined_in_order(list: Seq<Seq<char>>, line: Seq<char>)
    ensures
        text::joined(Seq::empty()) == Seq::<char>::empty(),
        text::joined(seq![line]) == line,
        list.len() > 0 ==> text::joined(list.push(line)) == text::joined(list) + seq!['\n'] + line,
{
    if list.len() > 0 {
        assert(list.push(line).drop_last() =~= list);
        assert(text::joined(list).push('\n') + line =~= text::joined(list) + seq!['\n'] + line);
    }
}

} // verus!
