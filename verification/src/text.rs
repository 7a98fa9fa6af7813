//! Text as a sequence of characters.

use vstd::prelude::*;
use vstd::slice::slice_subrange;

verus! {

/// `String::push` appends a character to the end of a string.
pub assume_specification[ String::push ](string: &mut String, c: char)
    ensures
        final(string)@ == old(string)@.push(c),
;

/// Whether a character is white space.
pub open spec fn spec_is_whitespace(c: char) -> bool {
    ||| 0x9 <= c as u32 <= 0xd
    ||| c == ' '
    ||| c as u32 == 0x85
    ||| c as u32 == 0xa0
    ||| c as u32 == 0x1680
    ||| 0x2000 <= c as u32 <= 0x200a
    ||| c as u32 == 0x2028
    ||| c as u32 == 0x2029
    ||| c as u32 == 0x202f
    ||| c as u32 == 0x205f
    ||| c as u32 == 0x3000
}

/// Whether a character is white space, by its Unicode property.
pub fn is_whitespace(c: char) -> (r: bool)
    ensures
        r == spec_is_whitespace(c),
{
    let code = c as u32;
    (0x9 <= code && code <= 0xd) || code == 0x20 || code == 0x85 || code == 0xa0 || code == 0x1680
        || (0x2000 <= code && code <= 0x200a) || code == 0x2028 || code == 0x2029 || code == 0x202f
        || code == 0x205f || code == 0x3000
}

/// A character in lower case, if it is an ASCII letter.
pub open spec fn spec_lower(c: char) -> char {
    if 'A' <= c <= 'Z' {
        (c as u32 + 32) as char
    } else {
        c
    }
}

/// A character in upper case, if it is an ASCII letter.
pub open spec fn spec_upper(c: char) -> char {
    if 'a' <= c <= 'z' {
        (c as u32 - 32) as char
    } else {
        c
    }
}

/// Turns an ASCII letter into lower case.
fn lower(c: char) -> (r: char)
    ensures
        r == spec_lower(c),
{
    if 'A' <= c && c <= 'Z' {
        (c as u8 + 32) as char
    } else {
        c
    }
}

pub open spec fn is_ascii_letter(c: char) -> bool {
    'a' <= c <= 'z' || 'A' <= c <= 'Z'
}

pub open spec fn is_ascii_digit(c: char) -> bool {
    '0' <= c <= '9'
}

/// A text with its ASCII letters in lower case.
pub open spec fn lowered(text: Seq<char>) -> Seq<char> {
    text.map_values(|c: char| spec_lower(c))
}

/// A text with its ASCII letters in upper case.
pub open spec fn raised(text: Seq<char>) -> Seq<char> {
    text.map_values(|c: char| spec_upper(c))
}

/// Turns the ASCII letters of a text into lower case.
pub fn to_lower(text: &[char]) -> (r: Vec<char>)
    ensures
        r@ == lowered(text@),
{
    let mut r: Vec<char> = Vec::new();
    let mut i: usize = 0;
    while i < text.len()
        invariant
            i <= text@.len(),
            r@ == lowered(text@.take(i as int)),
        decreases text.len() - i,
    {
        r.push(lower(text[i]));
        i += 1;
        assert(r@ =~= lowered(text@.take(i as int)));
    }
    assert(text@.take(i as int) =~= text@);
    r
}

/// Whether a text is the given one.
pub fn is_text(text: &[char], other: &str) -> (r: bool)
    ensures
        r == (text@ == other@),
{
    let mut i: usize = 0;
    for c in it: other.chars()
        invariant
            i == it.index(),
            it.seq() == other@,
            i <= text@.len(),
            forall|k: int| 0 <= k < i ==> text@[k] == other@[k],
    {
        if i >= text.len() || text[i] != c {
            return false;
        }
        i += 1;
    }
    assert(i == text@.len() ==> text@ =~= other@);
    i == text.len()
}

/// Whether a text starts with the given one.
pub open spec fn spec_starts_with(text: Seq<char>, prefix: Seq<char>) -> bool {
    prefix.is_prefix_of(text)
}

/// Whether a text starts with the given one.
pub fn starts_with(text: &[char], prefix: &str) -> (r: bool)
    ensures
        r == spec_starts_with(text@, prefix@),
{
    let mut i: usize = 0;
    for c in it: prefix.chars()
        invariant
            i == it.index(),
            it.seq() == prefix@,
            i <= text@.len(),
            forall|k: int| 0 <= k < i ==> text@[k] == prefix@[k],
    {
        if i >= text.len() || text[i] != c {
            proof {
                if prefix@.is_prefix_of(text@) {
                    assert(text@.subrange(0, prefix@.len() as int)[i as int] == prefix@[i as int]);
                }
            }
            return false;
        }
        i += 1;
    }
    assert(text@.subrange(0, prefix@.len() as int) =~= prefix@);
    true
}

/// Gets the characters of a string.
pub fn chars_of(string: &str) -> (r: Vec<char>)
    ensures
        r@ == string@,
{
    let mut r: Vec<char> = Vec::new();
    for c in it: string.chars()
        invariant
            it.seq() == string@,
            r@ == string@.take(it.index() as int),
    {
        r.push(c);
        assert(r@ =~= string@.take(it.index() + 1));
    }
    assert(r@ =~= string@);
    r
}

/// Makes a string of characters.
pub fn string_of(text: &[char]) -> (r: String)
    ensures
        r@ == text@,
{
    proof {
        reveal_strlit("");
    }
    assert(""@ + text@ + ""@ =~= text@);
    quoted("", text, "")
}

/// Makes a string of a text, with something before and after it.
pub fn quoted(before: &str, text: &[char], after: &str) -> (r: String)
    ensures
        r@ == before@ + text@ + after@,
{
    let mut r = String::new();
    r.append(before);
    assert(r@ =~= before@ + text@.take(0));
    let mut i: usize = 0;
    while i < text.len()
        invariant
            i <= text@.len(),
            r@ == before@ + text@.take(i as int),
        decreases text.len() - i,
    {
        r.push(text[i]);
        i += 1;
        assert(r@ =~= before@ + text@.take(i as int));
    }
    assert(text@.take(i as int) =~= text@);
    r.append(after);
    r
}

/// Gets the index of the first occurrence of a character.
pub fn find(text: &[char], c: char) -> (r: Option<usize>)
    ensures
        match text@.index_of_first(c) {
            Some(index) => r matches Some(i) && i == index && 0 <= index < text@.len(),
            None => r is None,
        },
{
    proof {
        text@.index_of_first_ensures(c);
    }
    let mut i: usize = 0;
    while i < text.len()
        invariant
            i <= text@.len(),
            forall|k: int| 0 <= k < i ==> text@[k] != c,
        decreases text.len() - i,
    {
        if text[i] == c {
            proof {
                assert(text@.contains(c));
                text@.index_of_first_ensures(c);
            }
            return Some(i);
        }
        i += 1;
    }
    None
}

/// Copies a text.
pub fn copied(text: &[char]) -> (r: Vec<char>)
    ensures
        r@ == text@,
{
    let mut r: Vec<char> = Vec::new();
    let mut i: usize = 0;
    while i < text.len()
        invariant
            i <= text@.len(),
            r@ == text@.take(i as int),
        decreases text.len() - i,
    {
        r.push(text[i]);
        i += 1;
        assert(r@ =~= text@.take(i as int));
    }
    assert(r@ =~= text@);
    r
}

/// A text without the white space at its start.
pub open spec fn trimmed_start(text: Seq<char>) -> Seq<char>
    decreases text.len(),
{
    if text.len() > 0 && spec_is_whitespace(text.first()) {
        trimmed_start(text.skip(1))
    } else {
        text
    }
}

/// A text without the white space at its end.
pub open spec fn trimmed_end(text: Seq<char>) -> Seq<char>
    decreases text.len(),
{
    if text.len() > 0 && spec_is_whitespace(text.last()) {
        trimmed_end(text.drop_last())
    } else {
        text
    }
}

/// A text without the white space around it.
pub open spec fn trimmed(text: Seq<char>) -> Seq<char> {
    trimmed_end(trimmed_start(text))
}

/// Removes the white space at the start of a text.
pub fn trim_start(text: &[char]) -> (r: &[char])
    ensures
        r@ == trimmed_start(text@),
{
    let mut i: usize = 0;
    assert(text@.skip(0) =~= text@);
    while i < text.len() && is_whitespace(text[i])
        invariant
            i <= text@.len(),
            trimmed_start(text@) == trimmed_start(text@.skip(i as int)),
        decreases text.len() - i,
    {
        assert(text@.skip(i as int).skip(1) =~= text@.skip(i + 1));
        i += 1;
    }
    assert(text@.subrange(i as int, text@.len() as int) =~= text@.skip(i as int));
    slice_subrange(text, i, text.len())
}

/// Removes the white space at the end of a text.
pub fn trim_end(text: &[char]) -> (r: &[char])
    ensures
        r@ == trimmed_end(text@),
{
    let mut end: usize = text.len();
    assert(text@.take(end as int) =~= text@);
    while end > 0 && is_whitespace(text[end - 1])
        invariant
            end <= text@.len(),
            trimmed_end(text@) == trimmed_end(text@.take(end as int)),
        decreases end,
    {
        assert(text@.take(end as int).drop_last() =~= text@.take(end - 1));
        end -= 1;
    }
    assert(text@.subrange(0, end as int) =~= text@.take(end as int));
    slice_subrange(text, 0, end)
}

/// Removes the white space around a text.
pub fn trim(text: &[char]) -> (r: &[char])
    ensures
        r@ == trimmed(text@),
{
    trim_end(trim_start(text))
}

/// Characters that separate the pieces of a text.
#[derive(Clone, Copy, Debug, PartialEq, Eq, Structural)]
pub enum Separator {
    Comma,
    LineFeed,
    Whitespace,
    WhitespaceOrUnderscore,
}

impl Separator {
    pub open spec fn spec_is(self, c: char) -> bool {
        match self {
            Separator::Comma => c == ',',
            Separator::LineFeed => c == '\n',
            Separator::Whitespace => spec_is_whitespace(c),
            Separator::WhitespaceOrUnderscore => spec_is_whitespace(c) || c == '_',
        }
    }

    /// Whether a character separates pieces.
    pub fn is(&self, c: char) -> (r: bool)
        ensures
            r == self.spec_is(c),
    {
        match self {
            Separator::Comma => c == ',',
            Separator::LineFeed => c == '\n',
            Separator::Whitespace => is_whitespace(c),
            Separator::WhitespaceOrUnderscore => is_whitespace(c) || c == '_',
        }
    }
}

/// The pieces that separators divide a text into. There is always one more
/// piece than there are separators.
pub open spec fn pieces(text: Seq<char>, separator: Separator) -> Seq<Seq<char>>
    decreases text.len(),
{
    if text.len() == 0 {
        seq![Seq::empty()]
    } else {
        let init = pieces(text.drop_last(), separator);
        if separator.spec_is(text.last()) {
            init.push(Seq::empty())
        } else {
            init.drop_last().push(init.last().push(text.last()))
        }
    }
}

/// The contents of several texts.
pub open spec fn texts(list: Seq<Vec<char>>) -> Seq<Seq<char>> {
    list.map_values(|text: Vec<char>| text@)
}

/// Splits a text into the pieces between separators.
pub fn split(text: &[char], separator: Separator) -> (r: Vec<Vec<char>>)
    ensures
        texts(r@) == pieces(text@, separator),
        r@.len() > 0,
{
    let mut done: Vec<Vec<char>> = Vec::new();
    let mut current: Vec<char> = Vec::new();
    let mut i: usize = 0;
    proof {
        assert(text@.take(0) =~= Seq::empty());
        assert(texts(done@).push(current@) =~= seq![Seq::<char>::empty()]);
    }
    while i < text.len()
        invariant
            i <= text@.len(),
            texts(done@).push(current@) == pieces(text@.take(i as int), separator),
        decreases text.len() - i,
    {
        let ghost before = texts(done@).push(current@);
        let ghost piece = current@;
        proof {
            assert(text@.take(i + 1).drop_last() =~= text@.take(i as int));
            assert(before.drop_last() =~= texts(done@));
        }
        let c = text[i];
        if separator.is(c) {
            done.push(current);
            current = Vec::new();
            assert(texts(done@) =~= before);
            assert(current@ =~= Seq::<char>::empty());
        } else {
            current.push(c);
        }
        i += 1;
    }
    assert(text@.take(i as int) =~= text@);
    let ghost all = texts(done@).push(current@);
    done.push(current);
    assert(texts(done@) =~= all);
    done
}

/// The pieces of a text that are not empty.
pub open spec fn tokens(text: Seq<char>, separator: Separator) -> Seq<Seq<char>> {
    pieces(text, separator).filter(|piece: Seq<char>| piece.len() > 0)
}

/// The words of a text, which white space separates.
pub open spec fn words(text: Seq<char>) -> Seq<Seq<char>> {
    tokens(text, Separator::Whitespace)
}

/// Splits a text into the pieces between separators that are not empty.
pub fn split_tokens(text: &[char], separator: Separator) -> (r: Vec<Vec<char>>)
    ensures
        texts(r@) == tokens(text@, separator),
{
    let all = split(text, separator);
    let ghost list = texts(all@);
    let mut r: Vec<Vec<char>> = Vec::new();
    let mut i: usize = 0;
    proof {
        reveal(Seq::filter);
        assert(list.take(0).filter(|piece: Seq<char>| piece.len() > 0) =~= texts(r@));
    }
    while i < all.len()
        invariant
            i <= all.len(),
            list == texts(all@),
            texts(r@) == list.take(i as int).filter(|piece: Seq<char>| piece.len() > 0),
        decreases all.len() - i,
    {
        let ghost before = texts(r@);
        proof {
            reveal(Seq::filter);
            assert(list.take(i + 1).drop_last() =~= list.take(i as int));
            assert(list.take(i + 1).last() == all@[i as int]@);
        }
        if all[i].len() > 0 {
            let piece = copied(&all[i]);
            r.push(piece);
            assert(texts(r@) =~= before.push(all@[i as int]@));
        }
        i += 1;
    }
    assert(list.take(i as int) =~= list);
    r
}

/// A line without the carriage return that precedes its line feed.
pub open spec fn without_return(line: Seq<char>) -> Seq<char> {
    if line.len() > 0 && line.last() == '\r' {
        line.drop_last()
    } else {
        line
    }
}

/// The lines of a text. A line feed, with or without a carriage return before
/// it, ends a line; the last line need not be ended.
pub open spec fn lines(text: Seq<char>) -> Seq<Seq<char>> {
    let all = pieces(text, Separator::LineFeed);
    let ended = all.drop_last().map_values(|line: Seq<char>| without_return(line));
    if all.last().len() == 0 {
        ended
    } else {
        ended.push(all.last())
    }
}

/// Splits a text into lines.
pub fn split_lines(text: &[char]) -> (r: Vec<Vec<char>>)
    ensures
        texts(r@) == lines(text@),
{
    let all = split(text, Separator::LineFeed);
    let ghost list = texts(all@);
    let len = all.len();
    let mut r: Vec<Vec<char>> = Vec::new();
    let mut i: usize = 0;
    while i < len - 1
        invariant
            len == all@.len(),
            0 < len,
            i <= len - 1,
            list == texts(all@),
            texts(r@) == list.take(i as int).map_values(|line: Seq<char>| without_return(line)),
        decreases len - i,
    {
        let ghost before = texts(r@);
        let line = slice_of(&all[i]);
        let end = if line.len() > 0 && line[line.len() - 1] == '\r' {
            line.len() - 1
        } else {
            line.len()
        };
        let kept = slice_subrange(line, 0, end);
        proof {
            assert(line@.subrange(0, end as int) =~= without_return(line@));
        }
        r.push(copied(kept));
        i += 1;
        proof {
            assert(texts(r@) =~= before.push(without_return(list[i - 1])));
            assert(texts(r@) =~= list.take(i as int).map_values(
                |line: Seq<char>| without_return(line),
            ));
        }
    }
    assert(list.take(i as int) =~= list.drop_last());
    let ghost ended = texts(r@);
    let last = slice_of(&all[len - 1]);
    assert(list.last() == last@);
    if last.len() > 0 {
        r.push(copied(last));
        assert(texts(r@) =~= ended.push(list.last()));
    }
    r
}

/// Views a text as a slice.
fn slice_of(text: &Vec<char>) -> (r: &[char])
    ensures
        r@ == text@,
{
    text.as_slice()
}

/// Texts with line feeds between them.
pub open spec fn joined(list: Seq<Seq<char>>) -> Seq<char>
    decreases list.len(),
{
    if list.len() == 0 {
        Seq::empty()
    } else if list.len() == 1 {
        list[0]
    } else {
        joined(list.drop_last()).push('\n') + list.last()
    }
}

/// Joins texts with line feeds between them.
pub fn join_lines(list: &Vec<Vec<char>>) -> (r: Vec<char>)
    ensures
        r@ == joined(texts(list@)),
{
    let ghost all = texts(list@);
    let mut r: Vec<char> = Vec::new();
    let mut i: usize = 0;
    assert(all.take(0) =~= Seq::empty());
    while i < list.len()
        invariant
            i <= list.len(),
            all == texts(list@),
            r@ == joined(all.take(i as int)),
        decreases list.len() - i,
    {
        proof {
            assert(all.take(i + 1).drop_last() =~= all.take(i as int));
            assert(all.take(i + 1).last() == list@[i as int]@);
        }
        if i > 0 {
            r.push('\n');
        }
        let ghost before = r@;
        let mut k: usize = 0;
        while k < list[i].len()
            invariant
                i < list.len(),
                k <= list@[i as int]@.len(),
                r@ == before + list@[i as int]@.take(k as int),
            decreases list@[i as int]@.len() - k,
        {
            r.push(list[i][k]);
            k += 1;
            assert(r@ =~= before + list@[i as int]@.take(k as int));
        }
        assert(list@[i as int]@.take(k as int) =~= list@[i as int]@);
        assert(r@ =~= joined(all.take(i + 1)));
        i += 1;
    }
    assert(all.take(i as int) =~= all);
    r
}

/// Joining the pieces between line feeds gives back the text.
pub proof fn lemma_joined_pieces(text: Seq<char>)
    ensures
        pieces(text, Separator::LineFeed).len() > 0,
        joined(pieces(text, Separator::LineFeed)) == text,
    decreases text.len(),
{
    let all = pieces(text, Separator::LineFeed);
    if text.len() == 0 {
        assert(joined(all) =~= text);
    } else {
        let c = text.last();
        let before = pieces(text.drop_last(), Separator::LineFeed);
        lemma_joined_pieces(text.drop_last());
        if c == '\n' {
            assert(all.drop_last() =~= before);
            assert(joined(all) =~= text);
        } else {
            assert(all.drop_last() =~= before.drop_last());
            assert(joined(all) =~= joined(before).push(c));
            assert(joined(all) =~= text);
        }
    }
}

/// No piece contains a line feed, and the last piece is the end of the text.
pub proof fn lemma_pieces_end_lines(text: Seq<char>)
    ensures
        pieces(text, Separator::LineFeed).len() > 0,
        forall|i: int|
            0 <= i < pieces(text, Separator::LineFeed).len() ==> !(#[trigger] pieces(
                text,
                Separator::LineFeed,
            )[i]).contains('\n'),
        ({
            let last = pieces(text, Separator::LineFeed).last();
            if last.len() == 0 {
                text.len() == 0 || text.last() == '\n'
            } else {
                text.len() > 0 && text.last() == last.last() && last.last() != '\n'
            }
        }),
    decreases text.len(),
{
    let all = pieces(text, Separator::LineFeed);
    if text.len() > 0 {
        let before = pieces(text.drop_last(), Separator::LineFeed);
        lemma_pieces_end_lines(text.drop_last());
        assert forall|i: int| 0 <= i < all.len() implies !(#[trigger] all[i]).contains('\n') by {
            if i < before.len() - 1 {
                assert(all[i] == before[i]);
            } else if text.last() != '\n' {
                let last = before[before.len() - 1];
                assert(all[i] == last.push(text.last()));
                if all[i].contains('\n') {
                    let k = choose|k: int| 0 <= k < all[i].len() && all[i][k] == '\n';
                    assert(last[k] == '\n');
                }
            } else if i == before.len() - 1 {
                assert(all[i] == before[i]);
            }
        }
    }
}

/// A text without line feeds is a single piece.
pub proof fn lemma_single_piece(text: Seq<char>)
    requires
        !text.contains('\n'),
    ensures
        pieces(text, Separator::LineFeed) == seq![text],
    decreases text.len(),
{
    if text.len() > 0 {
        let init = text.drop_last();
        assert forall|i: int| 0 <= i < init.len() implies init[i] != '\n' by {
            assert(text[i] == init[i]);
        }
        lemma_single_piece(init);
        assert(text.contains(text[text.len() - 1]));
        assert(init.push(text.last()) =~= text);
        assert(pieces(text, Separator::LineFeed) =~= seq![text]);
    } else {
        assert(text =~= Seq::empty());
    }
}

/// What follows the last line feed is a piece of its own.
pub proof fn lemma_last_piece(before: Seq<char>, last: Seq<char>)
    requires
        !last.contains('\n'),
    ensures
        pieces(before.push('\n') + last, Separator::LineFeed) == pieces(
            before,
            Separator::LineFeed,
        ).push(last),
    decreases last.len(),
{
    let text = before.push('\n') + last;
    let expected = pieces(before, Separator::LineFeed).push(last);
    if last.len() == 0 {
        assert(text =~= before.push('\n'));
        assert(text.drop_last() =~= before);
        assert(last =~= Seq::empty());
    } else {
        let init = last.drop_last();
        assert forall|i: int| 0 <= i < init.len() implies init[i] != '\n' by {
            assert(last[i] == init[i]);
        }
        lemma_last_piece(before, init);
        assert(text.drop_last() =~= before.push('\n') + init);
        assert(last.contains(last[last.len() - 1]));
        assert(init.push(last.last()) =~= last);
        assert(pieces(text, Separator::LineFeed) =~= expected);
    }
}

/// The pieces of joined lines are the lines.
pub proof fn lemma_pieces_of_joined(list: Seq<Seq<char>>)
    requires
        list.len() > 0,
        forall|i: int| 0 <= i < list.len() ==> !(#[trigger] list[i]).contains('\n'),
    ensures
        pieces(joined(list), Separator::LineFeed) == list,
    decreases list.len(),
{
    if list.len() == 1 {
        lemma_single_piece(list[0]);
        assert(seq![list[0]] =~= list);
    } else {
        let init = list.drop_last();
        assert forall|i: int| 0 <= i < init.len() implies !(#[trigger] init[i]).contains('\n') by {
            assert(list[i] == init[i]);
        }
        lemma_pieces_of_joined(init);
        assert(!list[list.len() - 1].contains('\n'));
        lemma_last_piece(joined(init), list.last());
        assert(init.push(list.last()) =~= list);
    }
}

/// There is always a piece.
proof fn lemma_some_piece(text: Seq<char>, separator: Separator)
    ensures
        pieces(text, separator).len() > 0,
    decreases text.len(),
{
    if text.len() > 0 {
        lemma_some_piece(text.drop_last(), separator);
    }
}

/// The pieces of two texts in a row. The last piece of the first one and the
/// first piece of the second one become a single piece.
pub proof fn lemma_pieces_in_a_row(a: Seq<char>, b: Seq<char>, separator: Separator)
    ensures
        pieces(a, separator).len() > 0,
        pieces(b, separator).len() > 0,
        pieces(a + b, separator) == pieces(a, separator).drop_last().push(
            pieces(a, separator).last() + pieces(b, separator).first(),
        ) + pieces(b, separator).drop_first(),
    decreases b.len(),
{
    lemma_some_piece(a, separator);
    lemma_some_piece(b, separator);
    let first = pieces(a, separator);
    let second = pieces(b, separator);
    let expected = first.drop_last().push(first.last() + second.first()) + second.drop_first();
    if b.len() == 0 {
        assert(a + b =~= a);
        assert(first.last() + second.first() =~= first.last());
        assert(pieces(a + b, separator) =~= expected);
    } else {
        let init = b.drop_last();
        lemma_pieces_in_a_row(a, init, separator);
        assert((a + b).drop_last() =~= a + init);
        assert((a + b).last() == b.last());
        let before = pieces(init, separator);
        if before.len() == 1 {
            assert(first.last() + before[0].push(b.last()) =~= (first.last() + before[0]).push(
                b.last(),
            ));
        }
        assert(pieces(a + b, separator) =~= expected);
    }
}

/// A separator between two texts divides their pieces.
pub proof fn lemma_pieces_around(a: Seq<char>, c: char, b: Seq<char>, separator: Separator)
    requires
        separator.spec_is(c),
    ensures
        pieces(a.push(c) + b, separator) == pieces(a, separator) + pieces(b, separator),
{
    lemma_pieces_in_a_row(a.push(c), b, separator);
    assert(a.push(c).drop_last() =~= a);
    assert(Seq::<char>::empty() + pieces(b, separator).first() =~= pieces(b, separator).first());
    assert(pieces(a.push(c) + b, separator) =~= pieces(a, separator) + pieces(b, separator));
}

/// A separator between two texts divides their tokens.
pub proof fn lemma_tokens_around(a: Seq<char>, c: char, b: Seq<char>, separator: Separator)
    requires
        separator.spec_is(c),
    ensures
        tokens(a.push(c) + b, separator) == tokens(a, separator) + tokens(b, separator),
{
    lemma_pieces_around(a, c, b, separator);
    Seq::filter_distributes_over_add(
        pieces(a, separator),
        pieces(b, separator),
        |piece: Seq<char>| piece.len() > 0,
    );
}

/// White space around a text makes no difference to its tokens.
pub proof fn lemma_tokens_trimmed(text: Seq<char>, separator: Separator)
    requires
        separator is Whitespace || separator is WhitespaceOrUnderscore,
    ensures
        tokens(trimmed(text), separator) == tokens(text, separator),
{
    lemma_tokens_trimmed_start(text, separator);
    lemma_tokens_trimmed_end(trimmed_start(text), separator);
}

/// There is nothing in a text without characters.
pub proof fn lemma_no_tokens(separator: Separator)
    ensures
        tokens(Seq::empty(), separator) == Seq::<Seq<char>>::empty(),
{
    reveal(Seq::filter);
    let empty = seq![Seq::<char>::empty()];
    assert(empty.drop_last() =~= Seq::empty());
    assert(empty.drop_last().filter(|piece: Seq<char>| piece.len() > 0) =~= Seq::empty());
}

proof fn lemma_tokens_trimmed_start(text: Seq<char>, separator: Separator)
    requires
        separator is Whitespace || separator is WhitespaceOrUnderscore,
    ensures
        tokens(trimmed_start(text), separator) == tokens(text, separator),
    decreases text.len(),
{
    if text.len() > 0 && spec_is_whitespace(text.first()) {
        let empty = Seq::<char>::empty();
        lemma_tokens_trimmed_start(text.skip(1), separator);
        lemma_tokens_around(empty, text.first(), text.skip(1), separator);
        lemma_no_tokens(separator);
        assert(empty.push(text.first()) + text.skip(1) =~= text);
        assert(tokens(text, separator) =~= tokens(text.skip(1), separator));
    }
}

proof fn lemma_tokens_trimmed_end(text: Seq<char>, separator: Separator)
    requires
        separator is Whitespace || separator is WhitespaceOrUnderscore,
    ensures
        tokens(trimmed_end(text), separator) == tokens(text, separator),
    decreases text.len(),
{
    if text.len() > 0 && spec_is_whitespace(text.last()) {
        let empty = Seq::<char>::empty();
        lemma_tokens_trimmed_end(text.drop_last(), separator);
        lemma_tokens_around(text.drop_last(), text.last(), empty, separator);
        lemma_no_tokens(separator);
        assert(text.drop_last().push(text.last()) + empty =~= text);
        assert(tokens(text, separator) =~= tokens(text.drop_last(), separator));
    }
}

/// Trimming the end of a text leaves its first character, unless there is
/// nothing left.
pub proof fn lemma_trimmed_end_first(text: Seq<char>)
    ensures
        trimmed_end(text).len() > 0 ==> text.len() > 0 && trimmed_end(text)[0] == text[0],
    decreases text.len(),
{
    if text.len() > 0 && spec_is_whitespace(text.last()) {
        lemma_trimmed_end_first(text.drop_last());
    }
}

/// Trimming the end of a text takes nothing but white space away.
pub proof fn lemma_trimmed_end_keeps(text: Seq<char>, c: char)
    requires
        text.contains(c),
        !spec_is_whitespace(c),
    ensures
        trimmed_end(text).contains(c),
    decreases text.len(),
{
    if text.len() > 0 && spec_is_whitespace(text.last()) {
        let i = choose|i: int| 0 <= i < text.len() && text[i] == c;
        assert(text.drop_last()[i] == c);
        lemma_trimmed_end_keeps(text.drop_last(), c);
    }
}

/// White space at the end of a text stays there when its start is trimmed,
/// unless there is nothing else.
pub proof fn lemma_trimmed_start_push(text: Seq<char>, c: char)
    requires
        spec_is_whitespace(c),
    ensures
        trimmed_start(text.push(c)) == if trimmed_start(text).len() > 0 {
            trimmed_start(text).push(c)
        } else {
            Seq::empty()
        },
    decreases text.len(),
{
    let longer = text.push(c);
    if text.len() == 0 {
        assert(longer.first() == c);
        assert(longer.skip(1) =~= Seq::empty());
        assert(trimmed_start(longer.skip(1)) =~= Seq::empty());
    } else {
        assert(longer.first() == text.first());
        if spec_is_whitespace(text.first()) {
            assert(longer.skip(1) =~= text.skip(1).push(c));
            lemma_trimmed_start_push(text.skip(1), c);
        }
    }
}

/// White space at the end of a text does not matter when the text is trimmed.
pub proof fn lemma_trimmed_push(text: Seq<char>, c: char)
    requires
        spec_is_whitespace(c),
    ensures
        trimmed(text.push(c)) == trimmed(text),
{
    lemma_trimmed_start_push(text, c);
    let start = trimmed_start(text);
    if start.len() > 0 {
        assert(start.push(c).last() == c);
        assert(start.push(c).drop_last() =~= start);
    } else {
        assert(start =~= Seq::empty());
    }
}

/// Lower case stays as it is.
pub proof fn lemma_lowered_twice(text: Seq<char>)
    ensures
        lowered(lowered(text)) == lowered(text),
{
    assert(lowered(lowered(text)) =~= lowered(text));
}

/// A text in upper case is the same text in lower case.
pub proof fn lemma_lowered_raised(text: Seq<char>)
    ensures
        lowered(raised(text)) == lowered(text),
{
    assert forall|i: int| 0 <= i < text.len() implies lowered(raised(text))[i] == lowered(
        text,
    )[i] by {
        let c = text[i];
        if 'a' <= c <= 'z' {
            assert(spec_upper(c) as u32 == c as u32 - 32);
        }
    }
    assert(lowered(raised(text)) =~= lowered(text));
}

/// The number that a digit stands for.
pub open spec fn digit(c: char) -> int {
    c as int - '0' as int
}

/// Whether a text consists of digits.
pub open spec fn is_numeral(text: Seq<char>) -> bool {
    text.len() > 0 && forall|i: int| 0 <= i < text.len() ==> is_ascii_digit(#[trigger] text[i])
}

/// The number that digits stand for.
pub open spec fn numeral_value(text: Seq<char>) -> int
    decreases text.len(),
{
    if text.len() == 0 {
        0
    } else {
        10 * numeral_value(text.drop_last()) + digit(text.last())
    }
}

/// The number that a text stands for, if it consists of digits and is not
/// too large.
pub open spec fn spec_parse_natural(text: Seq<char>, limit: int) -> Option<int> {
    if is_numeral(text) && numeral_value(text) <= limit {
        Some(numeral_value(text))
    } else {
        None
    }
}

/// A number is at least as large as its leading digits.
proof fn lemma_leading_digits(text: Seq<char>, n: int)
    requires
        0 <= n <= text.len(),
        forall|i: int| 0 <= i < text.len() ==> is_ascii_digit(#[trigger] text[i]),
    ensures
        0 <= numeral_value(text.take(n)) <= numeral_value(text),
    decreases text.len(),
{
    if text.len() > 0 {
        let init = text.drop_last();
        assert(is_ascii_digit(text[text.len() - 1]));
        assert forall|i: int| 0 <= i < init.len() implies is_ascii_digit(#[trigger] init[i]) by {
            assert(init[i] == text[i]);
        }
        if n < text.len() {
            lemma_leading_digits(init, n);
            assert(init.take(n) =~= text.take(n));
        } else {
            lemma_leading_digits(init, init.len() as int);
            assert(init.take(init.len() as int) =~= init);
            assert(text.take(n) =~= text);
        }
    }
}

/// Parses a number that consists of digits.
pub fn parse_natural(text: &[char], limit: usize) -> (r: Option<usize>)
    ensures
        match spec_parse_natural(text@, limit as int) {
            Some(value) => r matches Some(v) && v == value,
            None => r is None,
        },
{
    if text.len() == 0 {
        return None;
    }
    // Digits first, so that it is clear how large the number is.
    let mut i: usize = 0;
    while i < text.len()
        invariant
            i <= text@.len(),
            forall|k: int| 0 <= k < i ==> is_ascii_digit(#[trigger] text@[k]),
        decreases text.len() - i,
    {
        if text[i] < '0' || text[i] > '9' {
            assert(!is_ascii_digit(text@[i as int]));
            return None;
        }
        i += 1;
    }
    let mut value: usize = 0;
    let mut k: usize = 0;
    assert(text@.take(0) =~= Seq::empty());
    while k < text.len()
        invariant
            k <= text@.len(),
            forall|k: int| 0 <= k < text@.len() ==> is_ascii_digit(#[trigger] text@[k]),
            value == numeral_value(text@.take(k as int)),
            value <= limit,
            is_numeral(text@),
        decreases text.len() - k,
    {
        proof {
            assert(is_ascii_digit(text@[k as int]));
            assert(text@.take(k + 1).drop_last() =~= text@.take(k as int));
            lemma_leading_digits(text@, k + 1);
        }
        let next: usize = (text[k] as u32 - 48) as usize;
        // Stop before the number gets too large.
        if value > limit / 10 {
            assert(10 * value > limit);
            return None;
        }
        if next > limit - 10 * value {
            return None;
        }
        value = 10 * value + next;
        k += 1;
    }
    assert(text@.take(k as int) =~= text@);
    Some(value)
}

/// The number that a text stands for, if it consists of digits, possibly
/// with a sign before them, and fits.
pub open spec fn spec_parse_signed(text: Seq<char>) -> Option<int> {
    if text.len() > 0 && text[0] == '-' {
        match spec_parse_natural(text.skip(1), -(i32::MIN as int)) {
            Some(value) => Some(-value),
            None => None,
        }
    } else if text.len() > 0 && text[0] == '+' {
        spec_parse_natural(text.skip(1), i32::MAX as int)
    } else {
        spec_parse_natural(text, i32::MAX as int)
    }
}

/// Parses a number that consists of digits, possibly with a sign before them.
pub fn parse_signed(text: &[char]) -> (r: Option<i32>)
    ensures
        match spec_parse_signed(text@) {
            Some(value) => r matches Some(v) && v == value,
            None => r is None,
        },
{
    if text.len() > 0 && (text[0] == '-' || text[0] == '+') {
        let is_negative = text[0] == '-';
        let rest = slice_subrange(text, 1, text.len());
        assert(rest@ =~= text@.skip(1));
        if is_negative {
            match parse_natural(rest, 0x8000_0000) {
                Some(value) => Some((-(value as i64)) as i32),
                None => None,
            }
        } else {
            match parse_natural(rest, 0x7fff_ffff) {
                Some(value) => Some(value as i32),
                None => None,
            }
        }
    } else {
        match parse_natural(text, 0x7fff_ffff) {
            Some(value) => Some(value as i32),
            None => None,
        }
    }
}

/// A number that was parsed fits.
pub proof fn lemma_signed_range(text: Seq<char>)
    ensures
        spec_parse_signed(text) matches Some(value) ==> i32::MIN <= value <= i32::MAX,
{
    let digits = if text.len() > 0 && (text[0] == '-' || text[0] == '+') {
        text.skip(1)
    } else {
        text
    };
    if is_numeral(digits) {
        lemma_leading_digits(digits, 0);
    }
}

/// A sign in front of digits decides on the sign of the number, and nothing
/// else. A number has every value that its digits can spell out, from the
/// least one to the greatest one.
pub proof fn law_signs(digits: Seq<char>)
    requires
        digits.len() > 0,
        forall|i: int| 0 <= i < digits.len() ==> '0' <= #[trigger] digits[i] <= '9',
    ensures
        ({
            let value = numeral_value(digits);
            &&& spec_parse_signed(digits) == if value <= 0x7fff_ffff {
                Some(value)
            } else {
                None
            }
            &&& spec_parse_signed(seq!['+'] + digits) == if value <= 0x7fff_ffff {
                Some(value)
            } else {
                None
            }
            &&& spec_parse_signed(seq!['-'] + digits) == if value <= 0x8000_0000 {
                Some(-value)
            } else {
                None
            }
        }),
{
    assert forall|i: int| 0 <= i < digits.len() implies is_ascii_digit(#[trigger] digits[i]) by {
        assert('0' <= digits[i] <= '9');
    }
    assert('0' <= digits[0] <= '9');
    assert((seq!['+'] + digits).skip(1) =~= digits);
    assert((seq!['-'] + digits).skip(1) =~= digits);
}

/// A further digit makes a number ten times as large, plus the digit. A
/// single digit is the number that it stands for.
pub proof fn law_digits(text: Seq<char>, c: char)
    requires
        '0' <= c <= '9',
    ensures
        numeral_value(seq![c]) == c as u32 - 48,
        text.len() > 0 ==> numeral_value(text.push(c)) == 10 * numeral_value(text) + numeral_value(
            seq![c],
        ),
{
    let empty = Seq::<char>::empty();
    assert(seq![c].drop_last() =~= empty);
    assert(numeral_value(empty) == 0);
    assert(text.push(c).drop_last() =~= text);
}

/// Only digits make a number, possibly behind a sign.
pub proof fn law_numbers_consist_of_digits(text: Seq<char>, i: int)
    requires
        0 <= i < text.len(),
        !('0' <= text[i] <= '9'),
        i > 0 || (text[0] != '-' && text[0] != '+') || text.len() == 1,
    ensures
        spec_parse_signed(text) is None,
{
    let is_signed = text[0] == '-' || text[0] == '+';
    if is_signed && i > 0 {
        assert(text.skip(1)[i - 1] == text[i]);
        assert(!is_ascii_digit(text.skip(1)[i - 1]));
    } else if !is_signed {
        assert(!is_ascii_digit(text[i]));
    }
}

/// Texts stand for all that they hold, in that order.
pub proof fn law_texts_stand_for_what_they_hold(list: Seq<Vec<char>>)
    ensures
        texts(list).len() == list.len(),
        forall|i: int| 0 <= i < list.len() ==> #[trigger] texts(list)[i] == list[i]@,
{
}

} // verus!
