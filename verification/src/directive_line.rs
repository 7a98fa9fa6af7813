//! Lines of a config that hold a directive.

use vstd::prelude::*;
use vstd::slice::slice_subrange;

use crate::text::{self, is_text};

verus! {

/// What a directive is for.
#[derive(Clone, Copy, Debug, PartialEq, Eq, Structural)]
pub enum DirectiveKind {
    /// `bind`, `binde`, `bindm`, etc.
    Bind,
    /// `exec-once` or `execr-once`.
    ExecOnce,
    /// `exec-shutdown` or `execr-shutdown`.
    ExecShutdown,
    /// `submap`, which is stripped. The binds that follow it stay global.
    Submap,
    /// A directive that has no equivalent, and is stripped.
    StrippedUnsupported,
}

/// Whether a name is that of a directive: an identifier that starts with a
/// letter, and does not end in a colon like the keys of a regular config.
pub open spec fn is_directive_name(name: Seq<char>) -> bool {
    &&& name.len() > 0
    &&& text::is_ascii_letter(name[0])
    &&& forall|i: int| 0 <= i < name.len() ==> is_name_char(#[trigger] name[i])
    &&& name.last() != ':'
}

/// Whether a character may be part of the name of a directive.
pub open spec fn is_name_char(c: char) -> bool {
    text::is_ascii_letter(c) || text::is_ascii_digit(c) || c == '-' || c == '_' || c == ':'
}

/// Which quotes are open before the character at index `i`: single ones, and
/// double ones. Either of them hides the other one.
pub open spec fn open_quotes(value: Seq<char>, i: int) -> (bool, bool)
    decreases i,
{
    if i <= 0 {
        (false, false)
    } else {
        let (single, double) = open_quotes(value, i - 1);
        if value[i - 1] == '\'' && !double {
            (!single, double)
        } else if value[i - 1] == '"' && !single {
            (single, !double)
        } else {
            (single, double)
        }
    }
}

/// Whether a comment starts at index `i`, if none has started before.
pub open spec fn starts_comment(value: Seq<char>, i: int) -> bool {
    value[i] == '#' && open_quotes(value, i) == (false, false)
}

/// Where the first comment starts from index `i` on, or the length of the
/// value if there is none.
pub open spec fn comment_start(value: Seq<char>, i: int) -> int
    decreases value.len() - i,
{
    if i >= value.len() {
        value.len() as int
    } else if starts_comment(value, i) {
        i
    } else {
        comment_start(value, i + 1)
    }
}

/// A value without the comment that follows it.
pub open spec fn without_comment(value: Seq<char>) -> Seq<char> {
    let end = comment_start(value, 0);
    if end < value.len() {
        text::trimmed_end(value.take(end))
    } else {
        value
    }
}

/// Removes a trailing comment from a value. A `#` within quotes does not
/// start one.
pub fn strip_inline_comment(value: &[char]) -> (r: Vec<char>)
    ensures
        r@ == without_comment(value@),
{
    let mut in_single_quote = false;
    let mut in_double_quote = false;
    let mut i: usize = 0;
    while i < value.len()
        invariant
            i <= value@.len(),
            open_quotes(value@, i as int) == (in_single_quote, in_double_quote),
            comment_start(value@, 0) == comment_start(value@, i as int),
        decreases value.len() - i,
    {
        let c = value[i];
        if c == '\'' && !in_double_quote {
            in_single_quote = !in_single_quote;
        } else if c == '"' && !in_single_quote {
            in_double_quote = !in_double_quote;
        } else if c == '#' && !in_single_quote && !in_double_quote {
            assert(value@.subrange(0, i as int) =~= value@.take(i as int));
            return text::copied(text::trim_end(slice_subrange(value, 0, i)));
        }
        i += 1;
    }
    text::copied(value)
}

/// The name and the value of the directive on a line, if there is one.
pub open spec fn directive_on(line: Seq<char>) -> Option<(Seq<char>, Seq<char>)> {
    let content = text::trimmed_start(line);
    match content.index_of_first('=') {
        Some(index) => {
            let name = directive_name(content.take(index));
            let value = without_comment(text::trimmed(content.skip(index + 1)));
            if is_directive_name(name) && value.len() > 0 {
                Some((name, value))
            } else {
                None
            }
        },
        None => None,
    }
}

/// The name in front of an equals sign.
pub open spec fn directive_name(before: Seq<char>) -> Seq<char> {
    text::trimmed_end(before)
}

/// Whether a text is the name of a directive.
fn is_identifier(name: &[char]) -> (r: bool)
    ensures
        r == is_directive_name(name@),
{
    if name.len() == 0 {
        return false;
    }
    let first = name[0];
    let starts_with_letter = ('a' <= first && first <= 'z') || ('A' <= first && first <= 'Z');
    if !starts_with_letter || name[name.len() - 1] == ':' {
        return false;
    }
    let mut i: usize = 0;
    while i < name.len()
        invariant
            i <= name@.len(),
            forall|k: int| 0 <= k < i ==> is_name_char(#[trigger] name@[k]),
        decreases name.len() - i,
    {
        let c = name[i];
        let is_letter = ('a' <= c && c <= 'z') || ('A' <= c && c <= 'Z');
        let is_digit = '0' <= c && c <= '9';
        if !is_letter && !is_digit && c != '-' && c != '_' && c != ':' {
            assert(!is_name_char(name@[i as int]));
            return false;
        }
        i += 1;
    }
    true
}

/// Parses a line into the name and the value of a directive.
///
/// A directive is an identifier (e.g. `bind`, `exec-once`) that is followed
/// by an equals sign and a value. Lines of a regular config never match,
/// neither keys and items of a list nor lines that contain `=` within a
/// quoted value.
pub fn parse_directive_line(line: &[char]) -> (r: Option<(Vec<char>, Vec<char>)>)
    ensures
        match directive_on(line@) {
            Some((name, value)) => r matches Some((n, v)) && n@ == name && v@ == value,
            None => r is None,
        },
{
    let content = text::trim_start(line);
    let len = content.len();
    let index = match text::find(content, '=') {
        Some(index) => index,
        None => {
            return None;
        },
    };
    assert(content@.subrange(0, index as int) =~= content@.take(index as int));
    assert(content@.subrange(index + 1, content@.len() as int) =~= content@.skip(index + 1));
    let name = text::trim_end(slice_subrange(content, 0, index));
    if !is_identifier(name) {
        return None;
    }
    let value = strip_inline_comment(text::trim(slice_subrange(content, index + 1, len)));
    if value.len() == 0 {
        None
    } else {
        Some((text::copied(name), value))
    }
}

/// What a directive with the given name is for. Case does not matter.
pub open spec fn kind_of(name: Seq<char>) -> DirectiveKind {
    let lower_name = text::lowered(name);
    if text::spec_starts_with(lower_name, "bind"@) && lower_name != "bindings"@ {
        DirectiveKind::Bind
    } else if lower_name == "exec-once"@ || lower_name == "execr-once"@ {
        DirectiveKind::ExecOnce
    } else if lower_name == "exec-shutdown"@ || lower_name == "execr-shutdown"@ {
        DirectiveKind::ExecShutdown
    } else if lower_name == "submap"@ {
        DirectiveKind::Submap
    } else {
        DirectiveKind::StrippedUnsupported
    }
}

/// Tells what a directive with the given name is for.
pub fn classify_directive(name: &[char]) -> (kind: DirectiveKind)
    ensures
        kind == kind_of(name@),
{
    let lower = text::to_lower(name);
    let lower_name = lower.as_slice();
    if text::starts_with(lower_name, "bind") && !is_text(lower_name, "bindings") {
        DirectiveKind::Bind
    } else if is_text(lower_name, "exec-once") || is_text(lower_name, "execr-once") {
        DirectiveKind::ExecOnce
    } else if is_text(lower_name, "exec-shutdown") || is_text(lower_name, "execr-shutdown") {
        DirectiveKind::ExecShutdown
    } else if is_text(lower_name, "submap") {
        DirectiveKind::Submap
    } else {
        DirectiveKind::StrippedUnsupported
    }
}

/// White space at the end of a line makes no difference.
pub proof fn law_trailing_white_space_does_not_matter(line: Seq<char>, c: char)
    requires
        text::spec_is_whitespace(c),
    ensures
        directive_on(line.push(c)) == directive_on(line),
{
    let content = text::trimmed_start(line);
    let longer = text::trimmed_start(line.push(c));
    text::lemma_trimmed_start_push(line, c);
    content.index_of_first_ensures('=');
    longer.index_of_first_ensures('=');
    if content.len() > 0 {
        assert(longer == content.push(c));
        match content.index_of_first('=') {
            Some(index) => {
                assert(longer[index] == '=');
                let other = longer.index_of_first('=')->0;
                assert(longer.contains('='));
                assert(other == index) by {
                    if other < index {
                        assert(content[other] == longer[other]);
                    }
                }
                assert(longer.take(index) =~= content.take(index));
                let rest = content.skip(index + 1);
                assert(longer.skip(index + 1) =~= rest.push(c));
                text::lemma_trimmed_push(rest, c);
            },
            None => {
                if longer.contains('=') {
                    let k = choose|k: int| 0 <= k < longer.len() && longer[k] == '=';
                    if k < content.len() {
                        assert(content[k] == '=');
                    }
                }
            },
        }
    }
}

/// A blank line is no directive.
pub proof fn lemma_blank_line_is_no_directive()
    ensures
        directive_on(Seq::<char>::empty()) is None,
{
    let line = Seq::<char>::empty();
    line.index_of_first_ensures('=');
}

/// A line with a quote before its first equals sign is no directive, such as
/// a quoted value of a regular config that contains an equals sign.
pub proof fn law_quoted_values_are_no_directives(line: Seq<char>, quote: char, i: int)
    requires
        quote == '\'' || quote == '"',
        0 <= i < text::trimmed_start(line).len(),
        text::trimmed_start(line)[i] == quote,
        forall|k: int| 0 <= k < i ==> text::trimmed_start(line)[k] != '=',
    ensures
        directive_on(line) is None,
{
    let content = text::trimmed_start(line);
    content.index_of_first_ensures('=');
    if let Some(index) = content.index_of_first('=') {
        assert(i < index);
        let before = content.take(index);
        assert(before[i] == quote);
        text::lemma_trimmed_end_keeps(before, quote);
        let name = directive_name(before);
        let k = choose|k: int| 0 <= k < name.len() && name[k] == quote;
        assert(!is_name_char(name[k]));
    }
}

/// A directive starts with a letter: it is not indented by anything but
/// white space, and nothing stands in front of its name.
pub proof fn law_directives_start_with_a_letter(line: Seq<char>)
    ensures
        directive_on(line) is Some ==> text::trimmed_start(line).len() > 0
            && text::is_ascii_letter(text::trimmed_start(line)[0]),
{
    let content = text::trimmed_start(line);
    content.index_of_first_ensures('=');
    if let Some(index) = content.index_of_first('=') {
        let before = content.take(index);
        text::lemma_trimmed_end_first(before);
    }
}

/// Items of a list in a regular config, which a dash starts, are no
/// directives.
pub proof fn law_list_items_are_no_directives(line: Seq<char>)
    requires
        text::trimmed_start(line).len() > 0,
        text::trimmed_start(line)[0] == '-',
    ensures
        directive_on(line) is None,
{
    law_directives_start_with_a_letter(line);
}

/// Keys of a regular config, which a colon ends, are no directives.
pub proof fn law_config_keys_are_no_directives(name: Seq<char>)
    requires
        name.len() > 0,
        name.last() == ':',
    ensures
        !is_directive_name(name),
{
}

} // verus!
