//! What the text operations of the library mean, over sequences of characters.
use vstd::prelude::*;

verus! {

/// A text, as the characters it is made of.
pub type Text = Seq<char>;

/// The text of an optional string.
pub open spec fn optional(string: Option<String>) -> Option<Text> {
    match string {
        Some(string) => Some(string@),
        None => None,
    }
}

/// `pattern` stands in `text` at position `at`.
pub open spec fn occurs_at(text: Text, pattern: Text, at: int) -> bool {
    &&& 0 <= at
    &&& at + pattern.len() <= text.len()
    &&& text.subrange(at, at + pattern.len()) == pattern
}

/// `pattern` stands somewhere in `text`.
pub open spec fn contains(text: Text, pattern: Text) -> bool {
    exists|at: int| occurs_at(text, pattern, at)
}

/// `at` is the leftmost position of `pattern` in `text`.
pub open spec fn is_first_at(text: Text, pattern: Text, at: int) -> bool {
    &&& occurs_at(text, pattern, at)
    &&& forall|before: int| before < at ==> !occurs_at(text, pattern, before)
}

/// `at` is the rightmost position of `pattern` in `text`.
pub open spec fn is_last_at(text: Text, pattern: Text, at: int) -> bool {
    &&& occurs_at(text, pattern, at)
    &&& forall|behind: int| at < behind ==> !occurs_at(text, pattern, behind)
}

/// The leftmost position of `pattern` in `text`, if it occurs.
pub open spec fn find(text: Text, pattern: Text) -> Option<int> {
    if exists|at: int| is_first_at(text, pattern, at) {
        Some(choose|at: int| is_first_at(text, pattern, at))
    } else {
        None
    }
}

/// The rightmost position of `pattern` in `text`, if it occurs.
pub open spec fn rfind(text: Text, pattern: Text) -> Option<int> {
    if exists|at: int| is_last_at(text, pattern, at) {
        Some(choose|at: int| is_last_at(text, pattern, at))
    } else {
        None
    }
}

/// What stands before and behind the first `separator`.
pub open spec fn split_once(text: Text, separator: Text) -> Option<(Text, Text)> {
    match find(text, separator) {
        Some(at) => Some((text.take(at), text.skip(at + separator.len()))),
        None => None,
    }
}

/// What stands before and behind the last `separator`.
pub open spec fn rsplit_once(text: Text, separator: Text) -> Option<(Text, Text)> {
    match rfind(text, separator) {
        Some(at) => Some((text.take(at), text.skip(at + separator.len()))),
        None => None,
    }
}

/// `text` begins with `prefix`.
pub open spec fn starts_with(text: Text, prefix: Text) -> bool {
    occurs_at(text, prefix, 0)
}

/// `text` ends in `suffix`.
pub open spec fn ends_with(text: Text, suffix: Text) -> bool {
    occurs_at(text, suffix, text.len() - suffix.len())
}

/// `text` without `prefix`, where it begins with it; else `text` itself.
pub open spec fn without_prefix(text: Text, prefix: Text) -> Text {
    if starts_with(text, prefix) {
        text.skip(prefix.len() as int)
    } else {
        text
    }
}

/// The characters with Unicode's `White_Space` property.
pub open spec fn is_white_space(c: char) -> bool {
    ||| '\u{9}' <= c && c <= '\u{d}'
    ||| c == ' '
    ||| c == '\u{85}'
    ||| c == '\u{a0}'
    ||| c == '\u{1680}'
    ||| '\u{2000}' <= c && c <= '\u{200a}'
    ||| c == '\u{2028}'
    ||| c == '\u{2029}'
    ||| c == '\u{202f}'
    ||| c == '\u{205f}'
    ||| c == '\u{3000}'
}

/// The decimal digits of ASCII.
pub open spec fn is_digit(c: char) -> bool {
    '0' <= c && c <= '9'
}

/// White space, as a class of characters.
pub open spec fn blank() -> spec_fn(char) -> bool {
    |c: char| is_white_space(c)
}

/// Everything but white space, as a class of characters.
pub open spec fn visible() -> spec_fn(char) -> bool {
    |c: char| !is_white_space(c)
}

/// The decimal digits, as a class of characters.
pub open spec fn digit() -> spec_fn(char) -> bool {
    |c: char| is_digit(c)
}

/// How many characters at the front of `text` belong to `class`.
pub open spec fn leading(text: Text, class: spec_fn(char) -> bool) -> nat
    decreases text.len(),
{
    if text.len() > 0 && class(text.first()) {
        1 + leading(text.drop_first(), class)
    } else {
        0
    }
}

/// How many characters at the back of `text` belong to `class`.
pub open spec fn trailing(text: Text, class: spec_fn(char) -> bool) -> nat
    decreases text.len(),
{
    if text.len() > 0 && class(text.last()) {
        1 + trailing(text.drop_last(), class)
    } else {
        0
    }
}

/// `text` without the white space at its front.
pub open spec fn trim_start(text: Text) -> Text {
    text.skip(leading(text, blank()) as int)
}

/// `text` without the white space at its back.
pub open spec fn trim_end(text: Text) -> Text {
    text.take(text.len() - trailing(text, blank()))
}

/// `text` without the white space at both ends.
pub open spec fn trim(text: Text) -> Text {
    trim_end(trim_start(text))
}

/// The first run of visible characters, and what stands behind it.
pub open spec fn next_word(text: Text) -> Option<(Text, Text)> {
    let body = trim_start(text);
    if body.len() == 0 {
        None
    } else {
        let size = leading(body, visible()) as int;
        Some((body.take(size), body.skip(size)))
    }
}

/// One ASCII letter in lower case; every other character as it is.
pub open spec fn lower_char(c: char) -> char {
    if 'A' <= c && c <= 'Z' {
        ((c as u32) + 32) as char
    } else {
        c
    }
}

/// `text` with its ASCII letters in lower case.
pub open spec fn lower(text: Text) -> Text {
    text.map_values(|c: char| lower_char(c))
}

/// A line without the carriage return before its line feed.
pub open spec fn without_return(line: Text) -> Text {
    if line.len() > 0 && line.last() == '\r' {
        line.drop_last()
    } else {
        line
    }
}

/// The first line of `text`, without its ending, and the text behind it. A
/// line ends in a line feed, with or without a carriage return before it; the
/// last line needs no ending.
pub open spec fn next_line(text: Text) -> Option<(Text, Text)> {
    if text.len() == 0 {
        None
    } else {
        match split_once(text, seq!['\n']) {
            Some((line, rest)) => Some((without_return(line), rest)),
            None => Some((text, Seq::empty())),
        }
    }
}

/// The lines of `text`.
pub open spec fn lines(text: Text) -> Seq<Text>
    decreases text.len(),
    via lines_shrink
{
    match next_line(text) {
        Some((line, rest)) => seq![line] + lines(rest),
        None => Seq::empty(),
    }
}

#[via_fn]
proof fn lines_shrink(text: Text) {
    if text.len() > 0 {
        match find(text, seq!['\n']) {
            Some(at) => {
                assert(is_first_at(text, seq!['\n'], at));
            },
            None => {},
        }
    }
}

/// A leftmost position is the one that `find` gives.
pub proof fn lemma_found_first(text: Text, pattern: Text, at: int)
    requires
        is_first_at(text, pattern, at),
    ensures
        find(text, pattern) == Some(at),
{
    let found = choose|a: int| is_first_at(text, pattern, a);
    assert(is_first_at(text, pattern, found));
}

/// A rightmost position is the one that `rfind` gives.
pub proof fn lemma_found_last(text: Text, pattern: Text, at: int)
    requires
        is_last_at(text, pattern, at),
    ensures
        rfind(text, pattern) == Some(at),
{
    let found = choose|a: int| is_last_at(text, pattern, a);
    assert(is_last_at(text, pattern, found));
}

/// What `find` gives is a leftmost position; it gives none only where the
/// pattern does not occur.
pub proof fn lemma_find(text: Text, pattern: Text)
    ensures
        match find(text, pattern) {
            Some(at) => is_first_at(text, pattern, at),
            None => !contains(text, pattern),
        },
{
    if contains(text, pattern) {
        let at = choose|at: int| occurs_at(text, pattern, at);
        let first = lemma_leftmost(text, pattern, at);
        lemma_found_first(text, pattern, first);
    }
}

/// Some position at or before an occurrence is the leftmost.
proof fn lemma_leftmost(text: Text, pattern: Text, at: int) -> (first: int)
    requires
        occurs_at(text, pattern, at),
    ensures
        is_first_at(text, pattern, first),
    decreases at,
{
    if exists|before: int| before < at && occurs_at(text, pattern, before) {
        let before = choose|before: int| before < at && occurs_at(text, pattern, before);
        lemma_leftmost(text, pattern, before)
    } else {
        at
    }
}

/// A run of `size` characters of a class that nothing of the class follows is
/// the whole run at the front.
pub proof fn lemma_leading(text: Text, class: spec_fn(char) -> bool, size: int)
    requires
        0 <= size <= text.len(),
        forall|i: int| 0 <= i < size ==> class(#[trigger] text[i]),
        size < text.len() ==> !class(text[size]),
    ensures
        leading(text, class) == size,
    decreases text.len(),
{
    if size > 0 {
        let rest = text.drop_first();
        assert forall|i: int| 0 <= i < size - 1 implies class(#[trigger] rest[i]) by {
            assert(rest[i] == text[i + 1]);
        }
        lemma_leading(rest, class, size - 1);
    }
}

/// A run of `size` characters of a class that nothing of the class precedes is
/// the whole run at the back.
pub proof fn lemma_trailing(text: Text, class: spec_fn(char) -> bool, size: int)
    requires
        0 <= size <= text.len(),
        forall|i: int| text.len() - size <= i < text.len() ==> class(#[trigger] text[i]),
        size < text.len() ==> !class(text[text.len() - size - 1]),
    ensures
        trailing(text, class) == size,
    decreases text.len(),
{
    if size > 0 {
        let rest = text.drop_last();
        assert forall|i: int| rest.len() - (size - 1) <= i < rest.len() implies class(
            #[trigger] rest[i],
        ) by {
            assert(rest[i] == text[i]);
        }
        lemma_trailing(rest, class, size - 1);
    }
}

/// A run at the front is no longer than the text, and consists of the class.
pub proof fn lemma_leading_run(text: Text, class: spec_fn(char) -> bool)
    ensures
        leading(text, class) <= text.len(),
        forall|i: int| 0 <= i < leading(text, class) ==> class(#[trigger] text[i]),
        leading(text, class) < text.len() ==> !class(text[leading(text, class) as int]),
    decreases text.len(),
{
    if text.len() > 0 && class(text.first()) {
        let rest = text.drop_first();
        lemma_leading_run(rest, class);
        assert forall|i: int| 0 <= i < leading(text, class) implies class(#[trigger] text[i]) by {
            if i > 0 {
                assert(text[i] == rest[i - 1]);
            }
        }
    }
}

} // verus!
