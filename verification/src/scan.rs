//! The text operations of the library, over slices of characters.
use vstd::prelude::*;
use vstd::slice::slice_subrange;

use crate::text;

verus! {

/// `String::push`: the character is appended, the rest stays.
pub assume_specification[ String::push ](string: &mut String, c: char)
    ensures
        final(string)@ == old(string)@.push(c),
;

/// The characters of a string.
pub fn chars_of(text: &str) -> (chars: Vec<char>)
    ensures
        chars@ == text@,
{
    let mut chars: Vec<char> = Vec::new();
    for c in it: text.chars()
        invariant
            it.seq() == text@,
            chars@ == text@.take(it.index()),
    {
        proof {
            text@.lemma_take_succ_push(it.index());
        }
        chars.push(c);
    }
    assert(text@.take(text@.len() as int) =~= text@);
    chars
}

/// The string of some characters.
pub fn text_of(chars: &[char]) -> (text: String)
    ensures
        text@ == chars@,
{
    let mut text = String::new();
    let mut i: usize = 0;
    while i < chars.len()
        invariant
            i <= chars.len(),
            text@ == chars@.take(i as int),
        decreases chars.len() - i,
    {
        proof {
            chars@.lemma_take_succ_push(i as int);
        }
        text.push(chars[i]);
        i += 1;
    }
    assert(chars@.take(i as int) =~= chars@);
    text
}

/// Whether two rows of characters are the same.
pub fn same(left: &[char], right: &[char]) -> (equal: bool)
    ensures
        equal == (left@ == right@),
{
    if left.len() != right.len() {
        return false;
    }
    let mut i: usize = 0;
    while i < left.len()
        invariant
            left.len() == right.len(),
            i <= left.len(),
            forall|j: int| 0 <= j < i ==> left@[j] == right@[j],
        decreases left.len() - i,
    {
        if left[i] != right[i] {
            return false;
        }
        i += 1;
    }
    assert(left@ =~= right@);
    true
}

/// Whether `pattern` stands in `text` at `at`.
pub fn stands_at(text: &[char], pattern: &[char], at: usize) -> (found: bool)
    ensures
        found == text::occurs_at(text@, pattern@, at as int),
{
    if at > text.len() || pattern.len() > text.len() - at {
        return false;
    }
    let mut i: usize = 0;
    while i < pattern.len()
        invariant
            at <= text.len(),
            pattern.len() <= text.len() - at,
            i <= pattern.len(),
            forall|j: int| 0 <= j < i ==> text@[at + j] == pattern@[j],
        decreases pattern.len() - i,
    {
        if text[at + i] != pattern[i] {
            proof {
                let part = text@.subrange(at as int, at + pattern@.len());
                assert(part[i as int] == text@[at + i]);
            }
            return false;
        }
        i += 1;
    }
    assert(text@.subrange(at as int, at + pattern@.len()) =~= pattern@);
    true
}

/// The leftmost position of `pattern`.
pub fn find_first(text: &[char], pattern: &[char]) -> (found: Option<usize>)
    ensures
        match found {
            Some(at) => text::find(text@, pattern@) == Some(at as int) && text::is_first_at(
                text@,
                pattern@,
                at as int,
            ),
            None => text::find(text@, pattern@) is None && !text::contains(text@, pattern@),
        },
{
    if pattern.len() > text.len() {
        return None;
    }
    let last: usize = text.len() - pattern.len();
    let mut at: usize = 0;
    loop
        invariant
            at <= last == text@.len() - pattern@.len(),
            forall|before: int| before < at ==> !text::occurs_at(text@, pattern@, before),
        decreases last - at,
    {
        if stands_at(text, pattern, at) {
            proof {
                text::lemma_found_first(text@, pattern@, at as int);
            }
            return Some(at);
        }
        if at == last {
            return None;
        }
        at += 1;
    }
}

/// The rightmost position of `pattern`.
pub fn find_last(text: &[char], pattern: &[char]) -> (found: Option<usize>)
    ensures
        match found {
            Some(at) => text::rfind(text@, pattern@) == Some(at as int) && text::is_last_at(
                text@,
                pattern@,
                at as int,
            ),
            None => text::rfind(text@, pattern@) is None && !text::contains(text@, pattern@),
        },
{
    if pattern.len() > text.len() {
        return None;
    }
    let mut at: usize = text.len() - pattern.len();
    loop
        invariant
            at <= text@.len() - pattern@.len(),
            forall|behind: int| at < behind ==> !text::occurs_at(text@, pattern@, behind),
        decreases at,
    {
        if stands_at(text, pattern, at) {
            proof {
                text::lemma_found_last(text@, pattern@, at as int);
            }
            return Some(at);
        }
        if at == 0 {
            return None;
        }
        at -= 1;
    }
}

/// Whether `text` contains `pattern`.
pub fn has(text: &[char], pattern: &str) -> (found: bool)
    ensures
        found == text::contains(text@, pattern@),
{
    find_first(text, chars_of(pattern).as_slice()).is_some()
}

/// Whether `text` begins with `prefix`.
pub fn begins(text: &[char], prefix: &str) -> (found: bool)
    ensures
        found == text::starts_with(text@, prefix@),
{
    stands_at(text, chars_of(prefix).as_slice(), 0)
}

/// Whether `text` ends in `suffix`.
pub fn ends(text: &[char], suffix: &[char]) -> (found: bool)
    ensures
        found == text::ends_with(text@, suffix@),
{
    suffix.len() <= text.len() && stands_at(text, suffix, text.len() - suffix.len())
}

/// The text behind position `at`.
pub fn from<'a>(text: &'a [char], at: usize) -> (rest: &'a [char])
    requires
        at <= text@.len(),
    ensures
        rest@ == text@.skip(at as int),
{
    let rest = slice_subrange(text, at, text.len());
    assert(rest@ =~= text@.skip(at as int));
    rest
}

/// The text before position `at`.
pub fn upto<'a>(text: &'a [char], at: usize) -> (front: &'a [char])
    requires
        at <= text@.len(),
    ensures
        front@ == text@.take(at as int),
{
    slice_subrange(text, 0, at)
}

/// What stands before and behind the first `separator`.
pub fn cut_first<'a>(text: &'a [char], separator: &str) -> (parts: Option<
    (&'a [char], &'a [char]),
>)
    ensures
        match parts {
            Some(parts) => text::split_once(text@, separator@) == Some((parts.0@, parts.1@)),
            None => text::split_once(text@, separator@) is None,
        },
{
    let pattern = chars_of(separator);
    match find_first(text, pattern.as_slice()) {
        Some(at) => {
            assert(at + pattern.len() <= text.len());
            Some((upto(text, at), from(text, at + pattern.len())))
        },
        None => None,
    }
}

/// What stands before and behind the last `separator`.
pub fn cut_last<'a>(text: &'a [char], separator: &str) -> (parts: Option<
    (&'a [char], &'a [char]),
>)
    ensures
        match parts {
            Some(parts) => text::rsplit_once(text@, separator@) == Some((parts.0@, parts.1@)),
            None => text::rsplit_once(text@, separator@) is None,
        },
{
    let pattern = chars_of(separator);
    match find_last(text, pattern.as_slice()) {
        Some(at) => {
            assert(at + pattern.len() <= text.len());
            Some((upto(text, at), from(text, at + pattern.len())))
        },
        None => None,
    }
}

/// The text without `prefix`, where it begins with it.
pub fn strip<'a>(text: &'a [char], prefix: &str) -> (rest: &'a [char])
    ensures
        rest@ == text::without_prefix(text@, prefix@),
{
    let pattern = chars_of(prefix);
    if stands_at(text, pattern.as_slice(), 0) {
        from(text, pattern.len())
    } else {
        text
    }
}

/// Whether a character is white space.
pub fn white_space(c: char) -> (yes: bool)
    ensures
        yes == text::is_white_space(c),
{
    ('\u{9}' <= c && c <= '\u{d}') || c == ' ' || c == '\u{85}' || c == '\u{a0}' || c == '\u{1680}'
        || ('\u{2000}' <= c && c <= '\u{200a}') || c == '\u{2028}' || c == '\u{2029}' || c
        == '\u{202f}' || c == '\u{205f}' || c == '\u{3000}'
}

/// The text without the white space at its front.
pub fn strip_start<'a>(text: &'a [char]) -> (rest: &'a [char])
    ensures
        rest@ == text::trim_start(text@),
{
    let mut size: usize = 0;
    while size < text.len() && white_space(text[size])
        invariant
            size <= text.len(),
            forall|i: int| 0 <= i < size ==> text::blank()(#[trigger] text@[i]),
        decreases text.len() - size,
    {
        size += 1;
    }
    proof {
        text::lemma_leading(text@, text::blank(), size as int);
    }
    from(text, size)
}

/// The text without the white space at its back.
pub fn strip_end<'a>(text: &'a [char]) -> (front: &'a [char])
    ensures
        front@ == text::trim_end(text@),
{
    let mut size: usize = text.len();
    while size > 0 && white_space(text[size - 1])
        invariant
            size <= text.len(),
            forall|i: int| size <= i < text@.len() ==> text::blank()(#[trigger] text@[i]),
        decreases size,
    {
        size -= 1;
    }
    proof {
        text::lemma_trailing(text@, text::blank(), text@.len() - size);
    }
    upto(text, size)
}

/// The text without the white space at both ends.
pub fn strip_both<'a>(text: &'a [char]) -> (middle: &'a [char])
    ensures
        middle@ == text::trim(text@),
{
    strip_end(strip_start(text))
}

/// How many digits stand at the front of the text.
pub fn count_digits(text: &[char]) -> (size: usize)
    ensures
        size == text::leading(text@, text::digit()),
        size <= text@.len(),
{
    let mut size: usize = 0;
    while size < text.len() && '0' <= text[size] && text[size] <= '9'
        invariant
            size <= text.len(),
            forall|i: int| 0 <= i < size ==> text::digit()(#[trigger] text@[i]),
        decreases text.len() - size,
    {
        size += 1;
    }
    proof {
        text::lemma_leading(text@, text::digit(), size as int);
    }
    size
}

/// The first run of visible characters, and what stands behind it.
pub fn cut_word<'a>(text: &'a [char]) -> (parts: Option<(&'a [char], &'a [char])>)
    ensures
        match parts {
            Some(parts) => text::next_word(text@) == Some((parts.0@, parts.1@)),
            None => text::next_word(text@) is None,
        },
{
    let body = strip_start(text);
    if body.len() == 0 {
        return None;
    }
    let mut size: usize = 0;
    while size < body.len() && !white_space(body[size])
        invariant
            size <= body.len(),
            forall|i: int| 0 <= i < size ==> text::visible()(#[trigger] body@[i]),
        decreases body.len() - size,
    {
        size += 1;
    }
    proof {
        text::lemma_leading(body@, text::visible(), size as int);
    }
    Some((upto(body, size), from(body, size)))
}

/// The text with its ASCII letters in lower case.
pub fn lowered(text: &[char]) -> (low: Vec<char>)
    ensures
        low@ == text::lower(text@),
{
    let mut low: Vec<char> = Vec::new();
    let mut i: usize = 0;
    while i < text.len()
        invariant
            i <= text.len(),
            low@ == text::lower(text@.take(i as int)),
        decreases text.len() - i,
    {
        let c = text[i];
        let d: char = if 'A' <= c && c <= 'Z' {
            (c as u8 + 32u8) as char
        } else {
            c
        };
        assert(d == text::lower_char(c));
        low.push(d);
        assert(low@ =~= text::lower(text@.take(i + 1)));
        i += 1;
    }
    assert(text@.take(i as int) =~= text@);
    low
}

/// The first line of the text, and what stands behind it.
pub fn cut_line<'a>(text: &'a [char]) -> (parts: Option<(&'a [char], &'a [char])>)
    ensures
        match parts {
            Some(parts) => text::next_line(text@) == Some((parts.0@, parts.1@)) && parts.1@.len()
                < text@.len(),
            None => text::next_line(text@) is None,
        },
{
    if text.len() == 0 {
        return None;
    }
    proof {
        reveal_strlit("\n");
        assert("\n"@ =~= seq!['\n']);
        text::lemma_find(text@, seq!['\n']);
    }
    match cut_first(text, "\n") {
        Some((line, rest)) => {
            if line.len() > 0 && line[line.len() - 1] == '\r' {
                Some((upto(line, line.len() - 1), rest))
            } else {
                Some((line, rest))
            }
        },
        None => Some((text, from(text, text.len()))),
    }
}

/// The lines of the text.
pub fn split_lines<'a>(text: &'a [char]) -> (parts: Vec<&'a [char]>)
    ensures
        parts@.len() == text::lines(text@).len(),
        forall|i: int| 0 <= i < parts@.len() ==> (#[trigger] parts@[i])@ == text::lines(text@)[i],
{
    let mut parts: Vec<&'a [char]> = Vec::new();
    let mut rest: &'a [char] = text;
    assert(text::lines(text@) =~= text::lines(text@).take(0) + text::lines(rest@));
    loop
        invariant
            parts@.len() <= text::lines(text@).len(),
            text::lines(text@) == text::lines(text@).take(parts@.len() as int) + text::lines(rest@),
            forall|i: int| 0 <= i < parts@.len() ==> (#[trigger] parts@[i])@ == text::lines(text@)[i],
        decreases rest@.len(),
    {
        match cut_line(rest) {
            Some((line, behind)) => {
                proof {
                    let all = text::lines(text@);
                    let done = parts@.len() as int;
                    assert(text::lines(rest@) == seq![line@] + text::lines(behind@));
                    assert(all[done] == line@);
                    assert(all =~= all.take(done + 1) + text::lines(behind@));
                }
                parts.push(line);
                rest = behind;
            },
            None => {
                assert(text::lines(rest@) =~= Seq::empty());
                return parts;
            },
        }
    }
}

} // verus!
