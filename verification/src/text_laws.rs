//! What the text operations give, in terms of how a text is put together.
use vstd::prelude::*;

use crate::number;
use crate::readings;
use crate::text;
use crate::text::Text;

verus! {

/// A text consists of white space.
pub open spec fn is_blank(text: Text) -> bool {
    forall|i: int| 0 <= i < text.len() ==> text::is_white_space(#[trigger] text[i])
}

/// A text has no line feed in it.
pub open spec fn is_one_line(text: Text) -> bool {
    forall|i: int| 0 <= i < text.len() ==> #[trigger] text[i] != '\n'
}

/// What is put together from texts without line feeds has none.
pub proof fn lemma_one_line(front: Text, back: Text)
    requires
        is_one_line(front),
        is_one_line(back),
    ensures
        is_one_line(front + back),
{
    assert forall|i: int| 0 <= i < (front + back).len() implies #[trigger] (front + back)[i]
        != '\n' by {
        if i < front.len() {
            assert((front + back)[i] == front[i]);
        } else {
            assert((front + back)[i] == back[i - front.len()]);
        }
    }
}

/// The white space is the tabs, line breaks and blanks of Unicode, and no
/// visible character of ASCII.
pub proof fn law_white_space(c: char)
    ensures
        c == ' ' || c == '\t' || c == '\n' || c == '\r' || c == '\u{a0}' || c == '\u{3000}'
            ==> text::is_white_space(c),
        '!' <= c && c <= '~' ==> !text::is_white_space(c),
{
}

/// A pattern is in a text if and only if the text is something, the pattern,
/// and something.
pub proof fn law_contains(text: Text, pattern: Text)
    ensures
        text::contains(text, pattern) <==> exists|front: Text, back: Text|
            text == #[trigger] (front + pattern + back),
{
    if text::contains(text, pattern) {
        let at = choose|at: int| text::occurs_at(text, pattern, at);
        let front = text.take(at);
        let back = text.skip(at + pattern.len());
        assert(text =~= front + pattern + back);
    }
    if exists|front: Text, back: Text| text == #[trigger] (front + pattern + back) {
        let (front, back) = choose|front: Text, back: Text|
            text == #[trigger] (front + pattern + back);
        law_parts_are_contained(front, pattern, back);
    }
}

/// What a text was put together from is in it.
pub proof fn law_parts_are_contained(front: Text, pattern: Text, back: Text)
    ensures
        text::contains(front + pattern + back, pattern),
{
    let whole = front + pattern + back;
    let at = front.len() as int;
    assert(whole.subrange(at, at + pattern.len()) =~= pattern);
    assert(text::occurs_at(whole, pattern, at));
}

/// A text that has a separator in it is cut at the leftmost one, and nothing of
/// it is lost.
pub proof fn law_first_cut(front: Text, separator: Text, back: Text)
    ensures
        match text::split_once(front + separator + back, separator) {
            Some((before, behind)) => {
                &&& before + separator + behind == front + separator + back
                &&& before.len() <= front.len()
            },
            None => false,
        },
{
    let whole = front + separator + back;
    law_parts_are_contained(front, separator, back);
    text::lemma_find(whole, separator);
    let at = text::find(whole, separator)->0;
    let here = front.len() as int;
    assert(whole.subrange(here, here + separator.len()) =~= separator);
    assert(text::occurs_at(whole, separator, here));
    assert(whole.take(at) + separator + whole.skip(at + separator.len()) =~= whole);
}

/// A text that has a separator in it is cut at the rightmost one, and nothing
/// of it is lost.
pub proof fn law_last_cut(front: Text, separator: Text, back: Text)
    ensures
        match text::rsplit_once(front + separator + back, separator) {
            Some((before, behind)) => {
                &&& before + separator + behind == front + separator + back
                &&& before.len() >= front.len()
            },
            None => false,
        },
{
    let whole = front + separator + back;
    let here = front.len() as int;
    assert(whole.subrange(here, here + separator.len()) =~= separator);
    assert(text::occurs_at(whole, separator, here));
    let last = lemma_rightmost(whole, separator, here);
    text::lemma_found_last(whole, separator, last);
    assert(whole.take(last) + separator + whole.skip(last + separator.len()) =~= whole);
}

/// Some position at or behind an occurrence is the rightmost.
proof fn lemma_rightmost(text: Text, pattern: Text, at: int) -> (last: int)
    requires
        text::occurs_at(text, pattern, at),
    ensures
        text::is_last_at(text, pattern, last),
        at <= last,
    decreases text.len() - at,
{
    if exists|behind: int| at < behind && text::occurs_at(text, pattern, behind) {
        let behind = choose|behind: int| at < behind && text::occurs_at(text, pattern, behind);
        lemma_rightmost(text, pattern, behind)
    } else {
        at
    }
}

/// A text without the separator is not cut.
pub proof fn law_no_cut(text: Text, separator: Text)
    requires
        !text::contains(text, separator),
    ensures
        text::split_once(text, separator) is None,
        text::rsplit_once(text, separator) is None,
{
    if exists|at: int| text::is_first_at(text, separator, at) {
        let at = choose|at: int| text::is_first_at(text, separator, at);
        assert(text::occurs_at(text, separator, at));
    }
    if exists|at: int| text::is_last_at(text, separator, at) {
        let at = choose|at: int| text::is_last_at(text, separator, at);
        assert(text::occurs_at(text, separator, at));
    }
}

/// A text that is cut is the two parts with the separator between them.
pub proof fn law_cuts_lose_nothing(text: Text, separator: Text)
    ensures
        text::split_once(text, separator) matches Some((before, behind)) ==> text == before
            + separator + behind,
        text::rsplit_once(text, separator) matches Some((before, behind)) ==> text == before
            + separator + behind,
{
    if text::split_once(text, separator) is Some {
        let at = text::find(text, separator)->0;
        assert(text::is_first_at(text, separator, at));
        assert(text =~= text.take(at) + separator + text.skip(at + separator.len()));
    }
    if text::rsplit_once(text, separator) is Some {
        let at = text::rfind(text, separator)->0;
        assert(text::is_last_at(text, separator, at));
        assert(text =~= text.take(at) + separator + text.skip(at + separator.len()));
    }
}

/// Trimming takes off the white space at the ends, all of it and nothing else.
pub proof fn law_trim(front: Text, middle: Text, back: Text)
    requires
        is_blank(front),
        readings::is_tight(middle),
        is_blank(back),
    ensures
        text::trim_start(front + middle + back) == middle + back,
        text::trim_end(front + middle + back) == front + middle,
        text::trim(front + middle + back) == middle,
{
    let whole = front + middle + back;
    let size = front.len() as int;
    assert(whole[size] == middle[0]);
    text::lemma_leading(whole, text::blank(), size);
    let rest = middle + back;
    assert(whole.skip(size) =~= rest);
    assert(rest[rest.len() - back.len() - 1] == middle.last());
    text::lemma_trailing(rest, text::blank(), back.len() as int);
    assert(rest.take(rest.len() - back.len()) =~= middle);
    assert(whole[whole.len() - back.len() - 1] == middle.last());
    text::lemma_trailing(whole, text::blank(), back.len() as int);
    assert(whole.take(whole.len() - back.len()) =~= front + middle);
}

/// Of white space nothing is left.
pub proof fn law_trim_of_blank(text: Text)
    requires
        is_blank(text),
    ensures
        text::trim_start(text).len() == 0,
        text::trim_end(text).len() == 0,
        text::trim(text).len() == 0,
{
    text::lemma_leading(text, text::blank(), text.len() as int);
    text::lemma_trailing(text, text::blank(), text.len() as int);
}

/// Every text is white space, or something tight with white space around it.
pub proof fn law_every_text_is_tight_within(text: Text) -> (parts: (Text, Text, Text))
    ensures
        is_blank(text) || (is_blank(parts.0) && readings::is_tight(parts.1) && is_blank(parts.2)
            && text == parts.0 + parts.1 + parts.2),
{
    text::lemma_leading_run(text, text::blank());
    let size = text::leading(text, text::blank()) as int;
    if size == text.len() {
        (text, text, text)
    } else {
        let front = text.take(size);
        let rest = text.skip(size);
        lemma_trailing_run(rest);
        let behind = text::trailing(rest, text::blank()) as int;
        assert(rest[0] == text[size]);
        if behind == rest.len() {
            assert(text::is_white_space(rest[0]));
        }
        let middle = rest.take(rest.len() - behind);
        let back = rest.skip(rest.len() - behind);
        assert(text =~= front + middle + back);
        (front, middle, back)
    }
}

proof fn lemma_trailing_run(text: Text)
    ensures
        text::trailing(text, text::blank()) <= text.len(),
        forall|i: int|
            text.len() - text::trailing(text, text::blank()) <= i < text.len()
                ==> text::is_white_space(#[trigger] text[i]),
        text::trailing(text, text::blank()) < text.len() ==> !text::is_white_space(
            text[text.len() - text::trailing(text, text::blank()) - 1],
        ),
    decreases text.len(),
{
    if text.len() > 0 && text::is_white_space(text.last()) {
        let rest = text.drop_last();
        lemma_trailing_run(rest);
        assert forall|i: int|
            text.len() - text::trailing(text, text::blank()) <= i < text.len()
                implies text::is_white_space(#[trigger] text[i]) by {
            if i < rest.len() {
                assert(text[i] == rest[i]);
            }
        }
    }
}

/// In lower case a text has the same characters, but for the capital letters of
/// ASCII, which are the small ones.
pub proof fn law_lower(text: Text)
    ensures
        text::lower(text).len() == text.len(),
        forall|i: int|
            0 <= i < text.len() ==> #[trigger] text::lower(text)[i] as int == (if 'A' <= text[i]
                && text[i] <= 'Z' {
                text[i] as int + 32
            } else {
                text[i] as int
            }),
{
}

/// Putting texts together and putting them in lower case can be exchanged.
pub proof fn law_lower_of_parts(front: Text, back: Text)
    ensures
        text::lower(front + back) == text::lower(front) + text::lower(back),
{
    assert(text::lower(front + back) =~= text::lower(front) + text::lower(back));
}

/// A text has no lines, or a first one, which ends in a line feed, or in a
/// carriage return and a line feed, or with the text.
pub proof fn law_lines(line: Text, rest: Text)
    requires
        is_one_line(line),
    ensures
        text::lines(Seq::empty()) == Seq::<Text>::empty(),
        line.len() > 0 ==> text::lines(line) == seq![line],
        line.len() == 0 || line.last() != '\r' ==> text::lines(line + seq!['\n'] + rest) == seq![
            line,
        ] + text::lines(rest),
        text::lines(line + seq!['\r', '\n'] + rest) == seq![line] + text::lines(rest),
{
    let feed: Text = seq!['\n'];
    assert(text::lines(Seq::empty()) == Seq::<Text>::empty());
    assert(!text::contains(line, feed)) by {
        if text::contains(line, feed) {
            let at = choose|at: int| text::occurs_at(line, feed, at);
            assert(line.subrange(at, at + 1)[0] == '\n');
            assert(line[at] == '\n');
        }
    }
    law_no_cut(line, feed);
    if line.len() > 0 {
        assert(text::lines(line) == seq![line] + text::lines(Seq::empty()));
        assert(text::lines(line) =~= seq![line]);
    }
    lemma_first_feed(line, rest);
    let returned = line.push('\r');
    assert(is_one_line(returned)) by {
        assert forall|i: int| 0 <= i < returned.len() implies #[trigger] returned[i] != '\n' by {
            if i < line.len() {
                assert(returned[i] == line[i]);
            }
        }
    }
    lemma_first_feed(returned, rest);
    assert(returned + feed + rest =~= line + seq!['\r', '\n'] + rest);
    assert(returned.drop_last() =~= line);
}

proof fn lemma_first_feed(line: Text, rest: Text)
    requires
        is_one_line(line),
    ensures
        text::next_line(line + seq!['\n'] + rest) == Some((text::without_return(line), rest)),
{
    let feed: Text = seq!['\n'];
    let whole = line + feed + rest;
    law_first_cut(line, feed, rest);
    let (before, behind) = text::split_once(whole, feed)->0;
    if before.len() < line.len() {
        assert((before + feed + behind)[before.len() as int] == '\n');
        assert(whole[before.len() as int] == line[before.len() as int]);
    }
    assert(before =~= whole.take(line.len() as int));
    assert(before =~= line);
    assert(behind =~= whole.skip((line.len() + 1) as int));
    assert(behind =~= rest);
}

/// The lines of a text that ends in a line feed and of the text behind it come
/// one after the other.
pub proof fn law_lines_of_two(front: Text, back: Text)
    requires
        front.len() == 0 || front.last() == '\n',
    ensures
        text::lines(front + back) == text::lines(front) + text::lines(back),
    decreases front.len(),
{
    if front.len() == 0 {
        assert(front + back =~= back);
        assert(text::lines(front) + text::lines(back) =~= text::lines(back));
    } else {
        let (line, rest) = lemma_first_line(front);
        law_lines_of_two(rest, back);
        lemma_first_feed(line, rest);
        lemma_first_feed(line, rest + back);
        let feed: Text = seq!['\n'];
        assert(front + back =~= line + feed + (rest + back));
        let shown = text::without_return(line);
        assert(text::lines(front + back) == seq![shown] + text::lines(rest + back));
        assert(text::lines(front) == seq![shown] + text::lines(rest));
        assert(seq![shown] + (text::lines(rest) + text::lines(back)) =~= (seq![shown]
            + text::lines(rest)) + text::lines(back));
    }
}

/// A text that ends in a line feed begins with a line.
proof fn lemma_first_line(text: Text) -> (parts: (Text, Text))
    requires
        text.len() > 0,
        text.last() == '\n',
    ensures
        is_one_line(parts.0),
        text == parts.0 + seq!['\n'] + parts.1,
        parts.1.len() < text.len(),
        parts.1.len() > 0 ==> parts.1.last() == '\n',
    decreases text.len(),
{
    if text[0] == '\n' {
        assert(text =~= Seq::<char>::empty() + seq!['\n'] + text.skip(1));
        (Seq::empty(), text.skip(1))
    } else {
        let tail = text.skip(1);
        assert(tail.last() == text.last());
        let (line, rest) = lemma_first_line(tail);
        let whole = seq![text[0]] + line;
        assert(text =~= whole + seq!['\n'] + rest) by {
            assert(text =~= seq![text[0]] + tail);
        }
        assert forall|i: int| 0 <= i < whole.len() implies #[trigger] whole[i] != '\n' by {
            if i > 0 {
                assert(whole[i] == line[i - 1]);
            }
        }
        (whole, rest)
    }
}

/// The first word of a text is what stands between white space.
pub proof fn law_first_word(front: Text, word: Text, back: Text)
    requires
        is_blank(front),
        word.len() > 0,
        forall|i: int| 0 <= i < word.len() ==> !text::is_white_space(#[trigger] word[i]),
        back.len() > 0 ==> text::is_white_space(back.first()),
    ensures
        text::next_word(front + word + back) == Some((word, back)),
{
    let whole = front + word + back;
    let size = front.len() as int;
    assert(whole[size] == word[0]);
    text::lemma_leading(whole, text::blank(), size);
    let body = word + back;
    assert(whole.skip(size) =~= body);
    assert forall|i: int| 0 <= i < word.len() implies text::visible()(#[trigger] body[i]) by {
        assert(body[i] == word[i]);
    }
    if back.len() > 0 {
        assert(body[word.len() as int] == back[0]);
    }
    text::lemma_leading(body, text::visible(), word.len() as int);
    assert(body.take(word.len() as int) =~= word);
    assert(body.skip(word.len() as int) =~= back);
}

/// White space has no words.
pub proof fn law_no_word(text: Text)
    requires
        is_blank(text),
    ensures
        text::next_word(text) is None,
{
    law_trim_of_blank(text);
}

/// A prefix is what a text begins with, and is taken off once.
pub proof fn law_prefix(prefix: Text, rest: Text)
    ensures
        text::starts_with(prefix + rest, prefix),
        text::without_prefix(prefix + rest, prefix) == rest,
{
    assert((prefix + rest).subrange(0, prefix.len() as int) =~= prefix);
    assert((prefix + rest).skip(prefix.len() as int) =~= rest);
}

/// A text that does not begin with the prefix stays as it is.
pub proof fn law_no_prefix(text: Text, prefix: Text)
    requires
        forall|rest: Text| text != #[trigger] (prefix + rest),
    ensures
        !text::starts_with(text, prefix),
        text::without_prefix(text, prefix) == text,
{
    if text::starts_with(text, prefix) {
        let rest = text.skip(prefix.len() as int);
        assert(text =~= prefix + rest);
    }
}

/// A suffix is what a text ends in.
pub proof fn law_suffix(text: Text, suffix: Text)
    ensures
        text::ends_with(text, suffix) <==> exists|front: Text| text == #[trigger] (front + suffix),
{
    if text::ends_with(text, suffix) {
        let front = text.take(text.len() - suffix.len());
        assert(text =~= front + suffix);
    }
    if exists|front: Text| text == #[trigger] (front + suffix) {
        let front = choose|front: Text| text == #[trigger] (front + suffix);
        assert(text.subrange(text.len() - suffix.len(), text.len() as int) =~= suffix);
    }
}

/// Zeros before a number, and one plus sign before these, do not change it.
pub proof fn law_numbers_read_back(value: u64, zeros: Text)
    requires
        forall|i: int| 0 <= i < zeros.len() ==> #[trigger] zeros[i] == '0',
    ensures
        number::parse_u64(zeros + number::decimal(value as nat)) == Some(value),
        number::parse_u64(seq!['+'] + (zeros + number::decimal(value as nat))) == Some(value),
{
    let digits = number::decimal(value as nat);
    let all = zeros + digits;
    number::lemma_decimal(value as nat);
    assert forall|i: int| 0 <= i < all.len() implies text::is_digit(#[trigger] all[i]) by {
        if i < zeros.len() {
            assert(all[i] == zeros[i]);
        } else {
            assert(all[i] == digits[i - zeros.len()]);
        }
    }
    lemma_zeros(zeros, digits);
    assert(text::is_digit(all[0]));
    assert((seq!['+'] + all).skip(1) =~= all);
}

proof fn lemma_zeros(zeros: Text, digits: Text)
    requires
        forall|i: int| 0 <= i < zeros.len() ==> #[trigger] zeros[i] == '0',
    ensures
        number::digits_value(zeros + digits) == number::digits_value(digits),
    decreases zeros.len() + digits.len(),
{
    let all = zeros + digits;
    if digits.len() > 0 {
        assert(all.drop_last() =~= zeros + digits.drop_last());
        lemma_zeros(zeros, digits.drop_last());
    } else if zeros.len() > 0 {
        assert(all.drop_last() =~= zeros.drop_last() + digits);
        assert(all.last() == '0');
        lemma_zeros(zeros.drop_last(), digits);
    }
}

/// A number of more than 64 bits is not read.
pub proof fn law_large_numbers_are_not_read(value: nat, zeros: Text)
    requires
        forall|i: int| 0 <= i < zeros.len() ==> #[trigger] zeros[i] == '0',
        value > 0xffff_ffff_ffff_ffff,
    ensures
        number::parse_u64(zeros + number::decimal(value)) is None,
        number::parse_u64(seq!['+'] + (zeros + number::decimal(value))) is None,
{
    let digits = number::decimal(value);
    let all = zeros + digits;
    number::lemma_decimal(value);
    lemma_zeros(zeros, digits);
    if zeros.len() > 0 {
        assert(all[0] == zeros[0]);
    } else {
        assert(text::is_digit(digits[0]));
        assert(all[0] == digits[0]);
    }
    assert((seq!['+'] + all).skip(1) =~= all);
}

/// A number is written in digits, the last of which is what is left of it by
/// tens, and without a zero before them.
pub proof fn law_decimal(tens: nat, ones: nat)
    requires
        ones < 10,
    ensures
        number::decimal(ones) == seq![(48 + ones) as char],
        tens > 0 ==> number::decimal(10 * tens + ones) == number::decimal(tens).push(
            (48 + ones) as char,
        ),
{
    if tens > 0 {
        let value = 10 * tens + ones;
        assert(value / 10 == tens && value % 10 == ones);
    }
}

/// What is read as a number has nothing but digits in it, behind at most one
/// plus sign.
pub proof fn law_only_numbers_are_read(text: Text)
    ensures
        number::parse_u64(text) is Some ==> {
            &&& text.len() > 0
            &&& text.last() != '+'
            &&& forall|i: int|
                0 <= i < text.len() ==> text::is_digit(#[trigger] text[i]) || (i == 0 && text[i]
                    == '+')
        },
{
    if number::parse_u64(text) is Some {
        let digits = if text[0] == '+' {
            text.skip(1)
        } else {
            text
        };
        assert(digits.last() == digits[digits.len() - 1]);
        assert(text.last() == digits.last());
        assert forall|i: int| 0 <= i < text.len() implies text::is_digit(#[trigger] text[i]) || (i
            == 0 && text[i] == '+') by {
            if text[0] == '+' {
                if i > 0 {
                    assert(text[i] == digits[i - 1]);
                }
            } else {
                assert(text[i] == digits[i]);
            }
        }
    }
}

} // verus!
