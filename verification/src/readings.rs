//! What gdb writes is read as it was meant: the forms in which gdb writes
//! values, source lines, breakpoints and frames, and what is read from them.
use vstd::prelude::*;

use crate::gdb_output;
use crate::number;
use crate::text;
use crate::text::Text;

verus! {

// ---------------------------------------------------------------------------
// Texts that were put together
// ---------------------------------------------------------------------------

/// A separator that does not come again behind itself is the last.
pub proof fn lemma_last_separator(before: Text, separator: Text, behind: Text)
    requires
        separator.len() > 0,
        !text::contains(separator.skip(1) + behind, separator),
    ensures
        text::rsplit_once(before + separator + behind, separator) == Some((before, behind)),
{
    let whole = before + separator + behind;
    let at = before.len() as int;
    assert(whole.subrange(at, at + separator.len()) =~= separator);
    assert forall|other: int| at < other implies !text::occurs_at(whole, separator, other) by {
        if text::occurs_at(whole, separator, other) {
            let rest = separator.skip(1) + behind;
            let moved = other - at - 1;
            assert(rest.subrange(moved, moved + separator.len()) =~= whole.subrange(
                other,
                other + separator.len(),
            ));
            assert(text::occurs_at(rest, separator, moved));
        }
    }
    text::lemma_found_last(whole, separator, at);
    assert(whole.take(at) =~= before);
    assert(whole.skip(at + separator.len()) =~= behind);
}

/// A separator that does not come before itself is the first.
pub proof fn lemma_first_separator(before: Text, separator: Text, behind: Text)
    requires
        separator.len() > 0,
        !text::contains(before + separator.drop_last(), separator),
    ensures
        text::split_once(before + separator + behind, separator) == Some((before, behind)),
{
    let whole = before + separator + behind;
    let at = before.len() as int;
    assert(whole.subrange(at, at + separator.len()) =~= separator);
    assert forall|other: int| other < at implies !text::occurs_at(whole, separator, other) by {
        if text::occurs_at(whole, separator, other) {
            let front = before + separator.drop_last();
            assert(front.subrange(other, other + separator.len()) =~= whole.subrange(
                other,
                other + separator.len(),
            ));
            assert(text::occurs_at(front, separator, other));
        }
    }
    text::lemma_found_first(whole, separator, at);
    assert(whole.take(at) =~= before);
    assert(whole.skip(at + separator.len()) =~= behind);
}

/// A text that neither begins nor ends in white space.
pub open spec fn is_tight(text: Text) -> bool {
    &&& text.len() > 0
    &&& !text::is_white_space(text.first())
    &&& !text::is_white_space(text.last())
}

/// There is nothing to trim in such a text.
pub proof fn lemma_tight(text: Text)
    requires
        is_tight(text),
    ensures
        text::trim_start(text) == text,
        text::trim(text) == text,
{
    text::lemma_leading(text, text::blank(), 0);
    text::lemma_trailing(text, text::blank(), 0);
    assert(text.skip(0) =~= text);
    assert(text.take(text.len() as int) =~= text);
}

/// The digits of a number are not white space, and have none of some other
/// characters among them.
pub proof fn lemma_digits_only(value: nat)
    ensures
        number::decimal(value).len() > 0,
        number::all_digits(number::decimal(value)),
        is_tight(number::decimal(value)),
{
    number::lemma_decimal(value);
    let digits = number::decimal(value);
    assert(text::is_digit(digits[0]));
    assert(text::is_digit(digits[digits.len() - 1]));
}

// ---------------------------------------------------------------------------
// Values
// ---------------------------------------------------------------------------

/// What `print` says, such as `$1 = 42`, is read as the value.
pub proof fn law_values_read_back(name: Text, value: Text)
    requires
        name.len() > 0,
        !text::is_white_space(name.first()),
        !text::contains(name, "="@),
        is_tight(value),
    ensures
        gdb_output::gdb_value(name + " = "@ + value) == value,
{
    let whole = name + " = "@ + value;
    reveal_strlit(" = ");
    reveal_strlit("=");
    assert(whole.first() == name.first());
    assert(whole.last() == value.last());
    lemma_tight(whole);
    let before = name.push(' ');
    let behind = seq![' '] + value;
    assert(whole =~= before + "="@ + behind);
    assert forall|at: int| !text::occurs_at(before + "="@.drop_last(), "="@, at) by {
        if text::occurs_at(before + "="@.drop_last(), "="@, at) {
            assert((before + "="@.drop_last()).subrange(at, at + 1)[0] == '=');
            assert(name.subrange(at, at + 1) =~= "="@);
            assert(text::occurs_at(name, "="@, at));
        }
    }
    lemma_first_separator(before, "="@, behind);
    text::lemma_leading(behind, text::blank(), 1);
    assert(behind.skip(1) =~= value);
    lemma_tight(value);
}

/// The output of a command is read without the prompt before it and the white
/// space behind it.
pub proof fn law_output_reads_back(shown: Text, end: Text)
    requires
        is_tight(shown),
        forall|i: int| 0 <= i < end.len() ==> text::is_white_space(#[trigger] end[i]),
    ensures
        gdb_output::command_output("(gdb) "@ + shown + end) == Some(shown),
{
    reveal_strlit("(gdb) ");
    let whole = "(gdb) "@ + shown + end;
    text::lemma_leading(whole, text::blank(), 0);
    assert(whole.skip(0) =~= whole);
    text::lemma_trailing(whole, text::blank(), end.len() as int);
    let trimmed = "(gdb) "@ + shown;
    assert(text::trim(whole) =~= trimmed);
    assert(trimmed.subrange(0, 6) =~= "(gdb) "@);
    assert(trimmed.skip(6) =~= shown);
}

// ---------------------------------------------------------------------------
// Source lines and locations
// ---------------------------------------------------------------------------

/// A line of a listing is read as its number and its source, with all of its
/// indentation.
pub proof fn law_source_lines_read_back(line: u64, source: Text)
    ensures
        gdb_output::listed_line(number::decimal(line as nat) + seq!['\t'] + source) == Some(
            (line, source),
        ),
        gdb_output::listed_line(number::decimal(line as nat) + seq![' '] + source) == Some(
            (line, source),
        ),
{
    lemma_source_line(line, '\t', source);
    lemma_source_line(line, ' ', source);
}

proof fn lemma_source_line(line: u64, separator: char, source: Text)
    requires
        separator == '\t' || separator == ' ',
    ensures
        gdb_output::listed_line(number::decimal(line as nat) + seq![separator] + source) == Some(
            (line, source),
        ),
{
    let digits = number::decimal(line as nat);
    let whole = digits + seq![separator] + source;
    lemma_digits_only(line as nat);
    number::law_decimal_reads_back(line);
    text::lemma_leading(whole, text::blank(), 0);
    assert(whole.skip(0) =~= whole);
    assert forall|i: int| 0 <= i < digits.len() implies text::digit()(#[trigger] whole[i]) by {
        assert(whole[i] == digits[i]);
    }
    text::lemma_leading(whole, text::digit(), digits.len() as int);
    assert(whole.take(digits.len() as int) =~= digits);
    let rest = whole.skip(digits.len() as int);
    assert(rest =~= seq![separator] + source);
    assert(rest.skip(1) =~= source);
}

/// A location in the source is read as its path and its line.
pub proof fn law_locations_read_back(path: Text, line: u64)
    ensures
        gdb_output::location(path + ":"@ + number::decimal(line as nat)) == Some((path, line)),
{
    let digits = number::decimal(line as nat);
    lemma_digits_only(line as nat);
    number::law_decimal_reads_back(line);
    reveal_strlit(":");
    assert forall|at: int| !text::occurs_at(":"@.skip(1) + digits, ":"@, at) by {
        if text::occurs_at(":"@.skip(1) + digits, ":"@, at) {
            assert((":"@.skip(1) + digits).subrange(at, at + 1)[0] == ':');
            assert(text::is_digit(digits[at]));
        }
    }
    lemma_last_separator(path, ":"@, digits);
}

/// A location behind `at` is not broken by the line number in it.
pub proof fn lemma_last_at(before: Text, place: Text)
    requires
        !text::contains(" "@ + place, " at "@),
    ensures
        text::rsplit_once(before + " at "@ + place, " at "@) == Some((before, place)),
{
    reveal_strlit(" at ");
    reveal_strlit(" ");
    let rest = " at "@.skip(1) + place;
    let shorter = " "@ + place;
    assert forall|at: int| !text::occurs_at(rest, " at "@, at) by {
        if text::occurs_at(rest, " at "@, at) {
            assert(rest.subrange(at, at + 4)[0] == ' ');
            assert(rest[0] == 'a');
            assert(rest[1] == 't');
            assert(at >= 2);
            assert(shorter.subrange(at - 2, at + 2) =~= rest.subrange(at, at + 4));
            assert(text::occurs_at(shorter, " at "@, at - 2));
        }
    }
    lemma_last_separator(before, " at "@, place);
}

/// A row of the table of breakpoints, such as
/// `1  breakpoint keep y 0x1139 in main at src/main.c:10`, is read as its
/// number, its path and its line.
pub proof fn law_breakpoint_rows_read_back(id: Text, between: Text, path: Text, line: u64)
    requires
        id.len() > 0,
        gdb_output::is_breakpoint_id(id),
        between.len() > 0 ==> text::is_white_space(between.first()),
        path.len() > 0,
        !text::is_white_space(path.first()),
        !text::contains(" "@ + path, " at "@),
    ensures
        gdb_output::breakpoint_row(
            id + between + " at "@ + (path + ":"@ + number::decimal(line as nat)),
        ) == Some((id, path, line)),
{
    let digits = number::decimal(line as nat);
    let place = path + ":"@ + digits;
    let before = id + between;
    let whole = before + " at "@ + place;
    lemma_digits_only(line as nat);
    reveal_strlit(" at ");
    reveal_strlit(" ");
    reveal_strlit(":");
    assert(!text::is_white_space(id[0])) by {
        assert(text::is_digit(id[0]) || id[0] == '.');
    }
    assert(whole[0] == id[0]);
    text::lemma_leading(whole, text::blank(), 0);
    assert(whole.skip(0) =~= whole);

    let size = id.len() as int;
    assert forall|i: int| 0 <= i < size implies text::visible()(#[trigger] whole[i]) by {
        assert(whole[i] == id[i]);
        assert(text::is_digit(id[i]) || id[i] == '.');
    }
    assert(text::is_white_space(whole[size])) by {
        if between.len() > 0 {
            assert(whole[size] == between[0]);
        } else {
            assert(whole[size] == ' ');
        }
    }
    text::lemma_leading(whole, text::visible(), size);
    assert(whole.take(size) =~= id);

    let spaced = " "@ + place;
    assert forall|at: int| !text::occurs_at(spaced, " at "@, at) by {
        if text::occurs_at(spaced, " at "@, at) {
            let found = spaced.subrange(at, at + 4);
            assert(found[3] == ' ');
            assert(spaced[at + 3] == ' ');
            if at + 3 > path.len() {
                let tail = at + 3 - 1 - path.len();
                if tail > 0 {
                    assert(spaced[at + 3] == digits[tail - 1]);
                    assert(text::is_digit(digits[tail - 1]));
                }
            }
            assert((" "@ + path).subrange(at, at + 4) =~= found);
            assert(text::occurs_at(" "@ + path, " at "@, at));
        }
    }
    lemma_last_at(before, place);

    assert(place.first() == path.first());
    assert(place.last() == digits.last());
    lemma_tight(place);
    law_locations_read_back(path, line);
}

// ---------------------------------------------------------------------------
// Frames
// ---------------------------------------------------------------------------

/// The name of a function: a word without a parenthesis. (A function named
/// `in` cannot be told from the word that comes before names.)
pub open spec fn is_name(function: Text) -> bool {
    &&& function.len() > 0
    &&& forall|i: int|
        0 <= i < function.len() ==> !text::is_white_space(#[trigger] function[i]) && function[i]
            != '('
    &&& function != "in"@
}

/// What a frame gives behind its address: function, arguments and location.
pub open spec fn frame_text(function: Text, arguments: Text, place: Text) -> Text {
    function + seq![' '] + arguments + " at "@ + place
}

pub proof fn lemma_function(function: Text, behind: Text)
    requires
        is_name(function),
    ensures
        gdb_output::frame_function(function + seq![' '] + behind) == function,
{
    let rest = function + seq![' '] + behind;
    assert(rest[0] == function[0]);
    text::lemma_leading(rest, text::blank(), 0);
    assert(rest.skip(0) =~= rest);
    let size = function.len() as int;
    assert forall|i: int| 0 <= i < size implies text::visible()(#[trigger] rest[i]) by {
        assert(rest[i] == function[i]);
    }
    assert(rest[size] == ' ');
    text::lemma_leading(rest, text::visible(), size);
    assert(rest.take(size) =~= function);
    reveal_strlit("(");
    text::lemma_find(function, "("@);
    if text::find(function, "("@) is Some {
        let at = text::find(function, "("@)->0;
        assert(function.subrange(at, at + 1)[0] == '(');
        assert(function[at] == '(');
    }
}

proof fn lemma_frame(frame: u64, rest: Text, function: Text, arguments: Text, place: Text)
    requires
        rest.len() > 0,
        !text::is_white_space(rest.first()),
        is_name(function),
        is_tight(place),
        !text::contains(" "@ + place, " at "@),
        gdb_output::behind_address(rest) == frame_text(function, arguments, place),
        exists|front: Text| rest == #[trigger] (front + " at "@ + place),
    ensures
        gdb_output::frame_line("#"@ + number::decimal(frame as nat) + "  "@ + rest) == Some(
            (frame, function, place),
        ),
{
    let digits = number::decimal(frame as nat);
    let line = "#"@ + digits + "  "@ + rest;
    lemma_digits_only(frame as nat);
    number::law_decimal_reads_back(frame);
    reveal_strlit("#");
    reveal_strlit("  ");

    let section = digits + "  "@ + rest;
    assert(line =~= Seq::<char>::empty() + "#"@ + section);
    assert(!text::contains(Seq::<char>::empty() + "#"@.drop_last(), "#"@));
    lemma_first_separator(Seq::empty(), "#"@, section);

    let size = digits.len() as int;
    assert forall|i: int| 0 <= i < size implies text::digit()(#[trigger] section[i]) by {
        assert(section[i] == digits[i]);
    }
    assert(section[size] == ' ');
    text::lemma_leading(section, text::digit(), size);
    assert(section.take(size) =~= digits);
    let spaced = section.skip(size);
    assert(spaced =~= "  "@ + rest);
    text::lemma_leading(spaced, text::blank(), 2);
    assert(spaced.skip(2) =~= rest);

    assert(frame_text(function, arguments, place) =~= function + seq![' '] + (arguments + " at "@
        + place));
    lemma_function(function, arguments + " at "@ + place);

    let front = choose|front: Text| rest == #[trigger] (front + " at "@ + place);
    let before = "#"@ + digits + "  "@ + front;
    assert(line =~= before + " at "@ + place);
    lemma_last_at(before, place);
    lemma_tight(place);
}

/// A frame with an address, such as `#0  0x1139 in main (argc=1) at main.c:5`,
/// is read as its number, its function and its location.
pub proof fn law_frames_with_address_read_back(
    frame: u64,
    address: Text,
    function: Text,
    arguments: Text,
    place: Text,
)
    requires
        address.len() > 0,
        !text::is_white_space(address.first()),
        !text::contains(address + " in"@, " in "@),
        is_name(function),
        is_tight(place),
        !text::contains(" "@ + place, " at "@),
    ensures
        gdb_output::frame_line(
            "#"@ + number::decimal(frame as nat) + "  "@ + (address + " in "@ + frame_text(
                function,
                arguments,
                place,
            )),
        ) == Some((frame, function, place)),
{
    let behind = frame_text(function, arguments, place);
    let rest = address + " in "@ + behind;
    reveal_strlit(" in ");
    reveal_strlit(" in");
    assert(" in "@.drop_last() =~= " in"@);
    lemma_first_separator(address, " in "@, behind);
    assert(rest.first() == address.first());
    let front = address + " in "@ + (function + seq![' '] + arguments);
    assert(rest =~= front + " at "@ + place);
    lemma_frame(frame, rest, function, arguments, place);
}

/// A frame without an address, such as `#1  main (argc=1) at main.c:5`, is read
/// as its number, its function and its location.
pub proof fn law_frames_without_address_read_back(
    frame: u64,
    function: Text,
    arguments: Text,
    place: Text,
)
    requires
        is_name(function),
        is_tight(place),
        !text::contains(frame_text(function, arguments, place), " in "@),
        !text::contains(" "@ + place, " at "@),
    ensures
        gdb_output::frame_line(
            "#"@ + number::decimal(frame as nat) + "  "@ + frame_text(function, arguments, place),
        ) == Some((frame, function, place)),
{
    let rest = frame_text(function, arguments, place);
    text::lemma_find(rest, " in "@);
    if text::find(rest, " in "@) is Some {
        assert(text::occurs_at(rest, " in "@, text::find(rest, " in "@)->0));
    }
    assert(!text::starts_with(rest, "in "@)) by {
        reveal_strlit("in ");
        reveal_strlit("in");
        if text::starts_with(rest, "in "@) {
            assert forall|i: int| 0 <= i < 3 implies rest[i] == "in "@[i] by {
                assert(rest.subrange(0, 3)[i] == rest[i]);
            }
            if function.len() == 1 {
                assert(rest[1] == ' ');
            } else if function.len() == 2 {
                assert(rest[0] == function[0] && rest[1] == function[1]);
                assert(function =~= "in"@);
            } else {
                assert(rest[2] == function[2]);
            }
        }
    }
    assert(rest.first() == function.first());
    assert(rest =~= (function + seq![' '] + arguments) + " at "@ + place);
    lemma_frame(frame, rest, function, arguments, place);
}

// ---------------------------------------------------------------------------
// Whole outputs
// ---------------------------------------------------------------------------

/// A line of a listing gives this number and this source.
pub open spec fn lists(lines: Seq<Text>, i: int, line: u64, source: Text) -> bool {
    &&& 0 <= i < lines.len()
    &&& gdb_output::listed_line(lines[i]) == Some((line, source))
}

/// The source that is read from a listing is what its lines give, and no line
/// that gives a number is lost.
pub proof fn law_listings_are_read_whole(lines: Seq<Text>)
    ensures
        forall|line: u64|
            #[trigger] gdb_output::listed_lines(lines, Map::empty()).contains_key(line)
                ==> exists|i: int| #[trigger]
                lists(lines, i, line, gdb_output::listed_lines(lines, Map::empty())[line]),
        forall|i: int, line: u64, source: Text| #[trigger]
            lists(lines, i, line, source) ==> gdb_output::listed_lines(
                lines,
                Map::empty(),
            ).contains_key(line),
{
    lemma_listing(lines, Map::empty());
}

proof fn lemma_listing(lines: Seq<Text>, known: Map<u64, Text>)
    ensures
        forall|line: u64|
            #[trigger] gdb_output::listed_lines(lines, known).contains_key(line) ==> {
                ||| known.contains_key(line) && gdb_output::listed_lines(lines, known)[line]
                    == known[line]
                ||| exists|i: int| #[trigger]
                    lists(lines, i, line, gdb_output::listed_lines(lines, known)[line])
            },
        forall|line: u64| #[trigger]
            known.contains_key(line) ==> gdb_output::listed_lines(lines, known).contains_key(line),
        forall|i: int, line: u64, source: Text| #[trigger]
            lists(lines, i, line, source) ==> gdb_output::listed_lines(
                lines,
                known,
            ).contains_key(line),
    decreases lines.len(),
{
    if lines.len() > 0 {
        let rest = lines.drop_first();
        let more = match gdb_output::listed_line(lines.first()) {
            Some((number, source)) => known.insert(number, source),
            None => known,
        };
        lemma_listing(rest, more);
        let all = gdb_output::listed_lines(lines, known);
        assert(all == gdb_output::listed_lines(rest, more));
        assert forall|line: u64| #[trigger] all.contains_key(line) implies {
            ||| known.contains_key(line) && all[line] == known[line]
            ||| exists|i: int| #[trigger] lists(lines, i, line, all[line])
        } by {
            if exists|i: int| #[trigger] lists(rest, i, line, all[line]) {
                let i = choose|i: int| #[trigger] lists(rest, i, line, all[line]);
                assert(lists(lines, i + 1, line, all[line]));
            } else {
                assert(more.contains_key(line) && all[line] == more[line]);
                if !(known.contains_key(line) && all[line] == known[line]) {
                    assert(lists(lines, 0, line, all[line]));
                }
            }
        }
        assert forall|line: u64| #[trigger] known.contains_key(line) implies all.contains_key(
            line,
        ) by {
            assert(more.contains_key(line));
        }
        assert forall|i: int, line: u64, source: Text| #[trigger]
            lists(lines, i, line, source) implies all.contains_key(line) by {
            if i == 0 {
                assert(more.contains_key(line));
            } else {
                assert(lists(rest, i - 1, line, source));
            }
        }
    }
}

/// A row of the table of breakpoints gives a breakpoint of this number at this
/// location.
pub open spec fn tells_of(
    lines: Seq<Text>,
    i: int,
    id: Text,
    separator: char,
    codebase_dir: Text,
    filename: Text,
    linenumber: u64,
) -> bool {
    &&& 0 <= i < lines.len()
    &&& match gdb_output::breakpoint_row(lines[i]) {
        Some((number, path, line)) => number == id && line == linenumber && gdb_output::names_file(
            separator,
            codebase_dir,
            path,
            filename,
        ),
        None => false,
    }
}

/// The breakpoints that are found at a location are those that the table has
/// there: all of them, and no others.
pub proof fn law_breakpoints_are_found_by_their_location(
    lines: Seq<Text>,
    separator: char,
    codebase_dir: Text,
    filename: Text,
    linenumber: u64,
)
    ensures
        forall|id: Text|
            #[trigger] gdb_output::breakpoint_ids(
                lines,
                separator,
                codebase_dir,
                filename,
                linenumber,
            ).contains(id) <==> exists|i: int| #[trigger]
                tells_of(lines, i, id, separator, codebase_dir, filename, linenumber),
    decreases lines.len(),
{
    let ids = gdb_output::breakpoint_ids(lines, separator, codebase_dir, filename, linenumber);
    if lines.len() > 0 {
        let front = lines.drop_last();
        let known = gdb_output::breakpoint_ids(
            front,
            separator,
            codebase_dir,
            filename,
            linenumber,
        );
        let end = lines.len() - 1;
        law_breakpoints_are_found_by_their_location(
            front,
            separator,
            codebase_dir,
            filename,
            linenumber,
        );
        assert forall|id: Text| #[trigger] ids.contains(id) <==> exists|i: int| #[trigger]
            tells_of(lines, i, id, separator, codebase_dir, filename, linenumber) by {
            if ids.contains(id) {
                let at = choose|at: int| 0 <= at < ids.len() && ids[at] == id;
                if at < known.len() {
                    assert(known[at] == id);
                    assert(known.contains(id));
                    let i = choose|i: int| #[trigger]
                        tells_of(front, i, id, separator, codebase_dir, filename, linenumber);
                    assert(front[i] == lines[i]);
                    assert(tells_of(lines, i, id, separator, codebase_dir, filename, linenumber));
                } else {
                    assert(tells_of(lines, end, id, separator, codebase_dir, filename, linenumber));
                }
            }
            if exists|i: int| #[trigger]
                tells_of(lines, i, id, separator, codebase_dir, filename, linenumber) {
                let i = choose|i: int| #[trigger]
                    tells_of(lines, i, id, separator, codebase_dir, filename, linenumber);
                if i < end {
                    assert(front[i] == lines[i]);
                    assert(tells_of(front, i, id, separator, codebase_dir, filename, linenumber));
                    assert(known.contains(id));
                    let at = choose|at: int| 0 <= at < known.len() && known[at] == id;
                    assert(ids[at] == id);
                } else {
                    assert(ids[known.len() as int] == id);
                }
            }
        }
    }
}

/// A line gives this frame.
pub open spec fn gives_frame(lines: Seq<Text>, i: int, frame: u64, parts: (Text, Text)) -> bool {
    &&& 0 <= i < lines.len()
    &&& gdb_output::frame_line(lines[i]) == Some((frame, parts.0, parts.1))
}

/// Every frame that is read is given by a line.
pub proof fn law_frames_come_from_lines(lines: Seq<Text>, limit: nat)
    ensures
        forall|frame: u64|
            #[trigger] gdb_output::frames_of(lines, limit, Map::empty()).contains_key(frame)
                ==> exists|i: int| #[trigger]
                gives_frame(
                    lines,
                    i,
                    frame,
                    gdb_output::frames_of(lines, limit, Map::empty())[frame],
                ),
{
    lemma_frames(lines, limit, Map::empty());
}

proof fn lemma_frames(lines: Seq<Text>, limit: nat, known: Map<u64, (Text, Text)>)
    ensures
        forall|frame: u64|
            #[trigger] gdb_output::frames_of(lines, limit, known).contains_key(frame) ==> {
                ||| known.contains_key(frame) && gdb_output::frames_of(lines, limit, known)[frame]
                    == known[frame]
                ||| exists|i: int| #[trigger]
                    gives_frame(
                        lines,
                        i,
                        frame,
                        gdb_output::frames_of(lines, limit, known)[frame],
                    )
            },
    decreases lines.len(),
{
    if lines.len() > 0 && known.len() < limit {
        let rest = lines.drop_first();
        let more = match gdb_output::frame_line(lines.first()) {
            Some((number, function, place)) => known.insert(number, (function, place)),
            None => known,
        };
        lemma_frames(rest, limit, more);
        let all = gdb_output::frames_of(lines, limit, known);
        assert(all == gdb_output::frames_of(rest, limit, more));
        assert forall|frame: u64| #[trigger] all.contains_key(frame) implies {
            ||| known.contains_key(frame) && all[frame] == known[frame]
            ||| exists|i: int| #[trigger] gives_frame(lines, i, frame, all[frame])
        } by {
            if exists|i: int| #[trigger] gives_frame(rest, i, frame, all[frame]) {
                let i = choose|i: int| #[trigger] gives_frame(rest, i, frame, all[frame]);
                assert(gives_frame(lines, i + 1, frame, all[frame]));
            } else if !(known.contains_key(frame) && all[frame] == known[frame]) {
                assert(gives_frame(lines, 0, frame, all[frame]));
            }
        }
    }
}

} // verus!
