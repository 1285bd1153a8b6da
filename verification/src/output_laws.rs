//! What is read from the outputs of gdb, in terms of how they are put together.
use vstd::prelude::*;

use crate::gdb_output;
use crate::number;
use crate::paths;
use crate::plan::Frames;
use crate::readings;
use crate::text;
use crate::text::Text;
use crate::text_laws;

verus! {

// ---------------------------------------------------------------------------
// Values and outputs of commands
// ---------------------------------------------------------------------------

proof fn lemma_part_lacks(front: Text, part: Text, back: Text, pattern: Text)
    requires
        !text::contains(front + part + back, pattern),
    ensures
        !text::contains(part, pattern),
{
    if text::contains(part, pattern) {
        let at = choose|at: int| text::occurs_at(part, pattern, at);
        assert(text::occurs_at(part, pattern, at));
        let whole = front + part + back;
        let there = front.len() + at;
        assert(whole.subrange(there, there + pattern.len()) =~= part.subrange(
            at,
            at + pattern.len(),
        ));
        assert(text::occurs_at(whole, pattern, there));
    }
}

/// The value is all that stands behind the first equals sign, without white
/// space around it.
pub proof fn law_values_are_whole(name: Text, value: Text)
    requires
        !text::contains(name, "="@),
    ensures
        gdb_output::gdb_value(name + "="@ + value) == text::trim(value),
{
    reveal_strlit("=");
    let empty = Seq::<char>::empty();
    let (f, m, b) = text_laws::law_every_text_is_tight_within(name);
    let blank_name = text_laws::is_blank(name);
    let front = if blank_name {
        name
    } else {
        f
    };
    let kept = if blank_name {
        empty
    } else {
        m + b
    };
    assert(name =~= front + kept);
    assert(name =~= front + kept + empty);
    lemma_part_lacks(front, kept, empty, "="@);
    let (vf, vm, vb) = text_laws::law_every_text_is_tight_within(value);
    let blank_value = text_laws::is_blank(value);
    let left = if blank_value {
        empty
    } else {
        vf + vm
    };
    let back = if blank_value {
        value
    } else {
        vb
    };
    assert(value =~= left + back);
    let middle = kept + "="@ + left;
    let whole = name + "="@ + value;
    assert(whole =~= front + middle + back);
    assert(middle.first() == if blank_name {
        '='
    } else {
        m.first()
    });
    assert(middle.last() == if blank_value {
        '='
    } else {
        vm.last()
    });
    text_laws::law_trim(front, middle, back);
    assert(!text::contains(kept + "="@.drop_last(), "="@)) by {
        assert(kept + "="@.drop_last() =~= kept);
    }
    readings::lemma_first_separator(kept, "="@, left);
    if blank_value {
        text_laws::law_trim_of_blank(value);
        text_laws::law_trim_of_blank(left);
        assert(text::trim(value) =~= text::trim(left));
    } else {
        text_laws::law_trim(vf, vm, vb);
        text_laws::law_trim(vf, vm, empty);
        assert(vf + vm + empty =~= left);
    }
}

/// Where there is no equals sign, the value is the output without white space
/// around it.
pub proof fn law_values_without_name(output: Text)
    requires
        !text::contains(output, "="@),
    ensures
        gdb_output::gdb_value(output) == text::trim(output),
{
    let (f, m, b) = text_laws::law_every_text_is_tight_within(output);
    if text_laws::is_blank(output) {
        text_laws::law_trim_of_blank(output);
        reveal_strlit("=");
        assert(!text::contains(text::trim(output), "="@));
    } else {
        text_laws::law_trim(f, m, b);
        lemma_part_lacks(f, m, b, "="@);
    }
    text_laws::law_no_cut(text::trim(output), "="@);
}

/// The output of a command is shown whole, without white space around it and
/// without one prompt before it; of white space nothing is shown.
pub proof fn law_outputs_are_whole(front: Text, shown: Text, back: Text)
    requires
        text_laws::is_blank(front),
        readings::is_tight(shown),
        text_laws::is_blank(back),
    ensures
        (forall|rest: Text| shown != #[trigger] ("(gdb) "@ + rest)) ==> gdb_output::command_output(
            front + shown + back,
        ) == Some(shown),
        gdb_output::command_output(front + ("(gdb) "@ + shown) + back) == Some(shown),
        gdb_output::command_output(front) is None,
{
    reveal_strlit("(gdb) ");
    text_laws::law_trim(front, shown, back);
    if forall|rest: Text| shown != #[trigger] ("(gdb) "@ + rest) {
        text_laws::law_no_prefix(shown, "(gdb) "@);
    }
    let prompted = "(gdb) "@ + shown;
    assert(prompted.first() == '(');
    assert(prompted.last() == shown.last());
    text_laws::law_trim(front, prompted, back);
    text_laws::law_prefix("(gdb) "@, shown);
    text_laws::law_trim_of_blank(front);
    assert(!text::starts_with(text::trim(front), "(gdb) "@));
}

// ---------------------------------------------------------------------------
// Places
// ---------------------------------------------------------------------------

/// A location is a path and a number with a colon between them, whatever else
/// is in the path; nothing else is one.
pub proof fn law_locations(path: Text, line: Text)
    requires
        !text::contains(line, ":"@),
    ensures
        gdb_output::location(path + ":"@ + line) == (match number::parse_u64(line) {
            Some(value) => Some((path, value)),
            None => None,
        }),
        gdb_output::location(line) is None,
{
    reveal_strlit(":");
    assert(":"@.skip(1) + line =~= line);
    readings::lemma_last_separator(path, ":"@, line);
    text_laws::law_no_cut(line, ":"@);
}

/// The place in a line is the location behind the first `at`.
pub proof fn law_places_in_lines(before: Text, place: Text)
    requires
        !text::contains(before + " at"@, " at "@),
    ensures
        gdb_output::place_in_line(before + " at "@ + place) == gdb_output::location(
            text::trim(place),
        ),
        gdb_output::place_in_line(before) is None,
{
    reveal_strlit(" at ");
    reveal_strlit(" at");
    assert(" at "@.drop_last() =~= " at"@);
    readings::lemma_first_separator(before, " at "@, place);
    assert(before + " at"@ =~= Seq::<char>::empty() + before + " at"@);
    lemma_part_lacks(Seq::empty(), before, " at"@, " at "@);
    text_laws::law_no_cut(before, " at "@);
}

/// The place of the program is that of the first line that gives one.
pub proof fn law_first_places(front: Seq<Text>, line: Text, back: Seq<Text>)
    requires
        forall|i: int|
            0 <= i < front.len() ==> gdb_output::place_in_line(#[trigger] front[i]) is None,
    ensures
        gdb_output::first_place(front) is None,
        gdb_output::place_in_line(line) is Some ==> gdb_output::first_place(
            front + seq![line] + back,
        ) == gdb_output::place_in_line(line),
    decreases front.len(),
{
    let all = front + seq![line] + back;
    if front.len() == 0 {
        assert(all.first() == line);
    } else {
        let rest = front.drop_first();
        assert forall|i: int| 0 <= i < rest.len() implies gdb_output::place_in_line(
            #[trigger] rest[i],
        ) is None by {
            assert(rest[i] == front[i + 1]);
        }
        law_first_places(rest, line, back);
        assert(front[0] == front.first());
        assert(all.first() == front.first());
        assert(all.drop_first() =~= rest + seq![line] + back);
    }
}

/// The frame that gdb shows, such as `#0  main () at src/main.c:10` and the
/// source line below it, gives its path and its line.
pub proof fn law_shown_frames_give_their_place(before: Text, path: Text, line: u64, behind: Text)
    requires
        text_laws::is_one_line(before),
        !text::contains(before + " at"@, " at "@),
        text_laws::is_one_line(path),
        path.len() > 0,
        !text::is_white_space(path.first()),
    ensures
        gdb_output::first_place(
            text::lines(
                before + " at "@ + (path + ":"@ + number::decimal(line as nat)) + seq!['\n']
                    + behind,
            ),
        ) == Some((path, line)),
{
    let shown = before + " at "@ + (path + ":"@ + number::decimal(line as nat));
    lemma_place_line(before, path, line);
    text_laws::law_lines(shown, behind);
    let empty = Seq::<Text>::empty();
    law_first_places(empty, shown, text::lines(behind));
    assert(empty + seq![shown] + text::lines(behind) =~= seq![shown] + text::lines(behind));
}

proof fn lemma_place_line(before: Text, path: Text, line: u64)
    requires
        text_laws::is_one_line(before),
        !text::contains(before + " at"@, " at "@),
        text_laws::is_one_line(path),
        path.len() > 0,
        !text::is_white_space(path.first()),
    ensures
        ({
            let shown = before + " at "@ + (path + ":"@ + number::decimal(line as nat));
            &&& text_laws::is_one_line(shown)
            &&& shown.len() > 0
            &&& shown.last() != '\r'
            &&& gdb_output::place_in_line(shown) == Some((path, line))
        }),
{
    let place = path + ":"@ + number::decimal(line as nat);
    assert(gdb_output::place_in_line(before + " at "@ + place) == Some((path, line))) by {
        lemma_place(path, line);
        law_places_in_lines(before, place);
    }
    lemma_behind_at(before, path, line);
}

proof fn lemma_behind_at(before: Text, path: Text, line: u64)
    requires
        text_laws::is_one_line(before),
        text_laws::is_one_line(path),
        path.len() > 0,
        !text::is_white_space(path.first()),
    ensures
        ({
            let shown = before + " at "@ + (path + ":"@ + number::decimal(line as nat));
            &&& text_laws::is_one_line(shown)
            &&& shown.len() > 0
            &&& shown.last() != '\r'
        }),
{
    let place = path + ":"@ + number::decimal(line as nat);
    lemma_place(path, line);
    reveal_strlit(" at ");
    text_laws::lemma_one_line(before, " at "@);
    text_laws::lemma_one_line(before + " at "@, place);
    assert((before + " at "@ + place).last() == place.last());
}

proof fn lemma_place(path: Text, line: u64)
    requires
        text_laws::is_one_line(path),
        path.len() > 0,
        !text::is_white_space(path.first()),
    ensures
        ({
            let place = path + ":"@ + number::decimal(line as nat);
            &&& text_laws::is_one_line(place)
            &&& place.len() > 0
            &&& place.last() != '\r'
            &&& gdb_output::location(text::trim(place)) == Some((path, line))
        }),
{
    let digits = number::decimal(line as nat);
    let place = path + ":"@ + digits;
    readings::lemma_digits_only(line as nat);
    reveal_strlit(":");
    assert(place.first() == path.first());
    assert(place.last() == digits.last());
    assert(text::is_digit(digits[digits.len() - 1]));
    readings::law_locations_read_back(path, line);
    readings::lemma_tight(place);
    assert forall|i: int| 0 <= i < digits.len() implies #[trigger] digits[i] != '\n' by {
        assert(text::is_digit(digits[i]));
    }
    text_laws::lemma_one_line(path, ":"@);
    text_laws::lemma_one_line(path + ":"@, digits);
}

// ---------------------------------------------------------------------------
// Listings
// ---------------------------------------------------------------------------

/// A line of a listing is a number, behind white space, and the source, behind
/// one tab or blank if there is one.
pub proof fn law_source_lines(indent: Text, digits: Text, rest: Text)
    requires
        text_laws::is_blank(indent),
        digits.len() > 0,
        number::all_digits(digits),
        rest.len() > 0 ==> !text::is_digit(rest.first()),
    ensures
        gdb_output::listed_line(indent + digits + rest) == (match number::parse_u64(digits) {
            Some(value) => Some(
                (
                    value,
                    if rest.len() > 0 && (rest.first() == '\t' || rest.first() == ' ') {
                        rest.drop_first()
                    } else {
                        rest
                    },
                ),
            ),
            None => None,
        }),
{
    let whole = indent + digits + rest;
    let size = indent.len() as int;
    assert(text::is_digit(digits[0]));
    assert(whole[size] == digits[0]);
    text::lemma_leading(whole, text::blank(), size);
    let body = digits + rest;
    assert(whole.skip(size) =~= body);
    let count = digits.len() as int;
    assert forall|i: int| 0 <= i < count implies text::digit()(#[trigger] body[i]) by {
        assert(body[i] == digits[i]);
    }
    if rest.len() > 0 {
        assert(body[count] == rest[0]);
    }
    text::lemma_leading(body, text::digit(), count);
    assert(body.take(count) =~= digits);
    assert(body.skip(count) =~= rest);
    assert(rest.skip(1) =~= rest.drop_first() || rest.len() == 0);
}

/// A line that does not begin with a digit, behind white space, is none of a
/// listing.
pub proof fn law_no_source_lines(indent: Text, rest: Text)
    requires
        text_laws::is_blank(indent),
        rest.len() > 0 ==> !text::is_digit(rest.first()) && !text::is_white_space(rest.first()),
    ensures
        gdb_output::listed_line(indent + rest) is None,
{
    let whole = indent + rest;
    let size = indent.len() as int;
    if rest.len() > 0 {
        assert(whole[size] == rest[0]);
    }
    text::lemma_leading(whole, text::blank(), size);
    assert(whole.skip(size) =~= rest);
    text::lemma_leading(rest, text::digit(), 0);
}

/// Of the lines of a listing that give the same number the last one counts.
pub proof fn law_last_source_line_counts(
    front: Seq<Text>,
    line: Text,
    back: Seq<Text>,
    number: u64,
    source: Text,
)
    requires
        gdb_output::listed_line(line) == Some((number, source)),
        forall|i: int|
            0 <= i < back.len() ==> (gdb_output::listed_line(#[trigger] back[i]) matches Some(
                (other, _),
            ) ==> other != number),
    ensures
        gdb_output::listed_lines(front + seq![line] + back, Map::empty()).contains_pair(
            number,
            source,
        ),
{
    lemma_last_source_line(front, line, back, number, source, Map::empty());
}

proof fn lemma_last_source_line(
    front: Seq<Text>,
    line: Text,
    back: Seq<Text>,
    number: u64,
    source: Text,
    known: Map<u64, Text>,
)
    requires
        gdb_output::listed_line(line) == Some((number, source)),
        forall|i: int|
            0 <= i < back.len() ==> (gdb_output::listed_line(#[trigger] back[i]) matches Some(
                (other, _),
            ) ==> other != number),
    ensures
        gdb_output::listed_lines(front + seq![line] + back, known).contains_pair(number, source),
    decreases front.len(),
{
    let all = front + seq![line] + back;
    let more = match gdb_output::listed_line(all.first()) {
        Some((number, source)) => known.insert(number, source),
        None => known,
    };
    if front.len() == 0 {
        assert(all.first() == line);
        assert(all.drop_first() =~= back);
        lemma_kept_source_line(back, number, source, more);
    } else {
        assert(all.drop_first() =~= front.drop_first() + seq![line] + back);
        lemma_last_source_line(front.drop_first(), line, back, number, source, more);
    }
}

proof fn lemma_kept_source_line(lines: Seq<Text>, line: u64, source: Text, known: Map<u64, Text>)
    requires
        known.contains_pair(line, source),
        forall|i: int|
            0 <= i < lines.len() ==> (gdb_output::listed_line(#[trigger] lines[i]) matches Some(
                (other, _),
            ) ==> other != line),
    ensures
        gdb_output::listed_lines(lines, known).contains_pair(line, source),
    decreases lines.len(),
{
    if lines.len() > 0 {
        let rest = lines.drop_first();
        assert(lines[0] == lines.first());
        assert forall|i: int| 0 <= i < rest.len() implies (gdb_output::listed_line(
            #[trigger] rest[i],
        ) matches Some((other, _)) ==> other != line) by {
            assert(rest[i] == lines[i + 1]);
        }
        let more = match gdb_output::listed_line(lines.first()) {
            Some((number, source)) => known.insert(number, source),
            None => known,
        };
        lemma_kept_source_line(rest, line, source, more);
    }
}

/// Joined source is each line with its number before it, by ascending numbers,
/// one below the other.
pub proof fn law_joined_source(front: Seq<(u64, Text)>, line: u64, source: Text)
    ensures
        gdb_output::shown_lines(Seq::empty()).len() == 0,
        gdb_output::shown_lines(seq![(line, source)]) == number::decimal(line as nat) + " | "@
            + source,
        front.len() > 0 ==> gdb_output::shown_lines(front.push((line, source)))
            == gdb_output::shown_lines(front) + seq!['\n'] + (number::decimal(line as nat) + " | "@
            + source),
{
    if front.len() > 0 {
        let all = front.push((line, source));
        assert(all.drop_last() =~= front);
        assert(gdb_output::shown_lines(all) =~= gdb_output::shown_lines(front) + seq!['\n'] + (
        number::decimal(line as nat) + " | "@ + source));
    }
}

/// The rows of a map that are in ascending order, and all there, are the order
/// in which its lines are joined.
pub proof fn law_source_is_in_order(code: Map<u64, Text>, rows: Seq<(u64, Text)>)
    requires
        forall|i: int, j: int|
            0 <= i < j < rows.len() ==> (#[trigger] rows[i]).0 < (#[trigger] rows[j]).0,
        forall|i: int|
            0 <= i < rows.len() ==> code.contains_pair((#[trigger] rows[i]).0, rows[i].1),
        forall|line: u64| #[trigger]
            code.contains_key(line) ==> exists|i: int|
                0 <= i < rows.len() && (#[trigger] rows[i]).0 == line,
    ensures
        gdb_output::in_order(code) == rows,
{
    gdb_output::lemma_order_is_unique(code, rows);
}

// ---------------------------------------------------------------------------
// Breakpoints
// ---------------------------------------------------------------------------

/// A path that gdb gives ends the path that is shown for it: an absolute one is
/// shown as it is, any other behind the directory of the code.
pub proof fn law_source_paths(codebase_dir: Text, path: Text)
    ensures
        path.len() > 0 && path.first() == '/' ==> gdb_output::source_path('/', codebase_dir, path)
            == path,
        path.len() == 0 || path.first() != '/' ==> {
            &&& codebase_dir.len() > 0 && codebase_dir.last() != '/' ==> gdb_output::source_path(
                '/',
                codebase_dir,
                path,
            ) == codebase_dir + seq!['/'] + path
            &&& codebase_dir.len() > 0 && codebase_dir.last() == '/' ==> gdb_output::source_path(
                '/',
                codebase_dir,
                path,
            ) == codebase_dir + path
            &&& codebase_dir.len() == 0 ==> gdb_output::source_path('/', codebase_dir, path)
                == path
        },
        text::ends_with(gdb_output::source_path('/', codebase_dir, path), path),
{
    let full = gdb_output::source_path('/', codebase_dir, path);
    assert(codebase_dir.push('/') + path =~= codebase_dir + seq!['/'] + path);
    assert(full.subrange(full.len() - path.len(), full.len() as int) =~= path);
    if codebase_dir.len() == 0 {
        assert(codebase_dir + path =~= path);
    }
}

/// The breakpoints of a table are those of its parts, in their order.
pub proof fn law_breakpoints_of_two(
    front: Seq<Text>,
    back: Seq<Text>,
    separator: char,
    codebase_dir: Text,
    filename: Text,
    linenumber: u64,
)
    ensures
        gdb_output::breakpoint_ids(front + back, separator, codebase_dir, filename, linenumber)
            == gdb_output::breakpoint_ids(front, separator, codebase_dir, filename, linenumber)
            + gdb_output::breakpoint_ids(back, separator, codebase_dir, filename, linenumber),
    decreases back.len(),
{
    let all = front + back;
    if back.len() == 0 {
        assert(all =~= front);
        assert(gdb_output::breakpoint_ids(front, separator, codebase_dir, filename, linenumber)
            + gdb_output::breakpoint_ids(back, separator, codebase_dir, filename, linenumber)
            =~= gdb_output::breakpoint_ids(front, separator, codebase_dir, filename, linenumber));
    } else {
        assert(all.drop_last() =~= front + back.drop_last());
        assert(all.last() == back.last());
        law_breakpoints_of_two(
            front,
            back.drop_last(),
            separator,
            codebase_dir,
            filename,
            linenumber,
        );
        assert(gdb_output::breakpoint_ids(all, separator, codebase_dir, filename, linenumber)
            =~= gdb_output::breakpoint_ids(front, separator, codebase_dir, filename, linenumber)
            + gdb_output::breakpoint_ids(back, separator, codebase_dir, filename, linenumber));
    }
}

/// A row counts, once, where its line is the given one and its full path is the
/// given file or ends in it.
pub proof fn law_breakpoints_of_one(
    row: Text,
    separator: char,
    codebase_dir: Text,
    filename: Text,
    linenumber: u64,
)
    ensures
        gdb_output::breakpoint_ids(seq![row], separator, codebase_dir, filename, linenumber) == (
        match gdb_output::breakpoint_row(row) {
            Some((id, path, line)) => if line == linenumber && (paths::same_path(
                separator,
                gdb_output::source_path(separator, codebase_dir, path),
                filename,
            ) || exists|front: Text|
                gdb_output::source_path(separator, codebase_dir, path) == #[trigger] (front
                    + filename)) {
                seq![id]
            } else {
                Seq::empty()
            },
            None => Seq::empty(),
        }),
{
    let ids = gdb_output::breakpoint_ids(seq![row], separator, codebase_dir, filename, linenumber);
    assert(seq![row].drop_last() =~= Seq::<Text>::empty());
    assert(gdb_output::breakpoint_ids(
        Seq::empty(),
        separator,
        codebase_dir,
        filename,
        linenumber,
    ) == Seq::<Text>::empty());
    match gdb_output::breakpoint_row(row) {
        Some((id, path, line)) => {
            text_laws::law_suffix(
                gdb_output::source_path(separator, codebase_dir, path),
                filename,
            );
            assert(Seq::<Text>::empty().push(id) =~= seq![id]);
        },
        None => {},
    }
}

/// A breakpoint is found by its line and by every ending of its full path.
pub proof fn law_breakpoints_are_found_by_endings(
    lines: Seq<Text>,
    i: int,
    id: Text,
    path: Text,
    line: u64,
    front: Text,
    filename: Text,
    separator: char,
    codebase_dir: Text,
)
    requires
        0 <= i < lines.len(),
        gdb_output::breakpoint_row(lines[i]) == Some((id, path, line)),
        gdb_output::source_path(separator, codebase_dir, path) == front + filename,
    ensures
        gdb_output::breakpoint_ids(
            lines,
            separator,
            codebase_dir,
            filename,
            line,
        ).contains(id),
{
    let ahead = lines.take(i);
    let here = seq![lines[i]];
    let behind = lines.skip(i + 1);
    assert(lines =~= ahead + here + behind);
    law_breakpoints_of_two(ahead + here, behind, separator, codebase_dir, filename, line);
    law_breakpoints_of_two(ahead, here, separator, codebase_dir, filename, line);
    law_breakpoints_of_one(lines[i], separator, codebase_dir, filename, line);
    let known = gdb_output::breakpoint_ids(ahead, separator, codebase_dir, filename, line);
    let ids = gdb_output::breakpoint_ids(lines, separator, codebase_dir, filename, line);
    assert(ids[known.len() as int] == id);
}

/// A breakpoint is found by its line and by its path as the table gives it, on
/// machines whose separator is a slash.
pub proof fn law_breakpoints_are_found_as_listed(
    lines: Seq<Text>,
    i: int,
    id: Text,
    path: Text,
    line: u64,
    codebase_dir: Text,
)
    requires
        0 <= i < lines.len(),
        gdb_output::breakpoint_row(lines[i]) == Some((id, path, line)),
    ensures
        gdb_output::breakpoint_ids(lines, '/', codebase_dir, path, line).contains(id),
{
    law_source_paths(codebase_dir, path);
    let full = gdb_output::source_path('/', codebase_dir, path);
    text_laws::law_suffix(full, path);
    let front = choose|front: Text| full == #[trigger] (front + path);
    law_breakpoints_are_found_by_endings(lines, i, id, path, line, front, path, '/', codebase_dir);
}

/// A row of the table is a word of digits and dots, something, `at` and a
/// location; all such rows are read, and no others.
pub proof fn law_rows(indent: Text, id: Text, between: Text, place: Text)
    requires
        text_laws::is_blank(indent),
        id.len() > 0,
        forall|i: int| 0 <= i < id.len() ==> !text::is_white_space(#[trigger] id[i]),
        between.len() > 0 ==> text::is_white_space(between.first()),
        !text::contains(" "@ + place, " at "@),
    ensures
        gdb_output::breakpoint_row(indent + (id + between + " at "@ + place)) == (if forall|i: int|
            0 <= i < id.len() ==> text::is_digit(#[trigger] id[i]) || id[i] == '.' {
            match gdb_output::location(text::trim(place)) {
                Some((path, line)) => Some((id, path, line)),
                None => None,
            }
        } else {
            None
        }),
{
    reveal_strlit(" at ");
    let body = id + between + " at "@ + place;
    let whole = indent + body;
    let size = indent.len() as int;
    assert(body[0] == id[0]);
    assert(whole[size] == id[0]);
    text::lemma_leading(whole, text::blank(), size);
    assert(whole.skip(size) =~= body);
    let rest = between + " at "@ + place;
    let empty = Seq::<char>::empty();
    assert(rest.first() == if between.len() > 0 {
        between.first()
    } else {
        ' '
    });
    text_laws::law_first_word(empty, id, rest);
    assert(body =~= empty + id + rest);
    readings::lemma_last_at(id + between, place);
}

/// A line without `at`, or of white space, is no row of the table.
pub proof fn law_no_rows(line: Text)
    requires
        !text::contains(line, " at "@) || text_laws::is_blank(line),
    ensures
        gdb_output::breakpoint_row(line) is None,
{
    text::lemma_leading_run(line, text::blank());
    let size = text::leading(line, text::blank()) as int;
    let rest = line.skip(size);
    if text_laws::is_blank(line) {
        text_laws::law_trim_of_blank(line);
        text_laws::law_no_word(rest);
    } else {
        assert(line =~= line.take(size) + rest + Seq::<char>::empty());
        lemma_part_lacks(line.take(size), rest, Seq::empty(), " at "@);
        text_laws::law_no_cut(rest, " at "@);
    }
}

/// What a row of the table gives stands in it: its first word is the number,
/// made of digits and dots, and behind its last `at` stand the path and the
/// line.
pub proof fn law_rows_hold_what_they_give(row: Text)
    ensures
        gdb_output::breakpoint_row(row) matches Some((id, path, line)) ==> {
            &&& text::next_word(row) matches Some((word, _)) && word == id
            &&& forall|i: int|
                0 <= i < id.len() ==> text::is_digit(#[trigger] id[i]) || id[i] == '.'
            &&& exists|front: Text, place: Text, digits: Text| #[trigger]
                is_row(row, path, line, front, place, digits)
        },
{
    if gdb_output::breakpoint_row(row) is Some {
        let (id, path, line) = gdb_output::breakpoint_row(row)->0;
        let trimmed = text::trim_start(row);
        lemma_trimmed_once(row);
        text_laws::law_cuts_lose_nothing(trimmed, " at "@);
        let (front, place) = text::rsplit_once(trimmed, " at "@)->0;
        let inner = text::trim(place);
        text_laws::law_cuts_lose_nothing(inner, ":"@);
        let digits = (text::rsplit_once(inner, ":"@)->0).1;
        assert(is_row(row, path, line, front, place, digits));
    }
}

/// A row is something, `at`, and a location.
pub open spec fn is_row(
    row: Text,
    path: Text,
    line: u64,
    front: Text,
    place: Text,
    digits: Text,
) -> bool {
    &&& text::trim_start(row) == front + " at "@ + place
    &&& text::trim(place) == path + ":"@ + digits
    &&& number::parse_u64(digits) == Some(line)
}

proof fn lemma_trimmed_once(text: Text)
    ensures
        text::trim_start(text::trim_start(text)) == text::trim_start(text),
{
    text::lemma_leading_run(text, text::blank());
    let size = text::leading(text, text::blank()) as int;
    let rest = text.skip(size);
    if rest.len() > 0 {
        assert(rest[0] == text[size]);
    }
    text::lemma_leading(rest, text::blank(), 0);
    assert(rest.skip(0) =~= rest);
}

/// The rows that are listed are those of the parts of the table, in their order.
pub proof fn law_rows_of_two(front: Seq<Text>, back: Seq<Text>)
    ensures
        gdb_output::breakpoint_table(front + back) == gdb_output::breakpoint_table(front)
            + gdb_output::breakpoint_table(back),
    decreases back.len(),
{
    let all = front + back;
    if back.len() == 0 {
        assert(all =~= front);
        assert(gdb_output::breakpoint_table(front) + gdb_output::breakpoint_table(back)
            =~= gdb_output::breakpoint_table(front));
    } else {
        assert(all.drop_last() =~= front + back.drop_last());
        assert(all.last() == back.last());
        law_rows_of_two(front, back.drop_last());
        assert(gdb_output::breakpoint_table(all) =~= gdb_output::breakpoint_table(front)
            + gdb_output::breakpoint_table(back));
    }
}

/// A line of the table is listed whole, without the white space at its end and
/// without one prompt at its front; a line of white space is not listed.
pub proof fn law_rows_are_whole(row: Text, end: Text)
    requires
        row.len() > 0,
        !text::is_white_space(row.last()),
        text_laws::is_blank(end),
    ensures
        (forall|rest: Text| row != #[trigger] ("(gdb) "@ + rest)) ==> gdb_output::breakpoint_table(
            seq![row + end],
        ) == seq![row],
        gdb_output::breakpoint_table(seq!["(gdb) "@ + row + end]) == seq![row],
        gdb_output::breakpoint_table(seq![end]) == Seq::<Text>::empty(),
{
    reveal_strlit("(gdb) ");
    let empty = Seq::<Text>::empty();
    assert(gdb_output::breakpoint_table(empty) == empty);
    lemma_end(row, end);
    assert(seq![row + end].drop_last() =~= empty);
    if forall|rest: Text| row != #[trigger] ("(gdb) "@ + rest) {
        text_laws::law_no_prefix(row, "(gdb) "@);
        assert(gdb_output::breakpoint_table(seq![row + end]) =~= seq![row]);
    }
    let prompted = "(gdb) "@ + row;
    assert(prompted.last() == row.last());
    lemma_end(prompted, end);
    assert(seq![prompted + end].drop_last() =~= empty);
    text_laws::law_prefix("(gdb) "@, row);
    assert(gdb_output::breakpoint_table(seq![prompted + end]) =~= seq![row]);
    text_laws::law_trim_of_blank(end);
    assert(seq![end].drop_last() =~= empty);
}

proof fn lemma_end(text: Text, end: Text)
    requires
        text.len() > 0,
        !text::is_white_space(text.last()),
        text_laws::is_blank(end),
    ensures
        text::trim_end(text + end) == text,
{
    let whole = text + end;
    assert(whole[whole.len() - end.len() - 1] == text.last());
    text::lemma_trailing(whole, text::blank(), end.len() as int);
    assert(whole.take(whole.len() - end.len()) =~= text);
}

// ---------------------------------------------------------------------------
// Frames
// ---------------------------------------------------------------------------

/// Every line with a number behind its first `#` gives the frame of that
/// number, whatever else it says; a line without one gives none.
pub proof fn law_frame_numbers(before: Text, digits: Text, rest: Text)
    requires
        !text::contains(before, "#"@),
        number::all_digits(digits),
        rest.len() > 0 ==> !text::is_digit(rest.first()),
    ensures
        match gdb_output::frame_line(before + "#"@ + (digits + rest)) {
            Some((frame, _, _)) => number::parse_u64(digits) == Some(frame),
            None => number::parse_u64(digits) is None,
        },
        gdb_output::frame_line(before) is None,
{
    reveal_strlit("#");
    assert(before + "#"@.drop_last() =~= before);
    let section = digits + rest;
    readings::lemma_first_separator(before, "#"@, section);
    let size = digits.len() as int;
    assert forall|i: int| 0 <= i < size implies text::digit()(#[trigger] section[i]) by {
        assert(section[i] == digits[i]);
    }
    if rest.len() > 0 {
        assert(section[size] == rest[0]);
    }
    text::lemma_leading(section, text::digit(), size);
    assert(section.take(size) =~= digits);
    text_laws::law_no_cut(before, "#"@);
}

/// The location of a frame is what stands behind the last `at`, without white
/// space around it; a frame without one has none.
pub proof fn law_frame_places(line: Text)
    ensures
        gdb_output::frame_line(line) matches Some((_, _, place)) ==> {
            &&& !text::contains(line, " at "@) ==> place.len() == 0
            &&& forall|front: Text, back: Text|
                line == #[trigger] (front + " at "@ + back) && !text::contains(
                    " "@ + back,
                    " at "@,
                ) ==> place == text::trim(back)
        },
{
    if gdb_output::frame_line(line) is Some {
        if !text::contains(line, " at "@) {
            text_laws::law_no_cut(line, " at "@);
        }
        let place = (gdb_output::frame_line(line)->0).2;
        assert forall|front: Text, back: Text|
            line == #[trigger] (front + " at "@ + back) && !text::contains(" "@ + back, " at "@)
                implies place == text::trim(back) by {
            readings::lemma_last_at(front, back);
        }
    }
}

/// What can stand behind the name of a function.
pub open spec fn is_behind_name(rest: Text) -> bool {
    rest.len() > 0 ==> text::is_white_space(rest.first()) || rest.first() == '('
}

/// The function of a frame with an address, such as
/// `#0  0x1139 in strlen () from /lib/libc.so.6`, is what stands behind `in`,
/// whatever comes behind it.
pub proof fn law_functions_behind_addresses(
    before: Text,
    digits: Text,
    blank: Text,
    address: Text,
    function: Text,
    rest: Text,
)
    requires
        !text::contains(before, "#"@),
        number::parse_u64(digits) is Some,
        number::all_digits(digits),
        text_laws::is_blank(blank),
        address.len() > 0,
        !text::is_white_space(address.first()),
        blank.len() == 0 ==> !text::is_digit(address.first()),
        !text::contains(address + " in"@, " in "@),
        readings::is_name(function),
        is_behind_name(rest),
    ensures
        gdb_output::frame_line(
            before + "#"@ + (digits + (blank + (address + " in "@ + (function + rest)))),
        ) matches Some((number, name, _)) && number::parse_u64(digits) == Some(number) && name
            == function,
{
    reveal_strlit(" in ");
    reveal_strlit(" in");
    assert(" in "@.drop_last() =~= " in"@);
    let behind = function + rest;
    readings::lemma_first_separator(address, " in "@, behind);
    lemma_name(function, rest);
    let body = address + " in "@ + behind;
    assert(body.first() == address.first());
    lemma_frame_function(before, digits, blank, body);
}

/// The function of a frame without an address, such as `#1  main (argc=1)`, is
/// its first word, up to a parenthesis.
pub proof fn law_functions_without_addresses(
    before: Text,
    digits: Text,
    blank: Text,
    function: Text,
    rest: Text,
)
    requires
        !text::contains(before, "#"@),
        number::parse_u64(digits) is Some,
        number::all_digits(digits),
        text_laws::is_blank(blank),
        blank.len() == 0 ==> !text::is_digit(function.first()),
        readings::is_name(function),
        is_behind_name(rest),
        !text::contains(function + rest, " in "@),
    ensures
        gdb_output::frame_line(before + "#"@ + (digits + (blank + (function + rest)))) matches Some(
            (number, name, _),
        ) && number::parse_u64(digits) == Some(number) && name == function,
{
    let body = function + rest;
    text_laws::law_no_cut(body, " in "@);
    assert forall|other: Text| body != #[trigger] ("in "@ + other) by {
        reveal_strlit("in ");
        reveal_strlit("in");
        if body == "in "@ + other {
            assert(body[0] == 'i' && body[1] == 'n' && body[2] == ' ');
            if function.len() == 1 {
                assert(body[1] == rest[0]);
            } else if function.len() == 2 {
                assert(body[0] == function[0] && body[1] == function[1]);
                assert(function =~= "in"@);
            } else {
                assert(body[2] == function[2]);
            }
        }
    }
    text_laws::law_no_prefix(body, "in "@);
    lemma_name(function, rest);
    assert(body.first() == function.first());
    lemma_frame_function(before, digits, blank, body);
}

/// A frame of which gdb says no more than its number has no known function.
pub proof fn law_functions_that_are_missing(before: Text, digits: Text, blank: Text)
    requires
        !text::contains(before, "#"@),
        number::parse_u64(digits) is Some,
        number::all_digits(digits),
        text_laws::is_blank(blank),
    ensures
        gdb_output::frame_line(before + "#"@ + (digits + blank)) matches Some((number, name, _))
            && number::parse_u64(digits) == Some(number) && name == "unknown"@,
{
    let empty = Seq::<char>::empty();
    reveal_strlit(" in ");
    reveal_strlit("in ");
    reveal_strlit("unknown");
    reveal_strlit("(");
    assert(blank + empty =~= blank);
    lemma_frame_function(before, digits, blank, empty);
    text_laws::law_no_cut(empty, " in "@);
    assert(!text::starts_with(empty, "in "@));
    text_laws::law_no_word(empty);
    assert(!text::contains("unknown"@, "("@)) by {
        if text::contains("unknown"@, "("@) {
            let at = choose|at: int| text::occurs_at("unknown"@, "("@, at);
            assert("unknown"@.subrange(at, at + 1)[0] == '(');
            assert("unknown"@[at] == '(');
        }
    }
    text_laws::law_no_cut("unknown"@, "("@);
}

/// The first run of visible characters of a text that begins with one.
proof fn lemma_word(text: Text) -> (parts: (Text, Text))
    requires
        text.len() > 0,
        !text::is_white_space(text.first()),
    ensures
        text == parts.0 + parts.1,
        parts.0.len() > 0,
        forall|i: int| 0 <= i < parts.0.len() ==> !text::is_white_space(#[trigger] parts.0[i]),
        parts.1.len() > 0 ==> text::is_white_space(parts.1.first()),
        text::next_word(text) == Some(parts),
{
    text::lemma_leading_run(text, text::visible());
    let size = text::leading(text, text::visible()) as int;
    let word = text.take(size);
    let back = text.skip(size);
    assert(text =~= word + back);
    assert forall|i: int| 0 <= i < word.len() implies !text::is_white_space(#[trigger] word[i]) by {
        assert(text::visible()(text[i]));
    }
    if size == 0 {
        assert(!text::visible()(text[0]));
    }
    if back.len() > 0 {
        assert(!text::visible()(text[size]));
        assert(back.first() == text[size]);
    }
    let empty = Seq::<char>::empty();
    text_laws::law_first_word(empty, word, back);
    assert(empty + word + back =~= text);
    (word, back)
}

proof fn lemma_name(function: Text, rest: Text)
    requires
        readings::is_name(function),
        is_behind_name(rest),
    ensures
        gdb_output::frame_function(function + rest) == function,
{
    let body = function + rest;
    let size = function.len() as int;
    assert(body.first() == function.first());
    let (word, back) = lemma_word(body);
    assert(word.len() >= size) by {
        if word.len() < size {
            assert(body[word.len() as int] == function[word.len() as int]);
            assert(back.first() == body[word.len() as int]);
        }
    }
    reveal_strlit("(");
    reveal_strlit("in");
    assert(!text::contains(function, "("@)) by {
        if text::contains(function, "("@) {
            let at = choose|at: int| text::occurs_at(function, "("@, at);
            assert(function.subrange(at, at + 1)[0] == '(');
            assert(function[at] == '(');
        }
    }
    assert forall|i: int| 0 <= i < size implies #[trigger] word[i] == function[i] by {
        assert((word + back)[i] == word[i]);
        assert(body[i] == function[i]);
    }
    if word.len() == size {
        assert(word =~= function);
        text_laws::law_no_cut(function, "("@);
    } else {
        assert(word[size] == body[size]);
        assert(body[size] == rest[0]);
        assert(!text::is_white_space(word[size]));
        assert(word[size] == '(');
        assert(word != "in"@);
        let more = word.skip(size + 1);
        assert(word =~= function + "("@ + more);
        assert(function + "("@.drop_last() =~= function);
        readings::lemma_first_separator(function, "("@, more);
    }
}

proof fn lemma_frame_function(before: Text, digits: Text, blank: Text, body: Text)
    requires
        !text::contains(before, "#"@),
        number::parse_u64(digits) is Some,
        number::all_digits(digits),
        text_laws::is_blank(blank),
        body.len() > 0 ==> !text::is_white_space(body.first()),
        body.len() > 0 && blank.len() == 0 ==> !text::is_digit(body.first()),
    ensures
        gdb_output::frame_line(before + "#"@ + (digits + (blank + body))) matches Some(
            (number, name, _),
        ) && number::parse_u64(digits) == Some(number) && name == gdb_output::frame_function(
            gdb_output::behind_address(body),
        ),
{
    let spaced = blank + body;
    reveal_strlit("#");
    if spaced.len() > 0 {
        if blank.len() > 0 {
            assert(spaced.first() == blank[0]);
        } else {
            assert(spaced.first() == body.first());
        }
        assert(!text::is_digit(spaced.first()));
    }
    law_frame_numbers(before, digits, spaced);
    let section = digits + spaced;
    assert(before + "#"@.drop_last() =~= before);
    readings::lemma_first_separator(before, "#"@, section);
    let size = digits.len() as int;
    assert forall|i: int| 0 <= i < size implies text::digit()(#[trigger] section[i]) by {
        assert(section[i] == digits[i]);
    }
    if spaced.len() > 0 {
        assert(section[size] == spaced[0]);
    }
    text::lemma_leading(section, text::digit(), size);
    assert(section.skip(size) =~= spaced);
    let gap = blank.len() as int;
    if body.len() > 0 {
        assert(spaced[gap] == body[0]);
    }
    text::lemma_leading(spaced, text::blank(), gap);
    assert(spaced.skip(gap) =~= body);
}

/// The frames of the first `size` lines: every line that gives a number has it
/// among the frames, every frame is what the last line gives that gives its
/// number, and nothing else is a frame.
pub open spec fn are_frames_of(lines: Seq<Text>, size: int, frames: Frames) -> bool {
    &&& forall|i: int, frame: u64, parts: (Text, Text)|
        i < size && #[trigger] readings::gives_frame(lines, i, frame, parts)
            ==> frames.contains_key(frame)
    &&& forall|frame: u64| #[trigger]
        frames.contains_key(frame) ==> exists|i: int|
            i < size && #[trigger] readings::gives_frame(lines, i, frame, frames[frame])
                && forall|j: int, parts: (Text, Text)|
                i < j < size ==> !#[trigger] readings::gives_frame(lines, j, frame, parts)
}

/// The frames of all lines, or of the shortest front of the lines that gives as
/// many frames as the limit.
pub open spec fn are_first_frames(lines: Seq<Text>, limit: nat, frames: Frames) -> bool {
    exists|size: int|
        0 <= size <= lines.len() && #[trigger] are_frames_of(lines, size, frames) && (size
            == lines.len() || frames.len() >= limit) && (forall|less: int, fewer: Frames|
            0 <= less < size && #[trigger] are_frames_of(lines, less, fewer) ==> fewer.len()
                < limit)
}

/// No frame is lost: the frames that are read are those of all lines, or of the
/// shortest front of the lines that gives as many frames as the limit.
pub proof fn law_no_frame_is_lost(lines: Seq<Text>, limit: nat)
    ensures
        are_first_frames(lines, limit, gdb_output::frames_of(lines, limit, Map::empty())),
{
    let empty = Map::<u64, (Text, Text)>::empty();
    assert(lines.skip(0) =~= lines);
    assert(are_frames_of(lines, 0, empty));
    lemma_frames_read(lines, 0, limit, empty);
}

/// Where there are fewer frames than the limit, every line that gives a frame
/// has it among them.
pub proof fn law_few_frames_are_all(
    lines: Seq<Text>,
    limit: nat,
    i: int,
    frame: u64,
    parts: (Text, Text),
)
    requires
        gdb_output::frames_of(lines, limit, Map::empty()).len() < limit,
        readings::gives_frame(lines, i, frame, parts),
    ensures
        gdb_output::frames_of(lines, limit, Map::empty()).contains_key(frame),
{
    law_no_frame_is_lost(lines, limit);
    let frames = gdb_output::frames_of(lines, limit, Map::empty());
    let size = choose|size: int|
        0 <= size <= lines.len() && #[trigger] are_frames_of(lines, size, frames) && (size
            == lines.len() || frames.len() >= limit) && (forall|less: int, fewer: Frames|
            0 <= less < size && #[trigger] are_frames_of(lines, less, fewer) ==> fewer.len()
                < limit);
    assert(are_frames_of(lines, size, frames));
}

proof fn lemma_frames_are_unique(lines: Seq<Text>, size: int, a: Frames, b: Frames)
    requires
        are_frames_of(lines, size, a),
        are_frames_of(lines, size, b),
    ensures
        a == b,
{
    assert forall|frame: u64| a.contains_key(frame) implies b.contains_key(frame) && a[frame]
        == b[frame] by {
        lemma_frame_agrees(lines, size, a, b, frame);
    }
    assert forall|frame: u64| b.contains_key(frame) implies a.contains_key(frame) by {
        lemma_frame_agrees(lines, size, b, a, frame);
    }
    assert(a =~= b);
}

proof fn lemma_frame_agrees(lines: Seq<Text>, size: int, a: Frames, b: Frames, frame: u64)
    requires
        are_frames_of(lines, size, a),
        are_frames_of(lines, size, b),
        a.contains_key(frame),
    ensures
        b.contains_key(frame),
        a[frame] == b[frame],
{
    let i = choose|i: int|
        i < size && #[trigger] readings::gives_frame(lines, i, frame, a[frame]) && forall|
            j: int,
            parts: (Text, Text),
        |
            i < j < size ==> !#[trigger] readings::gives_frame(lines, j, frame, parts);
    assert(readings::gives_frame(lines, i, frame, a[frame]));
    assert(b.contains_key(frame));
    let k = choose|k: int|
        k < size && #[trigger] readings::gives_frame(lines, k, frame, b[frame]) && forall|
            j: int,
            parts: (Text, Text),
        |
            k < j < size ==> !#[trigger] readings::gives_frame(lines, j, frame, parts);
    assert(readings::gives_frame(lines, k, frame, b[frame]));
    if i < k {
        assert(!readings::gives_frame(lines, k, frame, b[frame]));
    } else if k < i {
        assert(!readings::gives_frame(lines, i, frame, a[frame]));
    }
}

proof fn lemma_frames_read(lines: Seq<Text>, size: int, limit: nat, known: Frames)
    requires
        0 <= size <= lines.len(),
        known.dom().finite(),
        are_frames_of(lines, size, known),
        forall|less: int, fewer: Frames|
            0 <= less < size && #[trigger] are_frames_of(lines, less, fewer) ==> fewer.len()
                < limit,
    ensures
        exists|all: int|
            0 <= all <= lines.len() && #[trigger] are_frames_of(
                lines,
                all,
                gdb_output::frames_of(lines.skip(size), limit, known),
            ) && (all == lines.len() || gdb_output::frames_of(lines.skip(size), limit, known).len()
                >= limit) && (forall|less: int, fewer: Frames|
                0 <= less < all && #[trigger] are_frames_of(lines, less, fewer) ==> fewer.len()
                    < limit),
    decreases lines.len() - size,
{
    let rest = lines.skip(size);
    if size == lines.len() || known.len() >= limit {
        assert(gdb_output::frames_of(rest, limit, known) == known);
        assert(are_frames_of(lines, size, gdb_output::frames_of(rest, limit, known)));
    } else {
        assert(rest.first() == lines[size]);
        assert(rest.drop_first() =~= lines.skip(size + 1));
        let more = match gdb_output::frame_line(rest.first()) {
            Some((number, function, place)) => known.insert(number, (function, place)),
            None => known,
        };
        lemma_next_frame(lines, size, known, more);
        assert forall|less: int, fewer: Frames|
            0 <= less < size + 1 && #[trigger] are_frames_of(lines, less, fewer) implies fewer.len()
            < limit by {
            if less == size {
                lemma_frames_are_unique(lines, size, fewer, known);
            }
        }
        lemma_frames_read(lines, size + 1, limit, more);
        assert(gdb_output::frames_of(rest, limit, known) == gdb_output::frames_of(
            lines.skip(size + 1),
            limit,
            more,
        ));
    }
}

proof fn lemma_next_frame(lines: Seq<Text>, size: int, known: Frames, more: Frames)
    requires
        0 <= size < lines.len(),
        are_frames_of(lines, size, known),
        more == (match gdb_output::frame_line(lines[size]) {
            Some((number, function, place)) => known.insert(number, (function, place)),
            None => known,
        }),
    ensures
        are_frames_of(lines, size + 1, more),
{
    assert forall|i: int, frame: u64, parts: (Text, Text)|
        i < size + 1 && #[trigger] readings::gives_frame(lines, i, frame, parts)
            implies more.contains_key(frame) by {
        if i < size {
            assert(known.contains_key(frame));
        }
    }
    assert forall|frame: u64| #[trigger] more.contains_key(frame) implies exists|i: int|
        i < size + 1 && #[trigger] readings::gives_frame(lines, i, frame, more[frame]) && forall|
            j: int,
            parts: (Text, Text),
        |
            i < j < size + 1 ==> !#[trigger] readings::gives_frame(lines, j, frame, parts) by {
        if readings::gives_frame(lines, size, frame, more[frame]) {
        } else {
            assert(known.contains_key(frame) && more[frame] == known[frame]);
            let i = choose|i: int|
                i < size && #[trigger] readings::gives_frame(lines, i, frame, known[frame])
                    && forall|j: int, parts: (Text, Text)|
                    i < j < size ==> !#[trigger] readings::gives_frame(lines, j, frame, parts);
            assert(readings::gives_frame(lines, i, frame, more[frame]));
            assert forall|j: int, parts: (Text, Text)| i < j < size + 1 implies !#[trigger]
                readings::gives_frame(lines, j, frame, parts) by {
                if j == size && readings::gives_frame(lines, j, frame, parts) {
                    assert(more[frame] == parts);
                }
            }
        }
    }
}

/// The function of some frames is that of the frame with the smallest number.
pub proof fn law_innermost_functions(frames: Frames, frame: u64)
    requires
        frames.contains_key(frame),
        forall|other: u64| #[trigger] frames.contains_key(other) ==> frame <= other,
    ensures
        gdb_output::innermost_function(frames) == Some(frames[frame].0),
        gdb_output::innermost_function(Map::empty()) is None,
{
    assert(gdb_output::is_lowest(frames, frame));
    let lowest = choose|number: u64| gdb_output::is_lowest(frames, number);
    assert(gdb_output::is_lowest(frames, lowest));
    assert(frames.contains_key(lowest));
    let empty = Map::<u64, (Text, Text)>::empty();
    if exists|number: u64| gdb_output::is_lowest(empty, number) {
        let number = choose|number: u64| gdb_output::is_lowest(empty, number);
        assert(empty.contains_key(number));
    }
}

} // verus!
