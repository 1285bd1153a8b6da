//! What the texts that gdb prints say.
use std::collections::BTreeMap;
use vstd::prelude::*;

use crate::number;
use crate::paths;
use crate::paths::PathRules;
use crate::protocol;
use crate::protocol::DebuggerState;
use crate::scan;
use crate::text;
use crate::text::Text;

verus! {

// ---------------------------------------------------------------------------
// Values and errors
// ---------------------------------------------------------------------------

/// The value in what `print` says: what stands behind the first equals sign,
/// or all of it, without white space around it.
pub open spec fn gdb_value(output: Text) -> Text {
    match text::split_once(text::trim(output), "="@) {
        Some((_, value)) => text::trim(value),
        None => text::trim(output),
    }
}

/// The output of a command without white space around it and without the
/// prompt before it, unless nothing is left.
pub open spec fn command_output(output: Text) -> Option<Text> {
    let shown = text::without_prefix(text::trim(output), "(gdb) "@);
    if shown.len() == 0 {
        None
    } else {
        Some(shown)
    }
}

/// A text in lower case has one of the phrases by which gdb refuses a command.
pub open spec fn has_refusal(low: Text) -> bool {
    ||| text::contains(low, "undefined command"@)
    ||| text::contains(low, "ambiguous command"@)
    ||| text::contains(low, "not recognized"@)
    ||| text::contains(low, "a syntax error in expression"@)
    ||| text::contains(low, "cannot find bounds of current function"@)
    ||| text::contains(low, "no symbol"@)
    ||| text::contains(low, "unknown thread"@)
    ||| text::contains(low, "no frame at level"@)
    ||| text::contains(low, "no source file named"@)
    ||| text::contains(low, "no breakpoint at"@)
    ||| text::contains(low, "no breakpoint number"@)
    ||| text::contains(low, "error:"@)
}

/// The output of a command looks like an error.
pub open spec fn shows_error(output: Text) -> bool {
    ||| has_refusal(text::lower(output))
    ||| text::contains(text::lower(output), "cannot access memory"@)
}

/// An error, in lower case, that says nothing against the session.
pub open spec fn is_soft_error(low: Text) -> bool {
    ||| text::contains(low, "no symbol"@)
    ||| text::contains(low, "unknown thread"@)
    ||| text::contains(low, "no frame at level"@)
    ||| text::contains(low, "no source file named"@)
    ||| text::contains(low, "no breakpoint at"@)
    ||| text::contains(low, "no breakpoint number"@)
    ||| text::contains(low, "a syntax error in expression"@)
    ||| text::contains(low, "cannot find bounds of current function"@)
}

/// Gives the value in what `print` says.
pub fn normalize_gdb_value(output: &str) -> (value: String)
    ensures
        value@ == gdb_value(output@),
{
    let chars = scan::chars_of(output);
    let trimmed = scan::strip_both(chars.as_slice());
    match scan::cut_first(trimmed, "=") {
        Some((_, value)) => scan::text_of(scan::strip_both(value)),
        None => scan::text_of(trimmed),
    }
}

/// Gives the output of a command without prompt and surrounding white space.
pub fn normalized_command_output(output: &str) -> (shown: Option<String>)
    ensures
        text::optional(shown) == command_output(output@),
{
    let chars = scan::chars_of(output);
    let stripped = scan::strip(scan::strip_both(chars.as_slice()), "(gdb) ");
    if stripped.len() == 0 {
        None
    } else {
        Some(scan::text_of(stripped))
    }
}

/// Tells whether a text in lower case has a refusal in it.
fn names_refusal(low: &[char]) -> (found: bool)
    ensures
        found == has_refusal(low@),
{
    scan::has(low, "undefined command") || scan::has(low, "ambiguous command") || scan::has(
        low,
        "not recognized",
    ) || scan::has(low, "a syntax error in expression") || scan::has(
        low,
        "cannot find bounds of current function",
    ) || scan::has(low, "no symbol") || scan::has(low, "unknown thread") || scan::has(
        low,
        "no frame at level",
    ) || scan::has(low, "no source file named") || scan::has(low, "no breakpoint at") || scan::has(
        low,
        "no breakpoint number",
    ) || scan::has(low, "error:")
}

/// Tells whether the output of a command looks like an error.
pub fn looks_like_gdb_error(output: &str) -> (found: bool)
    ensures
        found == shows_error(output@),
{
    let low = scan::lowered(scan::chars_of(output).as_slice());
    names_refusal(low.as_slice()) || scan::has(low.as_slice(), "cannot access memory")
}

/// Tells whether an error, in lower case, says nothing against the session.
pub fn is_recoverable_command_error(lower_error: &str) -> (soft: bool)
    ensures
        soft == is_soft_error(lower_error@),
{
    let chars = scan::chars_of(lower_error);
    let low = chars.as_slice();
    scan::has(low, "no symbol") || scan::has(low, "unknown thread") || scan::has(
        low,
        "no frame at level",
    ) || scan::has(low, "no source file named") || scan::has(low, "no breakpoint at") || scan::has(
        low,
        "no breakpoint number",
    ) || scan::has(low, "a syntax error in expression") || scan::has(
        low,
        "cannot find bounds of current function",
    )
}

// ---------------------------------------------------------------------------
// Stops and states
// ---------------------------------------------------------------------------

/// A line that tells of a stop at a breakpoint, such as `Breakpoint 1, main ()`.
pub open spec fn is_stop_line(line: Text) -> bool {
    let low = text::lower(text::trim_start(line));
    &&& text::starts_with(low, "breakpoint "@)
    &&& text::contains(text::without_prefix(low, "breakpoint "@), ","@)
}

/// A line that tells of a new breakpoint, such as `Breakpoint 1 at 0x1139`.
pub open spec fn is_creation_line(line: Text) -> bool {
    let low = text::lower(text::trim_start(line));
    let rest = text::without_prefix(low, "breakpoint "@);
    &&& text::starts_with(low, "breakpoint "@)
    &&& {
        ||| text::contains(rest, " at 0x"@)
        ||| text::contains(rest, ": file "@)
        ||| text::contains(rest, "pending"@)
    }
}

/// The output tells of a stop at a breakpoint.
pub open spec fn shows_stop(output: Text) -> bool {
    exists|i: int|
        0 <= i < text::lines(output).len() && is_stop_line(#[trigger] text::lines(output)[i])
}

/// The output tells of a new breakpoint.
pub open spec fn shows_creation(output: Text) -> bool {
    exists|i: int|
        0 <= i < text::lines(output).len() && is_creation_line(#[trigger] text::lines(output)[i])
}

/// The state of a debugger that was in `previous` when gdb printed `output`.
/// What says nothing about the state leaves it as it was, unless a `fallback`
/// says what it then is.
pub open spec fn state_after(
    previous: DebuggerState,
    output: Text,
    fallback: Option<DebuggerState>,
) -> DebuggerState {
    let low = text::lower(output);
    if has_refusal(low) {
        DebuggerState::Error
    } else if text::contains(low, "sigsegv"@) || text::contains(low, "segmentation fault"@) {
        DebuggerState::SigSegv
    } else if text::contains(low, "sigabrt"@) {
        DebuggerState::SigAbrt
    } else if text::contains(low, "sigbus"@) || text::contains(low, "bus error"@) {
        DebuggerState::SigBus
    } else if text::contains(low, "sigfpe"@) || text::contains(low, "floating point exception"@) {
        DebuggerState::SigFpe
    } else if text::contains(low, "sigill"@) || text::contains(low, "illegal instruction"@) {
        DebuggerState::SigIll
    } else if text::contains(low, "sigtrap"@) {
        DebuggerState::SigTrap
    } else if text::contains(low, "sigterm"@) {
        DebuggerState::SigTerm
    } else if text::contains(low, "sigkill"@) {
        DebuggerState::SigKill
    } else if text::contains(low, "sigint"@) && !text::contains(low, "breakpoint"@) {
        DebuggerState::StoppedAtStepping
    } else if text::contains(low, "program received signal"@) {
        DebuggerState::Error
    } else if text::contains(low, "terminated with signal"@) {
        DebuggerState::Error
    } else if shows_stop(output) {
        DebuggerState::StoppedAtBreakpoint
    } else if shows_creation(output) {
        previous
    } else if text::contains(low, "watchpoint"@) {
        DebuggerState::StoppedAtBreakpoint
    } else if text::contains(low, "catchpoint"@) {
        DebuggerState::StoppedAtBreakpoint
    } else if text::contains(low, "exited normally"@) || text::contains(low, "exited with code"@)
        || text::contains(low, "exited abnormally"@) || (text::contains(low, "inferior"@)
        && text::contains(low, "exited"@)) {
        DebuggerState::Exited
    } else if text::contains(low, "no stack"@) || text::contains(low, "no registers"@) {
        DebuggerState::Exited
    } else if text::contains(low, "the program is not being run"@) || text::contains(
        low,
        "no inferior"@,
    ) {
        DebuggerState::NotAttached
    } else if text::contains(low, "continuing"@) || text::contains(low, "starting program"@) {
        DebuggerState::Running
    } else if text::contains(low, "interrupted"@) {
        DebuggerState::StoppedAtBreakpoint
    } else if text::contains(low, "cannot access memory"@) {
        DebuggerState::Error
    } else if text::contains(low, "detaching"@) || text::contains(low, "process finished"@) {
        DebuggerState::NotAttached
    } else if text::contains(low, "inferior"@) && text::contains(low, "killed"@) {
        DebuggerState::SigKill
    } else {
        match fallback {
            Some(state) => state,
            None => previous,
        }
    }
}

/// Tells whether a line tells of a stop at a breakpoint.
fn line_stops(line: &[char]) -> (found: bool)
    ensures
        found == is_stop_line(line@),
{
    let low = scan::lowered(scan::strip_start(line));
    scan::begins(low.as_slice(), "breakpoint ") && scan::has(
        scan::strip(low.as_slice(), "breakpoint "),
        ",",
    )
}

/// Tells whether a line tells of a new breakpoint.
fn line_creates(line: &[char]) -> (found: bool)
    ensures
        found == is_creation_line(line@),
{
    let low = scan::lowered(scan::strip_start(line));
    let rest = scan::strip(low.as_slice(), "breakpoint ");
    scan::begins(low.as_slice(), "breakpoint ") && (scan::has(rest, " at 0x") || scan::has(
        rest,
        ": file ",
    ) || scan::has(rest, "pending"))
}

/// Tells whether the output tells of a stop at a breakpoint.
pub fn contains_breakpoint_stop(output: &str) -> (found: bool)
    ensures
        found == shows_stop(output@),
{
    let chars = scan::chars_of(output);
    let lines = scan::split_lines(chars.as_slice());
    let mut i: usize = 0;
    while i < lines.len()
        invariant
            i <= lines.len(),
            lines@.len() == text::lines(output@).len(),
            forall|j: int|
                0 <= j < lines@.len() ==> (#[trigger] lines@[j])@ == text::lines(output@)[j],
            forall|j: int| 0 <= j < i ==> !is_stop_line(#[trigger] text::lines(output@)[j]),
        decreases lines.len() - i,
    {
        if line_stops(lines[i]) {
            assert(is_stop_line(text::lines(output@)[i as int]));
            return true;
        }
        i += 1;
    }
    false
}

/// Tells whether the output tells of a new breakpoint.
pub fn contains_breakpoint_creation(output: &str) -> (found: bool)
    ensures
        found == shows_creation(output@),
{
    let chars = scan::chars_of(output);
    let lines = scan::split_lines(chars.as_slice());
    let mut i: usize = 0;
    while i < lines.len()
        invariant
            i <= lines.len(),
            lines@.len() == text::lines(output@).len(),
            forall|j: int|
                0 <= j < lines@.len() ==> (#[trigger] lines@[j])@ == text::lines(output@)[j],
            forall|j: int| 0 <= j < i ==> !is_creation_line(#[trigger] text::lines(output@)[j]),
        decreases lines.len() - i,
    {
        if line_creates(lines[i]) {
            assert(is_creation_line(text::lines(output@)[i as int]));
            return true;
        }
        i += 1;
    }
    false
}

/// Gives the state of a debugger that was in `previous` when gdb printed
/// `output`.
pub fn state_from_output(
    previous: DebuggerState,
    output: &str,
    fallback: Option<DebuggerState>,
) -> (state: DebuggerState)
    ensures
        state == state_after(previous, output@, fallback),
{
    let lowered = scan::lowered(scan::chars_of(output).as_slice());
    let low = lowered.as_slice();

    // A refused command is an error, whatever else the output says.
    if names_refusal(low) {
        return DebuggerState::Error;
    }
    // Signals, by their names and by how they are described.

    if scan::has(low, "sigsegv") || scan::has(low, "segmentation fault") {
        return DebuggerState::SigSegv;
    }
    if scan::has(low, "sigabrt") {
        return DebuggerState::SigAbrt;
    }
    if scan::has(low, "sigbus") || scan::has(low, "bus error") {
        return DebuggerState::SigBus;
    }
    if scan::has(low, "sigfpe") || scan::has(low, "floating point exception") {
        return DebuggerState::SigFpe;
    }
    if scan::has(low, "sigill") || scan::has(low, "illegal instruction") {
        return DebuggerState::SigIll;
    }
    if scan::has(low, "sigtrap") {
        return DebuggerState::SigTrap;
    }
    if scan::has(low, "sigterm") {
        return DebuggerState::SigTerm;
    }
    if scan::has(low, "sigkill") {
        return DebuggerState::SigKill;
    }
    if scan::has(low, "sigint") && !scan::has(low, "breakpoint") {
        return DebuggerState::StoppedAtStepping;
    }
    // Any other signal.

    if scan::has(low, "program received signal") || scan::has(low, "terminated with signal") {
        return DebuggerState::Error;
    }
    // Stops at breakpoints, watchpoints and catchpoints.

    if contains_breakpoint_stop(output) {
        return DebuggerState::StoppedAtBreakpoint;
    }
    if contains_breakpoint_creation(output) {
        return previous;
    }
    if scan::has(low, "watchpoint") || scan::has(low, "catchpoint") {
        return DebuggerState::StoppedAtBreakpoint;
    }
    // The program has ended, or there is none.

    if scan::has(low, "exited normally") || scan::has(low, "exited with code") || scan::has(
        low,
        "exited abnormally",
    ) || (scan::has(low, "inferior") && scan::has(low, "exited")) {
        return DebuggerState::Exited;
    }
    if scan::has(low, "no stack") || scan::has(low, "no registers") {
        return DebuggerState::Exited;
    }
    if scan::has(low, "the program is not being run") || scan::has(low, "no inferior") {
        return DebuggerState::NotAttached;
    }
    if scan::has(low, "continuing") || scan::has(low, "starting program") {
        return DebuggerState::Running;
    }
    if scan::has(low, "interrupted") {
        return DebuggerState::StoppedAtBreakpoint;
    }
    if scan::has(low, "cannot access memory") {
        return DebuggerState::Error;
    }
    if scan::has(low, "detaching") || scan::has(low, "process finished") {
        return DebuggerState::NotAttached;
    }
    if scan::has(low, "inferior") && scan::has(low, "killed") {
        return DebuggerState::SigKill;
    }
    match fallback {
        Some(state) => state,
        None => previous,
    }
}

// ---------------------------------------------------------------------------
// Places in the source
// ---------------------------------------------------------------------------

/// The path and the line number of a location such as `src/main.c:10`.
pub open spec fn location(place: Text) -> Option<(Text, u64)> {
    match text::rsplit_once(place, ":"@) {
        Some((path, line)) => match number::parse_u64(line) {
            Some(line) => Some((path, line)),
            None => None,
        },
        None => None,
    }
}

/// The location that a line gives behind its first `at`.
pub open spec fn place_in_line(line: Text) -> Option<(Text, u64)> {
    match text::split_once(line, " at "@) {
        Some((_, place)) => location(text::trim(place)),
        None => None,
    }
}

/// The location that the first of some lines gives which gives one.
pub open spec fn first_place(lines: Seq<Text>) -> Option<(Text, u64)>
    decreases lines.len(),
{
    if lines.len() == 0 {
        None
    } else {
        match place_in_line(lines.first()) {
            Some(place) => Some(place),
            None => first_place(lines.drop_first()),
        }
    }
}

/// The number and the source of a line of a listing. Behind the number one tab
/// or one blank is a separator; all else belongs to the source.
pub open spec fn listed_line(line: Text) -> Option<(u64, Text)> {
    let trimmed = text::trim_start(line);
    let size = text::leading(trimmed, text::digit()) as int;
    let rest = trimmed.skip(size);
    let source = if rest.len() > 0 && (rest[0] == '\t' || rest[0] == ' ') {
        rest.skip(1)
    } else {
        rest
    };
    if size == 0 {
        None
    } else {
        match number::parse_u64(trimmed.take(size)) {
            Some(number) => Some((number, source)),
            None => None,
        }
    }
}

/// The lines of a listing by their numbers, added to those `known`.
pub open spec fn listed_lines(lines: Seq<Text>, known: Map<u64, Text>) -> Map<u64, Text>
    decreases lines.len(),
{
    if lines.len() == 0 {
        known
    } else {
        listed_lines(
            lines.drop_first(),
            match listed_line(lines.first()) {
                Some((number, source)) => known.insert(number, source),
                None => known,
            },
        )
    }
}

/// Reads a location such as `src/main.c:10`.
fn read_location<'a>(place: &'a [char]) -> (found: Option<(&'a [char], u64)>)
    ensures
        match found {
            Some(found) => location(place@) == Some((found.0@, found.1)),
            None => location(place@) is None,
        },
{
    match scan::cut_last(place, ":") {
        Some((path, line)) => match number::read_u64(line) {
            Some(line) => Some((path, line)),
            None => None,
        },
        None => None,
    }
}

/// Finds the location in what `frame` says.
pub fn parse_path_and_line(frame_output: &str) -> (place: (Option<String>, Option<u64>))
    ensures
        match first_place(text::lines(frame_output@)) {
            Some((path, line)) => text::optional(place.0) == Some(path) && place.1 == Some(line),
            None => place.0 is None && place.1 is None,
        },
{
    let chars = scan::chars_of(frame_output);
    let lines = scan::split_lines(chars.as_slice());
    let ghost all = text::lines(frame_output@);
    let mut i: usize = 0;
    assert(all.skip(0) =~= all);
    while i < lines.len()
        invariant
            i <= lines.len(),
            all == text::lines(frame_output@),
            lines@.len() == all.len(),
            forall|j: int| 0 <= j < lines@.len() ==> (#[trigger] lines@[j])@ == all[j],
            first_place(all) == first_place(all.skip(i as int)),
        decreases lines.len() - i,
    {
        proof {
            assert(all.skip(i as int).first() == all[i as int]);
            assert(all.skip(i as int).drop_first() =~= all.skip(i + 1));
        }
        match scan::cut_first(lines[i], " at ") {
            Some((_, place)) => match read_location(scan::strip_both(place)) {
                Some((path, line)) => {
                    return (Some(scan::text_of(path)), Some(line));
                },
                None => {},
            },
            None => {},
        }
        i += 1;
    }
    (None, None)
}

/// Finds the number of a line of a listing, and where its source begins.
fn read_listed_line(line: &[char]) -> (found: Option<(u64, usize)>)
    ensures
        match found {
            Some(found) => found.1 <= line@.len() && listed_line(line@) == Some(
                (found.0, line@.skip(found.1 as int)),
            ),
            None => listed_line(line@) is None,
        },
{
    let trimmed = scan::strip_start(line);
    let size = scan::count_digits(trimmed);
    if size == 0 {
        return None;
    }
    proof {
        text::lemma_leading_run(line@, text::blank());
    }
    let start: usize = line.len() - trimmed.len() + size;
    let rest = scan::from(trimmed, size);
    assert(rest@ =~= line@.skip(start as int));
    match number::read_u64(scan::upto(trimmed, size)) {
        Some(number) => {
            if rest.len() > 0 && (rest[0] == '\t' || rest[0] == ' ') {
                assert(rest@.skip(1) =~= line@.skip(start + 1));
                Some((number, start + 1))
            } else {
                Some((number, start))
            }
        },
        None => None,
    }
}

/// Takes a line of a listing apart. The indentation of the source stays.
pub fn parse_gdb_list_line<'a>(line: &'a str) -> (found: Option<(u64, &'a str)>)
    ensures
        match found {
            Some(found) => listed_line(line@) == Some((found.0, found.1@)),
            None => listed_line(line@) is None,
        },
{
    let chars = scan::chars_of(line);
    match read_listed_line(chars.as_slice()) {
        Some((number, start)) => {
            let source = line.substring_char(start, chars.len());
            assert(source@ =~= line@.skip(start as int));
            Some((number, source))
        },
        None => None,
    }
}

/// Reads what `list` says.
pub fn parse_listing(output: &str) -> (code: BTreeMap<u64, String>)
    ensures
        protocol::numbered(code@) == listed_lines(text::lines(output@), Map::empty()),
{
    let chars = scan::chars_of(output);
    let lines = scan::split_lines(chars.as_slice());
    let ghost all = text::lines(output@);
    let mut code: BTreeMap<u64, String> = BTreeMap::new();
    let mut i: usize = 0;
    assert(all.skip(0) =~= all);
    assert(protocol::numbered(code@) =~= Map::empty());
    while i < lines.len()
        invariant
            i <= lines.len(),
            all == text::lines(output@),
            lines@.len() == all.len(),
            forall|j: int| 0 <= j < lines@.len() ==> (#[trigger] lines@[j])@ == all[j],
            listed_lines(all, Map::empty()) == listed_lines(
                all.skip(i as int),
                protocol::numbered(code@),
            ),
        decreases lines.len() - i,
    {
        proof {
            assert(all.skip(i as int).first() == all[i as int]);
            assert(all.skip(i as int).drop_first() =~= all.skip(i + 1));
        }
        match read_listed_line(lines[i]) {
            Some((number, start)) => {
                let source = scan::text_of(scan::from(lines[i], start));
                let ghost before = code@;
                code.insert(number, source);
                assert(protocol::numbered(code@) =~= protocol::numbered(before).insert(
                    number,
                    source@,
                ));
            },
            None => {},
        }
        i += 1;
    }
    code
}

// ---------------------------------------------------------------------------
// Breakpoints
// ---------------------------------------------------------------------------

/// Consists of digits and dots, as the numbers of breakpoints do.
pub open spec fn is_breakpoint_id(id: Text) -> bool {
    forall|i: int| 0 <= i < id.len() ==> (text::is_digit(#[trigger] id[i]) || id[i] == '.')
}

/// The number, the path and the line of a row of the table of breakpoints.
pub open spec fn breakpoint_row(line: Text) -> Option<(Text, Text, u64)> {
    let trimmed = text::trim_start(line);
    match text::next_word(trimmed) {
        Some((id, _)) => if is_breakpoint_id(id) {
            match text::rsplit_once(trimmed, " at "@) {
                Some((_, place)) => match location(text::trim(place)) {
                    Some((path, line)) => Some((id, path, line)),
                    None => None,
                },
                None => None,
            }
        } else {
            None
        },
        None => None,
    }
}

/// A path as gdb gives it, made absolute by the directory of the code.
pub open spec fn source_path(separator: char, codebase_dir: Text, path: Text) -> Text {
    if paths::absolute(separator, path) {
        path
    } else {
        paths::joined(separator, codebase_dir, path)
    }
}

/// A path as gdb gives it is the file that a client names: the same path, or
/// one that ends in the given name.
pub open spec fn names_file(separator: char, codebase_dir: Text, path: Text, filename: Text) -> bool {
    let full = source_path(separator, codebase_dir, path);
    paths::same_path(separator, full, filename) || text::ends_with(full, filename)
}

/// The numbers of the breakpoints at a location, in the order of the table.
pub open spec fn breakpoint_ids(
    lines: Seq<Text>,
    separator: char,
    codebase_dir: Text,
    filename: Text,
    linenumber: u64,
) -> Seq<Text>
    decreases lines.len(),
{
    if lines.len() == 0 {
        Seq::empty()
    } else {
        let front = breakpoint_ids(
            lines.drop_last(),
            separator,
            codebase_dir,
            filename,
            linenumber,
        );
        match breakpoint_row(lines.last()) {
            Some((id, path, line)) => if line == linenumber && names_file(
                separator,
                codebase_dir,
                path,
                filename,
            ) {
                front.push(id)
            } else {
                front
            },
            None => front,
        }
    }
}

/// The rows of the table of breakpoints, as they are shown: without white
/// space at the end, without empty rows, and without the prompt.
pub open spec fn breakpoint_table(lines: Seq<Text>) -> Seq<Text>
    decreases lines.len(),
{
    if lines.len() == 0 {
        Seq::empty()
    } else {
        let row = text::trim_end(lines.last());
        let front = breakpoint_table(lines.drop_last());
        if row.len() == 0 {
            front
        } else {
            front.push(text::without_prefix(row, "(gdb) "@))
        }
    }
}

/// Reads a row of the table of breakpoints.
fn read_breakpoint_row<'a>(line: &'a [char]) -> (found: Option<(&'a [char], &'a [char], u64)>)
    ensures
        match found {
            Some(found) => breakpoint_row(line@) == Some((found.0@, found.1@, found.2)),
            None => breakpoint_row(line@) is None,
        },
{
    let trimmed = scan::strip_start(line);
    match scan::cut_word(trimmed) {
        Some((id, _)) => {
            let mut i: usize = 0;
            while i < id.len()
                invariant
                    i <= id.len(),
                    forall|j: int|
                        0 <= j < i ==> (text::is_digit(#[trigger] id@[j]) || id@[j] == '.'),
                    text::next_word(trimmed@) matches Some((word, _)) && word == id@,
                    trimmed@ == text::trim_start(line@),
                decreases id.len() - i,
            {
                let c = id[i];
                if !(('0' <= c && c <= '9') || c == '.') {
                    assert(!text::is_digit(id@[i as int]));
                    return None;
                }
                i += 1;
            }
            match scan::cut_last(trimmed, " at ") {
                Some((_, place)) => match read_location(scan::strip_both(place)) {
                    Some((path, line)) => Some((id, path, line)),
                    None => None,
                },
                None => None,
            }
        },
        None => None,
    }
}

/// Takes a row of the table of breakpoints apart.
pub fn parse_breakpoint_location_line(line: &str) -> (found: Option<(String, String, u64)>)
    ensures
        match found {
            Some(found) => breakpoint_row(line@) == Some((found.0@, found.1@, found.2)),
            None => breakpoint_row(line@) is None,
        },
{
    let chars = scan::chars_of(line);
    match read_breakpoint_row(chars.as_slice()) {
        Some((id, path, line)) => Some((scan::text_of(id), scan::text_of(path), line)),
        None => None,
    }
}

/// Makes a path as gdb gives it absolute by the directory of the code. Where
/// the separator is a slash and the directory is absolute, so is the result.
pub fn resolve_source_path(rules: &PathRules, codebase_dir: &str, path: String) -> (full: String)
    ensures
        full@ == source_path(rules@, codebase_dir@, path@),
        rules@ == '/' && paths::begins_with_slash(codebase_dir@) ==> paths::begins_with_slash(
            full@,
        ),
{
    if rules.is_absolute(path.as_str()) {
        path
    } else {
        rules.join(codebase_dir, path.as_str())
    }
}

/// Finds the numbers of the breakpoints at a location in the table of
/// breakpoints.
pub fn breakpoint_ids_at(
    output: &str,
    rules: &PathRules,
    codebase_dir: &str,
    filename: &str,
    linenumber: u64,
) -> (ids: Vec<String>)
    ensures
        protocol::texts(ids@) == breakpoint_ids(
            text::lines(output@),
            rules@,
            codebase_dir@,
            filename@,
            linenumber,
        ),
{
    let chars = scan::chars_of(output);
    let lines = scan::split_lines(chars.as_slice());
    let target = scan::chars_of(filename);
    let ghost all = text::lines(output@);
    let mut ids: Vec<String> = Vec::new();
    let mut i: usize = 0;
    assert(protocol::texts(ids@) =~= Seq::empty());
    while i < lines.len()
        invariant
            i <= lines.len(),
            target@ == filename@,
            lines@.len() == all.len(),
            forall|j: int| 0 <= j < lines@.len() ==> (#[trigger] lines@[j])@ == all[j],
            protocol::texts(ids@) == breakpoint_ids(
                all.take(i as int),
                rules@,
                codebase_dir@,
                filename@,
                linenumber,
            ),
        decreases lines.len() - i,
    {
        let ghost found = ids@;
        proof {
            assert(all.take(i + 1).drop_last() =~= all.take(i as int));
            assert(all.take(i + 1).last() == all[i as int]);
        }
        match read_breakpoint_row(lines[i]) {
            Some((id, path, line)) => {
                if line == linenumber {
                    let full = resolve_source_path(rules, codebase_dir, scan::text_of(path));
                    if rules.is_same(full.as_str(), filename) || scan::ends(
                        scan::chars_of(full.as_str()).as_slice(),
                        target.as_slice(),
                    ) {
                        let id = scan::text_of(id);
                        ids.push(id);
                        assert(protocol::texts(ids@) =~= protocol::texts(found).push(id@));
                    }
                }
            },
            None => {},
        }
        i += 1;
    }
    assert(all.take(i as int) =~= all);
    ids
}

/// Gives the rows of the table of breakpoints, as they are shown.
pub fn breakpoint_rows(output: &str) -> (rows: Vec<String>)
    ensures
        protocol::texts(rows@) == breakpoint_table(text::lines(output@)),
{
    let chars = scan::chars_of(output);
    let lines = scan::split_lines(chars.as_slice());
    let ghost all = text::lines(output@);
    let mut rows: Vec<String> = Vec::new();
    let mut i: usize = 0;
    assert(protocol::texts(rows@) =~= Seq::empty());
    while i < lines.len()
        invariant
            i <= lines.len(),
            lines@.len() == all.len(),
            forall|j: int| 0 <= j < lines@.len() ==> (#[trigger] lines@[j])@ == all[j],
            protocol::texts(rows@) == breakpoint_table(all.take(i as int)),
        decreases lines.len() - i,
    {
        let ghost shown = rows@;
        proof {
            assert(all.take(i + 1).drop_last() =~= all.take(i as int));
            assert(all.take(i + 1).last() == all[i as int]);
        }
        let row = scan::strip_end(lines[i]);
        if row.len() > 0 {
            let row = scan::text_of(scan::strip(row, "(gdb) "));
            rows.push(row);
            assert(protocol::texts(rows@) =~= protocol::texts(shown).push(row@));
        }
        i += 1;
    }
    assert(all.take(i as int) =~= all);
    rows
}

// ---------------------------------------------------------------------------
// Frames
// ---------------------------------------------------------------------------

/// What stands behind the number and the address of a frame.
pub open spec fn behind_address(rest: Text) -> Text {
    match text::split_once(rest, " in "@) {
        Some((_, behind)) => behind,
        None => text::without_prefix(rest, "in "@),
    }
}

/// The name of the function in what stands behind the address of a frame.
pub open spec fn frame_function(rest: Text) -> Text {
    let word = match text::next_word(rest) {
        Some((word, behind)) => if word == "in"@ {
            match text::next_word(behind) {
                Some((second, _)) => second,
                None => "unknown"@,
            }
        } else {
            word
        },
        None => "unknown"@,
    };
    match text::split_once(word, "("@) {
        Some((name, _)) => name,
        None => word,
    }
}

/// The location that a frame gives behind its last `at`.
pub open spec fn frame_location(line: Text) -> Text {
    match text::rsplit_once(line, " at "@) {
        Some((_, place)) => text::trim(place),
        None => Seq::empty(),
    }
}

/// Number, function and location of a frame, such as
/// `#0  0x0000555 in main () at main.c:5`.
pub open spec fn frame_line(line: Text) -> Option<(u64, Text, Text)> {
    match text::split_once(line, "#"@) {
        Some((_, section)) => {
            let size = text::leading(section, text::digit()) as int;
            let rest = behind_address(text::trim_start(section.skip(size)));
            if size == 0 {
                None
            } else {
                match number::parse_u64(section.take(size)) {
                    Some(number) => Some((number, frame_function(rest), frame_location(line))),
                    None => None,
                }
            }
        },
        None => None,
    }
}

/// The frames that some lines give, added to those `known`, until there are
/// `limit` of them.
pub open spec fn frames_of(
    lines: Seq<Text>,
    limit: nat,
    known: Map<u64, (Text, Text)>,
) -> Map<u64, (Text, Text)>
    decreases lines.len(),
{
    if lines.len() == 0 || known.len() >= limit {
        known
    } else {
        frames_of(
            lines.drop_first(),
            limit,
            match frame_line(lines.first()) {
                Some((number, function, place)) => known.insert(number, (function, place)),
                None => known,
            },
        )
    }
}

/// `number` is the smallest key.
pub open spec fn is_lowest<V>(map: Map<u64, V>, number: u64) -> bool {
    &&& map.contains_key(number)
    &&& forall|other: u64| #[trigger] map.contains_key(other) ==> number <= other
}

/// The function of the innermost of some frames.
pub open spec fn innermost_function(frames: Map<u64, (Text, Text)>) -> Option<Text> {
    if exists|number: u64| is_lowest(frames, number) {
        Some(frames[choose|number: u64| is_lowest(frames, number)].0)
    } else {
        None
    }
}

/// Reads the line of a frame.
fn read_frame_line(line: &[char]) -> (found: Option<(u64, String, String)>)
    ensures
        match found {
            Some(found) => frame_line(line@) == Some((found.0, found.1@, found.2@)),
            None => frame_line(line@) is None,
        },
{
    let section = match scan::cut_first(line, "#") {
        Some((_, section)) => section,
        None => {
            return None;
        },
    };
    let size = scan::count_digits(section);
    if size == 0 {
        return None;
    }
    let number = match number::read_u64(scan::upto(section, size)) {
        Some(number) => number,
        None => {
            return None;
        },
    };
    let after = scan::strip_start(scan::from(section, size));
    let rest = match scan::cut_first(after, " in ") {
        Some((_, behind)) => behind,
        None => scan::strip(after, "in "),
    };
    let unknown = scan::chars_of("unknown");
    let inner = scan::chars_of("in");
    let word = match scan::cut_word(rest) {
        Some((word, behind)) => if scan::same(word, inner.as_slice()) {
            match scan::cut_word(behind) {
                Some((second, _)) => second,
                None => unknown.as_slice(),
            }
        } else {
            word
        },
        None => unknown.as_slice(),
    };
    let function = match scan::cut_first(word, "(") {
        Some((name, _)) => name,
        None => word,
    };
    let place = match scan::cut_last(line, " at ") {
        Some((_, place)) => scan::text_of(scan::strip_both(place)),
        None => String::new(),
    };
    Some((number, scan::text_of(function), place))
}

/// Takes the line of a frame apart.
pub fn parse_backtrace_frame_line(line: &str) -> (found: Option<(u64, String, String)>)
    ensures
        match found {
            Some(found) => frame_line(line@) == Some((found.0, found.1@, found.2@)),
            None => frame_line(line@) is None,
        },
{
    read_frame_line(scan::chars_of(line).as_slice())
}

/// Adds the frames in what `backtrace` says, until there are `limit` of them.
pub fn parse_backtrace_lines(
    output: &str,
    limit: usize,
    backtrace: &mut BTreeMap<u64, (String, String)>,
)
    ensures
        protocol::frames(final(backtrace)@) == frames_of(
            text::lines(output@),
            limit as nat,
            protocol::frames(old(backtrace)@),
        ),
{
    let chars = scan::chars_of(output);
    let lines = scan::split_lines(chars.as_slice());
    let ghost all = text::lines(output@);
    let ghost goal = frames_of(all, limit as nat, protocol::frames(backtrace@));
    let mut i: usize = 0;
    assert(all.skip(0) =~= all);
    while i < lines.len()
        invariant
            i <= lines.len(),
            lines@.len() == all.len(),
            forall|j: int| 0 <= j < lines@.len() ==> (#[trigger] lines@[j])@ == all[j],
            goal == frames_of(
                text::lines(output@),
                limit as nat,
                protocol::frames(old(backtrace)@),
            ),
            goal == frames_of(all.skip(i as int), limit as nat, protocol::frames(backtrace@)),
        decreases lines.len() - i,
    {
        proof {
            assert(protocol::frames(backtrace@).dom() =~= backtrace@.dom());
            assert(all.skip(i as int).first() == all[i as int]);
            assert(all.skip(i as int).drop_first() =~= all.skip(i + 1));
        }
        if backtrace.len() >= limit {
            return ;
        }
        match read_frame_line(lines[i]) {
            Some((number, function, place)) => {
                let ghost before = backtrace@;
                let ghost frame = (function@, place@);
                backtrace.insert(number, (function, place));
                assert(protocol::frames(backtrace@) =~= protocol::frames(before).insert(
                    number,
                    frame,
                ));
            },
            None => {},
        }
        i += 1;
    }
}

/// Ascending rows have ascending numbers.
proof fn lemma_ascending<V>(rows: Seq<(&u64, &V)>)
    requires
        vstd::std_specs::btree::increasing_seq(rows.map_values(|kv: (&u64, &V)| *kv.0)),
    ensures
        forall|i: int, j: int|
            0 <= i < j < rows.len() ==> *(#[trigger] rows[i]).0 < *(#[trigger] rows[j]).0,
{
    let numbers = rows.map_values(|kv: (&u64, &V)| *kv.0);
    assert forall|i: int, j: int| 0 <= i < j < rows.len() implies *(#[trigger] rows[i]).0 < *(
    #[trigger] rows[j]).0 by {
        assert(numbers[i] == *rows[i].0);
        assert(numbers[j] == *rows[j].0);
        assert(vstd::std_specs::cmp::OrdSpec::cmp_spec(&numbers[i], &numbers[j]) is Less);
    }
}

/// The keys of a map, by ascending number.
fn ascending_keys<V>(map: &BTreeMap<u64, V>) -> (keys: Vec<u64>)
    ensures
        forall|i: int, j: int| 0 <= i < j < keys@.len() ==> keys@[i] < keys@[j],
        forall|i: int| 0 <= i < keys@.len() ==> map@.contains_key(#[trigger] keys@[i]),
        forall|key: u64| #[trigger] map@.contains_key(key) ==> keys@.contains(key),
{
    let mut keys: Vec<u64> = Vec::new();
    let entries = map.iter();
    proof {
        lemma_ascending(vstd::std_specs::iter::IteratorSpec::remaining(&entries));
    }
    for entry in it: entries
        invariant
            keys@.len() == it.index(),
            forall|i: int| 0 <= i < it.index() ==> keys@[i] == *(#[trigger] it.seq()[i]).0,
    {
        keys.push(*entry.0);
    }
    proof {
        let all = vstd::std_specs::iter::IteratorSpec::remaining(
            &vstd::std_specs::btree::spec_btree_map_iter(map),
        );
        assert forall|i: int, j: int| 0 <= i < j < keys@.len() implies keys@[i] < keys@[j] by {
            assert(*all[i].0 < *all[j].0);
        }
        assert forall|key: u64| #[trigger] map@.contains_key(key) implies keys@.contains(key) by {
            assert(all.contains((&key, &map@[key])));
            let i = choose|i: int| 0 <= i < all.len() && all[i] == (&key, &map@[key]);
            assert(keys@[i] == key);
        }
        assert forall|i: int| 0 <= i < keys@.len() implies map@.contains_key(#[trigger] keys@[i]) by {
            assert(map@.contains_key(*all[i].0));
        }
    }
    keys
}

/// Gives the function of the innermost of some frames.
pub fn current_function(backtrace: &BTreeMap<u64, (String, String)>) -> (function: Option<String>)
    ensures
        text::optional(function) == innermost_function(protocol::frames(backtrace@)),
{
    let ghost frames = protocol::frames(backtrace@);
    let keys = ascending_keys(backtrace);
    if keys.len() == 0 {
        return None;
    }
    assert(is_lowest(frames, keys@[0]));
    match backtrace.get(&keys[0]) {
        Some(frame) => Some(frame.0.clone()),
        None => None,
    }
}

// ---------------------------------------------------------------------------
// Source lines
// ---------------------------------------------------------------------------

/// The rows are the entries of the map, by ascending number.
pub open spec fn is_order(code: Map<u64, Text>, rows: Seq<(u64, Text)>) -> bool {
    &&& forall|i: int, j: int| 0 <= i < j < rows.len() ==> (#[trigger] rows[i]).0 < (#[trigger] rows[j]).0
    &&& forall|i: int|
        0 <= i < rows.len() ==> code.contains_key((#[trigger] rows[i]).0) && code[rows[i].0]
            == rows[i].1
    &&& forall|number: u64| #[trigger]
        code.contains_key(number) ==> exists|i: int|
            0 <= i < rows.len() && (#[trigger] rows[i]).0 == number
}

/// The entries of the map, by ascending number.
pub open spec fn in_order(code: Map<u64, Text>) -> Seq<(u64, Text)> {
    choose|rows: Seq<(u64, Text)>| is_order(code, rows)
}

/// A source line with its number.
pub open spec fn shown_line(row: (u64, Text)) -> Text {
    number::decimal(row.0 as nat) + " | "@ + row.1
}

/// Source lines with their numbers, one below the other.
pub open spec fn shown_lines(rows: Seq<(u64, Text)>) -> Text
    decreases rows.len(),
{
    if rows.len() == 0 {
        Seq::empty()
    } else if rows.len() == 1 {
        shown_line(rows[0])
    } else {
        shown_lines(rows.drop_last()).push('\n') + shown_line(rows.last())
    }
}

/// There is only one order of the entries of a map.
pub proof fn lemma_order_is_unique(code: Map<u64, Text>, rows: Seq<(u64, Text)>)
    requires
        is_order(code, rows),
    ensures
        in_order(code) == rows,
{
    let other = in_order(code);
    assert(is_order(code, other));
    assert forall|i: int| 0 <= i < rows.len() implies i < other.len() && #[trigger] rows[i]
        == other[i] by {
        lemma_order_agrees(code, rows, other, i);
    }
    if rows.len() > other.len() {
        lemma_order_agrees(code, rows, other, other.len() as int);
    }
    if other.len() > rows.len() {
        lemma_order_agrees(code, other, rows, rows.len() as int);
    }
    assert(rows =~= other);
}

/// Two orders of the entries of a map agree at each place of the first.
proof fn lemma_order_agrees(
    code: Map<u64, Text>,
    rows: Seq<(u64, Text)>,
    other: Seq<(u64, Text)>,
    place: int,
)
    requires
        is_order(code, rows),
        is_order(code, other),
        0 <= place < rows.len(),
    ensures
        place < other.len(),
        rows[place] == other[place],
    decreases place,
{
    assert forall|i: int| 0 <= i < place implies i < other.len() && #[trigger] rows[i]
        == other[i] by {
        lemma_order_agrees(code, rows, other, i);
    }
    assert(code.contains_key(rows[place].0));
    let found = choose|i: int| 0 <= i < other.len() && (#[trigger] other[i]).0 == rows[place].0;
    if found < place {
        assert(rows[found] == other[found]);
    }
    assert(code.contains_key(other[place].0));
    let back = choose|i: int| 0 <= i < rows.len() && (#[trigger] rows[i]).0 == other[place].0;
    if back < place {
        assert(rows[back] == other[back]);
    }
}

/// Puts source lines with their numbers one below the other.
pub fn joined_code(code: &BTreeMap<u64, String>) -> (shown: String)
    ensures
        shown@ == shown_lines(in_order(protocol::numbered(code@))),
{
    let keys = ascending_keys(code);
    let ghost lines = protocol::numbered(code@);
    let ghost rows = Seq::new(keys@.len(), |i: int| (keys@[i], lines[keys@[i]]));
    proof {
        assert forall|number: u64| #[trigger] lines.contains_key(number) implies exists|i: int|
            0 <= i < rows.len() && (#[trigger] rows[i]).0 == number by {
            assert(code@.contains_key(number));
            let i = choose|i: int| 0 <= i < keys@.len() && keys@[i] == number;
            assert(rows[i].0 == number);
        }
        assert(is_order(lines, rows));
        lemma_order_is_unique(lines, rows);
    }
    let mut shown = String::new();
    let mut i: usize = 0;
    while i < keys.len()
        invariant
            i <= keys.len(),
            lines == protocol::numbered(code@),
            rows == Seq::new(keys@.len(), |i: int| (keys@[i], lines[keys@[i]])),
            forall|j: int| 0 <= j < keys@.len() ==> code@.contains_key(#[trigger] keys@[j]),
            shown@ == shown_lines(rows.take(i as int)),
        decreases keys.len() - i,
    {
        proof {
            assert(rows.take(i + 1).drop_last() =~= rows.take(i as int));
            assert(rows.take(i + 1).last() == rows[i as int]);
        }
        if i > 0 {
            shown.push('\n');
        }
        let ghost before = shown@;
        shown.append(scan::text_of(number::write_u64(keys[i]).as_slice()).as_str());
        shown.append(" | ");
        assert(code@.contains_key(keys@[i as int]));
        match code.get(&keys[i]) {
            Some(source) => {
                shown.append(source.as_str());
            },
            None => {},
        }
        assert(shown@ =~= before + shown_line(rows[i as int]));
        i += 1;
    }
    assert(rows.take(i as int) =~= rows);
    shown
}

} // verus!
