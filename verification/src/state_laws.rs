//! What the state of the debugger is, by the words that gdb says.
use vstd::prelude::*;

use crate::gdb_output;
use crate::protocol::DebuggerState;
use crate::text;
use crate::text::Text;
use crate::text_laws;

verus! {

/// The output has a phrase in it, in letters of any case.
pub open spec fn says(output: Text, phrase: Text) -> bool {
    text::contains(text::lower(output), phrase)
}

/// gdb refuses a command.
pub open spec fn refuses(output: Text) -> bool {
    ||| says(output, "undefined command"@)
    ||| says(output, "ambiguous command"@)
    ||| says(output, "not recognized"@)
    ||| says(output, "a syntax error in expression"@)
    ||| says(output, "cannot find bounds of current function"@)
    ||| says(output, "no symbol"@)
    ||| says(output, "unknown thread"@)
    ||| says(output, "no frame at level"@)
    ||| says(output, "no source file named"@)
    ||| says(output, "no breakpoint at"@)
    ||| says(output, "no breakpoint number"@)
    ||| says(output, "error:"@)
}

/// gdb names or describes a signal that has a state of its own.
pub open spec fn names_signal(output: Text) -> bool {
    ||| says(output, "sigsegv"@)
    ||| says(output, "segmentation fault"@)
    ||| says(output, "sigabrt"@)
    ||| says(output, "sigbus"@)
    ||| says(output, "bus error"@)
    ||| says(output, "sigfpe"@)
    ||| says(output, "floating point exception"@)
    ||| says(output, "sigill"@)
    ||| says(output, "illegal instruction"@)
    ||| says(output, "sigtrap"@)
    ||| says(output, "sigterm"@)
    ||| says(output, "sigkill"@)
}

/// gdb tells of an interrupt.
pub open spec fn names_interrupt(output: Text) -> bool {
    says(output, "sigint"@) && !says(output, "breakpoint"@)
}

/// gdb tells of some signal.
pub open spec fn tells_signal(output: Text) -> bool {
    says(output, "program received signal"@) || says(output, "terminated with signal"@)
}

/// gdb neither refuses the command nor tells of a signal.
pub open spec fn is_quiet(output: Text) -> bool {
    &&& !refuses(output)
    &&& !names_signal(output)
    &&& !names_interrupt(output)
    &&& !tells_signal(output)
}

/// A line is `Breakpoint`, in letters of any case and behind white space, then
/// something with a comma in it.
pub open spec fn is_stop(line: Text, indent: Text, word: Text, front: Text, back: Text) -> bool {
    &&& text_laws::is_blank(indent)
    &&& text::lower(word) == "breakpoint "@
    &&& line == indent + word + front + ","@ + back
}

/// Some line of the output tells of a stop.
pub open spec fn tells_stop(output: Text) -> bool {
    exists|i: int, indent: Text, word: Text, front: Text, back: Text|
        0 <= i < text::lines(output).len() && #[trigger] is_stop(
            text::lines(output)[i],
            indent,
            word,
            front,
            back,
        )
}

/// A line is `Breakpoint`, in letters of any case and behind white space, then
/// something with the mark of a new breakpoint in it.
pub open spec fn is_creation(
    line: Text,
    indent: Text,
    word: Text,
    front: Text,
    mark: Text,
    back: Text,
) -> bool {
    &&& text_laws::is_blank(indent)
    &&& text::lower(word) == "breakpoint "@
    &&& text::lower(mark) == " at 0x"@ || text::lower(mark) == ": file "@ || text::lower(mark)
        == "pending"@
    &&& line == indent + word + front + mark + back
}

/// Some line of the output tells of a new breakpoint.
pub open spec fn tells_creation(output: Text) -> bool {
    exists|i: int, indent: Text, word: Text, front: Text, mark: Text, back: Text|
        0 <= i < text::lines(output).len() && #[trigger] is_creation(
            text::lines(output)[i],
            indent,
            word,
            front,
            mark,
            back,
        )
}

/// gdb tells of nothing that has to do with breakpoints.
pub open spec fn is_about_no_stop(output: Text) -> bool {
    &&& is_quiet(output)
    &&& !tells_stop(output)
    &&& !tells_creation(output)
    &&& !says(output, "watchpoint"@)
    &&& !says(output, "catchpoint"@)
}

/// gdb tells that the program has ended.
pub open spec fn tells_exit(output: Text) -> bool {
    ||| says(output, "exited normally"@)
    ||| says(output, "exited with code"@)
    ||| says(output, "exited abnormally"@)
    ||| says(output, "inferior"@) && says(output, "exited"@)
    ||| says(output, "no stack"@)
    ||| says(output, "no registers"@)
}

/// gdb tells that there is no program.
pub open spec fn tells_absence(output: Text) -> bool {
    says(output, "the program is not being run"@) || says(output, "no inferior"@)
}

/// gdb tells that the program runs.
pub open spec fn tells_running(output: Text) -> bool {
    says(output, "continuing"@) || says(output, "starting program"@)
}

// ---------------------------------------------------------------------------
// Lines about breakpoints
// ---------------------------------------------------------------------------

proof fn lemma_breakpoint_word(line: Text, indent: Text, word: Text, rest: Text)
    requires
        text_laws::is_blank(indent),
        text::lower(word) == "breakpoint "@,
        line == indent + word + rest,
    ensures
        text::lower(text::trim_start(line)) == "breakpoint "@ + text::lower(rest),
{
    reveal_strlit("breakpoint ");
    text_laws::law_lower(word);
    assert(text::lower(word)[0] == 'b');
    assert(word[0] == 'b' || word[0] == 'B');
    let size = indent.len() as int;
    assert(line[size] == word[0]);
    text::lemma_leading(line, text::blank(), size);
    assert(line.skip(size) =~= word + rest);
    text_laws::law_lower_of_parts(word, rest);
}

proof fn lemma_breakpoint_line(line: Text) -> (parts: (Text, Text, Text))
    requires
        text::starts_with(text::lower(text::trim_start(line)), "breakpoint "@),
    ensures
        text_laws::is_blank(parts.0),
        text::lower(parts.1) == "breakpoint "@,
        line == parts.0 + parts.1 + parts.2,
        text::without_prefix(text::lower(text::trim_start(line)), "breakpoint "@) == text::lower(
            parts.2,
        ),
{
    reveal_strlit("breakpoint ");
    text::lemma_leading_run(line, text::blank());
    let size = text::leading(line, text::blank()) as int;
    let indent = line.take(size);
    let body = line.skip(size);
    let word = body.take(11);
    let rest = body.skip(11);
    assert(text::lower(body).subrange(0, 11) =~= text::lower(word));
    assert(text::lower(body).skip(11) =~= text::lower(rest));
    assert(line =~= indent + word + rest);
    (indent, word, rest)
}

proof fn lemma_stop_line(line: Text)
    ensures
        gdb_output::is_stop_line(line) <==> exists|
            indent: Text,
            word: Text,
            front: Text,
            back: Text,
        | #[trigger]
            is_stop(line, indent, word, front, back),
{
    reveal_strlit(",");
    if gdb_output::is_stop_line(line) {
        let (indent, word, rest) = lemma_breakpoint_line(line);
        let low = text::lower(rest);
        let at = choose|at: int| text::occurs_at(low, ","@, at);
        assert(text::occurs_at(low, ","@, at));
        assert(low.subrange(at, at + 1)[0] == ',');
        text_laws::law_lower(rest);
        assert(low[at] == ',');
        assert(rest[at] == ',');
        let front = rest.take(at);
        let back = rest.skip(at + 1);
        assert(rest =~= front + ","@ + back);
        assert(line =~= indent + word + front + ","@ + back);
        assert(is_stop(line, indent, word, front, back));
    }
    if exists|indent: Text, word: Text, front: Text, back: Text| #[trigger]
        is_stop(line, indent, word, front, back) {
        let (indent, word, front, back) = choose|
            indent: Text,
            word: Text,
            front: Text,
            back: Text,
        | #[trigger]
            is_stop(line, indent, word, front, back);
        let rest = front + ","@ + back;
        assert(line =~= indent + word + rest);
        lemma_breakpoint_word(line, indent, word, rest);
        text_laws::law_prefix("breakpoint "@, text::lower(rest));
        assert(text::lower(rest) =~= text::lower(front) + ","@ + text::lower(back));
        text_laws::law_parts_are_contained(text::lower(front), ","@, text::lower(back));
    }
}

proof fn lemma_creation_mark(line: Text, rest: Text, indent: Text, word: Text, mark: Text)
    requires
        text_laws::is_blank(indent),
        text::lower(word) == "breakpoint "@,
        line == indent + word + rest,
        mark == " at 0x"@ || mark == ": file "@ || mark == "pending"@,
        text::contains(text::lower(rest), mark),
    ensures
        exists|indent: Text, word: Text, front: Text, mark: Text, back: Text| #[trigger]
            is_creation(line, indent, word, front, mark, back),
{
    let at = choose|at: int| text::occurs_at(text::lower(rest), mark, at);
    assert(text::occurs_at(text::lower(rest), mark, at));
    let size = mark.len() as int;
    let found = rest.subrange(at, at + size);
    assert(text::lower(found) =~= text::lower(rest).subrange(at, at + size));
    let front = rest.take(at);
    let back = rest.skip(at + size);
    assert(rest =~= front + found + back);
    assert(line =~= indent + word + front + found + back);
    assert(is_creation(line, indent, word, front, found, back));
}

proof fn lemma_creation_line(line: Text)
    ensures
        gdb_output::is_creation_line(line) <==> exists|
            indent: Text,
            word: Text,
            front: Text,
            mark: Text,
            back: Text,
        | #[trigger]
            is_creation(line, indent, word, front, mark, back),
{
    if gdb_output::is_creation_line(line) {
        let (indent, word, rest) = lemma_breakpoint_line(line);
        if text::contains(text::lower(rest), " at 0x"@) {
            lemma_creation_mark(line, rest, indent, word, " at 0x"@);
        } else if text::contains(text::lower(rest), ": file "@) {
            lemma_creation_mark(line, rest, indent, word, ": file "@);
        } else {
            lemma_creation_mark(line, rest, indent, word, "pending"@);
        }
    }
    if exists|indent: Text, word: Text, front: Text, mark: Text, back: Text| #[trigger]
        is_creation(line, indent, word, front, mark, back) {
        let (indent, word, front, mark, back) = choose|
            indent: Text,
            word: Text,
            front: Text,
            mark: Text,
            back: Text,
        | #[trigger]
            is_creation(line, indent, word, front, mark, back);
        let rest = front + mark + back;
        assert(line =~= indent + word + rest);
        lemma_breakpoint_word(line, indent, word, rest);
        text_laws::law_prefix("breakpoint "@, text::lower(rest));
        assert(text::lower(rest) =~= text::lower(front) + text::lower(mark) + text::lower(back));
        text_laws::law_parts_are_contained(
            text::lower(front),
            text::lower(mark),
            text::lower(back),
        );
    }
}

/// An output tells of a stop if and only if some line of it is `Breakpoint` and
/// something with a comma.
pub proof fn law_stops_are_told_by_lines(output: Text)
    ensures
        gdb_output::shows_stop(output) <==> tells_stop(output),
{
    let lines = text::lines(output);
    if gdb_output::shows_stop(output) {
        let i = choose|i: int|
            0 <= i < lines.len() && gdb_output::is_stop_line(#[trigger] lines[i]);
        lemma_stop_line(lines[i]);
    }
    if tells_stop(output) {
        let (i, indent, word, front, back) = choose|
            i: int,
            indent: Text,
            word: Text,
            front: Text,
            back: Text,
        |
            0 <= i < lines.len() && #[trigger] is_stop(lines[i], indent, word, front, back);
        lemma_stop_line(lines[i]);
        assert(gdb_output::is_stop_line(lines[i]));
    }
}

/// An output tells of a new breakpoint if and only if some line of it is
/// `Breakpoint` and something with an address, a file or a pending breakpoint.
pub proof fn law_creations_are_told_by_lines(output: Text)
    ensures
        gdb_output::shows_creation(output) <==> tells_creation(output),
{
    let lines = text::lines(output);
    if gdb_output::shows_creation(output) {
        let i = choose|i: int|
            0 <= i < lines.len() && gdb_output::is_creation_line(#[trigger] lines[i]);
        lemma_creation_line(lines[i]);
    }
    if tells_creation(output) {
        let (i, indent, word, front, mark, back) = choose|
            i: int,
            indent: Text,
            word: Text,
            front: Text,
            mark: Text,
            back: Text,
        |
            0 <= i < lines.len() && #[trigger] is_creation(
                lines[i],
                indent,
                word,
                front,
                mark,
                back,
            );
        lemma_creation_line(lines[i]);
        assert(gdb_output::is_creation_line(lines[i]));
    }
}

// ---------------------------------------------------------------------------
// States
// ---------------------------------------------------------------------------

/// A refusal is an error, whatever else gdb says.
pub proof fn law_a_refusal_is_an_error(
    previous: DebuggerState,
    output: Text,
    fallback: Option<DebuggerState>,
)
    requires
        refuses(output),
    ensures
        gdb_output::state_after(previous, output, fallback) == DebuggerState::Error,
{
}

/// Where nothing is refused, each signal has its state. Of two that are named
/// it is the one that comes first here.
pub proof fn law_signals_have_their_states(
    previous: DebuggerState,
    output: Text,
    fallback: Option<DebuggerState>,
)
    requires
        !refuses(output),
        names_signal(output),
    ensures
        gdb_output::state_after(previous, output, fallback) == (if says(output, "sigsegv"@) || says(
            output,
            "segmentation fault"@,
        ) {
            DebuggerState::SigSegv
        } else if says(output, "sigabrt"@) {
            DebuggerState::SigAbrt
        } else if says(output, "sigbus"@) || says(output, "bus error"@) {
            DebuggerState::SigBus
        } else if says(output, "sigfpe"@) || says(output, "floating point exception"@) {
            DebuggerState::SigFpe
        } else if says(output, "sigill"@) || says(output, "illegal instruction"@) {
            DebuggerState::SigIll
        } else if says(output, "sigtrap"@) {
            DebuggerState::SigTrap
        } else if says(output, "sigterm"@) {
            DebuggerState::SigTerm
        } else {
            DebuggerState::SigKill
        }),
{
}

/// An interrupt is a stop; any other signal is an error.
pub proof fn law_other_signals(
    previous: DebuggerState,
    output: Text,
    fallback: Option<DebuggerState>,
)
    requires
        !refuses(output),
        !names_signal(output),
    ensures
        names_interrupt(output) ==> gdb_output::state_after(previous, output, fallback)
            == DebuggerState::StoppedAtStepping,
        !names_interrupt(output) && tells_signal(output) ==> gdb_output::state_after(
            previous,
            output,
            fallback,
        ) == DebuggerState::Error,
{
}

/// A program that has come to a breakpoint stands there, whatever else gdb
/// says: also that it was started, or goes on.
pub proof fn law_stops_are_seen(
    previous: DebuggerState,
    output: Text,
    fallback: Option<DebuggerState>,
)
    requires
        is_quiet(output),
        tells_stop(output),
    ensures
        gdb_output::state_after(previous, output, fallback) == DebuggerState::StoppedAtBreakpoint,
{
    law_stops_are_told_by_lines(output);
}

/// A stop is seen in any line of the output.
pub proof fn law_stops_are_seen_in_any_line(
    previous: DebuggerState,
    before: Text,
    line: Text,
    indent: Text,
    word: Text,
    front: Text,
    back: Text,
    behind: Text,
    fallback: Option<DebuggerState>,
)
    requires
        before.len() == 0 || before.last() == '\n',
        text_laws::is_one_line(line),
        line.last() != '\r',
        is_stop(line, indent, word, front, back),
        is_quiet(before + (line + seq!['\n'] + behind)),
    ensures
        gdb_output::state_after(previous, before + (line + seq!['\n'] + behind), fallback)
            == DebuggerState::StoppedAtBreakpoint,
{
    let output = before + (line + seq!['\n'] + behind);
    text_laws::law_lines_of_two(before, line + seq!['\n'] + behind);
    text_laws::law_lines(line, behind);
    let i = text::lines(before).len() as int;
    assert(text::lines(output)[i] == line);
    assert(is_stop(text::lines(output)[i], indent, word, front, back));
    law_stops_are_seen(previous, output, fallback);
}

/// A program that was run, or goes on, and stops at a breakpoint is not running.
pub proof fn law_runs_that_stop_are_stops(
    previous: DebuggerState,
    begin: Text,
    number: Text,
    place: Text,
    behind: Text,
    fallback: Option<DebuggerState>,
)
    requires
        begin == "Continuing."@ || exists|path: Text|
            begin == #[trigger] ("Starting program: "@ + path),
        text_laws::is_one_line(begin),
        text_laws::is_one_line(number),
        text_laws::is_one_line(place),
        place.len() > 0,
        place.last() != '\r',
        is_quiet(
            begin + seq!['\n'] + ("Breakpoint "@ + number + ","@ + place + seq!['\n'] + behind),
        ),
    ensures
        gdb_output::state_after(
            previous,
            begin + seq!['\n'] + ("Breakpoint "@ + number + ","@ + place + seq!['\n'] + behind),
            fallback,
        ) == DebuggerState::StoppedAtBreakpoint,
{
    reveal_strlit("Breakpoint ");
    reveal_strlit("breakpoint ");
    reveal_strlit(",");
    let line = "Breakpoint "@ + number + ","@ + place;
    let empty = Seq::<char>::empty();
    assert(text::lower("Breakpoint "@) =~= "breakpoint "@);
    assert(line =~= empty + "Breakpoint "@ + number + ","@ + place);
    assert(is_stop(line, empty, "Breakpoint "@, number, place));
    text_laws::lemma_one_line("Breakpoint "@, number);
    text_laws::lemma_one_line("Breakpoint "@ + number, ","@);
    text_laws::lemma_one_line("Breakpoint "@ + number + ","@, place);
    assert(line.last() == place.last());
    law_stops_are_seen_in_any_line(
        previous,
        begin + seq!['\n'],
        line,
        empty,
        "Breakpoint "@,
        number,
        place,
        behind,
        fallback,
    );
}

/// A new breakpoint does not change the state; a watchpoint or a catchpoint is
/// a stop.
pub proof fn law_new_breakpoints_and_watchpoints(
    previous: DebuggerState,
    output: Text,
    fallback: Option<DebuggerState>,
)
    requires
        is_quiet(output),
        !tells_stop(output),
    ensures
        tells_creation(output) ==> gdb_output::state_after(previous, output, fallback) == previous,
        !tells_creation(output) && (says(output, "watchpoint"@) || says(output, "catchpoint"@))
            ==> gdb_output::state_after(previous, output, fallback)
            == DebuggerState::StoppedAtBreakpoint,
{
    law_stops_are_told_by_lines(output);
    law_creations_are_told_by_lines(output);
}

/// A program that has ended has ended, also where gdb says that it goes on; and
/// where there is none, nothing is attached.
pub proof fn law_ends_are_seen(
    previous: DebuggerState,
    output: Text,
    fallback: Option<DebuggerState>,
)
    requires
        is_about_no_stop(output),
    ensures
        tells_exit(output) ==> gdb_output::state_after(previous, output, fallback)
            == DebuggerState::Exited,
        !tells_exit(output) && tells_absence(output) ==> gdb_output::state_after(
            previous,
            output,
            fallback,
        ) == DebuggerState::NotAttached,
{
    law_stops_are_told_by_lines(output);
    law_creations_are_told_by_lines(output);
}

/// What else gdb says of a program that neither stands at a breakpoint nor has
/// ended.
pub proof fn law_the_rest_is_seen(
    previous: DebuggerState,
    output: Text,
    fallback: Option<DebuggerState>,
)
    requires
        is_about_no_stop(output),
        !tells_exit(output),
        !tells_absence(output),
    ensures
        gdb_output::state_after(previous, output, fallback) == (if tells_running(output) {
            DebuggerState::Running
        } else if says(output, "interrupted"@) {
            DebuggerState::StoppedAtBreakpoint
        } else if says(output, "cannot access memory"@) {
            DebuggerState::Error
        } else if says(output, "detaching"@) || says(output, "process finished"@) {
            DebuggerState::NotAttached
        } else if says(output, "inferior"@) && says(output, "killed"@) {
            DebuggerState::SigKill
        } else if fallback is Some {
            fallback->0
        } else {
            previous
        }),
{
    law_stops_are_told_by_lines(output);
    law_creations_are_told_by_lines(output);
}

/// A program is told to run only where gdb tells of no refusal, no signal, no
/// stop and no end.
pub proof fn law_running_programs_run(
    previous: DebuggerState,
    output: Text,
    fallback: Option<DebuggerState>,
)
    requires
        gdb_output::state_after(previous, output, fallback) == DebuggerState::Running,
        previous != DebuggerState::Running,
    ensures
        is_about_no_stop(output),
        !tells_exit(output),
        !tells_absence(output),
        tells_running(output) || fallback == Some(DebuggerState::Running),
{
    law_stops_are_told_by_lines(output);
    law_creations_are_told_by_lines(output);
    if refuses(output) {
        law_a_refusal_is_an_error(previous, output, fallback);
    } else if names_signal(output) {
        law_signals_have_their_states(previous, output, fallback);
    } else if !is_quiet(output) {
        law_other_signals(previous, output, fallback);
    } else if tells_stop(output) {
        law_stops_are_seen(previous, output, fallback);
    } else if !is_about_no_stop(output) {
        law_new_breakpoints_and_watchpoints(previous, output, fallback);
    } else if tells_exit(output) || tells_absence(output) {
        law_ends_are_seen(previous, output, fallback);
    } else {
        law_the_rest_is_seen(previous, output, fallback);
    }
}

// ---------------------------------------------------------------------------
// Errors
// ---------------------------------------------------------------------------

/// An output looks like an error if and only if gdb refuses the command or
/// cannot access memory.
pub proof fn law_errors_are_seen(output: Text)
    ensures
        gdb_output::shows_error(output) <==> refuses(output) || says(
            output,
            "cannot access memory"@,
        ),
{
}

/// Which errors are soft.
pub proof fn law_soft_errors(error: Text)
    ensures
        gdb_output::is_soft_error(text::lower(error)) <==> {
            ||| says(error, "no symbol"@)
            ||| says(error, "unknown thread"@)
            ||| says(error, "no frame at level"@)
            ||| says(error, "no source file named"@)
            ||| says(error, "no breakpoint at"@)
            ||| says(error, "no breakpoint number"@)
            ||| says(error, "a syntax error in expression"@)
            ||| says(error, "cannot find bounds of current function"@)
        },
{
}

} // verus!
