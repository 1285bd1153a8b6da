//! What the operations are for: what each asks of gdb, what it tells by gdb's
//! replies, and how it leaves the session.
use vstd::prelude::*;

use crate::config::Config;
use crate::dialogues;
use crate::dialogues::Gdb;
use crate::gdb_output;
use crate::laws;
use crate::number;
use crate::operation;
use crate::operation::{Reply, RequestView, ToolOperation};
use crate::outcomes::Told;
use crate::output_laws;
use crate::paths;
use crate::plan;
use crate::plan::{Frames, Session};
use crate::protocol::{Code, DebuggerState, Response};
use crate::state_laws;
use crate::text;
use crate::text::Text;

verus! {

// ---------------------------------------------------------------------------
// What is told
// ---------------------------------------------------------------------------

/// Nothing was attached, or it failed.
pub open spec fn is_off(state: DebuggerState) -> bool {
    match state {
        DebuggerState::NotAttached => true,
        DebuggerState::FailedToAttach => true,
        DebuggerState::GdbServerFailedToAttach => true,
        _ => false,
    }
}

/// A signal stopped the program whose frames are always told.
pub open spec fn is_crash(state: DebuggerState) -> bool {
    match state {
        DebuggerState::SigSegv => true,
        DebuggerState::SigFpe => true,
        DebuggerState::SigIll => true,
        _ => false,
    }
}

/// An answer that tells a state and an error, and nothing else.
pub open spec fn bare(state: DebuggerState, error: Text) -> Response {
    Response {
        state,
        error,
        command_output: None,
        variable_list: None,
        backtrace: None,
        current_func: None,
        current_code_path: None,
        current_code_line: None,
        current_code: None,
        breakpoints: None,
    }
}

/// The state that a session looks at the program in: one that runs is stopped,
/// and an error is left.
pub open spec fn looking(s: Session) -> DebuggerState {
    match s.state {
        DebuggerState::Running => DebuggerState::StoppedAtStepping,
        DebuggerState::Error => if s.executable is Some {
            DebuggerState::Attached
        } else {
            DebuggerState::NotAttached
        },
        state => state,
    }
}

/// A value is told as gdb's reply to `print` has it: all that stands behind the
/// first equals sign, or all of it; or what went wrong.
pub open spec fn shows_value(reply: Reply, told: Text) -> bool {
    match operation::outcome(reply) {
        Err(error) => told == "<error: "@ + error + ">"@,
        Ok(output) => if state_laws::refuses(output) || state_laws::says(
            output,
            "cannot access memory"@,
        ) {
            gdb_output::command_output(output) matches Some(shown) ==> told == "<error: "@ + shown
                + ">"@
        } else {
            &&& !text::contains(output, "="@) ==> told == text::trim(output)
            &&& forall|name: Text, value: Text|
                output == #[trigger] (name + "="@ + value) && !text::contains(name, "="@) ==> told
                    == text::trim(value)
        },
    }
}

/// What is told of the watched variables: as many as the configuration allows,
/// in their order, each with what gdb printed for it.
pub open spec fn are_values(s: Session, gdb: Gdb, list: Seq<(Text, Text)>) -> bool {
    &&& list.len() == if s.watched.len() <= s.config.display_variable_list {
        s.watched.len() as int
    } else {
        s.config.display_variable_list as int
    }
    &&& forall|i: int|
        0 <= i < list.len() ==> (#[trigger] list[i]).0 == s.watched[i] && shows_value(
            gdb(RequestView::Exec("print "@ + s.watched[i])),
            list[i].1,
        )
}

/// The frames are those that gdb printed: in full, or in the plain form where it
/// printed none in full.
pub open spec fn are_frames(s: Session, gdb: Gdb, frames: Frames) -> bool {
    let limit = s.config.display_backtrace as nat;
    match dialogues::reply_to(gdb, "backtrace full"@) {
        Ok(output) => exists|full: Frames|
            #![trigger output_laws::are_first_frames(text::lines(output), limit, full)]
            output_laws::are_first_frames(text::lines(output), limit, full) && (if full.dom()
                =~= Set::empty() {
                dialogues::reply_to(gdb, "backtrace"@) matches Ok(plain)
                    && output_laws::are_first_frames(text::lines(plain), limit, frames)
            } else {
                frames == full
            }),
        Err(error) => false,
    }
}

/// The function is that of the frame with the smallest number.
pub open spec fn is_function_of(frames: Frames, function: Option<Text>) -> bool {
    &&& forall|frame: u64|
        #![trigger frames.contains_key(frame)]
        frames.contains_key(frame) && (forall|other: u64|
            #![trigger frames.contains_key(other)]
            frames.contains_key(other) ==> frame <= other) ==> function == Some(frames[frame].0)
    &&& frames.dom() =~= Set::empty() ==> function is None
}

/// The path, the line and the source are those that gdb printed.
pub open spec fn is_place(s: Session, gdb: Gdb, r: Response) -> bool {
    match dialogues::place_told(s, gdb) {
        Ok(place) => {
            &&& r.current_code_path == place.path
            &&& r.current_code_line == (match place.line {
                Some(line) => if line <= 0x7fff_ffff_ffff_ffff {
                    Some(line as i64)
                } else {
                    None
                },
                None => None,
            })
            &&& r.current_code == (match place.code {
                Some(code) => if s.config.display_join_current_code {
                    Some(Code::Joined(gdb_output::shown_lines(gdb_output::in_order(code))))
                } else {
                    Some(Code::Lines(code))
                },
                None => None,
            })
        },
        Err(error) => false,
    }
}

/// An answer shows the program: variables, frames and source, as gdb printed
/// them.
pub open spec fn is_snapshot(s: Session, gdb: Gdb, r: Response) -> bool {
    &&& r.variable_list matches Some(list) && are_values(s, gdb, list)
    &&& r.backtrace matches Some(frames) && are_frames(s, gdb, frames) && is_function_of(
        frames,
        r.current_func,
    )
    &&& is_place(s, gdb, r)
    &&& r.state == s.state
    &&& r.error == s.last_error
    &&& r.command_output is None
    &&& r.breakpoints is None
}

proof fn lemma_value(reply: Reply)
    ensures
        shows_value(reply, plan::variable_value(reply)),
{
    let told = plan::variable_value(reply);
    match operation::outcome(reply) {
        Ok(output) => {
            state_laws::law_errors_are_seen(output);
            if !gdb_output::shows_error(output) {
                if !text::contains(output, "="@) {
                    output_laws::law_values_without_name(output);
                }
                assert forall|name: Text, value: Text|
                    output == #[trigger] (name + "="@ + value) && !text::contains(name, "="@)
                        implies told == text::trim(value) by {
                    output_laws::law_values_are_whole(name, value);
                }
            }
        },
        Err(error) => {},
    }
}

proof fn lemma_values(s: Session, gdb: Gdb)
    ensures
        are_values(s, gdb, dialogues::values(s, gdb)),
{
    let list = dialogues::values(s, gdb);
    assert forall|i: int| 0 <= i < list.len() implies (#[trigger] list[i]).0 == s.watched[i]
        && shows_value(gdb(RequestView::Exec("print "@ + s.watched[i])), list[i].1) by {
        lemma_value(gdb(RequestView::Exec("print "@ + s.watched[i])));
    }
}

proof fn lemma_frames(s: Session, gdb: Gdb, frames: Frames)
    requires
        dialogues::frames_told(s, gdb) == Ok::<Frames, Text>(frames),
    ensures
        are_frames(s, gdb, frames),
        is_function_of(frames, gdb_output::innermost_function(frames)),
{
    let limit = s.config.display_backtrace as nat;
    match dialogues::reply_to(gdb, "backtrace full"@) {
        Ok(output) => {
            let full = gdb_output::frames_of(text::lines(output), limit, Map::empty());
            output_laws::law_no_frame_is_lost(text::lines(output), limit);
            match dialogues::reply_to(gdb, "backtrace"@) {
                Ok(plain) => {
                    output_laws::law_no_frame_is_lost(text::lines(plain), limit);
                },
                Err(error) => {},
            }
            assert(output_laws::are_first_frames(text::lines(output), limit, full));
            assert(full.dom().is_empty() <==> full.dom() =~= Set::empty());
        },
        Err(error) => {},
    }
    lemma_function(frames);
}

proof fn lemma_function(frames: Frames)
    ensures
        is_function_of(frames, gdb_output::innermost_function(frames)),
{
    let function = gdb_output::innermost_function(frames);
    assert forall|frame: u64|
        #![trigger frames.contains_key(frame)]
        frames.contains_key(frame) && (forall|other: u64|
            #![trigger frames.contains_key(other)]
            frames.contains_key(other) ==> frame <= other) implies function == Some(
        frames[frame].0,
    ) by {
        output_laws::law_innermost_functions(frames, frame);
    }
    if frames.dom() =~= Set::empty() {
        if exists|number: u64| gdb_output::is_lowest(frames, number) {
            let number = choose|number: u64| gdb_output::is_lowest(frames, number);
            assert(frames.contains_key(number));
            assert(frames.dom().contains(number));
        }
    }
}

/// A program that is shown is shown as gdb prints it, and it is shown wherever
/// gdb prints its frames and its place.
proof fn lemma_snapshot(s: Session, gdb: Gdb)
    ensures
        dialogues::run(plan::snapshot(s), gdb).0 == s,
        match dialogues::run(plan::snapshot(s), gdb).1 {
            Ok(r) => is_snapshot(s, gdb, r),
            Err(error) => dialogues::frames_told(s, gdb) is Err || dialogues::place_told(s, gdb)
                is Err,
        },
{
    dialogues::lemma_snapshot(s, gdb);
    lemma_values(s, gdb);
    match dialogues::frames_told(s, gdb) {
        Ok(frames) => lemma_frames(s, gdb, frames),
        Err(error) => {},
    }
}

// ---------------------------------------------------------------------------
// Looking at the program
// ---------------------------------------------------------------------------

/// The result is this answer, and to a crash also the frames that gdb prints; it
/// fails only where these cannot be had.
pub open spec fn tells(t: Session, gdb: Gdb, result: Told, wanted: Response) -> bool {
    if is_crash(wanted.state) && t.executable is Some {
        match result {
            Ok(r) => {
                &&& r.backtrace matches Some(frames) && are_frames(t, gdb, frames)
                    && is_function_of(frames, r.current_func)
                &&& r == (Response {
                    backtrace: r.backtrace,
                    current_func: r.current_func,
                    ..wanted
                })
            },
            Err(error) => dialogues::frames_told(t, gdb) == Err::<Frames, Text>(error),
        }
    } else {
        result == Ok::<Response, Text>(wanted)
    }
}

/// To ask for the state tells the state and the error of the session, and to a
/// crash its frames.
pub proof fn law_states_are_told(s: Session, gdb: Gdb)
    ensures
        ({
            let (t, result) = dialogues::run(plan::execute(s, ToolOperation::DebuggerState), gdb);
            &&& t == s
            &&& tells(t, gdb, result, bare(s.state, s.last_error))
            &&& dialogues::requests(plan::execute(s, ToolOperation::DebuggerState), gdb)
                == dialogues::crash_requests(s, gdb)
        }),
{
    lemma_told(s, plan::base_response(s), gdb);
}

proof fn lemma_told(s: Session, r: Response, gdb: Gdb)
    requires
        r.state == s.state,
        r.current_func is None,
        r.backtrace is None,
    ensures
        dialogues::run(plan::respond(s, r), gdb).0 == s,
        tells(s, gdb, dialogues::run(plan::respond(s, r), gdb).1, r),
        dialogues::requests(plan::respond(s, r), gdb) == dialogues::crash_requests(s, gdb),
{
    dialogues::lemma_respond(s, r, gdb);
    match dialogues::frames_told(s, gdb) {
        Ok(frames) => lemma_frames(s, gdb, frames),
        Err(error) => {},
    }
}

/// The watched variables are shown with the values that gdb prints: after one
/// was added, after one was deleted, and on request. Nothing else is changed
/// but the state that the program is looked at in.
pub proof fn law_watched_values_are_shown(s: Session, operation: ToolOperation, gdb: Gdb)
    requires
        operation is AddVariable || operation is DelVariable || operation is VariableList,
        !is_off(s.state),
        s.state != DebuggerState::Exited,
    ensures
        ({
            let (t, result) = dialogues::run(plan::execute(s, operation), gdb);
            &&& match operation {
                ToolOperation::AddVariable { var } => t.watched == if s.watched.contains(var@) {
                    s.watched
                } else {
                    s.watched.push(var@)
                },
                ToolOperation::DelVariable { var } => {
                    &&& !t.watched.contains(var@)
                    &&& forall|other: Text|
                        other != var@ ==> (#[trigger] t.watched.contains(other)
                            <==> s.watched.contains(other))
                    &&& t.watched == s.watched.filter(plan::all_but(var@))
                    &&& !s.watched.contains(var@) ==> t.watched == s.watched
                },
                _ => t.watched == s.watched,
            }
            &&& t == (Session {
                watched: t.watched,
                state: looking(s),
                last_error: Seq::empty(),
                ..s
            })
            &&& exists|list: Seq<(Text, Text)>| #[trigger]
                are_values(t, gdb, list) && tells(
                    t,
                    gdb,
                    result,
                    Response { variable_list: Some(list), ..bare(t.state, Seq::empty()) },
                )
            &&& dialogues::requests(plan::execute(s, operation), gdb) == dialogues::stops(s)
                + dialogues::prints(t) + dialogues::crash_requests(t, gdb)
        }),
{
    let u = match operation {
        ToolOperation::AddVariable { var } => plan::watching(s, var@),
        ToolOperation::DelVariable { var } => plan::unwatching(s, var@),
        _ => s,
    };
    match operation {
        ToolOperation::DelVariable { var } => {
            laws::law_deleted_variables_are_not_watched(s, var@);
            if !s.watched.contains(var@) {
                laws::lemma_filter_of_absent(s.watched, var@);
            }
        },
        _ => {},
    }
    dialogues::lemma_resync(u, plan::showing_variables(), gdb);
    let v = plan::recovered(dialogues::stopped_first(u));
    let base = plan::base_response(v);
    let empty = Seq::<(Text, Text)>::empty();
    assert(empty =~= dialogues::values(v, gdb).take(0));
    dialogues::lemma_variables(v, empty, plan::variables_shown(v, base), gdb);
    lemma_values(v, gdb);
    let list = dialogues::values(v, gdb);
    lemma_told(v, Response { variable_list: Some(list), ..base }, gdb);
    assert(base == bare(v.state, Seq::empty()));
    assert(are_values(v, gdb, list));
    assert(dialogues::prints(v).skip(0) =~= dialogues::prints(v));
    let end = dialogues::crash_requests(v, gdb);
    assert(dialogues::stops(s) + (dialogues::prints(v) + end) =~= dialogues::stops(s)
        + dialogues::prints(v) + end);
}

/// Where there is nothing to look at, variables are still added and deleted,
/// and none is shown.
pub proof fn law_no_values_without_program(s: Session, operation: ToolOperation, gdb: Gdb)
    requires
        operation is AddVariable || operation is DelVariable || operation is VariableList,
        is_off(s.state) || s.state == DebuggerState::Exited,
    ensures
        ({
            let (t, result) = dialogues::run(plan::execute(s, operation), gdb);
            &&& operation matches ToolOperation::AddVariable { var } ==> t.watched
                == if s.watched.contains(var@) {
                s.watched
            } else {
                s.watched.push(var@)
            }
            &&& operation is VariableList ==> t.watched == s.watched
            &&& t == (Session { watched: t.watched, ..s })
            &&& result == Ok::<Response, Text>(
                Response { variable_list: Some(Seq::empty()), ..bare(s.state, s.last_error) },
            )
            &&& dialogues::requests(plan::execute(s, operation), gdb) == Seq::<RequestView>::empty()
        }),
{
}

/// The frames that gdb prints are shown, with the function of the innermost.
pub proof fn law_backtraces_are_shown(s: Session, gdb: Gdb)
    requires
        !is_off(s.state),
    ensures
        ({
            let (t, result) = dialogues::run(plan::execute(s, ToolOperation::FullBacktrace), gdb);
            &&& t == (Session {
                state: if s.state == DebuggerState::Error {
                    looking(s)
                } else {
                    s.state
                },
                last_error: Seq::empty(),
                ..s
            })
            &&& match result {
                Ok(r) => {
                    &&& r.backtrace matches Some(frames) && are_frames(t, gdb, frames)
                        && is_function_of(frames, r.current_func)
                    &&& r == (Response {
                        backtrace: r.backtrace,
                        current_func: r.current_func,
                        ..bare(t.state, Seq::empty())
                    })
                },
                Err(error) => dialogues::frames_told(t, gdb) == Err::<Frames, Text>(error),
            }
            &&& dialogues::requests(plan::execute(s, ToolOperation::FullBacktrace), gdb)
                == dialogues::frame_requests(t, gdb)
        }),
{
    let v = plan::recovered(s);
    assert(dialogues::frame_requests(v, gdb) + Seq::<RequestView>::empty()
        =~= dialogues::frame_requests(v, gdb));
    let base = plan::base_response(v);
    dialogues::lemma_backtrace(v, plan::backtrace_shown(v, base), gdb);
    match dialogues::frames_told(v, gdb) {
        Ok(frames) => {
            lemma_frames(v, gdb, frames);
            dialogues::lemma_respond(
                v,
                Response {
                    backtrace: Some(frames),
                    current_func: gdb_output::innermost_function(frames),
                    ..base
                },
                gdb,
            );
        },
        Err(error) => {},
    }
}

/// The source around the place that gdb prints is shown; that there is none is
/// told.
pub proof fn law_source_is_shown(s: Session, gdb: Gdb)
    requires
        !is_off(s.state),
    ensures
        ({
            let (t, result) = dialogues::run(plan::execute(s, ToolOperation::CurrentCode), gdb);
            &&& t == (Session { state: looking(s), last_error: Seq::empty(), ..s })
            &&& match dialogues::place_told(t, gdb) {
                Ok(place) => exists|wanted: Response| #[trigger]
                    is_place(t, gdb, wanted) && tells(t, gdb, result, wanted) && wanted == (
                    Response {
                        current_code_path: wanted.current_code_path,
                        current_code_line: wanted.current_code_line,
                        current_code: wanted.current_code,
                        ..bare(
                            t.state,
                            if wanted.current_code_path is None && wanted.current_code_line is None
                                && wanted.current_code is None {
                                "no current frame"@
                            } else {
                                Seq::empty()
                            },
                        )
                    }),
                Err(error) => result == Err::<Response, Text>(error),
            }
            &&& dialogues::requests(plan::execute(s, ToolOperation::CurrentCode), gdb)
                == dialogues::stops(s) + dialogues::place_requests(t, gdb) + (
            if dialogues::place_told(t, gdb) is Ok {
                dialogues::crash_requests(t, gdb)
            } else {
                Seq::empty()
            })
        }),
{
    dialogues::lemma_resync(s, plan::showing_current_code(), gdb);
    let v = plan::recovered(dialogues::stopped_first(s));
    let base = plan::base_response(v);
    dialogues::lemma_place(v, plan::current_code_shown(v, base), gdb);
    let end = match dialogues::place_told(v, gdb) {
        Ok(place) => {
            let told = plan::with_place(v, base, place);
            let wanted = if told.current_code_path is None && told.current_code_line is None
                && told.current_code is None {
                Response { error: "no current frame"@, ..told }
            } else {
                told
            };
            lemma_told(v, wanted, gdb);
            assert(is_place(v, gdb, wanted));
            dialogues::crash_requests(v, gdb)
        },
        Err(error) => Seq::empty(),
    };
    let place = dialogues::place_requests(v, gdb);
    assert(dialogues::stops(s) + (place + end) =~= dialogues::stops(s) + place + end);
}

/// The table of breakpoints is listed as gdb prints it, row by row.
pub proof fn law_breakpoints_are_listed(s: Session, gdb: Gdb)
    requires
        !is_off(s.state),
    ensures
        ({
            let (t, result) = dialogues::run(plan::execute(s, ToolOperation::ListBreakpoint), gdb);
            match dialogues::reply_to(gdb, "info breakpoints"@) {
                Ok(output) => {
                    &&& t == (Session { state: looking(s), last_error: Seq::empty(), ..s })
                    &&& tells(
                        t,
                        gdb,
                        result,
                        Response {
                            breakpoints: Some(gdb_output::breakpoint_table(text::lines(output))),
                            ..bare(t.state, Seq::empty())
                        },
                    )
                    &&& dialogues::requests(plan::execute(s, ToolOperation::ListBreakpoint), gdb)
                        == dialogues::sends(s, "info breakpoints"@) + dialogues::crash_requests(
                        t,
                        gdb,
                    )
                },
                Err(error) => {
                    &&& t == (Session { state: DebuggerState::Error, last_error: error, ..s })
                    &&& result == Ok::<Response, Text>(bare(DebuggerState::Error, error))
                },
            }
        }),
{
    dialogues::lemma_resync(s, plan::listing_breakpoints(), gdb);
    let v = plan::recovered(dialogues::stopped_first(s));
    reveal_with_fuel(dialogues::run, 2);
    reveal_with_fuel(dialogues::requests, 2);
    lemma_not_continue(ToolOperation::ListBreakpoint, "info breakpoints"@);
    let table = RequestView::Exec("info breakpoints"@);
    let end = dialogues::crash_requests(v, gdb);
    assert(dialogues::stops(s) + (seq![table] + end) =~= dialogues::stops(s).push(table) + end);
    match dialogues::reply_to(gdb, "info breakpoints"@) {
        Ok(output) => {
            lemma_told(
                v,
                Response {
                    breakpoints: Some(gdb_output::breakpoint_table(text::lines(output))),
                    ..plan::base_response(v)
                },
                gdb,
            );
        },
        Err(error) => {
            lemma_told(
                plan::troubled(v, DebuggerState::Error, error),
                plan::base_response(plan::troubled(v, DebuggerState::Error, error)),
                gdb,
            );
        },
    }
}

// ---------------------------------------------------------------------------
// Letting the program go on
// ---------------------------------------------------------------------------

/// The command by which the program goes on, and what it is taken to do where
/// gdb says nothing of it.
pub open spec fn going_on(operation: ToolOperation) -> Option<(Text, DebuggerState)> {
    match operation {
        ToolOperation::Run => Some(("run"@, DebuggerState::Running)),
        ToolOperation::Next => Some(("next"@, DebuggerState::StoppedAtStepping)),
        ToolOperation::Step => Some(("step"@, DebuggerState::StoppedAtStepping)),
        ToolOperation::Continue => Some(("continue"@, DebuggerState::Running)),
        _ => None,
    }
}

/// A program that stands where `operation` let it go is shown.
pub open spec fn shows_where(operation: ToolOperation, state: DebuggerState) -> bool {
    match state {
        DebuggerState::StoppedAtBreakpoint => true,
        DebuggerState::StoppedAtStepping => !(operation is Run),
        DebuggerState::Attached => !(operation is Run),
        DebuggerState::GdbServerAttached => !(operation is Run),
        _ => false,
    }
}

/// A program that is let go on is in the state that gdb tells, or in the one that
/// is taken where it tells none. Where it comes to rest it is shown; elsewhere
/// its state is told.
pub proof fn law_programs_are_told_by_their_state(
    s: Session,
    operation: ToolOperation,
    command: Text,
    fallback: DebuggerState,
    output: Text,
    state: DebuggerState,
    gdb: Gdb,
)
    requires
        going_on(operation) == Some((command, fallback)),
        s.executable is Some,
        !is_off(s.state),
        dialogues::reply_to(gdb, command) == Ok::<Text, Text>(output),
        state == gdb_output::state_after(
            dialogues::ready_for(s, command).state,
            output,
            Some(fallback),
        ),
        state != DebuggerState::Error,
    ensures
        ({
            let (t, result) = dialogues::run(plan::execute(s, operation), gdb);
            &&& t == (Session { state, last_error: Seq::empty(), ..s })
            &&& shows_where(operation, state) ==> (match result {
                Ok(r) => is_snapshot(t, gdb, r),
                Err(error) => dialogues::frames_told(t, gdb) is Err || dialogues::place_told(t, gdb)
                    is Err,
            })
            &&& !shows_where(operation, state) ==> tells(
                t,
                gdb,
                result,
                bare(state, Seq::empty()),
            )
            &&& dialogues::requests(plan::execute(s, operation), gdb) == dialogues::sends(
                s,
                command,
            ) + (if shows_where(operation, state) {
                dialogues::snapshot_requests(t, gdb)
            } else {
                dialogues::crash_requests(t, gdb)
            })
        }),
{
    let told = if operation is Run {
        plan::show_breakpoint()
    } else {
        plan::show_rest()
    };
    dialogues::lemma_command(s, command, Some(fallback), false, told, gdb);
    let u = dialogues::ready_for(s, command);
    let t = plan::after_output(u, output, Some(fallback));
    assert(t == plan::in_state(s, state));
    let r = Response { command_output: None, ..plan::base_response(t) };
    assert(r == plan::base_response(t));
    lemma_snapshot(t, gdb);
    dialogues::lemma_snapshot(t, gdb);
    lemma_told(t, plan::base_response(t), gdb);
}

/// A program that is let go on and comes to a breakpoint stands there, whatever
/// else gdb says, and is shown.
pub proof fn law_stops_at_breakpoints_are_shown(
    s: Session,
    operation: ToolOperation,
    command: Text,
    fallback: DebuggerState,
    output: Text,
    gdb: Gdb,
)
    requires
        going_on(operation) == Some((command, fallback)),
        s.executable is Some,
        !is_off(s.state),
        dialogues::reply_to(gdb, command) == Ok::<Text, Text>(output),
        state_laws::is_quiet(output),
        state_laws::tells_stop(output),
    ensures
        ({
            let (t, result) = dialogues::run(plan::execute(s, operation), gdb);
            &&& t == (Session {
                state: DebuggerState::StoppedAtBreakpoint,
                last_error: Seq::empty(),
                ..s
            })
            &&& match result {
                Ok(r) => is_snapshot(t, gdb, r),
                Err(error) => dialogues::frames_told(t, gdb) is Err || dialogues::place_told(t, gdb)
                    is Err,
            }
        }),
{
    let u = dialogues::ready_for(s, command);
    state_laws::law_stops_are_seen(u.state, output, Some(fallback));
    law_programs_are_told_by_their_state(
        s,
        operation,
        command,
        fallback,
        output,
        DebuggerState::StoppedAtBreakpoint,
        gdb,
    );
}

/// A program that is let go on and ends has ended, also where gdb says that it
/// goes on.
pub proof fn law_ends_of_programs_are_told(
    s: Session,
    operation: ToolOperation,
    command: Text,
    fallback: DebuggerState,
    output: Text,
    gdb: Gdb,
)
    requires
        going_on(operation) == Some((command, fallback)),
        s.executable is Some,
        !is_off(s.state),
        dialogues::reply_to(gdb, command) == Ok::<Text, Text>(output),
        state_laws::is_about_no_stop(output),
        state_laws::tells_exit(output),
    ensures
        dialogues::run(plan::execute(s, operation), gdb) == (
            Session { state: DebuggerState::Exited, last_error: Seq::empty(), ..s },
            Ok::<Response, Text>(bare(DebuggerState::Exited, Seq::empty())),
        ),
{
    let u = dialogues::ready_for(s, command);
    state_laws::law_ends_are_seen(u.state, output, Some(fallback));
    law_programs_are_told_by_their_state(s, operation, command, fallback, output, DebuggerState::Exited, gdb);
}

/// A program that is let go on and is not told to have stopped or ended runs,
/// or stands behind its step, where it is shown.
pub proof fn law_programs_go_on(
    s: Session,
    operation: ToolOperation,
    command: Text,
    fallback: DebuggerState,
    output: Text,
    gdb: Gdb,
)
    requires
        going_on(operation) == Some((command, fallback)),
        s.executable is Some,
        !is_off(s.state),
        dialogues::reply_to(gdb, command) == Ok::<Text, Text>(output),
        state_laws::is_about_no_stop(output),
        !state_laws::tells_exit(output),
        !state_laws::tells_absence(output),
        !state_laws::says(output, "interrupted"@),
        !state_laws::says(output, "cannot access memory"@),
        !state_laws::says(output, "detaching"@),
        !state_laws::says(output, "process finished"@),
        !state_laws::says(output, "inferior"@),
    ensures
        ({
            let (t, result) = dialogues::run(plan::execute(s, operation), gdb);
            let state = if state_laws::tells_running(output) {
                DebuggerState::Running
            } else {
                fallback
            };
            &&& t == (Session { state, last_error: Seq::empty(), ..s })
            &&& state == DebuggerState::Running ==> result == Ok::<Response, Text>(
                bare(state, Seq::empty()),
            )
            &&& state != DebuggerState::Running ==> (match result {
                Ok(r) => is_snapshot(t, gdb, r),
                Err(error) => dialogues::frames_told(t, gdb) is Err || dialogues::place_told(t, gdb)
                    is Err,
            })
        }),
{
    let u = dialogues::ready_for(s, command);
    let state = if state_laws::tells_running(output) {
        DebuggerState::Running
    } else {
        fallback
    };
    state_laws::law_the_rest_is_seen(u.state, output, Some(fallback));
    law_programs_are_told_by_their_state(s, operation, command, fallback, output, state, gdb);
}

/// A program that is let go on and is stopped by a signal has the state of that
/// signal; a crash is told with its frames.
pub proof fn law_signals_are_told(
    s: Session,
    operation: ToolOperation,
    command: Text,
    fallback: DebuggerState,
    output: Text,
    gdb: Gdb,
)
    requires
        going_on(operation) == Some((command, fallback)),
        s.executable is Some,
        !is_off(s.state),
        dialogues::reply_to(gdb, command) == Ok::<Text, Text>(output),
        !state_laws::refuses(output),
        state_laws::names_signal(output),
    ensures
        ({
            let (t, result) = dialogues::run(plan::execute(s, operation), gdb);
            &&& t == (Session { state: t.state, last_error: Seq::empty(), ..s })
            &&& state_laws::says(output, "sigsegv"@) || state_laws::says(
                output,
                "segmentation fault"@,
            ) ==> t.state == DebuggerState::SigSegv
            &&& t.state == gdb_output::state_after(
                dialogues::ready_for(s, command).state,
                output,
                Some(fallback),
            )
            &&& tells(t, gdb, result, bare(t.state, Seq::empty()))
        }),
{
    let u = dialogues::ready_for(s, command);
    state_laws::law_signals_have_their_states(u.state, output, Some(fallback));
    let state = gdb_output::state_after(u.state, output, Some(fallback));
    law_programs_are_told_by_their_state(s, operation, command, fallback, output, state, gdb);
}

/// Where the program cannot be let go on, the reason is told, and the session
/// remembers it.
pub proof fn law_programs_that_cannot_go_on(
    s: Session,
    operation: ToolOperation,
    command: Text,
    fallback: DebuggerState,
    error: Text,
    gdb: Gdb,
)
    requires
        going_on(operation) == Some((command, fallback)),
        s.executable is Some,
        !is_off(s.state),
        ({
            ||| dialogues::reply_to(gdb, command) == Err::<Text, Text>(error)
            ||| dialogues::reply_to(gdb, command) matches Ok(output) && is_complaint(
                dialogues::ready_for(s, command).state,
                output,
                Some(fallback),
            ) && gdb_output::command_output(output) == Some(error)
        }),
    ensures
        dialogues::run(plan::execute(s, operation), gdb) == (
            Session { state: DebuggerState::Error, last_error: error, ..s },
            Ok::<Response, Text>(bare(DebuggerState::Error, error)),
        ),
{
    let told = if operation is Run {
        plan::show_breakpoint()
    } else {
        plan::show_rest()
    };
    dialogues::lemma_command(s, command, Some(fallback), false, told, gdb);
    let u = dialogues::ready_for(s, command);
    let t = plan::troubled(u, DebuggerState::Error, error);
    match dialogues::reply_to(gdb, command) {
        Ok(output) => {
            lemma_complaint(u.state, output, Some(fallback));
            assert(plan::after_output(u, output, Some(fallback)) == t);
        },
        Err(error) => {},
    }
    assert(Response { command_output: None, ..plan::base_response(t) } == plan::base_response(t));
    lemma_told(t, plan::base_response(t), gdb);
}

/// A program that is interrupted stands where it is, and is shown; that it
/// cannot be interrupted is told.
pub proof fn law_interrupts(s: Session, gdb: Gdb)
    requires
        !is_off(s.state),
        s.state != DebuggerState::Exited,
    ensures
        ({
            let (t, result) = dialogues::run(plan::execute(s, ToolOperation::Interrupt), gdb);
            match (
                operation::outcome(gdb(RequestView::Interrupt)),
                dialogues::reply_to(gdb, "printf \"\""@),
            ) {
                (Ok(_), Ok(_)) => {
                    &&& t == (Session {
                        state: DebuggerState::StoppedAtStepping,
                        last_error: Seq::empty(),
                        ..s
                    })
                    &&& match result {
                        Ok(r) => is_snapshot(t, gdb, r),
                        Err(error) => dialogues::frames_told(t, gdb) is Err
                            || dialogues::place_told(t, gdb) is Err,
                    }
                    &&& dialogues::requests(plan::execute(s, ToolOperation::Interrupt), gdb)
                        == seq![
                        RequestView::Interrupt,
                        RequestView::Exec("printf \"\""@),
                    ] + dialogues::snapshot_requests(t, gdb)
                },
                (Err(error), _) => {
                    &&& t == (Session { state: DebuggerState::Error, last_error: error, ..s })
                    &&& result == Ok::<Response, Text>(bare(DebuggerState::Error, error))
                },
                (Ok(_), Err(error)) => {
                    &&& t == (Session { state: DebuggerState::Error, last_error: error, ..s })
                    &&& result == Ok::<Response, Text>(bare(DebuggerState::Error, error))
                },
            }
        }),
{
    reveal_with_fuel(dialogues::run, 3);
    reveal_with_fuel(dialogues::requests, 3);
    let v = plan::in_state(s, DebuggerState::StoppedAtStepping);
    lemma_snapshot(v, gdb);
    dialogues::lemma_snapshot(v, gdb);
    let prompt = RequestView::Exec("printf \"\""@);
    let end = dialogues::snapshot_requests(v, gdb);
    assert(seq![RequestView::Interrupt] + (seq![prompt] + end) =~= seq![
        RequestView::Interrupt,
        prompt,
    ] + end);
    assert forall|error: Text| dialogues::run(
        plan::answer(#[trigger] plan::troubled(s, DebuggerState::Error, error)),
        gdb,
    ) == (
        Session { state: DebuggerState::Error, last_error: error, ..s },
        Ok::<Response, Text>(bare(DebuggerState::Error, error)),
    ) by {
        let t = plan::troubled(s, DebuggerState::Error, error);
        lemma_told(t, plan::base_response(t), gdb);
    }
}

// ---------------------------------------------------------------------------
// Commands
// ---------------------------------------------------------------------------

/// The command that an operation sends to gdb.
pub open spec fn command_of(operation: ToolOperation) -> Option<Text> {
    match operation {
        ToolOperation::Run => Some("run"@),
        ToolOperation::TargetRemote { ip, port } => Some(
            "target remote "@ + ip@ + ":"@ + number::decimal(port as nat),
        ),
        ToolOperation::SetThread { id } => Some("thread "@ + number::signed_decimal(id as int)),
        ToolOperation::SetFrame { id } => Some("frame "@ + number::signed_decimal(id as int)),
        ToolOperation::AddBreakpoint { filename, linenumber } => Some(
            "break "@ + filename@ + ":"@ + number::decimal(linenumber as nat),
        ),
        ToolOperation::ClearBreakpoint { filename, linenumber } => Some(
            "clear "@ + filename@ + ":"@ + number::decimal(linenumber as nat),
        ),
        ToolOperation::EnableBreakpoint { .. } => Some("info breakpoints"@),
        ToolOperation::DisableBreakpoint { .. } => Some("info breakpoints"@),
        ToolOperation::ListBreakpoint => Some("info breakpoints"@),
        ToolOperation::Next => Some("next"@),
        ToolOperation::Step => Some("step"@),
        ToolOperation::Continue => Some("continue"@),
        ToolOperation::CurrentCode => Some("frame"@),
        ToolOperation::FullBacktrace => Some("backtrace full"@),
        ToolOperation::InfoThreads => Some("info threads"@),
        ToolOperation::Print { var, value } => match value {
            Some(value) => Some("set variable "@ + var@ + " = "@ + value@),
            None => Some("print "@ + var@),
        },
        ToolOperation::SetVar { var, value } => Some("set variable "@ + var@ + " = "@ + value@),
        ToolOperation::InfoRegs => Some("info all-registers"@),
        ToolOperation::Kill => Some("kill"@),
        ToolOperation::Custom { cmd } => Some(cmd@),
        _ => None,
    }
}

/// A number with a sign is written with a minus where it is negative.
pub proof fn law_signed_numbers(value: int)
    ensures
        value >= 0 ==> number::signed_decimal(value) == number::decimal(value as nat),
        value < 0 ==> number::signed_decimal(value) == seq!['-'] + number::decimal(
            (-value) as nat,
        ),
{
}

/// An operation sends its command first, where gdb runs and the program does
/// not.
pub proof fn law_commands_are_sent(s: Session, operation: ToolOperation, command: Text, gdb: Gdb)
    requires
        command_of(operation) == Some(command),
        s.executable is Some,
        !is_off(s.state),
        s.state != DebuggerState::Running,
        s.state != DebuggerState::Exited,
    ensures
        dialogues::requests(plan::execute(s, operation), gdb).len() > 0,
        dialogues::requests(plan::execute(s, operation), gdb)[0] == RequestView::Exec(command),
{
    reveal_with_fuel(dialogues::requests, 2);
    match operation {
        ToolOperation::TargetRemote { ip, port } => {
            assert("target remote "@ + plan::endpoint(ip@, port) =~= command);
        },
        ToolOperation::AddBreakpoint { filename, linenumber } => {
            assert("break "@ + plan::at_location(filename@, linenumber) =~= command);
        },
        ToolOperation::ClearBreakpoint { filename, linenumber } => {
            assert("clear "@ + plan::at_location(filename@, linenumber) =~= command);
        },
        _ => {},
    }
}

/// Where the program runs, it is interrupted and the prompt waited for, and
/// then the operation sends its command; only `continue` is sent at once, and
/// frames are asked for at once.
pub proof fn law_commands_are_sent_to_running_programs(
    s: Session,
    operation: ToolOperation,
    command: Text,
    gdb: Gdb,
)
    requires
        command_of(operation) == Some(command),
        s.executable is Some,
        s.state == DebuggerState::Running,
    ensures
        ({
            let asked = dialogues::requests(plan::execute(s, operation), gdb);
            if operation is FullBacktrace || (command == "continue"@ && (operation is Continue
                || operation is Custom)) {
                asked.len() > 0 && asked[0] == RequestView::Exec(command)
            } else {
                &&& asked.len() > 2
                &&& asked[0] == RequestView::Interrupt
                &&& asked[1] == RequestView::Exec("printf \"\""@)
                &&& asked[2] == RequestView::Exec(command)
            }
        }),
{
    reveal_with_fuel(dialogues::requests, 4);
    if !(operation is Continue) && !(operation is Custom) {
        lemma_not_continue(operation, command);
    }
    match operation {
        ToolOperation::TargetRemote { ip, port } => {
            assert("target remote "@ + plan::endpoint(ip@, port) =~= command);
        },
        ToolOperation::AddBreakpoint { filename, linenumber } => {
            assert("break "@ + plan::at_location(filename@, linenumber) =~= command);
        },
        ToolOperation::ClearBreakpoint { filename, linenumber } => {
            assert("clear "@ + plan::at_location(filename@, linenumber) =~= command);
        },
        _ => {},
    }
}

proof fn lemma_not_continue(operation: ToolOperation, command: Text)
    requires
        command_of(operation) == Some(command),
        !(operation is Continue),
        !(operation is Custom),
    ensures
        command != "continue"@,
{
    reveal_strlit("continue");
    reveal_strlit("run");
    reveal_strlit("thread ");
    reveal_strlit("frame ");
    reveal_strlit("frame");
    reveal_strlit("break ");
    reveal_strlit("clear ");
    reveal_strlit("next");
    reveal_strlit("step");
    reveal_strlit("kill");
    reveal_strlit("backtrace full");
    reveal_strlit("info breakpoints");
    reveal_strlit("info threads");
    reveal_strlit("print ");
    reveal_strlit("set variable ");
    reveal_strlit("info all-registers");
    reveal_strlit("target remote ");
    assert("continue"@[0] == 'c' && "continue"@[1] == 'o');
    assert(command[0] != 'c' || command[1] != 'o');
}

/// The operations that tell what gdb prints.
pub open spec fn tells_output(operation: ToolOperation) -> bool {
    match operation {
        ToolOperation::SetThread { .. } => true,
        ToolOperation::SetFrame { .. } => true,
        ToolOperation::AddBreakpoint { .. } => true,
        ToolOperation::InfoThreads => true,
        ToolOperation::Print { value, .. } => value is None,
        ToolOperation::Custom { .. } => true,
        _ => false,
    }
}

/// The operations that send a command and tell the state alone.
pub open spec fn tells_state(operation: ToolOperation) -> bool {
    match operation {
        ToolOperation::ClearBreakpoint { .. } => true,
        ToolOperation::Print { value, .. } => value is Some,
        ToolOperation::SetVar { .. } => true,
        ToolOperation::TargetRemote { .. } => true,
        _ => false,
    }
}

/// The state that the command of such an operation leads to where gdb says
/// nothing of it.
pub open spec fn silent_state(operation: ToolOperation) -> Option<DebuggerState> {
    match operation {
        ToolOperation::TargetRemote { .. } => Some(DebuggerState::Attached),
        _ => None,
    }
}

/// What is done with the outcome of the command of such an operation.
spec fn teller(s: Session, operation: ToolOperation) -> spec_fn(Session, Response) -> plan::Plan {
    match operation {
        ToolOperation::SetThread { .. } => plan::tell_softly(s.state),
        ToolOperation::SetFrame { .. } => plan::tell_softly(s.state),
        ToolOperation::AddBreakpoint { .. } => plan::tell_softly(s.state),
        ToolOperation::InfoThreads => plan::tell_softly(s.state),
        ToolOperation::Print { value: None, .. } => plan::tell_print(s.state),
        _ => plan::tell(),
    }
}

proof fn lemma_is_command(s: Session, operation: ToolOperation, command: Text)
    requires
        tells_output(operation) || tells_state(operation),
        command_of(operation) == Some(command),
        s.executable is Some,
    ensures
        plan::execute(s, operation) == plan::run_command(
            s,
            command,
            silent_state(operation),
            tells_output(operation),
            teller(s, operation),
        ),
{
    match operation {
        ToolOperation::AddBreakpoint { filename, linenumber } => {
            assert("break "@ + plan::at_location(filename@, linenumber) =~= command);
        },
        ToolOperation::ClearBreakpoint { filename, linenumber } => {
            assert("clear "@ + plan::at_location(filename@, linenumber) =~= command);
        },
        ToolOperation::TargetRemote { ip, port } => {
            assert("target remote "@ + plan::endpoint(ip@, port) =~= command);
        },
        _ => {},
    }
}

/// Where gdb does not complain, what it prints is told whole, and the state is
/// the one that it tells.
pub proof fn law_outputs_are_told(
    s: Session,
    operation: ToolOperation,
    command: Text,
    output: Text,
    gdb: Gdb,
)
    requires
        tells_output(operation) || tells_state(operation),
        command_of(operation) == Some(command),
        s.executable is Some,
        dialogues::reply_to(gdb, command) == Ok::<Text, Text>(output),
        !state_laws::refuses(output),
        gdb_output::state_after(
            dialogues::ready_for(s, command).state,
            output,
            silent_state(operation),
        )
            != DebuggerState::Error,
    ensures
        ({
            let (t, result) = dialogues::run(plan::execute(s, operation), gdb);
            &&& t == (Session {
                state: gdb_output::state_after(
                    dialogues::ready_for(s, command).state,
                    output,
                    silent_state(operation),
                ),
                last_error: Seq::empty(),
                ..s
            })
            &&& tells(
                t,
                gdb,
                result,
                Response {
                    command_output: if tells_output(operation) {
                        gdb_output::command_output(output)
                    } else {
                        None
                    },
                    ..bare(t.state, Seq::empty())
                },
            )
            &&& dialogues::requests(plan::execute(s, operation), gdb) == dialogues::sends(
                s,
                command,
            ) + dialogues::crash_requests(t, gdb)
        }),
{
    lemma_is_command(s, operation, command);
    let told = teller(s, operation);
    let fallback = silent_state(operation);
    dialogues::lemma_command(s, command, fallback, tells_output(operation), told, gdb);
    let u = dialogues::ready_for(s, command);
    let t = plan::after_output(u, output, fallback);
    let r = Response {
        command_output: if tells_output(operation) {
            gdb_output::command_output(output)
        } else {
            None
        },
        ..plan::base_response(t)
    };
    lemma_told(t, r, gdb);
}

/// What gdb says is an error: it refuses the command, or tells of something
/// else that is one, and that not in an old error.
pub open spec fn is_complaint(
    previous: DebuggerState,
    output: Text,
    fallback: Option<DebuggerState>,
) -> bool {
    ||| state_laws::refuses(output)
    ||| gdb_output::state_after(previous, output, fallback) == DebuggerState::Error && (previous
        != DebuggerState::Error || state_laws::says(output, "cannot access memory"@))
}

proof fn lemma_complaint(
    previous: DebuggerState,
    output: Text,
    fallback: Option<DebuggerState>,
)
    requires
        is_complaint(previous, output, fallback),
    ensures
        gdb_output::state_after(previous, output, fallback) == DebuggerState::Error,
        previous != DebuggerState::Error || gdb_output::shows_error(output),
{
    state_laws::law_errors_are_seen(output);
    if state_laws::refuses(output) {
        state_laws::law_a_refusal_is_an_error(previous, output, fallback);
    }
}

/// A command that fails is an error with its reason, which the session
/// remembers. The reason why a variable could not be printed is told and
/// forgotten, and so is a soft one where soft errors are.
pub proof fn law_failures_are_told(
    s: Session,
    operation: ToolOperation,
    command: Text,
    error: Text,
    gdb: Gdb,
)
    requires
        tells_output(operation) || tells_state(operation),
        command_of(operation) == Some(command),
        s.executable is Some,
        ({
            ||| dialogues::reply_to(gdb, command) == Err::<Text, Text>(error)
            ||| dialogues::reply_to(gdb, command) matches Ok(output) && is_complaint(
                dialogues::ready_for(s, command).state,
                output,
                silent_state(operation),
            ) && gdb_output::command_output(output) == Some(error)
        }),
        !is_crash(s.state),
    ensures
        ({
            let (t, result) = dialogues::run(plan::execute(s, operation), gdb);
            let soft = {
                ||| operation matches ToolOperation::Print { value, .. } && value is None
                ||| (operation is SetThread || operation is SetFrame || operation is AddBreakpoint
                    || operation is InfoThreads) && gdb_output::is_soft_error(text::lower(error))
            };
            &&& result == Ok::<Response, Text>(
                Response {
                    command_output: if tells_output(operation) && dialogues::reply_to(gdb, command)
                        is Ok {
                        Some(error)
                    } else {
                        None
                    },
                    ..bare(t.state, error)
                },
            )
            &&& dialogues::requests(plan::execute(s, operation), gdb) == dialogues::sends(
                s,
                command,
            )
            &&& soft ==> t == (Session {
                state: if s.state == DebuggerState::Error {
                    DebuggerState::Attached
                } else {
                    s.state
                },
                last_error: Seq::empty(),
                ..s
            })
            &&& !soft ==> t == (Session { state: DebuggerState::Error, last_error: error, ..s })
        }),
{
    lemma_is_command(s, operation, command);
    let told = teller(s, operation);
    let fallback = silent_state(operation);
    dialogues::lemma_command(s, command, fallback, tells_output(operation), told, gdb);
    let u = dialogues::ready_for(s, command);
    let t = plan::troubled(u, DebuggerState::Error, error);
    let shown = match dialogues::reply_to(gdb, command) {
        Ok(output) => {
            lemma_complaint(u.state, output, fallback);
            assert(plan::after_output(u, output, fallback) == t);
            if tells_output(operation) {
                gdb_output::command_output(output)
            } else {
                None
            }
        },
        Err(error) => None,
    };
    let r = Response { command_output: shown, ..plan::base_response(t) };
    lemma_told(t, r, gdb);
    let back = plan::restored(t, s.state);
    lemma_told(
        back,
        Response { error, command_output: shown, ..plan::base_response(back) },
        gdb,
    );
    assert(dialogues::run(plan::execute(s, operation), gdb) == dialogues::run(told(t, r), gdb));
    assert(dialogues::sends(s, command) + Seq::<RequestView>::empty() =~= dialogues::sends(
        s,
        command,
    ));
}

/// A command that does not fail takes the session out of an old error.
pub proof fn law_old_errors_are_left(
    s: Session,
    operation: ToolOperation,
    command: Text,
    output: Text,
    gdb: Gdb,
)
    requires
        tells_output(operation) || tells_state(operation),
        command_of(operation) == Some(command),
        s.executable is Some,
        s.state == DebuggerState::Error,
        dialogues::reply_to(gdb, command) == Ok::<Text, Text>(output),
        !state_laws::refuses(output),
        !state_laws::says(output, "cannot access memory"@),
    ensures
        dialogues::run(plan::execute(s, operation), gdb).0.state != DebuggerState::Error,
        dialogues::run(plan::execute(s, operation), gdb).0.last_error.len() == 0,
{
    state_laws::law_errors_are_seen(output);
    lemma_is_command(s, operation, command);
    let told = teller(s, operation);
    let fallback = silent_state(operation);
    dialogues::lemma_command(s, command, fallback, tells_output(operation), told, gdb);
    let u = dialogues::ready_for(s, command);
    let t = plan::after_output(u, output, fallback);
    let r = Response {
        command_output: if tells_output(operation) {
            gdb_output::command_output(output)
        } else {
            None
        },
        ..plan::base_response(t)
    };
    lemma_told(t, r, gdb);
}

// ---------------------------------------------------------------------------
// Breakpoints
// ---------------------------------------------------------------------------

/// The requests that change the breakpoints of some numbers.
pub open spec fn changes(word: Text, ids: Seq<Text>) -> Seq<RequestView> {
    Seq::new(ids.len(), |i: int| RequestView::Exec(word + ids[i]))
}

/// Every breakpoint that the table has at the location is changed, one by one in
/// the order of the table, where gdb has nothing to say against it.
pub proof fn law_breakpoints_are_changed(
    s: Session,
    filename: String,
    linenumber: u64,
    table: Text,
    enable: bool,
    gdb: Gdb,
)
    requires
        s.executable is Some,
        s.state != DebuggerState::Running,
        s.state != DebuggerState::Error,
        !is_crash(s.state),
        dialogues::reply_to(gdb, "info breakpoints"@) == Ok::<Text, Text>(table),
        forall|command: Text| #[trigger]
            dialogues::reply_to(gdb, command) == Ok::<Text, Text>(Seq::empty()) || command
                == "info breakpoints"@,
    ensures
        ({
            let operation = if enable {
                ToolOperation::EnableBreakpoint { filename, linenumber }
            } else {
                ToolOperation::DisableBreakpoint { filename, linenumber }
            };
            let word = if enable {
                "enable "@
            } else {
                "disable "@
            };
            let ids = gdb_output::breakpoint_ids(
                text::lines(table),
                s.config.separator,
                s.config.codebase_dir,
                filename@,
                linenumber,
            );
            &&& dialogues::requests(plan::execute(s, operation), gdb) == seq![
                RequestView::Exec("info breakpoints"@),
            ] + changes(word, ids)
            &&& ids.len() > 0 ==> dialogues::run(plan::execute(s, operation), gdb) == (
                Session { last_error: Seq::empty(), ..s },
                Ok::<Response, Text>(bare(s.state, Seq::empty())),
            )
            &&& ids.len() == 0 ==> ({
                let error = "No breakpoint at "@ + filename@ + ":"@ + number::decimal(
                    linenumber as nat,
                ) + "."@;
                dialogues::run(plan::execute(s, operation), gdb) == (
                    Session { state: DebuggerState::Error, last_error: error, ..s },
                    Ok::<Response, Text>(bare(DebuggerState::Error, error)),
                )
            })
        }),
{
    let action = if enable {
        operation::BreakpointAction::Enable
    } else {
        operation::BreakpointAction::Disable
    };
    let word = if enable {
        "enable "@
    } else {
        "disable "@
    };
    let ids = gdb_output::breakpoint_ids(
        text::lines(table),
        s.config.separator,
        s.config.codebase_dir,
        filename@,
        linenumber,
    );
    let error = "No breakpoint at "@ + filename@ + ":"@ + number::decimal(linenumber as nat) + "."@;
    assert("No breakpoint at "@ + plan::at_location(filename@, linenumber) + "."@ =~= error);
    reveal_with_fuel(dialogues::run, 2);
    reveal_with_fuel(dialogues::requests, 2);
    assert(seq![RequestView::Exec("info breakpoints"@)] + Seq::<RequestView>::empty() =~= seq![
        RequestView::Exec("info breakpoints"@),
    ]);
    if ids.len() == 0 {
        assert(changes(word, ids) =~= Seq::<RequestView>::empty());
    } else {
        lemma_changes(s, action, word, ids, gdb);
    }
}

/// A table that cannot be had ends the operation with the reason. A breakpoint
/// that cannot be changed ends it too; what gdb says against it is told, and the
/// others are left alone.
pub proof fn law_breakpoints_that_cannot_be_changed(
    s: Session,
    filename: String,
    linenumber: u64,
    enable: bool,
    gdb: Gdb,
)
    requires
        s.executable is Some,
    ensures
        ({
            let operation = if enable {
                ToolOperation::EnableBreakpoint { filename, linenumber }
            } else {
                ToolOperation::DisableBreakpoint { filename, linenumber }
            };
            let u = dialogues::stopped_first(s);
            match dialogues::reply_to(gdb, "info breakpoints"@) {
                Err(error) => dialogues::run(plan::execute(s, operation), gdb) == (
                    u,
                    Err::<Response, Text>(error),
                ),
                Ok(table) => {
                    let ids = gdb_output::breakpoint_ids(
                        text::lines(table),
                        s.config.separator,
                        s.config.codebase_dir,
                        filename@,
                        linenumber,
                    );
                    let word = if enable {
                        "enable "@
                    } else {
                        "disable "@
                    };
                    ids.len() > 0 ==> (match dialogues::reply_to(gdb, word + ids[0]) {
                        Err(error) => dialogues::run(plan::execute(s, operation), gdb) == (
                            u,
                            Err::<Response, Text>(error),
                        ),
                        Ok(output) => gdb_output::state_after(u.state, output, None)
                            == DebuggerState::Error ==> (gdb_output::command_output(
                            output,
                        ) matches Some(error) ==> dialogues::run(plan::execute(s, operation), gdb)
                            == (
                            Session { state: DebuggerState::Error, last_error: error, ..s },
                            Ok::<Response, Text>(bare(DebuggerState::Error, error)),
                        )),
                    })
                },
            }
        }),
{
    let action = if enable {
        operation::BreakpointAction::Enable
    } else {
        operation::BreakpointAction::Disable
    };
    let u = dialogues::stopped_first(s);
    let next = plan::resolve_breakpoints(action, filename@, linenumber);
    dialogues::lemma_resync(s, next, gdb);
    reveal_with_fuel(dialogues::run, 3);
    match dialogues::reply_to(gdb, "info breakpoints"@) {
        Err(error) => {},
        Ok(table) => {
            let ids = gdb_output::breakpoint_ids(
                text::lines(table),
                s.config.separator,
                s.config.codebase_dir,
                filename@,
                linenumber,
            );
            if ids.len() > 0 {
                assert(plan::change_breakpoints(u, action, ids) == (plan::Plan::Ask {
                    request: RequestView::Exec(operation::breakpoint_command(action, ids.first())),
                    next: plan::breakpoint_changed(u, action, ids),
                }));
                match dialogues::reply_to(
                    gdb,
                    operation::breakpoint_command(action, ids.first()),
                ) {
                    Err(error) => {},
                    Ok(output) => {
                        match gdb_output::command_output(output) {
                            Some(error) => {
                                let t = plan::troubled(u, DebuggerState::Error, error);
                                lemma_told(t, plan::base_response(t), gdb);
                            },
                            None => {},
                        }
                    },
                }
            }
        },
    }
}

proof fn lemma_changes(
    s: Session,
    action: operation::BreakpointAction,
    word: Text,
    ids: Seq<Text>,
    gdb: Gdb,
)
    requires
        s.state != DebuggerState::Error,
        !is_crash(s.state),
        word == match action {
            operation::BreakpointAction::Enable => "enable "@,
            operation::BreakpointAction::Disable => "disable "@,
        },
        forall|command: Text| #[trigger]
            dialogues::reply_to(gdb, command) == Ok::<Text, Text>(Seq::empty()) || command
                == "info breakpoints"@,
    ensures
        dialogues::run(plan::change_breakpoints(s, action, ids), gdb) == (
            Session { last_error: Seq::empty(), ..s },
            Ok::<Response, Text>(bare(s.state, Seq::empty())),
        ),
        dialogues::requests(plan::change_breakpoints(s, action, ids), gdb) == changes(word, ids),
    decreases ids.len(),
{
    reveal_with_fuel(dialogues::run, 2);
    reveal_with_fuel(dialogues::requests, 2);
    if ids.len() == 0 {
        assert(changes(word, ids) =~= Seq::<RequestView>::empty());
    } else {
        let command = word + ids.first();
        let request = RequestView::Exec(command);
        let next = plan::breakpoint_changed(s, action, ids);
        assert(plan::change_breakpoints(s, action, ids) == (plan::Plan::Ask { request, next }));
        assert(command != "info breakpoints"@) by {
            reveal_strlit("enable ");
            reveal_strlit("disable ");
            reveal_strlit("info breakpoints");
            assert(command[0] == word[0]);
            assert("info breakpoints"@[0] == 'i');
        }
        assert(dialogues::reply_to(gdb, command) == Ok::<Text, Text>(Seq::empty()));
        lemma_silence(s.state);
        assert(Session { state: s.state, ..s } =~= s);
        lemma_changes(s, action, word, ids.drop_first(), gdb);
        assert(seq![request] + changes(word, ids.drop_first()) =~= changes(word, ids));
    }
}

/// Where gdb says nothing the state stays.
proof fn lemma_silence(state: DebuggerState)
    ensures
        gdb_output::state_after(state, Seq::empty(), None) == state,
{
    let nothing = Seq::<char>::empty();
    assert(text::lower(nothing) =~= nothing);
    assert forall|phrase: Text| phrase.len() > 0 implies !#[trigger] text::contains(
        nothing,
        phrase,
    ) by {}
    assert(text::lines(nothing) =~= Seq::<Text>::empty());
    reveal_strlit("undefined command");
    reveal_strlit("ambiguous command");
    reveal_strlit("not recognized");
    reveal_strlit("a syntax error in expression");
    reveal_strlit("cannot find bounds of current function");
    reveal_strlit("no symbol");
    reveal_strlit("unknown thread");
    reveal_strlit("no frame at level");
    reveal_strlit("no source file named");
    reveal_strlit("no breakpoint at");
    reveal_strlit("no breakpoint number");
    reveal_strlit("error:");
    reveal_strlit("sigsegv");
    reveal_strlit("segmentation fault");
    reveal_strlit("sigabrt");
    reveal_strlit("sigbus");
    reveal_strlit("bus error");
    reveal_strlit("sigfpe");
    reveal_strlit("floating point exception");
    reveal_strlit("sigill");
    reveal_strlit("illegal instruction");
    reveal_strlit("sigtrap");
    reveal_strlit("sigterm");
    reveal_strlit("sigkill");
    reveal_strlit("sigint");
    reveal_strlit("program received signal");
    reveal_strlit("terminated with signal");
    reveal_strlit("watchpoint");
    reveal_strlit("catchpoint");
    reveal_strlit("exited normally");
    reveal_strlit("exited with code");
    reveal_strlit("exited abnormally");
    reveal_strlit("exited");
    reveal_strlit("inferior");
    reveal_strlit("no stack");
    reveal_strlit("no registers");
    reveal_strlit("the program is not being run");
    reveal_strlit("no inferior");
    reveal_strlit("continuing");
    reveal_strlit("starting program");
    reveal_strlit("interrupted");
    reveal_strlit("cannot access memory");
    reveal_strlit("detaching");
    reveal_strlit("process finished");
    reveal_strlit("killed");
}

// ---------------------------------------------------------------------------
// Beginning and end
// ---------------------------------------------------------------------------

/// gdb is started on the executable that is named, and the session holds on to
/// it; that it cannot be started is told.
pub proof fn law_attaching(s: Session, executable_path: String, gdb: Gdb)
    requires
        s.config.separator == '/' ==> executable_path@.len() > 0 && executable_path@[0] == '/',
        s.config.separator != '/' ==> paths::absolute(s.config.separator, executable_path@),
    ensures
        ({
            let operation = ToolOperation::Execute { executable_path };
            let start = RequestView::Start(executable_path@);
            &&& dialogues::requests(plan::execute(s, operation), gdb) == seq![start]
            &&& dialogues::run(plan::execute(s, operation), gdb) == (match operation::outcome(
                gdb(start),
            ) {
                Ok(_) => (
                    Session {
                        state: DebuggerState::Attached,
                        executable: Some(executable_path@),
                        last_error: Seq::empty(),
                        ..s
                    },
                    Ok::<Response, Text>(bare(DebuggerState::Attached, Seq::empty())),
                ),
                Err(error) => (
                    Session { state: DebuggerState::FailedToAttach, last_error: error, ..s },
                    Ok::<Response, Text>(bare(DebuggerState::FailedToAttach, error)),
                ),
            })
        }),
{
    reveal_with_fuel(dialogues::run, 2);
    reveal_with_fuel(dialogues::requests, 2);
    let start = RequestView::Start(executable_path@);
    assert(seq![start] + Seq::<RequestView>::empty() =~= seq![start]);
}

/// A path that is not absolute is refused, and gdb is left alone.
pub proof fn law_relative_paths_are_refused(s: Session, executable_path: String, gdb: Gdb)
    requires
        s.config.separator == '/',
        executable_path@.len() == 0 || executable_path@[0] != '/',
    ensures
        ({
            let operation = ToolOperation::Execute { executable_path };
            let error = "executable_path must be absolute"@;
            &&& dialogues::requests(plan::execute(s, operation), gdb) == Seq::<RequestView>::empty()
            &&& dialogues::run(plan::execute(s, operation), gdb) == (
                Session { state: DebuggerState::FailedToAttach, last_error: error, ..s },
                Ok::<Response, Text>(bare(DebuggerState::FailedToAttach, error)),
            )
        }),
{
}

/// A gdbserver is started for the process at the endpoint, in place of the one
/// that runs, and looked at a tenth of a second later.
pub proof fn law_gdbservers(s: Session, ip: String, port: u16, pid: i64, gdb: Gdb)
    requires
        pid > 0,
    ensures
        ({
            let operation = ToolOperation::GdbServer { ip, port, pid };
            let spawn = RequestView::SpawnGdbServer {
                endpoint: ip@ + ":"@ + number::decimal(port as nat),
                pid: number::decimal(pid as nat),
            };
            let probe = RequestView::ProbeGdbServer { delay_ms: 100 };
            let failed = DebuggerState::GdbServerFailedToAttach;
            let (t, result) = dialogues::run(plan::execute(s, operation), gdb);
            let asked = dialogues::requests(plan::execute(s, operation), gdb);
            let before = if s.gdbserver {
                seq![RequestView::KillGdbServer]
            } else {
                Seq::empty()
            };
            match operation::outcome(gdb(spawn)) {
                Err(error) => {
                    let told = "failed to start gdbserver: "@ + error;
                    &&& asked == before + seq![spawn]
                    &&& t == (Session { state: failed, last_error: told, gdbserver: false, ..s })
                    &&& result == Ok::<Response, Text>(bare(failed, told))
                },
                Ok(_) => {
                    &&& asked == before + seq![spawn, probe]
                    &&& match gdb(probe) {
                        Reply::Output(_) => {
                            &&& t == (Session {
                                state: DebuggerState::GdbServerAttached,
                                last_error: Seq::empty(),
                                gdbserver: true,
                                ..s
                            })
                            &&& result == Ok::<Response, Text>(
                                bare(DebuggerState::GdbServerAttached, Seq::empty()),
                            )
                        },
                        Reply::Exited(status) => {
                            let told = "gdbserver exited early with status: "@ + status@;
                            &&& t == (Session {
                                state: failed,
                                last_error: told,
                                gdbserver: false,
                                ..s
                            })
                            &&& result == Ok::<Response, Text>(bare(failed, told))
                        },
                        Reply::Failed(error) => {
                            &&& t == (Session { gdbserver: false, ..s })
                            &&& result == Err::<Response, Text>(error@)
                        },
                    }
                },
            }
        }),
{
    let endpoint = plan::endpoint(ip@, port);
    let number = number::decimal(pid as nat);
    let next = plan::spawning(endpoint, number);
    let spawn = RequestView::SpawnGdbServer { endpoint, pid: number };
    let probe = RequestView::ProbeGdbServer { delay_ms: 100 };
    let u = plan::without_gdbserver(s);
    dialogues::lemma_stop_gdbserver(s, next, gdb);
    if !s.gdbserver {
        assert(u =~= s);
    }
    reveal_with_fuel(dialogues::run, 3);
    reveal_with_fuel(dialogues::requests, 3);
    let none = Seq::<RequestView>::empty();
    assert(none + seq![spawn] =~= seq![spawn] + none);
    assert(seq![spawn] + none =~= seq![spawn]);
    assert(seq![spawn] + (seq![probe] + none) =~= seq![spawn, probe]);
    assert(none + seq![spawn, probe] =~= seq![spawn, probe]);
}

/// A number that cannot be that of a process is refused.
pub proof fn law_gdbservers_need_processes(s: Session, ip: String, port: u16, pid: i64, gdb: Gdb)
    requires
        pid <= 0,
    ensures
        ({
            let operation = ToolOperation::GdbServer { ip, port, pid };
            let failed = DebuggerState::GdbServerFailedToAttach;
            &&& dialogues::requests(plan::execute(s, operation), gdb) == Seq::<RequestView>::empty()
            &&& dialogues::run(plan::execute(s, operation), gdb) == (
                Session { state: failed, last_error: "pid must be > 0"@, ..s },
                Ok::<Response, Text>(bare(failed, "pid must be > 0"@)),
            )
        }),
{
}

/// For a remote target gdb is started on the executable of the configuration,
/// where it was not started, and then connected.
pub proof fn law_remote_targets(s: Session, ip: String, port: u16, output: Text, gdb: Gdb)
    requires
        s.executable is None,
        dialogues::reply_to(gdb, "target remote "@ + ip@ + ":"@ + number::decimal(port as nat))
            == Ok::<Text, Text>(output),
        !state_laws::refuses(output),
        gdb_output::state_after(
            DebuggerState::Attached,
            output,
            Some(DebuggerState::Attached),
        ) == DebuggerState::Attached,
    ensures
        ({
            let operation = ToolOperation::TargetRemote { ip, port };
            let start = RequestView::Start(s.config.executable_path);
            let connect = RequestView::Exec(
                "target remote "@ + ip@ + ":"@ + number::decimal(port as nat),
            );
            match operation::outcome(gdb(start)) {
                Ok(_) => {
                    &&& dialogues::requests(plan::execute(s, operation), gdb) == seq![
                        start,
                        connect,
                    ]
                    &&& dialogues::run(plan::execute(s, operation), gdb) == (
                        Session {
                            state: DebuggerState::Attached,
                            executable: Some(s.config.executable_path),
                            last_error: Seq::empty(),
                            ..s
                        },
                        Ok::<Response, Text>(bare(DebuggerState::Attached, Seq::empty())),
                    )
                },
                Err(error) => {
                    &&& dialogues::requests(plan::execute(s, operation), gdb) == seq![start]
                    &&& dialogues::run(plan::execute(s, operation), gdb) == (
                        Session { state: DebuggerState::FailedToAttach, last_error: error, ..s },
                        Ok::<Response, Text>(bare(DebuggerState::FailedToAttach, error)),
                    )
                },
            }
        }),
{
    let command = "target remote "@ + ip@ + ":"@ + number::decimal(port as nat);
    assert("target remote "@ + plan::endpoint(ip@, port) =~= command);
    let start = RequestView::Start(s.config.executable_path);
    let connect = RequestView::Exec(command);
    let u = plan::attached(s, s.config.executable_path);
    let fallback = Some(DebuggerState::Attached);
    dialogues::lemma_command(u, command, fallback, false, plan::tell(), gdb);
    reveal_with_fuel(dialogues::run, 3);
    reveal_with_fuel(dialogues::requests, 3);
    let none = Seq::<RequestView>::empty();
    assert(seq![start] + none =~= seq![start]);
    assert(seq![connect] + none =~= seq![connect]);
    assert(seq![start] + seq![connect] =~= seq![start, connect]);
    let t = plan::after_output(u, output, fallback);
    assert(t =~= u);
    assert(Response { command_output: None, ..plan::base_response(t) } == plan::base_response(t));
}

/// A quit kills the gdbserver, interrupts a program that runs, tells gdb to quit
/// and stops it, in this order. If both succeed, nothing is left but the
/// configuration; else what failed is told.
pub proof fn law_quits(s: Session, gdb: Gdb)
    requires
        s.executable is Some,
    ensures
        ({
            let (t, result) = dialogues::run(plan::execute(s, ToolOperation::Quit), gdb);
            let asked = dialogues::requests(plan::execute(s, ToolOperation::Quit), gdb);
            &&& asked == (if s.gdbserver {
                seq![RequestView::KillGdbServer]
            } else {
                Seq::empty()
            }) + (if s.state == DebuggerState::Running {
                seq![RequestView::Interrupt]
            } else {
                Seq::empty()
            }) + seq![RequestView::Exec("quit"@), RequestView::Stop]
            &&& match (
                dialogues::reply_to(gdb, "quit"@),
                operation::outcome(gdb(RequestView::Stop)),
            ) {
                (Ok(_), Ok(_)) => is_left(s, t) && result == Ok::<Response, Text>(
                    bare(DebuggerState::NotAttached, Seq::empty()),
                ),
                (Err(quit), Ok(_)) => is_error(s, t, result, "quit failed: "@ + quit),
                (Ok(_), Err(stop)) => is_error(s, t, result, "stop failed: "@ + stop),
                (Err(quit), Err(stop)) => is_error(
                    s,
                    t,
                    result,
                    "quit failed: "@ + quit + "; "@ + ("stop failed: "@ + stop),
                ),
            }
        }),
{
    let u = plan::without_gdbserver(s);
    dialogues::lemma_stop_gdbserver(s, plan::quitting(), gdb);
    if !s.gdbserver {
        assert(u =~= s);
    }
    reveal_with_fuel(dialogues::run, 4);
    reveal_with_fuel(dialogues::requests, 4);
    let none = Seq::<RequestView>::empty();
    let quit = RequestView::Exec("quit"@);
    let end = seq![quit, RequestView::Stop];
    assert(seq![quit] + (seq![RequestView::Stop] + none) =~= end);
    assert(dialogues::requests(plan::send_quit(u), gdb) == end);
    let kill = if s.gdbserver {
        seq![RequestView::KillGdbServer]
    } else {
        none
    };
    let interrupt = if s.state == DebuggerState::Running {
        seq![RequestView::Interrupt]
    } else {
        none
    };
    assert(dialogues::requests(plan::quitting()(u), gdb) =~= interrupt + end);
    assert(kill + (interrupt + end) =~= kill + interrupt + end);
    assert(none + (interrupt + end) =~= interrupt + end);
}

/// Nothing is left of a session but its configuration.
pub open spec fn is_left(s: Session, t: Session) -> bool {
    &&& t.config == s.config
    &&& t.state == DebuggerState::NotAttached
    &&& t.watched.len() == 0
    &&& t.executable is None
    &&& !t.gdbserver
    &&& t.last_error.len() == 0
}

/// A session without its gdbserver is in an error, which is told.
pub open spec fn is_error(s: Session, t: Session, result: Told, error: Text) -> bool {
    &&& t == (Session {
        state: DebuggerState::Error,
        last_error: error,
        gdbserver: false,
        ..s
    })
    &&& result == Ok::<Response, Text>(bare(DebuggerState::Error, error))
}

/// A reset kills the gdbserver and stops gdb, and nothing is left but the
/// configuration, whatever comes of them. So it is with a quit without gdb.
pub proof fn law_resets(s: Session, operation: ToolOperation, gdb: Gdb)
    requires
        operation is ResetBackToNotAttached || (operation is Quit && s.executable is None),
    ensures
        ({
            let (t, result) = dialogues::run(plan::execute(s, operation), gdb);
            &&& is_left(s, t)
            &&& result == Ok::<Response, Text>(bare(DebuggerState::NotAttached, Seq::empty()))
            &&& dialogues::requests(plan::execute(s, operation), gdb) == (if s.gdbserver {
                seq![RequestView::KillGdbServer, RequestView::Stop]
            } else {
                seq![RequestView::Stop]
            })
        }),
{
    let u = plan::without_gdbserver(s);
    dialogues::lemma_stop_gdbserver(s, plan::stopping(), gdb);
    if !s.gdbserver {
        assert(u =~= s);
    }
    reveal_with_fuel(dialogues::run, 2);
    reveal_with_fuel(dialogues::requests, 2);
    let none = Seq::<RequestView>::empty();
    assert(seq![RequestView::Stop] + none =~= seq![RequestView::Stop]);
    assert(seq![RequestView::KillGdbServer] + seq![RequestView::Stop] =~= seq![
        RequestView::KillGdbServer,
        RequestView::Stop,
    ]);
}

/// gdb is told to kill the program, and a question whether to is answered by
/// yes. What it says, to both, decides the state; an error is not remembered.
pub proof fn law_kills(s: Session, output: Text, confirmed: Text, gdb: Gdb)
    requires
        s.executable is Some,
        dialogues::reply_to(gdb, "kill"@) == Ok::<Text, Text>(output),
        state_laws::says(output, "kill the program being debugged"@) ==> dialogues::reply_to(
            gdb,
            "y"@,
        ) == Ok::<Text, Text>(confirmed),
    ensures
        ({
            let (t, result) = dialogues::run(plan::execute(s, ToolOperation::Kill), gdb);
            let asked = dialogues::requests(plan::execute(s, ToolOperation::Kill), gdb);
            let asks = state_laws::says(output, "kill the program being debugged"@);
            let said = if asks {
                output + seq!['\n'] + confirmed
            } else {
                output
            };
            &&& t == (Session { state: t.state, last_error: Seq::empty(), ..s })
            &&& t.state == if state_laws::says(said, "the program is not being run"@)
                || state_laws::says(said, "no inferior"@) {
                DebuggerState::NotAttached
            } else if state_laws::says(said, "killed"@) || state_laws::says(said, "sigkill"@)
                || state_laws::says(said, "terminated with signal"@) {
                DebuggerState::SigKill
            } else {
                gdb_output::state_after(dialogues::stopped_first(s).state, said, None)
            }
            &&& tells(t, gdb, result, bare(t.state, Seq::empty()))
            &&& asked == dialogues::sends(s, "kill"@) + (if asks {
                seq![RequestView::Exec("y"@)]
            } else {
                Seq::empty()
            }) + dialogues::crash_requests(t, gdb)
        }),
{
    let asks = state_laws::says(output, "kill the program being debugged"@);
    dialogues::lemma_resync(s, plan::killing(), gdb);
    reveal_with_fuel(dialogues::run, 3);
    reveal_with_fuel(dialogues::requests, 3);
    let said = if asks {
        output + seq!['\n'] + confirmed
    } else {
        output
    };
    assert(output.push('\n') + confirmed =~= output + seq!['\n'] + confirmed);
    let t = plan::killed(dialogues::stopped_first(s), said);
    lemma_told(t, plan::base_response(t), gdb);
    lemma_not_continue(ToolOperation::Kill, "kill"@);
    let kill = RequestView::Exec("kill"@);
    let yes = RequestView::Exec("y"@);
    let end = dialogues::crash_requests(t, gdb);
    let none = Seq::<RequestView>::empty();
    let stops = dialogues::stops(s);
    assert(stops + (seq![kill] + (seq![yes] + end)) =~= stops.push(kill) + seq![yes] + end);
    assert(stops + (seq![kill] + end) =~= stops.push(kill) + none + end);
}

/// A kill that fails is an error with its reason.
pub proof fn law_kills_that_fail(s: Session, error: Text, gdb: Gdb)
    requires
        s.executable is Some,
        ({
            ||| dialogues::reply_to(gdb, "kill"@) == Err::<Text, Text>(error)
            ||| dialogues::reply_to(gdb, "kill"@) matches Ok(output) && state_laws::says(
                output,
                "kill the program being debugged"@,
            ) && dialogues::reply_to(gdb, "y"@) == Err::<Text, Text>(error)
        }),
    ensures
        dialogues::run(plan::execute(s, ToolOperation::Kill), gdb) == (
            Session { state: DebuggerState::Error, last_error: error, ..s },
            Ok::<Response, Text>(bare(DebuggerState::Error, error)),
        ),
{
    dialogues::lemma_resync(s, plan::killing(), gdb);
    reveal_with_fuel(dialogues::run, 3);
}

// ---------------------------------------------------------------------------
// Settings
// ---------------------------------------------------------------------------

/// A setting that is not zero is taken over as it is, and nothing else of the
/// configuration changes; an old error is left.
pub proof fn law_settings_are_taken_over(s: Session, size: usize, gdb: Gdb)
    requires
        size > 0,
        !is_crash(s.state),
    ensures
        is_set(
            s,
            ToolOperation::SetDisplayLinesBeforeCurrent { size },
            Config { display_lines_before_current: size, ..s.config },
            gdb,
        ),
        is_set(
            s,
            ToolOperation::SetDisplayLinesAfterCurrent { size },
            Config { display_lines_after_current: size, ..s.config },
            gdb,
        ),
        is_set(
            s,
            ToolOperation::SetDisplayBacktrace { size },
            Config { display_backtrace: size, ..s.config },
            gdb,
        ),
        is_set(
            s,
            ToolOperation::SetDisplayVariableList { size },
            Config { display_variable_list: size, ..s.config },
            gdb,
        ),
{
}

/// An operation sets the configuration, asks for nothing, and tells the state.
pub open spec fn is_set(s: Session, operation: ToolOperation, config: Config, gdb: Gdb) -> bool {
    let state = if s.state == DebuggerState::Error {
        looking(s)
    } else {
        s.state
    };
    &&& dialogues::requests(plan::execute(s, operation), gdb) == Seq::<RequestView>::empty()
    &&& dialogues::run(plan::execute(s, operation), gdb) == (
        Session { config, state, last_error: Seq::empty(), ..s },
        Ok::<Response, Text>(bare(state, Seq::empty())),
    )
}

/// The registers are told as gdb prints them; that there are none leaves the
/// session attached.
pub proof fn law_registers_are_told(s: Session, output: Text, gdb: Gdb)
    requires
        s.executable is Some,
        !is_off(s.state),
        s.state != DebuggerState::Exited,
        dialogues::reply_to(gdb, "info all-registers"@) == Ok::<Text, Text>(output),
        !state_laws::refuses(output),
        gdb_output::state_after(
            dialogues::ready_for(s, "info all-registers"@).state,
            output,
            None,
        ) != DebuggerState::Error,
    ensures
        ({
            let (t, result) = dialogues::run(plan::execute(s, ToolOperation::InfoRegs), gdb);
            let shown = gdb_output::command_output(output);
            let missing = shown matches Some(shown) && state_laws::says(shown, "no registers"@);
            &&& t == (Session {
                state: if missing {
                    DebuggerState::Attached
                } else {
                    gdb_output::state_after(
                        dialogues::ready_for(s, "info all-registers"@).state,
                        output,
                        None,
                    )
                },
                last_error: Seq::empty(),
                ..s
            })
            &&& tells(
                t,
                gdb,
                result,
                Response { command_output: shown, ..bare(t.state, Seq::empty()) },
            )
        }),
{
    let command = "info all-registers"@;
    dialogues::lemma_command(s, command, None, true, plan::tell_registers(), gdb);
    let u = dialogues::ready_for(s, command);
    let t = plan::after_output(u, output, None);
    let shown = gdb_output::command_output(output);
    let r = Response { command_output: shown, ..plan::base_response(t) };
    lemma_told(t, r, gdb);
    let attached = plan::in_state(t, DebuggerState::Attached);
    lemma_told(
        attached,
        Response { command_output: shown, ..plan::base_response(attached) },
        gdb,
    );
    if shown is None {
        reveal_strlit("no registers");
        assert(!text::contains(text::lower(Seq::empty()), "no registers"@));
    }
}

// ---------------------------------------------------------------------------
// Sessions without gdb
// ---------------------------------------------------------------------------

/// Where gdb was not started, a command asks for nothing and changes nothing,
/// and the state is told. (An error is left by `print`, and a soft one where
/// soft errors are forgotten; a `Run` at a breakpoint looks at the program.)
pub proof fn law_commands_without_gdb(s: Session, operation: ToolOperation, gdb: Gdb)
    requires
        s.executable is None,
        s.state != DebuggerState::Error,
        s.state != DebuggerState::StoppedAtBreakpoint,
        tells_output(operation) || operation is ClearBreakpoint || operation is SetVar
            || operation is Print || operation is Run || operation is EnableBreakpoint
            || operation is DisableBreakpoint || operation is Kill || operation is InfoRegs,
    ensures
        dialogues::requests(plan::execute(s, operation), gdb) == Seq::<RequestView>::empty(),
        dialogues::run(plan::execute(s, operation), gdb) == (
            s,
            Ok::<Response, Text>(bare(s.state, s.last_error)),
        ),
{
    reveal_strlit("no registers");
    assert(!text::contains(text::lower(Seq::empty()), "no registers"@));
}

/// Where nothing is attached, an operation that looks at the program, or lets it
/// go on, asks for nothing and changes nothing, and the state is told.
pub proof fn law_nothing_is_done_when_off(s: Session, operation: ToolOperation, gdb: Gdb)
    requires
        ({
            ||| is_off(s.state) && (operation is Next || operation is Step || operation is Continue
                || operation is ListBreakpoint || operation is CurrentCode
                || operation is FullBacktrace)
            ||| (is_off(s.state) || s.state == DebuggerState::Exited) && (operation is Interrupt
                || operation is InfoRegs)
        }),
    ensures
        dialogues::requests(plan::execute(s, operation), gdb) == Seq::<RequestView>::empty(),
        dialogues::run(plan::execute(s, operation), gdb) == (
            s,
            Ok::<Response, Text>(bare(s.state, s.last_error)),
        ),
{
}

/// Registers that cannot be had are an error with its reason, unless there are
/// none.
pub proof fn law_registers_that_cannot_be_had(s: Session, error: Text, gdb: Gdb)
    requires
        s.executable is Some,
        !is_off(s.state),
        s.state != DebuggerState::Exited,
        ({
            ||| dialogues::reply_to(gdb, "info all-registers"@) == Err::<Text, Text>(error)
            ||| dialogues::reply_to(gdb, "info all-registers"@) matches Ok(output) && is_complaint(
                dialogues::ready_for(s, "info all-registers"@).state,
                output,
                None,
            ) && gdb_output::command_output(output) == Some(error) && !state_laws::says(
                error,
                "no registers"@,
            )
        }),
    ensures
        ({
            let (t, result) = dialogues::run(plan::execute(s, ToolOperation::InfoRegs), gdb);
            &&& t == (Session { state: DebuggerState::Error, last_error: error, ..s })
            &&& result matches Ok(r) && r.error == error && r.state == t.state
        }),
{
    let command = "info all-registers"@;
    dialogues::lemma_command(s, command, None, true, plan::tell_registers(), gdb);
    let u = dialogues::ready_for(s, command);
    let t = plan::troubled(u, DebuggerState::Error, error);
    let shown = match dialogues::reply_to(gdb, command) {
        Ok(output) => {
            lemma_complaint(u.state, output, None);
            assert(plan::after_output(u, output, None) == t);
            Some(error)
        },
        Err(error) => None,
    };
    reveal_strlit("no registers");
    assert(!text::contains(text::lower(Seq::empty()), "no registers"@));
    let r = Response { command_output: shown, ..plan::base_response(t) };
    lemma_told(t, r, gdb);
    assert(dialogues::run(plan::execute(s, ToolOperation::InfoRegs), gdb) == dialogues::run(
        plan::tell_registers()(t, r),
        gdb,
    ));
}

/// To connect to a remote target without gdb is to start gdb on the executable
/// of the configuration and to connect then.
pub proof fn law_remote_targets_start_gdb(s: Session, ip: String, port: u16, gdb: Gdb)
    requires
        s.executable is None,
        operation::outcome(gdb(RequestView::Start(s.config.executable_path))) is Ok,
    ensures
        ({
            let operation = ToolOperation::TargetRemote { ip, port };
            let started = Session {
                state: DebuggerState::Attached,
                executable: Some(s.config.executable_path),
                last_error: Seq::empty(),
                ..s
            };
            &&& dialogues::run(plan::execute(s, operation), gdb) == dialogues::run(
                plan::execute(started, operation),
                gdb,
            )
            &&& dialogues::requests(plan::execute(s, operation), gdb) == seq![
                RequestView::Start(s.config.executable_path),
            ] + dialogues::requests(plan::execute(started, operation), gdb)
        }),
{
    reveal_with_fuel(dialogues::run, 2);
    reveal_with_fuel(dialogues::requests, 2);
}

} // verus!
