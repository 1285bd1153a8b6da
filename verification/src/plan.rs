//! What a session does: which requests an operation leads to, for every way in
//! which they may be answered, and how it ends.
use vstd::prelude::*;

use crate::config::Config;
use crate::gdb_output;
use crate::number;
use crate::operation;
use crate::operation::{BreakpointAction, Reply, RequestView, ToolOperation};
use crate::paths;
use crate::protocol;
use crate::protocol::{Code, DebuggerState, Response};
use crate::text;
use crate::text::Text;

verus! {

/// A session, as a mathematical value.
#[verifier::ext_equal]
pub struct Session {
    pub config: Config,
    pub state: DebuggerState,
    /// The variables that are watched, in the order in which they were added.
    pub watched: Seq<Text>,
    /// The executable that gdb was started on.
    pub executable: Option<Text>,
    /// Whether a gdbserver of this session runs.
    pub gdbserver: bool,
    pub last_error: Text,
}

/// What is left to be done. Either all is done, or something is asked for, and
/// the reply decides what is left then.
pub enum Plan {
    Finish { session: Session, result: Result<Response, Text> },
    Ask { request: RequestView, next: spec_fn(Reply) -> Plan },
}

/// The frames of a program, by number.
pub type Frames = Map<u64, (Text, Text)>;

/// Where a program stands, and the source around it.
pub struct Place {
    pub path: Option<Text>,
    pub line: Option<u64>,
    pub code: Option<Map<u64, Text>>,
}

// ---------------------------------------------------------------------------
// Sessions
// ---------------------------------------------------------------------------

/// A session that nothing has happened in.
pub open spec fn fresh(config: Config) -> Session {
    Session {
        config,
        state: DebuggerState::NotAttached,
        watched: Seq::empty(),
        executable: None,
        gdbserver: false,
        last_error: Seq::empty(),
    }
}

/// The session in a state, without an error.
pub open spec fn in_state(s: Session, state: DebuggerState) -> Session {
    Session { state, last_error: Seq::empty(), ..s }
}

/// The session in a state, with an error.
pub open spec fn troubled(s: Session, state: DebuggerState, error: Text) -> Session {
    Session { state, last_error: error, ..s }
}

/// The state that a session falls back to.
pub open spec fn base_state(s: Session) -> DebuggerState {
    if s.executable is Some {
        DebuggerState::Attached
    } else {
        DebuggerState::NotAttached
    }
}

/// The session out of the error that it may be in.
pub open spec fn recovered(s: Session) -> Session {
    if s.state == DebuggerState::Error {
        in_state(s, base_state(s))
    } else {
        in_state(s, s.state)
    }
}

/// The session back in the state that it was in, or out of the error that it
/// was in.
pub open spec fn restored(s: Session, previous: DebuggerState) -> Session {
    if previous == DebuggerState::Error {
        in_state(s, base_state(s))
    } else {
        in_state(s, previous)
    }
}

/// The session forgets what it was attached to.
pub open spec fn detached(s: Session) -> Session {
    Session {
        state: DebuggerState::NotAttached,
        executable: None,
        watched: Seq::empty(),
        last_error: Seq::empty(),
        ..s
    }
}

/// The session without a gdbserver.
pub open spec fn without_gdbserver(s: Session) -> Session {
    Session { gdbserver: false, ..s }
}

/// Nothing was attached, or it failed.
pub open spec fn is_off(state: DebuggerState) -> bool {
    ||| state == DebuggerState::NotAttached
    ||| state == DebuggerState::FailedToAttach
    ||| state == DebuggerState::GdbServerFailedToAttach
}

/// There is no program to look at.
pub open spec fn is_gone(state: DebuggerState) -> bool {
    is_off(state) || state == DebuggerState::Exited
}

/// A signal stopped the program whose place is always told.
pub open spec fn is_crash(state: DebuggerState) -> bool {
    ||| state == DebuggerState::SigSegv
    ||| state == DebuggerState::SigFpe
    ||| state == DebuggerState::SigIll
}

/// The program stands where its variables, frames and source can be shown.
pub open spec fn is_at_rest(state: DebuggerState) -> bool {
    ||| state == DebuggerState::Attached
    ||| state == DebuggerState::GdbServerAttached
    ||| state == DebuggerState::StoppedAtBreakpoint
    ||| state == DebuggerState::StoppedAtStepping
}

/// The answer that tells the state of the session and its error.
pub open spec fn base_response(s: Session) -> Response {
    protocol::bare_response(s.state, s.last_error)
}

// ---------------------------------------------------------------------------
// The end of an operation
// ---------------------------------------------------------------------------

/// The operation fails.
pub open spec fn fail(s: Session, error: Text) -> Plan {
    Plan::Finish { session: s, result: Err(error) }
}

/// The operation is answered. The answer to a crash also tells the frames,
/// unless it already does or there is no executable.
pub open spec fn respond(s: Session, r: Response) -> Plan {
    if is_crash(r.state) && r.backtrace is None && s.executable is Some {
        collect_backtrace(s, true, crash_frames(s, r))
    } else {
        Plan::Finish { session: s, result: Ok(r) }
    }
}

/// The answer to a crash, with the frames.
pub open spec fn with_frames(r: Response, frames: Frames) -> Response {
    Response {
        backtrace: Some(frames),
        current_func: if r.current_func is None {
            gdb_output::innermost_function(frames)
        } else {
            r.current_func
        },
        ..r
    }
}

/// The frames of a crash are known.
pub open spec fn crash_frames(s: Session, r: Response) -> spec_fn(Frames) -> Plan {
    |frames: Frames| Plan::Finish { session: s, result: Ok(with_frames(r, frames)) }
}

/// The operation is answered by the state of the session.
pub open spec fn answer(s: Session) -> Plan {
    respond(s, base_response(s))
}

// ---------------------------------------------------------------------------
// What operations have in common
// ---------------------------------------------------------------------------

/// The program that runs is stopped, and the prompt of gdb waited for, before
/// anything else is asked of gdb.
pub open spec fn resync(s: Session, goal: spec_fn(Session) -> Plan) -> Plan {
    if s.state == DebuggerState::Running {
        Plan::Ask { request: RequestView::Interrupt, next: resync_interrupted(s, goal) }
    } else {
        goal(s)
    }
}

/// The program that runs was interrupted, or could not be.
pub open spec fn resync_interrupted(s: Session, goal: spec_fn(Session) -> Plan) -> spec_fn(
    Reply,
) -> Plan {
    |reply: Reply|
        Plan::Ask {
            request: RequestView::Exec("printf \"\""@),
            next: resync_settled(s, goal),
        }
}

/// The prompt is back, or could not be had.
pub open spec fn resync_settled(s: Session, goal: spec_fn(Session) -> Plan) -> spec_fn(
    Reply,
) -> Plan {
    |reply: Reply| goal(Session { state: DebuggerState::StoppedAtStepping, ..s })
}

/// The gdbserver of the session, if there is one, is killed.
pub open spec fn stop_gdbserver(s: Session, goal: spec_fn(Session) -> Plan) -> Plan {
    if s.gdbserver {
        Plan::Ask { request: RequestView::KillGdbServer, next: gdbserver_stopped(s, goal) }
    } else {
        goal(s)
    }
}

/// The gdbserver of the session was killed.
pub open spec fn gdbserver_stopped(s: Session, goal: spec_fn(Session) -> Plan) -> spec_fn(
    Reply,
) -> Plan {
    |reply: Reply| goal(without_gdbserver(s))
}

/// The session after a command printed `output`. A command that was refused
/// leaves an error; one that was not clears an old one.
pub open spec fn after_output(
    s: Session,
    output: Text,
    fallback: Option<DebuggerState>,
) -> Session {
    let state = gdb_output::state_after(s.state, output, fallback);
    if state != DebuggerState::Error {
        in_state(s, state)
    } else if s.state == DebuggerState::Error && !gdb_output::shows_error(output) {
        in_state(s, base_state(s))
    } else {
        troubled(s, DebuggerState::Error, match gdb_output::command_output(output) {
            Some(shown) => shown,
            None => "gdb command failed"@,
        })
    }
}

/// A command is executed, if gdb was started; else the state is all there is
/// to tell. Nothing here starts gdb.
pub open spec fn run_command(
    s: Session,
    command: Text,
    fallback: Option<DebuggerState>,
    include_output: bool,
    goal: spec_fn(Session, Response) -> Plan,
) -> Plan {
    if s.executable is None {
        goal(s, base_response(s))
    } else if command == "continue"@ {
        send_command(s, command, fallback, include_output, goal)
    } else {
        resync(s, sending(command, fallback, include_output, goal))
    }
}

/// The session is ready for a command.
pub open spec fn sending(
    command: Text,
    fallback: Option<DebuggerState>,
    include_output: bool,
    goal: spec_fn(Session, Response) -> Plan,
) -> spec_fn(Session) -> Plan {
    |s: Session| send_command(s, command, fallback, include_output, goal)
}

/// A command is sent to gdb.
pub open spec fn send_command(
    s: Session,
    command: Text,
    fallback: Option<DebuggerState>,
    include_output: bool,
    goal: spec_fn(Session, Response) -> Plan,
) -> Plan {
    Plan::Ask {
        request: RequestView::Exec(command),
        next: command_replied(s, fallback, include_output, goal),
    }
}

/// A command was executed, or failed.
pub open spec fn command_replied(
    s: Session,
    fallback: Option<DebuggerState>,
    include_output: bool,
    goal: spec_fn(Session, Response) -> Plan,
) -> spec_fn(Reply) -> Plan {
    |reply: Reply|
        match operation::outcome(reply) {
            Ok(output) => {
                let t = after_output(s, output, fallback);
                goal(
                    t,
                    Response {
                        command_output: if include_output {
                            gdb_output::command_output(output)
                        } else {
                            None
                        },
                        ..base_response(t)
                    },
                )
            },
            Err(error) => {
                let t = troubled(s, DebuggerState::Error, error);
                goal(t, base_response(t))
            },
        }
}

/// What a command said is the answer.
pub open spec fn tell() -> spec_fn(Session, Response) -> Plan {
    |s: Session, r: Response| respond(s, r)
}

/// An error of a command that says nothing against the session is told, and
/// forgotten.
pub open spec fn forgive(s: Session, r: Response, previous: DebuggerState) -> Plan {
    let t = restored(s, previous);
    respond(
        t,
        Response { error: r.error, command_output: r.command_output, ..base_response(t) },
    )
}

/// What a command said is the answer; a soft error is forgotten.
pub open spec fn tell_softly(previous: DebuggerState) -> spec_fn(Session, Response) -> Plan {
    |s: Session, r: Response|
        if r.state == DebuggerState::Error && gdb_output::is_soft_error(text::lower(r.error)) {
            forgive(s, r, previous)
        } else {
            respond(s, r)
        }
}

/// What `print` said is the answer; any error is forgotten.
pub open spec fn tell_print(previous: DebuggerState) -> spec_fn(Session, Response) -> Plan {
    |s: Session, r: Response|
        if r.state == DebuggerState::Error {
            forgive(s, r, previous)
        } else {
            respond(s, r)
        }
}

/// What was said of the registers is the answer. That there are none leaves
/// the session attached.
pub open spec fn tell_registers() -> spec_fn(Session, Response) -> Plan {
    |s: Session, r: Response|
        {
            let output = match r.command_output {
                Some(output) => output,
                None => Seq::empty(),
            };
            if text::contains(text::lower(output), "no registers"@) {
                let t = in_state(s, DebuggerState::Attached);
                respond(t, Response { command_output: r.command_output, ..base_response(t) })
            } else {
                respond(s, r)
            }
        }
}

/// A program that was run and stands at a breakpoint is shown.
pub open spec fn show_breakpoint() -> spec_fn(Session, Response) -> Plan {
    |s: Session, r: Response|
        if r.state == DebuggerState::StoppedAtBreakpoint {
            snapshot(s)
        } else {
            respond(s, r)
        }
}

/// A program that is at rest is shown.
pub open spec fn show_rest() -> spec_fn(Session, Response) -> Plan {
    |s: Session, r: Response|
        if is_at_rest(r.state) {
            snapshot(s)
        } else {
            respond(s, r)
        }
}

// ---------------------------------------------------------------------------
// Variables, frames and source
// ---------------------------------------------------------------------------

/// How many of the watched variables are shown.
pub open spec fn shown_variables(s: Session) -> nat {
    if s.watched.len() <= s.config.display_variable_list {
        s.watched.len()
    } else {
        s.config.display_variable_list as nat
    }
}

/// What is shown as the value of a variable.
pub open spec fn variable_value(reply: Reply) -> Text {
    match operation::outcome(reply) {
        Ok(output) => if gdb_output::shows_error(output) {
            "<error: "@ + (match gdb_output::command_output(output) {
                Some(shown) => shown,
                None => "gdb print failed"@,
            }) + ">"@
        } else {
            gdb_output::gdb_value(output)
        },
        Err(error) => "<error: "@ + error + ">"@,
    }
}

/// The values of the watched variables are asked for, one by one; those in
/// `list` are known.
pub open spec fn collect_variables(
    s: Session,
    list: Seq<(Text, Text)>,
    goal: spec_fn(Seq<(Text, Text)>) -> Plan,
) -> Plan
    decreases shown_variables(s) - list.len(), 1nat,
{
    if list.len() < shown_variables(s) {
        Plan::Ask {
            request: RequestView::Exec("print "@ + s.watched[list.len() as int]),
            next: variable_told(s, list, goal),
        }
    } else {
        goal(list)
    }
}

/// The value of the next variable is known.
pub open spec fn variable_told(
    s: Session,
    list: Seq<(Text, Text)>,
    goal: spec_fn(Seq<(Text, Text)>) -> Plan,
) -> spec_fn(Reply) -> Plan
    decreases shown_variables(s) - list.len(), 0nat,
    when list.len() < shown_variables(s)
{
    |reply: Reply|
        collect_variables(
            s,
            list.push((s.watched[list.len() as int], variable_value(reply))),
            goal,
        )
}

/// The frames in what `backtrace` says.
pub open spec fn read_frames(s: Session, output: Text, known: Frames) -> Frames {
    gdb_output::frames_of(text::lines(output), s.config.display_backtrace as nat, known)
}

/// The frames are asked for.
pub open spec fn collect_backtrace(
    s: Session,
    full: bool,
    goal: spec_fn(Frames) -> Plan,
) -> Plan {
    Plan::Ask {
        request: RequestView::Exec(
            if full {
                "backtrace full"@
            } else {
                "backtrace"@
            },
        ),
        next: backtrace_told(s, full, goal),
    }
}

/// The frames are known, or are asked for again in the plain form.
pub open spec fn backtrace_told(s: Session, full: bool, goal: spec_fn(Frames) -> Plan) -> spec_fn(
    Reply,
) -> Plan {
    |reply: Reply|
        match operation::outcome(reply) {
            Ok(output) => {
                let frames = read_frames(s, output, Map::empty());
                if full && frames.dom().is_empty() {
                    Plan::Ask {
                        request: RequestView::Exec("backtrace"@),
                        next: plain_backtrace_told(s, goal),
                    }
                } else {
                    goal(frames)
                }
            },
            Err(error) => fail(s, error),
        }
}

/// The frames in the plain form are known.
pub open spec fn plain_backtrace_told(s: Session, goal: spec_fn(Frames) -> Plan) -> spec_fn(
    Reply,
) -> Plan {
    |reply: Reply|
        match operation::outcome(reply) {
            Ok(output) => goal(read_frames(s, output, Map::empty())),
            Err(error) => fail(s, error),
        }
}

/// The first source line that is shown around a line.
pub open spec fn first_shown(s: Session, line: u64) -> nat {
    if line - s.config.display_lines_before_current > 1 {
        (line - s.config.display_lines_before_current) as nat
    } else {
        1
    }
}

/// The last source line that is shown around a line.
pub open spec fn last_shown(s: Session, line: u64) -> nat {
    (line + s.config.display_lines_after_current) as nat
}

/// The command that lists the source around a line.
pub open spec fn list_command(s: Session, line: u64) -> Text {
    "list "@ + number::decimal(first_shown(s, line)) + ","@ + number::decimal(last_shown(s, line))
}

/// The place of the program is asked for.
pub open spec fn collect_current_code(s: Session, goal: spec_fn(Place) -> Plan) -> Plan {
    Plan::Ask { request: RequestView::Exec("frame"@), next: frame_told(s, goal) }
}

/// The place of the program is known; the source around it is asked for.
pub open spec fn frame_told(s: Session, goal: spec_fn(Place) -> Plan) -> spec_fn(Reply) -> Plan {
    |reply: Reply|
        match operation::outcome(reply) {
            Ok(output) => match gdb_output::first_place(text::lines(output)) {
                Some((path, line)) => Plan::Ask {
                    request: RequestView::Exec(list_command(s, line)),
                    next: listing_told(s, path, line, goal),
                },
                None => goal(Place { path: None, line: None, code: None }),
            },
            Err(error) => fail(s, error),
        }
}

/// The source around the place of the program is known.
pub open spec fn listing_told(
    s: Session,
    path: Text,
    line: u64,
    goal: spec_fn(Place) -> Plan,
) -> spec_fn(Reply) -> Plan {
    |reply: Reply|
        match operation::outcome(reply) {
            Ok(output) => {
                let code = gdb_output::listed_lines(text::lines(output), Map::empty());
                goal(
                    Place {
                        path: Some(
                            gdb_output::source_path(
                                s.config.separator,
                                s.config.codebase_dir,
                                path,
                            ),
                        ),
                        line: Some(line),
                        code: if code.dom().is_empty() {
                            None
                        } else {
                            Some(code)
                        },
                    },
                )
            },
            Err(error) => fail(s, error),
        }
}

/// Source lines in the form that the configuration asks for.
pub open spec fn shown_code(s: Session, code: Map<u64, Text>) -> Code {
    if s.config.display_join_current_code {
        Code::Joined(gdb_output::shown_lines(gdb_output::in_order(code)))
    } else {
        Code::Lines(code)
    }
}

/// An answer with the place of the program.
pub open spec fn with_place(s: Session, r: Response, place: Place) -> Response {
    Response {
        current_code_path: place.path,
        current_code_line: match place.line {
            Some(line) => if line <= i64::MAX {
                Some(line as i64)
            } else {
                None
            },
            None => None,
        },
        current_code: match place.code {
            Some(code) => Some(shown_code(s, code)),
            None => None,
        },
        ..r
    }
}

/// Variables, frames and source are shown.
pub open spec fn snapshot(s: Session) -> Plan {
    collect_variables(s, Seq::empty(), snapshot_variables(s, base_response(s)))
}

/// The variables of a snapshot are known.
pub open spec fn snapshot_variables(s: Session, r: Response) -> spec_fn(Seq<(Text, Text)>) -> Plan {
    |list: Seq<(Text, Text)>|
        collect_backtrace(s, true, snapshot_frames(s, Response { variable_list: Some(list), ..r }))
}

/// The frames of a snapshot are known.
pub open spec fn snapshot_frames(s: Session, r: Response) -> spec_fn(Frames) -> Plan {
    |frames: Frames|
        collect_current_code(
            s,
            snapshot_place(
                s,
                Response {
                    backtrace: Some(frames),
                    current_func: gdb_output::innermost_function(frames),
                    ..r
                },
            ),
        )
}

/// The place of a snapshot is known.
pub open spec fn snapshot_place(s: Session, r: Response) -> spec_fn(Place) -> Plan {
    |place: Place| respond(s, with_place(s, r, place))
}

// ---------------------------------------------------------------------------
// The operations
// ---------------------------------------------------------------------------

/// gdb is started on an executable.
pub open spec fn execute_attach(s: Session, path: Text) -> Plan {
    if paths::absolute(s.config.separator, path) {
        Plan::Ask { request: RequestView::Start(path), next: attach_replied(s, path) }
    } else {
        answer(
            troubled(s, DebuggerState::FailedToAttach, "executable_path must be absolute"@),
        )
    }
}

/// gdb was started, or could not be.
pub open spec fn attach_replied(s: Session, path: Text) -> spec_fn(Reply) -> Plan {
    |reply: Reply|
        match operation::outcome(reply) {
            Ok(_) => answer(attached(s, path)),
            Err(error) => answer(troubled(s, DebuggerState::FailedToAttach, error)),
        }
}

/// The session with gdb on an executable.
pub open spec fn attached(s: Session, path: Text) -> Session {
    Session { executable: Some(path), ..in_state(s, DebuggerState::Attached) }
}

/// A gdbserver is attached to a process, in place of the one that runs.
pub open spec fn execute_gdbserver(s: Session, ip: Text, port: u16, pid: i64) -> Plan {
    if pid <= 0 {
        answer(troubled(s, DebuggerState::GdbServerFailedToAttach, "pid must be > 0"@))
    } else {
        stop_gdbserver(s, spawning(endpoint(ip, port), number::decimal(pid as nat)))
    }
}

/// Where a gdbserver is reached.
pub open spec fn endpoint(ip: Text, port: u16) -> Text {
    ip + ":"@ + number::decimal(port as nat)
}

/// No gdbserver runs; one is started.
pub open spec fn spawning(endpoint: Text, pid: Text) -> spec_fn(Session) -> Plan {
    |s: Session|
        Plan::Ask {
            request: RequestView::SpawnGdbServer { endpoint, pid },
            next: gdbserver_spawned(s),
        }
}

/// The gdbserver was started, or could not be.
pub open spec fn gdbserver_spawned(s: Session) -> spec_fn(Reply) -> Plan {
    |reply: Reply|
        match operation::outcome(reply) {
            Ok(_) => Plan::Ask {
                request: RequestView::ProbeGdbServer { delay_ms: 100 },
                next: gdbserver_probed(s),
            },
            Err(error) => answer(
                troubled(
                    s,
                    DebuggerState::GdbServerFailedToAttach,
                    "failed to start gdbserver: "@ + error,
                ),
            ),
        }
}

/// The gdbserver was looked at a moment after its start.
pub open spec fn gdbserver_probed(s: Session) -> spec_fn(Reply) -> Plan {
    |reply: Reply|
        match reply {
            Reply::Output(_) => answer(
                Session { gdbserver: true, ..in_state(s, DebuggerState::GdbServerAttached) },
            ),
            Reply::Exited(status) => answer(
                troubled(
                    s,
                    DebuggerState::GdbServerFailedToAttach,
                    "gdbserver exited early with status: "@ + status@,
                ),
            ),
            Reply::Failed(error) => fail(s, error@),
        }
}

/// gdb is connected to a remote target. A gdb that was not started yet is
/// started on the executable of the configuration.
pub open spec fn execute_target_remote(s: Session, ip: Text, port: u16) -> Plan {
    let command = "target remote "@ + endpoint(ip, port);
    if s.executable is None {
        Plan::Ask {
            request: RequestView::Start(s.config.executable_path),
            next: remote_started(s, command),
        }
    } else {
        connect_remote(s, command)
    }
}

/// gdb was started for a remote target, or could not be.
pub open spec fn remote_started(s: Session, command: Text) -> spec_fn(Reply) -> Plan {
    |reply: Reply|
        match operation::outcome(reply) {
            Ok(_) => connect_remote(attached(s, s.config.executable_path), command),
            Err(error) => answer(troubled(s, DebuggerState::FailedToAttach, error)),
        }
}

/// gdb runs, and is connected to a remote target.
pub open spec fn connect_remote(s: Session, command: Text) -> Plan {
    run_command(s, command, Some(DebuggerState::Attached), false, tell())
}

/// A command whose soft errors are forgotten.
pub open spec fn execute_softly(s: Session, command: Text) -> Plan {
    run_command(s, command, None, true, tell_softly(s.state))
}

/// A command of which only the state is told.
pub open spec fn execute_quietly(s: Session, command: Text) -> Plan {
    run_command(s, command, None, false, tell())
}

/// A variable is printed.
pub open spec fn execute_print(s: Session, var: Text) -> Plan {
    run_command(s, "print "@ + var, None, true, tell_print(s.state))
}

/// The registers are told, if there is a program.
pub open spec fn execute_info_regs(s: Session) -> Plan {
    if is_gone(s.state) {
        answer(s)
    } else {
        run_command(s, "info all-registers"@, None, true, tell_registers())
    }
}

/// The program is run.
pub open spec fn execute_run(s: Session) -> Plan {
    run_command(s, "run"@, Some(DebuggerState::Running), false, show_breakpoint())
}

/// The program goes on, and is shown where it comes to rest.
pub open spec fn execute_with_full_snapshot(
    s: Session,
    command: Text,
    fallback: DebuggerState,
) -> Plan {
    if is_off(s.state) {
        answer(s)
    } else {
        run_command(s, command, Some(fallback), false, show_rest())
    }
}

/// A location in the source, as it is written in commands.
pub open spec fn at_location(filename: Text, linenumber: u64) -> Text {
    filename + ":"@ + number::decimal(linenumber as nat)
}

/// The breakpoints at a location are enabled or disabled.
pub open spec fn execute_breakpoint_action(
    s: Session,
    action: BreakpointAction,
    filename: Text,
    linenumber: u64,
) -> Plan {
    if s.executable is None {
        answer(s)
    } else {
        resync(s, resolve_breakpoints(action, filename, linenumber))
    }
}

/// The table of breakpoints is asked for.
pub open spec fn resolve_breakpoints(
    action: BreakpointAction,
    filename: Text,
    linenumber: u64,
) -> spec_fn(Session) -> Plan {
    |s: Session|
        Plan::Ask {
            request: RequestView::Exec("info breakpoints"@),
            next: breakpoints_resolved(s, action, filename, linenumber),
        }
}

/// The table of breakpoints is known.
pub open spec fn breakpoints_resolved(
    s: Session,
    action: BreakpointAction,
    filename: Text,
    linenumber: u64,
) -> spec_fn(Reply) -> Plan {
    |reply: Reply|
        match operation::outcome(reply) {
            Ok(output) => {
                let ids = gdb_output::breakpoint_ids(
                    text::lines(output),
                    s.config.separator,
                    s.config.codebase_dir,
                    filename,
                    linenumber,
                );
                if ids.len() == 0 {
                    answer(
                        troubled(
                            s,
                            DebuggerState::Error,
                            "No breakpoint at "@ + at_location(filename, linenumber) + "."@,
                        ),
                    )
                } else {
                    change_breakpoints(s, action, ids)
                }
            },
            Err(error) => fail(s, error),
        }
}

/// The breakpoints of these numbers are changed, one by one, until one cannot
/// be.
pub open spec fn change_breakpoints(
    s: Session,
    action: BreakpointAction,
    ids: Seq<Text>,
) -> Plan
    decreases ids.len(), 1nat,
{
    if ids.len() == 0 {
        answer(recovered(s))
    } else {
        Plan::Ask {
            request: RequestView::Exec(operation::breakpoint_command(action, ids.first())),
            next: breakpoint_changed(s, action, ids),
        }
    }
}

/// The first of some breakpoints was changed, or could not be.
pub open spec fn breakpoint_changed(
    s: Session,
    action: BreakpointAction,
    ids: Seq<Text>,
) -> spec_fn(Reply) -> Plan
    decreases ids.len(), 0nat,
    when ids.len() > 0
{
    |reply: Reply|
        match operation::outcome(reply) {
            Ok(output) => {
                let state = gdb_output::state_after(s.state, output, None);
                if state == DebuggerState::Error {
                    answer(
                        troubled(s, state, match gdb_output::command_output(output) {
                            Some(shown) => shown,
                            None => "gdb breakpoint operation failed"@,
                        }),
                    )
                } else {
                    change_breakpoints(Session { state, ..s }, action, ids.drop_first())
                }
            },
            Err(error) => fail(s, error),
        }
}

/// The table of breakpoints is shown.
pub open spec fn list_breakpoints(s: Session) -> Plan {
    if is_off(s.state) {
        answer(s)
    } else {
        resync(s, listing_breakpoints())
    }
}

/// The session is ready to show the table of breakpoints.
pub open spec fn listing_breakpoints() -> spec_fn(Session) -> Plan {
    |s: Session|
        Plan::Ask {
            request: RequestView::Exec("info breakpoints"@),
            next: breakpoints_listed(recovered(s)),
        }
}

/// The table of breakpoints is known.
pub open spec fn breakpoints_listed(s: Session) -> spec_fn(Reply) -> Plan {
    |reply: Reply|
        match operation::outcome(reply) {
            Ok(output) => respond(
                s,
                Response {
                    breakpoints: Some(gdb_output::breakpoint_table(text::lines(output))),
                    ..base_response(s)
                },
            ),
            Err(error) => answer(troubled(s, DebuggerState::Error, error)),
        }
}

/// The watched variables are shown.
pub open spec fn show_variables(s: Session) -> Plan {
    if is_gone(s.state) {
        respond(s, Response { variable_list: Some(Seq::empty()), ..base_response(s) })
    } else {
        resync(s, showing_variables())
    }
}

/// The session is ready to show the watched variables.
pub open spec fn showing_variables() -> spec_fn(Session) -> Plan {
    |s: Session|
        collect_variables(
            recovered(s),
            Seq::empty(),
            variables_shown(recovered(s), base_response(recovered(s))),
        )
}

/// The values of the watched variables are known.
pub open spec fn variables_shown(s: Session, r: Response) -> spec_fn(Seq<(Text, Text)>) -> Plan {
    |list: Seq<(Text, Text)>| respond(s, Response { variable_list: Some(list), ..r })
}

/// The source around the place of the program is shown.
pub open spec fn show_current_code(s: Session) -> Plan {
    if is_off(s.state) {
        answer(s)
    } else {
        resync(s, showing_current_code())
    }
}

/// The session is ready to show the source.
pub open spec fn showing_current_code() -> spec_fn(Session) -> Plan {
    |s: Session|
        collect_current_code(
            recovered(s),
            current_code_shown(recovered(s), base_response(recovered(s))),
        )
}

/// The source is known.
pub open spec fn current_code_shown(s: Session, r: Response) -> spec_fn(Place) -> Plan {
    |place: Place|
        {
            let told = with_place(s, r, place);
            if told.current_code_path is None && told.current_code_line is None
                && told.current_code is None && told.error.len() == 0 {
                respond(s, Response { error: "no current frame"@, ..told })
            } else {
                respond(s, told)
            }
        }
}

/// The frames are shown.
pub open spec fn show_backtrace(s: Session) -> Plan {
    if is_off(s.state) {
        answer(s)
    } else {
        collect_backtrace(
            recovered(s),
            true,
            backtrace_shown(recovered(s), base_response(recovered(s))),
        )
    }
}

/// The frames are known.
pub open spec fn backtrace_shown(s: Session, r: Response) -> spec_fn(Frames) -> Plan {
    |frames: Frames|
        respond(
            s,
            Response {
                backtrace: Some(frames),
                current_func: gdb_output::innermost_function(frames),
                ..r
            },
        )
}

/// The program is interrupted and shown.
pub open spec fn execute_interrupt(s: Session) -> Plan {
    if is_gone(s.state) {
        answer(s)
    } else {
        Plan::Ask { request: RequestView::Interrupt, next: interrupted(s) }
    }
}

/// The program was interrupted, or could not be.
pub open spec fn interrupted(s: Session) -> spec_fn(Reply) -> Plan {
    |reply: Reply|
        match operation::outcome(reply) {
            Ok(_) => Plan::Ask {
                request: RequestView::Exec("printf \"\""@),
                next: interrupt_settled(s),
            },
            Err(error) => answer(troubled(s, DebuggerState::Error, error)),
        }
}

/// The prompt is back, or could not be had.
pub open spec fn interrupt_settled(s: Session) -> spec_fn(Reply) -> Plan {
    |reply: Reply|
        match operation::outcome(reply) {
            Ok(_) => snapshot(in_state(s, DebuggerState::StoppedAtStepping)),
            Err(error) => answer(troubled(s, DebuggerState::Error, error)),
        }
}

/// The session is ended.
pub open spec fn execute_quit(s: Session) -> Plan {
    if s.executable is None {
        stop_gdbserver(s, stopping())
    } else {
        stop_gdbserver(s, quitting())
    }
}

/// gdb is stopped, whatever comes of it.
pub open spec fn stopping() -> spec_fn(Session) -> Plan {
    |s: Session| Plan::Ask { request: RequestView::Stop, next: stopped(s) }
}

/// gdb was stopped.
pub open spec fn stopped(s: Session) -> spec_fn(Reply) -> Plan {
    |reply: Reply| answer(detached(s))
}

/// A program that runs is interrupted before gdb is told to quit.
pub open spec fn quitting() -> spec_fn(Session) -> Plan {
    |s: Session|
        if s.state == DebuggerState::Running {
            Plan::Ask { request: RequestView::Interrupt, next: quit_interrupted(s) }
        } else {
            send_quit(s)
        }
}

/// The program was interrupted before the end, or could not be.
pub open spec fn quit_interrupted(s: Session) -> spec_fn(Reply) -> Plan {
    |reply: Reply| send_quit(s)
}

/// gdb is told to quit.
pub open spec fn send_quit(s: Session) -> Plan {
    Plan::Ask { request: RequestView::Exec("quit"@), next: quit_replied(s) }
}

/// gdb was told to quit; then it is stopped.
pub open spec fn quit_replied(s: Session) -> spec_fn(Reply) -> Plan {
    |quit: Reply| Plan::Ask { request: RequestView::Stop, next: quit_stopped(s, operation::outcome(quit)) }
}

/// What went wrong at the end of a session.
pub open spec fn quit_errors(quit: Result<Text, Text>, stop: Result<Text, Text>) -> Text {
    match (quit, stop) {
        (Err(quit), Err(stop)) => "quit failed: "@ + quit + "; "@ + ("stop failed: "@ + stop),
        (Err(quit), Ok(_)) => "quit failed: "@ + quit,
        (Ok(_), Err(stop)) => "stop failed: "@ + stop,
        (Ok(_), Ok(_)) => Seq::empty(),
    }
}

/// gdb was stopped after it was told to quit.
pub open spec fn quit_stopped(s: Session, quit: Result<Text, Text>) -> spec_fn(Reply) -> Plan {
    |reply: Reply|
        {
            let stop = operation::outcome(reply);
            if quit is Ok && stop is Ok {
                answer(detached(s))
            } else {
                answer(troubled(s, DebuggerState::Error, quit_errors(quit, stop)))
            }
        }
}

/// The session is reset, whatever comes of it.
pub open spec fn execute_reset(s: Session) -> Plan {
    stop_gdbserver(s, stopping())
}

/// The program is killed.
pub open spec fn execute_kill(s: Session) -> Plan {
    if s.executable is None {
        answer(s)
    } else {
        resync(s, killing())
    }
}

/// The session is ready to kill the program.
pub open spec fn killing() -> spec_fn(Session) -> Plan {
    |s: Session| Plan::Ask { request: RequestView::Exec("kill"@), next: kill_replied(s) }
}

/// gdb was told to kill the program. A question whether to is answered by yes.
pub open spec fn kill_replied(s: Session) -> spec_fn(Reply) -> Plan {
    |reply: Reply|
        match operation::outcome(reply) {
            Ok(output) => if text::contains(
                text::lower(output),
                "kill the program being debugged"@,
            ) {
                Plan::Ask { request: RequestView::Exec("y"@), next: kill_confirmed(s, output) }
            } else {
                answer(killed(s, output))
            },
            Err(error) => answer(troubled(s, DebuggerState::Error, error)),
        }
}

/// The question whether to kill the program was answered.
pub open spec fn kill_confirmed(s: Session, output: Text) -> spec_fn(Reply) -> Plan {
    |reply: Reply|
        match operation::outcome(reply) {
            Ok(confirmed) => answer(killed(s, output.push('\n') + confirmed)),
            Err(error) => answer(troubled(s, DebuggerState::Error, error)),
        }
}

/// The session after gdb was told to kill the program.
pub open spec fn killed(s: Session, output: Text) -> Session {
    let low = text::lower(output);
    in_state(
        s,
        if text::contains(low, "the program is not being run"@) || text::contains(
            low,
            "no inferior"@,
        ) {
            DebuggerState::NotAttached
        } else if text::contains(low, "killed"@) || text::contains(low, "sigkill"@)
            || text::contains(low, "terminated with signal"@) {
            DebuggerState::SigKill
        } else {
            gdb_output::state_after(s.state, output, None)
        },
    )
}

/// A variable is watched from now on.
pub open spec fn watching(s: Session, var: Text) -> Session {
    if s.watched.contains(var) {
        s
    } else {
        Session { watched: s.watched.push(var), ..s }
    }
}

/// All variables but one.
pub open spec fn all_but(var: Text) -> spec_fn(Text) -> bool {
    |name: Text| name != var
}

/// A variable is no longer watched.
pub open spec fn unwatching(s: Session, var: Text) -> Session {
    Session { watched: s.watched.filter(all_but(var)), ..s }
}

/// A size of the display is set to `config`, unless it is zero.
pub open spec fn set_display(s: Session, size: usize, config: Config, refusal: Text) -> Plan {
    if size == 0 {
        answer(troubled(s, DebuggerState::Error, refusal))
    } else {
        answer(recovered(Session { config, ..s }))
    }
}

/// An operation is executed.
pub open spec fn execute(s: Session, operation: ToolOperation) -> Plan {
    match operation {
        ToolOperation::Execute { executable_path } => execute_attach(s, executable_path@),
        ToolOperation::Run => execute_run(s),
        ToolOperation::GdbServer { ip, port, pid } => execute_gdbserver(s, ip@, port, pid),
        ToolOperation::TargetRemote { ip, port } => execute_target_remote(s, ip@, port),
        ToolOperation::SetThread { id } => execute_softly(
            s,
            "thread "@ + number::signed_decimal(id as int),
        ),
        ToolOperation::SetFrame { id } => execute_softly(
            s,
            "frame "@ + number::signed_decimal(id as int),
        ),
        ToolOperation::AddBreakpoint { filename, linenumber } => execute_softly(
            s,
            "break "@ + at_location(filename@, linenumber),
        ),
        ToolOperation::ClearBreakpoint { filename, linenumber } => execute_quietly(
            s,
            "clear "@ + at_location(filename@, linenumber),
        ),
        ToolOperation::EnableBreakpoint { filename, linenumber } => execute_breakpoint_action(
            s,
            BreakpointAction::Enable,
            filename@,
            linenumber,
        ),
        ToolOperation::DisableBreakpoint { filename, linenumber } => execute_breakpoint_action(
            s,
            BreakpointAction::Disable,
            filename@,
            linenumber,
        ),
        ToolOperation::ListBreakpoint => list_breakpoints(s),
        ToolOperation::Next => execute_with_full_snapshot(
            s,
            "next"@,
            DebuggerState::StoppedAtStepping,
        ),
        ToolOperation::Step => execute_with_full_snapshot(
            s,
            "step"@,
            DebuggerState::StoppedAtStepping,
        ),
        ToolOperation::Continue => execute_with_full_snapshot(
            s,
            "continue"@,
            DebuggerState::Running,
        ),
        ToolOperation::Interrupt => execute_interrupt(s),
        ToolOperation::AddVariable { var } => show_variables(watching(s, var@)),
        ToolOperation::DelVariable { var } => show_variables(unwatching(s, var@)),
        ToolOperation::DebuggerState => answer(s),
        ToolOperation::VariableList => show_variables(s),
        ToolOperation::CurrentCode => show_current_code(s),
        ToolOperation::FullBacktrace => show_backtrace(s),
        ToolOperation::InfoThreads => execute_softly(s, "info threads"@),
        ToolOperation::Print { var, value } => match value {
            Some(value) => execute_quietly(s, "set variable "@ + var@ + " = "@ + value@),
            None => execute_print(s, var@),
        },
        ToolOperation::SetVar { var, value } => execute_quietly(
            s,
            "set variable "@ + var@ + " = "@ + value@,
        ),
        ToolOperation::InfoRegs => execute_info_regs(s),
        ToolOperation::Quit => execute_quit(s),
        ToolOperation::Kill => execute_kill(s),
        ToolOperation::ResetBackToNotAttached => execute_reset(s),
        ToolOperation::SetDisplayLinesBeforeCurrent { size } => set_display(
            s,
            size,
            Config { display_lines_before_current: size, ..s.config },
            "display_lines_before_current must be > 0"@,
        ),
        ToolOperation::SetDisplayLinesAfterCurrent { size } => set_display(
            s,
            size,
            Config { display_lines_after_current: size, ..s.config },
            "display_lines_after_current must be > 0"@,
        ),
        ToolOperation::SetDisplayBacktrace { size } => set_display(
            s,
            size,
            Config { display_backtrace: size, ..s.config },
            "display_backtrace must be > 0"@,
        ),
        ToolOperation::SetDisplayVariableList { size } => set_display(
            s,
            size,
            Config { display_variable_list: size, ..s.config },
            "display_variable_list must be > 0"@,
        ),
        ToolOperation::Custom { cmd } => run_command(s, cmd@, None, true, tell()),
    }
}

} // verus!
