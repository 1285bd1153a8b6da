//! The bounds of what an operation may ask for, change and tell, and the proof
//! that every operation keeps to them.
use vstd::prelude::*;

use crate::config::Config;
use crate::gdb_output;
use crate::number;
use crate::operation;
use crate::operation::{BreakpointAction, Reply, RequestView, ToolOperation};
use crate::outcomes;
use crate::outcomes::Told;
use crate::paths;
use crate::plan;
use crate::plan::{Frames, Place, Plan, Session};
use crate::protocol::{DebuggerState, Response};
use crate::text;
use crate::text::Text;

verus! {

// ---------------------------------------------------------------------------
// What is told
// ---------------------------------------------------------------------------

/// What an answer tells fits the session: it tells its state, and an error that
/// it remembers; the frames are not more than the configuration allows, and the
/// variables are the first that are watched.
pub open spec fn fits(t: Session, r: Response) -> bool {
    &&& r.state == t.state
    &&& t.last_error.len() > 0 ==> r.error == t.last_error
    &&& r.backtrace matches Some(frames) ==> outcomes::are_few(t, frames)
    &&& r.variable_list matches Some(list) ==> outcomes::are_watched(t, list)
}

/// An answer fits the session, and the answer to a crash tells the frames.
pub open spec fn is_told_well(t: Session, result: Told) -> bool {
    result matches Ok(r) ==> {
        &&& fits(t, r)
        &&& plan::is_crash(r.state) && t.executable is Some ==> r.backtrace is Some
    }
}

/// What ends like `u`, up to state and error, and is told well, is a good end.
spec fn welcomes(u: Session, goal: spec_fn(Session, Told) -> bool) -> bool {
    forall|t: Session, result: Told|
        outcomes::keeps(u, t) && is_told_well(t, result) ==> #[trigger] goal(t, result)
}

proof fn lemma_respond(
    u: Session,
    s: Session,
    r: Response,
    allowed: spec_fn(RequestView) -> bool,
    goal: spec_fn(Session, Told) -> bool,
)
    requires
        outcomes::may_command(allowed),
        welcomes(u, goal),
        outcomes::keeps(u, s),
        fits(s, r),
    ensures
        outcomes::behaves(plan::respond(s, r), allowed, goal),
{
    assert forall|error: Text| #[trigger] goal(s, Err(error)) by {
        assert(is_told_well(s, Err::<Response, Text>(error)));
    }
    assert forall|frames: Frames| outcomes::are_few(s, frames) implies #[trigger] goal(
        s,
        Ok(plan::with_frames(r, frames)),
    ) by {
        assert(is_told_well(s, Ok::<Response, Text>(plan::with_frames(r, frames))));
    }
    outcomes::rule_respond(s, r, allowed, goal);
}

proof fn lemma_answer(
    u: Session,
    s: Session,
    allowed: spec_fn(RequestView) -> bool,
    goal: spec_fn(Session, Told) -> bool,
)
    requires
        outcomes::may_command(allowed),
        welcomes(u, goal),
        outcomes::keeps(u, s),
    ensures
        outcomes::behaves(plan::answer(s), allowed, goal),
{
    lemma_respond(u, s, plan::base_response(s), allowed, goal);
}

proof fn lemma_current_code(
    u: Session,
    s: Session,
    r: Response,
    told: spec_fn(Place) -> Plan,
    allowed: spec_fn(RequestView) -> bool,
    goal: spec_fn(Session, Told) -> bool,
)
    requires
        outcomes::may_command(allowed),
        welcomes(u, goal),
        outcomes::keeps(u, s),
        fits(s, r),
        told == plan::snapshot_place(s, r) || (told == plan::current_code_shown(s, r)
            && s.last_error.len() == 0),
    ensures
        outcomes::behaves(plan::collect_current_code(s, told), allowed, goal),
{
    assert forall|place: Place| outcomes::behaves(#[trigger] told(place), allowed, goal) by {
        lemma_respond(u, s, plan::with_place(s, r, place), allowed, goal);
        if s.last_error.len() == 0 {
            lemma_respond(
                u,
                s,
                Response { error: "no current frame"@, ..plan::with_place(s, r, place) },
                allowed,
                goal,
            );
        }
    }
    assert forall|error: Text| #[trigger] goal(s, Err(error)) by {
        assert(is_told_well(s, Err::<Response, Text>(error)));
    }
    outcomes::rule_current_code(s, told, allowed, goal);
}

proof fn lemma_snapshot(
    u: Session,
    s: Session,
    allowed: spec_fn(RequestView) -> bool,
    goal: spec_fn(Session, Told) -> bool,
)
    requires
        outcomes::may_command(allowed),
        welcomes(u, goal),
        outcomes::keeps(u, s),
    ensures
        outcomes::behaves(plan::snapshot(s), allowed, goal),
{
    let base = plan::base_response(s);
    let told = plan::snapshot_variables(s, base);
    assert forall|list: Seq<(Text, Text)>|
        outcomes::are_watched(s, list) && list.len() == plan::shown_variables(
            s,
        ) implies outcomes::behaves(#[trigger] told(list), allowed, goal) by {
        let r = Response { variable_list: Some(list), ..base };
        let framed = plan::snapshot_frames(s, r);
        assert forall|frames: Frames| outcomes::are_few(s, frames) implies outcomes::behaves(
            #[trigger] framed(frames),
            allowed,
            goal,
        ) by {
            let q = Response {
                backtrace: Some(frames),
                current_func: gdb_output::innermost_function(frames),
                ..r
            };
            lemma_current_code(u, s, q, plan::snapshot_place(s, q), allowed, goal);
        }
        assert forall|error: Text| #[trigger] goal(s, Err(error)) by {
            assert(is_told_well(s, Err::<Response, Text>(error)));
        }
        outcomes::rule_backtrace(s, true, framed, allowed, goal);
    }
    outcomes::rule_variables(s, Seq::empty(), told, allowed, goal);
}

/// All that can follow a command.
spec fn is_teller(told: spec_fn(Session, Response) -> Plan) -> bool {
    ||| told == plan::tell()
    ||| exists|previous: DebuggerState| told == #[trigger] plan::tell_softly(previous)
    ||| exists|previous: DebuggerState| told == #[trigger] plan::tell_print(previous)
    ||| told == plan::tell_registers()
    ||| told == plan::show_breakpoint()
    ||| told == plan::show_rest()
}

proof fn lemma_command(
    u: Session,
    s: Session,
    command: Text,
    fallback: Option<DebuggerState>,
    include_output: bool,
    told: spec_fn(Session, Response) -> Plan,
    allowed: spec_fn(RequestView) -> bool,
    goal: spec_fn(Session, Told) -> bool,
)
    requires
        outcomes::may_command(allowed),
        welcomes(u, goal),
        outcomes::keeps(u, s),
        is_teller(told),
    ensures
        outcomes::behaves(
            plan::run_command(s, command, fallback, include_output, told),
            allowed,
            goal,
        ),
{
    assert forall|t: Session, r: Response|
        outcomes::is_after_command(s, t, r) implies outcomes::behaves(
        #[trigger] told(t, r),
        allowed,
        goal,
    ) by {
        assert(fits(t, r));
        lemma_respond(u, t, r, allowed, goal);
        lemma_snapshot(u, t, allowed, goal);
        let attached = plan::in_state(t, DebuggerState::Attached);
        lemma_respond(
            u,
            attached,
            Response { command_output: r.command_output, ..plan::base_response(attached) },
            allowed,
            goal,
        );
        assert forall|previous: DebuggerState| outcomes::behaves(
            #[trigger] plan::forgive(t, r, previous),
            allowed,
            goal,
        ) by {
            let back = plan::restored(t, previous);
            lemma_respond(
                u,
                back,
                Response {
                    error: r.error,
                    command_output: r.command_output,
                    ..plan::base_response(back)
                },
                allowed,
                goal,
            );
        }
        if told == plan::tell() {
        } else if told == plan::tell_registers() {
        } else if told == plan::show_breakpoint() {
        } else if told == plan::show_rest() {
        } else if exists|previous: DebuggerState| told == #[trigger] plan::tell_print(previous) {
            let previous = choose|previous: DebuggerState|
                told == #[trigger] plan::tell_print(previous);
            assert(outcomes::behaves(plan::forgive(t, r, previous), allowed, goal));
        } else {
            let previous = choose|previous: DebuggerState|
                told == #[trigger] plan::tell_softly(previous);
            assert(outcomes::behaves(plan::forgive(t, r, previous), allowed, goal));
        }
    }
    outcomes::rule_command(s, command, fallback, include_output, told, allowed, goal);
}

// ---------------------------------------------------------------------------
// What an operation may do
// ---------------------------------------------------------------------------

/// What an operation may ask for.
pub open spec fn may_ask(s: Session, operation: ToolOperation) -> spec_fn(RequestView) -> bool {
    |request: RequestView|
        match request {
            RequestView::Start(path) => match operation {
                ToolOperation::Execute { executable_path } => path == executable_path@
                    && paths::absolute(s.config.separator, path),
                ToolOperation::TargetRemote { .. } => s.executable is None && path
                    == s.config.executable_path,
                _ => false,
            },
            RequestView::Stop => operation is Quit || operation is ResetBackToNotAttached,
            RequestView::SpawnGdbServer { .. } => operation matches ToolOperation::GdbServer {
                pid,
                ..
            } && pid > 0,
            RequestView::ProbeGdbServer { .. } => operation is GdbServer,
            RequestView::KillGdbServer => s.gdbserver && (operation is GdbServer
                || operation is Quit || operation is ResetBackToNotAttached),
            RequestView::Interrupt => true,
            RequestView::Exec(_) => true,
        }
}

/// The configuration after an operation.
pub open spec fn config_after(config: Config, operation: ToolOperation) -> Config {
    match operation {
        ToolOperation::SetDisplayLinesBeforeCurrent { size } if size > 0 => Config {
            display_lines_before_current: size,
            ..config
        },
        ToolOperation::SetDisplayLinesAfterCurrent { size } if size > 0 => Config {
            display_lines_after_current: size,
            ..config
        },
        ToolOperation::SetDisplayBacktrace { size } if size > 0 => Config {
            display_backtrace: size,
            ..config
        },
        ToolOperation::SetDisplayVariableList { size } if size > 0 => Config {
            display_variable_list: size,
            ..config
        },
        _ => config,
    }
}

/// What can have become of the watched variables after an operation.
pub open spec fn may_watch(s: Session, operation: ToolOperation, watched: Seq<Text>) -> bool {
    match operation {
        ToolOperation::AddVariable { var } => watched == plan::watching(s, var@).watched,
        ToolOperation::DelVariable { var } => watched == plan::unwatching(s, var@).watched,
        ToolOperation::Quit => watched == s.watched || watched.len() == 0,
        ToolOperation::ResetBackToNotAttached => watched.len() == 0,
        _ => watched == s.watched,
    }
}

/// What can have become of the executable after an operation.
pub open spec fn may_hold(s: Session, operation: ToolOperation, executable: Option<Text>) -> bool {
    match operation {
        ToolOperation::Execute { executable_path } => executable == s.executable || executable
            == Some(executable_path@),
        ToolOperation::TargetRemote { .. } => executable == s.executable || (s.executable is None
            && executable == Some(s.config.executable_path)),
        ToolOperation::Quit => executable == s.executable || executable is None,
        ToolOperation::ResetBackToNotAttached => executable is None,
        _ => executable == s.executable,
    }
}

/// Whether a gdbserver can run after an operation.
pub open spec fn may_serve(s: Session, operation: ToolOperation, gdbserver: bool) -> bool {
    match operation {
        ToolOperation::GdbServer { pid, .. } => pid <= 0 ==> gdbserver == s.gdbserver,
        ToolOperation::Quit => !gdbserver,
        ToolOperation::ResetBackToNotAttached => !gdbserver,
        _ => gdbserver == s.gdbserver,
    }
}

/// How an operation may leave a session, and what it may tell.
pub open spec fn may_end(s: Session, operation: ToolOperation) -> spec_fn(Session, Told) -> bool {
    |t: Session, result: Told|
        {
            &&& is_told_well(t, result)
            &&& t.config == config_after(s.config, operation)
            &&& may_watch(s, operation, t.watched)
            &&& may_hold(s, operation, t.executable)
            &&& may_serve(s, operation, t.gdbserver)
        }
}

proof fn lemma_attach(s: Session, operation: ToolOperation)
    requires
        operation is Execute,
    ensures
        outcomes::behaves(
            plan::execute(s, operation),
            may_ask(s, operation),
            may_end(s, operation),
        ),
{
    let allowed = may_ask(s, operation);
    let goal = may_end(s, operation);
    let path = operation->executable_path@;
    assert forall|reply: Reply| outcomes::behaves(
        #[trigger] plan::attach_replied(s, path)(reply),
        allowed,
        goal,
    ) by {
        match operation::outcome(reply) {
            Ok(_) => {
                lemma_answer(plan::attached(s, path), plan::attached(s, path), allowed, goal);
            },
            Err(error) => {
                lemma_answer(
                    s,
                    plan::troubled(s, DebuggerState::FailedToAttach, error),
                    allowed,
                    goal,
                );
            },
        }
    }
    lemma_answer(
        s,
        plan::troubled(
            s,
            DebuggerState::FailedToAttach,
            "executable_path must be absolute"@,
        ),
        allowed,
        goal,
    );
}

proof fn lemma_gdbserver(s: Session, operation: ToolOperation)
    requires
        operation is GdbServer,
    ensures
        outcomes::behaves(
            plan::execute(s, operation),
            may_ask(s, operation),
            may_end(s, operation),
        ),
{
    let allowed = may_ask(s, operation);
    let goal = may_end(s, operation);
    match operation {
        ToolOperation::GdbServer { ip, port, pid } => {
            if pid <= 0 {
                lemma_answer(
                    s,
                    plan::troubled(
                        s,
                        DebuggerState::GdbServerFailedToAttach,
                        "pid must be > 0"@,
                    ),
                    allowed,
                    goal,
                );
            } else {
                let u = plan::without_gdbserver(s);
                let next = plan::spawning(
                    plan::endpoint(ip@, port),
                    number::decimal(pid as nat),
                );
                assert forall|reply: Reply| outcomes::behaves(
                    #[trigger] plan::gdbserver_spawned(u)(reply),
                    allowed,
                    goal,
                ) by {
                    match operation::outcome(reply) {
                        Ok(_) => {
                            assert forall|probe: Reply| outcomes::behaves(
                                #[trigger] plan::gdbserver_probed(u)(probe),
                                allowed,
                                goal,
                            ) by {
                                match probe {
                                    Reply::Output(_) => {
                                        let t = Session {
                                            gdbserver: true,
                                            ..plan::in_state(u, DebuggerState::GdbServerAttached)
                                        };
                                        lemma_answer(t, t, allowed, goal);
                                    },
                                    Reply::Exited(status) => {
                                        lemma_answer(
                                            u,
                                            plan::troubled(
                                                u,
                                                DebuggerState::GdbServerFailedToAttach,
                                                "gdbserver exited early with status: "@ + status@,
                                            ),
                                            allowed,
                                            goal,
                                        );
                                    },
                                    Reply::Failed(error) => {},
                                }
                            }
                        },
                        Err(error) => {
                            lemma_answer(
                                u,
                                plan::troubled(
                                    u,
                                    DebuggerState::GdbServerFailedToAttach,
                                    "failed to start gdbserver: "@ + error,
                                ),
                                allowed,
                                goal,
                            );
                        },
                    }
                }
                outcomes::rule_stop_gdbserver(s, next, allowed, goal);
            }
        },
        _ => {},
    }
}

proof fn lemma_target_remote(s: Session, operation: ToolOperation)
    requires
        operation is TargetRemote,
    ensures
        outcomes::behaves(
            plan::execute(s, operation),
            may_ask(s, operation),
            may_end(s, operation),
        ),
{
    let allowed = may_ask(s, operation);
    let goal = may_end(s, operation);
    match operation {
        ToolOperation::TargetRemote { ip, port } => {
            let command = "target remote "@ + plan::endpoint(ip@, port);
            let fallback = Some(DebuggerState::Attached);
            lemma_command(s, s, command, fallback, false, plan::tell(), allowed, goal);
            if s.executable is None {
                let u = plan::attached(s, s.config.executable_path);
                assert forall|reply: Reply| outcomes::behaves(
                    #[trigger] plan::remote_started(s, command)(reply),
                    allowed,
                    goal,
                ) by {
                    match operation::outcome(reply) {
                        Ok(_) => {
                            lemma_command(
                                u,
                                u,
                                command,
                                fallback,
                                false,
                                plan::tell(),
                                allowed,
                                goal,
                            );
                        },
                        Err(error) => {
                            lemma_answer(
                                s,
                                plan::troubled(s, DebuggerState::FailedToAttach, error),
                                allowed,
                                goal,
                            );
                        },
                    }
                }
            }
        },
        _ => {},
    }
}

proof fn lemma_stopping(
    u: Session,
    s: Session,
    allowed: spec_fn(RequestView) -> bool,
    goal: spec_fn(Session, Told) -> bool,
)
    requires
        outcomes::may_command(allowed),
        allowed(RequestView::Stop),
        welcomes(u, goal),
        outcomes::keeps(u, plan::detached(s)),
    ensures
        outcomes::behaves(plan::stopping()(s), allowed, goal),
{
    assert forall|reply: Reply| outcomes::behaves(
        #[trigger] plan::stopped(s)(reply),
        allowed,
        goal,
    ) by {
        lemma_answer(u, plan::detached(s), allowed, goal);
    }
}

proof fn lemma_reset(s: Session, operation: ToolOperation)
    requires
        operation is ResetBackToNotAttached,
    ensures
        outcomes::behaves(
            plan::execute(s, operation),
            may_ask(s, operation),
            may_end(s, operation),
        ),
{
    let allowed = may_ask(s, operation);
    let goal = may_end(s, operation);
    let u = plan::without_gdbserver(s);
    lemma_stopping(plan::detached(u), u, allowed, goal);
    outcomes::rule_stop_gdbserver(s, plan::stopping(), allowed, goal);
}

proof fn lemma_quit(s: Session, operation: ToolOperation)
    requires
        operation is Quit,
    ensures
        outcomes::behaves(
            plan::execute(s, operation),
            may_ask(s, operation),
            may_end(s, operation),
        ),
{
    let allowed = may_ask(s, operation);
    let goal = may_end(s, operation);
    let u = plan::without_gdbserver(s);
    if s.executable is None {
        lemma_stopping(plan::detached(u), u, allowed, goal);
        outcomes::rule_stop_gdbserver(s, plan::stopping(), allowed, goal);
    } else {
        assert forall|quit: Reply| outcomes::behaves(
            #[trigger] plan::quit_replied(u)(quit),
            allowed,
            goal,
        ) by {
            let told = operation::outcome(quit);
            assert forall|reply: Reply| outcomes::behaves(
                #[trigger] plan::quit_stopped(u, told)(reply),
                allowed,
                goal,
            ) by {
                lemma_answer(plan::detached(u), plan::detached(u), allowed, goal);
                lemma_answer(
                    u,
                    plan::troubled(
                        u,
                        DebuggerState::Error,
                        plan::quit_errors(told, operation::outcome(reply)),
                    ),
                    allowed,
                    goal,
                );
            }
        }
        assert(outcomes::behaves(plan::send_quit(u), allowed, goal));
        assert forall|reply: Reply| outcomes::behaves(
            #[trigger] plan::quit_interrupted(u)(reply),
            allowed,
            goal,
        ) by {}
        outcomes::rule_stop_gdbserver(s, plan::quitting(), allowed, goal);
    }
}

proof fn lemma_show_variables(
    s: Session,
    allowed: spec_fn(RequestView) -> bool,
    goal: spec_fn(Session, Told) -> bool,
)
    requires
        outcomes::may_command(allowed),
        welcomes(s, goal),
    ensures
        outcomes::behaves(plan::show_variables(s), allowed, goal),
{
    lemma_respond(
        s,
        s,
        Response { variable_list: Some(Seq::empty()), ..plan::base_response(s) },
        allowed,
        goal,
    );
    assert forall|u: Session| outcomes::keeps(s, u) implies outcomes::behaves(
        #[trigger] plan::showing_variables()(u),
        allowed,
        goal,
    ) by {
        let v = plan::recovered(u);
        let told = plan::variables_shown(v, plan::base_response(v));
        assert forall|list: Seq<(Text, Text)>|
            outcomes::are_watched(v, list) && list.len() == plan::shown_variables(
                v,
            ) implies outcomes::behaves(#[trigger] told(list), allowed, goal) by {
            lemma_respond(
                s,
                v,
                Response { variable_list: Some(list), ..plan::base_response(v) },
                allowed,
                goal,
            );
        }
        outcomes::rule_variables(v, Seq::empty(), told, allowed, goal);
    }
    lemma_resync(s, plan::showing_variables(), allowed, goal);
}

proof fn lemma_resync(
    s: Session,
    next: spec_fn(Session) -> Plan,
    allowed: spec_fn(RequestView) -> bool,
    goal: spec_fn(Session, Told) -> bool,
)
    requires
        outcomes::may_command(allowed),
        forall|u: Session|
            outcomes::keeps(s, u) ==> outcomes::behaves(#[trigger] next(u), allowed, goal),
    ensures
        outcomes::behaves(plan::resync(s, next), allowed, goal),
{
    assert(outcomes::keeps(s, s));
    assert(outcomes::behaves(next(s), allowed, goal));
    let stopped = Session { state: DebuggerState::StoppedAtStepping, ..s };
    assert(outcomes::keeps(s, stopped));
    assert(outcomes::behaves(next(stopped), allowed, goal));
    outcomes::rule_resync(s, next, allowed, goal);
}

proof fn lemma_show_current_code(
    s: Session,
    allowed: spec_fn(RequestView) -> bool,
    goal: spec_fn(Session, Told) -> bool,
)
    requires
        outcomes::may_command(allowed),
        welcomes(s, goal),
    ensures
        outcomes::behaves(plan::show_current_code(s), allowed, goal),
{
    lemma_answer(s, s, allowed, goal);
    assert forall|u: Session| outcomes::keeps(s, u) implies outcomes::behaves(
        #[trigger] plan::showing_current_code()(u),
        allowed,
        goal,
    ) by {
        let v = plan::recovered(u);
        let r = plan::base_response(v);
        lemma_current_code(s, v, r, plan::current_code_shown(v, r), allowed, goal);
    }
    lemma_resync(s, plan::showing_current_code(), allowed, goal);
}

proof fn lemma_show_backtrace(
    s: Session,
    allowed: spec_fn(RequestView) -> bool,
    goal: spec_fn(Session, Told) -> bool,
)
    requires
        outcomes::may_command(allowed),
        welcomes(s, goal),
    ensures
        outcomes::behaves(plan::show_backtrace(s), allowed, goal),
{
    lemma_answer(s, s, allowed, goal);
    let v = plan::recovered(s);
    let r = plan::base_response(v);
    let told = plan::backtrace_shown(v, r);
    assert forall|frames: Frames| outcomes::are_few(v, frames) implies outcomes::behaves(
        #[trigger] told(frames),
        allowed,
        goal,
    ) by {
        lemma_respond(
            s,
            v,
            Response {
                backtrace: Some(frames),
                current_func: gdb_output::innermost_function(frames),
                ..r
            },
            allowed,
            goal,
        );
    }
    assert forall|error: Text| #[trigger] goal(v, Err(error)) by {
        assert(is_told_well(v, Err::<Response, Text>(error)));
    }
    outcomes::rule_backtrace(v, true, told, allowed, goal);
}

proof fn lemma_list_breakpoints(
    s: Session,
    allowed: spec_fn(RequestView) -> bool,
    goal: spec_fn(Session, Told) -> bool,
)
    requires
        outcomes::may_command(allowed),
        welcomes(s, goal),
    ensures
        outcomes::behaves(plan::list_breakpoints(s), allowed, goal),
{
    lemma_answer(s, s, allowed, goal);
    assert forall|u: Session| outcomes::keeps(s, u) implies outcomes::behaves(
        #[trigger] plan::listing_breakpoints()(u),
        allowed,
        goal,
    ) by {
        let v = plan::recovered(u);
        assert forall|reply: Reply| outcomes::behaves(
            #[trigger] plan::breakpoints_listed(v)(reply),
            allowed,
            goal,
        ) by {
            match operation::outcome(reply) {
                Ok(output) => {
                    lemma_respond(
                        s,
                        v,
                        Response {
                            breakpoints: Some(
                                gdb_output::breakpoint_table(text::lines(output)),
                            ),
                            ..plan::base_response(v)
                        },
                        allowed,
                        goal,
                    );
                },
                Err(error) => {
                    lemma_answer(
                        s,
                        plan::troubled(v, DebuggerState::Error, error),
                        allowed,
                        goal,
                    );
                },
            }
        }
    }
    lemma_resync(s, plan::listing_breakpoints(), allowed, goal);
}

proof fn lemma_change_breakpoints(
    u: Session,
    s: Session,
    action: BreakpointAction,
    ids: Seq<Text>,
    allowed: spec_fn(RequestView) -> bool,
    goal: spec_fn(Session, Told) -> bool,
)
    requires
        outcomes::may_command(allowed),
        welcomes(u, goal),
        outcomes::keeps(u, s),
    ensures
        outcomes::behaves(plan::change_breakpoints(s, action, ids), allowed, goal),
    decreases ids.len(),
{
    if ids.len() == 0 {
        lemma_answer(u, plan::recovered(s), allowed, goal);
    } else {
        let next = plan::breakpoint_changed(s, action, ids);
        assert forall|reply: Reply| outcomes::behaves(#[trigger] next(reply), allowed, goal) by {
            match operation::outcome(reply) {
                Ok(output) => {
                    let state = gdb_output::state_after(s.state, output, None);
                    if state == DebuggerState::Error {
                        let error = match gdb_output::command_output(output) {
                            Some(shown) => shown,
                            None => "gdb breakpoint operation failed"@,
                        };
                        lemma_answer(u, plan::troubled(s, state, error), allowed, goal);
                    } else {
                        lemma_change_breakpoints(
                            u,
                            Session { state, ..s },
                            action,
                            ids.drop_first(),
                            allowed,
                            goal,
                        );
                    }
                },
                Err(error) => {
                    assert(is_told_well(s, Err::<Response, Text>(error)));
                },
            }
        }
        assert(plan::change_breakpoints(s, action, ids) == (Plan::Ask {
            request: RequestView::Exec(operation::breakpoint_command(action, ids.first())),
            next,
        }));
    }
}

proof fn lemma_breakpoint_action(
    s: Session,
    action: BreakpointAction,
    filename: Text,
    linenumber: u64,
    allowed: spec_fn(RequestView) -> bool,
    goal: spec_fn(Session, Told) -> bool,
)
    requires
        outcomes::may_command(allowed),
        welcomes(s, goal),
    ensures
        outcomes::behaves(
            plan::execute_breakpoint_action(s, action, filename, linenumber),
            allowed,
            goal,
        ),
{
    lemma_answer(s, s, allowed, goal);
    let next = plan::resolve_breakpoints(action, filename, linenumber);
    assert forall|u: Session| outcomes::keeps(s, u) implies outcomes::behaves(
        #[trigger] next(u),
        allowed,
        goal,
    ) by {
        assert forall|reply: Reply| outcomes::behaves(
            #[trigger] plan::breakpoints_resolved(u, action, filename, linenumber)(reply),
            allowed,
            goal,
        ) by {
            match operation::outcome(reply) {
                Ok(output) => {
                    let ids = gdb_output::breakpoint_ids(
                        text::lines(output),
                        u.config.separator,
                        u.config.codebase_dir,
                        filename,
                        linenumber,
                    );
                    lemma_answer(
                        s,
                        plan::troubled(
                            u,
                            DebuggerState::Error,
                            "No breakpoint at "@ + plan::at_location(filename, linenumber) + "."@,
                        ),
                        allowed,
                        goal,
                    );
                    lemma_change_breakpoints(s, u, action, ids, allowed, goal);
                },
                Err(error) => {
                    assert(is_told_well(u, Err::<Response, Text>(error)));
                },
            }
        }
    }
    lemma_resync(s, next, allowed, goal);
}

proof fn lemma_interrupt(
    s: Session,
    allowed: spec_fn(RequestView) -> bool,
    goal: spec_fn(Session, Told) -> bool,
)
    requires
        outcomes::may_command(allowed),
        welcomes(s, goal),
    ensures
        outcomes::behaves(plan::execute_interrupt(s), allowed, goal),
{
    lemma_answer(s, s, allowed, goal);
    lemma_snapshot(
        s,
        plan::in_state(s, DebuggerState::StoppedAtStepping),
        allowed,
        goal,
    );
    assert forall|error: Text| outcomes::behaves(
        plan::answer(#[trigger] plan::troubled(s, DebuggerState::Error, error)),
        allowed,
        goal,
    ) by {
        lemma_answer(s, plan::troubled(s, DebuggerState::Error, error), allowed, goal);
    }
    assert forall|reply: Reply| outcomes::behaves(
        #[trigger] plan::interrupt_settled(s)(reply),
        allowed,
        goal,
    ) by {}
    assert forall|reply: Reply| outcomes::behaves(
        #[trigger] plan::interrupted(s)(reply),
        allowed,
        goal,
    ) by {}
}

proof fn lemma_kill(
    s: Session,
    allowed: spec_fn(RequestView) -> bool,
    goal: spec_fn(Session, Told) -> bool,
)
    requires
        outcomes::may_command(allowed),
        welcomes(s, goal),
    ensures
        outcomes::behaves(plan::execute_kill(s), allowed, goal),
{
    lemma_answer(s, s, allowed, goal);
    assert forall|u: Session| outcomes::keeps(s, u) implies outcomes::behaves(
        #[trigger] plan::killing()(u),
        allowed,
        goal,
    ) by {
        assert forall|error: Text| outcomes::behaves(
            plan::answer(#[trigger] plan::troubled(u, DebuggerState::Error, error)),
            allowed,
            goal,
        ) by {
            lemma_answer(s, plan::troubled(u, DebuggerState::Error, error), allowed, goal);
        }
        assert forall|output: Text| outcomes::behaves(
            plan::answer(#[trigger] plan::killed(u, output)),
            allowed,
            goal,
        ) by {
            lemma_answer(s, plan::killed(u, output), allowed, goal);
        }
        assert forall|reply: Reply| outcomes::behaves(
            #[trigger] plan::kill_replied(u)(reply),
            allowed,
            goal,
        ) by {
            match operation::outcome(reply) {
                Ok(output) => {
                    assert forall|again: Reply| outcomes::behaves(
                        #[trigger] plan::kill_confirmed(u, output)(again),
                        allowed,
                        goal,
                    ) by {}
                },
                Err(error) => {},
            }
        }
    }
    lemma_resync(s, plan::killing(), allowed, goal);
}

proof fn lemma_set_display(
    s: Session,
    size: usize,
    config: Config,
    refusal: Text,
    allowed: spec_fn(RequestView) -> bool,
    goal: spec_fn(Session, Told) -> bool,
)
    requires
        outcomes::may_command(allowed),
        size == 0 ==> welcomes(s, goal),
        size > 0 ==> welcomes(Session { config, ..s }, goal),
    ensures
        outcomes::behaves(plan::set_display(s, size, config, refusal), allowed, goal),
{
    if size == 0 {
        lemma_answer(s, plan::troubled(s, DebuggerState::Error, refusal), allowed, goal);
    } else {
        let u = Session { config, ..s };
        lemma_answer(u, plan::recovered(u), allowed, goal);
    }
}

/// Variables that are watched once are so when one is watched no longer.
pub proof fn lemma_unwatching_keeps_distinct(watched: Seq<Text>, var: Text)
    requires
        watched.no_duplicates(),
    ensures
        watched.filter(plan::all_but(var)).no_duplicates(),
    decreases watched.len(),
{
    reveal(Seq::filter);
    let kept = plan::all_but(var);
    if watched.len() > 0 {
        let rest = watched.drop_last();
        lemma_unwatching_keeps_distinct(rest, var);
        if rest.filter(kept).contains(watched.last()) {
            rest.lemma_filter_contains_rev(kept, watched.last());
        }
    }
}

/// Every operation asks for what it may ask for, and ends as it may end.
pub proof fn lemma_execute(s: Session, operation: ToolOperation)
    ensures
        outcomes::behaves(
            plan::execute(s, operation),
            may_ask(s, operation),
            may_end(s, operation),
        ),
{
    let allowed = may_ask(s, operation);
    let goal = may_end(s, operation);
    match operation {
        ToolOperation::Execute { .. } => lemma_attach(s, operation),
        ToolOperation::GdbServer { .. } => lemma_gdbserver(s, operation),
        ToolOperation::TargetRemote { .. } => lemma_target_remote(s, operation),
        ToolOperation::Quit => lemma_quit(s, operation),
        ToolOperation::ResetBackToNotAttached => lemma_reset(s, operation),
        ToolOperation::AddVariable { var } => {
            lemma_show_variables(plan::watching(s, var@), allowed, goal);
        },
        ToolOperation::DelVariable { var } => {
            lemma_show_variables(plan::unwatching(s, var@), allowed, goal);
        },
        ToolOperation::SetDisplayLinesBeforeCurrent { size } => {
            lemma_set_display(
                s,
                size,
                Config { display_lines_before_current: size, ..s.config },
                "display_lines_before_current must be > 0"@,
                allowed,
                goal,
            );
        },
        ToolOperation::SetDisplayLinesAfterCurrent { size } => {
            lemma_set_display(
                s,
                size,
                Config { display_lines_after_current: size, ..s.config },
                "display_lines_after_current must be > 0"@,
                allowed,
                goal,
            );
        },
        ToolOperation::SetDisplayBacktrace { size } => {
            lemma_set_display(
                s,
                size,
                Config { display_backtrace: size, ..s.config },
                "display_backtrace must be > 0"@,
                allowed,
                goal,
            );
        },
        ToolOperation::SetDisplayVariableList { size } => {
            lemma_set_display(
                s,
                size,
                Config { display_variable_list: size, ..s.config },
                "display_variable_list must be > 0"@,
                allowed,
                goal,
            );
        },
        _ => lemma_steady(s, operation, allowed, goal),
    }
}

/// An operation that changes no more than the state and the error.
proof fn lemma_steady(
    s: Session,
    operation: ToolOperation,
    allowed: spec_fn(RequestView) -> bool,
    goal: spec_fn(Session, Told) -> bool,
)
    requires
        outcomes::may_command(allowed),
        welcomes(s, goal),
        !(operation is Execute),
        !(operation is GdbServer),
        !(operation is TargetRemote),
        !(operation is Quit),
        !(operation is ResetBackToNotAttached),
        !(operation is AddVariable),
        !(operation is DelVariable),
        !(operation is SetDisplayLinesBeforeCurrent),
        !(operation is SetDisplayLinesAfterCurrent),
        !(operation is SetDisplayBacktrace),
        !(operation is SetDisplayVariableList),
    ensures
        outcomes::behaves(plan::execute(s, operation), allowed, goal),
{
    lemma_answer(s, s, allowed, goal);
    lemma_show_variables(s, allowed, goal);
    lemma_show_current_code(s, allowed, goal);
    lemma_show_backtrace(s, allowed, goal);
    lemma_list_breakpoints(s, allowed, goal);
    lemma_interrupt(s, allowed, goal);
    lemma_kill(s, allowed, goal);
    match operation {
        ToolOperation::EnableBreakpoint { filename, linenumber } => {
            lemma_breakpoint_action(
                s,
                BreakpointAction::Enable,
                filename@,
                linenumber,
                allowed,
                goal,
            );
        },
        ToolOperation::DisableBreakpoint { filename, linenumber } => {
            lemma_breakpoint_action(
                s,
                BreakpointAction::Disable,
                filename@,
                linenumber,
                allowed,
                goal,
            );
        },
        _ => {
            assert forall|
                command: Text,
                fallback: Option<DebuggerState>,
                include_output: bool,
                told: spec_fn(Session, Response) -> Plan,
            |
                is_teller(told) implies outcomes::behaves(
                #[trigger] plan::run_command(s, command, fallback, include_output, told),
                allowed,
                goal,
            ) by {
                lemma_command(s, s, command, fallback, include_output, told, allowed, goal);
            }
            assert(is_teller(plan::tell_softly(s.state)));
            assert(is_teller(plan::tell_print(s.state)));
        },
    }
}

} // verus!
