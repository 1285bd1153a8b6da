//! What holds of every operation, in every session, however gdb and gdbserver
//! answer.
use vstd::prelude::*;

use crate::conduct;
use crate::config;
use crate::gdb_output;
use crate::number;
use crate::operation;
use crate::operation::{Reply, RequestView, ToolOperation};
use crate::outcomes;
use crate::outcomes::Told;
use crate::paths;
use crate::plan;
use crate::plan::{Frames, Place, Plan, Session};
use crate::protocol;
use crate::protocol::{DebuggerState, Response};
use crate::session;
use crate::session::{SessionCore, Step};
use crate::text;
use crate::text::Text;

verus! {

// ---------------------------------------------------------------------------
// Every operation
// ---------------------------------------------------------------------------

/// An answer tells the state that the session is in when it is given, and the
/// error that the session remembers, if it remembers one.
pub proof fn law_answers_tell_the_session(s: Session, operation: ToolOperation)
    ensures
        outcomes::ends(
            plan::execute(s, operation),
            |t: Session, result: Told|
                result matches Ok(r) ==> {
                    &&& r.state == t.state
                    &&& t.last_error.len() > 0 ==> r.error == t.last_error
                },
        ),
{
    let goal = |t: Session, result: Told|
        result matches Ok(r) ==> {
            &&& r.state == t.state
            &&& t.last_error.len() > 0 ==> r.error == t.last_error
        };
    lemma_ends(s, operation, goal);
}

/// The answer to a crash of the program always tells the frames.
pub proof fn law_crashes_are_told_with_their_frames(s: Session, operation: ToolOperation)
    ensures
        outcomes::ends(
            plan::execute(s, operation),
            |t: Session, result: Told|
                result matches Ok(r) ==> (plan::is_crash(r.state) && t.executable is Some
                    ==> r.backtrace is Some),
        ),
{
    let goal = |t: Session, result: Told|
        result matches Ok(r) ==> (plan::is_crash(r.state) && t.executable is Some
            ==> r.backtrace is Some);
    lemma_ends(s, operation, goal);
}

/// An answer never tells more frames than the configuration allows.
pub proof fn law_frames_are_limited(s: Session, operation: ToolOperation)
    ensures
        outcomes::ends(
            plan::execute(s, operation),
            |t: Session, result: Told|
                result matches Ok(r) ==> (r.backtrace matches Some(frames) ==> frames.len()
                    <= t.config.display_backtrace),
        ),
{
    let goal = |t: Session, result: Told|
        result matches Ok(r) ==> (r.backtrace matches Some(frames) ==> frames.len()
            <= t.config.display_backtrace);
    lemma_ends(s, operation, goal);
}

/// An answer never tells more variables than the configuration allows, and
/// those that it tells are the first that are watched, in their order.
pub proof fn law_variables_are_limited(s: Session, operation: ToolOperation)
    ensures
        outcomes::ends(
            plan::execute(s, operation),
            |t: Session, result: Told|
                result matches Ok(r) ==> (r.variable_list matches Some(list) ==> {
                    &&& list.len() <= t.config.display_variable_list
                    &&& list.map_values(|pair: (Text, Text)| pair.0) == t.watched.take(
                        list.len() as int,
                    )
                }),
        ),
{
    let goal = |t: Session, result: Told|
        result matches Ok(r) ==> (r.variable_list matches Some(list) ==> {
            &&& list.len() <= t.config.display_variable_list
            &&& list.map_values(|pair: (Text, Text)| pair.0) == t.watched.take(list.len() as int)
        });
    assert forall|t: Session, list: Seq<(Text, Text)>|
        #[trigger] outcomes::are_watched(t, list) implies list.map_values(
        |pair: (Text, Text)| pair.0,
    ) == t.watched.take(list.len() as int) by {
        assert(list.map_values(|pair: (Text, Text)| pair.0) =~= t.watched.take(list.len() as int));
    }
    lemma_ends(s, operation, goal);
}

/// gdb is started by no operation but these two: `Execute`, on the absolute
/// path that it is given, and `TargetRemote`, on the executable of the
/// configuration, where gdb was not started yet.
pub proof fn law_gdb_is_started_on_demand(s: Session, operation: ToolOperation)
    ensures
        outcomes::only_asks(
            plan::execute(s, operation),
            |request: RequestView|
                request matches RequestView::Start(path) ==> match operation {
                    ToolOperation::Execute { executable_path } => path == executable_path@
                        && paths::absolute(s.config.separator, path),
                    ToolOperation::TargetRemote { .. } => s.executable is None && path
                        == s.config.executable_path,
                    _ => false,
                },
        ),
{
    let allowed = |request: RequestView|
        request matches RequestView::Start(path) ==> match operation {
            ToolOperation::Execute { executable_path } => path == executable_path@
                && paths::absolute(s.config.separator, path),
            ToolOperation::TargetRemote { .. } => s.executable is None && path
                == s.config.executable_path,
            _ => false,
        };
    lemma_only_asks(s, operation, allowed);
}

/// gdb is stopped by no operation but `Quit` and `ResetBackToNotAttached`.
pub proof fn law_gdb_is_stopped_on_demand(s: Session, operation: ToolOperation)
    ensures
        outcomes::only_asks(
            plan::execute(s, operation),
            |request: RequestView|
                request is Stop ==> operation is Quit || operation is ResetBackToNotAttached,
        ),
{
    let allowed = |request: RequestView|
        request is Stop ==> operation is Quit || operation is ResetBackToNotAttached;
    lemma_only_asks(s, operation, allowed);
}

/// A gdbserver is started by no operation but `GdbServer`, and for no number
/// that cannot be that of a process. One is killed only where one runs, and by
/// no operation but `GdbServer`, `Quit` and `ResetBackToNotAttached`.
pub proof fn law_gdbservers_come_and_go_on_demand(s: Session, operation: ToolOperation)
    ensures
        outcomes::only_asks(
            plan::execute(s, operation),
            |request: RequestView|
                {
                    &&& request is SpawnGdbServer ==> (operation matches ToolOperation::GdbServer {
                        pid,
                        ..
                    } && pid > 0)
                    &&& request is KillGdbServer ==> s.gdbserver && (operation is GdbServer
                        || operation is Quit || operation is ResetBackToNotAttached)
                },
        ),
{
    let allowed = |request: RequestView|
        {
            &&& request is SpawnGdbServer ==> (operation matches ToolOperation::GdbServer {
                pid,
                ..
            } && pid > 0)
            &&& request is KillGdbServer ==> s.gdbserver && (operation is GdbServer
                || operation is Quit || operation is ResetBackToNotAttached)
        };
    lemma_only_asks(s, operation, allowed);
}

/// The configuration changes by a display setting that is not zero, in that
/// setting, and by nothing else.
pub proof fn law_only_settings_change_the_configuration(s: Session, operation: ToolOperation)
    ensures
        outcomes::ends(
            plan::execute(s, operation),
            |t: Session, result: Told|
                t.config == conduct::config_after(s.config, operation),
        ),
{
    let goal = |t: Session, result: Told| t.config == conduct::config_after(s.config, operation);
    lemma_ends(s, operation, goal);
}

/// A valid configuration stays valid.
pub proof fn law_valid_configurations_stay_valid(s: Session, operation: ToolOperation)
    requires
        config::valid(s.config),
    ensures
        outcomes::ends(
            plan::execute(s, operation),
            |t: Session, result: Told| config::valid(t.config),
        ),
{
    let goal = |t: Session, result: Told| config::valid(t.config);
    lemma_ends(s, operation, goal);
}

/// No variable is watched twice.
pub proof fn law_variables_are_watched_once(s: Session, operation: ToolOperation)
    requires
        s.watched.no_duplicates(),
    ensures
        outcomes::ends(
            plan::execute(s, operation),
            |t: Session, result: Told| t.watched.no_duplicates(),
        ),
{
    let goal = |t: Session, result: Told| t.watched.no_duplicates();
    assert forall|t: Session, result: Told|
        conduct::may_end(s, operation)(t, result) implies #[trigger] goal(t, result) by {
        match operation {
            ToolOperation::AddVariable { var } => {},
            ToolOperation::DelVariable { var } => {
                conduct::lemma_unwatching_keeps_distinct(s.watched, var@);
            },
            _ => {},
        }
    }
    lemma_ends(s, operation, goal);
}

/// No answer tells a variable twice.
pub proof fn law_variables_are_told_once(s: Session, operation: ToolOperation)
    requires
        s.watched.no_duplicates(),
    ensures
        outcomes::ends(
            plan::execute(s, operation),
            |t: Session, result: Told|
                result matches Ok(r) ==> (r.variable_list matches Some(list)
                    ==> protocol::are_distinct(list)),
        ),
{
    let goal = |t: Session, result: Told|
        result matches Ok(r) ==> (r.variable_list matches Some(list) ==> protocol::are_distinct(
            list,
        ));
    assert forall|t: Session, result: Told|
        conduct::may_end(s, operation)(t, result) implies #[trigger] goal(t, result) by {
        match operation {
            ToolOperation::DelVariable { var } => {
                conduct::lemma_unwatching_keeps_distinct(s.watched, var@);
            },
            _ => {},
        }
        assert(t.watched.no_duplicates());
    }
    lemma_ends(s, operation, goal);
}

/// The watched variables change by `AddVariable` and `DelVariable`, in the
/// variable that these name, and are forgotten by `ResetBackToNotAttached` and
/// by a `Quit` that succeeds; by nothing else.
pub proof fn law_watched_variables_change_on_demand(s: Session, operation: ToolOperation)
    ensures
        outcomes::ends(
            plan::execute(s, operation),
            |t: Session, result: Told| conduct::may_watch(s, operation, t.watched),
        ),
{
    let goal = |t: Session, result: Told| conduct::may_watch(s, operation, t.watched);
    lemma_ends(s, operation, goal);
}

/// The executable changes by `Execute` and `TargetRemote`, to the one that they
/// start gdb on, and is forgotten by `ResetBackToNotAttached` and by a `Quit`
/// that succeeds; by nothing else. So gdb counts as started until then, also
/// where commands fail.
pub proof fn law_executable_changes_on_demand(s: Session, operation: ToolOperation)
    ensures
        outcomes::ends(
            plan::execute(s, operation),
            |t: Session, result: Told| conduct::may_hold(s, operation, t.executable),
        ),
{
    let goal = |t: Session, result: Told| conduct::may_hold(s, operation, t.executable);
    lemma_ends(s, operation, goal);
}

/// No gdbserver of the session is left behind by `Quit` and
/// `ResetBackToNotAttached`, and no operation but these and `GdbServer` changes
/// whether one runs.
pub proof fn law_no_gdbserver_is_left_behind(s: Session, operation: ToolOperation)
    ensures
        outcomes::ends(
            plan::execute(s, operation),
            |t: Session, result: Told| conduct::may_serve(s, operation, t.gdbserver),
        ),
{
    let goal = |t: Session, result: Told| conduct::may_serve(s, operation, t.gdbserver);
    lemma_ends(s, operation, goal);
}

proof fn lemma_ends(
    s: Session,
    operation: ToolOperation,
    goal: spec_fn(Session, Told) -> bool,
)
    requires
        forall|t: Session, result: Told|
            conduct::may_end(s, operation)(t, result) ==> #[trigger] goal(t, result),
    ensures
        outcomes::ends(plan::execute(s, operation), goal),
{
    conduct::lemma_execute(s, operation);
    outcomes::lemma_weaken(
        plan::execute(s, operation),
        conduct::may_ask(s, operation),
        conduct::may_end(s, operation),
        outcomes::anything(),
        goal,
    );
}

proof fn lemma_only_asks(
    s: Session,
    operation: ToolOperation,
    allowed: spec_fn(RequestView) -> bool,
)
    requires
        forall|request: RequestView|
            conduct::may_ask(s, operation)(request) ==> #[trigger] allowed(request),
    ensures
        outcomes::only_asks(plan::execute(s, operation), allowed),
{
    conduct::lemma_execute(s, operation);
    outcomes::lemma_weaken(
        plan::execute(s, operation),
        conduct::may_ask(s, operation),
        conduct::may_end(s, operation),
        allowed,
        |t: Session, result: Told| true,
    );
}

/// Filtering out what a list does not have changes nothing.
pub proof fn lemma_filter_of_absent(list: Seq<Text>, var: Text)
    requires
        !list.contains(var),
    ensures
        list.filter(plan::all_but(var)) == list,
    decreases list.len(),
{
    reveal(Seq::filter);
    if list.len() > 0 {
        let rest = list.drop_last();
        assert(list[list.len() - 1] != var);
        assert forall|i: int| 0 <= i < rest.len() implies rest[i] != var by {
            assert(rest[i] == list[i]);
        }
        lemma_filter_of_absent(rest, var);
        assert(rest.push(list.last()) =~= list);
    }
}

// ---------------------------------------------------------------------------
// Watched variables
// ---------------------------------------------------------------------------

/// A variable that is added is watched, once, and so are all that were before,
/// in their order. To add it again changes nothing.
pub proof fn law_added_variables_are_watched(s: Session, var: Text)
    ensures
        plan::watching(s, var).watched.contains(var),
        s.watched.is_prefix_of(plan::watching(s, var).watched),
        s.watched.contains(var) ==> plan::watching(s, var) == s,
        plan::watching(plan::watching(s, var), var) == plan::watching(s, var),
{
    if !s.watched.contains(var) {
        assert(s.watched.push(var).last() == var);
        assert(s.watched.push(var).take(s.watched.len() as int) =~= s.watched);
    }
}

/// A variable that is deleted is not watched, and all others that were are.
/// To delete it again changes nothing.
pub proof fn law_deleted_variables_are_not_watched(s: Session, var: Text)
    ensures
        !plan::unwatching(s, var).watched.contains(var),
        forall|other: Text|
            other != var ==> (#[trigger] plan::unwatching(s, var).watched.contains(other)
                <==> s.watched.contains(other)),
        plan::unwatching(plan::unwatching(s, var), var) == plan::unwatching(s, var),
{
    let kept = plan::all_but(var);
    let left = s.watched.filter(kept);
    if left.contains(var) {
        s.watched.lemma_filter_contains_rev(kept, var);
        let i = choose|i: int| 0 <= i < left.len() && left[i] == var;
        s.watched.lemma_filter_pred(kept, i);
    }
    assert forall|other: Text| other != var implies (#[trigger] left.contains(other)
        <==> s.watched.contains(other)) by {
        if left.contains(other) {
            s.watched.lemma_filter_contains_rev(kept, other);
        }
        if s.watched.contains(other) {
            let i = choose|i: int| 0 <= i < s.watched.len() && s.watched[i] == other;
            s.watched.lemma_filter_contains(kept, i);
        }
    }
    lemma_filter_of_absent(left, var);
}

/// To delete a variable undoes that it was added.
pub proof fn law_deleting_undoes_adding(s: Session, var: Text)
    requires
        !s.watched.contains(var),
    ensures
        plan::unwatching(plan::watching(s, var), var) == s,
{
    reveal(Seq::filter);
    lemma_filter_of_absent(s.watched, var);
    assert(s.watched.push(var).drop_last() =~= s.watched);
}

// ---------------------------------------------------------------------------
// The end of a session
// ---------------------------------------------------------------------------

/// A reset always leads back to a session that nothing has happened in, but for
/// its configuration, and tells so.
pub proof fn law_reset_always_succeeds(s: Session)
    ensures
        outcomes::ends(
            plan::execute(s, ToolOperation::ResetBackToNotAttached),
            |t: Session, result: Told|
                t == plan::fresh(s.config) && result == Ok::<Response, Text>(
                    plan::base_response(t),
                ),
        ),
{
    let goal = |t: Session, result: Told|
        t == plan::fresh(s.config) && result == Ok::<Response, Text>(plan::base_response(t));
    lemma_stopping_is_fresh(s, goal);
    outcomes::rule_stop_gdbserver(s, plan::stopping(), outcomes::anything(), goal);
}

proof fn lemma_stopping_is_fresh(s: Session, goal: spec_fn(Session, Told) -> bool)
    requires
        goal(plan::fresh(s.config), Ok(plan::base_response(plan::fresh(s.config)))),
    ensures
        outcomes::ends(plan::stopping()(plan::without_gdbserver(s)), goal),
{
    let u = plan::without_gdbserver(s);
    assert(plan::detached(u) =~= plan::fresh(s.config));
    assert forall|reply: Reply| outcomes::behaves(
        #[trigger] plan::stopped(u)(reply),
        outcomes::anything(),
        goal,
    ) by {}
}

/// A quit without gdb always leads back to a session that nothing has happened
/// in, but for its configuration.
pub proof fn law_quit_without_gdb_always_succeeds(s: Session)
    requires
        s.executable is None,
    ensures
        outcomes::ends(
            plan::execute(s, ToolOperation::Quit),
            |t: Session, result: Told|
                t == plan::fresh(s.config) && result == Ok::<Response, Text>(
                    plan::base_response(t),
                ),
        ),
{
    let goal = |t: Session, result: Told|
        t == plan::fresh(s.config) && result == Ok::<Response, Text>(plan::base_response(t));
    lemma_stopping_is_fresh(s, goal);
    outcomes::rule_stop_gdbserver(s, plan::stopping(), outcomes::anything(), goal);
}

/// A quit is always answered. It leads back to a session that nothing has
/// happened in, but for its configuration; or it tells what failed, and then
/// the session holds on to its executable and its variables.
pub proof fn law_quit_succeeds_or_says_what_failed(s: Session)
    requires
        s.executable is Some,
    ensures
        outcomes::ends(
            plan::execute(s, ToolOperation::Quit),
            |t: Session, result: Told|
                {
                    &&& result == Ok::<Response, Text>(plan::base_response(t))
                    &&& {
                        ||| t == plan::fresh(s.config)
                        ||| {
                            &&& t.state == DebuggerState::Error
                            &&& t.executable == s.executable
                            &&& t.watched == s.watched
                            &&& text::starts_with(t.last_error, "quit failed: "@)
                                || text::starts_with(t.last_error, "stop failed: "@)
                        }
                    }
                },
        ),
{
    let goal = |t: Session, result: Told|
        {
            &&& result == Ok::<Response, Text>(plan::base_response(t))
            &&& {
                ||| t == plan::fresh(s.config)
                ||| {
                    &&& t.state == DebuggerState::Error
                    &&& t.executable == s.executable
                    &&& t.watched == s.watched
                    &&& text::starts_with(t.last_error, "quit failed: "@) || text::starts_with(
                        t.last_error,
                        "stop failed: "@,
                    )
                }
            }
        };
    let allowed = outcomes::anything();
    let u = plan::without_gdbserver(s);
    assert(plan::detached(u) =~= plan::fresh(s.config));
    assert forall|quit: Reply| outcomes::behaves(
        #[trigger] plan::quit_replied(u)(quit),
        allowed,
        goal,
    ) by {
        let told = operation::outcome(quit);
        assert forall|reply: Reply| outcomes::behaves(
            #[trigger] plan::quit_stopped(u, told)(reply),
            allowed,
            goal,
        ) by {
            let errors = plan::quit_errors(told, operation::outcome(reply));
            match (told, operation::outcome(reply)) {
                (Err(quit), Err(stop)) => {
                    lemma_starts_with("quit failed: "@, quit + "; "@ + ("stop failed: "@ + stop));
                    assert("quit failed: "@ + (quit + "; "@ + ("stop failed: "@ + stop))
                        =~= errors);
                },
                (Err(quit), Ok(_)) => lemma_starts_with("quit failed: "@, quit),
                (Ok(_), Err(stop)) => lemma_starts_with("stop failed: "@, stop),
                (Ok(_), Ok(_)) => {},
            }
        }
    }
    assert(outcomes::behaves(plan::send_quit(u), allowed, goal));
    assert forall|reply: Reply| outcomes::behaves(
        #[trigger] plan::quit_interrupted(u)(reply),
        allowed,
        goal,
    ) by {}
    outcomes::rule_stop_gdbserver(s, plan::quitting(), allowed, goal);
}

proof fn lemma_starts_with(prefix: Text, rest: Text)
    ensures
        text::starts_with(prefix + rest, prefix),
{
    assert((prefix + rest).take(prefix.len() as int) =~= prefix);
}

// ---------------------------------------------------------------------------
// Errors
// ---------------------------------------------------------------------------

/// To print a variable never leaves the session in an error.
pub proof fn law_print_leaves_no_error(s: Session, var: String)
    ensures
        outcomes::ends(
            plan::execute(s, ToolOperation::Print { var, value: None }),
            |t: Session, result: Told| t.state != DebuggerState::Error,
        ),
{
    let goal = |t: Session, result: Told| t.state != DebuggerState::Error;
    let allowed = outcomes::anything();
    let told = plan::tell_print(s.state);
    assert forall|t: Session, r: Response|
        outcomes::is_after_command(s, t, r) implies outcomes::behaves(
        #[trigger] told(t, r),
        allowed,
        goal,
    ) by {
        if r.state == DebuggerState::Error {
            let back = plan::restored(t, s.state);
            outcomes::rule_respond(
                back,
                Response {
                    error: r.error,
                    command_output: r.command_output,
                    ..plan::base_response(back)
                },
                allowed,
                goal,
            );
        } else {
            outcomes::rule_respond(t, r, allowed, goal);
        }
    }
    outcomes::rule_command(s, "print "@ + var@, None, true, told, allowed, goal);
}

/// The operations whose soft errors are forgotten.
pub open spec fn forgives(operation: ToolOperation) -> bool {
    ||| operation is SetThread
    ||| operation is SetFrame
    ||| operation is AddBreakpoint
    ||| operation is InfoThreads
}

/// Where such an operation tells a soft error, the session is back in the state
/// that it was in, or out of the error that it was in.
pub proof fn law_soft_errors_are_forgotten(s: Session, operation: ToolOperation)
    requires
        forgives(operation),
    ensures
        outcomes::ends(
            plan::execute(s, operation),
            |t: Session, result: Told|
                result matches Ok(r) ==> (gdb_output::is_soft_error(text::lower(r.error))
                    ==> t.state == plan::restored(s, s.state).state),
        ),
{
    let goal = |t: Session, result: Told|
        result matches Ok(r) ==> (gdb_output::is_soft_error(text::lower(r.error)) ==> t.state
            == plan::restored(s, s.state).state);
    let allowed = outcomes::anything();
    let told = plan::tell_softly(s.state);
    assert forall|t: Session, r: Response|
        outcomes::is_after_command(s, t, r) implies outcomes::behaves(
        #[trigger] told(t, r),
        allowed,
        goal,
    ) by {
        if r.state == DebuggerState::Error && gdb_output::is_soft_error(text::lower(r.error)) {
            let back = plan::restored(t, s.state);
            outcomes::rule_respond(
                back,
                Response {
                    error: r.error,
                    command_output: r.command_output,
                    ..plan::base_response(back)
                },
                allowed,
                goal,
            );
        } else {
            if r.error.len() == 0 {
                lemma_no_error_is_not_soft(r.error);
            }
            outcomes::rule_respond(t, r, allowed, goal);
        }
    }
    assert forall|command: Text| outcomes::behaves(
        #[trigger] plan::execute_softly(s, command),
        allowed,
        goal,
    ) by {
        outcomes::rule_command(s, command, None, true, told, allowed, goal);
    }
}

proof fn lemma_no_error_is_not_soft(error: Text)
    requires
        error.len() == 0,
    ensures
        !gdb_output::is_soft_error(text::lower(error)),
{
    reveal_strlit("no symbol");
    reveal_strlit("unknown thread");
    reveal_strlit("no frame at level");
    reveal_strlit("no source file named");
    reveal_strlit("no breakpoint at");
    reveal_strlit("no breakpoint number");
    reveal_strlit("a syntax error in expression");
    reveal_strlit("cannot find bounds of current function");
}

/// A command that gdb refuses leaves the session in an error that tells what
/// gdb said.
pub proof fn law_refusals_are_errors(
    s: Session,
    output: Text,
    fallback: Option<DebuggerState>,
)
    requires
        gdb_output::has_refusal(text::lower(output)),
    ensures
        plan::after_output(s, output, fallback).state == DebuggerState::Error,
        plan::after_output(s, output, fallback).last_error == (match gdb_output::command_output(
            output,
        ) {
            Some(shown) => shown,
            None => "gdb command failed"@,
        }),
{
}

/// A command that does not fail takes a session out of an old error.
pub proof fn law_old_errors_are_cleared(
    s: Session,
    output: Text,
    fallback: Option<DebuggerState>,
)
    requires
        s.state == DebuggerState::Error,
        !gdb_output::shows_error(output),
    ensures
        plan::after_output(s, output, fallback).state != DebuggerState::Error,
        plan::after_output(s, output, fallback).last_error.len() == 0,
{
}

/// A display setting of zero is refused: the configuration stays, and the
/// answer is an error that names the setting.
pub proof fn law_zero_settings_are_refused(s: Session, operation: ToolOperation)
    requires
        match operation {
            ToolOperation::SetDisplayLinesBeforeCurrent { size } => size == 0,
            ToolOperation::SetDisplayLinesAfterCurrent { size } => size == 0,
            ToolOperation::SetDisplayBacktrace { size } => size == 0,
            ToolOperation::SetDisplayVariableList { size } => size == 0,
            _ => false,
        },
    ensures
        match plan::execute(s, operation) {
            Plan::Finish { session, result } => {
                &&& session.config == s.config
                &&& session.state == DebuggerState::Error
                &&& result == Ok::<Response, Text>(plan::base_response(session))
                &&& session.last_error == match operation {
                    ToolOperation::SetDisplayLinesBeforeCurrent { .. } => {
                        "display_lines_before_current must be > 0"@
                    },
                    ToolOperation::SetDisplayLinesAfterCurrent { .. } => {
                        "display_lines_after_current must be > 0"@
                    },
                    ToolOperation::SetDisplayBacktrace { .. } => "display_backtrace must be > 0"@,
                    _ => "display_variable_list must be > 0"@,
                }
            },
            Plan::Ask { request, next } => false,
        },
{
}

/// That there are no registers leaves the session attached, without an error,
/// and is told.
pub proof fn law_missing_registers_are_no_error(s: Session, reply: Reply)
    requires
        s.executable is Some,
        !plan::is_gone(s.state),
        s.state != DebuggerState::Running,
        operation::outcome(reply) matches Ok(output) && gdb_output::command_output(
            output,
        ) matches Some(shown) && text::contains(text::lower(shown), "no registers"@),
    ensures
        outcomes::asks_for(
            plan::execute(s, ToolOperation::InfoRegs),
            RequestView::Exec("info all-registers"@),
        ),
        match outcomes::after(plan::execute(s, ToolOperation::InfoRegs), reply) {
            Plan::Finish { session, result: Ok(r) } => {
                &&& session == plan::in_state(s, DebuggerState::Attached)
                &&& r.error.len() == 0
                &&& r.command_output == gdb_output::command_output(
                    operation::outcome(reply)->Ok_0,
                )
            },
            _ => false,
        },
{
    reveal_strlit("continue");
    reveal_strlit("info all-registers");
    assert("continue"@[0] != "info all-registers"@[0]);
}

// ---------------------------------------------------------------------------
// Sessions without gdb
// ---------------------------------------------------------------------------

/// The operations that are commands to gdb.
pub open spec fn is_command(operation: ToolOperation) -> bool {
    ||| operation is Run
    ||| operation is SetThread
    ||| operation is SetFrame
    ||| operation is AddBreakpoint
    ||| operation is ClearBreakpoint
    ||| operation is EnableBreakpoint
    ||| operation is DisableBreakpoint
    ||| operation is InfoThreads
    ||| operation is Print
    ||| operation is SetVar
    ||| operation is InfoRegs
    ||| operation is Kill
    ||| operation is Custom
}

/// Where gdb was not started, a command asks for nothing, and is answered. (A
/// `Run` that finds the program at a breakpoint looks at it all the same.)
pub proof fn law_commands_need_gdb(s: Session, operation: ToolOperation)
    requires
        s.executable is None,
        is_command(operation),
        operation is Run ==> s.state != DebuggerState::StoppedAtBreakpoint,
    ensures
        match plan::execute(s, operation) {
            Plan::Finish { session, result } => result is Ok,
            Plan::Ask { request, next } => false,
        },
{
}

/// The operations that look at the program or let it go on.
pub open spec fn is_about_program(operation: ToolOperation) -> bool {
    ||| operation is Next
    ||| operation is Step
    ||| operation is Continue
    ||| operation is Interrupt
    ||| operation is ListBreakpoint
    ||| operation is AddVariable
    ||| operation is DelVariable
    ||| operation is VariableList
    ||| operation is CurrentCode
    ||| operation is FullBacktrace
    ||| operation is InfoRegs
}

/// Where nothing is attached, an operation about the program asks for nothing,
/// and is answered by the state, which stays. So nothing starts gdb again after
/// a quit.
pub proof fn law_nothing_is_asked_when_off(s: Session, operation: ToolOperation)
    requires
        plan::is_off(s.state),
        is_about_program(operation),
    ensures
        match plan::execute(s, operation) {
            Plan::Finish { session, result: Ok(r) } => session.state == s.state && r.state
                == s.state,
            _ => false,
        },
{
}

// ---------------------------------------------------------------------------
// Programs that run and programs at rest
// ---------------------------------------------------------------------------

/// The operations that must stop a program that runs.
pub open spec fn needs_stop(operation: ToolOperation) -> bool {
    ||| is_command(operation) && !(operation matches ToolOperation::Custom { cmd } && cmd@
        == "continue"@)
    ||| operation is TargetRemote
    ||| operation is Next
    ||| operation is Step
    ||| operation is Interrupt
    ||| operation is ListBreakpoint
    ||| operation is AddVariable
    ||| operation is DelVariable
    ||| operation is VariableList
    ||| operation is CurrentCode
}

/// Before anything else is asked of gdb while the program runs, the program is
/// interrupted and the prompt waited for. (An `Interrupt` that fails is not
/// followed by anything.)
pub proof fn law_running_programs_are_stopped_first(s: Session, operation: ToolOperation)
    requires
        s.state == DebuggerState::Running,
        s.executable is Some,
        needs_stop(operation),
    ensures
        outcomes::asks_for(plan::execute(s, operation), RequestView::Interrupt),
        forall|reply: Reply|
            operation::outcome(reply) is Ok || !(operation is Interrupt) ==> outcomes::asks_for(
                #[trigger] outcomes::after(plan::execute(s, operation), reply),
                RequestView::Exec("printf \"\""@),
            ),
{
    reveal_strlit("continue");
    reveal_strlit("run");
    reveal_strlit("thread ");
    reveal_strlit("frame ");
    reveal_strlit("break ");
    reveal_strlit("clear ");
    reveal_strlit("next");
    reveal_strlit("step");
    reveal_strlit("info threads");
    reveal_strlit("print ");
    reveal_strlit("set variable ");
    reveal_strlit("info all-registers");
    reveal_strlit("target remote ");
    assert("continue"@[0] == 'c' && "continue"@[1] == 'o');
    match operation {
        ToolOperation::SetThread { id } => {
            assert(("thread "@ + number::signed_decimal(id as int))[0] == 't');
        },
        ToolOperation::SetFrame { id } => {
            assert(("frame "@ + number::signed_decimal(id as int))[0] == 'f');
        },
        ToolOperation::AddBreakpoint { filename, linenumber } => {
            assert(("break "@ + plan::at_location(filename@, linenumber))[0] == 'b');
        },
        ToolOperation::ClearBreakpoint { filename, linenumber } => {
            assert(("clear "@ + plan::at_location(filename@, linenumber))[1] == 'l');
        },
        ToolOperation::Print { var, value } => {
            match value {
                Some(value) => {
                    assert(("set variable "@ + var@ + " = "@ + value@)[0] == 's');
                },
                None => {
                    assert(("print "@ + var@)[0] == 'p');
                },
            }
        },
        ToolOperation::SetVar { var, value } => {
            assert(("set variable "@ + var@ + " = "@ + value@)[0] == 's');
        },
        ToolOperation::TargetRemote { ip, port } => {
            assert(("target remote "@ + plan::endpoint(ip@, port))[0] == 't');
        },
        ToolOperation::Run => {
            assert("run"@[0] == 'r');
        },
        ToolOperation::Next => {
            assert("next"@[0] == 'n');
        },
        ToolOperation::Step => {
            assert("step"@[0] == 's');
        },
        ToolOperation::InfoThreads => {
            assert("info threads"@[0] == 'i');
        },
        ToolOperation::InfoRegs => {
            assert("info all-registers"@[0] == 'i');
        },
        _ => {},
    }
}

/// An answer shows the program: the frames, and as many of the watched
/// variables as the configuration allows.
pub open spec fn shows_program(t: Session, r: Response) -> bool {
    &&& r.backtrace is Some
    &&& r.variable_list matches Some(list) && list.len() == plan::shown_variables(t)
}

/// A program that was run and has come to a breakpoint is shown.
pub proof fn law_run_shows_breakpoints(s: Session)
    ensures
        outcomes::ends(
            plan::execute(s, ToolOperation::Run),
            |t: Session, result: Told|
                result matches Ok(r) ==> (r.state == DebuggerState::StoppedAtBreakpoint
                    ==> shows_program(t, r)),
        ),
{
    let goal = |t: Session, result: Told|
        result matches Ok(r) ==> (r.state == DebuggerState::StoppedAtBreakpoint ==> shows_program(
            t,
            r,
        ));
    let allowed = outcomes::anything();
    let told = plan::show_breakpoint();
    assert forall|t: Session, r: Response|
        outcomes::is_after_command(s, t, r) implies outcomes::behaves(
        #[trigger] told(t, r),
        allowed,
        goal,
    ) by {
        if r.state == DebuggerState::StoppedAtBreakpoint {
            lemma_snapshot_shows(t, goal);
        } else {
            outcomes::rule_respond(t, r, allowed, goal);
        }
    }
    outcomes::rule_command(
        s,
        "run"@,
        Some(DebuggerState::Running),
        false,
        told,
        allowed,
        goal,
    );
}

/// A program that was let go on, or was interrupted, and has come to rest is
/// shown.
pub proof fn law_programs_at_rest_are_shown(s: Session, operation: ToolOperation)
    requires
        operation is Next || operation is Step || operation is Continue
            || operation is Interrupt,
    ensures
        outcomes::ends(
            plan::execute(s, operation),
            |t: Session, result: Told|
                result matches Ok(r) ==> (plan::is_at_rest(r.state) ==> shows_program(t, r)),
        ),
{
    let goal = |t: Session, result: Told|
        result matches Ok(r) ==> (plan::is_at_rest(r.state) ==> shows_program(t, r));
    let allowed = outcomes::anything();
    let told = plan::show_rest();
    assert forall|t: Session, r: Response|
        outcomes::is_after_command(s, t, r) implies outcomes::behaves(
        #[trigger] told(t, r),
        allowed,
        goal,
    ) by {
        if plan::is_at_rest(r.state) {
            lemma_snapshot_shows(t, goal);
        } else {
            outcomes::rule_respond(t, r, allowed, goal);
        }
    }
    assert forall|command: Text, fallback: DebuggerState| outcomes::behaves(
        #[trigger] plan::execute_with_full_snapshot(s, command, fallback),
        allowed,
        goal,
    ) by {
        outcomes::rule_command(s, command, Some(fallback), false, told, allowed, goal);
    }
    lemma_snapshot_shows(plan::in_state(s, DebuggerState::StoppedAtStepping), goal);
    assert forall|reply: Reply| outcomes::behaves(
        #[trigger] plan::interrupt_settled(s)(reply),
        allowed,
        goal,
    ) by {}
    assert forall|reply: Reply| outcomes::behaves(
        #[trigger] plan::interrupted(s)(reply),
        allowed,
        goal,
    ) by {}
}

proof fn lemma_snapshot_shows(s: Session, goal: spec_fn(Session, Told) -> bool)
    requires
        forall|r: Response| shows_program(s, r) ==> #[trigger] goal(s, Ok(r)),
        forall|error: Text| #[trigger] goal(s, Err(error)),
    ensures
        outcomes::behaves(plan::snapshot(s), outcomes::anything(), goal),
{
    let allowed = outcomes::anything();
    let base = plan::base_response(s);
    let told = plan::snapshot_variables(s, base);
    assert forall|list: Seq<(Text, Text)>|
        outcomes::are_watched(s, list) && list.len() == plan::shown_variables(
            s,
        ) implies outcomes::behaves(#[trigger] told(list), allowed, goal) by {
        let r = Response { variable_list: Some(list), ..base };
        let framed = plan::snapshot_frames(s, r);
        assert forall|frames: Frames| outcomes::are_few(s, frames) implies outcomes::behaves(
            #[trigger] framed(frames),
            allowed,
            goal,
        ) by {
            let q = Response {
                backtrace: Some(frames),
                current_func: gdb_output::innermost_function(frames),
                ..r
            };
            let placed = plan::snapshot_place(s, q);
            assert forall|place: Place| outcomes::behaves(
                #[trigger] placed(place),
                allowed,
                goal,
            ) by {
                assert(shows_program(s, plan::with_place(s, q, place)));
            }
            outcomes::rule_current_code(s, placed, allowed, goal);
        }
        outcomes::rule_backtrace(s, true, framed, allowed, goal);
    }
    outcomes::rule_variables(s, Seq::empty(), told, allowed, goal);
}

/// Where frames are asked for in full and none come, they are asked for again
/// in the plain form.
pub proof fn law_frames_are_asked_for_twice(
    s: Session,
    told: spec_fn(Frames) -> Plan,
    reply: Reply,
)
    requires
        operation::outcome(reply) matches Ok(output) && plan::read_frames(s, output, Map::empty())
            == Map::<u64, (Text, Text)>::empty(),
    ensures
        outcomes::asks_for(
            plan::collect_backtrace(s, true, told),
            RequestView::Exec("backtrace full"@),
        ),
        outcomes::asks_for(
            outcomes::after(plan::collect_backtrace(s, true, told), reply),
            RequestView::Exec("backtrace"@),
        ),
{
    assert(Map::<u64, (Text, Text)>::empty().dom() =~= Set::empty());
}

/// The source that is shown around a line has the line in it, begins no earlier
/// than the first line of the file, and is no more than the configuration asks
/// for.
pub proof fn law_shown_source_surrounds_the_line(s: Session, line: u64)
    requires
        line >= 1,
    ensures
        1 <= plan::first_shown(s, line) <= line <= plan::last_shown(s, line),
        line - plan::first_shown(s, line) <= s.config.display_lines_before_current,
        plan::last_shown(s, line) - line == s.config.display_lines_after_current,
{
}

// ---------------------------------------------------------------------------
// gdbserver
// ---------------------------------------------------------------------------

/// Before a gdbserver is started, the one that runs is killed.
pub proof fn law_gdbservers_run_one_at_a_time(
    s: Session,
    ip: String,
    port: u16,
    pid: i64,
    killed: Reply,
)
    requires
        s.gdbserver,
        pid > 0,
    ensures
        outcomes::asks_for(
            plan::execute(s, ToolOperation::GdbServer { ip, port, pid }),
            RequestView::KillGdbServer,
        ),
        outcomes::asks_for(
            outcomes::after(
                plan::execute(s, ToolOperation::GdbServer { ip, port, pid }),
                killed,
            ),
            (RequestView::SpawnGdbServer {
                endpoint: plan::endpoint(ip@, port),
                pid: number::decimal(pid as nat),
            }),
        ),
{
}

// ---------------------------------------------------------------------------
// From plans to sessions
// ---------------------------------------------------------------------------

/// What holds of a plan holds of the session that follows it: what it asks for
/// is allowed, and goes on as well for every reply; what it ends in is a good
/// end.
pub proof fn law_sessions_keep_to_their_plans(
    core: SessionCore,
    step: Step,
    planned: Plan,
    allowed: spec_fn(RequestView) -> bool,
    goal: spec_fn(Session, Told) -> bool,
)
    requires
        core.follows(step, planned),
        outcomes::behaves(planned, allowed, goal),
    ensures
        match step {
            Step::Ask(request) => {
                &&& allowed(request@)
                &&& forall|reply: Reply|
                    outcomes::behaves(#[trigger] core.awaiting()(reply), allowed, goal)
            },
            Step::Done(result) => goal(core@, session::result_view(result)),
        },
{
    match planned {
        Plan::Ask { request, next } => {
            assert forall|reply: Reply| outcomes::behaves(
                #[trigger] core.awaiting()(reply),
                allowed,
                goal,
            ) by {
                assert(outcomes::behaves(next(reply), allowed, goal));
            }
        },
        Plan::Finish { session, result } => {},
    }
}

} // verus!
