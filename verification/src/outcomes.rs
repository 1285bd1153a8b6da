//! How operations go on and end, however their requests are answered: what that
//! means, and the rules by which it is shown of the plans of operations.
use vstd::prelude::*;

use crate::gdb_output;
use crate::operation;
use crate::operation::{Reply, RequestView};
use crate::plan;
use crate::plan::{Frames, Place, Plan, Session};
use crate::protocol::{DebuggerState, Response};
use crate::text;
use crate::text::Text;

verus! {

/// The result of an operation.
pub type Told = Result<Response, Text>;

/// However its requests are answered, an operation asks for nothing but what is
/// `allowed`, and ends as `goal` says.
pub open spec fn behaves(
    plan: Plan,
    allowed: spec_fn(RequestView) -> bool,
    goal: spec_fn(Session, Told) -> bool,
) -> bool
    decreases plan,
{
    match plan {
        Plan::Finish { session, result } => goal(session, result),
        Plan::Ask { request, next } => allowed(request) && forall|reply: Reply|
            behaves(#[trigger] next(reply), allowed, goal),
    }
}

/// Anything may be asked for.
pub open spec fn anything() -> spec_fn(RequestView) -> bool {
    |request: RequestView| true
}

/// However its requests are answered, an operation ends as `goal` says.
pub open spec fn ends(plan: Plan, goal: spec_fn(Session, Told) -> bool) -> bool {
    behaves(plan, anything(), goal)
}

/// However its requests are answered, an operation asks for nothing but what is
/// `allowed`.
pub open spec fn only_asks(plan: Plan, allowed: spec_fn(RequestView) -> bool) -> bool {
    behaves(plan, allowed, |t: Session, result: Told| true)
}

/// An operation asks for something first.
pub open spec fn asks_for(plan: Plan, wanted: RequestView) -> bool {
    match plan {
        Plan::Finish { session, result } => false,
        Plan::Ask { request, next } => request == wanted,
    }
}

/// What is left to be done after the first reply.
pub open spec fn after(plan: Plan, reply: Reply) -> Plan {
    match plan {
        Plan::Finish { session, result } => plan,
        Plan::Ask { request, next } => next(reply),
    }
}

/// gdb may be interrupted and told to execute any command.
pub open spec fn may_command(allowed: spec_fn(RequestView) -> bool) -> bool {
    &&& allowed(RequestView::Interrupt)
    &&& forall|command: Text| #[trigger] allowed(RequestView::Exec(command))
}

/// The frames that can be told in a session.
pub open spec fn are_few(s: Session, frames: Frames) -> bool {
    frames.dom().finite() && frames.len() <= s.config.display_backtrace
}

/// The values that can be told of the variables in a session: those of the
/// first variables that are watched.
pub open spec fn are_watched(s: Session, list: Seq<(Text, Text)>) -> bool {
    &&& list.len() <= plan::shown_variables(s)
    &&& forall|i: int| 0 <= i < list.len() ==> (#[trigger] list[i]).0 == s.watched[i]
}

/// Two sessions differ in their states and errors alone.
pub open spec fn keeps(s: Session, t: Session) -> bool {
    &&& t.config == s.config
    &&& t.watched == s.watched
    &&& t.executable == s.executable
    &&& t.gdbserver == s.gdbserver
}

/// What a session and its answer can be after a command: the session is the
/// same up to its state and its error, and the answer tells them. Where a
/// command was sent and led to no error, none is remembered.
pub open spec fn is_after_command(s: Session, t: Session, r: Response) -> bool {
    &&& keeps(s, t)
    &&& t == s || t.state == DebuggerState::Error || t.last_error.len() == 0
    &&& r == (Response { command_output: r.command_output, ..plan::base_response(t) })
}

/// What an operation keeps to, it also keeps to if more is allowed and less is
/// asked of its end.
pub proof fn lemma_weaken(
    plan: Plan,
    allowed: spec_fn(RequestView) -> bool,
    goal: spec_fn(Session, Told) -> bool,
    more: spec_fn(RequestView) -> bool,
    less: spec_fn(Session, Told) -> bool,
)
    requires
        behaves(plan, allowed, goal),
        forall|request: RequestView| allowed(request) ==> #[trigger] more(request),
        forall|t: Session, result: Told| goal(t, result) ==> #[trigger] less(t, result),
    ensures
        behaves(plan, more, less),
    decreases plan,
{
    match plan {
        Plan::Finish { session, result } => {},
        Plan::Ask { request, next } => {
            assert forall|reply: Reply| behaves(#[trigger] next(reply), more, less) by {
                lemma_weaken(next(reply), allowed, goal, more, less);
            }
        },
    }
}

/// The frames in what gdb prints are not more than the limit.
proof fn lemma_frames_are_few(lines: Seq<Text>, limit: nat, known: Frames)
    requires
        known.dom().finite(),
        known.len() <= limit,
    ensures
        gdb_output::frames_of(lines, limit, known).dom().finite(),
        gdb_output::frames_of(lines, limit, known).len() <= limit,
    decreases lines.len(),
{
    if lines.len() > 0 && known.len() < limit {
        let more = match gdb_output::frame_line(lines.first()) {
            Some((number, function, place)) => known.insert(number, (function, place)),
            None => known,
        };
        lemma_frames_are_few(lines.drop_first(), limit, more);
    }
}

/// Asking for the frames behaves if what follows does for all frames.
pub proof fn rule_backtrace(
    s: Session,
    full: bool,
    told: spec_fn(Frames) -> Plan,
    allowed: spec_fn(RequestView) -> bool,
    goal: spec_fn(Session, Told) -> bool,
)
    requires
        may_command(allowed),
        forall|frames: Frames|
            are_few(s, frames) ==> behaves(#[trigger] told(frames), allowed, goal),
        forall|error: Text| #[trigger] goal(s, Err(error)),
    ensures
        behaves(plan::collect_backtrace(s, full, told), allowed, goal),
{
    let limit = s.config.display_backtrace as nat;
    assert forall|reply: Reply| behaves(
        #[trigger] plan::backtrace_told(s, full, told)(reply),
        allowed,
        goal,
    ) by {
        match operation::outcome(reply) {
            Ok(output) => {
                lemma_frames_are_few(text::lines(output), limit, Map::empty());
                assert forall|again: Reply| behaves(
                    #[trigger] plan::plain_backtrace_told(s, told)(again),
                    allowed,
                    goal,
                ) by {
                    match operation::outcome(again) {
                        Ok(plain) => {
                            lemma_frames_are_few(text::lines(plain), limit, Map::empty());
                        },
                        Err(error) => {},
                    }
                }
            },
            Err(error) => {},
        }
    }
}

/// Answering behaves if the answer is a good end, and is one with any frames.
pub proof fn rule_respond(
    s: Session,
    r: Response,
    allowed: spec_fn(RequestView) -> bool,
    goal: spec_fn(Session, Told) -> bool,
)
    requires
        may_command(allowed),
        plan::is_crash(r.state) && r.backtrace is None && s.executable is Some || goal(s, Ok(r)),
        forall|frames: Frames|
            are_few(s, frames) ==> #[trigger] goal(s, Ok(plan::with_frames(r, frames))),
        forall|error: Text| #[trigger] goal(s, Err(error)),
    ensures
        behaves(plan::respond(s, r), allowed, goal),
{
    assert forall|frames: Frames| are_few(s, frames) implies behaves(
        #[trigger] plan::crash_frames(s, r)(frames),
        allowed,
        goal,
    ) by {
        assert(goal(s, Ok(plan::with_frames(r, frames))));
    }
    rule_backtrace(s, true, plan::crash_frames(s, r), allowed, goal);
}

/// Asking for the place of the program behaves if what follows does for all
/// places.
pub proof fn rule_current_code(
    s: Session,
    told: spec_fn(Place) -> Plan,
    allowed: spec_fn(RequestView) -> bool,
    goal: spec_fn(Session, Told) -> bool,
)
    requires
        may_command(allowed),
        forall|place: Place| behaves(#[trigger] told(place), allowed, goal),
        forall|error: Text| #[trigger] goal(s, Err(error)),
    ensures
        behaves(plan::collect_current_code(s, told), allowed, goal),
{
    assert forall|reply: Reply| behaves(
        #[trigger] plan::frame_told(s, told)(reply),
        allowed,
        goal,
    ) by {
        match operation::outcome(reply) {
            Ok(output) => {
                match gdb_output::first_place(text::lines(output)) {
                    Some((path, line)) => {
                        assert forall|again: Reply| behaves(
                            #[trigger] plan::listing_told(s, path, line, told)(again),
                            allowed,
                            goal,
                        ) by {}
                    },
                    None => {},
                }
            },
            Err(error) => {},
        }
    }
}

/// Asking for the variables behaves if what follows does for all values.
pub proof fn rule_variables(
    s: Session,
    list: Seq<(Text, Text)>,
    told: spec_fn(Seq<(Text, Text)>) -> Plan,
    allowed: spec_fn(RequestView) -> bool,
    goal: spec_fn(Session, Told) -> bool,
)
    requires
        may_command(allowed),
        are_watched(s, list),
        forall|all: Seq<(Text, Text)>|
            are_watched(s, all) && all.len() == plan::shown_variables(s) ==> behaves(
                #[trigger] told(all),
                allowed,
                goal,
            ),
    ensures
        behaves(plan::collect_variables(s, list, told), allowed, goal),
    decreases plan::shown_variables(s) - list.len(),
{
    if list.len() < plan::shown_variables(s) {
        assert forall|reply: Reply| behaves(
            #[trigger] plan::variable_told(s, list, told)(reply),
            allowed,
            goal,
        ) by {
            let more = list.push((s.watched[list.len() as int], plan::variable_value(reply)));
            rule_variables(s, more, told, allowed, goal);
            assert(plan::variable_told(s, list, told)(reply) == plan::collect_variables(
                s,
                more,
                told,
            ));
        }
        assert(plan::collect_variables(s, list, told) == (Plan::Ask {
            request: RequestView::Exec("print "@ + s.watched[list.len() as int]),
            next: plan::variable_told(s, list, told),
        }));
    } else {
        assert(behaves(told(list), allowed, goal));
    }
}

/// Stopping the program that runs behaves if what follows does.
pub proof fn rule_resync(
    s: Session,
    next: spec_fn(Session) -> Plan,
    allowed: spec_fn(RequestView) -> bool,
    goal: spec_fn(Session, Told) -> bool,
)
    requires
        may_command(allowed),
        s.state != DebuggerState::Running ==> behaves(next(s), allowed, goal),
        s.state == DebuggerState::Running ==> behaves(
            next(Session { state: DebuggerState::StoppedAtStepping, ..s }),
            allowed,
            goal,
        ),
    ensures
        behaves(plan::resync(s, next), allowed, goal),
{
    if s.state == DebuggerState::Running {
        assert forall|reply: Reply| behaves(
            #[trigger] plan::resync_interrupted(s, next)(reply),
            allowed,
            goal,
        ) by {
            assert forall|again: Reply| behaves(
                #[trigger] plan::resync_settled(s, next)(again),
                allowed,
                goal,
            ) by {}
        }
    }
}

/// Killing the gdbserver behaves if what follows does.
pub proof fn rule_stop_gdbserver(
    s: Session,
    next: spec_fn(Session) -> Plan,
    allowed: spec_fn(RequestView) -> bool,
    goal: spec_fn(Session, Told) -> bool,
)
    requires
        s.gdbserver ==> allowed(RequestView::KillGdbServer),
        behaves(next(plan::without_gdbserver(s)), allowed, goal),
    ensures
        behaves(plan::stop_gdbserver(s, next), allowed, goal),
{
    if s.gdbserver {
        assert forall|reply: Reply| behaves(
            #[trigger] plan::gdbserver_stopped(s, next)(reply),
            allowed,
            goal,
        ) by {}
    } else {
        assert(plan::without_gdbserver(s) =~= s);
    }
}

/// A command behaves if what follows does for all that it can lead to.
pub proof fn rule_command(
    s: Session,
    command: Text,
    fallback: Option<DebuggerState>,
    include_output: bool,
    told: spec_fn(Session, Response) -> Plan,
    allowed: spec_fn(RequestView) -> bool,
    goal: spec_fn(Session, Told) -> bool,
)
    requires
        may_command(allowed),
        forall|t: Session, r: Response|
            is_after_command(s, t, r) ==> behaves(#[trigger] told(t, r), allowed, goal),
    ensures
        behaves(plan::run_command(s, command, fallback, include_output, told), allowed, goal),
{
    let next = plan::sending(command, fallback, include_output, told);
    assert forall|u: Session| keeps(s, u) implies behaves(#[trigger] next(u), allowed, goal) by {
        assert forall|reply: Reply| behaves(
            #[trigger] plan::command_replied(u, fallback, include_output, told)(reply),
            allowed,
            goal,
        ) by {
            match operation::outcome(reply) {
                Ok(output) => {
                    let t = plan::after_output(u, output, fallback);
                    let r = Response {
                        command_output: if include_output {
                            gdb_output::command_output(output)
                        } else {
                            None
                        },
                        ..plan::base_response(t)
                    };
                    assert(is_after_command(s, t, r));
                    assert(behaves(told(t, r), allowed, goal));
                },
                Err(error) => {
                    let t = plan::troubled(u, DebuggerState::Error, error);
                    assert(is_after_command(s, t, plan::base_response(t)));
                    assert(behaves(told(t, plan::base_response(t)), allowed, goal));
                },
            }
        }
    }
    let stopped = Session { state: DebuggerState::StoppedAtStepping, ..s };
    assert(is_after_command(s, s, plan::base_response(s)));
    assert(keeps(s, stopped));
    assert(behaves(next(s), allowed, goal));
    assert(behaves(next(stopped), allowed, goal));
    rule_resync(s, next, allowed, goal);
}

} // verus!
