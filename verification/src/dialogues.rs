//! Whole dialogues: an operation, and a gdb that answers each request in its way.
use vstd::prelude::*;

use crate::gdb_output;
use crate::number;
use crate::operation;
use crate::operation::{Reply, RequestView};
use crate::outcomes;
use crate::outcomes::Told;
use crate::plan;
use crate::plan::{Frames, Place, Plan, Session};
use crate::protocol::{DebuggerState, Response};
use crate::session;
use crate::session::{SessionCore, Step};
use crate::text;
use crate::text::Text;

verus! {

/// What answers the requests of a session: the reply to each.
pub type Gdb = spec_fn(RequestView) -> Reply;

/// How an operation ends with this gdb.
pub open spec fn run(plan: Plan, gdb: Gdb) -> (Session, Told)
    decreases plan,
{
    match plan {
        Plan::Finish { session, result } => (session, result),
        Plan::Ask { request, next } => run(next(gdb(request)), gdb),
    }
}

/// What an operation asks of this gdb, in order.
pub open spec fn requests(plan: Plan, gdb: Gdb) -> Seq<RequestView>
    decreases plan,
{
    match plan {
        Plan::Finish { session, result } => Seq::empty(),
        Plan::Ask { request, next } => seq![request] + requests(next(gdb(request)), gdb),
    }
}

/// What the reply to a command of gdb is.
pub open spec fn reply_to(gdb: Gdb, command: Text) -> Result<Text, Text> {
    operation::outcome(gdb(RequestView::Exec(command)))
}

/// What holds of the end of an operation whatever is replied holds of its end
/// with any gdb.
pub proof fn law_every_gdb_is_covered(
    plan: Plan,
    goal: spec_fn(Session, Told) -> bool,
    gdb: Gdb,
)
    requires
        outcomes::ends(plan, goal),
    ensures
        goal(run(plan, gdb).0, run(plan, gdb).1),
    decreases plan,
{
    match plan {
        Plan::Finish { session, result } => {},
        Plan::Ask { request, next } => {
            let reply = gdb(request);
            assert(outcomes::behaves(next(reply), outcomes::anything(), goal));
            law_every_gdb_is_covered(next(reply), goal, gdb);
        },
    }
}

/// A session that follows a plan ends as the plan does with any gdb: a step
/// that asks leaves the rest of the dialogue, and a step that is done its end.
pub proof fn law_sessions_hold_their_dialogues(
    core: SessionCore,
    step: Step,
    planned: Plan,
    gdb: Gdb,
)
    requires
        core.follows(step, planned),
    ensures
        match step {
            Step::Ask(request) => {
                &&& run(planned, gdb) == run(core.awaiting()(gdb(request@)), gdb)
                &&& requests(planned, gdb) == seq![request@] + requests(
                    core.awaiting()(gdb(request@)),
                    gdb,
                )
            },
            Step::Done(result) => {
                &&& run(planned, gdb) == (core@, session::result_view(result))
                &&& requests(planned, gdb) == Seq::<RequestView>::empty()
            },
        },
{
    reveal_with_fuel(run, 2);
    reveal_with_fuel(requests, 2);
}

/// A session goes on with every reply but one that places the program so far
/// down that the lines to be shown behind it cannot be numbered.
pub proof fn law_replies_are_accepted(core: SessionCore, reply: Reply)
    requires
        operation::outcome(reply) matches Ok(output) ==> (gdb_output::first_place(
            text::lines(output),
        ) matches Some((_, line)) ==> line + core@.config.display_lines_after_current
            <= 0xffff_ffff_ffff_ffff),
    ensures
        core.accepts(reply),
{
}

// ---------------------------------------------------------------------------
// The parts of operations
// ---------------------------------------------------------------------------

/// The session after a program that runs was stopped.
pub open spec fn stopped_first(s: Session) -> Session {
    if s.state == DebuggerState::Running {
        Session { state: DebuggerState::StoppedAtStepping, ..s }
    } else {
        s
    }
}

pub proof fn lemma_resync(s: Session, next: spec_fn(Session) -> Plan, gdb: Gdb)
    ensures
        run(plan::resync(s, next), gdb) == run(next(stopped_first(s)), gdb),
        requests(plan::resync(s, next), gdb) == stops(s) + requests(next(stopped_first(s)), gdb),
{
    reveal_with_fuel(run, 3);
    reveal_with_fuel(requests, 3);
    if s.state == DebuggerState::Running {
        let prompt = RequestView::Exec("printf \"\""@);
        let rest = requests(next(stopped_first(s)), gdb);
        assert(seq![RequestView::Interrupt] + (seq![prompt] + rest) =~= seq![
            RequestView::Interrupt,
            prompt,
        ] + rest);
    } else {
        assert(stops(s) + requests(next(s), gdb) =~= requests(next(s), gdb));
    }
}

pub proof fn lemma_stop_gdbserver(s: Session, next: spec_fn(Session) -> Plan, gdb: Gdb)
    ensures
        run(plan::stop_gdbserver(s, next), gdb) == run(next(plan::without_gdbserver(s)), gdb),
        s.gdbserver ==> requests(plan::stop_gdbserver(s, next), gdb) == seq![
            RequestView::KillGdbServer,
        ] + requests(next(plan::without_gdbserver(s)), gdb),
        !s.gdbserver ==> requests(plan::stop_gdbserver(s, next), gdb) == requests(next(s), gdb),
{
    reveal_with_fuel(run, 2);
    reveal_with_fuel(requests, 2);
    if !s.gdbserver {
        assert(plan::without_gdbserver(s) =~= s);
    }
}

/// The requests by which a program that runs is stopped.
pub open spec fn stops(s: Session) -> Seq<RequestView> {
    if s.state == DebuggerState::Running {
        seq![RequestView::Interrupt, RequestView::Exec("printf \"\""@)]
    } else {
        Seq::empty()
    }
}

/// The requests before a command and the command.
pub open spec fn sends(s: Session, command: Text) -> Seq<RequestView> {
    (if command == "continue"@ {
        Seq::empty()
    } else {
        stops(s)
    }).push(RequestView::Exec(command))
}

/// The session that a command is sent in.
pub open spec fn ready_for(s: Session, command: Text) -> Session {
    if command == "continue"@ {
        s
    } else {
        stopped_first(s)
    }
}

pub proof fn lemma_command(
    s: Session,
    command: Text,
    fallback: Option<DebuggerState>,
    include_output: bool,
    told: spec_fn(Session, Response) -> Plan,
    gdb: Gdb,
)
    requires
        s.executable is Some,
    ensures
        run(plan::run_command(s, command, fallback, include_output, told), gdb) == run(
            plan::command_replied(ready_for(s, command), fallback, include_output, told)(
                gdb(RequestView::Exec(command)),
            ),
            gdb,
        ),
        requests(plan::run_command(s, command, fallback, include_output, told), gdb) == sends(
            s,
            command,
        ) + requests(
            plan::command_replied(ready_for(s, command), fallback, include_output, told)(
                gdb(RequestView::Exec(command)),
            ),
            gdb,
        ),
{
    let next = plan::sending(command, fallback, include_output, told);
    lemma_resync(s, next, gdb);
    reveal_with_fuel(run, 2);
    reveal_with_fuel(requests, 2);
    let u = ready_for(s, command);
    let request = RequestView::Exec(command);
    let rest = requests(
        plan::command_replied(u, fallback, include_output, told)(gdb(request)),
        gdb,
    );
    assert(requests(next(u), gdb) == seq![request] + rest);
    assert(stops(s) + (seq![request] + rest) =~= stops(s).push(request) + rest);
    assert(Seq::<RequestView>::empty().push(request) + rest =~= seq![request] + rest);
}

/// The values that are told of the watched variables.
pub open spec fn values(s: Session, gdb: Gdb) -> Seq<(Text, Text)> {
    Seq::new(
        plan::shown_variables(s),
        |i: int|
            (
                s.watched[i],
                plan::variable_value(gdb(RequestView::Exec("print "@ + s.watched[i]))),
            ),
    )
}

/// The requests for the values of the watched variables.
pub open spec fn prints(s: Session) -> Seq<RequestView> {
    Seq::new(plan::shown_variables(s), |i: int| RequestView::Exec("print "@ + s.watched[i]))
}

pub proof fn lemma_variables(
    s: Session,
    list: Seq<(Text, Text)>,
    told: spec_fn(Seq<(Text, Text)>) -> Plan,
    gdb: Gdb,
)
    requires
        list.len() <= plan::shown_variables(s),
        list == values(s, gdb).take(list.len() as int),
    ensures
        run(plan::collect_variables(s, list, told), gdb) == run(told(values(s, gdb)), gdb),
        requests(plan::collect_variables(s, list, told), gdb) == prints(s).skip(list.len() as int)
            + requests(told(values(s, gdb)), gdb),
    decreases plan::shown_variables(s) - list.len(),
{
    let all = values(s, gdb);
    if list.len() < plan::shown_variables(s) {
        let at = list.len() as int;
        let request = RequestView::Exec("print "@ + s.watched[at]);
        let more = list.push((s.watched[at], plan::variable_value(gdb(request))));
        assert(more =~= all.take(at + 1));
        lemma_variables(s, more, told, gdb);
        assert(plan::collect_variables(s, list, told) == (Plan::Ask {
            request,
            next: plan::variable_told(s, list, told),
        }));
        assert(plan::variable_told(s, list, told)(gdb(request)) == plan::collect_variables(
            s,
            more,
            told,
        ));
        let rest = requests(told(all), gdb);
        assert(requests(plan::collect_variables(s, list, told), gdb) == seq![request] + (
        prints(s).skip(at + 1) + rest));
        assert(prints(s)[at] == request);
        assert(seq![request] + (prints(s).skip(at + 1) + rest) =~= prints(s).skip(at) + rest);
    } else {
        assert(list =~= all);
        assert(prints(s).skip(list.len() as int) + requests(told(all), gdb) =~= requests(
            told(all),
            gdb,
        ));
    }
}

/// The frames that are read from what gdb prints of them: in full, or else in
/// the plain form.
pub open spec fn frames_told(s: Session, gdb: Gdb) -> Result<Frames, Text> {
    match reply_to(gdb, "backtrace full"@) {
        Ok(output) => {
            let frames = gdb_output::frames_of(
                text::lines(output),
                s.config.display_backtrace as nat,
                Map::empty(),
            );
            if frames.dom().is_empty() {
                match reply_to(gdb, "backtrace"@) {
                    Ok(plain) => Ok(
                        gdb_output::frames_of(
                            text::lines(plain),
                            s.config.display_backtrace as nat,
                            Map::empty(),
                        ),
                    ),
                    Err(error) => Err(error),
                }
            } else {
                Ok(frames)
            }
        },
        Err(error) => Err(error),
    }
}

/// The requests for the frames: in full, and in the plain form where none come
/// in full.
pub open spec fn frame_requests(s: Session, gdb: Gdb) -> Seq<RequestView> {
    match reply_to(gdb, "backtrace full"@) {
        Ok(output) => if gdb_output::frames_of(
            text::lines(output),
            s.config.display_backtrace as nat,
            Map::empty(),
        ).dom().is_empty() {
            seq![RequestView::Exec("backtrace full"@), RequestView::Exec("backtrace"@)]
        } else {
            seq![RequestView::Exec("backtrace full"@)]
        },
        Err(error) => seq![RequestView::Exec("backtrace full"@)],
    }
}

pub proof fn lemma_backtrace(s: Session, told: spec_fn(Frames) -> Plan, gdb: Gdb)
    ensures
        requests(plan::collect_backtrace(s, true, told), gdb) == frame_requests(s, gdb) + (
        match frames_told(s, gdb) {
            Ok(frames) => requests(told(frames), gdb),
            Err(error) => Seq::empty(),
        }),
        run(plan::collect_backtrace(s, true, told), gdb) == (match frames_told(s, gdb) {
            Ok(frames) => run(told(frames), gdb),
            Err(error) => (s, Err(error)),
        }),
{
    reveal_with_fuel(run, 3);
    reveal_with_fuel(requests, 3);
    let full = RequestView::Exec("backtrace full"@);
    let plain = RequestView::Exec("backtrace"@);
    let none = Seq::<RequestView>::empty();
    assert(seq![full] + none =~= seq![full] + none);
    assert(seq![full] + (seq![plain] + none) =~= seq![full, plain] + none);
    match frames_told(s, gdb) {
        Ok(frames) => {
            let rest = requests(told(frames), gdb);
            assert(seq![full] + (seq![plain] + rest) =~= seq![full, plain] + rest);
        },
        Err(error) => {},
    }
}

/// The command that lists the source around a line: from so many lines before
/// it, but not before the first, to so many behind it.
pub open spec fn listing(s: Session, line: u64) -> Text {
    let first = line - s.config.display_lines_before_current;
    "list "@ + number::decimal(
        if first > 1 {
            first as nat
        } else {
            1
        },
    ) + ","@ + number::decimal((line + s.config.display_lines_after_current) as nat)
}

/// The place that is read from what gdb prints of it.
pub open spec fn place_told(s: Session, gdb: Gdb) -> Result<Place, Text> {
    match reply_to(gdb, "frame"@) {
        Ok(output) => match gdb_output::first_place(text::lines(output)) {
            Some((path, line)) => match reply_to(gdb, listing(s, line)) {
                Ok(listed) => {
                    let code = gdb_output::listed_lines(text::lines(listed), Map::empty());
                    Ok(
                        Place {
                            path: Some(
                                gdb_output::source_path(
                                    s.config.separator,
                                    s.config.codebase_dir,
                                    path,
                                ),
                            ),
                            line: Some(line),
                            code: if code.dom().is_empty() {
                                None
                            } else {
                                Some(code)
                            },
                        },
                    )
                },
                Err(error) => Err(error),
            },
            None => Ok(Place { path: None, line: None, code: None }),
        },
        Err(error) => Err(error),
    }
}

/// The requests for the place: the frame, and the source around it.
pub open spec fn place_requests(s: Session, gdb: Gdb) -> Seq<RequestView> {
    match reply_to(gdb, "frame"@) {
        Ok(output) => match gdb_output::first_place(text::lines(output)) {
            Some((path, line)) => seq![
                RequestView::Exec("frame"@),
                RequestView::Exec(listing(s, line)),
            ],
            None => seq![RequestView::Exec("frame"@)],
        },
        Err(error) => seq![RequestView::Exec("frame"@)],
    }
}

pub proof fn lemma_place(s: Session, told: spec_fn(Place) -> Plan, gdb: Gdb)
    ensures
        requests(plan::collect_current_code(s, told), gdb) == place_requests(s, gdb) + (
        match place_told(s, gdb) {
            Ok(place) => requests(told(place), gdb),
            Err(error) => Seq::empty(),
        }),
        run(plan::collect_current_code(s, told), gdb) == (match place_told(s, gdb) {
            Ok(place) => run(told(place), gdb),
            Err(error) => (s, Err(error)),
        }),
{
    reveal_with_fuel(run, 3);
    reveal_with_fuel(requests, 3);
    let frame = RequestView::Exec("frame"@);
    let rest = match place_told(s, gdb) {
        Ok(place) => requests(told(place), gdb),
        Err(error) => Seq::empty(),
    };
    match reply_to(gdb, "frame"@) {
        Ok(output) => {
            match gdb_output::first_place(text::lines(output)) {
                Some((path, line)) => {
                    assert(listing(s, line) == plan::list_command(s, line));
                    let list = RequestView::Exec(listing(s, line));
                    assert(seq![frame] + (seq![list] + rest) =~= seq![frame, list] + rest);
                },
                None => {},
            }
        },
        Err(error) => {},
    }
}

/// The requests for the frames of a crash.
pub open spec fn crash_requests(s: Session, gdb: Gdb) -> Seq<RequestView> {
    match s.state {
        DebuggerState::SigSegv | DebuggerState::SigFpe | DebuggerState::SigIll => {
            if s.executable is Some {
                frame_requests(s, gdb)
            } else {
                Seq::empty()
            }
        },
        _ => Seq::empty(),
    }
}

pub proof fn lemma_respond(s: Session, r: Response, gdb: Gdb)
    ensures
        r.state == s.state && r.backtrace is None ==> requests(plan::respond(s, r), gdb)
            == crash_requests(s, gdb),
        r.backtrace is Some ==> requests(plan::respond(s, r), gdb) == Seq::<RequestView>::empty(),
        !plan::is_crash(r.state) || r.backtrace is Some || s.executable is None ==> run(
            plan::respond(s, r),
            gdb,
        ) == (s, Ok::<Response, Text>(r)),
        plan::is_crash(r.state) && r.backtrace is None && s.executable is Some ==> run(
            plan::respond(s, r),
            gdb,
        ) == (match frames_told(s, gdb) {
            Ok(frames) => (s, Ok::<Response, Text>(plan::with_frames(r, frames))),
            Err(error) => (s, Err(error)),
        }),
{
    lemma_backtrace(s, plan::crash_frames(s, r), gdb);
    assert(frame_requests(s, gdb) + Seq::<RequestView>::empty() =~= frame_requests(s, gdb));
}

/// The requests for variables, frames and place.
pub open spec fn snapshot_requests(s: Session, gdb: Gdb) -> Seq<RequestView> {
    prints(s) + frame_requests(s, gdb) + (if frames_told(s, gdb) is Ok {
        place_requests(s, gdb)
    } else {
        Seq::empty()
    })
}

pub proof fn lemma_snapshot(s: Session, gdb: Gdb)
    ensures
        requests(plan::snapshot(s), gdb) == snapshot_requests(s, gdb),
        run(plan::snapshot(s), gdb) == (match (frames_told(s, gdb), place_told(s, gdb)) {
            (Err(error), _) => (s, Err(error)),
            (Ok(_), Err(error)) => (s, Err(error)),
            (Ok(frames), Ok(place)) => (
                s,
                Ok::<Response, Text>(
                    plan::with_place(
                        s,
                        Response {
                            variable_list: Some(values(s, gdb)),
                            backtrace: Some(frames),
                            current_func: gdb_output::innermost_function(frames),
                            ..plan::base_response(s)
                        },
                        place,
                    ),
                ),
            ),
        }),
{
    let base = plan::base_response(s);
    let empty = Seq::<(Text, Text)>::empty();
    assert(empty =~= values(s, gdb).take(0));
    lemma_variables(s, empty, plan::snapshot_variables(s, base), gdb);
    let r = Response { variable_list: Some(values(s, gdb)), ..base };
    lemma_backtrace(s, plan::snapshot_frames(s, r), gdb);
    match frames_told(s, gdb) {
        Ok(frames) => {
            let q = Response {
                backtrace: Some(frames),
                current_func: gdb_output::innermost_function(frames),
                ..r
            };
            lemma_place(s, plan::snapshot_place(s, q), gdb);
            match place_told(s, gdb) {
                Ok(place) => {
                    lemma_respond(s, plan::with_place(s, q, place), gdb);
                },
                Err(error) => {},
            }
        },
        Err(error) => {},
    }
    let none = Seq::<RequestView>::empty();
    let place = if frames_told(s, gdb) is Ok {
        place_requests(s, gdb)
    } else {
        none
    };
    let all = requests(plan::snapshot(s), gdb);
    assert(prints(s).skip(0) =~= prints(s));
    assert(place_requests(s, gdb) + none =~= place_requests(s, gdb));
    assert(all =~= prints(s) + (frame_requests(s, gdb) + place));
    assert(all =~= snapshot_requests(s, gdb));
}

} // verus!
