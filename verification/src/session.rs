//! A debugging session: it decides what is asked of gdb, and what a client is
//! told.
use std::collections::BTreeMap;
use vstd::prelude::*;

use crate::conduct;
use crate::config::{Config, ServerConfig};
use crate::error::OpenMcpGdbError;
use crate::gdb_output;
use crate::number;
use crate::operation;
use crate::operation::{BreakpointAction, Reply, Request, RequestView, ToolOperation};
use crate::outcomes;
use crate::paths;
use crate::plan;
use crate::plan::{Frames, Place, Plan, Session};
use crate::protocol;
use crate::protocol::{CurrentCodePayload, DebuggerResponse, DebuggerState, Response};
use crate::scan;
use crate::text;
use crate::text::Text;

verus! {

/// What comes next in an operation.
#[derive(Debug)]
pub enum Step {
    /// This is to be done; the operation goes on with the reply.
    Ask(Request),
    /// The operation is over.
    Done(Result<DebuggerResponse, OpenMcpGdbError>),
}

/// A debugging session.
pub struct SessionCore {
    config: ServerConfig,
    debugger_state: DebuggerState,
    watched_variables: Vec<String>,
    executable_path: Option<String>,
    gdbserver_running: bool,
    last_error: String,
    pending: Pending,
}

/// What is done with the outcome of a command.
#[derive(Clone, Copy)]
enum AfterCommand {
    Tell,
    TellSoftly { previous: DebuggerState },
    TellPrint { previous: DebuggerState },
    TellRegisters,
    ShowBreakpoint,
    ShowRest,
}

/// What is done with the values of the variables.
#[derive(Clone, Copy)]
enum AfterVariables {
    Snapshot,
    Show,
}

/// What is done with the frames.
#[derive(Clone, Copy)]
enum AfterFrames {
    Crash,
    Snapshot,
    Show,
}

/// What is done with the place of the program.
#[derive(Clone, Copy)]
enum AfterPlace {
    Snapshot,
    Show,
}

/// What is done once gdb listens.
enum AfterResync {
    Command {
        command: String,
        fallback: Option<DebuggerState>,
        include_output: bool,
        after: AfterCommand,
    },
    ChangeBreakpoints { action: BreakpointAction, filename: String, linenumber: u64 },
    ListBreakpoints,
    ShowVariables,
    ShowCurrentCode,
    Kill,
}

/// What is done once no gdbserver runs.
enum AfterGdbServer {
    Spawn { endpoint: String, pid: String },
    Stop,
    Quit,
}

/// What a reply is waited for.
enum Pending {
    Nothing,
    ResyncInterrupt(AfterResync),
    ResyncPrompt(AfterResync),
    Command { fallback: Option<DebuggerState>, include_output: bool, after: AfterCommand },
    GdbServerKill(AfterGdbServer),
    GdbServerSpawn,
    GdbServerProbe,
    Attach { path: String },
    RemoteStart { command: String },
    BreakpointTable { action: BreakpointAction, filename: String, linenumber: u64 },
    BreakpointChange { action: BreakpointAction, ids: Vec<String>, done: usize },
    BreakpointListing,
    Variable { response: DebuggerResponse, list: Vec<(String, String)>, after: AfterVariables },
    Backtrace { full: bool, response: DebuggerResponse, after: AfterFrames },
    PlainBacktrace { response: DebuggerResponse, after: AfterFrames },
    Frame { response: DebuggerResponse, after: AfterPlace },
    Listing { response: DebuggerResponse, path: String, line: u64, after: AfterPlace },
    Interrupt,
    InterruptPrompt,
    QuitInterrupt,
    Quit,
    QuitStop { quit: Result<String, String> },
    Stop,
    Kill,
    KillConfirm { output: String },
}

impl View for SessionCore {
    type V = Session;

    closed spec fn view(&self) -> Session {
        Session {
            config: self.config@,
            state: self.debugger_state,
            watched: protocol::texts(self.watched_variables@),
            executable: text::optional(self.executable_path),
            gdbserver: self.gdbserver_running,
            last_error: self.last_error@,
        }
    }
}

/// What a command is for.
spec fn command_goal(after: AfterCommand) -> spec_fn(Session, Response) -> Plan {
    match after {
        AfterCommand::Tell => plan::tell(),
        AfterCommand::TellSoftly { previous } => plan::tell_softly(previous),
        AfterCommand::TellPrint { previous } => plan::tell_print(previous),
        AfterCommand::TellRegisters => plan::tell_registers(),
        AfterCommand::ShowBreakpoint => plan::show_breakpoint(),
        AfterCommand::ShowRest => plan::show_rest(),
    }
}

/// What the values of the variables are for.
spec fn variables_goal(s: Session, r: Response, after: AfterVariables) -> spec_fn(
    Seq<(Text, Text)>,
) -> Plan {
    match after {
        AfterVariables::Snapshot => plan::snapshot_variables(s, r),
        AfterVariables::Show => plan::variables_shown(s, r),
    }
}

/// What the frames are for.
spec fn frames_goal(s: Session, r: Response, after: AfterFrames) -> spec_fn(Frames) -> Plan {
    match after {
        AfterFrames::Crash => plan::crash_frames(s, r),
        AfterFrames::Snapshot => plan::snapshot_frames(s, r),
        AfterFrames::Show => plan::backtrace_shown(s, r),
    }
}

/// What the place of the program is for.
spec fn place_goal(s: Session, r: Response, after: AfterPlace) -> spec_fn(Place) -> Plan {
    match after {
        AfterPlace::Snapshot => plan::snapshot_place(s, r),
        AfterPlace::Show => plan::current_code_shown(s, r),
    }
}

/// What gdb is wanted for.
spec fn resync_goal(after: AfterResync) -> spec_fn(Session) -> Plan {
    match after {
        AfterResync::Command { command, fallback, include_output, after } => plan::sending(
            command@,
            fallback,
            include_output,
            command_goal(after),
        ),
        AfterResync::ChangeBreakpoints { action, filename, linenumber } =>
            plan::resolve_breakpoints(action, filename@, linenumber),
        AfterResync::ListBreakpoints => plan::listing_breakpoints(),
        AfterResync::ShowVariables => plan::showing_variables(),
        AfterResync::ShowCurrentCode => plan::showing_current_code(),
        AfterResync::Kill => plan::killing(),
    }
}

/// What the gdbserver had to end for.
spec fn gdbserver_goal(after: AfterGdbServer) -> spec_fn(Session) -> Plan {
    match after {
        AfterGdbServer::Spawn { endpoint, pid } => plan::spawning(endpoint@, pid@),
        AfterGdbServer::Stop => plan::stopping(),
        AfterGdbServer::Quit => plan::quitting(),
    }
}

/// What is left to be done for each reply.
spec fn continuation(s: Session, pending: Pending) -> spec_fn(Reply) -> Plan {
    match pending {
        Pending::Nothing => |reply: Reply| plan::answer(s),
        Pending::ResyncInterrupt(after) => plan::resync_interrupted(s, resync_goal(after)),
        Pending::ResyncPrompt(after) => plan::resync_settled(s, resync_goal(after)),
        Pending::Command { fallback, include_output, after } => plan::command_replied(
            s,
            fallback,
            include_output,
            command_goal(after),
        ),
        Pending::GdbServerKill(after) => plan::gdbserver_stopped(s, gdbserver_goal(after)),
        Pending::GdbServerSpawn => plan::gdbserver_spawned(s),
        Pending::GdbServerProbe => plan::gdbserver_probed(s),
        Pending::Attach { path } => plan::attach_replied(s, path@),
        Pending::RemoteStart { command } => plan::remote_started(s, command@),
        Pending::BreakpointTable { action, filename, linenumber } => plan::breakpoints_resolved(
            s,
            action,
            filename@,
            linenumber,
        ),
        Pending::BreakpointChange { action, ids, done } => plan::breakpoint_changed(
            s,
            action,
            protocol::texts(ids@).skip(done as int),
        ),
        Pending::BreakpointListing => plan::breakpoints_listed(s),
        Pending::Variable { response, list, after } => plan::variable_told(
            s,
            protocol::pairs(list@),
            variables_goal(s, response@, after),
        ),
        Pending::Backtrace { full, response, after } => plan::backtrace_told(
            s,
            full,
            frames_goal(s, response@, after),
        ),
        Pending::PlainBacktrace { response, after } => plan::plain_backtrace_told(
            s,
            frames_goal(s, response@, after),
        ),
        Pending::Frame { response, after } => plan::frame_told(s, place_goal(s, response@, after)),
        Pending::Listing { response, path, line, after } => plan::listing_told(
            s,
            path@,
            line,
            place_goal(s, response@, after),
        ),
        Pending::Interrupt => plan::interrupted(s),
        Pending::InterruptPrompt => plan::interrupt_settled(s),
        Pending::QuitInterrupt => plan::quit_interrupted(s),
        Pending::Quit => plan::quit_replied(s),
        Pending::QuitStop { quit } => plan::quit_stopped(s, view_of(quit)),
        Pending::Stop => plan::stopped(s),
        Pending::Kill => plan::kill_replied(s),
        Pending::KillConfirm { output } => plan::kill_confirmed(s, output@),
    }
}

/// What is waited for concerns a variable, or a breakpoint, that there is, and
/// the answer that is being put together is proper so far.
spec fn is_sound(s: Session, pending: Pending) -> bool {
    match pending {
        Pending::Variable { response, list, .. } => {
            &&& is_proper(s.config, response@)
            &&& outcomes::are_watched(s, protocol::pairs(list@))
            &&& list@.len() < plan::shown_variables(s)
        },
        Pending::Backtrace { response, .. } => is_proper(s.config, response@),
        Pending::PlainBacktrace { response, .. } => is_proper(s.config, response@),
        Pending::Frame { response, .. } => is_proper(s.config, response@),
        Pending::Listing { response, .. } => is_proper(s.config, response@),
        Pending::BreakpointChange { ids, done, .. } => done < ids@.len(),
        _ => true,
    }
}

/// The path of a source is absolute, where the directory of the code is and the
/// separator is a slash.
pub open spec fn is_rooted(config: Config, path: Text) -> bool {
    config.separator == '/' && paths::begins_with_slash(config.codebase_dir)
        ==> paths::begins_with_slash(path)
}

/// An answer tells no variable twice, and an absolute path for the source.
pub open spec fn is_proper(config: Config, r: Response) -> bool {
    &&& r.variable_list matches Some(list) ==> protocol::are_distinct(list)
    &&& r.current_code_path matches Some(path) ==> is_rooted(config, path)
}

/// An outcome, as a mathematical value.
spec fn view_of(outcome: Result<String, String>) -> Result<Text, Text> {
    match outcome {
        Ok(output) => Ok(output@),
        Err(error) => Err(error@),
    }
}

/// The result of an operation, as a mathematical value.
pub open spec fn result_view(result: Result<DebuggerResponse, OpenMcpGdbError>) -> Result<
    Response,
    Text,
> {
    match result {
        Ok(response) => Ok(response@),
        Err(OpenMcpGdbError::Backend(error)) => Err(error@),
        Err(OpenMcpGdbError::InvalidConfig(error)) => Err(error@),
    }
}

impl SessionCore {
    /// A reply is waited for.
    pub closed spec fn is_waiting(&self) -> bool {
        self.pending !is Nothing
    }

    /// What is waited for concerns a variable, or a breakpoint, that there is,
    /// and the answer that is being put together is proper so far.
    pub closed spec fn is_intact(&self) -> bool {
        is_sound(self@, self.pending)
    }

    /// The session is in order, and no variable is watched twice.
    pub open spec fn wf(&self) -> bool {
        &&& self.is_intact()
        &&& self@.watched.no_duplicates()
    }

    /// No reply is waited for, and no variable is watched twice.
    spec fn is_ready(&self) -> bool {
        &&& !self.is_waiting()
        &&& self@.watched.no_duplicates()
    }

    /// What is left to be done for each reply.
    pub closed spec fn awaiting(&self) -> spec_fn(Reply) -> Plan {
        continuation(self@, self.pending)
    }

    /// With this step the session is about to do what is planned: it asks for
    /// what the plan asks for, and goes on as the plan does for every reply; or
    /// it is done, as the plan is, and its answer is proper.
    pub open spec fn follows(&self, step: Step, planned: Plan) -> bool {
        &&& self.wf()
        &&& step is Ask <==> self.is_waiting()
        &&& match step {
            Step::Ask(request) => {
                &&& planned == (Plan::Ask { request: request@, next: self.awaiting() })
                &&& self.awaits_place() ==> request@ == RequestView::Exec("frame"@)
            },
            Step::Done(result) => {
                &&& planned == (Plan::Finish { session: self@, result: result_view(result) })
                &&& result matches Err(error) ==> error is Backend
                &&& result matches Ok(response) ==> is_proper(self@.config, response@)
            },
        }
    }

    /// Starts a session.
    pub fn new(config: ServerConfig) -> (core: SessionCore)
        ensures
            core@ == plan::fresh(config@),
            core.wf(),
            !core.is_waiting(),
    {
        let core = SessionCore {
            config,
            debugger_state: DebuggerState::NotAttached,
            watched_variables: Vec::new(),
            executable_path: None,
            gdbserver_running: false,
            last_error: String::new(),
            pending: Pending::Nothing,
        };
        assert(core@.watched =~= Seq::empty());
        core
    }

    /// The answer that tells the state of the session and its error.
    fn base_response(&self) -> (response: DebuggerResponse)
        ensures
            response@ == plan::base_response(self@),
    {
        DebuggerResponse::new(self.debugger_state).with_error(self.last_error.clone())
    }

    /// The state that the session falls back to.
    fn recoverable_base_state(&self) -> (state: DebuggerState)
        ensures
            state == plan::base_state(self@),
    {
        if self.executable_path.is_some() {
            DebuggerState::Attached
        } else {
            DebuggerState::NotAttached
        }
    }

    /// Goes to a state, without an error.
    fn settle(&mut self, state: DebuggerState)
        ensures
            final(self)@ == plan::in_state(old(self)@, state),
            final(self).pending == old(self).pending,
    {
        self.debugger_state = state;
        self.last_error = String::new();
    }

    /// Leaves the error that the session may be in.
    fn recover_error_state_without_restart(&mut self)
        ensures
            final(self)@ == plan::recovered(old(self)@),
            final(self).pending == old(self).pending,
    {
        let state = if self.debugger_state == DebuggerState::Error {
            self.recoverable_base_state()
        } else {
            self.debugger_state
        };
        self.settle(state);
    }

    /// Takes over the state that gdb's output tells. Nothing else changes, and
    /// nothing is asked for.
    pub fn update_state_from_output(&mut self, output: &str, fallback_state: Option<DebuggerState>)
        ensures
            final(self)@ == (Session {
                state: gdb_output::state_after(old(self)@.state, output@, fallback_state),
                ..old(self)@
            }),
            final(self).wf() == old(self).wf(),
            final(self).is_waiting() == old(self).is_waiting(),
    {
        self.debugger_state = gdb_output::state_from_output(
            self.debugger_state,
            output,
            fallback_state,
        );
    }

    /// Asks for something.
    fn ask(&mut self, request: Request, pending: Pending) -> (step: Step)
        requires
            pending !is Nothing,
            is_sound(old(self)@, pending),
            old(self)@.watched.no_duplicates(),
            pending is Frame ==> request@ == RequestView::Exec("frame"@),
        ensures
            final(self).follows(
                step,
                Plan::Ask { request: request@, next: continuation(old(self)@, pending) },
            ),
            final(self)@ == old(self)@,
    {
        self.pending = pending;
        Step::Ask(request)
    }

    /// Lets the operation fail.
    fn fail(&mut self, error: String) -> (step: Step)
        requires
            old(self).is_ready(),
        ensures
            final(self).follows(step, plan::fail(old(self)@, error@)),
            final(self)@.config == old(self)@.config,
    {
        Step::Done(Err(OpenMcpGdbError::Backend(error)))
    }

    /// Answers the operation; the answer to a crash is given the frames first.
    fn enrich_crash_response(&mut self, response: DebuggerResponse) -> (step: Step)
        requires
            old(self).is_ready(),
            is_proper(old(self)@.config, response@),
        ensures
            final(self).follows(step, plan::respond(old(self)@, response@)),
            final(self)@.config == old(self)@.config,
    {
        let crash = match response.debugger_state {
            DebuggerState::SigSegv | DebuggerState::SigFpe | DebuggerState::SigIll => true,
            _ => false,
        };
        if crash && response.backtrace.is_none() && self.executable_path.is_some() {
            self.collect_backtrace(true, response, AfterFrames::Crash)
        } else {
            Step::Done(Ok(response))
        }
    }

    /// Answers the operation by the state of the session.
    fn answer(&mut self) -> (step: Step)
        requires
            old(self).is_ready(),
        ensures
            final(self).follows(step, plan::answer(old(self)@)),
            final(self)@.config == old(self)@.config,
    {
        let response = self.base_response();
        self.enrich_crash_response(response)
    }

    /// Goes to a state, with an error, and tells so.
    fn trouble(&mut self, state: DebuggerState, error: String) -> (step: Step)
        requires
            old(self).is_ready(),
        ensures
            final(self).follows(step, plan::answer(plan::troubled(old(self)@, state, error@))),
            final(self)@.config == old(self)@.config,
    {
        self.debugger_state = state;
        self.last_error = error;
        self.answer()
    }

    /// Asks for the frames.
    fn collect_backtrace(
        &mut self,
        full: bool,
        response: DebuggerResponse,
        after: AfterFrames,
    ) -> (step: Step)
        requires
            old(self)@.watched.no_duplicates(),
            is_proper(old(self)@.config, response@),
        ensures
            final(self).follows(
                step,
                plan::collect_backtrace(
                    old(self)@,
                    full,
                    frames_goal(old(self)@, response@, after),
                ),
            ),
            final(self)@.config == old(self)@.config,
    {
        let command = if full {
            "backtrace full".to_string()
        } else {
            "backtrace".to_string()
        };
        self.ask(Request::Exec(command), Pending::Backtrace { full, response, after })
    }

    /// The frames are known, or are asked for again in the plain form.
    fn backtrace_told(
        &mut self,
        reply: Reply,
        full: bool,
        response: DebuggerResponse,
        after: AfterFrames,
    ) -> (step: Step)
        requires
            old(self).is_ready(),
            is_proper(old(self)@.config, response@),
        ensures
            final(self).follows(
                step,
                plan::backtrace_told(
                    old(self)@,
                    full,
                    frames_goal(old(self)@, response@, after),
                )(reply),
            ),
            final(self)@.config == old(self)@.config,
    {
        match reply.into_outcome() {
            Ok(output) => {
                let backtrace = self.read_frames(output.as_str());
                assert(protocol::frames(backtrace@).dom() =~= backtrace@.dom());
                // Some targets print nothing for the full form.
                if full && backtrace.is_empty() {
                    self.ask(
                        Request::Exec("backtrace".to_string()),
                        Pending::PlainBacktrace { response, after },
                    )
                } else {
                    self.frames_told(backtrace, response, after)
                }
            },
            Err(error) => self.fail(error),
        }
    }

    /// The frames in the plain form are known.
    fn plain_backtrace_told(
        &mut self,
        reply: Reply,
        response: DebuggerResponse,
        after: AfterFrames,
    ) -> (step: Step)
        requires
            old(self).is_ready(),
            is_proper(old(self)@.config, response@),
        ensures
            final(self).follows(
                step,
                plan::plain_backtrace_told(
                    old(self)@,
                    frames_goal(old(self)@, response@, after),
                )(reply),
            ),
            final(self)@.config == old(self)@.config,
    {
        match reply.into_outcome() {
            Ok(output) => {
                let backtrace = self.read_frames(output.as_str());
                self.frames_told(backtrace, response, after)
            },
            Err(error) => self.fail(error),
        }
    }

    /// Reads what `backtrace` says.
    fn read_frames(&self, output: &str) -> (backtrace: BTreeMap<u64, (String, String)>)
        ensures
            protocol::frames(backtrace@) == plan::read_frames(self@, output@, Map::empty()),
    {
        let mut backtrace: BTreeMap<u64, (String, String)> = BTreeMap::new();
        assert(protocol::frames(backtrace@) =~= Map::empty());
        gdb_output::parse_backtrace_lines(output, self.config.display_backtrace, &mut backtrace);
        backtrace
    }

    /// The frames are known.
    fn frames_told(
        &mut self,
        backtrace: BTreeMap<u64, (String, String)>,
        response: DebuggerResponse,
        after: AfterFrames,
    ) -> (step: Step)
        requires
            old(self).is_ready(),
            is_proper(old(self)@.config, response@),
        ensures
            final(self).follows(
                step,
                frames_goal(old(self)@, response@, after)(protocol::frames(backtrace@)),
            ),
            final(self)@.config == old(self)@.config,
    {
        let mut response = response;
        let current_func = gdb_output::current_function(&backtrace);
        response.backtrace = Some(backtrace);
        match after {
            AfterFrames::Crash => {
                if response.current_func.is_none() {
                    response.current_func = current_func;
                }
                Step::Done(Ok(response))
            },
            AfterFrames::Snapshot => {
                response.current_func = current_func;
                self.collect_current_code(response, AfterPlace::Snapshot)
            },
            AfterFrames::Show => {
                response.current_func = current_func;
                self.enrich_crash_response(response)
            },
        }
    }

    /// Asks for the place of the program.
    fn collect_current_code(&mut self, response: DebuggerResponse, after: AfterPlace) -> (step:
        Step)
        requires
            old(self)@.watched.no_duplicates(),
            is_proper(old(self)@.config, response@),
        ensures
            final(self).follows(
                step,
                plan::collect_current_code(
                    old(self)@,
                    place_goal(old(self)@, response@, after),
                ),
            ),
            final(self)@.config == old(self)@.config,
    {
        self.ask(Request::Exec("frame".to_string()), Pending::Frame { response, after })
    }

    /// The place of the program is known; the source around it is asked for.
    fn frame_told(&mut self, reply: Reply, response: DebuggerResponse, after: AfterPlace) -> (step:
        Step)
        requires
            old(self).is_ready(),
            is_proper(old(self)@.config, response@),
            place_fits(old(self)@, reply),
        ensures
            final(self).follows(
                step,
                plan::frame_told(old(self)@, place_goal(old(self)@, response@, after))(reply),
            ),
            final(self)@.config == old(self)@.config,
    {
        match reply.into_outcome() {
            Ok(output) => match gdb_output::parse_path_and_line(output.as_str()) {
                (Some(path), Some(line)) => {
                    let command = self.list_command(line);
                    self.ask(
                        Request::Exec(command),
                        Pending::Listing { response, path, line, after },
                    )
                },
                _ => self.place_told(None, None, BTreeMap::new(), response, after),
            },
            Err(error) => self.fail(error),
        }
    }

    /// The command that lists the source around a line.
    fn list_command(&self, line: u64) -> (command: String)
        requires
            plan::last_shown(self@, line) <= u64::MAX,
        ensures
            command@ == plan::list_command(self@, line),
    {
        let before: u64 = self.config.display_lines_before_current as u64;
        let after: u64 = self.config.display_lines_after_current as u64;
        let start: u64 = if line > before && line - before > 1 {
            line - before
        } else {
            1
        };
        let end: u64 = line + after;
        let start = scan::text_of(number::write_u64(start).as_slice());
        let end = scan::text_of(number::write_u64(end).as_slice());
        "list ".to_string().concat(start.as_str()).concat(",").concat(end.as_str())
    }

    /// The source around the place of the program is known.
    fn listing_told(
        &mut self,
        reply: Reply,
        response: DebuggerResponse,
        path: String,
        line: u64,
        after: AfterPlace,
    ) -> (step: Step)
        requires
            old(self).is_ready(),
            is_proper(old(self)@.config, response@),
        ensures
            final(self).follows(
                step,
                plan::listing_told(
                    old(self)@,
                    path@,
                    line,
                    place_goal(old(self)@, response@, after),
                )(reply),
            ),
            final(self)@.config == old(self)@.config,
    {
        match reply.into_outcome() {
            Ok(output) => {
                let code = gdb_output::parse_listing(output.as_str());
                let path = gdb_output::resolve_source_path(
                    &self.config.path_rules,
                    self.config.codebase_dir.as_str(),
                    path,
                );
                self.place_told(Some(path), Some(line), code, response, after)
            },
            Err(error) => self.fail(error),
        }
    }

    /// Gives source lines the form that the configuration asks for.
    fn transform_current_code(&self, lines: BTreeMap<u64, String>) -> (code: CurrentCodePayload)
        ensures
            code@ == plan::shown_code(self@, protocol::numbered(lines@)),
    {
        if self.config.display_join_current_code {
            CurrentCodePayload::Joined(gdb_output::joined_code(&lines))
        } else {
            CurrentCodePayload::Lines(lines)
        }
    }

    /// The place of the program and the source around it are known.
    fn place_told(
        &mut self,
        path: Option<String>,
        line: Option<u64>,
        code: BTreeMap<u64, String>,
        response: DebuggerResponse,
        after: AfterPlace,
    ) -> (step: Step)
        requires
            old(self).is_ready(),
            is_proper(old(self)@.config, response@),
            path matches Some(path) ==> is_rooted(old(self)@.config, path@),
        ensures
            final(self).follows(
                step,
                place_goal(old(self)@, response@, after)(
                    Place {
                        path: text::optional(path),
                        line,
                        code: if code@.dom().is_empty() {
                            None
                        } else {
                            Some(protocol::numbered(code@))
                        },
                    },
                ),
            ),
            final(self)@.config == old(self)@.config,
    {
        let ghost place = Place {
            path: text::optional(path),
            line,
            code: if code@.dom().is_empty() {
                None
            } else {
                Some(protocol::numbered(code@))
            },
        };
        let ghost told = response@;
        let mut response = response;
        response.current_code_path = path;
        response.current_code_line = match line {
            Some(line) => if line <= 0x7fff_ffff_ffff_ffff {
                Some(line as i64)
            } else {
                None
            },
            None => None,
        };
        response.current_code = if code.is_empty() {
            None
        } else {
            Some(self.transform_current_code(code))
        };
        assert(response@ =~= plan::with_place(self@, told, place));
        match after {
            AfterPlace::Snapshot => self.enrich_crash_response(response),
            AfterPlace::Show => {
                if response.current_code_path.is_none() && response.current_code_line.is_none()
                    && response.current_code.is_none() && response.error.as_str().is_empty() {
                    response.error = "no current frame".to_string();
                }
                self.enrich_crash_response(response)
            },
        }
    }

    /// Asks for the values of the watched variables, one by one.
    fn collect_variable_list(
        &mut self,
        response: DebuggerResponse,
        list: Vec<(String, String)>,
        after: AfterVariables,
    ) -> (step: Step)
        requires
            old(self).is_ready(),
            is_proper(old(self)@.config, response@),
            outcomes::are_watched(old(self)@, protocol::pairs(list@)),
        ensures
            final(self).follows(
                step,
                plan::collect_variables(
                    old(self)@,
                    protocol::pairs(list@),
                    variables_goal(old(self)@, response@, after),
                ),
            ),
            final(self)@.config == old(self)@.config,
    {
        if list.len() < self.watched_variables.len() && list.len()
            < self.config.display_variable_list {
            let command = "print ".to_string().concat(
                self.watched_variables[list.len()].as_str(),
            );
            self.ask(Request::Exec(command), Pending::Variable { response, list, after })
        } else {
            self.variables_told(response, list, after)
        }
    }

    /// The value of the next variable is known.
    fn variable_told(
        &mut self,
        reply: Reply,
        response: DebuggerResponse,
        list: Vec<(String, String)>,
        after: AfterVariables,
    ) -> (step: Step)
        requires
            old(self).is_ready(),
            is_proper(old(self)@.config, response@),
            outcomes::are_watched(old(self)@, protocol::pairs(list@)),
            list@.len() < plan::shown_variables(old(self)@),
        ensures
            final(self).follows(
                step,
                plan::variable_told(
                    old(self)@,
                    protocol::pairs(list@),
                    variables_goal(old(self)@, response@, after),
                )(reply),
            ),
            final(self)@.config == old(self)@.config,
    {
        let ghost known = list@;
        let ghost value = plan::variable_value(reply);
        let mut list = list;
        let name = self.watched_variables[list.len()].clone();
        let shown = match reply.into_outcome() {
            Ok(output) => if gdb_output::looks_like_gdb_error(output.as_str()) {
                let details = match gdb_output::normalized_command_output(output.as_str()) {
                    Some(details) => details,
                    None => "gdb print failed".to_string(),
                };
                "<error: ".to_string().concat(details.as_str()).concat(">")
            } else {
                gdb_output::normalize_gdb_value(output.as_str())
            },
            Err(error) => "<error: ".to_string().concat(error.as_str()).concat(">"),
        };
        list.push((name, shown));
        assert(protocol::pairs(list@) =~= protocol::pairs(known).push((name@, value)));
        self.collect_variable_list(response, list, after)
    }

    /// The values of the variables are known.
    fn variables_told(
        &mut self,
        response: DebuggerResponse,
        list: Vec<(String, String)>,
        after: AfterVariables,
    ) -> (step: Step)
        requires
            old(self).is_ready(),
            is_proper(old(self)@.config, response@),
            outcomes::are_watched(old(self)@, protocol::pairs(list@)),
        ensures
            final(self).follows(
                step,
                variables_goal(old(self)@, response@, after)(protocol::pairs(list@)),
            ),
            final(self)@.config == old(self)@.config,
    {
        let mut response = response;
        response.variable_list = Some(list);
        match after {
            AfterVariables::Snapshot => self.collect_backtrace(
                true,
                response,
                AfterFrames::Snapshot,
            ),
            AfterVariables::Show => self.enrich_crash_response(response),
        }
    }

    /// Shows variables, frames and source.
    fn full_snapshot_response(&mut self) -> (step: Step)
        requires
            old(self).is_ready(),
        ensures
            final(self).follows(step, plan::snapshot(old(self)@)),
            final(self)@.config == old(self)@.config,
    {
        let response = self.base_response();
        let list: Vec<(String, String)> = Vec::new();
        assert(protocol::pairs(list@) =~= Seq::empty());
        self.collect_variable_list(response, list, AfterVariables::Snapshot)
    }

    /// Stops the program that runs, before anything else is asked of gdb.
    fn resync(&mut self, after: AfterResync) -> (step: Step)
        requires
            old(self).is_ready(),
        ensures
            final(self).follows(step, plan::resync(old(self)@, resync_goal(after))),
            final(self)@.config == old(self)@.config,
    {
        if self.debugger_state == DebuggerState::Running {
            self.ask(Request::Interrupt, Pending::ResyncInterrupt(after))
        } else {
            self.resynced(after)
        }
    }

    /// The program that runs was interrupted, or could not be.
    fn resync_interrupted(&mut self, after: AfterResync) -> (step: Step)
        requires
            old(self)@.watched.no_duplicates(),
        ensures
            final(self).follows(
                step,
                Plan::Ask {
                    request: RequestView::Exec("printf \"\""@),
                    next: plan::resync_settled(old(self)@, resync_goal(after)),
                },
            ),
            final(self)@.config == old(self)@.config,
    {
        self.ask(
            Request::Exec("printf \"\"".to_string()),
            Pending::ResyncPrompt(after),
        )
    }

    /// The prompt is back, or could not be had.
    fn resync_settled(&mut self, after: AfterResync) -> (step: Step)
        requires
            old(self).is_ready(),
        ensures
            final(self).follows(
                step,
                resync_goal(after)(
                    Session { state: DebuggerState::StoppedAtStepping, ..old(self)@ },
                ),
            ),
            final(self)@.config == old(self)@.config,
    {
        self.debugger_state = DebuggerState::StoppedAtStepping;
        self.resynced(after)
    }

    /// gdb listens.
    fn resynced(&mut self, after: AfterResync) -> (step: Step)
        requires
            old(self).is_ready(),
        ensures
            final(self).follows(step, resync_goal(after)(old(self)@)),
            final(self)@.config == old(self)@.config,
    {
        match after {
            AfterResync::Command { command, fallback, include_output, after } => self.send_command(
                command,
                fallback,
                include_output,
                after,
            ),
            AfterResync::ChangeBreakpoints { action, filename, linenumber } => self.ask(
                Request::Exec("info breakpoints".to_string()),
                Pending::BreakpointTable { action, filename, linenumber },
            ),
            AfterResync::ListBreakpoints => {
                self.recover_error_state_without_restart();
                self.ask(
                    Request::Exec("info breakpoints".to_string()),
                    Pending::BreakpointListing,
                )
            },
            AfterResync::ShowVariables => {
                self.recover_error_state_without_restart();
                let response = self.base_response();
                let list: Vec<(String, String)> = Vec::new();
                assert(protocol::pairs(list@) =~= Seq::empty());
                self.collect_variable_list(response, list, AfterVariables::Show)
            },
            AfterResync::ShowCurrentCode => {
                self.recover_error_state_without_restart();
                let response = self.base_response();
                self.collect_current_code(response, AfterPlace::Show)
            },
            AfterResync::Kill => self.ask(Request::Exec("kill".to_string()), Pending::Kill),
        }
    }

    /// Executes a command, if gdb was started.
    fn execute_command_internal(
        &mut self,
        command: String,
        fallback: Option<DebuggerState>,
        include_output: bool,
        after: AfterCommand,
    ) -> (step: Step)
        requires
            old(self).is_ready(),
        ensures
            final(self).follows(
                step,
                plan::run_command(
                    old(self)@,
                    command@,
                    fallback,
                    include_output,
                    command_goal(after),
                ),
            ),
            final(self)@.config == old(self)@.config,
    {
        if self.executable_path.is_none() {
            // A command never starts gdb.
            let response = self.base_response();
            self.command_told(response, after)
        } else if scan::same(
            scan::chars_of(command.as_str()).as_slice(),
            scan::chars_of("continue").as_slice(),
        ) {
            self.send_command(command, fallback, include_output, after)
        } else {
            self.resync(AfterResync::Command { command, fallback, include_output, after })
        }
    }

    /// Sends a command to gdb.
    fn send_command(
        &mut self,
        command: String,
        fallback: Option<DebuggerState>,
        include_output: bool,
        after: AfterCommand,
    ) -> (step: Step)
        requires
            old(self)@.watched.no_duplicates(),
        ensures
            final(self).follows(
                step,
                plan::send_command(
                    old(self)@,
                    command@,
                    fallback,
                    include_output,
                    command_goal(after),
                ),
            ),
            final(self)@.config == old(self)@.config,
    {
        self.ask(Request::Exec(command), Pending::Command { fallback, include_output, after })
    }

    /// A command was executed, or failed.
    fn command_replied(
        &mut self,
        reply: Reply,
        fallback: Option<DebuggerState>,
        include_output: bool,
        after: AfterCommand,
    ) -> (step: Step)
        requires
            old(self).is_ready(),
        ensures
            final(self).follows(
                step,
                plan::command_replied(
                    old(self)@,
                    fallback,
                    include_output,
                    command_goal(after),
                )(reply),
            ),
            final(self)@.config == old(self)@.config,
    {
        match reply.into_outcome() {
            Ok(output) => {
                let previous_state = self.debugger_state;
                self.update_state_from_output(output.as_str(), fallback);
                let shown = gdb_output::normalized_command_output(output.as_str());
                if self.debugger_state != DebuggerState::Error {
                    self.last_error = String::new();
                } else if previous_state == DebuggerState::Error
                    && !gdb_output::looks_like_gdb_error(output.as_str()) {
                    // A command that was not refused ends an old error.
                    let state = self.recoverable_base_state();
                    self.settle(state);
                } else {
                    self.last_error = match &shown {
                        Some(shown) => shown.clone(),
                        None => "gdb command failed".to_string(),
                    };
                }
                assert(self@ =~= plan::after_output(old(self)@, output@, fallback));
                let mut response = self.base_response();
                if include_output {
                    response.command_output = shown;
                }
                self.command_told(response, after)
            },
            Err(error) => {
                self.debugger_state = DebuggerState::Error;
                self.last_error = error;
                let response = self.base_response();
                self.command_told(response, after)
            },
        }
    }

    /// The outcome of a command is known.
    fn command_told(&mut self, response: DebuggerResponse, after: AfterCommand) -> (step: Step)
        requires
            old(self).is_ready(),
            is_proper(old(self)@.config, response@),
        ensures
            final(self).follows(step, command_goal(after)(old(self)@, response@)),
            final(self)@.config == old(self)@.config,
    {
        match after {
            AfterCommand::Tell => self.enrich_crash_response(response),
            AfterCommand::TellSoftly { previous } => {
                if response.debugger_state == DebuggerState::Error {
                    let low = scan::lowered(scan::chars_of(response.error.as_str()).as_slice());
                    let low = scan::text_of(low.as_slice());
                    if gdb_output::is_recoverable_command_error(low.as_str()) {
                        return self.forgive(response, previous);
                    }
                }
                self.enrich_crash_response(response)
            },
            AfterCommand::TellPrint { previous } => {
                if response.debugger_state == DebuggerState::Error {
                    self.forgive(response, previous)
                } else {
                    self.enrich_crash_response(response)
                }
            },
            AfterCommand::TellRegisters => {
                let none = match &response.command_output {
                    Some(output) => scan::has(
                        scan::lowered(scan::chars_of(output.as_str()).as_slice()).as_slice(),
                        "no registers",
                    ),
                    None => scan::has(
                        scan::lowered(scan::chars_of("").as_slice()).as_slice(),
                        "no registers",
                    ),
                };
                proof {
                    reveal_strlit("");
                    assert(""@ =~= Seq::empty());
                }
                if none {
                    self.settle(DebuggerState::Attached);
                    let mut adjusted = self.base_response();
                    adjusted.command_output = response.command_output;
                    self.enrich_crash_response(adjusted)
                } else {
                    self.enrich_crash_response(response)
                }
            },
            AfterCommand::ShowBreakpoint => {
                if response.debugger_state == DebuggerState::StoppedAtBreakpoint {
                    self.full_snapshot_response()
                } else {
                    self.enrich_crash_response(response)
                }
            },
            AfterCommand::ShowRest => {
                match response.debugger_state {
                    DebuggerState::Attached
                    | DebuggerState::GdbServerAttached
                    | DebuggerState::StoppedAtBreakpoint
                    | DebuggerState::StoppedAtStepping => self.full_snapshot_response(),
                    _ => self.enrich_crash_response(response),
                }
            },
        }
    }

    /// Tells an error that says nothing against the session, and forgets it.
    fn forgive(&mut self, response: DebuggerResponse, previous: DebuggerState) -> (step: Step)
        requires
            old(self).is_ready(),
            is_proper(old(self)@.config, response@),
        ensures
            final(self).follows(step, plan::forgive(old(self)@, response@, previous)),
            final(self)@.config == old(self)@.config,
    {
        let state = if previous == DebuggerState::Error {
            self.recoverable_base_state()
        } else {
            previous
        };
        self.settle(state);
        let mut soft = self.base_response();
        soft.error = response.error;
        soft.command_output = response.command_output;
        self.enrich_crash_response(soft)
    }

    /// Kills the gdbserver of the session, if there is one.
    fn stop_gdbserver_process(&mut self, after: AfterGdbServer) -> (step: Step)
        requires
            old(self).is_ready(),
        ensures
            final(self).follows(step, plan::stop_gdbserver(old(self)@, gdbserver_goal(after))),
            final(self)@.config == old(self)@.config,
    {
        if self.gdbserver_running {
            self.ask(Request::KillGdbServer, Pending::GdbServerKill(after))
        } else {
            self.gdbserver_gone(after)
        }
    }

    /// The gdbserver of the session was killed.
    fn gdbserver_stopped(&mut self, after: AfterGdbServer) -> (step: Step)
        requires
            old(self).is_ready(),
        ensures
            final(self).follows(
                step,
                gdbserver_goal(after)(plan::without_gdbserver(old(self)@)),
            ),
            final(self)@.config == old(self)@.config,
    {
        self.gdbserver_running = false;
        self.gdbserver_gone(after)
    }

    /// No gdbserver runs.
    fn gdbserver_gone(&mut self, after: AfterGdbServer) -> (step: Step)
        requires
            old(self).is_ready(),
        ensures
            final(self).follows(step, gdbserver_goal(after)(old(self)@)),
            final(self)@.config == old(self)@.config,
    {
        match after {
            AfterGdbServer::Spawn { endpoint, pid } => self.ask(
                Request::SpawnGdbServer { endpoint, pid },
                Pending::GdbServerSpawn,
            ),
            AfterGdbServer::Stop => self.ask(Request::Stop, Pending::Stop),
            AfterGdbServer::Quit => {
                if self.debugger_state == DebuggerState::Running {
                    self.ask(Request::Interrupt, Pending::QuitInterrupt)
                } else {
                    self.send_quit()
                }
            },
        }
    }

    /// Tells gdb to quit.
    fn send_quit(&mut self) -> (step: Step)
        requires
            old(self)@.watched.no_duplicates(),
        ensures
            final(self).follows(step, plan::send_quit(old(self)@)),
            final(self)@.config == old(self)@.config,
    {
        self.ask(Request::Exec("quit".to_string()), Pending::Quit)
    }

    /// The gdbserver was started, or could not be.
    fn gdbserver_spawned(&mut self, reply: Reply) -> (step: Step)
        requires
            old(self).is_ready(),
        ensures
            final(self).follows(step, plan::gdbserver_spawned(old(self)@)(reply)),
            final(self)@.config == old(self)@.config,
    {
        match reply.into_outcome() {
            Ok(_) => self.ask(
                Request::ProbeGdbServer { delay_ms: 100 },
                Pending::GdbServerProbe,
            ),
            Err(error) => self.trouble(
                DebuggerState::GdbServerFailedToAttach,
                "failed to start gdbserver: ".to_string().concat(error.as_str()),
            ),
        }
    }

    /// The gdbserver was looked at a moment after its start.
    fn gdbserver_probed(&mut self, reply: Reply) -> (step: Step)
        requires
            old(self).is_ready(),
        ensures
            final(self).follows(step, plan::gdbserver_probed(old(self)@)(reply)),
            final(self)@.config == old(self)@.config,
    {
        match reply {
            Reply::Output(_) => {
                self.gdbserver_running = true;
                self.settle(DebuggerState::GdbServerAttached);
                self.answer()
            },
            Reply::Exited(status) => self.trouble(
                DebuggerState::GdbServerFailedToAttach,
                "gdbserver exited early with status: ".to_string().concat(status.as_str()),
            ),
            Reply::Failed(error) => self.fail(error),
        }
    }

    /// gdb was started, or could not be.
    fn attach_replied(&mut self, reply: Reply, path: String) -> (step: Step)
        requires
            old(self).is_ready(),
        ensures
            final(self).follows(step, plan::attach_replied(old(self)@, path@)(reply)),
            final(self)@.config == old(self)@.config,
    {
        match reply.into_outcome() {
            Ok(_) => {
                self.executable_path = Some(path);
                self.settle(DebuggerState::Attached);
                self.answer()
            },
            Err(error) => self.trouble(DebuggerState::FailedToAttach, error),
        }
    }

    /// gdb was started for a remote target, or could not be.
    fn remote_started(&mut self, reply: Reply, command: String) -> (step: Step)
        requires
            old(self).is_ready(),
        ensures
            final(self).follows(step, plan::remote_started(old(self)@, command@)(reply)),
            final(self)@.config == old(self)@.config,
    {
        match reply.into_outcome() {
            Ok(_) => {
                self.executable_path = Some(self.config.executable_path.clone());
                self.settle(DebuggerState::Attached);
                self.execute_command_internal(
                    command,
                    Some(DebuggerState::Attached),
                    false,
                    AfterCommand::Tell,
                )
            },
            Err(error) => self.trouble(DebuggerState::FailedToAttach, error),
        }
    }

    /// The numbers of the breakpoints at a location, by the table of
    /// breakpoints.
    fn resolve_breakpoint_ids_by_location(
        &self,
        table: &str,
        filename: &str,
        linenumber: u64,
    ) -> (ids: Vec<String>)
        ensures
            protocol::texts(ids@) == gdb_output::breakpoint_ids(
                text::lines(table@),
                self@.config.separator,
                self@.config.codebase_dir,
                filename@,
                linenumber,
            ),
    {
        gdb_output::breakpoint_ids_at(
            table,
            &self.config.path_rules,
            self.config.codebase_dir.as_str(),
            filename,
            linenumber,
        )
    }

    /// The table of breakpoints is known.
    fn breakpoints_resolved(
        &mut self,
        reply: Reply,
        action: BreakpointAction,
        filename: String,
        linenumber: u64,
    ) -> (step: Step)
        requires
            old(self).is_ready(),
        ensures
            final(self).follows(
                step,
                plan::breakpoints_resolved(old(self)@, action, filename@, linenumber)(reply),
            ),
            final(self)@.config == old(self)@.config,
    {
        match reply.into_outcome() {
            Ok(table) => {
                let ids = self.resolve_breakpoint_ids_by_location(
                    table.as_str(),
                    filename.as_str(),
                    linenumber,
                );
                if ids.len() == 0 {
                    let place = at_location(filename, linenumber);
                    self.trouble(
                        DebuggerState::Error,
                        "No breakpoint at ".to_string().concat(place.as_str()).concat("."),
                    )
                } else {
                    assert(protocol::texts(ids@).skip(0) =~= protocol::texts(ids@));
                    self.change_breakpoints(action, ids, 0)
                }
            },
            Err(error) => self.fail(error),
        }
    }

    /// Changes breakpoints, one by one.
    fn change_breakpoints(
        &mut self,
        action: BreakpointAction,
        ids: Vec<String>,
        done: usize,
    ) -> (step: Step)
        requires
            old(self).is_ready(),
            done <= ids@.len(),
        ensures
            final(self).follows(
                step,
                plan::change_breakpoints(
                    old(self)@,
                    action,
                    protocol::texts(ids@).skip(done as int),
                ),
            ),
            final(self)@.config == old(self)@.config,
    {
        if done == ids.len() {
            self.recover_error_state_without_restart();
            self.answer()
        } else {
            let command = action.command_for_id(ids[done].as_str());
            assert(protocol::texts(ids@).skip(done as int).first() == ids@[done as int]@);
            self.ask(Request::Exec(command), Pending::BreakpointChange { action, ids, done })
        }
    }

    /// A breakpoint was changed, or could not be.
    fn breakpoint_changed(
        &mut self,
        reply: Reply,
        action: BreakpointAction,
        ids: Vec<String>,
        done: usize,
    ) -> (step: Step)
        requires
            old(self).is_ready(),
            done < ids@.len(),
        ensures
            final(self).follows(
                step,
                plan::breakpoint_changed(
                    old(self)@,
                    action,
                    protocol::texts(ids@).skip(done as int),
                )(reply),
            ),
            final(self)@.config == old(self)@.config,
    {
        match reply.into_outcome() {
            Ok(output) => {
                self.update_state_from_output(output.as_str(), None);
                if self.debugger_state == DebuggerState::Error {
                    let error = match gdb_output::normalized_command_output(output.as_str()) {
                        Some(shown) => shown,
                        None => "gdb breakpoint operation failed".to_string(),
                    };
                    self.trouble(DebuggerState::Error, error)
                } else {
                    assert(protocol::texts(ids@).skip(done as int).drop_first()
                        =~= protocol::texts(ids@).skip(done + 1));
                    assert(done < ids.len());
                    self.change_breakpoints(action, ids, done + 1)
                }
            },
            Err(error) => self.fail(error),
        }
    }

    /// The table of breakpoints is known.
    fn breakpoints_listed(&mut self, reply: Reply) -> (step: Step)
        requires
            old(self).is_ready(),
        ensures
            final(self).follows(step, plan::breakpoints_listed(old(self)@)(reply)),
            final(self)@.config == old(self)@.config,
    {
        match reply.into_outcome() {
            Ok(output) => {
                let mut response = self.base_response();
                response.breakpoints = Some(gdb_output::breakpoint_rows(output.as_str()));
                self.enrich_crash_response(response)
            },
            Err(error) => self.trouble(DebuggerState::Error, error),
        }
    }

    /// The program was interrupted, or could not be.
    fn interrupted(&mut self, reply: Reply) -> (step: Step)
        requires
            old(self).is_ready(),
        ensures
            final(self).follows(step, plan::interrupted(old(self)@)(reply)),
            final(self)@.config == old(self)@.config,
    {
        match reply.into_outcome() {
            Ok(_) => self.ask(
                Request::Exec("printf \"\"".to_string()),
                Pending::InterruptPrompt,
            ),
            Err(error) => self.trouble(DebuggerState::Error, error),
        }
    }

    /// The prompt is back, or could not be had.
    fn interrupt_settled(&mut self, reply: Reply) -> (step: Step)
        requires
            old(self).is_ready(),
        ensures
            final(self).follows(step, plan::interrupt_settled(old(self)@)(reply)),
            final(self)@.config == old(self)@.config,
    {
        match reply.into_outcome() {
            Ok(_) => {
                self.settle(DebuggerState::StoppedAtStepping);
                self.full_snapshot_response()
            },
            Err(error) => self.trouble(DebuggerState::Error, error),
        }
    }

    /// Forgets what the session was attached to, and tells so.
    fn detach(&mut self) -> (step: Step)
        requires
            old(self).is_ready(),
        ensures
            final(self).follows(step, plan::answer(plan::detached(old(self)@))),
            final(self)@.config == old(self)@.config,
    {
        self.settle(DebuggerState::NotAttached);
        self.executable_path = None;
        self.watched_variables = Vec::new();
        assert(self@.watched =~= Seq::empty());
        self.answer()
    }

    /// gdb was stopped after it was told to quit.
    fn quit_stopped(&mut self, reply: Reply, quit: Result<String, String>) -> (step: Step)
        requires
            old(self).is_ready(),
        ensures
            final(self).follows(step, plan::quit_stopped(old(self)@, view_of(quit))(reply)),
            final(self)@.config == old(self)@.config,
    {
        match (quit, reply.into_outcome()) {
            (Ok(_), Ok(_)) => self.detach(),
            (Err(quit), Ok(_)) => self.trouble(
                DebuggerState::Error,
                "quit failed: ".to_string().concat(quit.as_str()),
            ),
            (Ok(_), Err(stop)) => self.trouble(
                DebuggerState::Error,
                "stop failed: ".to_string().concat(stop.as_str()),
            ),
            (Err(quit), Err(stop)) => {
                let stop = "stop failed: ".to_string().concat(stop.as_str());
                self.trouble(
                    DebuggerState::Error,
                    "quit failed: ".to_string().concat(quit.as_str()).concat("; ").concat(
                        stop.as_str(),
                    ),
                )
            },
        }
    }

    /// gdb was told to kill the program.
    fn kill_replied(&mut self, reply: Reply) -> (step: Step)
        requires
            old(self).is_ready(),
        ensures
            final(self).follows(step, plan::kill_replied(old(self)@)(reply)),
            final(self)@.config == old(self)@.config,
    {
        match reply.into_outcome() {
            Ok(output) => {
                let low = scan::lowered(scan::chars_of(output.as_str()).as_slice());
                if scan::has(low.as_slice(), "kill the program being debugged") {
                    self.ask(Request::Exec("y".to_string()), Pending::KillConfirm { output })
                } else {
                    self.killed(output)
                }
            },
            Err(error) => self.trouble(DebuggerState::Error, error),
        }
    }

    /// The question whether to kill the program was answered.
    fn kill_confirmed(&mut self, reply: Reply, output: String) -> (step: Step)
        requires
            old(self).is_ready(),
        ensures
            final(self).follows(step, plan::kill_confirmed(old(self)@, output@)(reply)),
            final(self)@.config == old(self)@.config,
    {
        match reply.into_outcome() {
            Ok(confirmed) => {
                let mut merged = output;
                merged.push('\n');
                merged.append(confirmed.as_str());
                self.killed(merged)
            },
            Err(error) => self.trouble(DebuggerState::Error, error),
        }
    }

    /// gdb has said what became of the program.
    fn killed(&mut self, output: String) -> (step: Step)
        requires
            old(self).is_ready(),
        ensures
            final(self).follows(step, plan::answer(plan::killed(old(self)@, output@))),
            final(self)@.config == old(self)@.config,
    {
        let lowered = scan::lowered(scan::chars_of(output.as_str()).as_slice());
        let low = lowered.as_slice();
        self.update_state_from_output(output.as_str(), None);
        let state = if scan::has(low, "the program is not being run") || scan::has(
            low,
            "no inferior",
        ) {
            DebuggerState::NotAttached
        } else if scan::has(low, "killed") || scan::has(low, "sigkill") || scan::has(
            low,
            "terminated with signal",
        ) {
            DebuggerState::SigKill
        } else {
            self.debugger_state
        };
        self.settle(state);
        self.answer()
    }

    /// Goes on with the reply to what was asked for.
    pub fn resume(&mut self, reply: Reply) -> (step: Step)
        requires
            old(self).wf(),
            old(self).is_waiting(),
            old(self).accepts(reply),
        ensures
            final(self).follows(step, old(self).awaiting()(reply)),
            final(self)@.config == old(self)@.config,
    {
        let mut pending = Pending::Nothing;
        std::mem::swap(&mut pending, &mut self.pending);
        match pending {
            Pending::Nothing => self.answer(),
            Pending::ResyncInterrupt(after) => self.resync_interrupted(after),
            Pending::ResyncPrompt(after) => self.resync_settled(after),
            Pending::Command { fallback, include_output, after } => self.command_replied(
                reply,
                fallback,
                include_output,
                after,
            ),
            Pending::GdbServerKill(after) => self.gdbserver_stopped(after),
            Pending::GdbServerSpawn => self.gdbserver_spawned(reply),
            Pending::GdbServerProbe => self.gdbserver_probed(reply),
            Pending::Attach { path } => self.attach_replied(reply, path),
            Pending::RemoteStart { command } => self.remote_started(reply, command),
            Pending::BreakpointTable { action, filename, linenumber } => self.breakpoints_resolved(
                reply,
                action,
                filename,
                linenumber,
            ),
            Pending::BreakpointChange { action, ids, done } => self.breakpoint_changed(
                reply,
                action,
                ids,
                done,
            ),
            Pending::BreakpointListing => self.breakpoints_listed(reply),
            Pending::Variable { response, list, after } => self.variable_told(
                reply,
                response,
                list,
                after,
            ),
            Pending::Backtrace { full, response, after } => self.backtrace_told(
                reply,
                full,
                response,
                after,
            ),
            Pending::PlainBacktrace { response, after } => self.plain_backtrace_told(
                reply,
                response,
                after,
            ),
            Pending::Frame { response, after } => self.frame_told(reply, response, after),
            Pending::Listing { response, path, line, after } => self.listing_told(
                reply,
                response,
                path,
                line,
                after,
            ),
            Pending::Interrupt => self.interrupted(reply),
            Pending::InterruptPrompt => self.interrupt_settled(reply),
            Pending::QuitInterrupt => self.send_quit(),
            Pending::Quit => {
                let quit = reply.into_outcome();
                assert(view_of(quit) == operation::outcome(reply));
                self.ask(Request::Stop, Pending::QuitStop { quit })
            },
            Pending::QuitStop { quit } => self.quit_stopped(reply, quit),
            Pending::Stop => self.detach(),
            Pending::Kill => self.kill_replied(reply),
            Pending::KillConfirm { output } => self.kill_confirmed(reply, output),
        }
    }

    /// Starts gdb on an executable.
    fn execute_attach(&mut self, executable_path: String) -> (step: Step)
        requires
            old(self).is_ready(),
        ensures
            final(self).follows(step, plan::execute_attach(old(self)@, executable_path@)),
            final(self)@.config == old(self)@.config,
    {
        if !self.config.path_rules.is_absolute(executable_path.as_str()) {
            return self.trouble(
                DebuggerState::FailedToAttach,
                "executable_path must be absolute".to_string(),
            );
        }
        self.ask(
            Request::Start(executable_path.clone()),
            Pending::Attach { path: executable_path },
        )
    }

    /// Attaches a gdbserver to a process.
    fn execute_gdbserver(&mut self, ip: String, port: u16, pid: i64) -> (step: Step)
        requires
            old(self).is_ready(),
        ensures
            final(self).follows(step, plan::execute_gdbserver(old(self)@, ip@, port, pid)),
            final(self)@.config == old(self)@.config,
    {
        if pid <= 0 {
            return self.trouble(
                DebuggerState::GdbServerFailedToAttach,
                "pid must be > 0".to_string(),
            );
        }
        let endpoint = endpoint(ip, port);
        let pid = scan::text_of(number::write_u64(pid as u64).as_slice());
        self.stop_gdbserver_process(AfterGdbServer::Spawn { endpoint, pid })
    }

    /// Connects gdb to a remote target.
    fn execute_target_remote(&mut self, ip: String, port: u16) -> (step: Step)
        requires
            old(self).is_ready(),
        ensures
            final(self).follows(step, plan::execute_target_remote(old(self)@, ip@, port)),
            final(self)@.config == old(self)@.config,
    {
        let command = "target remote ".to_string().concat(endpoint(ip, port).as_str());
        if self.executable_path.is_none() {
            // A remote target still needs a gdb here.
            let path = self.config.executable_path.clone();
            self.ask(Request::Start(path), Pending::RemoteStart { command })
        } else {
            self.execute_command_internal(
                command,
                Some(DebuggerState::Attached),
                false,
                AfterCommand::Tell,
            )
        }
    }

    /// Executes a command whose soft errors are forgotten.
    fn execute_recoverable_command_with_output(&mut self, command: String) -> (step: Step)
        requires
            old(self).is_ready(),
        ensures
            final(self).follows(step, plan::execute_softly(old(self)@, command@)),
            final(self)@.config == old(self)@.config,
    {
        let previous = self.debugger_state;
        self.execute_command_internal(
            command,
            None,
            true,
            AfterCommand::TellSoftly { previous },
        )
    }

    /// Executes a command of which only the state is told.
    fn execute_command(&mut self, command: String) -> (step: Step)
        requires
            old(self).is_ready(),
        ensures
            final(self).follows(step, plan::execute_quietly(old(self)@, command@)),
            final(self)@.config == old(self)@.config,
    {
        self.execute_command_internal(command, None, false, AfterCommand::Tell)
    }

    /// Prints a variable. That it cannot be printed is told, and forgotten.
    fn execute_print(&mut self, var: &str) -> (step: Step)
        requires
            old(self).is_ready(),
        ensures
            final(self).follows(step, plan::execute_print(old(self)@, var@)),
            final(self)@.config == old(self)@.config,
    {
        let previous = self.debugger_state;
        self.execute_command_internal(
            "print ".to_string().concat(var),
            None,
            true,
            AfterCommand::TellPrint { previous },
        )
    }

    /// Tells the registers, if there is a program.
    fn execute_info_regs(&mut self) -> (step: Step)
        requires
            old(self).is_ready(),
        ensures
            final(self).follows(step, plan::execute_info_regs(old(self)@)),
            final(self)@.config == old(self)@.config,
    {
        if is_gone(self.debugger_state) {
            return self.answer();
        }
        self.execute_command_internal(
            "info all-registers".to_string(),
            None,
            true,
            AfterCommand::TellRegisters,
        )
    }

    /// Enables or disables the breakpoints at a location.
    fn execute_breakpoint_action_by_location(
        &mut self,
        action: BreakpointAction,
        filename: String,
        linenumber: u64,
    ) -> (step: Step)
        requires
            old(self).is_ready(),
        ensures
            final(self).follows(
                step,
                plan::execute_breakpoint_action(old(self)@, action, filename@, linenumber),
            ),
            final(self)@.config == old(self)@.config,
    {
        if self.executable_path.is_none() {
            return self.answer();
        }
        self.resync(AfterResync::ChangeBreakpoints { action, filename, linenumber })
    }

    /// Runs the program.
    fn execute_run(&mut self) -> (step: Step)
        requires
            old(self).is_ready(),
        ensures
            final(self).follows(step, plan::execute_run(old(self)@)),
            final(self)@.config == old(self)@.config,
    {
        self.execute_command_internal(
            "run".to_string(),
            Some(DebuggerState::Running),
            false,
            AfterCommand::ShowBreakpoint,
        )
    }

    /// Lets the program go on, and shows it where it comes to rest.
    fn execute_with_full_snapshot(
        &mut self,
        command: String,
        fallback_state: DebuggerState,
    ) -> (step: Step)
        requires
            old(self).is_ready(),
        ensures
            final(self).follows(
                step,
                plan::execute_with_full_snapshot(old(self)@, command@, fallback_state),
            ),
            final(self)@.config == old(self)@.config,
    {
        if is_off(self.debugger_state) {
            return self.answer();
        }
        self.execute_command_internal(
            command,
            Some(fallback_state),
            false,
            AfterCommand::ShowRest,
        )
    }

    /// Interrupts the program and shows it.
    fn execute_interrupt(&mut self) -> (step: Step)
        requires
            old(self).is_ready(),
        ensures
            final(self).follows(step, plan::execute_interrupt(old(self)@)),
            final(self)@.config == old(self)@.config,
    {
        if is_gone(self.debugger_state) {
            return self.answer();
        }
        self.ask(Request::Interrupt, Pending::Interrupt)
    }

    /// Shows the watched variables.
    fn variable_list_response(&mut self) -> (step: Step)
        requires
            old(self).is_ready(),
        ensures
            final(self).follows(step, plan::show_variables(old(self)@)),
            final(self)@.config == old(self)@.config,
    {
        if is_gone(self.debugger_state) {
            let mut response = self.base_response();
            let list: Vec<(String, String)> = Vec::new();
            assert(protocol::pairs(list@) =~= Seq::empty());
            response.variable_list = Some(list);
            return self.enrich_crash_response(response);
        }
        self.resync(AfterResync::ShowVariables)
    }

    /// Shows the frames.
    fn full_backtrace_response(&mut self) -> (step: Step)
        requires
            old(self).is_ready(),
        ensures
            final(self).follows(step, plan::show_backtrace(old(self)@)),
            final(self)@.config == old(self)@.config,
    {
        if is_off(self.debugger_state) {
            return self.answer();
        }
        self.recover_error_state_without_restart();
        let response = self.base_response();
        self.collect_backtrace(true, response, AfterFrames::Show)
    }

    /// Shows the table of breakpoints.
    fn list_breakpoint_response(&mut self) -> (step: Step)
        requires
            old(self).is_ready(),
        ensures
            final(self).follows(step, plan::list_breakpoints(old(self)@)),
            final(self)@.config == old(self)@.config,
    {
        if is_off(self.debugger_state) {
            return self.answer();
        }
        self.resync(AfterResync::ListBreakpoints)
    }

    /// Shows the source around the place of the program.
    fn current_code_response(&mut self) -> (step: Step)
        requires
            old(self).is_ready(),
        ensures
            final(self).follows(step, plan::show_current_code(old(self)@)),
            final(self)@.config == old(self)@.config,
    {
        if is_off(self.debugger_state) {
            return self.answer();
        }
        self.resync(AfterResync::ShowCurrentCode)
    }

    /// Ends the session.
    fn execute_quit(&mut self) -> (step: Step)
        requires
            old(self).is_ready(),
        ensures
            final(self).follows(step, plan::execute_quit(old(self)@)),
            final(self)@.config == old(self)@.config,
    {
        if self.executable_path.is_none() {
            self.stop_gdbserver_process(AfterGdbServer::Stop)
        } else {
            self.stop_gdbserver_process(AfterGdbServer::Quit)
        }
    }

    /// Kills the program.
    fn execute_kill(&mut self) -> (step: Step)
        requires
            old(self).is_ready(),
        ensures
            final(self).follows(step, plan::execute_kill(old(self)@)),
            final(self)@.config == old(self)@.config,
    {
        if self.executable_path.is_none() {
            return self.answer();
        }
        self.resync(AfterResync::Kill)
    }

    /// Watches a variable from now on.
    fn watch(&mut self, var: String)
        ensures
            final(self)@ == plan::watching(old(self)@, var@),
            final(self).pending == old(self).pending,
    {
        let ghost watched = self.watched_variables@;
        let mut i: usize = 0;
        while i < self.watched_variables.len()
            invariant
                i <= self.watched_variables@.len(),
                *self == *old(self),
                watched == self.watched_variables@,
                forall|j: int| 0 <= j < i ==> (#[trigger] watched[j])@ != var@,
            decreases self.watched_variables.len() - i,
        {
            if self.watched_variables[i] == var {
                assert(protocol::texts(watched)[i as int] == var@);
                return ;
            }
            i += 1;
        }
        self.watched_variables.push(var);
        proof {
            if protocol::texts(watched).contains(var@) {
                let j = choose|j: int|
                    0 <= j < watched.len() && protocol::texts(watched)[j] == var@;
                assert(watched[j]@ == var@);
            }
            assert(self@.watched =~= protocol::texts(watched).push(var@));
        }
    }

    /// Watches a variable no longer.
    fn unwatch(&mut self, var: &str)
        ensures
            final(self)@ == plan::unwatching(old(self)@, var@),
            old(self)@.watched.no_duplicates() ==> final(self)@.watched.no_duplicates(),
            final(self).pending == old(self).pending,
    {
        let name = scan::chars_of(var);
        let ghost all = protocol::texts(self.watched_variables@);
        let ghost keep = plan::all_but(var@);
        let mut kept: Vec<String> = Vec::new();
        let mut i: usize = 0;
        assert(protocol::texts(kept@) =~= all.take(0).filter(keep)) by {
            reveal(Seq::filter);
        }
        while i < self.watched_variables.len()
            invariant
                i <= self.watched_variables@.len(),
                *self == *old(self),
                name@ == var@,
                all == protocol::texts(self.watched_variables@),
                keep == plan::all_but(var@),
                protocol::texts(kept@) == all.take(i as int).filter(keep),
            decreases self.watched_variables.len() - i,
        {
            let ghost before = kept@;
            proof {
                all.take(i as int).lemma_filter_push(all[i as int], keep);
                assert(all.take(i + 1) =~= all.take(i as int).push(all[i as int]));
                assert(all[i as int] == self.watched_variables@[i as int]@);
            }
            let existing = self.watched_variables[i].clone();
            if !scan::same(scan::chars_of(existing.as_str()).as_slice(), name.as_slice()) {
                kept.push(existing);
                assert(protocol::texts(kept@) =~= protocol::texts(before).push(existing@));
            }
            i += 1;
        }
        assert(all.take(i as int) =~= all);
        self.watched_variables = kept;
        proof {
            if all.no_duplicates() {
                conduct::lemma_unwatching_keeps_distinct(all, var@);
            }
        }
    }

    /// Refuses a size of the display.
    fn refuse_size(&mut self, refusal: String) -> (step: Step)
        requires
            old(self).is_ready(),
        ensures
            final(self).follows(
                step,
                plan::answer(plan::troubled(old(self)@, DebuggerState::Error, refusal@)),
            ),
            final(self)@.config == old(self)@.config,
    {
        self.trouble(DebuggerState::Error, refusal)
    }

    /// Tells that a size of the display was taken over.
    fn accept_size(&mut self) -> (step: Step)
        requires
            old(self).is_ready(),
        ensures
            final(self).follows(step, plan::answer(plan::recovered(old(self)@))),
            final(self)@.config == old(self)@.config,
    {
        self.recover_error_state_without_restart();
        self.answer()
    }

    /// Executes an operation, up to the first thing that is to be asked for.
    pub fn execute(&mut self, operation: ToolOperation) -> (step: Step)
        requires
            old(self).wf(),
        ensures
            final(self).follows(step, plan::execute(old(self)@, operation)),
            final(self)@.config == conduct::config_after(old(self)@.config, operation),
            old(self)@.config.separator == '/' ==> (operation matches ToolOperation::Execute {
                executable_path,
            } ==> (step is Ask <==> paths::begins_with_slash(executable_path@))),
    {
        self.pending = Pending::Nothing;
        match operation {
            ToolOperation::Execute { executable_path } => self.execute_attach(executable_path),
            ToolOperation::Run => self.execute_run(),
            ToolOperation::GdbServer { ip, port, pid } => self.execute_gdbserver(ip, port, pid),
            ToolOperation::TargetRemote { ip, port } => self.execute_target_remote(ip, port),
            ToolOperation::SetThread { id } => {
                let id = scan::text_of(number::write_i64(id).as_slice());
                self.execute_recoverable_command_with_output(
                    "thread ".to_string().concat(id.as_str()),
                )
            },
            ToolOperation::SetFrame { id } => {
                let id = scan::text_of(number::write_i64(id).as_slice());
                self.execute_recoverable_command_with_output(
                    "frame ".to_string().concat(id.as_str()),
                )
            },
            ToolOperation::AddBreakpoint { filename, linenumber } => {
                let place = at_location(filename, linenumber);
                self.execute_recoverable_command_with_output(
                    "break ".to_string().concat(place.as_str()),
                )
            },
            ToolOperation::ClearBreakpoint { filename, linenumber } => {
                let place = at_location(filename, linenumber);
                self.execute_command("clear ".to_string().concat(place.as_str()))
            },
            ToolOperation::EnableBreakpoint { filename, linenumber } =>
                self.execute_breakpoint_action_by_location(
                BreakpointAction::Enable,
                filename,
                linenumber,
            ),
            ToolOperation::DisableBreakpoint { filename, linenumber } =>
                self.execute_breakpoint_action_by_location(
                BreakpointAction::Disable,
                filename,
                linenumber,
            ),
            ToolOperation::ListBreakpoint => self.list_breakpoint_response(),
            ToolOperation::Next => self.execute_with_full_snapshot(
                "next".to_string(),
                DebuggerState::StoppedAtStepping,
            ),
            ToolOperation::Step => self.execute_with_full_snapshot(
                "step".to_string(),
                DebuggerState::StoppedAtStepping,
            ),
            ToolOperation::Continue => self.execute_with_full_snapshot(
                "continue".to_string(),
                DebuggerState::Running,
            ),
            ToolOperation::Interrupt => self.execute_interrupt(),
            ToolOperation::AddVariable { var } => {
                self.watch(var);
                self.variable_list_response()
            },
            ToolOperation::DelVariable { var } => {
                self.unwatch(var.as_str());
                self.variable_list_response()
            },
            ToolOperation::DebuggerState => self.answer(),
            ToolOperation::VariableList => self.variable_list_response(),
            ToolOperation::CurrentCode => self.current_code_response(),
            ToolOperation::FullBacktrace => self.full_backtrace_response(),
            ToolOperation::InfoThreads => self.execute_recoverable_command_with_output(
                "info threads".to_string(),
            ),
            ToolOperation::Print { var, value } => match value {
                Some(value) => {
                    let command = assignment(var.as_str(), value.as_str());
                    self.execute_command(command)
                },
                None => self.execute_print(var.as_str()),
            },
            ToolOperation::SetVar { var, value } => {
                let command = assignment(var.as_str(), value.as_str());
                self.execute_command(command)
            },
            ToolOperation::InfoRegs => self.execute_info_regs(),
            ToolOperation::Quit => self.execute_quit(),
            ToolOperation::Kill => self.execute_kill(),
            ToolOperation::ResetBackToNotAttached => self.stop_gdbserver_process(
                AfterGdbServer::Stop,
            ),
            ToolOperation::SetDisplayLinesBeforeCurrent { size } => {
                if size == 0 {
                    return self.refuse_size(
                        "display_lines_before_current must be > 0".to_string(),
                    );
                }
                self.config.display_lines_before_current = size;
                self.accept_size()
            },
            ToolOperation::SetDisplayLinesAfterCurrent { size } => {
                if size == 0 {
                    return self.refuse_size(
                        "display_lines_after_current must be > 0".to_string(),
                    );
                }
                self.config.display_lines_after_current = size;
                self.accept_size()
            },
            ToolOperation::SetDisplayBacktrace { size } => {
                if size == 0 {
                    return self.refuse_size("display_backtrace must be > 0".to_string());
                }
                self.config.display_backtrace = size;
                self.accept_size()
            },
            ToolOperation::SetDisplayVariableList { size } => {
                if size == 0 {
                    return self.refuse_size("display_variable_list must be > 0".to_string());
                }
                self.config.display_variable_list = size;
                self.accept_size()
            },
            ToolOperation::Custom { cmd } => self.execute_command_internal(
                cmd,
                None,
                true,
                AfterCommand::Tell,
            ),
        }
    }

    /// Ends the session without an operation: gives what is still to be asked
    /// for.
    pub fn shutdown(&mut self) -> (request: Option<Request>)
        requires
            old(self).wf(),
        ensures
            final(self)@ == plan::without_gdbserver(old(self)@),
            final(self).wf(),
            !final(self).is_waiting(),
            match request {
                Some(request) => old(self)@.gdbserver && request@ == RequestView::KillGdbServer,
                None => !old(self)@.gdbserver,
            },
    {
        self.pending = Pending::Nothing;
        if self.gdbserver_running {
            self.gdbserver_running = false;
            Some(Request::KillGdbServer)
        } else {
            None
        }
    }

    /// Tells whether the session can go on with this reply.
    pub fn can_resume(&self, reply: &Reply) -> (can: bool)
        ensures
            can == (self.is_waiting() && self.accepts(*reply)),
    {
        match &self.pending {
            Pending::Nothing => false,
            Pending::Frame { .. } => {
                let output = match reply {
                    Reply::Output(output) => output.as_str(),
                    Reply::Exited(status) => status.as_str(),
                    Reply::Failed(_) => {
                        return true;
                    },
                };
                match gdb_output::parse_path_and_line(output) {
                    (_, Some(line)) => line <= u64::MAX
                        - self.config.display_lines_after_current as u64,
                    (_, None) => true,
                }
            },
            _ => true,
        }
    }

    /// The place of the program is waited for.
    pub closed spec fn awaits_place(&self) -> bool {
        self.pending is Frame
    }

    /// The session can go on with this reply.
    pub open spec fn accepts(&self, reply: Reply) -> bool {
        self.awaits_place() ==> place_fits(self@, reply)
    }
}

/// Tells whether nothing was attached, or it failed.
fn is_off(state: DebuggerState) -> (off: bool)
    ensures
        off == plan::is_off(state),
{
    match state {
        DebuggerState::NotAttached
        | DebuggerState::FailedToAttach
        | DebuggerState::GdbServerFailedToAttach => true,
        _ => false,
    }
}

/// Tells whether there is no program to look at.
fn is_gone(state: DebuggerState) -> (gone: bool)
    ensures
        gone == plan::is_gone(state),
{
    is_off(state) || state == DebuggerState::Exited
}

/// Where a gdbserver is reached.
fn endpoint(ip: String, port: u16) -> (endpoint: String)
    ensures
        endpoint@ == plan::endpoint(ip@, port),
{
    let port = scan::text_of(number::write_u64(port as u64).as_slice());
    ip.concat(":").concat(port.as_str())
}

/// The command that gives a variable a value.
fn assignment(var: &str, value: &str) -> (command: String)
    ensures
        command@ == "set variable "@ + var@ + " = "@ + value@,
{
    "set variable ".to_string().concat(var).concat(" = ").concat(value)
}

/// A location in the source, as it is written in commands.
fn at_location(filename: String, linenumber: u64) -> (place: String)
    ensures
        place@ == plan::at_location(filename@, linenumber),
{
    let line = scan::text_of(number::write_u64(linenumber).as_slice());
    filename.concat(":").concat(line.as_str())
}

/// The place in a reply is not so far down that the lines to be shown behind
/// it cannot be numbered.
pub open spec fn place_fits(s: Session, reply: Reply) -> bool {
    match operation::outcome(reply) {
        Ok(output) => match gdb_output::first_place(text::lines(output)) {
            Some((_, line)) => plan::last_shown(s, line) <= u64::MAX,
            None => true,
        },
        Err(_) => true,
    }
}

} // verus!
