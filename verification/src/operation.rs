//! What a client asks for, what the session then asks for, and the replies.
use vstd::prelude::*;

use crate::text::Text;

verus! {

/// An operation that a client asks for.
#[derive(Debug)]
pub enum ToolOperation {
    Execute { executable_path: String },
    Run,
    GdbServer { ip: String, port: u16, pid: i64 },
    TargetRemote { ip: String, port: u16 },
    SetThread { id: i64 },
    SetFrame { id: i64 },
    AddBreakpoint { filename: String, linenumber: u64 },
    ClearBreakpoint { filename: String, linenumber: u64 },
    EnableBreakpoint { filename: String, linenumber: u64 },
    DisableBreakpoint { filename: String, linenumber: u64 },
    ListBreakpoint,
    Next,
    Step,
    Continue,
    Interrupt,
    AddVariable { var: String },
    DelVariable { var: String },
    DebuggerState,
    VariableList,
    CurrentCode,
    FullBacktrace,
    InfoThreads,
    Print { var: String, value: Option<String> },
    SetVar { var: String, value: String },
    InfoRegs,
    Quit,
    Kill,
    ResetBackToNotAttached,
    SetDisplayLinesBeforeCurrent { size: usize },
    SetDisplayLinesAfterCurrent { size: usize },
    SetDisplayBacktrace { size: usize },
    SetDisplayVariableList { size: usize },
    Custom { cmd: String },
}

/// What is done to a breakpoint.
#[derive(Debug, Clone, Copy, PartialEq, Eq, Structural)]
pub enum BreakpointAction {
    Enable,
    Disable,
}

/// What the session needs done before it can go on.
#[derive(Debug)]
pub enum Request {
    /// Start gdb on this executable.
    Start(String),
    /// Stop gdb.
    Stop,
    /// Interrupt the program that gdb runs.
    Interrupt,
    /// Have gdb execute this command; the reply is what it prints.
    Exec(String),
    /// Start a gdbserver at this endpoint that attaches to this process.
    SpawnGdbServer { endpoint: String, pid: String },
    /// Wait for so long, then look whether the gdbserver still runs.
    ProbeGdbServer { delay_ms: u64 },
    /// Kill the gdbserver.
    KillGdbServer,
}

/// What came of a request.
#[derive(Debug)]
pub enum Reply {
    /// It was done, and this was printed. A gdbserver that was looked at runs.
    Output(String),
    /// It failed, for this reason.
    Failed(String),
    /// A gdbserver that was looked at has ended, with this status. To any other
    /// request this is a reply like `Output`.
    Exited(String),
}

/// A request, as a mathematical value.
pub enum RequestView {
    Start(Text),
    Stop,
    Interrupt,
    Exec(Text),
    SpawnGdbServer { endpoint: Text, pid: Text },
    ProbeGdbServer { delay_ms: u64 },
    KillGdbServer,
}

impl View for Request {
    type V = RequestView;

    open spec fn view(&self) -> RequestView {
        match *self {
            Request::Start(path) => RequestView::Start(path@),
            Request::Stop => RequestView::Stop,
            Request::Interrupt => RequestView::Interrupt,
            Request::Exec(command) => RequestView::Exec(command@),
            Request::SpawnGdbServer { endpoint, pid } => RequestView::SpawnGdbServer {
                endpoint: endpoint@,
                pid: pid@,
            },
            Request::ProbeGdbServer { delay_ms } => RequestView::ProbeGdbServer { delay_ms },
            Request::KillGdbServer => RequestView::KillGdbServer,
        }
    }
}

/// What was printed, or why the request failed.
pub open spec fn outcome(reply: Reply) -> Result<Text, Text> {
    match reply {
        Reply::Output(output) => Ok(output@),
        Reply::Failed(error) => Err(error@),
        Reply::Exited(status) => Ok(status@),
    }
}

/// The command that does something to the breakpoint of a number.
pub open spec fn breakpoint_command(action: BreakpointAction, id: Text) -> Text {
    match action {
        BreakpointAction::Enable => "enable "@ + id,
        BreakpointAction::Disable => "disable "@ + id,
    }
}

impl BreakpointAction {
    /// Gives the command that does this to the breakpoint of a number.
    pub fn command_for_id(&self, id: &str) -> (command: String)
        ensures
            command@ == breakpoint_command(*self, id@),
    {
        match self {
            BreakpointAction::Enable => "enable ".to_string().concat(id),
            BreakpointAction::Disable => "disable ".to_string().concat(id),
        }
    }
}

impl Reply {
    /// What was printed, or why the request failed.
    pub fn into_outcome(self) -> (result: Result<String, String>)
        ensures
            match result {
                Ok(output) => outcome(self) == Ok::<Text, Text>(output@),
                Err(error) => outcome(self) == Err::<Text, Text>(error@),
            },
    {
        match self {
            Reply::Output(output) => Ok(output),
            Reply::Failed(error) => Err(error),
            Reply::Exited(status) => Ok(status),
        }
    }
}

} // verus!
