//! What a client is told.
use std::collections::BTreeMap;
use vstd::prelude::*;

use crate::text;
use crate::text::Text;

verus! {

/// What the debugger is doing.
#[derive(Debug, Clone, Copy, PartialEq, Eq, Structural)]
pub enum DebuggerState {
    NotAttached,
    Attached,
    FailedToAttach,
    GdbServerAttached,
    GdbServerFailedToAttach,
    Running,
    StoppedAtBreakpoint,
    StoppedAtStepping,
    SigSegv,
    SigAbrt,
    SigBus,
    SigFpe,
    SigIll,
    SigTrap,
    SigTerm,
    SigKill,
    Exited,
    Error,
}

/// The source lines around the current one: by their numbers, or as one text.
#[derive(Debug)]
pub enum CurrentCodePayload {
    Lines(BTreeMap<u64, String>),
    Joined(String),
}

/// The answer to an operation.
#[derive(Debug)]
pub struct DebuggerResponse {
    pub debugger_state: DebuggerState,
    pub error: String,
    pub command_output: Option<String>,
    /// The watched variables with their values, in the order of watching; no
    /// name occurs twice.
    pub variable_list: Option<Vec<(String, String)>>,
    /// Function and location of each frame, by the number of the frame.
    pub backtrace: Option<BTreeMap<u64, (String, String)>>,
    pub current_func: Option<String>,
    pub current_code_path: Option<String>,
    pub current_code_line: Option<i64>,
    pub current_code: Option<CurrentCodePayload>,
    pub breakpoints: Option<Vec<String>>,
}

/// Source lines, as a mathematical value.
pub enum Code {
    Lines(Map<u64, Text>),
    Joined(Text),
}

/// An answer, as a mathematical value.
#[verifier::ext_equal]
pub struct Response {
    pub state: DebuggerState,
    pub error: Text,
    pub command_output: Option<Text>,
    pub variable_list: Option<Seq<(Text, Text)>>,
    pub backtrace: Option<Map<u64, (Text, Text)>>,
    pub current_func: Option<Text>,
    pub current_code_path: Option<Text>,
    pub current_code_line: Option<i64>,
    pub current_code: Option<Code>,
    pub breakpoints: Option<Seq<Text>>,
}

/// The texts of a list of strings.
pub open spec fn texts(list: Seq<String>) -> Seq<Text> {
    list.map_values(|text: String| text@)
}

/// The texts of a list of pairs.
pub open spec fn pairs(list: Seq<(String, String)>) -> Seq<(Text, Text)> {
    list.map_values(|pair: (String, String)| (pair.0@, pair.1@))
}

/// No name occurs twice in a list of names and values.
pub open spec fn are_distinct(list: Seq<(Text, Text)>) -> bool {
    forall|i: int, j: int|
        0 <= i < j < list.len() ==> (#[trigger] list[i]).0 != (#[trigger] list[j]).0
}

/// The texts of numbered frames.
pub open spec fn frames(map: Map<u64, (String, String)>) -> Map<u64, (Text, Text)> {
    map.map_values(|frame: (String, String)| (frame.0@, frame.1@))
}

/// The texts of numbered lines.
pub open spec fn numbered(map: Map<u64, String>) -> Map<u64, Text> {
    map.map_values(|line: String| line@)
}

impl View for CurrentCodePayload {
    type V = Code;

    open spec fn view(&self) -> Code {
        match *self {
            CurrentCodePayload::Lines(lines) => Code::Lines(numbered(lines@)),
            CurrentCodePayload::Joined(text) => Code::Joined(text@),
        }
    }
}

impl View for DebuggerResponse {
    type V = Response;

    open spec fn view(&self) -> Response {
        Response {
            state: self.debugger_state,
            error: self.error@,
            command_output: text::optional(self.command_output),
            variable_list: match self.variable_list {
                Some(list) => Some(pairs(list@)),
                None => None,
            },
            backtrace: match self.backtrace {
                Some(map) => Some(frames(map@)),
                None => None,
            },
            current_func: text::optional(self.current_func),
            current_code_path: text::optional(self.current_code_path),
            current_code_line: self.current_code_line,
            current_code: match self.current_code {
                Some(code) => Some(code@),
                None => None,
            },
            breakpoints: match self.breakpoints {
                Some(list) => Some(texts(list@)),
                None => None,
            },
        }
    }
}

/// An answer that tells the state and an error, and nothing else.
pub open spec fn bare_response(state: DebuggerState, error: Text) -> Response {
    Response {
        state,
        error,
        command_output: None,
        variable_list: None,
        backtrace: None,
        current_func: None,
        current_code_path: None,
        current_code_line: None,
        current_code: None,
        breakpoints: None,
    }
}

impl DebuggerResponse {
    /// An answer that tells the state and nothing else.
    pub fn new(debugger_state: DebuggerState) -> (response: DebuggerResponse)
        ensures
            response@ == bare_response(debugger_state, Seq::empty()),
    {
        DebuggerResponse {
            debugger_state,
            error: String::new(),
            command_output: None,
            variable_list: None,
            backtrace: None,
            current_func: None,
            current_code_path: None,
            current_code_line: None,
            current_code: None,
            breakpoints: None,
        }
    }

    /// The same answer with an error.
    pub fn with_error(self, error: String) -> (response: DebuggerResponse)
        ensures
            response@ == (Response { error: error@, ..self@ }),
    {
        DebuggerResponse { error, ..self }
    }
}

} // verus!
