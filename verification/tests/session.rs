use openmcpgdb::config::{
    default_backtrace, default_lines_after, default_lines_before, default_server_name,
    default_server_url, default_variable_list, ServerConfig,
};
use openmcpgdb::error::OpenMcpGdbError;
use openmcpgdb::operation::{BreakpointAction, Reply, Request, ToolOperation};
use openmcpgdb::paths::PathRules;
use openmcpgdb::protocol::{CurrentCodePayload, DebuggerResponse, DebuggerState};
use openmcpgdb::session::{SessionCore, Step};

const PROMPT: &str = "printf \"\"";

fn config() -> ServerConfig {
    ServerConfig {
        gdb_path: "/usr/bin/gdb".to_string(),
        gdb_options: String::new(),
        codebase_dir: "/code".to_string(),
        executable_path: "/code/a.out".to_string(),
        mcp_server_name: default_server_name(),
        mcp_server_url: default_server_url(),
        display_lines_before_current: default_lines_before(),
        display_lines_after_current: default_lines_after(),
        display_backtrace: default_backtrace(),
        display_variable_list: default_variable_list(),
        display_join_current_code: false,
        openocd_telnet_addr: None,
        path_rules: PathRules::host(),
    }
}

fn said(output: &str) -> Reply {
    Reply::Output(output.to_string())
}

fn failed(error: &str) -> Reply {
    Reply::Failed(error.to_string())
}

fn shown(request: &Request) -> String {
    match request {
        Request::Start(path) => format!("<start {path}>"),
        Request::Stop => "<stop>".to_string(),
        Request::Interrupt => "<interrupt>".to_string(),
        Request::Exec(command) => command.clone(),
        Request::SpawnGdbServer { endpoint, pid } => format!("<gdbserver {endpoint} {pid}>"),
        Request::ProbeGdbServer { delay_ms } => format!("<probe {delay_ms}>"),
        Request::KillGdbServer => "<kill gdbserver>".to_string(),
    }
}

/// Executes an operation, and checks that it asks for exactly what the script
/// has replies to.
fn result(
    core: &mut SessionCore,
    operation: ToolOperation,
    script: Vec<(&str, Reply)>,
) -> Result<DebuggerResponse, OpenMcpGdbError> {
    let mut step = core.execute(operation);
    for (wanted, reply) in script {
        match step {
            Step::Ask(request) => assert_eq!(shown(&request), wanted),
            Step::Done(result) => panic!("{wanted} was not asked for: {result:?}"),
        }
        assert!(core.can_resume(&reply));
        step = core.resume(reply);
    }
    match step {
        Step::Ask(request) => panic!("nothing replies to {}", shown(&request)),
        Step::Done(result) => result,
    }
}

fn answer(
    core: &mut SessionCore,
    operation: ToolOperation,
    script: Vec<(&str, Reply)>,
) -> DebuggerResponse {
    result(core, operation, script).expect("an answer")
}

fn state(core: &mut SessionCore) -> DebuggerState {
    answer(core, ToolOperation::DebuggerState, vec![]).debugger_state
}

fn attached_with(config: ServerConfig) -> SessionCore {
    let mut core = SessionCore::new(config);
    let operation = ToolOperation::Execute { executable_path: "/code/a.out".to_string() };
    let response = answer(&mut core, operation, vec![("<start /code/a.out>", said(""))]);
    assert_eq!(response.debugger_state, DebuggerState::Attached);
    core
}

fn attached() -> SessionCore {
    attached_with(config())
}

fn running() -> SessionCore {
    let mut core = attached();
    let script = vec![("run", said("Starting program: /code/a.out"))];
    let response = answer(&mut core, ToolOperation::Run, script);
    assert_eq!(response.debugger_state, DebuggerState::Running);
    core
}

fn custom(cmd: &str) -> ToolOperation {
    ToolOperation::Custom { cmd: cmd.to_string() }
}

fn add(var: &str) -> ToolOperation {
    ToolOperation::AddVariable { var: var.to_string() }
}

fn print(var: &str) -> ToolOperation {
    ToolOperation::Print { var: var.to_string(), value: None }
}

fn pair(name: &str, value: &str) -> (String, String) {
    (name.to_string(), value.to_string())
}

const FRAME: &str = "#0  main () at src/main.c:10\n10\t  x = 1;\n";
const LISTING: &str = "9\t{\n10\t  x = 1;\n11\t}\n";

#[test]
fn a_new_session_is_not_attached() {
    let mut core = SessionCore::new(config());
    let response = answer(&mut core, ToolOperation::DebuggerState, vec![]);
    assert_eq!(response.debugger_state, DebuggerState::NotAttached);
    assert_eq!(response.error, "");
    assert!(response.command_output.is_none());
    assert!(response.variable_list.is_none());
    assert!(response.backtrace.is_none());
    assert!(response.breakpoints.is_none());
}

#[test]
fn responses_start_empty_and_take_an_error() {
    let response = DebuggerResponse::new(DebuggerState::SigBus).with_error("why".to_string());
    assert_eq!(response.debugger_state, DebuggerState::SigBus);
    assert_eq!(response.error, "why");
    assert!(response.current_func.is_none());
    assert!(response.current_code_path.is_none());
    assert!(response.current_code_line.is_none());
    assert!(response.current_code.is_none());
}

#[test]
fn breakpoint_commands_name_the_breakpoint() {
    assert_eq!(BreakpointAction::Enable.command_for_id("2.1"), "enable 2.1");
    assert_eq!(BreakpointAction::Disable.command_for_id("7"), "disable 7");
}

#[test]
fn executables_must_be_absolute() {
    let mut core = SessionCore::new(config());
    let operation = ToolOperation::Execute { executable_path: "a.out".to_string() };
    let response = answer(&mut core, operation, vec![]);
    assert_eq!(response.debugger_state, DebuggerState::FailedToAttach);
    assert_eq!(response.error, "executable_path must be absolute");
}

#[test]
fn a_gdb_that_does_not_start_is_told() {
    let mut core = SessionCore::new(config());
    let operation = ToolOperation::Execute { executable_path: "/x".to_string() };
    let response = answer(&mut core, operation, vec![("<start /x>", failed("no such file"))]);
    assert_eq!(response.debugger_state, DebuggerState::FailedToAttach);
    assert_eq!(response.error, "no such file");
}

#[test]
fn commands_do_not_start_gdb() {
    for operation in [
        ToolOperation::Run,
        ToolOperation::SetThread { id: 1 },
        ToolOperation::SetFrame { id: 1 },
        ToolOperation::AddBreakpoint { filename: "a.c".to_string(), linenumber: 1 },
        ToolOperation::ClearBreakpoint { filename: "a.c".to_string(), linenumber: 1 },
        ToolOperation::EnableBreakpoint { filename: "a.c".to_string(), linenumber: 1 },
        ToolOperation::DisableBreakpoint { filename: "a.c".to_string(), linenumber: 1 },
        ToolOperation::InfoThreads,
        print("x"),
        ToolOperation::SetVar { var: "x".to_string(), value: "1".to_string() },
        ToolOperation::InfoRegs,
        ToolOperation::Kill,
        custom("info line"),
        ToolOperation::Next,
        ToolOperation::Step,
        ToolOperation::Continue,
        ToolOperation::Interrupt,
        ToolOperation::ListBreakpoint,
        ToolOperation::CurrentCode,
        ToolOperation::FullBacktrace,
    ] {
        let mut core = SessionCore::new(config());
        let response = answer(&mut core, operation, vec![]);
        assert_eq!(response.debugger_state, DebuggerState::NotAttached);
        assert_eq!(response.error, "");
    }
}

#[test]
fn commands_are_written_out() {
    let mut core = attached();
    let place = || ("a.c".to_string(), 12u64);
    let (filename, linenumber) = place();
    let script = vec![("break a.c:12", said("Breakpoint 1 at 0x1: file a.c\n"))];
    let response =
        answer(&mut core, ToolOperation::AddBreakpoint { filename, linenumber }, script);
    assert_eq!(response.debugger_state, DebuggerState::Attached);
    assert_eq!(response.command_output.as_deref(), Some("Breakpoint 1 at 0x1: file a.c"));

    let (filename, linenumber) = place();
    let script = vec![("clear a.c:12", said("Deleted breakpoint 1"))];
    let response =
        answer(&mut core, ToolOperation::ClearBreakpoint { filename, linenumber }, script);
    assert!(response.command_output.is_none());

    answer(&mut core, ToolOperation::SetThread { id: -3 }, vec![("thread -3", said("ok"))]);
    answer(&mut core, ToolOperation::SetFrame { id: 4 }, vec![("frame 4", said("ok"))]);
    answer(&mut core, ToolOperation::InfoThreads, vec![("info threads", said("* 1"))]);
    let operation = ToolOperation::SetVar { var: "x".to_string(), value: "5".to_string() };
    answer(&mut core, operation, vec![("set variable x = 5", said(""))]);
    let operation =
        ToolOperation::Print { var: "y".to_string(), value: Some("6".to_string()) };
    answer(&mut core, operation, vec![("set variable y = 6", said(""))]);
    let response = answer(&mut core, print("x"), vec![("print x", said("$1 = 5\n"))]);
    assert_eq!(response.command_output.as_deref(), Some("$1 = 5"));
    let response = answer(&mut core, custom("info line"), vec![("info line", said("Line 3"))]);
    assert_eq!(response.command_output.as_deref(), Some("Line 3"));
}

#[test]
fn a_run_that_stops_at_a_breakpoint_is_shown() {
    let mut core = attached();
    let script = vec![("print x", said("$1 = 3\n"))];
    let response = answer(&mut core, add("x"), script);
    assert_eq!(response.variable_list, Some(vec![pair("x", "3")]));

    let script = vec![
        ("run", said("Breakpoint 1, main () at src/main.c:10\n10\t  x = 1;\n")),
        ("print x", said("$2 = 4\n")),
        ("backtrace full", said("#0  main () at src/main.c:10\n")),
        ("frame", said(FRAME)),
        ("list 3,18", said(LISTING)),
    ];
    let response = answer(&mut core, ToolOperation::Run, script);
    assert_eq!(response.debugger_state, DebuggerState::StoppedAtBreakpoint);
    assert_eq!(response.variable_list, Some(vec![pair("x", "4")]));
    let frames: Vec<(u64, (String, String))> =
        response.backtrace.expect("frames").into_iter().collect();
    assert_eq!(frames, [(0, pair("main", "src/main.c:10"))]);
    assert_eq!(response.current_func.as_deref(), Some("main"));
    assert_eq!(response.current_code_path.as_deref(), Some("/code/src/main.c"));
    assert_eq!(response.current_code_line, Some(10));
    match response.current_code {
        Some(CurrentCodePayload::Lines(lines)) => {
            let lines: Vec<(u64, String)> = lines.into_iter().collect();
            assert_eq!(
                lines,
                [
                    (9, "{".to_string()),
                    (10, "  x = 1;".to_string()),
                    (11, "}".to_string())
                ]
            );
        }
        other => panic!("unexpected: {other:?}"),
    }
}

#[test]
fn source_is_joined_where_the_configuration_asks_for_it() {
    let mut config = config();
    config.display_join_current_code = true;
    config.display_lines_before_current = 20;
    let mut core = attached_with(config);
    let script = vec![("frame", said(FRAME)), ("list 1,18", said(LISTING))];
    let response = answer(&mut core, ToolOperation::CurrentCode, script);
    match response.current_code {
        Some(CurrentCodePayload::Joined(text)) => {
            assert_eq!(text, "9 | {\n10 |   x = 1;\n11 | }");
        }
        other => panic!("unexpected: {other:?}"),
    }
    assert_eq!(response.error, "");
}

#[test]
fn a_missing_frame_is_told() {
    let mut core = attached();
    let script = vec![("frame", said("No stack."))];
    let response = answer(&mut core, ToolOperation::CurrentCode, script);
    assert_eq!(response.error, "no current frame");
    assert_eq!(response.debugger_state, DebuggerState::Attached);
    assert!(response.current_code_path.is_none());
}

#[test]
fn a_line_beyond_all_numbers_is_not_accepted() {
    let mut core = attached();
    match core.execute(ToolOperation::CurrentCode) {
        Step::Ask(request) => assert_eq!(shown(&request), "frame"),
        Step::Done(result) => panic!("unexpected: {result:?}"),
    }
    assert!(!core.can_resume(&said("#0  main () at a.c:18446744073709551615")));
    assert!(!core.can_resume(&said("#0  main () at a.c:18446744073709551608")));
    assert!(core.can_resume(&said("#0  main () at a.c:18446744073709551607")));
    assert!(core.can_resume(&failed("gone")));
}

#[test]
fn lines_beyond_signed_numbers_are_left_out() {
    let mut core = attached();
    let script = vec![
        ("frame", said("#0  main () at a.c:9223372036854775808")),
        ("list 9223372036854775801,9223372036854775816", said("")),
    ];
    let response = answer(&mut core, ToolOperation::CurrentCode, script);
    assert_eq!(response.current_code_path.as_deref(), Some("/code/a.c"));
    assert_eq!(response.current_code_line, None);
    assert!(response.current_code.is_none());
    assert_eq!(response.error, "");
}

#[test]
fn failures_of_gdb_end_a_look_at_the_program() {
    let mut core = attached();
    let script = vec![("frame", failed("pipe closed"))];
    match result(&mut core, ToolOperation::CurrentCode, script) {
        Err(OpenMcpGdbError::Backend(error)) => assert_eq!(error, "pipe closed"),
        other => panic!("unexpected: {other:?}"),
    }
    let script = vec![("backtrace full", said("")), ("backtrace", failed("pipe closed"))];
    match result(&mut core, ToolOperation::FullBacktrace, script) {
        Err(OpenMcpGdbError::Backend(error)) => assert_eq!(error, "pipe closed"),
        other => panic!("unexpected: {other:?}"),
    }
}

#[test]
fn frames_are_asked_for_again_in_the_plain_form() {
    let mut core = attached();
    let script = vec![
        ("backtrace full", said("\n")),
        ("backtrace", said("#1  f () at f.c:2\n#2  main () at main.c:9\n")),
    ];
    let response = answer(&mut core, ToolOperation::FullBacktrace, script);
    assert_eq!(response.current_func.as_deref(), Some("f"));
    assert_eq!(response.backtrace.expect("frames").len(), 2);
}

#[test]
fn frames_are_limited_by_the_configuration() {
    let mut core = attached();
    let response =
        answer(&mut core, ToolOperation::SetDisplayBacktrace { size: 2 }, vec![]);
    assert_eq!(response.error, "");
    let script = vec![("backtrace full", said("#0  a ()\n#1  b ()\n#2  c ()\n"))];
    let response = answer(&mut core, ToolOperation::FullBacktrace, script);
    let numbers: Vec<u64> = response.backtrace.expect("frames").into_keys().collect();
    assert_eq!(numbers, [0, 1]);
}

#[test]
fn steps_show_the_program_where_it_rests() {
    for (operation, command) in [(ToolOperation::Next, "next"), (ToolOperation::Step, "step")] {
        let mut core = attached();
        let script = vec![
            (command, said("11\t}\n")),
            ("backtrace full", said("#0  main () at src/main.c:11\n")),
            ("frame", said("#0  main () at /abs/main.c:11\n")),
            ("list 4,19", said(LISTING)),
        ];
        let response = answer(&mut core, operation, script);
        assert_eq!(response.debugger_state, DebuggerState::StoppedAtStepping);
        assert_eq!(response.variable_list, Some(vec![]));
        assert_eq!(response.current_code_path.as_deref(), Some("/abs/main.c"));
    }
}

#[test]
fn a_program_that_goes_on_runs() {
    let mut core = running();
    let response =
        answer(&mut core, ToolOperation::Continue, vec![("continue", said("Continuing.\n"))]);
    assert_eq!(response.debugger_state, DebuggerState::Running);
    assert!(response.backtrace.is_none());
}

#[test]
fn a_running_program_is_stopped_before_a_command() {
    let mut core = running();
    let script = vec![
        ("<interrupt>", failed("no")),
        (PROMPT, failed("no")),
        ("print x", said("$1 = 1")),
    ];
    let response = answer(&mut core, print("x"), script);
    assert_eq!(response.debugger_state, DebuggerState::StoppedAtStepping);

    let mut core = running();
    let script = vec![
        ("<interrupt>", said("")),
        (PROMPT, said("")),
        ("info breakpoints", said("No breakpoints or watchpoints.\n")),
    ];
    let response = answer(&mut core, ToolOperation::ListBreakpoint, script);
    assert_eq!(response.breakpoints, Some(vec!["No breakpoints or watchpoints.".to_string()]));
    assert_eq!(response.debugger_state, DebuggerState::StoppedAtStepping);
}

#[test]
fn an_interrupt_shows_the_program() {
    let mut core = running();
    let script = vec![
        ("<interrupt>", said("")),
        (PROMPT, said("")),
        ("backtrace full", said("#0  main () at src/main.c:10\n")),
        ("frame", said(FRAME)),
        ("list 3,18", said(LISTING)),
    ];
    let response = answer(&mut core, ToolOperation::Interrupt, script);
    assert_eq!(response.debugger_state, DebuggerState::StoppedAtStepping);
    assert_eq!(response.current_code_line, Some(10));
}

#[test]
fn an_interrupt_that_fails_is_an_error() {
    let mut core = running();
    let script = vec![("<interrupt>", failed("no process"))];
    let response = answer(&mut core, ToolOperation::Interrupt, script);
    assert_eq!(response.debugger_state, DebuggerState::Error);
    assert_eq!(response.error, "no process");

    let mut core = running();
    let script = vec![("<interrupt>", said("")), (PROMPT, failed("timeout"))];
    let response = answer(&mut core, ToolOperation::Interrupt, script);
    assert_eq!(response.debugger_state, DebuggerState::Error);
    assert_eq!(response.error, "timeout");
}

#[test]
fn crashes_are_told_with_their_frames() {
    let mut core = attached();
    let script = vec![
        ("run", said("Program received signal SIGSEGV, Segmentation fault.\n")),
        ("backtrace full", said("#0  0x1 in f (p=0x0) at f.c:3\n")),
    ];
    let response = answer(&mut core, ToolOperation::Run, script);
    assert_eq!(response.debugger_state, DebuggerState::SigSegv);
    assert_eq!(response.current_func.as_deref(), Some("f"));
    assert_eq!(response.backtrace.expect("frames")[&0], pair("f", "f.c:3"));

    let script = vec![("backtrace full", said("#0  0x1 in f (p=0x0) at f.c:3\n"))];
    let response = answer(&mut core, ToolOperation::DebuggerState, script);
    assert!(response.backtrace.is_some());
}

#[test]
fn an_abort_is_told_without_frames() {
    let mut core = attached();
    let script = vec![("run", said("Program received signal SIGABRT, Aborted.\n"))];
    let response = answer(&mut core, ToolOperation::Run, script);
    assert_eq!(response.debugger_state, DebuggerState::SigAbrt);
    assert!(response.backtrace.is_none());
}

#[test]
fn refused_commands_are_errors_that_a_good_command_clears() {
    let mut core = attached();
    let script = vec![("foo", said("(gdb) Undefined command: \"foo\".\n"))];
    let response = answer(&mut core, custom("foo"), script);
    assert_eq!(response.debugger_state, DebuggerState::Error);
    assert_eq!(response.error, "Undefined command: \"foo\".");
    assert_eq!(state(&mut core), DebuggerState::Error);

    let response = answer(&mut core, custom("info line"), vec![("info line", said("Line 3"))]);
    assert_eq!(response.debugger_state, DebuggerState::Attached);
    assert_eq!(response.error, "");
}

#[test]
fn commands_that_fail_are_errors() {
    let mut core = attached();
    let response = answer(&mut core, custom("x"), vec![("x", failed("broken pipe"))]);
    assert_eq!(response.debugger_state, DebuggerState::Error);
    assert_eq!(response.error, "broken pipe");
}

#[test]
fn printing_leaves_no_error() {
    let mut core = attached();
    let script = vec![("print y", said("No symbol \"y\" in current context.\n"))];
    let response = answer(&mut core, print("y"), script);
    assert_eq!(response.debugger_state, DebuggerState::Attached);
    assert_eq!(response.error, "No symbol \"y\" in current context.");
    let response = answer(&mut core, print("y"), vec![("print y", failed("broken pipe"))]);
    assert_eq!(response.debugger_state, DebuggerState::Attached);
    assert_eq!(response.error, "broken pipe");
    assert_eq!(answer(&mut core, ToolOperation::DebuggerState, vec![]).error, "");
}

#[test]
fn soft_errors_are_forgotten_and_others_are_not() {
    let mut core = attached();
    let script = vec![("thread 9", said("Unknown thread 9.\n"))];
    let response = answer(&mut core, ToolOperation::SetThread { id: 9 }, script);
    assert_eq!(response.debugger_state, DebuggerState::Attached);
    assert_eq!(response.error, "Unknown thread 9.");
    assert_eq!(response.command_output.as_deref(), Some("Unknown thread 9."));
    assert_eq!(state(&mut core), DebuggerState::Attached);

    let script = vec![("thread 9", said("Error: thread library\n"))];
    let response = answer(&mut core, ToolOperation::SetThread { id: 9 }, script);
    assert_eq!(response.debugger_state, DebuggerState::Error);
    assert_eq!(state(&mut core), DebuggerState::Error);

    let script = vec![("frame 8", said("No frame at level 8.\n"))];
    let response = answer(&mut core, ToolOperation::SetFrame { id: 8 }, script);
    assert_eq!(response.debugger_state, DebuggerState::Attached);
}

#[test]
fn missing_registers_leave_the_session_attached() {
    let mut core = attached();
    let script = vec![("info all-registers", said("The program has no registers now.\n"))];
    let response = answer(&mut core, ToolOperation::InfoRegs, script);
    assert_eq!(response.debugger_state, DebuggerState::Attached);
    assert_eq!(response.error, "");
    assert_eq!(response.command_output.as_deref(), Some("The program has no registers now."));

    let script = vec![("info all-registers", said("rax 0x0 0\n"))];
    let response = answer(&mut core, ToolOperation::InfoRegs, script);
    assert_eq!(response.command_output.as_deref(), Some("rax 0x0 0"));
}

#[test]
fn variables_are_watched_once_and_in_order() {
    let mut core = attached();
    answer(&mut core, add("b"), vec![("print b", said("$1 = 1"))]);
    let script = vec![("print b", said("$2 = 1")), ("print a", failed("gone"))];
    let response = answer(&mut core, add("a"), script);
    assert_eq!(response.variable_list, Some(vec![pair("b", "1"), pair("a", "<error: gone>")]));
    let script = vec![
        ("print b", said("No symbol \"b\" in current context.")),
        ("print a", said("$3 = {x = 1}")),
    ];
    let response = answer(&mut core, add("b"), script);
    assert_eq!(
        response.variable_list,
        Some(vec![
            pair("b", "<error: No symbol \"b\" in current context.>"),
            pair("a", "{x = 1}")
        ])
    );
    let operation = ToolOperation::DelVariable { var: "b".to_string() };
    let response = answer(&mut core, operation, vec![("print a", said("$4 = 2"))]);
    assert_eq!(response.variable_list, Some(vec![pair("a", "2")]));
    let operation = ToolOperation::DelVariable { var: "zzz".to_string() };
    answer(&mut core, operation, vec![("print a", said("$5 = 2"))]);
}

#[test]
fn no_variable_is_told_twice() {
    let mut core = attached();
    let script = || vec![("print a", said("$1 = 1"))];
    answer(&mut core, add("a"), script());
    let response = answer(&mut core, add("a"), script());
    assert_eq!(response.variable_list, Some(vec![pair("a", "1")]));
    let response = answer(&mut core, ToolOperation::VariableList, script());
    assert_eq!(response.variable_list, Some(vec![pair("a", "1")]));
}

#[test]
fn deleting_undoes_adding() {
    let mut core = attached();
    answer(&mut core, add("a"), vec![("print a", said("$1 = 1"))]);
    answer(&mut core, add("b"), vec![("print a", said("$1 = 1")), ("print b", said("$2 = 2"))]);
    let operation = ToolOperation::DelVariable { var: "b".to_string() };
    let response = answer(&mut core, operation, vec![("print a", said("$3 = 1"))]);
    assert_eq!(response.variable_list, Some(vec![pair("a", "1")]));
}

#[test]
fn no_more_variables_are_shown_than_the_configuration_allows() {
    let mut core = attached();
    answer(&mut core, ToolOperation::SetDisplayVariableList { size: 1 }, vec![]);
    answer(&mut core, add("a"), vec![("print a", said("$1 = 1"))]);
    let response = answer(&mut core, add("b"), vec![("print a", said("$2 = 1"))]);
    assert_eq!(response.variable_list, Some(vec![pair("a", "1")]));
}

#[test]
fn variables_are_remembered_while_nothing_is_attached() {
    let mut core = SessionCore::new(config());
    let response = answer(&mut core, add("a"), vec![]);
    assert_eq!(response.variable_list, Some(vec![]));
    let operation = ToolOperation::Execute { executable_path: "/a".to_string() };
    answer(&mut core, operation, vec![("<start /a>", said(""))]);
    let script = vec![("print a", said("$1 = 1"))];
    let response = answer(&mut core, ToolOperation::VariableList, script);
    assert_eq!(response.variable_list, Some(vec![pair("a", "1")]));
}

#[test]
fn sizes_of_zero_are_refused() {
    for (operation, error) in [
        (
            ToolOperation::SetDisplayLinesBeforeCurrent { size: 0 },
            "display_lines_before_current must be > 0",
        ),
        (
            ToolOperation::SetDisplayLinesAfterCurrent { size: 0 },
            "display_lines_after_current must be > 0",
        ),
        (ToolOperation::SetDisplayBacktrace { size: 0 }, "display_backtrace must be > 0"),
        (ToolOperation::SetDisplayVariableList { size: 0 }, "display_variable_list must be > 0"),
    ] {
        let mut core = attached();
        let response = answer(&mut core, operation, vec![]);
        assert_eq!(response.debugger_state, DebuggerState::Error);
        assert_eq!(response.error, error);
        let script = vec![("frame", said(FRAME)), ("list 3,18", said(LISTING))];
        let response = answer(&mut core, ToolOperation::CurrentCode, script);
        assert_eq!(response.debugger_state, DebuggerState::Attached);
    }
}

#[test]
fn sizes_of_the_source_can_be_set() {
    let mut core = attached();
    answer(&mut core, ToolOperation::SetDisplayLinesBeforeCurrent { size: 1 }, vec![]);
    answer(&mut core, ToolOperation::SetDisplayLinesAfterCurrent { size: 2 }, vec![]);
    let script = vec![("frame", said(FRAME)), ("list 9,12", said(LISTING))];
    answer(&mut core, ToolOperation::CurrentCode, script);
}

#[test]
fn breakpoints_are_changed_by_their_location() {
    let table = "Num Type\n1 breakpoint keep y 0x1 in main at src/main.c:10\n\
                 2 breakpoint keep y 0x2 in main at src/main.c:10\n";
    let mut core = attached();
    let operation =
        ToolOperation::DisableBreakpoint { filename: "main.c".to_string(), linenumber: 10 };
    let script = vec![
        ("info breakpoints", said(table)),
        ("disable 1", said("")),
        ("disable 2", said("")),
    ];
    let response = answer(&mut core, operation, script);
    assert_eq!(response.debugger_state, DebuggerState::Attached);
    assert_eq!(response.error, "");

    let operation =
        ToolOperation::EnableBreakpoint { filename: "main.c".to_string(), linenumber: 10 };
    let script = vec![
        ("info breakpoints", said(table)),
        ("enable 1", said("No breakpoint number 1.\n")),
    ];
    let response = answer(&mut core, operation, script);
    assert_eq!(response.debugger_state, DebuggerState::Error);
    assert_eq!(response.error, "No breakpoint number 1.");

    let operation =
        ToolOperation::EnableBreakpoint { filename: "main.c".to_string(), linenumber: 11 };
    let response = answer(&mut core, operation, vec![("info breakpoints", said(table))]);
    assert_eq!(response.debugger_state, DebuggerState::Error);
    assert_eq!(response.error, "No breakpoint at main.c:11.");
}

#[test]
fn a_table_that_cannot_be_had_is_an_error() {
    let mut core = attached();
    let script = vec![("info breakpoints", failed("pipe"))];
    let response = answer(&mut core, ToolOperation::ListBreakpoint, script);
    assert_eq!(response.debugger_state, DebuggerState::Error);
    assert_eq!(response.error, "pipe");
    assert!(response.breakpoints.is_none());
}

#[test]
fn gdbservers_run_one_at_a_time() {
    let mut core = SessionCore::new(config());
    let operation = || ToolOperation::GdbServer { ip: "127.0.0.1".to_string(), port: 99, pid: 7 };
    let script = vec![("<gdbserver 127.0.0.1:99 7>", said("")), ("<probe 100>", said(""))];
    let response = answer(&mut core, operation(), script);
    assert_eq!(response.debugger_state, DebuggerState::GdbServerAttached);

    let script = vec![
        ("<kill gdbserver>", failed("gone")),
        ("<gdbserver 127.0.0.1:99 7>", said("")),
        ("<probe 100>", Reply::Exited("exit status: 1".to_string())),
    ];
    let response = answer(&mut core, operation(), script);
    assert_eq!(response.debugger_state, DebuggerState::GdbServerFailedToAttach);
    assert_eq!(response.error, "gdbserver exited early with status: exit status: 1");
    assert!(core.shutdown().is_none());

    let script = vec![("<gdbserver 127.0.0.1:99 7>", failed("not found"))];
    let response = answer(&mut core, operation(), script);
    assert_eq!(response.error, "failed to start gdbserver: not found");

    let script =
        vec![("<gdbserver 127.0.0.1:99 7>", said("")), ("<probe 100>", failed("no child"))];
    match result(&mut core, operation(), script) {
        Err(OpenMcpGdbError::Backend(error)) => assert_eq!(error, "no child"),
        other => panic!("unexpected: {other:?}"),
    }
}

#[test]
fn gdbservers_need_a_process() {
    let mut core = SessionCore::new(config());
    for pid in [0, -5] {
        let operation = ToolOperation::GdbServer { ip: "h".to_string(), port: 1, pid };
        let response = answer(&mut core, operation, vec![]);
        assert_eq!(response.debugger_state, DebuggerState::GdbServerFailedToAttach);
        assert_eq!(response.error, "pid must be > 0");
    }
}

#[test]
fn a_shutdown_kills_the_gdbserver() {
    let mut core = SessionCore::new(config());
    let operation = ToolOperation::GdbServer { ip: "h".to_string(), port: 1, pid: 2 };
    answer(&mut core, operation, vec![("<gdbserver h:1 2>", said("")), ("<probe 100>", said(""))]);
    let request = core.shutdown().expect("a request");
    assert_eq!(shown(&request), "<kill gdbserver>");
    assert!(core.shutdown().is_none());
}

#[test]
fn a_remote_target_starts_gdb_where_it_was_not_started() {
    let operation = || ToolOperation::TargetRemote { ip: "10.0.0.1".to_string(), port: 3333 };
    let mut core = SessionCore::new(config());
    let script = vec![
        ("<start /code/a.out>", said("")),
        ("target remote 10.0.0.1:3333", said("Remote debugging using 10.0.0.1:3333")),
    ];
    let response = answer(&mut core, operation(), script);
    assert_eq!(response.debugger_state, DebuggerState::Attached);

    let script = vec![("target remote 10.0.0.1:3333", said("Error: refused"))];
    let response = answer(&mut core, operation(), script);
    assert_eq!(response.debugger_state, DebuggerState::Error);

    let mut core = SessionCore::new(config());
    let response = answer(&mut core, operation(), vec![("<start /code/a.out>", failed("no gdb"))]);
    assert_eq!(response.debugger_state, DebuggerState::FailedToAttach);
    assert_eq!(response.error, "no gdb");
}

#[test]
fn a_quit_ends_the_session() {
    let mut core = running();
    let script = vec![("<interrupt>", failed("no")), ("quit", said("")), ("<stop>", said(""))];
    let response = answer(&mut core, ToolOperation::Quit, script);
    assert_eq!(response.debugger_state, DebuggerState::NotAttached);
    let response = answer(&mut core, custom("info line"), vec![]);
    assert_eq!(response.debugger_state, DebuggerState::NotAttached);
    let response = answer(&mut core, ToolOperation::Quit, vec![("<stop>", failed("no"))]);
    assert_eq!(response.debugger_state, DebuggerState::NotAttached);
    assert_eq!(response.error, "");
}

#[test]
fn a_quit_that_fails_says_what_failed() {
    let mut core = attached();
    for (quit, stop, error) in [
        (failed("q"), failed("s"), "quit failed: q; stop failed: s"),
        (failed("q"), said(""), "quit failed: q"),
        (said(""), failed("s"), "stop failed: s"),
    ] {
        let script = vec![("quit", quit), ("<stop>", stop)];
        let response = answer(&mut core, ToolOperation::Quit, script);
        assert_eq!(response.debugger_state, DebuggerState::Error);
        assert_eq!(response.error, error);
    }
    let response = answer(&mut core, custom("info line"), vec![("info line", said("Line 3"))]);
    assert_eq!(response.debugger_state, DebuggerState::Attached);
}

#[test]
fn a_reset_always_succeeds() {
    let mut core = attached();
    answer(&mut core, add("a"), vec![("print a", said("$1 = 1"))]);
    let operation = ToolOperation::GdbServer { ip: "h".to_string(), port: 1, pid: 2 };
    answer(&mut core, operation, vec![("<gdbserver h:1 2>", said("")), ("<probe 100>", said(""))]);
    let script = vec![("<kill gdbserver>", failed("no")), ("<stop>", failed("no"))];
    let response = answer(&mut core, ToolOperation::ResetBackToNotAttached, script);
    assert_eq!(response.debugger_state, DebuggerState::NotAttached);
    assert_eq!(response.error, "");
    assert!(core.shutdown().is_none());
    let operation = ToolOperation::Execute { executable_path: "/a".to_string() };
    answer(&mut core, operation, vec![("<start /a>", said(""))]);
    let response = answer(&mut core, ToolOperation::VariableList, vec![]);
    assert_eq!(response.variable_list, Some(vec![]));
}

#[test]
fn a_kill_is_confirmed() {
    let mut core = attached();
    let script = vec![
        ("kill", said("Kill the program being debugged? (y or n)")),
        ("y", said("[Inferior 1 (process 7) killed]")),
    ];
    let response = answer(&mut core, ToolOperation::Kill, script);
    assert_eq!(response.debugger_state, DebuggerState::SigKill);

    let script = vec![("kill", said("The program is not being run.\n"))];
    let response = answer(&mut core, ToolOperation::Kill, script);
    assert_eq!(response.debugger_state, DebuggerState::NotAttached);

    let script = vec![("kill", failed("pipe"))];
    let response = answer(&mut core, ToolOperation::Kill, script);
    assert_eq!(response.debugger_state, DebuggerState::Error);
    assert_eq!(response.error, "pipe");

    let script = vec![
        ("kill", said("Kill the program being debugged? (y or n)")),
        ("y", failed("pipe")),
    ];
    let response = answer(&mut core, ToolOperation::Kill, script);
    assert_eq!(response.debugger_state, DebuggerState::Error);
}

#[test]
fn output_changes_the_state_and_nothing_else() {
    let mut core = attached();
    answer(&mut core, add("a"), vec![("print a", said("$1 = 1"))]);
    core.update_state_from_output("No symbol \"b\" in current context.", None);
    let response = answer(&mut core, ToolOperation::DebuggerState, vec![]);
    assert_eq!(response.debugger_state, DebuggerState::Error);
    assert_eq!(response.error, "");
    core.update_state_from_output("", Some(DebuggerState::StoppedAtStepping));
    assert_eq!(state(&mut core), DebuggerState::StoppedAtStepping);
    let script = vec![("print a", said("$2 = 2"))];
    let response = answer(&mut core, ToolOperation::VariableList, script);
    assert_eq!(response.variable_list, Some(vec![pair("a", "2")]));
}
