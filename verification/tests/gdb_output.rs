use openmcpgdb::gdb_output::{
    breakpoint_ids_at, breakpoint_rows, contains_breakpoint_creation, contains_breakpoint_stop,
    current_function, is_recoverable_command_error, joined_code, looks_like_gdb_error,
    normalize_gdb_value, normalized_command_output, parse_backtrace_frame_line,
    parse_backtrace_lines, parse_breakpoint_location_line, parse_gdb_list_line, parse_listing,
    parse_path_and_line, resolve_source_path, state_from_output,
};
use openmcpgdb::paths::PathRules;
use openmcpgdb::protocol::DebuggerState;
use std::collections::BTreeMap;

#[test]
fn test_parse_gdb_list_line_preserves_space_indentation() {
    let parsed = parse_gdb_list_line("23\t    simulator_init(&g_sim, rows, cols, seed);");
    assert!(parsed.is_some(), "line should parse");
    let (line_no, source) = parsed.expect("parsed line");
    assert_eq!(line_no, 23);
    assert_eq!(source, "    simulator_init(&g_sim, rows, cols, seed);");
}

#[test]
fn test_parse_gdb_list_line_preserves_tab_indentation() {
    let parsed = parse_gdb_list_line("24\t\trobot_init(&g_robot, &g_sim);");
    assert!(parsed.is_some(), "line should parse");
    let (line_no, source) = parsed.expect("parsed line");
    assert_eq!(line_no, 24);
    assert_eq!(source, "\trobot_init(&g_robot, &g_sim);");
}

#[test]
fn test_parse_backtrace_frame_line_with_address_and_in() {
    let parsed = parse_backtrace_frame_line(
        "#0  0x00005555555551cb in compute_pi (value=3) at /tmp/main.c:55",
    );
    assert!(parsed.is_some(), "frame should parse");
    let (frame_no, function, location) = parsed.expect("parsed frame");
    assert_eq!(frame_no, 0);
    assert_eq!(function, "compute_pi");
    assert_eq!(location, "/tmp/main.c:55");
}

#[test]
fn test_list_breakpoint_strips_gdb_prompt() {
    let input = "(gdb) Num     Type           Disp Enb Address            What\n1       breakpoint     keep y   0x00005555555551cb in main at src/main.c:10\n";
    let lines: Vec<String> = breakpoint_rows(input);

    assert_eq!(lines.len(), 2);
    assert!(!lines[0].starts_with("(gdb)"));
    assert!(!lines[1].starts_with("(gdb)"));
    assert_eq!(
        lines[0],
        "Num     Type           Disp Enb Address            What"
    );
}

#[test]
fn values_stand_behind_the_first_equals_sign() {
    assert_eq!(normalize_gdb_value("$1 = 42\n"), "42");
    assert_eq!(normalize_gdb_value("$2 = {a = 1, b = 2}"), "{a = 1, b = 2}");
    assert_eq!(normalize_gdb_value("  optimized out \n"), "optimized out");
    assert_eq!(normalize_gdb_value(" \n"), "");
    assert_eq!(normalize_gdb_value("x ="), "");
}

#[test]
fn output_is_shown_without_the_prompt() {
    assert_eq!(normalized_command_output("  done\n"), Some("done".to_string()));
    assert_eq!(normalized_command_output("(gdb) done\n"), Some("done".to_string()));
    assert_eq!(normalized_command_output("(gdb)"), Some("(gdb)".to_string()));
    assert_eq!(normalized_command_output("\n\t "), None);
    assert_eq!(normalized_command_output(""), None);
}

#[test]
fn errors_are_told_by_their_phrases() {
    for phrase in [
        "Undefined command: \"foo\".",
        "Ambiguous command \"s\"",
        "value not recognized",
        "A syntax error in expression, near `'.",
        "Cannot find bounds of current function",
        "No symbol \"x\" in current context.",
        "Unknown thread 9.",
        "No frame at level 12.",
        "No source file named nope.c.",
        "No breakpoint at main.c:3.",
        "No breakpoint number 7.",
        "Error: it broke",
        "Cannot access memory at address 0x0",
    ] {
        assert!(looks_like_gdb_error(phrase), "{phrase}");
    }
    assert!(!looks_like_gdb_error("$1 = 5"));
}

#[test]
fn only_some_errors_are_soft() {
    assert!(is_recoverable_command_error("no symbol \"x\" in current context."));
    assert!(is_recoverable_command_error("unknown thread 9."));
    assert!(is_recoverable_command_error("no frame at level 12."));
    assert!(is_recoverable_command_error("no source file named nope.c."));
    assert!(is_recoverable_command_error("no breakpoint at main.c:3."));
    assert!(is_recoverable_command_error("no breakpoint number 7."));
    assert!(is_recoverable_command_error("a syntax error in expression, near `'."));
    assert!(is_recoverable_command_error("cannot find bounds of current function"));
    assert!(!is_recoverable_command_error("undefined command: \"foo\"."));
    assert!(!is_recoverable_command_error("No symbol"));
    assert!(!is_recoverable_command_error(""));
}

#[test]
fn stops_and_new_breakpoints_are_told_apart() {
    assert!(contains_breakpoint_stop("\nBreakpoint 1, main () at main.c:5\n"));
    assert!(contains_breakpoint_stop("  BREAKPOINT 2, f ()"));
    assert!(!contains_breakpoint_stop("Breakpoint 1 at 0x1139: file main.c"));
    assert!(contains_breakpoint_stop("Breakpoint 1 at 0x1139: file main.c, line 5."));
    assert!(!contains_breakpoint_stop("hit breakpoint 1, here"));
    assert!(contains_breakpoint_creation("Breakpoint 1 at 0x1139: file main.c, line 5."));
    assert!(contains_breakpoint_creation("Breakpoint 2 (foo.c:3) pending."));
    assert!(contains_breakpoint_creation("Breakpoint 3: file main.c, line 5."));
    assert!(!contains_breakpoint_creation("Breakpoint 1, main ()"));
}

#[test]
fn states_follow_what_gdb_says() {
    for (output, state) in [
        ("Undefined command: \"foo\".", DebuggerState::Error),
        ("Program received signal SIGSEGV, Segmentation fault.", DebuggerState::SigSegv),
        ("segmentation fault", DebuggerState::SigSegv),
        ("Program received signal SIGABRT, Aborted.", DebuggerState::SigAbrt),
        ("Bus error", DebuggerState::SigBus),
        ("Floating point exception", DebuggerState::SigFpe),
        ("Illegal instruction", DebuggerState::SigIll),
        ("SIGTRAP", DebuggerState::SigTrap),
        ("SIGTERM", DebuggerState::SigTerm),
        ("SIGKILL", DebuggerState::SigKill),
        ("Program received signal SIGINT, Interrupt.", DebuggerState::StoppedAtStepping),
        ("Program received signal SIGUSR1", DebuggerState::Error),
        ("Program terminated with signal SIGHUP", DebuggerState::Error),
        ("Breakpoint 1, main () at main.c:5", DebuggerState::StoppedAtBreakpoint),
        ("Breakpoint 1 at 0x1139", DebuggerState::Attached),
        ("Breakpoint 1 at 0x1139: file main.c, line 5.", DebuggerState::StoppedAtBreakpoint),
        ("Hardware watchpoint 2: x", DebuggerState::StoppedAtBreakpoint),
        ("Catchpoint 3 (fork)", DebuggerState::StoppedAtBreakpoint),
        ("[Inferior 1 (process 7) exited normally]", DebuggerState::Exited),
        ("[Inferior 1 (process 7) exited with code 01]", DebuggerState::Exited),
        ("No stack.", DebuggerState::Exited),
        ("The program has no registers now.", DebuggerState::Exited),
        ("The program is not being run.", DebuggerState::NotAttached),
        ("No inferior", DebuggerState::NotAttached),
        ("Continuing.", DebuggerState::Running),
        ("Starting program: /a.out", DebuggerState::Running),
        ("Interrupted", DebuggerState::StoppedAtBreakpoint),
        ("Cannot access memory at address 0x0", DebuggerState::Error),
        ("Detaching from program", DebuggerState::NotAttached),
        ("process finished", DebuggerState::NotAttached),
        ("[Inferior 1 (process 7) killed]", DebuggerState::SigKill),
    ] {
        assert_eq!(state_from_output(DebuggerState::Attached, output, None), state, "{output}");
    }
}

#[test]
fn output_without_news_leaves_the_state_or_takes_the_fallback() {
    let state = DebuggerState::StoppedAtStepping;
    assert_eq!(state_from_output(state, "$1 = 5", None), state);
    assert_eq!(
        state_from_output(state, "5\t  x = 1;", Some(DebuggerState::Running)),
        DebuggerState::Running
    );
}

#[test]
fn the_place_of_a_frame_is_found() {
    assert_eq!(
        parse_path_and_line("#0  main () at src/main.c:10\n10\t  int x;\n"),
        (Some("src/main.c".to_string()), Some(10))
    );
    assert_eq!(
        parse_path_and_line("nothing at all\n#1  f () at C:\\x.c:3"),
        (Some("C:\\x.c".to_string()), Some(3))
    );
    assert_eq!(parse_path_and_line("No stack."), (None, None));
    assert_eq!(parse_path_and_line("#0  main () at main.c"), (None, None));
}

#[test]
fn lines_of_a_listing_are_numbered() {
    assert_eq!(parse_gdb_list_line("  7 x"), Some((7, "x")));
    assert_eq!(parse_gdb_list_line("7"), Some((7, "")));
    assert_eq!(parse_gdb_list_line("7\t"), Some((7, "")));
    assert_eq!(parse_gdb_list_line("7}"), Some((7, "}")));
    assert_eq!(parse_gdb_list_line("x 7"), None);
    assert_eq!(parse_gdb_list_line("99999999999999999999 x"), None);
    assert_eq!(parse_gdb_list_line("3\tß \u{1f980}"), Some((3, "ß \u{1f980}")));
    let code = parse_listing("4\tint main() {\n5\t  return 0;\nrubbish\n4\tagain\n");
    let lines: Vec<(u64, String)> = code.into_iter().collect();
    assert_eq!(lines, [(4, "again".to_string()), (5, "  return 0;".to_string())]);
}

#[test]
fn rows_of_breakpoints_are_taken_apart() {
    assert_eq!(
        parse_breakpoint_location_line(
            "1       breakpoint     keep y   0x1139 in main at src/main.c:10"
        ),
        Some(("1".to_string(), "src/main.c".to_string(), 10))
    );
    assert_eq!(
        parse_breakpoint_location_line("  2.1  y  0x1139 in f at /src/f.c:7 "),
        Some(("2.1".to_string(), "/src/f.c".to_string(), 7))
    );
    assert_eq!(parse_breakpoint_location_line("Num Type at x:1"), None);
    assert_eq!(parse_breakpoint_location_line("1 breakpoint in main"), None);
    assert_eq!(parse_breakpoint_location_line("1 breakpoint at main.c"), None);
    assert_eq!(parse_breakpoint_location_line(""), None);
}

#[test]
fn breakpoints_are_found_by_their_location() {
    let table = "Num Type\n1 breakpoint keep y 0x1 in main at src/main.c:10\n\
                 2 breakpoint keep y 0x2 in f at /code/src/f.c:10\n\
                 3 breakpoint keep y 0x3 in g at src/main.c:11\n";
    let rules = PathRules::host();
    let ids = |filename: &str, line: u64| breakpoint_ids_at(table, &rules, "/code", filename, line);
    assert_eq!(ids("main.c", 10), ["1"]);
    assert_eq!(ids("/code/src/main.c", 10), ["1"]);
    assert_eq!(ids("/code//src/./main.c", 10), ["1"]);
    assert_eq!(ids(".c", 10), ["1", "2"]);
    assert_eq!(ids("main.c", 11), ["3"]);
    assert_eq!(ids("g.c", 10), Vec::<String>::new());
    assert_eq!(ids("main.c", 12), Vec::<String>::new());
}

#[test]
fn source_paths_are_made_absolute() {
    let rules = PathRules::host();
    let full = |path: &str| resolve_source_path(&rules, "/code", path.to_string());
    assert_eq!(full("src/main.c"), "/code/src/main.c");
    assert_eq!(full("/other/main.c"), "/other/main.c");
    assert_eq!(full("../main.c"), "/code/../main.c");
    assert_eq!(full(""), "/code/");
    let under = |dir: &str, path: &str| resolve_source_path(&rules, dir, path.to_string());
    assert_eq!(under("/code/", "main.c"), "/code/main.c");
    assert_eq!(under("/", "main.c"), "/main.c");
    assert_eq!(under("", "main.c"), "main.c");
    assert_eq!(under("code", "/main.c"), "/main.c");
}

#[test]
fn frames_are_taken_apart() {
    let frame = |line: &str| parse_backtrace_frame_line(line);
    let parts = |number: u64, function: &str, place: &str| {
        Some((number, function.to_string(), place.to_string()))
    };
    assert_eq!(frame("#1  main (argc=1) at main.c:5"), parts(1, "main", "main.c:5"));
    assert_eq!(frame("#2  f(int) at f.cc:9 "), parts(2, "f", "f.cc:9"));
    assert_eq!(frame("#3  0x1 in g () from /lib/libc.so.6"), parts(3, "g", ""));
    assert_eq!(frame("#4  in h () at h.c:1"), parts(4, "h", "h.c:1"));
    assert_eq!(frame("#5"), parts(5, "unknown", ""));
    assert_eq!(frame("#12 in"), parts(12, "unknown", ""));
    assert_eq!(frame("#x  main ()"), None);
    assert_eq!(frame("no frame"), None);
    assert_eq!(frame("#99999999999999999999 main ()"), None);
}

#[test]
fn frames_are_read_up_to_the_limit() {
    let output = "#0  a () at a.c:1\nlocal = 3\n#1  b () at b.c:2\n#2  c () at c.c:3\n";
    let mut frames: BTreeMap<u64, (String, String)> = BTreeMap::new();
    parse_backtrace_lines(output, 2, &mut frames);
    let shown: Vec<(u64, (String, String))> = frames.into_iter().collect();
    assert_eq!(
        shown,
        [
            (0, ("a".to_string(), "a.c:1".to_string())),
            (1, ("b".to_string(), "b.c:2".to_string())),
        ]
    );
}

#[test]
fn the_current_function_is_that_of_the_innermost_frame() {
    let mut frames: BTreeMap<u64, (String, String)> = BTreeMap::new();
    assert_eq!(current_function(&frames), None);
    frames.insert(10, ("ten".to_string(), String::new()));
    frames.insert(9, ("nine".to_string(), String::new()));
    assert_eq!(current_function(&frames), Some("nine".to_string()));
    frames.insert(0, ("zero".to_string(), String::new()));
    assert_eq!(current_function(&frames), Some("zero".to_string()));
}

#[test]
fn source_is_joined_in_the_order_of_its_lines() {
    let mut code: BTreeMap<u64, String> = BTreeMap::new();
    assert_eq!(joined_code(&code), "");
    code.insert(10, "  b();".to_string());
    code.insert(9, "a();".to_string());
    assert_eq!(joined_code(&code), "9 | a();\n10 |   b();");
}
