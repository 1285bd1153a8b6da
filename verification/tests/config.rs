use openmcpgdb::config::{
    default_backtrace, default_lines_after, default_lines_before, default_server_name,
    default_server_url, default_variable_list, ServerConfig,
};
use openmcpgdb::error::OpenMcpGdbError;
use openmcpgdb::paths::PathRules;

fn config() -> ServerConfig {
    ServerConfig {
        gdb_path: "/usr/bin/gdb".to_string(),
        gdb_options: "-q".to_string(),
        codebase_dir: "/src".to_string(),
        executable_path: "/src/a.out".to_string(),
        mcp_server_name: default_server_name(),
        mcp_server_url: default_server_url(),
        display_lines_before_current: default_lines_before(),
        display_lines_after_current: default_lines_after(),
        display_backtrace: default_backtrace(),
        display_variable_list: default_variable_list(),
        display_join_current_code: false,
        openocd_telnet_addr: None,
        path_rules: PathRules::host(),
    }
}

fn complaint(config: &ServerConfig) -> String {
    match config.validate() {
        Err(OpenMcpGdbError::InvalidConfig(message)) => message,
        other => panic!("unexpected: {other:?}"),
    }
}

#[test]
fn settings_have_defaults() {
    assert_eq!(default_server_name(), "MCP GDB Server");
    assert_eq!(default_server_url(), "https://localhost:9443");
    assert_eq!(default_lines_before(), 7);
    assert_eq!(default_lines_after(), 8);
    assert_eq!(default_backtrace(), 6);
    assert_eq!(default_variable_list(), 9);
}

#[test]
fn a_valid_configuration_is_accepted() {
    assert!(config().validate().is_ok());
}

#[test]
fn sizes_of_source_may_be_zero() {
    let mut config = config();
    config.display_lines_before_current = 0;
    config.display_lines_after_current = 0;
    assert!(config.validate().is_ok());
}

#[test]
fn a_relative_gdb_path_is_refused() {
    let mut config = config();
    config.gdb_path = "gdb".to_string();
    assert_eq!(complaint(&config), "gdb_path must be absolute");
}

#[test]
fn a_relative_codebase_dir_is_refused() {
    let mut config = config();
    config.codebase_dir = "src".to_string();
    assert_eq!(complaint(&config), "codebase_dir must be absolute");
}

#[test]
fn a_relative_executable_path_is_refused() {
    let mut config = config();
    config.executable_path = "./a.out".to_string();
    assert_eq!(complaint(&config), "executable_path must be absolute");
}

#[test]
fn an_empty_path_is_refused() {
    let mut config = config();
    config.gdb_path = String::new();
    assert_eq!(complaint(&config), "gdb_path must be absolute");
}

#[test]
fn a_backtrace_of_no_frames_is_refused() {
    let mut config = config();
    config.display_backtrace = 0;
    assert_eq!(complaint(&config), "display_backtrace must be > 0");
}

#[test]
fn a_list_of_no_variables_is_refused() {
    let mut config = config();
    config.display_variable_list = 0;
    assert_eq!(complaint(&config), "display_variable_list must be > 0");
}

#[test]
fn the_first_broken_rule_is_named() {
    let mut config = config();
    config.display_variable_list = 0;
    config.codebase_dir = "src".to_string();
    assert_eq!(complaint(&config), "codebase_dir must be absolute");
}
