//! The configuration of the server.
use vstd::prelude::*;

use crate::error::OpenMcpGdbError;
use crate::paths;
use crate::paths::PathRules;
use crate::text;
use crate::text::Text;

verus! {

/// The configuration of the server.
#[derive(Debug, Clone)]
pub struct ServerConfig {
    pub gdb_path: String,
    pub gdb_options: String,
    pub codebase_dir: String,
    pub executable_path: String,
    pub mcp_server_name: String,
    pub mcp_server_url: String,
    pub display_lines_before_current: usize,
    pub display_lines_after_current: usize,
    pub display_backtrace: usize,
    pub display_variable_list: usize,
    pub display_join_current_code: bool,
    /// Optional "host:port" of OpenOCD's telnet control interface, by which a
    /// running target can be halted on platforms without POSIX signals.
    pub openocd_telnet_addr: Option<String>,
    /// The rules by which the paths above are read.
    pub path_rules: PathRules,
}

/// A configuration, as a mathematical value.
#[verifier::ext_equal]
pub struct Config {
    pub gdb_path: Text,
    pub gdb_options: Text,
    pub codebase_dir: Text,
    pub executable_path: Text,
    pub mcp_server_name: Text,
    pub mcp_server_url: Text,
    pub display_lines_before_current: usize,
    pub display_lines_after_current: usize,
    pub display_backtrace: usize,
    pub display_variable_list: usize,
    pub display_join_current_code: bool,
    pub openocd_telnet_addr: Option<Text>,
    pub separator: char,
}

impl View for ServerConfig {
    type V = Config;

    open spec fn view(&self) -> Config {
        Config {
            gdb_path: self.gdb_path@,
            gdb_options: self.gdb_options@,
            codebase_dir: self.codebase_dir@,
            executable_path: self.executable_path@,
            mcp_server_name: self.mcp_server_name@,
            mcp_server_url: self.mcp_server_url@,
            display_lines_before_current: self.display_lines_before_current,
            display_lines_after_current: self.display_lines_after_current,
            display_backtrace: self.display_backtrace,
            display_variable_list: self.display_variable_list,
            display_join_current_code: self.display_join_current_code,
            openocd_telnet_addr: text::optional(self.openocd_telnet_addr),
            separator: self.path_rules@,
        }
    }
}

/// The configurations that the server accepts: the three paths are absolute,
/// and at least one frame and one variable are shown.
pub open spec fn valid(config: Config) -> bool {
    &&& paths::absolute(config.separator, config.gdb_path)
    &&& paths::absolute(config.separator, config.codebase_dir)
    &&& paths::absolute(config.separator, config.executable_path)
    &&& config.display_backtrace > 0
    &&& config.display_variable_list > 0
}

/// The first rule that a configuration breaks.
pub open spec fn problem(config: Config) -> Option<Text> {
    if !paths::absolute(config.separator, config.gdb_path) {
        Some("gdb_path must be absolute"@)
    } else if !paths::absolute(config.separator, config.codebase_dir) {
        Some("codebase_dir must be absolute"@)
    } else if !paths::absolute(config.separator, config.executable_path) {
        Some("executable_path must be absolute"@)
    } else if config.display_backtrace == 0 {
        Some("display_backtrace must be > 0"@)
    } else if config.display_variable_list == 0 {
        Some("display_variable_list must be > 0"@)
    } else {
        None
    }
}

/// The name of a server that was given none.
pub fn default_server_name() -> (name: String)
    ensures
        name@ == "MCP GDB Server"@,
{
    "MCP GDB Server".to_string()
}

/// The address of a server that was given none.
pub fn default_server_url() -> (url: String)
    ensures
        url@ == "https://localhost:9443"@,
{
    "https://localhost:9443".to_string()
}

/// How many source lines are shown before the current one.
pub fn default_lines_before() -> (size: usize)
    ensures
        size == 7,
{
    7
}

/// How many source lines are shown behind the current one.
pub fn default_lines_after() -> (size: usize)
    ensures
        size == 8,
{
    8
}

/// How many frames are shown.
pub fn default_backtrace() -> (size: usize)
    ensures
        size == 6,
{
    6
}

/// How many watched variables are shown.
pub fn default_variable_list() -> (size: usize)
    ensures
        size == 9,
{
    9
}

impl ServerConfig {
    /// Checks the rules of a configuration, and names the first broken one.
    pub fn validate(&self) -> (result: Result<(), OpenMcpGdbError>)
        ensures
            result is Ok <==> valid(self@),
            match result {
                Ok(_) => problem(self@) is None,
                Err(OpenMcpGdbError::InvalidConfig(message)) => problem(self@) == Some(message@),
                Err(_) => false,
            },
            self.path_rules@ == '/' ==> match result {
                Ok(_) => {
                    &&& paths::begins_with_slash(self.gdb_path@)
                    &&& paths::begins_with_slash(self.codebase_dir@)
                    &&& paths::begins_with_slash(self.executable_path@)
                    &&& self.display_backtrace > 0
                    &&& self.display_variable_list > 0
                },
                Err(OpenMcpGdbError::InvalidConfig(message)) => {
                    if !paths::begins_with_slash(self.gdb_path@) {
                        message@ == "gdb_path must be absolute"@
                    } else if !paths::begins_with_slash(self.codebase_dir@) {
                        message@ == "codebase_dir must be absolute"@
                    } else if !paths::begins_with_slash(self.executable_path@) {
                        message@ == "executable_path must be absolute"@
                    } else if self.display_backtrace == 0 {
                        message@ == "display_backtrace must be > 0"@
                    } else {
                        self.display_variable_list == 0 && message@
                            == "display_variable_list must be > 0"@
                    }
                },
                Err(_) => false,
            },
    {
        if !self.path_rules.is_absolute(self.gdb_path.as_str()) {
            return Err(
                OpenMcpGdbError::InvalidConfig("gdb_path must be absolute".to_string()),
            );
        }
        if !self.path_rules.is_absolute(self.codebase_dir.as_str()) {
            return Err(
                OpenMcpGdbError::InvalidConfig("codebase_dir must be absolute".to_string()),
            );
        }
        if !self.path_rules.is_absolute(self.executable_path.as_str()) {
            return Err(
                OpenMcpGdbError::InvalidConfig("executable_path must be absolute".to_string()),
            );
        }
        if self.display_backtrace == 0 {
            return Err(
                OpenMcpGdbError::InvalidConfig("display_backtrace must be > 0".to_string()),
            );
        }
        if self.display_variable_list == 0 {
            return Err(
                OpenMcpGdbError::InvalidConfig("display_variable_list must be > 0".to_string()),
            );
        }
        Ok(())
    }
}

} // verus!
