use crate::text::str_eq;
use vstd::prelude::*;
use vstd::string::StringExecFns;

verus! {

/// The commands a formatter's command line accepts.
#[derive(Debug, Clone, Copy, PartialEq, Eq, Structural)]
pub enum CliCommand {
    /// Create or validate a configuration file.
    Init,
    /// Format source files and write changes.
    Format,
    /// Check whether files are formatted correctly.
    Check,
}

impl CliCommand {
    /// The command word as written on the command line.
    pub fn as_str(self) -> (r: &'static str)
        ensures
            self == CliCommand::Init ==> r@ == "init"@,
            self == CliCommand::Format ==> r@ == "format"@,
            self == CliCommand::Check ==> r@ == "check"@,
    {
        match self {
            CliCommand::Init => "init",
            CliCommand::Format => "format",
            CliCommand::Check => "check",
        }
    }
}

/// Parse a command word into a command, if it names one.
pub fn parse_command(cmd_str: &str) -> (r: Option<CliCommand>)
    ensures
        r == if cmd_str@ == "init"@ {
            Some(CliCommand::Init)
        } else if cmd_str@ == "format"@ {
            Some(CliCommand::Format)
        } else if cmd_str@ == "check"@ {
            Some(CliCommand::Check)
        } else {
            None::<CliCommand>
        },
{
    if str_eq(cmd_str, CliCommand::Init.as_str()) {
        Some(CliCommand::Init)
    } else if str_eq(cmd_str, CliCommand::Format.as_str()) {
        Some(CliCommand::Format)
    } else if str_eq(cmd_str, CliCommand::Check.as_str()) {
        Some(CliCommand::Check)
    } else {
        None
    }
}

/// The default configuration file name for a binary: its name plus `.yml`.
pub fn default_config_name(bin_name: &str) -> (r: String)
    ensures
        r@ == bin_name@ + ".yml"@,
{
    let mut name = bin_name.to_owned();
    name.append(".yml");
    name
}

} // verus!
