//! The command-line surface of the tool: which subcommand to run and its
//! arguments.  Argument parsing itself is done by the surrounding binary;
//! these types carry the parsed values.

use vstd::prelude::*;

verus! {

/// A parsed command line: the subcommand to run (none means the default,
/// the interactive prompt) and the version flag.
pub struct Cli {
    pub command: Option<Subcommands>,
    pub version: bool,
}

/// The subcommands of the tool.
pub enum Subcommands {
    Run(Run),
    Lsp(Lsp),
    Repl(Repl),
    Workbench(Workbench),
}

/// Runs a script file.
pub struct Run {
    pub file: Option<String>,
}

/// Starts the language server.
pub struct Lsp {}

/// Starts the interactive prompt.
pub struct Repl {
    /// Verbose mode for debugging.
    pub verbose: bool,
    /// Optional path to a configuration file.
    pub config: Option<String>,
}

/// Starts the terminal dashboard.
pub struct Workbench {}

} // verus!
