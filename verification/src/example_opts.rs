//! A small sample option model, the typed result a host would decode
//! from a parsed invocation of the sample command.

use vstd::prelude::*;

verus! {

/// Top-level options of the sample command.
pub struct Opts {
    /// The selected sub-command.
    pub subcmd: SubCommand,
    /// A custom config file path.
    pub config: String,
    /// Some required input.
    pub input: String,
    /// A level of verbosity, counted.
    pub verbose: u32,
}

/// The sample command's sub-commands.
pub enum SubCommand {
    /// Controls testing.
    Test(Test),
    /// Runs something.
    Run(Run),
    /// Runs something else.
    Walk(Walk),
}

/// A sub-command for controlling testing.
pub struct Test {
    /// Print debug info.
    pub debug: bool,
}

/// A sub-command for running.
pub struct Run {
    /// An example value.
    pub lalala: String,
}

/// Another sub-command for running.
pub struct Walk {
    /// Another example value.
    pub lalala: String,
}

} // verus!
