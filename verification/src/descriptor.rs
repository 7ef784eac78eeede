//! The read-only description of a command and its arguments that the
//! state model is built from: plain data, populated ahead of time by
//! whatever front end declares the command line.

use vstd::prelude::*;

verus! {

/// What kind of value an argument expects, as a hint for pickers.
#[derive(Clone, Copy, PartialEq, Eq, Structural)]
pub enum ValueHint {
    /// No particular shape.
    Unspecified,
    /// Any path.
    AnyPath,
    /// A path to a file.
    FilePath,
    /// A path to a directory.
    DirPath,
}

/// One declared argument: its identifier, call tokens, and the flags
/// that drive serialization.
pub struct ArgDescriptor {
    /// The declaration identifier, e.g. a field name.
    pub id: String,
    /// The long switch name, without the leading dashes.
    pub long: Option<String>,
    /// The short switch character, without the leading dash.
    pub short: Option<String>,
    /// Help text.
    pub help: Option<String>,
    /// Longer help text, preferred over `help` when present.
    pub long_help: Option<String>,
    /// Whether the parser insists on a value.
    pub required: bool,
    /// Whether an empty value is rejected.
    pub forbid_empty: bool,
    /// Whether the argument takes a value at all.
    pub takes_value: bool,
    /// Whether one occurrence may carry several values.
    pub multiple_values: bool,
    /// Whether the argument may occur several times.
    pub multiple_occurrences: bool,
    /// Whether several values may be packed into one comma-joined token.
    pub use_delimiter: bool,
    /// Whether several values must be packed into one comma-joined token.
    pub require_delimiter: bool,
    /// Whether the value must be attached with `=`.
    pub require_equals: bool,
    /// Declared default values: at most one for single-valued arguments.
    pub default_values: Vec<String>,
    /// The closed set of allowed values; empty means free text.
    pub possible_values: Vec<String>,
    /// The value shape hint.
    pub value_hint: ValueHint,
}

/// One command node: its arguments and sub-commands, in declaration order.
pub struct CommandDescriptor {
    /// The command's name, as typed on the command line.
    pub name: String,
    /// Description text.
    pub about: Option<String>,
    /// Declared arguments, in declaration order.
    pub args: Vec<ArgDescriptor>,
    /// Declared sub-commands, in declaration order.
    pub subcommands: Vec<CommandDescriptor>,
}

impl CommandDescriptor {
    /// Sub-command names are distinct at every level, so that selecting
    /// one by name is unambiguous.
    pub open spec fn wf(self) -> bool
        decreases self,
    {
        &&& forall|i: int, j: int|
                0 <= i < j < self.subcommands.len()
                    ==> #[trigger] self.subcommands[i].name@
                        != #[trigger] self.subcommands[j].name@
        &&& forall|i: int|
                0 <= i < self.subcommands.len() ==> (#[trigger] self.subcommands[i]).wf()
    }
}

} // verus!
