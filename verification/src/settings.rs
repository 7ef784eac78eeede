//! Configuration for a session host: which extra input channels are
//! offered to the user, and the text shown for every built-in label.

use vstd::prelude::*;

verus! {

/// Overridable text for the built-in interface strings.
pub struct Localization {
    /// Shown when a value is optional.
    pub optional: String,
    /// Button text for picking a file.
    pub select_file: String,
    /// Button text for picking a directory.
    pub select_directory: String,
    /// Button text for adding a row to a multi-value argument.
    pub new_value: String,
    /// Button text for clearing a multi-value argument.
    pub reset: String,
    /// Button text for restoring a multi-value argument's defaults.
    pub reset_to_default: String,
    /// Error text around a missing required argument's name.
    pub error_is_required: (String, String),
    /// Tab label for the argument editor.
    pub arguments: String,
    /// Tab label for the environment editor.
    pub env_variables: String,
    /// Error text for an environment override with an empty key.
    pub error_env_var_cant_be_empty: String,
    /// Tab label for the input editor.
    pub input: String,
    /// Button text for typing input directly.
    pub text: String,
    /// Button text for streaming input from a file.
    pub file: String,
    /// Hint text for the working-directory field.
    pub working_directory: String,
    /// Button text for launching the program.
    pub run: String,
    /// Button text for terminating the program.
    pub kill: String,
    /// Status text shown while the program runs.
    pub running: String,
}

/// Whether a string table holds the built-in English strings.
pub open spec fn default_strings(l: Localization) -> bool {
    &&& l.optional@ == "(Optional)"@
    &&& l.select_file@ == "Select file..."@
    &&& l.select_directory@ == "Select directory..."@
    &&& l.new_value@ == "New value"@
    &&& l.reset@ == "Reset"@
    &&& l.reset_to_default@ == "Reset to default"@
    &&& l.error_is_required.0@ == "Argument '"@
    &&& l.error_is_required.1@ == "' is required"@
    &&& l.arguments@ == "Arguments"@
    &&& l.env_variables@ == "Environment variables"@
    &&& l.error_env_var_cant_be_empty@ == "Environment variable can't be empty"@
    &&& l.input@ == "Input"@
    &&& l.text@ == "Text"@
    &&& l.file@ == "File"@
    &&& l.working_directory@ == "Working directory"@
    &&& l.run@ == "Run"@
    &&& l.kill@ == "Kill"@
    &&& l.running@ == "Running"@
}

/// Whether two string tables hold the same text in every field.
pub open spec fn loc_view_eq(a: Localization, b: Localization) -> bool {
    &&& a.optional@ == b.optional@
    &&& a.select_file@ == b.select_file@
    &&& a.select_directory@ == b.select_directory@
    &&& a.new_value@ == b.new_value@
    &&& a.reset@ == b.reset@
    &&& a.reset_to_default@ == b.reset_to_default@
    &&& a.error_is_required.0@ == b.error_is_required.0@
    &&& a.error_is_required.1@ == b.error_is_required.1@
    &&& a.arguments@ == b.arguments@
    &&& a.env_variables@ == b.env_variables@
    &&& a.error_env_var_cant_be_empty@ == b.error_env_var_cant_be_empty@
    &&& a.input@ == b.input@
    &&& a.text@ == b.text@
    &&& a.file@ == b.file@
    &&& a.working_directory@ == b.working_directory@
    &&& a.run@ == b.run@
    &&& a.kill@ == b.kill@
    &&& a.running@ == b.running@
}

impl Default for Localization {
    /// The built-in English strings.
    fn default() -> (d: Self)
        ensures
            default_strings(d),
    {
        Localization {
            optional: "(Optional)".to_owned(),
            select_file: "Select file...".to_owned(),
            select_directory: "Select directory...".to_owned(),
            new_value: "New value".to_owned(),
            reset: "Reset".to_owned(),
            reset_to_default: "Reset to default".to_owned(),
            error_is_required: ("Argument '".to_owned(), "' is required".to_owned()),
            arguments: "Arguments".to_owned(),
            env_variables: "Environment variables".to_owned(),
            error_env_var_cant_be_empty: "Environment variable can't be empty".to_owned(),
            input: "Input".to_owned(),
            text: "Text".to_owned(),
            file: "File".to_owned(),
            working_directory: "Working directory".to_owned(),
            run: "Run".to_owned(),
            kill: "Kill".to_owned(),
            running: "Running".to_owned(),
        }
    }
}

impl Localization {
    /// A fresh copy of this string table.
    pub fn duplicate(&self) -> (d: Self)
        ensures
            loc_view_eq(d, *self),
    {
        Localization {
            optional: self.optional.clone(),
            select_file: self.select_file.clone(),
            select_directory: self.select_directory.clone(),
            new_value: self.new_value.clone(),
            reset: self.reset.clone(),
            reset_to_default: self.reset_to_default.clone(),
            error_is_required: (
                self.error_is_required.0.clone(),
                self.error_is_required.1.clone(),
            ),
            arguments: self.arguments.clone(),
            env_variables: self.env_variables.clone(),
            error_env_var_cant_be_empty: self.error_env_var_cant_be_empty.clone(),
            input: self.input.clone(),
            text: self.text.clone(),
            file: self.file.clone(),
            working_directory: self.working_directory.clone(),
            run: self.run.clone(),
            kill: self.kill.clone(),
            running: self.running.clone(),
        }
    }
}

/// Host configuration. Each channel is offered to the user exactly when
/// its field is `Some`; the string is a description shown next to it.
pub struct Settings {
    /// Offer environment-variable overrides.
    pub enable_env: Option<String>,
    /// Offer writing to the child's standard input.
    pub enable_stdin: Option<String>,
    /// Offer choosing the child's working directory.
    pub enable_working_dir: Option<String>,
    /// The interface string table.
    pub localization: Localization,
}

impl Default for Settings {
    /// All extra channels disabled, built-in strings.
    fn default() -> (d: Self)
        ensures
            d.enable_env is None,
            d.enable_stdin is None,
            d.enable_working_dir is None,
            default_strings(d.localization),
    {
        Settings {
            enable_env: None,
            enable_stdin: None,
            enable_working_dir: None,
            localization: Localization::default(),
        }
    }
}

} // verus!
