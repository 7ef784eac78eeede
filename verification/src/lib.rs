//! A verified core for a GUI front-end over declaratively described
//! command-line programs: argument state that serializes losslessly back
//! into the token sequence the parser accepts, a child-process session
//! state machine, and a codec for the progress-report protocol embedded
//! in the child's output stream.

pub mod app_state;
pub mod child_app;
pub mod example_opts;
pub mod arg_state;
pub mod descriptor;
pub mod error;
pub mod output;
pub mod settings;
pub mod strings;
pub mod validation;

use vstd::prelude::*;

verus! {

/// Environment variable that marks a relaunched process as the worker.
pub const CHILD_APP_ENV_VAR: &'static str = "KLASK_CHILD_APP";

} // verus!
