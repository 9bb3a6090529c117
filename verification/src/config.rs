//! Options consumed by the ranking engine and the launch planner.  The
//! surrounding program fills this in from wherever it keeps its settings;
//! the core only reads it.

use vstd::prelude::*;

verus! {

/// Launcher options that influence ranking and launching.
pub struct Config {
    /// Queries starting with this prefix are treated as literal shell
    /// commands; an empty prefix disables command mode.
    pub command_prefix: String,
    /// Template for wrapping terminal applications, with `{}` marking
    /// where the application's command line is substituted.
    pub term_command: Option<String>,
    /// Whether launches are wrapped in a transient user-scope unit.
    pub cgroups: bool,
    /// Whether history records without a matching entry are dropped on load.
    pub prune_history: bool,
}

} // verus!
