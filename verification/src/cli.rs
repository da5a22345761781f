//! The command line: one subcommand per run.

use vstd::prelude::*;

verus! {

/// What one run of the tool does.
#[derive(Clone, Copy, Debug, PartialEq, Eq, Structural)]
pub enum Command {
    /// Create config, state, and log directories and write a starter config.
    Init,
    /// Run one scheduled launchd tick.
    Tick,
    /// Show resolved paths and current state.
    Show,
    /// Force-regenerate today's schedule.
    Regen,
    /// Install the per-user LaunchAgent plist.
    InstallAgent,
    /// Remove the LaunchAgent plist and print the unload command.
    UninstallAgent,
    /// Print the rendered LaunchAgent plist.
    PrintPlist,
}

/// The parsed command line.
#[derive(Clone, Copy, Debug, PartialEq, Eq, Structural)]
pub struct Cli {
    pub command: Command,
}

} // verus!
