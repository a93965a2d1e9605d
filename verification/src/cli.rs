//! The command line.
use vstd::prelude::*;

verus! {

/// The command line: an optional configuration file, an optional
/// directory to open directly, and two options used internally.
#[derive(Debug)]
pub struct Args {
    /// Path to a config file.
    pub config: Option<String>,
    /// A directory to open as a tmux session; the configuration still applies.
    pub dir: Option<String>,
    /// Finds projects without starting fzf or tmux.
    pub headless: bool,
    /// Asks before running this command (used for `@confirm`).
    pub run_command: Option<String>,
}

} // verus!
