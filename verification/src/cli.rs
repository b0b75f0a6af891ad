//! The command line surface: what the user asked for, once parsed.

use vstd::prelude::*;

use crate::shell::Shell;

verus! {

/// A minimalist prompt showing the user, hostname, directory, and git branch.
#[derive(Debug)]
pub struct Cli {
    pub command: Command,
}

/// The subcommands. `prompt` is called by the snippet `init` emits.
#[derive(Debug)]
#[allow(inconsistent_fields)]
pub enum Command {
    /// Print the shell integration snippet for bash, zsh, or fish.
    Init { shell: Shell },
    /// Print one prompt line. Called by the shell hook. Without a shell the
    /// colors are raw ANSI.
    Prompt { shell: Option<Shell> },
}

} // verus!
