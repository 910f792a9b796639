//! The `completions` subcommand.
use vstd::prelude::*;

verus! {

/// The shells for which completions can be generated.
#[derive(Clone, Copy, Debug, PartialEq, Eq, Structural)]
pub enum Shell {
    Bash,
    Elvish,
    Fish,
    PowerShell,
    Zsh,
}

/// The arguments of the `completions` subcommand.
#[derive(Clone, Copy, Debug)]
pub struct CompletionsArgs {
    /// The shell to generate completions for.
    pub shell: Shell,
}

} // verus!
