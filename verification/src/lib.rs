//! Logic of the netfyr command line: what each subcommand decides and prints.
use vstd::prelude::*;
use vstd::string::*;

use crate::apply::ApplyArgs;
use crate::completions::CompletionsArgs;
use crate::diagnose::DiagnoseArgs;
use crate::history::HistoryArgs;
use crate::query::QueryArgs;
use crate::revert::RevertArgs;
use crate::show::ShowArgs;
use crate::styled::set_override;
use crate::text::cat2;

pub mod apply;
pub mod completions;
pub mod diagnose;
pub mod flat;
pub mod history;
pub mod journal;
pub mod json;
pub mod query;
pub mod revert;
pub mod runtime;
pub mod show;
pub mod styled;
pub mod text;
pub mod time;

verus! {

/// Whether output is coloured.
#[derive(Clone, Copy, Debug, PartialEq, Eq, Structural)]
pub enum ColorMode {
    /// Where the standard stream is a terminal.
    Auto,
    /// Always, also where the output is piped.
    Always,
    /// Never.
    Never,
}

/// The command line.
#[derive(Debug)]
pub struct Cli {
    /// Whether output is coloured.
    pub color: ColorMode,
    /// The subcommand.
    pub command: Commands,
}

/// The subcommands.
#[derive(Debug)]
pub enum Commands {
    /// Applies policies.
    Apply(ApplyArgs),
    /// Queries the current state.
    Query(QueryArgs),
    /// Shows the journal.
    History(HistoryArgs),
    /// Goes back to the state of a journal entry.
    Revert(RevertArgs),
    /// Looks for problems.
    Diagnose(DiagnoseArgs),
    /// Shows the daemon, its policies and the interfaces.
    Show(ShowArgs),
    /// Generates shell completions.
    Completions(CompletionsArgs),
}

/// The setting that overrides the detection of a terminal; none where it decides.
/// A wish for no colour in the environment goes ahead of the command line.
pub open spec fn color_setting(mode: ColorMode, no_color: bool) -> Option<bool> {
    if no_color {
        Some(false)
    } else {
        match mode {
            ColorMode::Always => Some(true),
            ColorMode::Never => Some(false),
            ColorMode::Auto => None,
        }
    }
}

/// A wish for no colour in the environment is always met.
pub proof fn no_colour_is_met(mode: ColorMode)
    ensures
        color_setting(mode, true) == Some(false),
{
}

/// Makes output coloured or not, as the command line and the environment have it,
/// and returns the setting that was made; none where the terminal decides.
pub fn resolve_color_mode(mode: &ColorMode, no_color: bool) -> (r: Option<bool>)
    ensures
        r == color_setting(*mode, no_color),
{
    let setting = if no_color {
        Some(false)
    } else {
        match mode {
            ColorMode::Always => Some(true),
            ColorMode::Never => Some(false),
            ColorMode::Auto => None,
        }
    };
    if let Some(on) = setting {
        set_override(on);
    }
    setting
}

/// What is said of an error that ends the program. The exit code is then 2.
pub fn failure_text(error: &str) -> (r: String)
    ensures
        r@ == "Error: "@ + error@,
{
    cat2("Error: ", error)
}

/// The command line decides on colour where the environment has no wish: always,
/// never, or as the terminal is.
pub proof fn colour_follows_the_command_line()
    ensures
        color_setting(ColorMode::Always, false) == Some(true),
        color_setting(ColorMode::Never, false) == Some(false),
        color_setting(ColorMode::Auto, false) is None,
{
}

} // verus!
