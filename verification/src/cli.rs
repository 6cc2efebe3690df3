//! The command vocabulary shared by the command line and the event file.
use vstd::prelude::*;

use crate::text::str_eq;

verus! {

/// A command given to the program.
#[derive(Debug)]
pub enum Commands {
    Halt,
    Next,
    Reload,
    Load { name: String },
}

/// The parsed command line: no command means "run the wallpaper".
#[derive(Debug)]
pub struct Cli {
    pub command: Option<Commands>,
}

/// Why a command line is refused.
#[derive(Debug, Clone, Copy, PartialEq, Eq, Structural)]
pub enum CliError {
    /// The argument names no known command.
    UnknownCommand,
}

/// The command that an event word names: `halt`, `next` or `reload`.
pub open spec fn word_command(w: Seq<char>) -> Option<Commands> {
    if w == "halt"@ {
        Some(Commands::Halt)
    } else if w == "next"@ {
        Some(Commands::Next)
    } else if w == "reload"@ {
        Some(Commands::Reload)
    } else {
        None
    }
}

/// The command that `word` names, if any.
pub fn parse_word(word: &str) -> (r: Option<Commands>)
    ensures
        r == word_command(word@),
{
    if str_eq(word, "halt") {
        Some(Commands::Halt)
    } else if str_eq(word, "next") {
        Some(Commands::Next)
    } else if str_eq(word, "reload") {
        Some(Commands::Reload)
    } else {
        None
    }
}

impl Cli {
    /// Interpret the first command-line argument: none runs the wallpaper,
    /// `halt`, `next` and `reload` are sent to a running instance, anything
    /// else is refused.
    pub fn from_arg(arg: Option<&str>) -> (r: Result<Cli, CliError>)
        ensures
            match arg {
                None => r == Ok::<Cli, CliError>(Cli { command: None }),
                Some(w) => match word_command(w@) {
                    Some(c) => r == Ok::<Cli, CliError>(Cli { command: Some(c) }),
                    None => r == Err::<Cli, CliError>(CliError::UnknownCommand),
                },
            },
    {
        match arg {
            None => Ok(Cli { command: None }),
            Some(w) => match parse_word(w) {
                Some(c) => Ok(Cli { command: Some(c) }),
                None => Err(CliError::UnknownCommand),
            },
        }
    }
}

} // verus!
