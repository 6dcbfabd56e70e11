use vstd::prelude::*;

verus! {

/// What the program is asked to do on the command line.
#[derive(Clone, Debug, PartialEq)]
pub struct Args {
    /// The command the player just ran, handed over by the shell to be checked.
    pub user_command: Option<String>,
    pub command: Option<Commands>,
}

/// The subcommands of the program.
#[derive(Clone, Debug, PartialEq)]
pub enum Commands {
    /// Plays a level: the one named, the current one by default, or one picked from a menu.
    Play { level: Option<String>, interactive: bool },
    /// Ends the current level early, otherwise does nothing.
    End { early: bool },
    /// Forgets all progress and starts again from level `0`.
    Restart,
    /// Lists all levels.
    All,
    /// Shows the current level, briefly when `short` is set.
    Current { short: bool },
}

} // verus!
