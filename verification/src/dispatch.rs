use vstd::prelude::*;

use crate::args::Commands;
use crate::message::Message;

verus! {

/// What the game does first for a command.
#[derive(Clone, Debug, PartialEq)]
pub enum SessionStart {
    /// Ask whether to forget all progress, and do so on yes; nothing else.
    ConfirmRestart,
    /// List all levels; nothing else.
    ListAllLevels,
    /// Show the current level, briefly when `short` is set; nothing else.
    ShowCurrentLevel { short: bool },
    /// Go on. When `play` is given, first send it to the shell and, when it names a level,
    /// make that level current.
    Proceed { play: Option<Message> },
}

/// The first step of the game for a command.
pub open spec fn session_start_spec(command: Option<Commands>) -> SessionStart {
    match command {
        Some(Commands::Restart) => SessionStart::ConfirmRestart,
        Some(Commands::All) => SessionStart::ListAllLevels,
        Some(Commands::Current { short }) => SessionStart::ShowCurrentLevel { short },
        Some(Commands::Play { level, interactive }) => SessionStart::Proceed {
            play: Some(Message::Play(level, interactive)),
        },
        _ => SessionStart::Proceed { play: None },
    }
}

/// Decides the first step of the game for a command.
pub fn session_start(command: &Option<Commands>) -> (start: SessionStart)
    ensures
        start == session_start_spec(*command),
{
    match command {
        Some(Commands::Restart) => SessionStart::ConfirmRestart,
        Some(Commands::All) => SessionStart::ListAllLevels,
        Some(Commands::Current { short }) => SessionStart::ShowCurrentLevel { short: *short },
        Some(Commands::Play { level, interactive }) => SessionStart::Proceed {
            play: Some(Message::Play(copy_level(level), *interactive)),
        },
        _ => SessionStart::Proceed { play: None },
    }
}

/// What the game does once any level to play has been sent, depending on whether it runs
/// inside the learning shell.
#[derive(Clone, Copy, Debug, PartialEq, Eq, Structural)]
pub enum ShellStep {
    /// Outside the shell, ending a level makes no sense: say so and stop.
    RefuseEnd,
    /// Outside the shell: start it.
    LaunchShell,
    /// Inside the shell: end the level when `end` is given (with whether it was completed;
    /// ending it by command always ends it early), then check whether the current level is
    /// complete.
    InShell { end: Option<bool> },
}

/// The step of the game that follows the first one.
pub open spec fn shell_step_spec(command: Option<Commands>, app_active: bool) -> ShellStep {
    if !app_active {
        match command {
            Some(Commands::End { .. }) => ShellStep::RefuseEnd,
            _ => ShellStep::LaunchShell,
        }
    } else {
        match command {
            Some(Commands::End { .. }) => ShellStep::InShell { end: Some(false) },
            _ => ShellStep::InShell { end: None },
        }
    }
}

/// Decides the step of the game that follows the first one; ending a level by command inside
/// the shell ends it early, without scoring it.
pub fn shell_step(command: &Option<Commands>, app_active: bool) -> (step: ShellStep)
    ensures
        step == shell_step_spec(*command, app_active),
{
    if !app_active {
        match command {
            Some(Commands::End { .. }) => ShellStep::RefuseEnd,
            _ => ShellStep::LaunchShell,
        }
    } else {
        match command {
            Some(Commands::End { .. }) => ShellStep::InShell { end: Some(false) },
            _ => ShellStep::InShell { end: None },
        }
    }
}

/// What the launcher does for a command.
#[derive(Clone, Debug, PartialEq)]
pub struct LauncherPlan {
    /// Outside the shell, ending a level is refused with a notice, and nothing else happens.
    pub refuse_end: bool,
    /// The message to send to the shell, if any.
    pub message: Option<Message>,
    /// The level to record as current once the message is sent, if any.
    pub save_level: Option<String>,
    /// Whether the shell is started afterwards.
    pub launch_shell: bool,
    /// Whether the current level is then checked for completion.
    pub check_level: bool,
}

/// What the launcher does for a command, inside the learning shell or not.
pub open spec fn launcher_plan_spec(command: Option<Commands>, app_active: bool) -> LauncherPlan {
    match command {
        Some(Commands::Play { level, interactive }) => LauncherPlan {
            refuse_end: false,
            message: Some(Message::Play(level, interactive)),
            save_level: level,
            launch_shell: !app_active,
            check_level: app_active,
        },
        Some(Commands::End { early }) => LauncherPlan {
            refuse_end: !app_active,
            message: if app_active {
                Some(Message::End(early))
            } else {
                None
            },
            save_level: None,
            launch_shell: false,
            check_level: app_active,
        },
        _ => LauncherPlan {
            refuse_end: false,
            message: None,
            save_level: None,
            launch_shell: !app_active,
            check_level: app_active,
        },
    }
}

fn copy_level(level: &Option<String>) -> (copy: Option<String>)
    ensures
        copy == *level,
{
    match level {
        Some(l) => Some(l.clone()),
        None => None,
    }
}

/// Decides what the launcher does for a command.
pub fn launcher_plan(command: &Option<Commands>, app_active: bool) -> (plan: LauncherPlan)
    ensures
        plan == launcher_plan_spec(*command, app_active),
{
    match command {
        Some(Commands::Play { level, interactive }) => LauncherPlan {
            refuse_end: false,
            message: Some(Message::Play(copy_level(level), *interactive)),
            save_level: copy_level(level),
            launch_shell: !app_active,
            check_level: app_active,
        },
        Some(Commands::End { early }) => LauncherPlan {
            refuse_end: !app_active,
            message: if app_active {
                Some(Message::End(*early))
            } else {
                None
            },
            save_level: None,
            launch_shell: false,
            check_level: app_active,
        },
        _ => LauncherPlan {
            refuse_end: false,
            message: None,
            save_level: None,
            launch_shell: !app_active,
            check_level: app_active,
        },
    }
}

} // verus!
