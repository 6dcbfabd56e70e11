use learn_cli::args::Commands;
use learn_cli::dispatch::{
    launcher_plan, session_start, shell_step, LauncherPlan, SessionStart, ShellStep,
};
use learn_cli::message::Message;

#[test]
fn first_steps() {
    assert_eq!(session_start(&Some(Commands::Restart)), SessionStart::ConfirmRestart);
    assert_eq!(session_start(&Some(Commands::All)), SessionStart::ListAllLevels);
    assert_eq!(
        session_start(&Some(Commands::Current { short: true })),
        SessionStart::ShowCurrentLevel { short: true }
    );
    assert_eq!(
        session_start(&Some(Commands::Play { level: Some("3".into()), interactive: false })),
        SessionStart::Proceed { play: Some(Message::Play(Some("3".into()), false)) }
    );
    assert_eq!(session_start(&None), SessionStart::Proceed { play: None });
    assert_eq!(
        session_start(&Some(Commands::End { early: true })),
        SessionStart::Proceed { play: None }
    );
}

#[test]
fn shell_steps() {
    let end_early = Some(Commands::End { early: true });
    let end = Some(Commands::End { early: false });
    assert_eq!(shell_step(&end_early, false), ShellStep::RefuseEnd);
    assert_eq!(shell_step(&None, false), ShellStep::LaunchShell);
    assert_eq!(shell_step(&end_early, true), ShellStep::InShell { end: Some(false) });
    assert_eq!(shell_step(&end, true), ShellStep::InShell { end: Some(false) });
    assert_eq!(shell_step(&Some(Commands::All), true), ShellStep::InShell { end: None });
}

#[test]
fn launcher_plans() {
    let play = Some(Commands::Play { level: Some("2".into()), interactive: false });
    assert_eq!(
        launcher_plan(&play, false),
        LauncherPlan {
            refuse_end: false,
            message: Some(Message::Play(Some("2".into()), false)),
            save_level: Some("2".into()),
            launch_shell: true,
            check_level: false,
        }
    );
    let end = Some(Commands::End { early: true });
    let outside = launcher_plan(&end, false);
    assert!(outside.refuse_end);
    assert!(!outside.launch_shell);
    let inside = launcher_plan(&end, true);
    assert!(!inside.refuse_end);
    assert_eq!(inside.message, Some(Message::End(true)));
    assert!(inside.check_level);
    let nothing = launcher_plan(&None, true);
    assert_eq!(nothing.message, None);
    assert!(nothing.check_level && !nothing.launch_shell);
}
