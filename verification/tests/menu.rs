use learn_cli::level_checker::{Level, LevelType};
use learn_cli::menu::{level_details, menu_key_step, seconds_text, MenuKey, MenuOutcome};
use learn_cli::scoring::Rank;

#[test]
fn menu_keys_move_choose_and_leave() {
    assert_eq!(menu_key_step(0, 3, MenuKey::Down), MenuOutcome::Stay(1));
    assert_eq!(menu_key_step(2, 3, MenuKey::Down), MenuOutcome::Stay(2));
    assert_eq!(menu_key_step(2, 3, MenuKey::Up), MenuOutcome::Stay(1));
    assert_eq!(menu_key_step(0, 3, MenuKey::Up), MenuOutcome::Stay(0));
    assert_eq!(menu_key_step(1, 3, MenuKey::Select), MenuOutcome::Chosen(1));
    assert_eq!(menu_key_step(1, 3, MenuKey::Quit), MenuOutcome::Left);
    assert_eq!(menu_key_step(1, 3, MenuKey::Other), MenuOutcome::Stay(1));
    assert_eq!(menu_key_step(0, 1, MenuKey::Down), MenuOutcome::Stay(0));
}

#[test]
fn times_are_shown_in_seconds() {
    assert_eq!(seconds_text(350), "3.5");
    assert_eq!(seconds_text(300), "3");
    assert_eq!(seconds_text(305), "3.05");
    assert_eq!(seconds_text(7), "0.07");
    assert_eq!(seconds_text(0), "0");
    assert_eq!(seconds_text(-50), "-0.5");
    assert_eq!(seconds_text(123456), "1234.56");
    assert_eq!(seconds_text(i64::MIN), "-92233720368547758.08");
}

#[test]
fn level_details_show_each_result() {
    let level = Level {
        level_title: "files".into(),
        level_description: "make a file".into(),
        level_type: LevelType::File { target_file: "a".into(), correct_content: None },
        highest_score: Some(20),
        shortest_time: Some(350),
        commands_used: Some(2),
        rank: Some(Rank::Gold),
    };
    let d = level_details(&level);
    assert_eq!(d.title, "files");
    assert_eq!(d.instructions, "make a file");
    assert_eq!(d.level_type, "File");
    assert_eq!(d.highscore, "20");
    assert_eq!(d.shortest_time, "3.5");
    assert_eq!(d.commands_used, "2");
    assert_eq!(d.rank, Some(Rank::Gold));

    let fresh = Level { highest_score: None, shortest_time: None, commands_used: None, rank: None, ..level };
    let d = level_details(&fresh);
    assert_eq!(d.highscore, "N/A");
    assert_eq!(d.shortest_time, "N/A");
    assert_eq!(d.commands_used, "N/A");
    assert_eq!(d.rank, None);
}
