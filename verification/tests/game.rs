use learn_cli::game::{
    record_completion, selected_level_message_text, GameError, JsonData, LevelEntry,
};
use learn_cli::level_checker::{Level, LevelType};
use learn_cli::scoring::Rank;

fn level(title: &str, level_type: LevelType) -> Level {
    Level {
        level_title: title.into(),
        level_description: format!("{} description", title),
        level_type,
        highest_score: None,
        shortest_time: None,
        commands_used: None,
        rank: None,
    }
}

fn test_data() -> JsonData {
    let entries = vec![
        LevelEntry {
            id: "0".into(),
            level: level("intro", LevelType::Command { checker_command: "pwd".into() }),
        },
        LevelEntry {
            id: "1".into(),
            level: level(
                "files",
                LevelType::File { target_file: "/tmp/a".into(), correct_content: Some("x".into()) },
            ),
        },
        LevelEntry {
            id: "2".into(),
            level: level(
                "folders",
                LevelType::Directory { target_directory: "/tmp/d".into(), correct_file_tree: vec![] },
            ),
        },
    ];
    JsonData::from_entries("0".into(), entries).unwrap()
}

#[test]
fn json_handler_fetches_current_level_correctly() {
    let json_handler = test_data();
    let current_level = json_handler.level(json_handler.current_level_id());
    let fetched_level = json_handler.current_level();
    assert_eq!(current_level, fetched_level);
    assert_eq!(fetched_level.unwrap().level_title, "intro");
    assert_eq!(json_handler.current_level_required().map(|l| l.level_title.clone()), Ok("intro".to_string()));
}

#[test]
fn json_handler_updates_current_level_correctly() {
    let mut json_handler = test_data();
    let mut current_level = json_handler.current_level().unwrap().clone();
    current_level.highest_score = Some(20);
    current_level.shortest_time = Some(350);
    current_level.commands_used = Some(2);
    current_level.rank = Some(Rank::Gold);
    json_handler.update_current_level(current_level.clone());
    let updated_level = json_handler.current_level().unwrap().clone();
    assert_eq!(current_level, updated_level);
    assert_eq!(json_handler.level("1").unwrap().highest_score, None);
}

#[test]
fn json_handler_sets_current_level_correctly() {
    let mut json_handler = test_data();
    let selected_level = "1";
    assert_eq!(json_handler.set_current_level(selected_level.to_string()), Ok(()));
    assert_eq!(json_handler.current_level_id(), selected_level);
    assert_eq!(json_handler.current_level().unwrap().level_title, "files");
}

#[test]
fn setting_an_unknown_level_is_refused() {
    let mut data = test_data();
    assert_eq!(data.set_current_level("9".into()), Err(GameError::NoEntryForLevel));
    assert_eq!(data.current_level_id(), "0");
    assert_eq!(GameError::NoEntryForLevel.message(), "No entry for entered level");
    assert_eq!(GameError::NoCurrentLevel.message(), "No current level found");
}

#[test]
fn duplicate_identifiers_are_refused() {
    let entries = vec![
        LevelEntry { id: "0".into(), level: level("a", LevelType::Command { checker_command: "ls".into() }) },
        LevelEntry { id: "0".into(), level: level("b", LevelType::Command { checker_command: "ls".into() }) },
    ];
    assert!(JsonData::from_entries("0".into(), entries).is_none());
}

#[test]
fn updating_a_missing_current_level_changes_nothing() {
    let mut data = test_data();
    data.assign_current_level("7".into());
    assert!(data.current_level().is_none());
    assert_eq!(data.current_level_required(), Err(GameError::NoCurrentLevel));
    data.update_current_level(level("new", LevelType::Command { checker_command: "ls".into() }));
    assert!(data.current_level().is_none());
    assert_eq!(data.entries().len(), 3);
}

#[test]
fn restart_forgets_results_and_returns_to_level_zero() {
    let mut data = test_data();
    data.set_current_level("2".into()).unwrap();
    data.complete_current_level(500, 4, 13, Rank::Silver);
    assert_eq!(data.restart_data(), Ok(()));
    assert_eq!(data.current_level_id(), "0");
    for entry in data.entries() {
        assert_eq!(entry.level.highest_score, None);
        assert_eq!(entry.level.shortest_time, None);
        assert_eq!(entry.level.commands_used, None);
        assert_eq!(entry.level.rank, None);
    }
    assert_eq!(data.level("2").unwrap().level_title, "folders");
}

#[test]
fn restart_without_level_zero_is_refused_but_forgets() {
    let entries = vec![LevelEntry {
        id: "5".into(),
        level: Level {
            highest_score: Some(3),
            ..level("only", LevelType::Command { checker_command: "ls".into() })
        },
    }];
    let mut data = JsonData::from_entries("5".into(), entries).unwrap();
    assert_eq!(data.restart_data(), Err(GameError::NoEntryForLevel));
    assert_eq!(data.current_level_id(), "5");
    assert_eq!(data.current_level().unwrap().highest_score, None);
}

#[test]
fn completion_keeps_the_best_results() {
    let mut l = level("x", LevelType::Command { checker_command: "ls".into() });
    record_completion(&mut l, 1200, 6, 4, Rank::Bronze);
    assert_eq!(l.shortest_time, Some(1200));
    assert_eq!(l.commands_used, Some(6));
    assert_eq!(l.highest_score, Some(4));
    assert_eq!(l.rank, Some(Rank::Bronze));

    // Better on every count.
    record_completion(&mut l, 300, 2, 42, Rank::Gold);
    assert_eq!(l.shortest_time, Some(300));
    assert_eq!(l.commands_used, Some(2));
    assert_eq!(l.highest_score, Some(42));
    assert_eq!(l.rank, Some(Rank::Gold));

    // Worse on every count: nothing changes.
    record_completion(&mut l, 900, 9, 10, Rank::Silver);
    assert_eq!(l.shortest_time, Some(300));
    assert_eq!(l.commands_used, Some(2));
    assert_eq!(l.highest_score, Some(42));
    assert_eq!(l.rank, Some(Rank::Gold));

    // A time of zero or less and a score of zero or less are not taken.
    record_completion(&mut l, -5, 2, -1, Rank::Gold);
    assert_eq!(l.shortest_time, Some(300));
    assert_eq!(l.highest_score, Some(42));
}

#[test]
fn completing_the_current_level_records_and_warns() {
    let mut data = test_data();
    assert!(!data.complete_current_level(250, 3, 33, Rank::Gold));
    let current = data.current_level().unwrap();
    assert_eq!(current.highest_score, Some(33));
    assert_eq!(current.shortest_time, Some(250));
    assert_eq!(current.commands_used, Some(3));
    let before = data.current_level().cloned();
    assert!(data.complete_current_level(100, 1, 0, Rank::Bronze));
    assert_eq!(data.current_level().cloned(), before);
    assert!(data.complete_current_level(100, 1, -4, Rank::Gold));
    assert_eq!(data.current_level().cloned(), before);
}

#[test]
fn a_rejected_score_records_nothing() {
    let mut data = test_data();
    assert!(data.complete_current_level(300, 2, 0, Rank::Bronze));
    let current = data.current_level().unwrap();
    assert_eq!(current.commands_used, None);
    assert_eq!(current.shortest_time, None);
    assert_eq!(current.highest_score, None);
    assert_eq!(current.rank, None);
}

#[test]
fn advancing_moves_to_the_next_number() {
    let mut data = test_data();
    assert_eq!(data.advance_level(), Ok(()));
    assert_eq!(data.current_level_id(), "1");
    assert_eq!(data.advance_level(), Ok(()));
    assert_eq!(data.current_level_id(), "2");
    // There is no level 3: the last level has been completed.
    assert_eq!(data.advance_level(), Err(GameError::NoEntryForLevel));
    assert_eq!(data.current_level_id(), "2");
}

#[test]
fn playing_selects_and_announces_the_level() {
    let mut data = test_data();
    assert_eq!(data.play(None), Ok("SELECTED_LEVEL 0 COMMAND".to_string()));
    assert_eq!(data.play(Some("1".into())), Ok("SELECTED_LEVEL 1 FILE".to_string()));
    assert_eq!(data.current_level_id(), "1");
    assert_eq!(data.play(Some("8".into())), Err(GameError::NoEntryForLevel));
    assert_eq!(data.current_level_id(), "1");
    assert_eq!(data.play_selected(2), Some("SELECTED_LEVEL 2 DIRECTORY".to_string()));
    assert_eq!(data.current_level_id(), "2");
    assert_eq!(data.play_selected(3), None);
    assert_eq!(data.current_level_id(), "2");
    let t = LevelType::File { target_file: "f".into(), correct_content: None };
    assert_eq!(selected_level_message_text("a b", &t), "SELECTED_LEVEL a b FILE");
}

#[test]
fn restarting_twice_is_restarting_once() {
    let mut data = test_data();
    data.complete_current_level(400, 5, 20, Rank::Gold);
    data.restart_data().unwrap();
    let once: Vec<Option<Level>> = ["0", "1", "2"].iter().map(|id| data.level(id).cloned()).collect();
    data.restart_data().unwrap();
    let twice: Vec<Option<Level>> = ["0", "1", "2"].iter().map(|id| data.level(id).cloned()).collect();
    assert_eq!(once, twice);
    assert_eq!(data.current_level_id(), "0");
}

#[test]
fn updating_keeps_other_levels() {
    let mut data = test_data();
    let before_1 = data.level("1").cloned();
    let before_2 = data.level("2").cloned();
    data.update_current_level(level("changed", LevelType::Command { checker_command: "ls".into() }));
    assert_eq!(data.level("1").cloned(), before_1);
    assert_eq!(data.level("2").cloned(), before_2);
    assert_eq!(data.current_level().unwrap().level_title, "changed");
    assert_eq!(data.entries().len(), 3);
}
