use learn_cli::level_checker::{
    check_file_outcome, check_file_question, check_plan, CheckPlan, content_matches, directory_complete, directory_item_ok,
    item_path, ItemObservation,
    optional_number_text, outputs_match, CommandOutput, DirectoryItem, FileOutcome, Level,
    LevelType,
};

const TEST_MESSAGE: &str = "TEST";

fn create_dummy(level_type: LevelType) -> Level {
    Level {
        level_title: "level".into(),
        level_description: "some description".into(),
        level_type,
        highest_score: None,
        shortest_time: None,
        commands_used: None,
        rank: None,
    }
}

fn output(status: i32, stdout: &str, stderr: &str) -> CommandOutput {
    CommandOutput { status, stdout: stdout.as_bytes().to_vec(), stderr: stderr.as_bytes().to_vec() }
}

#[test]
fn level_type_command_complete() {
    let checker = output(0, "file_a\nfile_b\n", "");
    let user = output(0, "file_a\nfile_b\n", "");
    assert!(outputs_match(&checker, &user));
}

#[test]
fn level_type_command_not_complete() {
    let checker = output(0, "file_a\nfile_b\n", "");
    assert!(!outputs_match(&checker, &output(0, "file_a\n", "")));
    assert!(!outputs_match(&checker, &output(256, "file_a\nfile_b\n", "")));
    assert!(!outputs_match(&checker, &output(0, "file_a\nfile_b\n", "warning\n")));
}

#[test]
fn level_type_file_complete() {
    // An empty file, no content required.
    let level = create_dummy(LevelType::File {
        target_file: "/tmp/tmp_test_file".into(),
        correct_content: None,
    });
    if let LevelType::File { correct_content, .. } = &level.level_type {
        assert_eq!(check_file_outcome(true, &None, correct_content), FileOutcome::Complete);
    } else {
        unreachable!();
    }

    // A file holding the required message.
    let level = create_dummy(LevelType::File {
        target_file: "/tmp/tmp_test_file".into(),
        correct_content: Some(TEST_MESSAGE.into()),
    });
    if let LevelType::File { correct_content, .. } = &level.level_type {
        let found = Some(TEST_MESSAGE.to_string());
        assert_eq!(check_file_outcome(true, &found, correct_content), FileOutcome::Complete);
    } else {
        unreachable!();
    }
}

#[test]
fn level_type_file_not_complete() {
    let level = create_dummy(LevelType::File {
        target_file: "/incorrect/path".into(),
        correct_content: None,
    });
    if let LevelType::File { correct_content, .. } = &level.level_type {
        assert_eq!(check_file_outcome(false, &None, correct_content), FileOutcome::NotFound);
    } else {
        unreachable!();
    }
}

#[test]
fn file_content_ignores_one_final_line_break() {
    assert!(content_matches("TEST\n", "TEST"));
    assert!(content_matches("TEST", "TEST"));
    assert!(!content_matches("TEST\n\n", "TEST"));
    assert!(!content_matches("TEST\r\n", "TEST"));
    assert!(content_matches("\n", ""));
    assert!(!content_matches("TES", "TEST"));
}

#[test]
fn file_with_wrong_content_is_reported() {
    let correct = Some("hello".to_string());
    let found = Some("goodbye\n".to_string());
    assert_eq!(check_file_outcome(true, &found, &correct), FileOutcome::WrongContent);
    let found = Some("hello\n".to_string());
    assert_eq!(check_file_outcome(true, &found, &correct), FileOutcome::Complete);
    assert_eq!(check_file_outcome(false, &None, &correct), FileOutcome::NotFound);
}

#[test]
fn file_question_compares_exactly() {
    let correct = Some("hello".to_string());
    assert!(check_file_question(true, &Some("hello".to_string()), &correct));
    assert!(!check_file_question(true, &Some("hello\n".to_string()), &correct));
    assert!(check_file_question(true, &Some("anything".to_string()), &None));
    assert!(!check_file_question(false, &None, &None));
}

#[test]
fn directory_items_are_checked() {
    assert_eq!(item_path("/tmp/level", "notes.txt"), "/tmp/level/notes.txt");
    assert_eq!(item_path("", "a"), "/a");

    let folder = DirectoryItem { name: "folder".into(), content: None };
    assert!(directory_item_ok(&folder, true, &None));
    assert!(!directory_item_ok(&folder, false, &None));

    let file = DirectoryItem { name: "notes.txt".into(), content: Some("hi".into()) };
    assert!(directory_item_ok(&file, true, &Some("hi".into())));
    assert!(!directory_item_ok(&file, true, &Some("hi\n".into())));
    assert!(!directory_item_ok(&file, false, &None));
}

#[test]
fn level_type_names() {
    let command = LevelType::Command { checker_command: "ls".into() };
    let file = LevelType::File { target_file: "a".into(), correct_content: None };
    let directory = LevelType::Directory { target_directory: "d".into(), correct_file_tree: vec![] };
    assert_eq!(command.as_str(), "Command");
    assert_eq!(file.as_str(), "File");
    assert_eq!(directory.as_str(), "Directory");
    assert_eq!(command.upper_name(), "COMMAND");
    assert_eq!(file.upper_name(), "FILE");
    assert_eq!(directory.upper_name(), "DIRECTORY");
}

#[test]
fn optional_numbers_are_shown() {
    assert_eq!(optional_number_text(Some(20)), "20");
    assert_eq!(optional_number_text(Some(-7)), "-7");
    assert_eq!(optional_number_text(None), "N/A");
}

#[test]
fn directory_levels_need_every_entry() {
    let tree = vec![
        DirectoryItem { name: "a".into(), content: None },
        DirectoryItem { name: "b.txt".into(), content: Some("hi".into()) },
    ];
    let present = ItemObservation { exists: true, content: None };
    let good_file = ItemObservation { exists: true, content: Some("hi".into()) };
    let bad_file = ItemObservation { exists: true, content: Some("ho".into()) };
    let missing = ItemObservation { exists: false, content: None };
    assert!(directory_complete(&tree, &vec![present.clone(), good_file.clone()]));
    assert!(!directory_complete(&tree, &vec![present.clone(), bad_file]));
    assert!(!directory_complete(&tree, &vec![missing]));
    assert!(!directory_complete(&tree, &vec![present]));
    assert!(directory_complete(&vec![], &vec![]));
}

#[test]
fn levels_are_checked_by_their_type() {
    let command = LevelType::Command { checker_command: "pwd".into() };
    assert!(matches!(check_plan(&command, &None), CheckPlan::Incomplete));
    let ran = Some("ls".to_string());
    match check_plan(&command, &ran) {
        CheckPlan::RunCommands { checker_command, user_command } => {
            assert_eq!(checker_command, "pwd");
            assert_eq!(user_command, "ls");
        }
        _ => unreachable!(),
    }
    let file = LevelType::File { target_file: "/tmp/f".into(), correct_content: Some("x".into()) };
    match check_plan(&file, &ran) {
        CheckPlan::CheckFile { target_file, correct_content } => {
            assert_eq!(target_file, "/tmp/f");
            assert_eq!(correct_content, &Some("x".to_string()));
        }
        _ => unreachable!(),
    }
    let tree = vec![DirectoryItem { name: "a".into(), content: None }];
    let dir = LevelType::Directory { target_directory: "/tmp/d".into(), correct_file_tree: tree.clone() };
    match check_plan(&dir, &None) {
        CheckPlan::CheckDirectory { target_directory, correct_file_tree } => {
            assert_eq!(target_directory, "/tmp/d");
            assert_eq!(correct_file_tree, &tree);
        }
        _ => unreachable!(),
    }
}
