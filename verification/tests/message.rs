use learn_cli::message::{
    answer_is_yes, end_level_message, is_in_level, launcher_play_message, print_levels,
};

#[test]
fn yes_answers() {
    assert!(answer_is_yes("y\n"));
    assert!(answer_is_yes("y"));
    assert!(answer_is_yes("y \t\r\n"));
    assert!(!answer_is_yes(" y\n"));
    assert!(!answer_is_yes("Y\n"));
    assert!(!answer_is_yes("yes\n"));
    assert!(!answer_is_yes("\n"));
    assert!(answer_is_yes("y\u{3000}"));
}

#[test]
fn level_flag() {
    assert!(is_in_level("1"));
    assert!(!is_in_level("0"));
    assert!(!is_in_level("1 "));
    assert!(!is_in_level(""));
}

#[test]
fn launcher_messages() {
    assert_eq!(launcher_play_message(&Some("3".into()), false), "SELECTED_LEVEL 3");
    assert_eq!(launcher_play_message(&Some("3".into()), true), "SELECTED_LEVEL -1");
    assert_eq!(launcher_play_message(&None, false), "SELECTED_LEVEL -1");
    assert_eq!(end_level_message(), "END_LEVEL");
    assert!(print_levels().is_ok());
}
