use learn_cli::game::{JsonData, LevelEntry};
use learn_cli::level_checker::{Level, LevelType};
use learn_cli::listing::{sort_texts, text_le_exec};

fn level(title: &str) -> Level {
    Level {
        level_title: title.into(),
        level_description: String::new(),
        level_type: LevelType::Command { checker_command: "ls".into() },
        highest_score: None,
        shortest_time: None,
        commands_used: None,
        rank: None,
    }
}

fn data(ids: &[(&str, &str)]) -> JsonData {
    let entries = ids
        .iter()
        .map(|(id, title)| LevelEntry { id: id.to_string(), level: level(title) })
        .collect();
    JsonData::from_entries("0".into(), entries).unwrap()
}

#[test]
fn texts_compare_as_strings_do() {
    let samples = ["", "a", "b", "ab", "aa", "1", "10", "1: x", "10: y", "é", "z"];
    for a in samples {
        for b in samples {
            assert_eq!(text_le_exec(a, b), a <= b, "{:?} {:?}", a, b);
        }
    }
}

#[test]
fn sorting_orders_like_std() {
    let items: Vec<String> = ["10", "2", "1", "b", "a", "1", ""].iter().map(|s| s.to_string()).collect();
    let mut expected = items.clone();
    expected.sort();
    assert_eq!(sort_texts(items), expected);
}

#[test]
fn level_ids_are_listed_in_order() {
    let d = data(&[("2", "c"), ("10", "b"), ("0", "a"), ("1", "d")]);
    assert_eq!(d.sorted_level_ids(), vec!["0", "1", "10", "2"]);
}

#[test]
fn menu_items_are_sorted_texts() {
    let d = data(&[("1", "x"), ("10", "y"), ("0", "intro")]);
    assert_eq!(d.menu_items(), vec!["0: intro", "10: y", "1: x"]);
    assert_eq!(d.menu_level_ids(), vec!["0", "10", "1"]);
    // The listing of all levels stays in the order of the identifiers.
    assert_eq!(d.sorted_level_ids(), vec!["0", "1", "10"]);
}

#[test]
fn rows_showing_the_same_text_follow_their_identifiers() {
    let d = data(&[("1: x", "y"), ("1", "x: y"), ("0", "a")]);
    assert_eq!(d.menu_items(), vec!["0: a", "1: x: y", "1: x: y"]);
    assert_eq!(d.menu_level_ids(), vec!["0", "1", "1: x"]);
}

#[test]
fn menu_rows_match_a_sort_of_their_texts() {
    let d = data(&[("3", "c"), ("12", "a"), ("1", "z"), ("20", "b"), ("2", "")]);
    let mut expected: Vec<String> = vec!["3: c", "12: a", "1: z", "20: b", "2: "]
        .into_iter()
        .map(String::from)
        .collect();
    expected.sort();
    assert_eq!(d.menu_items(), expected);
}

#[test]
fn choosing_a_row_plays_the_level_shown_on_it() {
    let ids: Vec<String> = (0..12).map(|i| i.to_string()).collect();
    let pairs: Vec<(&str, &str)> = ids.iter().map(|id| (id.as_str(), "t")).collect();
    let mut d = data(&pairs);
    let items = d.menu_items();
    for row in 0..items.len() {
        let message = d.play_selected(row).unwrap();
        let shown_id = items[row].split(": ").next().unwrap().to_string();
        assert_eq!(d.current_level_id(), &shown_id);
        assert_eq!(message, format!("SELECTED_LEVEL {} COMMAND", shown_id));
    }
    // Row 1 shows level 10 and row 2 level 11, as the sorted rows put them.
    assert_eq!(items[1], "10: t");
    assert_eq!(items[2], "11: t");
    assert!(d.play_selected(12).is_none());
}
