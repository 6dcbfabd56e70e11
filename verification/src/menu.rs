use vstd::prelude::*;
use vstd::string::StringExecFns;

use crate::decimal::decimal_digits;
use crate::decimal::digit_char;
use crate::decimal::format_u64;
use crate::level_checker::level_type_name;
use crate::level_checker::optional_number_text;
use crate::level_checker::optional_number_view;
use crate::level_checker::Level;
use crate::scoring::Rank;

verus! {

/// A key pressed in the level menu, as the menu understands it: down (`j` or the down arrow),
/// up (`k` or the up arrow), select (Enter), quit (`q` or Escape), or any other key.
#[derive(Clone, Copy, Debug, PartialEq, Eq, Structural)]
pub enum MenuKey {
    Down,
    Up,
    Select,
    Quit,
    Other,
}

/// Where the level menu is after a key: still open with a row highlighted, closed with a row
/// chosen, or closed without a choice.
#[derive(Clone, Copy, Debug, PartialEq, Eq, Structural)]
pub enum MenuOutcome {
    Stay(usize),
    Chosen(usize),
    Left,
}

/// What a key does in the level menu, with row `selected` of `rows` highlighted: down and up
/// move the highlight within the rows, Enter chooses the highlighted row, quitting leaves
/// without a choice, and any other key changes nothing.
pub fn menu_key_step(selected: usize, rows: usize, key: MenuKey) -> (out: MenuOutcome)
    requires
        rows > 0,
        selected < rows,
    ensures
        key is Down ==> out == MenuOutcome::Stay(
            if selected + 1 < rows {
                (selected + 1) as usize
            } else {
                selected
            },
        ),
        key is Up ==> out == MenuOutcome::Stay(
            if selected > 0 {
                (selected - 1) as usize
            } else {
                0
            },
        ),
        key is Select ==> out == MenuOutcome::Chosen(selected),
        key is Quit ==> out == MenuOutcome::Left,
        key is Other ==> out == MenuOutcome::Stay(selected),
{
    match key {
        MenuKey::Down => {
            if selected + 1 < rows {
                MenuOutcome::Stay(selected + 1)
            } else {
                MenuOutcome::Stay(selected)
            }
        },
        MenuKey::Up => {
            if selected > 0 {
                MenuOutcome::Stay(selected - 1)
            } else {
                MenuOutcome::Stay(0)
            }
        },
        MenuKey::Select => MenuOutcome::Chosen(selected),
        MenuKey::Quit => MenuOutcome::Left,
        MenuKey::Other => MenuOutcome::Stay(selected),
    }
}

/// How a time in hundredths of a second is shown in seconds: a minus sign when negative, the
/// whole seconds, then a point and the hundredths without trailing zeros, when there are any.
pub open spec fn seconds_view(hundredths: int) -> Seq<char> {
    let magnitude = if hundredths < 0 {
        -hundredths
    } else {
        hundredths
    };
    let whole = magnitude / 100;
    let fraction = magnitude % 100;
    let sign = if hundredths < 0 {
        seq!['-']
    } else {
        Seq::<char>::empty()
    };
    let decimals = if fraction == 0 {
        Seq::<char>::empty()
    } else if fraction % 10 == 0 {
        seq!['.', digit_char(fraction / 10)]
    } else {
        seq!['.', digit_char(fraction / 10), digit_char(fraction % 10)]
    };
    sign + decimal_digits(whole as nat) + decimals
}

/// The one-character text of a digit.
fn digit_str(d: u64) -> (s: String)
    requires
        d < 10,
    ensures
        s@ == seq![digit_char(d as int)],
{
    let s = format_u64(d);
    assert(decimal_digits(d as nat) == seq![digit_char(d as int)]);
    s
}

/// Shows a time kept in hundredths of a second, in seconds.
pub fn seconds_text(hundredths: i64) -> (text: String)
    ensures
        text@ == seconds_view(hundredths as int),
{
    let magnitude: u64 = if hundredths < 0 {
        (-(hundredths + 1)) as u64 + 1
    } else {
        hundredths as u64
    };
    let whole = magnitude / 100;
    let fraction = magnitude % 100;
    let mut text = if hundredths < 0 {
        String::from_str("-")
    } else {
        String::from_str("")
    };
    proof {
        reveal_strlit("-");
        reveal_strlit("");
    }
    let digits = format_u64(whole);
    text.append(digits.as_str());
    if fraction != 0 {
        text.append(".");
        proof {
            reveal_strlit(".");
        }
        let tens = digit_str(fraction / 10);
        text.append(tens.as_str());
        if fraction % 10 != 0 {
            let units = digit_str(fraction % 10);
            text.append(units.as_str());
        }
    }
    assert(text@ =~= seconds_view(hundredths as int));
    text
}

/// How an optional time is shown: in seconds, or `N/A` when there is none.
pub open spec fn optional_seconds_view(hundredths: Option<i64>) -> Seq<char> {
    match hundredths {
        Some(h) => seconds_view(h as int),
        None => "N/A"@,
    }
}

/// The details of a level as the level menu and the listings show them.
#[derive(Clone, Debug, PartialEq)]
pub struct LevelDetails {
    pub title: String,
    pub instructions: String,
    pub level_type: String,
    pub highscore: String,
    pub shortest_time: String,
    pub commands_used: String,
    pub rank: Option<Rank>,
}

/// The details of a level: its title, instructions and type, and each best result, or `N/A`
/// where there is none.
pub fn level_details(level: &Level) -> (details: LevelDetails)
    ensures
        details.title@ == level.level_title@,
        details.instructions@ == level.level_description@,
        details.level_type@ == level_type_name(level.level_type),
        details.highscore@ == optional_number_view(level.highest_score),
        details.shortest_time@ == optional_seconds_view(level.shortest_time),
        details.commands_used@ == optional_number_view(level.commands_used),
        details.rank == level.rank,
{
    let shortest_time = match level.shortest_time {
        Some(h) => seconds_text(h),
        None => String::from_str("N/A"),
    };
    LevelDetails {
        title: level.level_title.clone(),
        instructions: level.level_description.clone(),
        level_type: String::from_str(level.level_type.as_str()),
        highscore: optional_number_text(level.highest_score),
        shortest_time,
        commands_used: optional_number_text(level.commands_used),
        rank: level.rank,
    }
}

} // verus!
