use vstd::prelude::*;
use vstd::string::StringExecFns;

use crate::decimal::chars_of;
use crate::game::GameError;
use crate::level_checker::text_equal;

verus! {

/// What the game tells the shell: a level was chosen (by name, or from the menu), or the
/// current level ends (completed or not).
#[derive(Clone, Debug, PartialEq)]
pub enum Message {
    Play(Option<String>, bool),
    End(bool),
}

/// Whether `c` is white space, as `char::is_whitespace` has it (the Unicode `White_Space`
/// characters).
pub open spec fn is_white_space(c: char) -> bool {
    ||| '\t' <= c && c <= '\r'
    ||| c == ' '
    ||| c == '\u{85}'
    ||| c == '\u{A0}'
    ||| c == '\u{1680}'
    ||| '\u{2000}' <= c && c <= '\u{200A}'
    ||| c == '\u{2028}'
    ||| c == '\u{2029}'
    ||| c == '\u{202F}'
    ||| c == '\u{205F}'
    ||| c == '\u{3000}'
}

/// A text without the white space that ends it.
pub open spec fn trim_end(s: Seq<char>) -> Seq<char>
    decreases s.len(),
{
    if s.len() > 0 && is_white_space(s.last()) {
        trim_end(s.drop_last())
    } else {
        s
    }
}

fn white_space(c: char) -> (r: bool)
    ensures
        r == is_white_space(c),
{
    ('\t' <= c && c <= '\r') || c == ' ' || c == '\u{85}' || c == '\u{A0}' || c == '\u{1680}' || (
    '\u{2000}' <= c && c <= '\u{200A}') || c == '\u{2028}' || c == '\u{2029}' || c == '\u{202F}'
        || c == '\u{205F}' || c == '\u{3000}'
}

/// Whether an answer to a yes/no question is yes: the answer, less its trailing white space,
/// is exactly `y`.
pub fn answer_is_yes(input: &str) -> (yes: bool)
    ensures
        yes == (trim_end(input@) == "y"@),
{
    let mut chars = chars_of(input);
    while chars.len() > 0 && white_space(chars[chars.len() - 1])
        invariant
            trim_end(input@) == trim_end(chars@),
        decreases chars.len(),
    {
        let ghost before = chars@;
        chars.pop();
        assert(chars@ =~= before.drop_last());
    }
    assert(trim_end(chars@) == chars@);
    let wanted = chars_of("y");
    proof {
        reveal_strlit("y");
    }
    assert(wanted@.len() == 1);
    if chars.len() != 1 {
        return false;
    }
    assert(chars@ =~= seq![chars@[0]]);
    assert(wanted@ =~= seq![wanted@[0]]);
    chars[0] == wanted[0]
}

/// Whether the shell's level flag says that a level is being played: it is exactly `1`.
pub fn is_in_level(flag: &str) -> (playing: bool)
    ensures
        playing == (flag@ == "1"@),
{
    text_equal(flag, "1")
}

/// What the shell is told when the current level ends.
pub fn end_level_message() -> (text: &'static str)
    ensures
        text@ == "END_LEVEL"@,
{
    "END_LEVEL"
}

/// What the launcher tells the shell when a level is played: the level named, or `-1` when
/// the menu is asked for or no level is named.
pub open spec fn launcher_selection(level: Option<Seq<char>>, interactive: bool) -> Seq<char> {
    if interactive {
        "-1"@
    } else {
        match level {
            Some(l) => l,
            None => "-1"@,
        }
    }
}

/// The text the launcher writes for the shell when a level is played.
pub fn launcher_play_message(level: &Option<String>, interactive: bool) -> (text: String)
    ensures
        text@ == "SELECTED_LEVEL"@ + " "@ + launcher_selection(
            match *level {
                Some(l) => Some(l@),
                None => None,
            },
            interactive,
        ),
{
    let start = String::from_str("SELECTED_LEVEL").concat(" ");
    if interactive {
        start.concat("-1")
    } else {
        match level {
            Some(l) => start.concat(l.as_str()),
            None => start.concat("-1"),
        }
    }
}

/// Lists the levels; nothing is listed yet, and it always succeeds.
pub fn print_levels() -> (r: Result<(), GameError>)
    ensures
        r is Ok,
{
    Ok(())
}

} // verus!
