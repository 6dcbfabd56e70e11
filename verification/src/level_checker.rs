use vstd::prelude::*;
use vstd::string::StringExecFns;

use crate::decimal::chars_of;
use crate::decimal::format_i32;
use crate::decimal::signed_decimal;
use crate::scoring::Rank;

verus! {

/// A level of the game, with the best results reached on it so far.
#[derive(Clone, Debug, PartialEq)]
pub struct Level {
    pub level_title: String,
    pub level_description: String,
    pub level_type: LevelType,
    pub highest_score: Option<i32>,
    /// The shortest completion time, in hundredths of a second.
    pub shortest_time: Option<i64>,
    pub commands_used: Option<i32>,
    pub rank: Option<Rank>,
}

/// What a level asks the player to achieve.
#[derive(Clone, Debug, PartialEq)]
pub enum LevelType {
    /// Run a command whose output equals that of `checker_command`.
    Command { checker_command: String },
    /// Create `target_file`, holding `correct_content` when that is given.
    File { target_file: String, correct_content: Option<String> },
    /// Fill `target_directory` with the items of `correct_file_tree`.
    Directory { target_directory: String, correct_file_tree: Vec<DirectoryItem> },
}

/// An entry that must exist in a directory; an entry with a content is a file holding exactly it.
#[derive(Clone, Debug, PartialEq)]
pub struct DirectoryItem {
    pub name: String,
    pub content: Option<String>,
}

/// The name under which a level type is shown.
pub open spec fn level_type_name(level_type: LevelType) -> Seq<char> {
    match level_type {
        LevelType::Command { .. } => "Command"@,
        LevelType::File { .. } => "File"@,
        LevelType::Directory { .. } => "Directory"@,
    }
}

/// The upper-case form of an ASCII text; other characters stay as they are.
pub open spec fn ascii_upper(s: Seq<char>) -> Seq<char> {
    s.map_values(
        |c: char|
            if 'a' <= c && c <= 'z' {
                ((c as int) - 32) as char
            } else {
                c
            },
    )
}

impl LevelType {
    /// The name under which a level type is shown.
    pub fn as_str(&self) -> (s: &'static str)
        ensures
            s@ == level_type_name(*self),
    {
        match self {
            LevelType::Command { .. } => "Command",
            LevelType::File { .. } => "File",
            LevelType::Directory { .. } => "Directory",
        }
    }

    /// The name of a level type in capitals, as the shell is told it.
    pub fn upper_name(&self) -> (s: &'static str)
        ensures
            s@ == ascii_upper(level_type_name(*self)),
    {
        match self {
            LevelType::Command { .. } => {
                proof {
                    reveal_strlit("Command");
                    reveal_strlit("COMMAND");
                    assert("COMMAND"@ =~= ascii_upper("Command"@));
                }
                "COMMAND"
            },
            LevelType::File { .. } => {
                proof {
                    reveal_strlit("File");
                    reveal_strlit("FILE");
                    assert("FILE"@ =~= ascii_upper("File"@));
                }
                "FILE"
            },
            LevelType::Directory { .. } => {
                proof {
                    reveal_strlit("Directory");
                    reveal_strlit("DIRECTORY");
                    assert("DIRECTORY"@ =~= ascii_upper("Directory"@));
                }
                "DIRECTORY"
            },
        }
    }
}


/// What checking whether a level is complete takes.
#[derive(Debug)]
pub enum CheckPlan<'a> {
    /// A command level for which no command was run: it is not complete.
    Incomplete,
    /// Run the checking command and the player's command, and compare their outputs.
    RunCommands { checker_command: &'a String, user_command: &'a String },
    /// Look at the target file.
    CheckFile { target_file: &'a String, correct_content: &'a Option<String> },
    /// Look at each entry of the target directory.
    CheckDirectory { target_directory: &'a String, correct_file_tree: &'a Vec<DirectoryItem> },
}

/// Decides how a level is checked, given the command the player just ran, if any.
pub fn check_plan<'a>(level_type: &'a LevelType, user_command: &'a Option<String>) -> (plan:
    CheckPlan<'a>)
    ensures
        level_type is Command && user_command is None ==> plan is Incomplete,
        level_type matches LevelType::Command { checker_command: c } ==> (user_command matches Some(
            u,
        ) ==> (plan matches CheckPlan::RunCommands { checker_command: pc, user_command: pu } && *pc
            == c && *pu == u)),
        level_type matches LevelType::File { target_file: f, correct_content: cc }
            ==> plan matches CheckPlan::CheckFile { target_file: pf, correct_content: pcc } && *pf
            == f && *pcc == cc,
        level_type matches LevelType::Directory { target_directory: d, correct_file_tree: t }
            ==> plan matches CheckPlan::CheckDirectory {
            target_directory: pd,
            correct_file_tree: pt,
        } && *pd == d && *pt == t,
{
    match level_type {
        LevelType::Command { checker_command } => match user_command {
            Some(u) => CheckPlan::RunCommands { checker_command, user_command: u },
            None => CheckPlan::Incomplete,
        },
        LevelType::File { target_file, correct_content } => CheckPlan::CheckFile {
            target_file,
            correct_content,
        },
        LevelType::Directory { target_directory, correct_file_tree } => CheckPlan::CheckDirectory {
            target_directory,
            correct_file_tree,
        },
    }
}

/// A text without the one line break that may end it.
pub open spec fn strip_newline(s: Seq<char>) -> Seq<char> {
    if s.len() > 0 && s.last() == '\n' {
        s.drop_last()
    } else {
        s
    }
}

/// Whether two character sequences are equal.
fn chars_equal(a: &Vec<char>, b: &Vec<char>) -> (r: bool)
    ensures
        r == (a@ == b@),
{
    if a.len() != b.len() {
        return false;
    }
    let mut i: usize = 0;
    while i < a.len()
        invariant
            a@.len() == b@.len(),
            i <= a@.len(),
            a@.take(i as int) =~= b@.take(i as int),
        decreases a.len() - i,
    {
        if a[i] != b[i] {
            assert(a@[i as int] != b@[i as int]);
            return false;
        }
        i = i + 1;
    }
    assert(a@.take(a@.len() as int) =~= a@);
    assert(b@.take(b@.len() as int) =~= b@);
    true
}

/// Whether two byte sequences are equal.
fn bytes_equal(a: &Vec<u8>, b: &Vec<u8>) -> (r: bool)
    ensures
        r == (a@ == b@),
{
    if a.len() != b.len() {
        return false;
    }
    let mut i: usize = 0;
    while i < a.len()
        invariant
            a@.len() == b@.len(),
            i <= a@.len(),
            a@.take(i as int) =~= b@.take(i as int),
        decreases a.len() - i,
    {
        if a[i] != b[i] {
            assert(a@[i as int] != b@[i as int]);
            return false;
        }
        i = i + 1;
    }
    assert(a@.take(a@.len() as int) =~= a@);
    assert(b@.take(b@.len() as int) =~= b@);
    true
}

/// Whether two texts are equal.
pub fn text_equal(a: &str, b: &str) -> (r: bool)
    ensures
        r == (a@ == b@),
{
    let ca = chars_of(a);
    let cb = chars_of(b);
    chars_equal(&ca, &cb)
}

/// Whether a file's text, less one final line break, is the required content.
pub fn content_matches(file_content: &str, correct_content: &str) -> (r: bool)
    ensures
        r == (strip_newline(file_content@) == correct_content@),
{
    let mut chars = chars_of(file_content);
    let n = chars.len();
    if n > 0 && chars[n - 1] == '\n' {
        chars.pop();
    }
    assert(chars@ =~= strip_newline(file_content@));
    let wanted = chars_of(correct_content);
    chars_equal(&chars, &wanted)
}

/// What checking a file level found.
#[derive(Clone, Copy, Debug, PartialEq, Eq, Structural)]
pub enum FileOutcome {
    /// The target file does not exist.
    NotFound,
    /// The file exists and holds what is required: the level is complete and the file goes.
    Complete,
    /// The file exists but does not hold the required content.
    WrongContent,
}

/// The outcome of a file level, from whether its target file exists and, where a content is
/// required, the text that the file holds.
pub open spec fn file_outcome(
    exists: bool,
    file_content: Option<Seq<char>>,
    correct_content: Option<Seq<char>>,
) -> FileOutcome {
    if !exists {
        FileOutcome::NotFound
    } else {
        match correct_content {
            None => FileOutcome::Complete,
            Some(c) => if strip_newline(file_content.unwrap()) == c {
                FileOutcome::Complete
            } else {
                FileOutcome::WrongContent
            },
        }
    }
}

/// The view of an optional text.
pub open spec fn opt_view(s: Option<String>) -> Option<Seq<char>> {
    match s {
        Some(t) => Some(t@),
        None => None,
    }
}

/// Decides a file level. The file is read only when it exists and a content is required, so
/// `file_content` is given exactly then.
pub fn check_file_outcome(
    exists: bool,
    file_content: &Option<String>,
    correct_content: &Option<String>,
) -> (outcome: FileOutcome)
    requires
        file_content.is_some() == (exists && correct_content.is_some()),
    ensures
        outcome == file_outcome(exists, opt_view(*file_content), opt_view(*correct_content)),
{
    if !exists {
        return FileOutcome::NotFound;
    }
    match correct_content {
        None => FileOutcome::Complete,
        Some(content) => {
            let text = file_content.as_ref().unwrap();
            if content_matches(text.as_str(), content.as_str()) {
                FileOutcome::Complete
            } else {
                FileOutcome::WrongContent
            }
        },
    }
}

/// Decides a file level the plain way: the file must exist and, when a content is required,
/// hold exactly it. The file is read whenever it exists.
pub fn check_file_question(
    exists: bool,
    file_content: &Option<String>,
    correct_content: &Option<String>,
) -> (complete: bool)
    requires
        file_content.is_some() == exists,
    ensures
        complete == (exists && match *correct_content {
            None => true,
            Some(c) => file_content.unwrap()@ == c@,
        }),
{
    if !exists {
        return false;
    }
    match correct_content {
        None => true,
        Some(content) => {
            let text = file_content.as_ref().unwrap();
            text_equal(text.as_str(), content.as_str())
        },
    }
}

/// The path of an entry named `name` inside the directory `directory`.
pub fn item_path(directory: &str, name: &str) -> (path: String)
    ensures
        path@ == directory@ + seq!['/'] + name@,
{
    let slash = "/";
    proof {
        reveal_strlit("/");
    }
    let path = String::from_str(directory).concat(slash).concat(name);
    path
}

/// Whether one entry of a directory level is in place: it exists and, when it has a content,
/// the file holds exactly that content. The file is read only when it exists and a content is
/// required, so `found_content` is given exactly then.
pub fn directory_item_ok(item: &DirectoryItem, exists: bool, found_content: &Option<String>) -> (ok:
    bool)
    requires
        found_content.is_some() == (exists && item.content.is_some()),
    ensures
        ok == (exists && match item.content {
            None => true,
            Some(c) => found_content.unwrap()@ == c@,
        }),
{
    if !exists {
        return false;
    }
    match &item.content {
        None => true,
        Some(content) => {
            let text = found_content.as_ref().unwrap();
            text_equal(text.as_str(), content.as_str())
        },
    }
}

/// What was found for one entry of a directory level: whether it exists and, when it exists
/// and a content is required, the text of the file.
#[derive(Clone, Debug, PartialEq)]
pub struct ItemObservation {
    pub exists: bool,
    pub content: Option<String>,
}

/// The observation of an entry holds a text exactly when the entry exists and has a required
/// content.
pub open spec fn observation_fits(item: DirectoryItem, observed: ItemObservation) -> bool {
    observed.content.is_some() == (observed.exists && item.content.is_some())
}

/// An entry is in place: it exists and, when it has a content, the file holds exactly that.
pub open spec fn item_in_place(item: DirectoryItem, observed: ItemObservation) -> bool {
    observed.exists && match item.content {
        None => true,
        Some(c) => observed.content.unwrap()@ == c@,
    }
}

/// Decides a directory level from what was found for its first entries, in order: it is
/// complete when every entry was looked at and every one is in place. Looking may stop at the
/// first entry that is not in place.
pub fn directory_complete(tree: &Vec<DirectoryItem>, observed: &Vec<ItemObservation>) -> (complete:
    bool)
    requires
        observed@.len() <= tree@.len(),
        forall|i: int| 0 <= i < observed@.len() ==> observation_fits(tree@[i], #[trigger] observed@[i]),
    ensures
        complete == (observed@.len() == tree@.len() && forall|i: int|
            0 <= i < tree@.len() ==> item_in_place(tree@[i], #[trigger] observed@[i])),
{
    if observed.len() != tree.len() {
        return false;
    }
    let mut i: usize = 0;
    while i < tree.len()
        invariant
            observed@.len() == tree@.len(),
            i <= tree@.len(),
            forall|j: int| 0 <= j < observed@.len() ==> observation_fits(tree@[j], #[trigger] observed@[j]),
            forall|j: int| 0 <= j < i ==> item_in_place(tree@[j], #[trigger] observed@[j]),
        decreases tree.len() - i,
    {
        let ok = directory_item_ok(&tree[i], observed[i].exists, &observed[i].content);
        if !ok {
            assert(!item_in_place(tree@[i as int], observed@[i as int]));
            return false;
        }
        i = i + 1;
    }
    true
}

/// What running a command gave: its raw exit status and everything it wrote.
#[derive(Clone, Debug, PartialEq)]
pub struct CommandOutput {
    pub status: i32,
    pub stdout: Vec<u8>,
    pub stderr: Vec<u8>,
}

/// Whether the player's command and the checking command gave the same output, status and
/// error output included.
pub fn outputs_match(correct: &CommandOutput, user: &CommandOutput) -> (same: bool)
    ensures
        same == (correct.status == user.status && correct.stdout@ == user.stdout@
            && correct.stderr@ == user.stderr@),
{
    correct.status == user.status && bytes_equal(&correct.stdout, &user.stdout) && bytes_equal(
        &correct.stderr,
        &user.stderr,
    )
}

/// How an optional number is shown: its digits, or `N/A` when there is none.
pub open spec fn optional_number_view(n: Option<i32>) -> Seq<char> {
    match n {
        Some(v) => signed_decimal(v as int),
        None => "N/A"@,
    }
}

/// Shows an optional number: its digits, or `N/A` when there is none.
pub fn optional_number_text(n: Option<i32>) -> (text: String)
    ensures
        text@ == optional_number_view(n),
{
    match n {
        Some(v) => format_i32(v),
        None => String::from_str("N/A"),
    }
}

} // verus!
