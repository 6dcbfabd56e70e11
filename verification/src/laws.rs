use vstd::prelude::*;

use crate::decimal::lemma_parse_signed_decimal;
use crate::decimal::parse_i32_spec;
use crate::decimal::signed_decimal;
use crate::game::completion_record;
use crate::game::current_of;
use crate::game::next_level_id;
use crate::game::reset_all;
use crate::game::reset_stats;
use crate::game::with_current;
use crate::game::with_current_updated;
use crate::game::GameDataView;
use crate::args::Commands;
use crate::dispatch::session_start_spec;
use crate::dispatch::SessionStart;
use crate::level_checker::file_outcome;
use crate::level_checker::item_in_place;
use crate::level_checker::observation_fits;
use crate::level_checker::DirectoryItem;
use crate::level_checker::FileOutcome;
use crate::level_checker::ItemObservation;
use crate::level_checker::Level;
use crate::message::Message;
use crate::listing::is_menu_order;
use crate::listing::lemma_menu_order_unique;
use crate::listing::menu_order;
use crate::scoring::rank_for_score;
use crate::scoring::rank_level;
use crate::scoring::Rank;

verus! {

/// Making a level current and then asking for the current level gives back that level.
pub proof fn law_selected_level_is_current(data: GameDataView, id: Seq<char>)
    requires
        data.levels.contains_key(id),
    ensures
        current_of(with_current(data, id)) == Some(data.levels[id]),
        with_current(data, id).levels == data.levels,
{
}

/// Replacing the data of the current level and then asking for the current level gives back
/// the new data.
pub proof fn law_updated_level_is_current(data: GameDataView, level: Level)
    requires
        data.levels.contains_key(data.current_level),
    ensures
        current_of(with_current_updated(data, level)) == Some(level),
{
}

/// Replacing the data of the current level adds no level, removes none, and leaves every
/// other level as it was.
pub proof fn law_update_keeps_other_levels(data: GameDataView, level: Level, id: Seq<char>)
    requires
        id != data.current_level,
    ensures
        with_current_updated(data, level).levels.dom() == data.levels.dom(),
        data.levels.contains_key(id) ==> with_current_updated(data, level).levels[id]
            == data.levels[id],
{
    assert(with_current_updated(data, level).levels.dom() =~= data.levels.dom());
}

/// Restarting keeps every level, with its title, description and type, and forgets all of its
/// best results.
pub proof fn law_restart_forgets_results(levels: Map<Seq<char>, Level>, id: Seq<char>)
    requires
        levels.contains_key(id),
    ensures
        reset_all(levels).dom() == levels.dom(),
        reset_all(levels)[id].level_title == levels[id].level_title,
        reset_all(levels)[id].level_description == levels[id].level_description,
        reset_all(levels)[id].level_type == levels[id].level_type,
        reset_all(levels)[id].highest_score is None,
        reset_all(levels)[id].shortest_time is None,
        reset_all(levels)[id].commands_used is None,
        reset_all(levels)[id].rank is None,
{
    assert(reset_all(levels).dom() =~= levels.dom());
}

/// Restarting twice leaves the levels as restarting once does.
pub proof fn law_restart_twice_is_restart_once(levels: Map<Seq<char>, Level>)
    ensures
        reset_all(reset_all(levels)) == reset_all(levels),
{
    assert(reset_all(reset_all(levels)) =~= reset_all(levels));
}

/// A finished run never makes a best result worse: afterwards every result is known, the
/// shortest time and the command count are no larger than before, and the highest score is
/// no lower.
pub proof fn law_results_never_worsen(
    level: Level,
    time: i64,
    command_count: i32,
    score: i32,
    rank: Rank,
)
    ensures
        completion_record(level, time, command_count, score, rank).shortest_time is Some,
        completion_record(level, time, command_count, score, rank).commands_used is Some,
        completion_record(level, time, command_count, score, rank).highest_score is Some,
        level.shortest_time matches Some(t) ==> completion_record(
            level,
            time,
            command_count,
            score,
            rank,
        ).shortest_time.unwrap() <= t,
        level.commands_used matches Some(c) ==> completion_record(
            level,
            time,
            command_count,
            score,
            rank,
        ).commands_used.unwrap() <= c,
        level.highest_score matches Some(s) ==> completion_record(
            level,
            time,
            command_count,
            score,
            rank,
        ).highest_score.unwrap() >= s,
        completion_record(level, time, command_count, score, rank).level_title
            == level.level_title,
        completion_record(level, time, command_count, score, rank).level_type == level.level_type,
{
}

/// A run's rank is recorded exactly when its score becomes the highest score; otherwise the
/// recorded rank stays as it was.
pub proof fn law_rank_follows_score(
    level: Level,
    time: i64,
    command_count: i32,
    score: i32,
    rank: Rank,
)
    ensures
        completion_record(level, time, command_count, score, rank).highest_score
            != level.highest_score ==> completion_record(level, time, command_count, score, rank).rank
            == Some(rank),
        completion_record(level, time, command_count, score, rank).highest_score
            == level.highest_score ==> completion_record(level, time, command_count, score, rank).rank
            == level.rank,
{
}

/// Reading back the identifier written for a number gives that number.
pub proof fn law_written_number_reads_back(v: i32)
    ensures
        parse_i32_spec(signed_decimal(v as int)) == Some(v),
{
    lemma_parse_signed_decimal(v);
}

/// The level after the one written as `v` is the one written as `v + 1`.
pub proof fn law_next_level_follows(v: i32)
    requires
        v < i32::MAX,
    ensures
        next_level_id(signed_decimal(v as int)) == signed_decimal(v + 1),
{
    lemma_parse_signed_decimal(v);
}

/// Among scores of zero or more, a higher score never earns a worse rank.
pub proof fn law_higher_score_never_ranks_worse(low: int, high: int)
    requires
        0 <= low <= high,
    ensures
        rank_level(rank_for_score(low)) <= rank_level(rank_for_score(high)),
{
}

/// The level menu can list the levels in one order only: any list that names every identifier
/// once, with the rows' texts in the order of `String` (and identifiers in that order between
/// rows showing the same text), is the menu order, by which `menu_items` shows the rows and
/// `play_selected` plays the chosen one.
pub proof fn law_menu_order_is_determined(
    order: Seq<Seq<char>>,
    levels: Map<Seq<char>, Level>,
)
    requires
        is_menu_order(order, levels),
    ensures
        menu_order(levels) == order,
{
    lemma_menu_order_unique(menu_order(levels), order, levels);
}

/// A file level whose target file exists and which requires a content is complete exactly
/// when the file holds that content followed by one line break, or the content alone when it
/// does not end in a line break: any other text, such as the content followed by more text,
/// leaves it incomplete.
pub proof fn law_file_level_needs_exact_content(text: Seq<char>, content: Seq<char>)
    ensures
        file_outcome(true, Some(text), Some(content)) == FileOutcome::Complete <==> ((text == content
            && !(text.len() > 0 && text.last() == '\n')) || text == content.push('\n')),
        file_outcome(true, Some(text), Some(content)) != FileOutcome::Complete
            ==> file_outcome(true, Some(text), Some(content)) == FileOutcome::WrongContent,
        text.len() > content.len() + 1 ==> file_outcome(true, Some(text), Some(content))
            == FileOutcome::WrongContent,
{
    if text.len() > 0 && text.last() == '\n' {
        if text == content.push('\n') {
            assert(text.drop_last() =~= content);
        }
        if text.drop_last() == content {
            assert(text =~= content.push('\n'));
        }
        if text == content {
            assert(content.push('\n').len() != text.len());
        }
    } else {
        if text == content.push('\n') {
            assert(text.last() == '\n');
        }
    }
}

/// A file level is never complete without its target file, and is complete whenever the file
/// exists and no content is required.
pub proof fn law_file_level_needs_the_file(
    text: Option<Seq<char>>,
    content: Option<Seq<char>>,
)
    ensures
        file_outcome(false, text, content) == FileOutcome::NotFound,
        content is None ==> file_outcome(true, text, content) == FileOutcome::Complete,
{
}

/// One entry of a directory level is in place exactly when it exists and, when it has a
/// required content, the file holds exactly that content.
pub proof fn law_directory_entry_needs_exact_content(item: DirectoryItem, observed: ItemObservation)
    requires
        observation_fits(item, observed),
    ensures
        item_in_place(item, observed) <==> (observed.exists && match item.content {
            None => true,
            Some(c) => observed.content.unwrap()@ == c@,
        }),
        item.content matches Some(c) && observed.exists && observed.content.unwrap()@ != c@
            ==> !item_in_place(item, observed),
{
}

/// A directory level is complete exactly when every entry was looked at, exists, and, when it
/// has a required content, holds exactly that content.
pub proof fn law_directory_level_needs_every_entry(
    tree: Seq<DirectoryItem>,
    observed: Seq<ItemObservation>,
)
    requires
        observed.len() <= tree.len(),
        forall|i: int| 0 <= i < observed.len() ==> observation_fits(tree[i], #[trigger] observed[i]),
    ensures
        (observed.len() == tree.len() && forall|i: int|
            0 <= i < tree.len() ==> item_in_place(tree[i], #[trigger] observed[i])) <==> (
        observed.len() == tree.len() && forall|i: int|
            0 <= i < tree.len() ==> (#[trigger] observed[i]).exists && match tree[i].content {
                None => true,
                Some(c) => observed[i].content.unwrap()@ == c@,
            }),
{
}

/// With a run of positive time, the shortest time becomes the smaller of the old one and the
/// run's time, and the command count the smaller of the old one and the run's; neither depends
/// on the score or rank of the run.
pub proof fn law_best_time_and_commands_are_minimums(
    level: Level,
    time: i64,
    command_count: i32,
    score: i32,
    rank: Rank,
    other_score: i32,
    other_rank: Rank,
)
    ensures
        time > 0 ==> completion_record(level, time, command_count, score, rank).shortest_time
            == Some(
            match level.shortest_time {
                None => time,
                Some(t) => if time < t {
                    time
                } else {
                    t
                },
            },
        ),
        completion_record(level, time, command_count, score, rank).commands_used == Some(
            match level.commands_used {
                None => command_count,
                Some(c) => if command_count < c {
                    command_count
                } else {
                    c
                },
            },
        ),
        completion_record(level, time, command_count, score, rank).shortest_time
            == completion_record(level, time, command_count, other_score, other_rank).shortest_time,
        completion_record(level, time, command_count, score, rank).commands_used
            == completion_record(level, time, command_count, other_score, other_rank).commands_used,
        score > 0 ==> completion_record(level, time, command_count, score, rank).highest_score
            == Some(
            match level.highest_score {
                None => score,
                Some(s) => if s < score {
                    score
                } else {
                    s
                },
            },
        ),
{
}

/// Playing carries the command's level and its menu flag to the shell unchanged: `play -i`
/// opens the level menu, and a plain `play` does not.
pub proof fn law_play_keeps_its_flags(level: Option<String>, interactive: bool)
    ensures
        session_start_spec(Some(Commands::Play { level, interactive })) matches SessionStart::Proceed {
            play: Some(Message::Play(l, i)),
        } && l == level && i == interactive,
        session_start_spec(Some(Commands::Play { level, interactive: true }))
            != session_start_spec(Some(Commands::Play { level, interactive: false })),
{
}

/// Showing the current level keeps the command's own `short` flag: `current` shows the full
/// details, `current --short` only the essentials.
pub proof fn law_current_keeps_its_flag(short: bool)
    ensures
        session_start_spec(Some(Commands::Current { short })) matches SessionStart::ShowCurrentLevel {
            short: s,
        } && s == short,
        session_start_spec(Some(Commands::Current { short: true })) != session_start_spec(
            Some(Commands::Current { short: false }),
        ),
{
}

} // verus!
