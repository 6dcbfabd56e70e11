use vstd::prelude::*;
use vstd::string::StringExecFns;

use crate::decimal::format_i32;
use crate::decimal::parse_i32;
use crate::decimal::parse_i32_spec;
use crate::decimal::signed_decimal;
use crate::level_checker::ascii_upper;
use crate::level_checker::level_type_name;
use crate::level_checker::text_equal;
use crate::level_checker::Level;
use crate::level_checker::LevelType;
use crate::scoring::rank_for_score;
use crate::scoring::Rank;

verus! {

/// Why a change to the game data was refused.
#[derive(Clone, Copy, Debug, PartialEq, Eq, Structural)]
pub enum GameError {
    /// The level asked for is not among the levels.
    NoEntryForLevel,
    /// The current level is not among the levels.
    NoCurrentLevel,
}

impl GameError {
    /// The sentence that reports the error.
    pub fn message(&self) -> (s: &'static str)
        ensures
            s@ == match self {
                GameError::NoEntryForLevel => "No entry for entered level"@,
                GameError::NoCurrentLevel => "No current level found"@,
            },
    {
        match self {
            GameError::NoEntryForLevel => "No entry for entered level",
            GameError::NoCurrentLevel => "No current level found",
        }
    }
}

/// A level together with the identifier under which the game data keeps it.
#[derive(Clone, Debug, PartialEq)]
pub struct LevelEntry {
    pub id: String,
    pub level: Level,
}

/// Some entry of `entries` has the identifier `id`.
pub open spec fn has_id(entries: Seq<LevelEntry>, id: Seq<char>) -> bool {
    exists|i: int| 0 <= i < entries.len() && (#[trigger] entries[i]).id@ == id
}

/// The position of an entry with the identifier `id`, where there is one.
pub open spec fn index_of_id(entries: Seq<LevelEntry>, id: Seq<char>) -> int {
    choose|i: int| 0 <= i < entries.len() && (#[trigger] entries[i]).id@ == id
}

/// The levels of a list of entries, by identifier.
pub open spec fn levels_map(entries: Seq<LevelEntry>) -> Map<Seq<char>, Level> {
    Map::new(|id: Seq<char>| has_id(entries, id), |id: Seq<char>| entries[index_of_id(entries, id)].level)
}

/// No two entries share an identifier.
pub open spec fn distinct_ids(entries: Seq<LevelEntry>) -> bool {
    forall|i: int, j: int|
        0 <= i < entries.len() && 0 <= j < entries.len() && i != j ==> (#[trigger] entries[i]).id@
            != (#[trigger] entries[j]).id@
}

/// In a list without repeated identifiers, each entry is the level kept under its identifier.
pub proof fn lemma_entry_in_map(entries: Seq<LevelEntry>, i: int)
    requires
        distinct_ids(entries),
        0 <= i < entries.len(),
    ensures
        levels_map(entries).contains_key(entries[i].id@),
        levels_map(entries)[entries[i].id@] == entries[i].level,
{
    let id = entries[i].id@;
    assert(has_id(entries, id));
    let j = index_of_id(entries, id);
    assert(entries[j].id@ == id);
}

/// Replacing the level of one entry, under the same identifier, replaces it in the map.
pub proof fn lemma_update_entry(entries: Seq<LevelEntry>, i: int, entry: LevelEntry)
    requires
        distinct_ids(entries),
        0 <= i < entries.len(),
        entry.id@ == entries[i].id@,
    ensures
        distinct_ids(entries.update(i, entry)),
        levels_map(entries.update(i, entry)) == levels_map(entries).insert(entry.id@, entry.level),
{
    let new_entries = entries.update(i, entry);
    assert forall|a: int, b: int|
        0 <= a < new_entries.len() && 0 <= b < new_entries.len() && a != b implies (
    #[trigger] new_entries[a]).id@ != (#[trigger] new_entries[b]).id@ by {
        assert(new_entries[a].id@ == entries[a].id@);
        assert(new_entries[b].id@ == entries[b].id@);
    }
    let old_map = levels_map(entries);
    let new_map = levels_map(new_entries);
    assert forall|id: Seq<char>| new_map.contains_key(id) == old_map.insert(entry.id@, entry.level).contains_key(id) by {
        if has_id(entries, id) {
            let j = index_of_id(entries, id);
            assert(new_entries[j].id@ == id);
        }
        if has_id(new_entries, id) {
            let j = index_of_id(new_entries, id);
            assert(entries[j].id@ == id);
        }
    }
    assert forall|id: Seq<char>| #[trigger] new_map.contains_key(id) implies new_map[id]
        == old_map.insert(entry.id@, entry.level)[id] by {
        let j = index_of_id(new_entries, id);
        lemma_entry_in_map(new_entries, j);
        if id == entry.id@ {
            lemma_entry_in_map(new_entries, i);
        } else {
            lemma_entry_in_map(entries, j);
        }
    }
    assert(new_map =~= old_map.insert(entry.id@, entry.level));
}

/// What the game data holds: the identifier of the current level, and the levels by
/// identifier.
pub struct GameDataView {
    pub current_level: Seq<char>,
    pub levels: Map<Seq<char>, Level>,
}

/// The game data: which level is current, and every level with its best results. The
/// current level need not be among the levels.
#[derive(Debug)]
pub struct JsonData {
    current_level: String,
    levels: Vec<LevelEntry>,
}

/// The current level, when it is among the levels.
pub open spec fn current_of(d: GameDataView) -> Option<Level> {
    if d.levels.contains_key(d.current_level) {
        Some(d.levels[d.current_level])
    } else {
        None
    }
}

/// The game data with `id` as the current level.
pub open spec fn with_current(d: GameDataView, id: Seq<char>) -> GameDataView {
    GameDataView { current_level: id, levels: d.levels }
}

/// The game data with the data of the current level replaced by `level`, when the current
/// level is among the levels.
pub open spec fn with_current_updated(d: GameDataView, level: Level) -> GameDataView {
    GameDataView {
        current_level: d.current_level,
        levels: if d.levels.contains_key(d.current_level) {
            d.levels.insert(d.current_level, level)
        } else {
            d.levels
        },
    }
}

/// Every level with its best results forgotten.
pub open spec fn reset_all(levels: Map<Seq<char>, Level>) -> Map<Seq<char>, Level> {
    levels.map_values(|l: Level| reset_stats(l))
}

impl View for JsonData {
    type V = GameDataView;

    closed spec fn view(&self) -> GameDataView {
        GameDataView { current_level: self.current_level@, levels: levels_map(self.levels@) }
    }
}

impl JsonData {
    #[verifier::type_invariant]
    closed spec fn wf(self) -> bool {
        distinct_ids(self.levels@)
    }

    /// Builds the game data from its current level and its entries; refused when two entries
    /// share an identifier.
    pub fn from_entries(current_level: String, entries: Vec<LevelEntry>) -> (r: Option<JsonData>)
        ensures
            r is Some <==> distinct_ids(entries@),
            r matches Some(data) ==> data@ == (GameDataView {
                current_level: current_level@,
                levels: levels_map(entries@),
            }),
    {
        let n = entries.len();
        let mut i: usize = 0;
        while i < n
            invariant
                n == entries@.len(),
                i <= n,
                forall|a: int, b: int|
                    0 <= a < i && 0 <= b < n && a != b ==> (#[trigger] entries@[a]).id@
                        != (#[trigger] entries@[b]).id@,
            decreases n - i,
        {
            let mut j: usize = 0;
            while j < n
                invariant
                    n == entries@.len(),
                    i < n,
                    j <= n,
                    forall|a: int, b: int|
                        0 <= a < i && 0 <= b < n && a != b ==> (#[trigger] entries@[a]).id@
                            != (#[trigger] entries@[b]).id@,
                    forall|b: int|
                        0 <= b < j && b != i ==> entries@[i as int].id@ != (
                        #[trigger] entries@[b]).id@,
                decreases n - j,
            {
                if j != i && text_equal(entries[i].id.as_str(), entries[j].id.as_str()) {
                    assert(!distinct_ids(entries@)) by {
                        assert(entries@[i as int].id@ == entries@[j as int].id@);
                    }
                    return None;
                }
                j = j + 1;
            }
            i = i + 1;
        }
        Some(JsonData { current_level, levels: entries })
    }

    /// The entries of the game data, each level under its identifier.
    pub fn entries(&self) -> (entries: &Vec<LevelEntry>)
        ensures
            distinct_ids(entries@),
            levels_map(entries@) == self@.levels,
    {
        proof {
            use_type_invariant(self);
        }
        &self.levels
    }

    /// The identifier of the current level.
    pub fn current_level_id(&self) -> (id: &String)
        ensures
            id@ == self@.current_level,
    {
        &self.current_level
    }

    /// Where the entry with the identifier `id` stands, if any.
    fn find(&self, id: &str) -> (r: Option<usize>)
        ensures
            match r {
                Some(i) => i < self.levels@.len() && self.levels@[i as int].id@ == id@
                    && self@.levels.contains_key(id@) && self@.levels[id@]
                    == self.levels@[i as int].level,
                None => !self@.levels.contains_key(id@),
            },
    {
        proof {
            use_type_invariant(self);
        }
        let n = self.levels.len();
        let mut i: usize = 0;
        while i < n
            invariant
                n == self.levels@.len(),
                i <= n,
                distinct_ids(self.levels@),
                forall|j: int| 0 <= j < i ==> (#[trigger] self.levels@[j]).id@ != id@,
            decreases n - i,
        {
            if text_equal(self.levels[i].id.as_str(), id) {
                proof {
                    lemma_entry_in_map(self.levels@, i as int);
                }
                return Some(i);
            }
            i = i + 1;
        }
        None
    }

    /// The level kept under the identifier `id`, if any.
    pub fn level(&self, id: &str) -> (r: Option<&Level>)
        ensures
            r == (if self@.levels.contains_key(id@) {
                Some(&self@.levels[id@])
            } else {
                None
            }),
    {
        match self.find(id) {
            Some(i) => Some(&self.levels[i].level),
            None => None,
        }
    }

    /// The current level, if it is among the levels.
    pub fn current_level(&self) -> (r: Option<&Level>)
        ensures
            r == (if self@.levels.contains_key(self@.current_level) {
                Some(&self@.levels[self@.current_level])
            } else {
                None
            }),
            match r {
                Some(l) => current_of(self@) == Some(*l),
                None => current_of(self@) is None,
            },
    {
        self.level(self.current_level.as_str())
    }

    /// The current level; refused when it is not among the levels.
    pub fn current_level_required(&self) -> (r: Result<&Level, GameError>)
        ensures
            self@.levels.contains_key(self@.current_level) ==> r == Ok::<&Level, GameError>(
                &self@.levels[self@.current_level],
            ),
            !self@.levels.contains_key(self@.current_level) ==> r == Err::<&Level, GameError>(
                GameError::NoCurrentLevel,
            ),
    {
        match self.current_level() {
            Some(level) => Ok(level),
            None => Err(GameError::NoCurrentLevel),
        }
    }

    /// Makes `selected_level` the current level; refused when there is no such level.
    pub fn set_current_level(&mut self, selected_level: String) -> (r: Result<(), GameError>)
        ensures
            old(self)@.levels.contains_key(selected_level@) ==> r is Ok && final(self)@
                == with_current(old(self)@, selected_level@),
            !old(self)@.levels.contains_key(selected_level@) ==> r == Err::<(), GameError>(
                GameError::NoEntryForLevel,
            ) && final(self)@ == old(self)@,
    {
        proof {
            use_type_invariant(&*self);
        }
        if self.find(selected_level.as_str()).is_none() {
            return Err(GameError::NoEntryForLevel);
        }
        self.current_level = selected_level;
        Ok(())
    }

    /// Makes `selected_level` the current level, whether or not there is such a level.
    pub fn assign_current_level(&mut self, selected_level: String)
        ensures
            final(self)@ == with_current(old(self)@, selected_level@),
    {
        proof {
            use_type_invariant(&*self);
        }
        self.current_level = selected_level;
    }

    /// Replaces the data of the current level; nothing changes when the current level is not
    /// among the levels.
    pub fn update_current_level(&mut self, new_level_data: Level)
        ensures
            final(self)@ == with_current_updated(old(self)@, new_level_data),
    {
        proof {
            use_type_invariant(&*self);
        }
        match self.find(self.current_level.as_str()) {
            None => {},
            Some(i) => {
                let mut levels = Vec::new();
                std::mem::swap(&mut levels, &mut self.levels);
                let old_entry = levels.remove(i);
                let entry = LevelEntry { id: old_entry.id, level: new_level_data };
                let ghost before = levels@.insert(i as int, old_entry);
                levels.insert(i, entry);
                proof {
                    assert(before =~= old(self).levels@);
                    assert(levels@ =~= before.update(i as int, entry));
                    lemma_update_entry(before, i as int, entry);
                }
                self.levels = levels;
            },
        }
    }

    /// Forgets every best result, then makes level `0` current; the second step is refused
    /// when there is no level `0`, and the results stay forgotten.
    pub fn restart_data(&mut self) -> (r: Result<(), GameError>)
        ensures
            final(self)@.levels == reset_all(old(self)@.levels),
            old(self)@.levels.contains_key("0"@) ==> r is Ok && final(self)@.current_level
                == "0"@,
            !old(self)@.levels.contains_key("0"@) ==> r == Err::<(), GameError>(
                GameError::NoEntryForLevel,
            ) && final(self)@.current_level == old(self)@.current_level,
    {
        proof {
            use_type_invariant(&*self);
        }
        let mut levels = Vec::new();
        std::mem::swap(&mut levels, &mut self.levels);
        let ghost initial = levels@;
        let n = levels.len();
        let mut i: usize = 0;
        while i < n
            invariant
                n == levels@.len(),
                n == initial.len(),
                i <= n,
                forall|j: int| 0 <= j < n ==> (#[trigger] levels@[j]).id@ == initial[j].id@,
                forall|j: int|
                    0 <= j < i ==> (#[trigger] levels@[j]).level == reset_stats(initial[j].level),
                forall|j: int| i <= j < n ==> (#[trigger] levels@[j]).level == initial[j].level,
            decreases n - i,
        {
            let mut entry = levels.remove(i);
            entry.level.highest_score = None;
            entry.level.shortest_time = None;
            entry.level.commands_used = None;
            entry.level.rank = None;
            levels.insert(i, entry);
            i = i + 1;
        }
        proof {
            lemma_reset_entries(initial, levels@);
        }
        self.levels = levels;
        let zero = String::from_str("0");
        self.set_current_level(zero)
    }

    /// Records a finished run of the current level (see `completion_record`), with the rank
    /// that its score earns. A score of zero
    /// or less comes from a failed measurement: the run is then not recorded at all, and the
    /// result says it was rejected.
    pub fn complete_current_level(
        &mut self,
        time: i64,
        command_count: i32,
        score: i32,
        rank: Rank,
    ) -> (score_rejected: bool)
        requires
            old(self)@.levels.contains_key(old(self)@.current_level),
            rank == rank_for_score(score as int),
        ensures
            score_rejected == (score <= 0),
            score <= 0 ==> final(self)@ == old(self)@,
            score > 0 ==> final(self)@ == with_current_updated(
                old(self)@,
                completion_record(
                    old(self)@.levels[old(self)@.current_level],
                    time,
                    command_count,
                    score,
                    rank,
                ),
            ),
    {
        proof {
            use_type_invariant(&*self);
        }
        if score <= 0 {
            return true;
        }
        let i = self.find(self.current_level.as_str()).unwrap();
        let mut levels = Vec::new();
        std::mem::swap(&mut levels, &mut self.levels);
        let mut entry = levels.remove(i);
        let ghost old_entry = entry;
        let ghost before = levels@.insert(i as int, entry);
        record_completion(&mut entry.level, time, command_count, score, rank);
        levels.insert(i, entry);
        proof {
            assert(before =~= old(self).levels@);
            assert(levels@ =~= before.update(i as int, entry));
            lemma_update_entry(before, i as int, entry);
        }
        self.levels = levels;
        false
    }

    /// Moves on to the level whose identifier is the current one read as a number, plus one;
    /// refused when there is no such level.
    pub fn advance_level(&mut self) -> (r: Result<(), GameError>)
        requires
            parse_i32_spec(old(self)@.current_level) is Some,
            parse_i32_spec(old(self)@.current_level).unwrap() < i32::MAX,
        ensures
            old(self)@.levels.contains_key(next_level_id(old(self)@.current_level)) ==> r is Ok
                && final(self)@ == with_current(
                old(self)@,
                next_level_id(old(self)@.current_level),
            ),
            !old(self)@.levels.contains_key(next_level_id(old(self)@.current_level)) ==> r
                == Err::<(), GameError>(GameError::NoEntryForLevel) && final(self)@ == old(
                self,
            )@,
    {
        let v = parse_i32(self.current_level.as_str()).unwrap();
        let next = format_i32(v + 1);
        self.set_current_level(next)
    }

    /// Plays a level: makes `level` current when one is named (refused when there is no
    /// such level), then tells the shell which level is selected and of what type.
    pub fn play(&mut self, level: Option<String>) -> (r: Result<String, GameError>)
        requires
            level is None ==> old(self)@.levels.contains_key(old(self)@.current_level),
        ensures
            match level {
                Some(l) => if old(self)@.levels.contains_key(l@) {
                    &&& final(self)@ == with_current(old(self)@, l@)
                    &&& r matches Ok(m) && m@ == selected_level_message(
                        l@,
                        old(self)@.levels[l@].level_type,
                    )
                } else {
                    &&& final(self)@ == old(self)@
                    &&& r == Err::<String, GameError>(GameError::NoEntryForLevel)
                },
                None => {
                    &&& final(self)@ == old(self)@
                    &&& r matches Ok(m) && m@ == selected_level_message(
                        old(self)@.current_level,
                        old(self)@.levels[old(self)@.current_level].level_type,
                    )
                },
            },
    {
        match level {
            Some(l) => {
                let r = self.set_current_level(l);
                if r.is_err() {
                    return Err(GameError::NoEntryForLevel);
                }
            },
            None => {},
        }
        let current = self.current_level().unwrap();
        Ok(selected_level_message_text(self.current_level.as_str(), &current.level_type))
    }
}

/// A level with every best result forgotten.
pub open spec fn reset_stats(level: Level) -> Level {
    Level { highest_score: None, shortest_time: None, commands_used: None, rank: None, ..level }
}

/// Forgetting the results of every entry forgets them in the map, and keeps the identifiers.
pub proof fn lemma_reset_entries(old_entries: Seq<LevelEntry>, new_entries: Seq<LevelEntry>)
    requires
        distinct_ids(old_entries),
        new_entries.len() == old_entries.len(),
        forall|j: int| 0 <= j < new_entries.len() ==> (#[trigger] new_entries[j]).id@ == old_entries[j].id@,
        forall|j: int|
            0 <= j < new_entries.len() ==> (#[trigger] new_entries[j]).level == reset_stats(
                old_entries[j].level,
            ),
    ensures
        distinct_ids(new_entries),
        levels_map(new_entries) == reset_all(levels_map(old_entries)),
{
    assert forall|a: int, b: int|
        0 <= a < new_entries.len() && 0 <= b < new_entries.len() && a != b implies (
    #[trigger] new_entries[a]).id@ != (#[trigger] new_entries[b]).id@ by {
        assert(new_entries[a].id@ == old_entries[a].id@);
        assert(new_entries[b].id@ == old_entries[b].id@);
    }
    let old_map = levels_map(old_entries);
    let new_map = levels_map(new_entries);
    let reset_map = old_map.map_values(|l: Level| reset_stats(l));
    assert forall|id: Seq<char>| new_map.contains_key(id) == reset_map.contains_key(id) by {
        if has_id(old_entries, id) {
            let j = index_of_id(old_entries, id);
            assert(new_entries[j].id@ == id);
        }
        if has_id(new_entries, id) {
            let j = index_of_id(new_entries, id);
            assert(old_entries[j].id@ == id);
        }
    }
    assert forall|id: Seq<char>| #[trigger] new_map.contains_key(id) implies new_map[id]
        == reset_map[id] by {
        let j = index_of_id(new_entries, id);
        lemma_entry_in_map(new_entries, j);
        assert(old_entries[j].id@ == id);
        lemma_entry_in_map(old_entries, j);
    }
    assert(new_map =~= reset_map);
}

/// The results of a level after a finished run that took `time` hundredths of a second and
/// `command_count` commands and scored `score`, earning `rank`. The time is kept when there
/// was none or when it is positive and shorter; the command count when there was none or it
/// is smaller; the score, with its rank, when there was none or when it is positive and
/// higher.
pub open spec fn completion_record(
    level: Level,
    time: i64,
    command_count: i32,
    score: i32,
    rank: Rank,
) -> Level {
    let better_time = match level.shortest_time {
        None => true,
        Some(t) => t > time && time > 0,
    };
    let fewer_commands = match level.commands_used {
        None => true,
        Some(c) => c > command_count,
    };
    let better_score = match level.highest_score {
        None => true,
        Some(s) => s < score && score > 0,
    };
    Level {
        shortest_time: if better_time {
            Some(time)
        } else {
            level.shortest_time
        },
        commands_used: if fewer_commands {
            Some(command_count)
        } else {
            level.commands_used
        },
        highest_score: if better_score {
            Some(score)
        } else {
            level.highest_score
        },
        rank: if better_score {
            Some(rank)
        } else {
            level.rank
        },
        ..level
    }
}

/// Records a finished run in the results of a level (see `completion_record`).
pub fn record_completion(level: &mut Level, time: i64, command_count: i32, score: i32, rank: Rank)
    ensures
        *final(level) == completion_record(*old(level), time, command_count, score, rank),
{
    let better_time = match level.shortest_time {
        None => true,
        Some(t) => t > time && time > 0,
    };
    if better_time {
        level.shortest_time = Some(time);
    }
    let fewer_commands = match level.commands_used {
        None => true,
        Some(c) => c > command_count,
    };
    if fewer_commands {
        level.commands_used = Some(command_count);
    }
    let better_score = match level.highest_score {
        None => true,
        Some(s) => s < score && score > 0,
    };
    if better_score {
        level.highest_score = Some(score);
        level.rank = Some(rank);
    }
}

/// The identifier that follows `current`: the number it writes, plus one, written back.
pub open spec fn next_level_id(current: Seq<char>) -> Seq<char> {
    signed_decimal(parse_i32_spec(current).unwrap() + 1)
}

/// What the shell is told when a level is selected: its identifier and its type in capitals.
pub open spec fn selected_level_message(id: Seq<char>, level_type: LevelType) -> Seq<char> {
    "SELECTED_LEVEL"@ + " "@ + id + " "@ + ascii_upper(level_type_name(level_type))
}

/// Tells the shell that the level `id`, of type `level_type`, is selected.
pub fn selected_level_message_text(id: &str, level_type: &LevelType) -> (text: String)
    ensures
        text@ == selected_level_message(id@, *level_type),
{
    let text = String::from_str("SELECTED_LEVEL").concat(" ").concat(id).concat(" ").concat(
        level_type.upper_name(),
    );
    text
}

} // verus!
