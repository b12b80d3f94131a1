//! The facts about a combat encounter that summaries, classification and
//! counters read, and the static game data they look things up in.
//!
//! Timestamps are milliseconds on the combat log's clock.

use vstd::prelude::*;
use crate::encounter::EntityType;
use crate::dsl::{CounterDefinition, EntityDefinition};
use std::collections::HashSet;
use crate::names::{NameCounts, name_count_entries};

verus! {

/// Kind of content a boss belongs to.
#[derive(Debug, Clone, Copy, PartialEq, Eq, Structural)]
pub enum ContentType {
    Operation,
    Flashpoint,
    LairBoss,
    WorldBoss,
    TrainingDummy,
}

/// Kind of area a boss definition is written for.
#[derive(Debug, Clone, Copy, PartialEq, Eq, Structural)]
pub enum AreaType {
    Operation,
    Flashpoint,
    LairBoss,
    OpenWorld,
    TrainingDummy,
}

/// A boss known to the game data, found by the class id of its NPC.
#[derive(Debug)]
pub struct BossInfo {
    pub class_id: i64,
    pub boss: String,
    pub content_type: ContentType,
}

/// A difficulty known to the game data.
#[derive(Debug)]
pub struct Difficulty {
    pub difficulty_id: i64,
    /// Number of players the difficulty is made for.
    pub group_size: u32,
    /// The key that encounter definitions use to name this difficulty.
    pub config_key: String,
}

/// The static tables that classification looks things up in.
pub struct GameData {
    pub bosses: Vec<BossInfo>,
    pub pvp_area_ids: Vec<i64>,
    pub difficulties: Vec<Difficulty>,
}

/// An NPC seen during an encounter.
#[derive(Debug)]
pub struct NpcInfo {
    pub name: String,
    pub entity_type: EntityType,
    pub is_boss: bool,
    pub class_id: i64,
    pub first_seen_at: Option<i64>,
}

/// The boss definition part that summaries read.
pub struct BossDefinition {
    pub name: String,
    pub area_type: AreaType,
    pub has_victory_trigger: bool,
    /// Difficulties (by config key) on which the victory trigger is required;
    /// empty means all.
    pub victory_trigger_difficulties: Vec<String>,
    pub counters: Vec<CounterDefinition>,
    pub entities: Vec<EntityDefinition>,
}

/// The area the player was in when an encounter was summarized.
pub struct AreaInfo {
    pub area_id: i64,
    pub area_name: String,
    pub difficulty_id: i64,
    pub difficulty_name: String,
    pub entered_at_line: Option<u64>,
}

/// A combat encounter as the summary code sees it.
pub struct CombatEncounter {
    pub id: u64,
    pub npcs: Vec<NpcInfo>,
    pub boss_definitions: Vec<BossDefinition>,
    /// Index into `boss_definitions` of the boss being fought.
    pub active_boss_idx: Option<usize>,
    pub difficulty: Option<Difficulty>,
    /// Whether the active boss's victory trigger fired.
    pub victory_triggered: bool,
    /// The wipe heuristic's verdict (all players dead or kill targets alive).
    pub likely_wipe: bool,
    pub enter_combat_time: Option<i64>,
    pub effective_end_time: Option<i64>,
    pub duration_seconds: Option<i64>,
    pub area_id: Option<i64>,
    pub difficulty_id: Option<i64>,
    pub area_name: Option<String>,
    pub difficulty_name: Option<String>,
    pub area_entered_line: Option<u64>,
    pub first_event_line: Option<u64>,
    pub last_event_line: Option<u64>,
    /// Current counter values.
    pub counters: CounterValues,
    /// Log ids of the entities that are bosses of this encounter.
    pub boss_entity_ids: HashSet<i64>,
    /// What each entity is targeting: (entity log id, target log id).
    pub targets: Vec<(i64, i64)>,
}

/// The processing state the counter code reads and updates.
pub struct SessionCache {
    /// Log id of the local player (zero when not yet known).
    pub player_id: i64,
    pub encounter: Option<CombatEncounter>,
}

/// What the entity with the log id targets, by the first record of it.
pub open spec fn target_of(targets: Seq<(i64, i64)>, id: i64) -> Option<i64>
    decreases targets.len(),
{
    if targets.len() == 0 {
        None
    } else {
        match target_of(targets.drop_last(), id) {
            Some(t) => Some(t),
            None => if targets.last().0 == id {
                Some(targets.last().1)
            } else {
                None
            },
        }
    }
}

impl CombatEncounter {
    /// The active boss index, if any, names a boss definition.
    pub open spec fn well_formed(&self) -> bool {
        self.active_boss_idx matches Some(i) ==> i < self.boss_definitions@.len()
    }

    /// The definition of the boss being fought.
    pub open spec fn active_definition(&self) -> Option<BossDefinition> {
        match self.active_boss_idx {
            Some(i) => Some(self.boss_definitions@[i as int]),
            None => None,
        }
    }

    /// `other` is this encounter with its counter values replaced by `values`.
    pub open spec fn with_counter_values(&self, other: CombatEncounter, values: Map<Seq<char>, u32>) -> bool {
        &&& other.counters@ == values
        &&& other.id == self.id
        &&& other.npcs == self.npcs
        &&& other.boss_definitions == self.boss_definitions
        &&& other.active_boss_idx == self.active_boss_idx
        &&& other.difficulty == self.difficulty
        &&& other.victory_triggered == self.victory_triggered
        &&& other.likely_wipe == self.likely_wipe
        &&& other.enter_combat_time == self.enter_combat_time
        &&& other.effective_end_time == self.effective_end_time
        &&& other.duration_seconds == self.duration_seconds
        &&& other.area_id == self.area_id
        &&& other.difficulty_id == self.difficulty_id
        &&& other.area_name == self.area_name
        &&& other.difficulty_name == self.difficulty_name
        &&& other.area_entered_line == self.area_entered_line
        &&& other.first_event_line == self.first_event_line
        &&& other.last_event_line == self.last_event_line
        &&& other.boss_entity_ids == self.boss_entity_ids
        &&& other.targets == self.targets
    }

    /// Some NPC of the encounter is flagged as a boss.
    pub open spec fn has_boss_npc(&self) -> bool {
        exists|i: int| 0 <= i < self.npcs@.len() && (#[trigger] self.npcs@[i]).is_boss
    }

    /// What the entity with the log id targets.
    pub fn target_of_entity(&self, id: i64) -> (r: Option<i64>)
        ensures
            r == target_of(self.targets@, id),
    {
        let n = self.targets.len();
        let mut i: usize = 0;
        while i < n
            invariant
                n == self.targets@.len(),
                i <= n,
                target_of(self.targets@.take(i as int), id) is None,
            decreases n - i,
        {
            assert(self.targets@.take(i + 1).drop_last() =~= self.targets@.take(i as int));
            let (e, t) = self.targets[i];
            if e == id {
                proof {
                    lemma_target_of_prefix(self.targets@, id, i as int);
                }
                return Some(t);
            }
            i = i + 1;
        }
        assert(self.targets@.take(n as int) =~= self.targets@);
        None
    }

    /// Some NPC of the encounter is flagged as a boss.
    pub fn any_boss_npc(&self) -> (r: bool)
        ensures
            r == self.has_boss_npc(),
    {
        let n = self.npcs.len();
        let mut i: usize = 0;
        while i < n
            invariant
                n == self.npcs@.len(),
                i <= n,
                forall|j: int| 0 <= j < i ==> !(#[trigger] self.npcs@[j]).is_boss,
            decreases n - i,
        {
            if self.npcs[i].is_boss {
                assert(self.npcs@[i as int].is_boss);
                return true;
            }
            i = i + 1;
        }
        false
    }
}

/// The index of the first boss in `bosses` with the class id.
pub open spec fn boss_index(bosses: Seq<BossInfo>, class_id: i64) -> Option<int>
    decreases bosses.len(),
{
    if bosses.len() == 0 {
        None
    } else {
        match boss_index(bosses.drop_last(), class_id) {
            Some(i) => Some(i),
            None => if bosses.last().class_id == class_id {
                Some(bosses.len() - 1)
            } else {
                None
            },
        }
    }
}

/// The index of the first difficulty in `ds` with the id.
pub open spec fn difficulty_index(ds: Seq<Difficulty>, id: i64) -> Option<int>
    decreases ds.len(),
{
    if ds.len() == 0 {
        None
    } else {
        match difficulty_index(ds.drop_last(), id) {
            Some(i) => Some(i),
            None => if ds.last().difficulty_id == id {
                Some(ds.len() - 1)
            } else {
                None
            },
        }
    }
}

pub proof fn lemma_boss_index_bounds(bosses: Seq<BossInfo>, class_id: i64)
    ensures
        boss_index(bosses, class_id) matches Some(i) ==> 0 <= i < bosses.len() && bosses[i].class_id
            == class_id,
    decreases bosses.len(),
{
    if bosses.len() > 0 {
        lemma_boss_index_bounds(bosses.drop_last(), class_id);
    }
}

proof fn lemma_difficulty_index_bounds(ds: Seq<Difficulty>, id: i64)
    ensures
        difficulty_index(ds, id) matches Some(i) ==> 0 <= i < ds.len() && ds[i].difficulty_id == id,
    decreases ds.len(),
{
    if ds.len() > 0 {
        lemma_difficulty_index_bounds(ds.drop_last(), id);
    }
}

impl GameData {
    /// The position in `bosses` of the boss with the NPC class id.
    pub fn find_boss(&self, class_id: i64) -> (r: Option<usize>)
        ensures
            match boss_index(self.bosses@, class_id) {
                Some(i) => r == Some(i as usize),
                None => r is None,
            },
            r matches Some(i) ==> i < self.bosses@.len() && boss_index(self.bosses@, class_id) == Some(
                i as int,
            ),
    {
        proof {
            lemma_boss_index_bounds(self.bosses@, class_id);
        }
        let n = self.bosses.len();
        let mut i: usize = 0;
        while i < n
            invariant
                n == self.bosses@.len(),
                i <= n,
                boss_index(self.bosses@.take(i as int), class_id) is None,
            decreases n - i,
        {
            assert(self.bosses@.take(i + 1).drop_last() =~= self.bosses@.take(i as int));
            if self.bosses[i].class_id == class_id {
                proof {
                    lemma_boss_index_prefix(self.bosses@, class_id, i as int);
                }
                return Some(i);
            }
            i = i + 1;
        }
        assert(self.bosses@.take(n as int) =~= self.bosses@);
        None
    }

    /// The boss with the NPC class id, if the game data knows one.
    pub fn lookup_boss(&self, class_id: i64) -> (r: Option<&BossInfo>)
        ensures
            match boss_index(self.bosses@, class_id) {
                Some(i) => r == Some(&self.bosses@[i]),
                None => r is None,
            },
    {
        proof {
            lemma_boss_index_bounds(self.bosses@, class_id);
        }
        match self.find_boss(class_id) {
            Some(i) => {
                let b = &self.bosses[i];
                assert(*b == self.bosses@[i as int]);
                Some(b)
            },
            None => None,
        }
    }

    /// Whether the area is a PvP area.
    pub fn is_pvp_area(&self, area_id: i64) -> (r: bool)
        ensures
            r == self.pvp_area_ids@.contains(area_id),
    {
        let n = self.pvp_area_ids.len();
        let mut i: usize = 0;
        while i < n
            invariant
                n == self.pvp_area_ids@.len(),
                i <= n,
                forall|j: int| 0 <= j < i ==> self.pvp_area_ids@[j] != area_id,
            decreases n - i,
        {
            if self.pvp_area_ids[i] == area_id {
                assert(self.pvp_area_ids@[i as int] == area_id);
                return true;
            }
            i = i + 1;
        }
        false
    }

    /// The difficulty with the id, if the game data knows one.
    pub fn difficulty_by_id(&self, difficulty_id: i64) -> (r: Option<&Difficulty>)
        ensures
            match difficulty_index(self.difficulties@, difficulty_id) {
                Some(i) => r == Some(&self.difficulties@[i]),
                None => r is None,
            },
    {
        let n = self.difficulties.len();
        let mut i: usize = 0;
        while i < n
            invariant
                n == self.difficulties@.len(),
                i <= n,
                difficulty_index(self.difficulties@.take(i as int), difficulty_id) is None,
            decreases n - i,
        {
            assert(self.difficulties@.take(i + 1).drop_last() =~= self.difficulties@.take(i as int));
            if self.difficulties[i].difficulty_id == difficulty_id {
                proof {
                    lemma_difficulty_index_prefix(self.difficulties@, difficulty_id, i as int);
                }
                return Some(&self.difficulties[i]);
            }
            i = i + 1;
        }
        assert(self.difficulties@.take(n as int) =~= self.difficulties@);
        None
    }
}

/// A first record at `i` is the one `target_of` finds.
proof fn lemma_target_of_prefix(targets: Seq<(i64, i64)>, id: i64, i: int)
    requires
        0 <= i < targets.len(),
        targets[i].0 == id,
        target_of(targets.take(i), id) is None,
    ensures
        target_of(targets, id) == Some(targets[i].1),
    decreases targets.len(),
{
    if targets.len() > i + 1 {
        assert(targets.drop_last().take(i) =~= targets.take(i));
        lemma_target_of_prefix(targets.drop_last(), id, i);
    } else {
        assert(targets.drop_last() =~= targets.take(i));
    }
}

/// A first match at `i` in the prefix of length `i + 1` is the first match.
proof fn lemma_boss_index_prefix(bosses: Seq<BossInfo>, class_id: i64, i: int)
    requires
        0 <= i < bosses.len(),
        bosses[i].class_id == class_id,
        boss_index(bosses.take(i), class_id) is None,
    ensures
        boss_index(bosses, class_id) == Some(i),
    decreases bosses.len(),
{
    if bosses.len() > i + 1 {
        assert(bosses.drop_last().take(i) =~= bosses.take(i));
        lemma_boss_index_prefix(bosses.drop_last(), class_id, i);
    } else {
        assert(bosses.drop_last() =~= bosses.take(i));
    }
}

/// A first match at `i` in the prefix of length `i + 1` is the first match.
proof fn lemma_difficulty_index_prefix(ds: Seq<Difficulty>, id: i64, i: int)
    requires
        0 <= i < ds.len(),
        ds[i].difficulty_id == id,
        difficulty_index(ds.take(i), id) is None,
    ensures
        difficulty_index(ds, id) == Some(i),
    decreases ds.len(),
{
    if ds.len() > i + 1 {
        assert(ds.drop_last().take(i) =~= ds.take(i));
        lemma_difficulty_index_prefix(ds.drop_last(), id, i);
    } else {
        assert(ds.drop_last() =~= ds.take(i));
    }
}

// ─── Counter values ──────────────────────────────────────────────────────────

/// The current values of an encounter's counters, by counter id; a counter
/// never touched reads as zero.
pub struct CounterValues {
    counts: NameCounts,
}

/// The value of counter `id`, zero when it was never set.
pub open spec fn value_of(values: Map<Seq<char>, u32>, id: Seq<char>) -> u32 {
    if values.contains_key(id) {
        values[id]
    } else {
        0
    }
}

/// The map of no counters.
pub open spec fn no_counters() -> Map<Seq<char>, u32> {
    Map::empty()
}

impl View for CounterValues {
    type V = Map<Seq<char>, u32>;

    closed spec fn view(&self) -> Map<Seq<char>, u32> {
        name_count_entries(self.counts)
    }
}

impl CounterValues {
    /// No counter set yet.
    pub fn new() -> (r: CounterValues)
        ensures
            r@ == no_counters(),
    {
        CounterValues { counts: NameCounts::new() }
    }

    /// The value of counter `id` (zero when never set).
    pub fn get_counter(&self, id: &str) -> (r: u32)
        ensures
            r == value_of(self@, id@),
    {
        match self.counts.get(id) {
            Some(v) => v,
            None => 0,
        }
    }

    /// Sets counter `id` to `value`.
    pub fn set_counter(&mut self, id: &str, value: u32)
        ensures
            final(self)@ == old(self)@.insert(id@, value),
    {
        self.counts.insert(id.to_owned(), value);
    }
}

/// Reading a counter gives back what was last written to it, and writing one
/// counter leaves the others as they were; a counter never written reads as
/// zero.
pub proof fn law_counter_reads_back_writes(values: Map<Seq<char>, u32>, id: Seq<char>, value: u32, other: Seq<char>)
    ensures
        value_of(values.insert(id, value), id) == value,
        other != id ==> value_of(values.insert(id, value), other) == value_of(values, other),
        value_of(no_counters(), other) == 0,
{
}

} // verus!
