//! The encounter-definition language that counters are written in: triggers,
//! entity filters, and counter definitions, with what it means for each of
//! them to match.

use vstd::prelude::*;
use crate::encounter::EntityType;
use crate::text::text_eq;

verus! {

/// Names an ability or an effect: by its game id or by its name.
pub enum AbilitySelector {
    Id(i64),
    Name(String),
}

/// Names an NPC: by its class id, by its name, or by the name of an entity
/// definition of the encounter.
pub enum EntitySelector {
    NpcId(i64),
    Name(String),
    Entity(String),
}

/// An entity defined by an encounter definition: a name for a set of NPC
/// class ids.
pub struct EntityDefinition {
    pub name: String,
    pub ids: Vec<i64>,
}

/// Which entity a trigger's source or target must be.
pub enum EntityFilter {
    /// Any entity.
    Any,
    /// The local player.
    LocalPlayer,
    /// The local player's current target.
    CurrentTarget,
    /// One of the encounter's boss entities.
    Boss,
    /// Any player.
    AnyPlayer,
    /// Any NPC.
    AnyNpc,
    /// An NPC named by a selector.
    Selector(EntitySelector),
}

impl Default for EntityFilter {
    fn default() -> (r: EntityFilter)
        ensures
            r is Any,
    {
        EntityFilter::Any
    }
}

/// A condition on the game events and signals of one processing step.
pub enum Trigger {
    CombatStart,
    CombatEnd,
    AbilityCast { abilities: Vec<AbilitySelector>, source: EntityFilter, target: EntityFilter },
    EffectApplied { effects: Vec<AbilitySelector>, source: EntityFilter, target: EntityFilter },
    EffectRemoved { effects: Vec<AbilitySelector>, source: EntityFilter, target: EntityFilter },
    DamageTaken { abilities: Vec<AbilitySelector>, source: EntityFilter, target: EntityFilter },
    HealingTaken { abilities: Vec<AbilitySelector>, source: EntityFilter, target: EntityFilter },
    /// A boss's health falls to or below the threshold (hundredths of a percent).
    BossHpBelow { hp_hundredths: u32, selector: Vec<EntitySelector> },
    /// A boss's health rises above the threshold (hundredths of a percent).
    BossHpAbove { hp_hundredths: u32, selector: Vec<EntitySelector> },
    NpcAppears { selector: Vec<EntitySelector> },
    EntityDeath { selector: Vec<EntitySelector> },
    PhaseEntered { phase_id: String },
    PhaseEnded { phase_id: String },
    AnyPhaseChange,
    CounterReaches { counter_id: String, value: u32 },
    TimerExpires { timer_id: String },
    TimerStarted { timer_id: String },
    /// Seconds since combat start.
    TimeElapsed { secs: u32 },
    TargetSet { selector: Vec<EntitySelector> },
    Manual,
    Never,
    AnyOf { conditions: Vec<Trigger> },
}

/// A counter of a boss definition: what increments, decrements and resets it.
pub struct CounterDefinition {
    pub id: String,
    pub name: String,
    pub enabled: bool,
    pub display_text: Option<String>,
    pub increment_on: Trigger,
    pub decrement_on: Option<Trigger>,
    pub reset_on: Trigger,
    /// Starting value for this counter when reset
    pub initial_value: u32,
    /// Count down instead of up on each trigger
    pub decrement: bool,
    /// Set to a specific value on trigger instead of incrementing by 1
    pub set_value: Option<u32>,
}

/// Create a default counter definition: enabled, counting up from zero on
/// ability casts (none named yet, from and to anyone), reset at combat end,
/// with no id yet (the id is given when the definition is saved).
pub fn default_counter(name: String) -> (c: CounterDefinition)
    ensures
        c.id@ == Seq::<char>::empty(),
        c.name == name,
        c.enabled,
        c.display_text is None,
        c.increment_on matches Trigger::AbilityCast { abilities, source, target } && abilities@.len() == 0
            && source is Any && target is Any,
        c.decrement_on is None,
        c.reset_on is CombatEnd,
        c.initial_value == 0,
        !c.decrement,
        c.set_value is None,
{
    CounterDefinition {
        id: String::new(),
        name,
        enabled: true,
        display_text: None,
        increment_on: Trigger::AbilityCast {
            abilities: Vec::new(),
            source: EntityFilter::default(),
            target: EntityFilter::default(),
        },
        decrement_on: None,
        reset_on: Trigger::CombatEnd,
        initial_value: 0,
        decrement: false,
        set_value: None,
    }
}

// ─── Matching ────────────────────────────────────────────────────────────────

/// The selector names the ability or effect with this id and name.
pub open spec fn ability_selected(s: AbilitySelector, id: i64, name: Seq<char>) -> bool {
    match s {
        AbilitySelector::Id(i) => i == id,
        AbilitySelector::Name(n) => n@ == name,
    }
}

/// Some selector of the list names the ability (an empty list names none).
pub open spec fn abilities_match(list: Seq<AbilitySelector>, id: i64, name: Seq<char>) -> bool {
    exists|i: int| 0 <= i < list.len() && ability_selected(#[trigger] list[i], id, name)
}

/// The entity definition named `def_name` lists the NPC class id.
pub open spec fn defined_as(entities: Seq<EntityDefinition>, def_name: Seq<char>, npc_id: i64) -> bool {
    exists|i: int|
        0 <= i < entities.len() && (#[trigger] entities[i]).name@ == def_name
            && entities[i].ids@.contains(npc_id)
}

/// The selector names the NPC with this class id and name.
pub open spec fn entity_selected(
    s: EntitySelector,
    entities: Seq<EntityDefinition>,
    npc_id: i64,
    name: Seq<char>,
) -> bool {
    match s {
        EntitySelector::NpcId(i) => i == npc_id,
        EntitySelector::Name(n) => n@ == name,
        EntitySelector::Entity(d) => defined_as(entities, d@, npc_id),
    }
}

/// The NPC passes the selector list: an empty list lets every NPC pass,
/// otherwise some selector must name it.
pub open spec fn entities_match(
    list: Seq<EntitySelector>,
    entities: Seq<EntityDefinition>,
    npc_id: i64,
    name: Seq<char>,
) -> bool {
    list.len() == 0 || exists|i: int|
        0 <= i < list.len() && entity_selected(#[trigger] list[i], entities, npc_id, name)
}

/// The entity described by the arguments passes the filter.
pub open spec fn filter_matches(
    f: EntityFilter,
    entities: Seq<EntityDefinition>,
    id: i64,
    entity_type: EntityType,
    name: Seq<char>,
    npc_id: i64,
    local_player_id: Option<i64>,
    current_target_id: Option<i64>,
    boss_entity_ids: Set<i64>,
) -> bool {
    match f {
        EntityFilter::Any => true,
        EntityFilter::LocalPlayer => local_player_id == Some(id),
        EntityFilter::CurrentTarget => current_target_id == Some(id),
        EntityFilter::Boss => boss_entity_ids.contains(id),
        EntityFilter::AnyPlayer => entity_type == EntityType::Player,
        EntityFilter::AnyNpc => entity_type == EntityType::Npc,
        EntityFilter::Selector(s) => entity_selected(s, entities, npc_id, name),
    }
}

impl Trigger {
    /// The filter on the triggering event's source, for triggers that have one.
    pub open spec fn source_filter_of(self) -> Option<EntityFilter> {
        match self {
            Trigger::AbilityCast { source, .. } => Some(source),
            Trigger::EffectApplied { source, .. } => Some(source),
            Trigger::EffectRemoved { source, .. } => Some(source),
            Trigger::DamageTaken { source, .. } => Some(source),
            Trigger::HealingTaken { source, .. } => Some(source),
            _ => None,
        }
    }

    /// The filter on the triggering event's target, for triggers that have one.
    pub open spec fn target_filter_of(self) -> Option<EntityFilter> {
        match self {
            Trigger::AbilityCast { target, .. } => Some(target),
            Trigger::EffectApplied { target, .. } => Some(target),
            Trigger::EffectRemoved { target, .. } => Some(target),
            Trigger::DamageTaken { target, .. } => Some(target),
            Trigger::HealingTaken { target, .. } => Some(target),
            _ => None,
        }
    }

    /// The filter on the triggering event's source, for triggers that have one.
    pub fn source_filter(&self) -> (r: Option<&EntityFilter>)
        ensures
            match self.source_filter_of() {
                Some(f) => r == Some(&f),
                None => r is None,
            },
    {
        match self {
            Trigger::AbilityCast { source, .. } => Some(source),
            Trigger::EffectApplied { source, .. } => Some(source),
            Trigger::EffectRemoved { source, .. } => Some(source),
            Trigger::DamageTaken { source, .. } => Some(source),
            Trigger::HealingTaken { source, .. } => Some(source),
            _ => None,
        }
    }

    /// The filter on the triggering event's target, for triggers that have one.
    pub fn target_filter(&self) -> (r: Option<&EntityFilter>)
        ensures
            match self.target_filter_of() {
                Some(f) => r == Some(&f),
                None => r is None,
            },
    {
        match self {
            Trigger::AbilityCast { target, .. } => Some(target),
            Trigger::EffectApplied { target, .. } => Some(target),
            Trigger::EffectRemoved { target, .. } => Some(target),
            Trigger::DamageTaken { target, .. } => Some(target),
            Trigger::HealingTaken { target, .. } => Some(target),
            _ => None,
        }
    }
}

/// Whether some selector of the list names the ability or effect.
pub fn abilities_match_exec(list: &Vec<AbilitySelector>, id: i64, name: &str) -> (r: bool)
    ensures
        r == abilities_match(list@, id, name@),
{
    let n = list.len();
    let mut i: usize = 0;
    while i < n
        invariant
            n == list@.len(),
            i <= n,
            forall|k: int| 0 <= k < i ==> !ability_selected(#[trigger] list@[k], id, name@),
        decreases n - i,
    {
        let hit = match &list[i] {
            AbilitySelector::Id(x) => *x == id,
            AbilitySelector::Name(s) => text_eq(s.as_str(), name),
        };
        if hit {
            assert(ability_selected(list@[i as int], id, name@));
            return true;
        }
        i = i + 1;
    }
    false
}

/// Whether the entity definition named `def_name` lists the NPC class id.
pub fn defined_as_exec(entities: &[EntityDefinition], def_name: &str, npc_id: i64) -> (r: bool)
    ensures
        r == defined_as(entities@, def_name@, npc_id),
{
    let n = entities.len();
    let mut i: usize = 0;
    while i < n
        invariant
            n == entities@.len(),
            i <= n,
            forall|k: int|
                0 <= k < i ==> !((#[trigger] entities@[k]).name@ == def_name@ && entities@[k].ids@.contains(
                    npc_id,
                )),
        decreases n - i,
    {
        let def = &entities[i];
        if text_eq(def.name.as_str(), def_name) {
            let m = def.ids.len();
            let mut j: usize = 0;
            while j < m
                invariant
                    n == entities@.len(),
                    i < n,
                    *def == entities@[i as int],
                    def.name@ == def_name@,
                    m == def.ids@.len(),
                    j <= m,
                    forall|q: int| 0 <= q < j ==> def.ids@[q] != npc_id,
                decreases m - j,
            {
                if def.ids[j] == npc_id {
                    assert(def.ids@[j as int] == npc_id);
                    assert(entities@[i as int].ids@.contains(npc_id));
                    return true;
                }
                j = j + 1;
            }
            assert(!entities@[i as int].ids@.contains(npc_id));
        }
        i = i + 1;
    }
    false
}

/// Whether the selector names the NPC.
pub fn entity_selected_exec(
    s: &EntitySelector,
    entities: &[EntityDefinition],
    npc_id: i64,
    name: &str,
) -> (r: bool)
    ensures
        r == entity_selected(*s, entities@, npc_id, name@),
{
    match s {
        EntitySelector::NpcId(i) => *i == npc_id,
        EntitySelector::Name(n) => text_eq(n.as_str(), name),
        EntitySelector::Entity(d) => defined_as_exec(entities, d.as_str(), npc_id),
    }
}

/// Whether the NPC passes the selector list.
pub fn entities_match_exec(
    list: &Vec<EntitySelector>,
    entities: &[EntityDefinition],
    npc_id: i64,
    name: &str,
) -> (r: bool)
    ensures
        r == entities_match(list@, entities@, npc_id, name@),
{
    let n = list.len();
    if n == 0 {
        return true;
    }
    let mut i: usize = 0;
    while i < n
        invariant
            n == list@.len(),
            n > 0,
            i <= n,
            forall|k: int| 0 <= k < i ==> !entity_selected(#[trigger] list@[k], entities@, npc_id, name@),
        decreases n - i,
    {
        if entity_selected_exec(&list[i], entities, npc_id, name) {
            return true;
        }
        i = i + 1;
    }
    false
}

} // verus!
