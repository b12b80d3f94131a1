//! Combat-log events and the game signals derived from them.

use vstd::prelude::*;
use crate::encounter::EntityType;

verus! {

/// Effect id of an ability activation.
pub const ABILITY_ACTIVATE: i64 = 836045448945479;

/// Effect type id of an effect being applied.
pub const APPLY_EFFECT: i64 = 836045448945477;

/// Effect type id of an effect being removed.
pub const REMOVE_EFFECT: i64 = 836045448945478;

/// One side (source or target) of a combat-log line.
pub struct EventEntity {
    pub log_id: i64,
    pub entity_type: EntityType,
    pub name: String,
    pub class_id: i64,
}

/// The ability of a combat-log line.
pub struct EventAction {
    pub action_id: i64,
    pub name: String,
}

/// The effect of a combat-log line.
pub struct EventEffect {
    pub type_id: i64,
    pub effect_id: i64,
    pub effect_name: String,
}

/// One combat-log line.
pub struct CombatEvent {
    /// Milliseconds on the log's clock.
    pub timestamp: i64,
    pub source_entity: EventEntity,
    pub target_entity: EventEntity,
    pub action: EventAction,
    pub effect: EventEffect,
}

/// A signal derived from the event stream.
pub enum GameSignal {
    CombatStarted { timestamp: i64 },
    CombatEnded { timestamp: i64 },
    /// A boss's health changed; percentages in hundredths of a percent.
    BossHpChanged { npc_id: i64, entity_name: String, old_hp_hundredths: u32, new_hp_hundredths: u32 },
    NpcFirstSeen { npc_id: i64, entity_name: String },
    EntityDeath { npc_id: i64, entity_name: String },
    PhaseChanged { old_phase: Option<String>, new_phase: String },
    PhaseEndTriggered { phase_id: String },
    CounterChanged { counter_id: String, old_value: u32, new_value: u32, timestamp: i64 },
    DamageTaken {
        ability_id: i64,
        ability_name: String,
        source_id: i64,
        source_entity_type: EntityType,
        source_name: String,
        source_npc_id: i64,
        target_id: i64,
        target_entity_type: EntityType,
        target_name: String,
        target_npc_id: i64,
    },
    HealingDone {
        ability_id: i64,
        ability_name: String,
        source_id: i64,
        source_entity_type: EntityType,
        source_name: String,
        source_npc_id: i64,
        target_id: i64,
        target_entity_type: EntityType,
        target_name: String,
        target_npc_id: i64,
    },
}

} // verus!
