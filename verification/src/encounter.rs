//! Encounter-level types shared by the history, classification and overlays.

use vstd::prelude::*;

verus! {

/// Active shield state for overlay display
#[derive(Debug, Clone)]
pub struct ActiveShield {
    pub label: String,
    pub remaining: i64,
    pub total: i64,
}

/// Classification of the phase/content type where an encounter occurred
#[derive(Debug, Clone, Copy, PartialEq, Eq, Structural)]
pub enum PhaseType {
    OpenWorld,
    Raid,
    Flashpoint,
    PvP,
    DummyParse,
}

impl Default for PhaseType {
    fn default() -> (r: PhaseType)
        ensures
            r == PhaseType::OpenWorld,
    {
        PhaseType::OpenWorld
    }
}

/// Kind of entity a combat-log line names.
#[derive(Debug, Clone, Copy, PartialEq, Eq, Structural)]
pub enum EntityType {
    Player,
    Companion,
    Npc,
    Empty,
}

/// Data sent from the service layer to the combat time overlay
#[derive(Debug, Clone, Copy, PartialEq, Eq, Structural)]
pub struct CombatTimeData {
    /// Duration of the current encounter in seconds (0 = cleared / no combat)
    pub encounter_time_secs: u64,
}

impl Default for CombatTimeData {
    fn default() -> (r: CombatTimeData)
        ensures
            r.encounter_time_secs == 0,
    {
        CombatTimeData { encounter_time_secs: 0 }
    }
}

impl CombatTimeData {
    /// Replaces the held data with `new_data` and tells whether the displayed
    /// time changed (the overlay re-renders only then).
    pub fn update(&mut self, new_data: CombatTimeData) -> (changed: bool)
        ensures
            *final(self) == new_data,
            changed == (old(self).encounter_time_secs != new_data.encounter_time_secs),
    {
        let changed = self.encounter_time_secs != new_data.encounter_time_secs;
        *self = new_data;
        changed
    }
}

} // verus!
